use openrelay::tray::{
    backend_loop, copy_wide_fixed, default_admin_url, menu_labels, serve_failure_text,
    task_failure_text, tip_text, to_wide, welcome_text, window_proc, BackendCommand, TrayAction,
    TrayEvent, ID_TRAY_EXIT, ID_TRAY_OPEN, ID_TRAY_RESTART, TIMER_STATUS, TRAY_TITLE,
};

#[test]
fn tray_menu_uses_chinese_openrelay_labels() {
    assert_eq!(TRAY_TITLE, "OpenRelay");
    assert_eq!(
        menu_labels(),
        ["打开管理面板", "重启服务", "退出 OpenRelay"]
    );
}

#[test]
fn tray_admin_url_uses_existing_default_port() {
    assert_eq!(default_admin_url(18783), "http://localhost:18783");
}

#[test]
fn tray_texts_name_the_panel() {
    assert_eq!(tip_text(18783), "OpenRelay - http://localhost:18783");
    assert_eq!(welcome_text(80), "管理面板: http://localhost:80");
    assert_eq!(
        serve_failure_text("in use"),
        "OpenRelay 服务启动失败：\nin use\n\n可以右键托盘选择“重启服务”重试。"
    );
    assert_eq!(
        task_failure_text("gone"),
        "OpenRelay 服务任务异常退出：\ngone\n\n可以右键托盘选择“重启服务”重试。"
    );
}

#[test]
fn tray_events_lead_to_actions() {
    assert_eq!(window_proc(TrayEvent::Command(ID_TRAY_OPEN)), TrayAction::OpenPanel);
    assert_eq!(window_proc(TrayEvent::Command(ID_TRAY_RESTART)), TrayAction::Restart);
    assert_eq!(window_proc(TrayEvent::Command(ID_TRAY_EXIT)), TrayAction::CloseWindow);
    // Only the lower sixteen bits name the entry.
    assert_eq!(
        window_proc(TrayEvent::Command(0x7_0000 + ID_TRAY_OPEN)),
        TrayAction::OpenPanel
    );
    assert_eq!(window_proc(TrayEvent::Command(7)), TrayAction::Nothing);
    assert_eq!(window_proc(TrayEvent::Menu), TrayAction::ShowMenu);
    assert_eq!(window_proc(TrayEvent::DoubleClick), TrayAction::OpenPanel);
    assert_eq!(window_proc(TrayEvent::OtherClick), TrayAction::Nothing);
    assert_eq!(window_proc(TrayEvent::Timer(TIMER_STATUS)), TrayAction::UpdateTip);
    assert_eq!(window_proc(TrayEvent::Timer(9)), TrayAction::Nothing);
    assert_eq!(window_proc(TrayEvent::Destroy), TrayAction::Quit);
    assert_eq!(window_proc(TrayEvent::Other), TrayAction::Default);
}

#[test]
fn backend_runs_again_only_when_told() {
    let again = backend_loop(true, Some(BackendCommand::Restart));
    assert!(again.run_again && !again.stop_server);
    let end = backend_loop(false, Some(BackendCommand::Shutdown));
    assert!(!end.run_again && end.stop_server);
    assert!(!backend_loop(false, None).run_again);
}

#[test]
fn texts_are_written_in_utf_16() {
    assert_eq!(to_wide("a中😀"), vec![0x61, 0x4E2D, 0xD83D, 0xDE00, 0]);
    let mut expected: Vec<u16> = "OpenRelay 服务".encode_utf16().collect();
    expected.push(0);
    assert_eq!(to_wide("OpenRelay 服务"), expected);
}

#[test]
fn fields_end_in_zero() {
    let mut field: Vec<u16> = vec![9; 4];
    copy_wide_fixed(&mut field, "abcdef");
    assert_eq!(field, vec![0x61, 0x62, 0x63, 0]);
    copy_wide_fixed(&mut field, "x");
    assert_eq!(field, vec![0x78, 0, 0, 0]);
    let mut empty: Vec<u16> = Vec::new();
    copy_wide_fixed(&mut empty, "x");
    assert!(empty.is_empty());
}
