//! The icon of the gateway beside the clock of the system.
use vstd::prelude::*;

use crate::decimal;
use crate::text;

verus! {

/// The title of the icon.
pub const TRAY_TITLE: &'static str = "OpenRelay";

/// The number of the entry that opens the panel.
pub const ID_TRAY_OPEN: usize = 1001;

/// The number of the entry that restarts the gateway.
pub const ID_TRAY_RESTART: usize = 1002;

/// The number of the entry that ends the gateway.
pub const ID_TRAY_EXIT: usize = 1003;

/// The number of the timer that keeps the tip up to date.
pub const TIMER_STATUS: usize = 1;

/// What the part of the gateway that serves is told.
#[derive(Clone, Copy, Debug, PartialEq, Eq, Structural)]
pub enum BackendCommand {
    Restart,
    Shutdown,
}

/// The labels of the menu.
pub fn menu_labels() -> (r: [&'static str; 3])
    ensures
        r@[0]@ == "打开管理面板"@,
        r@[1]@ == "重启服务"@,
        r@[2]@ == "退出 OpenRelay"@,
{
    ["打开管理面板", "重启服务", "退出 OpenRelay"]
}

/// The address of the panel.
pub open spec fn panel_address(port: u16) -> Seq<char> {
    "http://localhost:"@ + decimal::decimal(port as nat)
}

/// The address of the panel.
pub fn default_admin_url(port: u16) -> (r: String)
    ensures
        r@ == panel_address(port),
{
    let number = decimal::number_text(port as u64);
    text::cat("http://localhost:", number.as_str())
}

/// The tip of the icon.
pub fn tip_text(port: u16) -> (r: String)
    ensures
        r@ == "OpenRelay - "@ + panel_address(port),
{
    let url = default_admin_url(port);
    text::cat("OpenRelay - ", url.as_str())
}

/// What is shown once the icon is there.
pub fn welcome_text(port: u16) -> (r: String)
    ensures
        r@ == "管理面板: "@ + panel_address(port),
{
    let url = default_admin_url(port);
    text::cat("管理面板: ", url.as_str())
}

// ---------------------------------------------------------------------------
// Events
// ---------------------------------------------------------------------------

/// What the system tells the window of the icon.
#[derive(Clone, Copy, Debug, PartialEq, Eq, Structural)]
pub enum TrayEvent {
    /// An entry of a menu was chosen; the number of the entry is in the lower sixteen bits.
    Command(usize),
    /// The menu of the icon is wanted.
    Menu,
    /// The icon was clicked twice.
    DoubleClick,
    /// Something else happened to the icon.
    OtherClick,
    /// A timer has run out.
    Timer(usize),
    /// The window is closed.
    Destroy,
    /// Anything else.
    Other,
}

/// What is done on an event.
#[derive(Clone, Copy, Debug, PartialEq, Eq, Structural)]
pub enum TrayAction {
    Nothing,
    OpenPanel,
    /// The gateway is told to restart, and a note is shown.
    Restart,
    CloseWindow,
    ShowMenu,
    UpdateTip,
    /// The timer is stopped, the icon removed, the gateway told to end, and the loop left.
    Quit,
    /// What the system does by itself.
    Default,
}

/// What is done on an event.
pub open spec fn reaction(e: TrayEvent) -> TrayAction {
    match e {
        TrayEvent::Command(w) => {
            let id = w % 0x1_0000;
            if id == ID_TRAY_OPEN {
                TrayAction::OpenPanel
            } else if id == ID_TRAY_RESTART {
                TrayAction::Restart
            } else if id == ID_TRAY_EXIT {
                TrayAction::CloseWindow
            } else {
                TrayAction::Nothing
            }
        },
        TrayEvent::Menu => TrayAction::ShowMenu,
        TrayEvent::DoubleClick => TrayAction::OpenPanel,
        TrayEvent::OtherClick => TrayAction::Nothing,
        TrayEvent::Timer(id) => if id == TIMER_STATUS {
            TrayAction::UpdateTip
        } else {
            TrayAction::Nothing
        },
        TrayEvent::Destroy => TrayAction::Quit,
        TrayEvent::Other => TrayAction::Default,
    }
}

/// What is done on an event.
pub fn window_proc(e: TrayEvent) -> (r: TrayAction)
    ensures
        r == reaction(e),
{
    match e {
        TrayEvent::Command(w) => {
            let id: usize = w % 0x1_0000;
            if id == ID_TRAY_OPEN {
                TrayAction::OpenPanel
            } else if id == ID_TRAY_RESTART {
                TrayAction::Restart
            } else if id == ID_TRAY_EXIT {
                TrayAction::CloseWindow
            } else {
                TrayAction::Nothing
            }
        },
        TrayEvent::Menu => TrayAction::ShowMenu,
        TrayEvent::DoubleClick => TrayAction::OpenPanel,
        TrayEvent::OtherClick => TrayAction::Nothing,
        TrayEvent::Timer(id) => if id == TIMER_STATUS {
            TrayAction::UpdateTip
        } else {
            TrayAction::Nothing
        },
        TrayEvent::Destroy => TrayAction::Quit,
        TrayEvent::Other => TrayAction::Default,
    }
}

/// What comes after a run of the part that serves.
#[derive(Clone, Copy, Debug, PartialEq, Eq, Structural)]
pub struct BackendNext {
    /// Whether it is still running and has to be ended first.
    pub stop_server: bool,
    /// Whether it runs again.
    pub run_again: bool,
}

/// What comes after a run of the part that serves, given whether it has ended by itself and what it
/// is told: it runs again only when told so.
pub fn backend_loop(server_ended: bool, command: Option<BackendCommand>) -> (r: BackendNext)
    ensures
        r.stop_server == !server_ended,
        r.run_again == (command == Some(BackendCommand::Restart)),
{
    let run_again = match command {
        Some(BackendCommand::Restart) => true,
        Some(BackendCommand::Shutdown) => false,
        None => false,
    };
    BackendNext { stop_server: !server_ended, run_again }
}

/// What is shown when the gateway could not serve, for the given reason.
pub fn serve_failure_text(error: &str) -> (r: String)
    ensures
        r@ == "OpenRelay 服务启动失败：\n"@ + error@
            + "\n\n可以右键托盘选择“重启服务”重试。"@,
{
    text::cat3(
        "OpenRelay 服务启动失败：\n",
        error,
        "\n\n可以右键托盘选择“重启服务”重试。",
    )
}

/// What is shown when the gateway has ended in a way that was not expected, for the given reason.
pub fn task_failure_text(error: &str) -> (r: String)
    ensures
        r@ == "OpenRelay 服务任务异常退出：\n"@ + error@
            + "\n\n可以右键托盘选择“重启服务”重试。"@,
{
    text::cat3(
        "OpenRelay 服务任务异常退出：\n",
        error,
        "\n\n可以右键托盘选择“重启服务”重试。",
    )
}

// ---------------------------------------------------------------------------
// Texts for the system
// ---------------------------------------------------------------------------

/// A character in UTF-16.
pub open spec fn utf16_units(c: char) -> Seq<u16> {
    let u = c as u32;
    if u < 0x1_0000 {
        seq![u as u16]
    } else {
        seq![
            (0xD800 + (u - 0x1_0000) / 0x400) as u16,
            (0xDC00 + (u - 0x1_0000) % 0x400) as u16,
        ]
    }
}

/// A text in UTF-16.
pub open spec fn utf16(s: Seq<char>) -> Seq<u16>
    decreases s.len(),
{
    if s.len() == 0 {
        Seq::empty()
    } else {
        utf16(s.drop_last()) + utf16_units(s.last())
    }
}

fn encode(value: &str) -> (r: Vec<u16>)
    ensures
        r@ == utf16(value@),
{
    let chars = text::chars_of(value);
    let n: usize = chars.len();
    let mut out: Vec<u16> = Vec::new();
    assert(value@.take(0) =~= Seq::empty());
    for i in 0..n
        invariant
            n == chars@.len(),
            chars@ == value@,
            out@ == utf16(value@.take(i as int)),
    {
        let c = chars[i];
        let u: u32 = c as u32;
        let ghost before = out@;
        if u < 0x1_0000 {
            out.push(u as u16);
        } else {
            let rest: u32 = u - 0x1_0000;
            out.push((0xD800 + rest / 0x400) as u16);
            out.push((0xDC00 + rest % 0x400) as u16);
        }
        assert(value@.take(i + 1).drop_last() =~= value@.take(i as int));
        assert(value@.take(i + 1).last() == c);
        assert(out@ =~= before + utf16_units(c));
    }
    assert(value@.take(n as int) =~= value@);
    out
}

/// The text in UTF-16, with a zero at its end.
pub fn to_wide(value: &str) -> (r: Vec<u16>)
    ensures
        r@ == utf16(value@).push(0),
{
    let mut out = encode(value);
    out.push(0);
    out
}

/// The unit at a place of a field of fixed length that holds a text: what does not fit is cut off,
/// and the rest, of which there is at least one place, is zero.
pub open spec fn field_unit(units: Seq<u16>, len: nat, i: int) -> u16 {
    if i < units.len() && i + 1 < len {
        units[i]
    } else {
        0
    }
}

/// Writes the text in UTF-16 to a field of fixed length, cut off where it does not fit and with at
/// least one zero at its end.
pub fn copy_wide_fixed(dest: &mut Vec<u16>, value: &str)
    ensures
        final(dest)@ == Seq::new(
            old(dest)@.len(),
            |i: int| field_unit(utf16(value@), old(dest)@.len(), i),
        ),
{
    let units = encode(value);
    let n: usize = dest.len();
    let ghost len = dest@.len();
    for i in 0..n
        invariant
            n == dest@.len(),
            n == len,
            units@ == utf16(value@),
            forall|j: int| 0 <= j < i ==> dest@[j] == field_unit(units@, len, j),
    {
        let u: u16 = if i < units.len() && i < n - 1 {
            units[i]
        } else {
            0
        };
        dest.set(i, u);
    }
    assert(dest@ =~= Seq::new(len, |i: int| field_unit(utf16(value@), len, i)));
}

/// A text in a field ends within it: the last place is zero.
pub proof fn law_field_ends_in_zero(units: Seq<u16>, len: nat)
    requires
        len > 0,
    ensures
        field_unit(units, len, len - 1) == 0,
{
}

/// The entries of the menu do what their labels say, by the lower sixteen bits of what comes; two
/// clicks open the panel, a closed window ends the gateway.
pub proof fn law_menu_does_what_it_says(high: usize, id: usize)
    requires
        high <= 0xFFFF,
        id <= 0xFFFF,
    ensures
        ({
            let e = TrayEvent::Command((high * 0x1_0000 + id) as usize);
            &&& id == 1001 ==> reaction(e) == TrayAction::OpenPanel
            &&& id == 1002 ==> reaction(e) == TrayAction::Restart
            &&& id == 1003 ==> reaction(e) == TrayAction::CloseWindow
            &&& id < 1001 || id > 1003 ==> reaction(e) == TrayAction::Nothing
        }),
        reaction(TrayEvent::Menu) == TrayAction::ShowMenu,
        reaction(TrayEvent::DoubleClick) == TrayAction::OpenPanel,
        reaction(TrayEvent::OtherClick) == TrayAction::Nothing,
        reaction(TrayEvent::Destroy) == TrayAction::Quit,
        reaction(TrayEvent::Other) == TrayAction::Default,
        reaction(TrayEvent::Timer(1)) == TrayAction::UpdateTip,
        id != 1 ==> reaction(TrayEvent::Timer(id)) == TrayAction::Nothing,
{
    let w = high * 0x1_0000 + id;
    assert(0 <= w <= 0xFFFF_FFFF);
    assert(w % 0x1_0000 == id);
}

/// A character is one unit of UTF-16 where it fits, and else two of which each says what it is; they
/// say which character it is.
pub proof fn law_characters_are_written_in_utf16(c: char)
    ensures
        (c as u32) < 0x1_0000 ==> utf16_units(c).len() == 1 && utf16_units(c)[0] == c as u32,
        (c as u32) >= 0x1_0000 ==> {
            let u = utf16_units(c);
            &&& u.len() == 2
            &&& 0xD800 <= u[0] <= 0xDBFF
            &&& 0xDC00 <= u[1] <= 0xDFFF
            &&& 0x1_0000 + (u[0] - 0xD800) * 0x400 + (u[1] - 0xDC00) == c as u32
        },
{
}

/// A text is written character by character, and one that fits stands in the field as it is.
pub proof fn law_texts_are_written_in_utf16(s: Seq<char>, c: char, len: nat, i: int)
    ensures
        utf16(Seq::empty()).len() == 0,
        utf16(s.push(c)) == utf16(s) + utf16_units(c),
        utf16(s).len() < len && 0 <= i < utf16(s).len() ==> field_unit(utf16(s), len, i) == utf16(
            s,
        )[i],
        utf16(s).len() <= i ==> field_unit(utf16(s), len, i) == 0,
{
    assert(s.push(c).drop_last() =~= s);
}

/// The panel is at the port of this machine.
pub proof fn law_panel_is_at_its_port(port: u16)
    ensures
        text::begins(panel_address(port), "http://localhost:"@),
        panel_address(port).skip("http://localhost:"@.len() as int) == decimal::decimal(
            port as nat,
        ),
{
    assert(panel_address(port).take("http://localhost:"@.len() as int) =~= "http://localhost:"@);
    assert(panel_address(port).skip("http://localhost:"@.len() as int) =~= decimal::decimal(
        port as nat,
    ));
}

} // verus!
