use openrelay::config::{load_config, AppConfig, GeneralSettings};
use openrelay::json::{Json, Member, Number};
use openrelay::migration::{
    copy_config_if_needed, copy_database_if_needed, import_usage_jsonl_once, marker_text,
    migrate_legacy_data, migration_marker, migration_report, MigrationFacts,
};
use openrelay::paths::{
    default_data_root_for_home, legacy_markers, looks_like_legacy_root, port_from_env,
    root_from_env, same_path, AppPaths, Environment, FilePath, PathIdentity, RootFacts,
};
use openrelay::usage::{legacy_usage_log, legacy_usage_log_at, usage_lines};
use serde_json::Value;
use std::path::PathBuf;

fn from_value(value: &Value) -> Json {
    match value {
        Value::Null => Json::Null,
        Value::Bool(b) => Json::Bool(*b),
        Value::Number(n) => Json::Number(if let Some(u) = n.as_u64() {
            Number::Unsigned(u)
        } else if let Some(i) = n.as_i64() {
            Number::Negative(i)
        } else {
            Number::Float(n.as_f64().unwrap().to_bits())
        }),
        Value::String(s) => Json::Text(s.clone()),
        Value::Array(items) => Json::Array(items.iter().map(from_value).collect()),
        Value::Object(map) => Json::Object(
            map.iter()
                .map(|(name, v)| Member {
                    name: name.clone(),
                    value: from_value(v),
                })
                .collect(),
        ),
    }
}

fn json(text: &str) -> Json {
    from_value(&serde_json::from_str(text).unwrap())
}
fn path_buf(p: &FilePath) -> PathBuf {
    let mut out = PathBuf::from(&p.base);
    for part in &p.parts {
        out.push(part);
    }
    out
}

fn facts() -> MigrationFacts {
    MigrationFacts {
        legacy_given: true,
        same_root: false,
        config_exists: false,
        legacy_config_exists: true,
        database_exists: false,
        legacy_database_exists: true,
        legacy_wal_exists: false,
        legacy_shm_exists: true,
        legacy_usage_exists: true,
        usage_marker_exists: false,
    }
}

#[test]
fn default_data_root_lives_under_user_home() {
    assert_eq!(
        path_buf(&default_data_root_for_home(r"C:\Users\openrelay")),
        PathBuf::from(r"C:\Users\openrelay").join(".openrelay")
    );
}

#[test]
fn migration_keeps_existing_data_config() {
    let mut legacy_cfg = AppConfig::default();
    legacy_cfg.general_settings.master_key = Some("legacy-master".to_string());

    let mut data_cfg = AppConfig::default();
    data_cfg.general_settings.master_key = Some("current-master".to_string());

    let mut f = facts();
    f.config_exists = true;
    let plan = migrate_legacy_data(f);
    let stored = if plan.copy_config { legacy_cfg } else { data_cfg };

    let cfg = load_config(stored);
    assert_eq!(
        cfg.general_settings.master_key.as_deref(),
        Some("current-master")
    );
}

#[test]
fn migration_brings_what_is_missing() {
    let plan = migrate_legacy_data(facts());
    assert!(plan.copy_config && plan.copy_database && plan.copy_shm && plan.import_usage);
    assert!(!plan.copy_wal);
    let report = migration_report(plan, 7);
    assert!(report.copied_config && report.copied_database);
    assert_eq!(report.imported_usage_rows, 7);

    let cfg = AppConfig {
        general_settings: GeneralSettings {
            master_key: Some("legacy-master".to_string()),
        },
        ..AppConfig::default()
    };
    assert_eq!(
        load_config(cfg).general_settings.master_key.as_deref(),
        Some("legacy-master")
    );
}

#[test]
fn migration_happens_once() {
    let mut f = facts();
    f.config_exists = true;
    f.database_exists = true;
    f.usage_marker_exists = true;
    let plan = migrate_legacy_data(f);
    assert!(!plan.copy_config && !plan.copy_database && !plan.import_usage);
    assert!(!plan.copy_wal && !plan.copy_shm);
    let mut same = facts();
    same.same_root = true;
    assert!(!migrate_legacy_data(same).copy_config);
    let mut none = facts();
    none.legacy_given = false;
    assert!(!migrate_legacy_data(none).import_usage);
    assert!(copy_config_if_needed(false, true) && !copy_config_if_needed(true, true));
    assert!(copy_database_if_needed(false, true) && !copy_database_if_needed(false, false));
    assert!(import_usage_jsonl_once(true, false) && !import_usage_jsonl_once(true, true));
}

#[test]
fn migration_leaves_a_marker() {
    let path = path_buf(&migration_marker("data", "usage-jsonl.done"));
    assert_eq!(path, PathBuf::from("data").join(".migrations").join("usage-jsonl.done"));
    assert_eq!(marker_text("old", 3), "source=old\nimported_rows=3\n");
}

#[test]
fn legacy_usage_is_read() {
    let line = r#"{"timestamp": 1778949353707, "request_id": "archive:legacy",
        "model": "legacy-model", "key_name": "old-key", "input_tokens": 11, "cached_tokens": 2,
        "cached_write_tokens": 3, "output_tokens": 17, "cost": 0.25, "duration_ms": 99,
        "status": 200, "stream": true, "user_agent": "old-node", "error": "",
        "path": "/v1/chat/completions"}"#;
    let log = legacy_usage_log(&json(line));
    assert_eq!(log.timestamp, "2026-05-16T16:35:53.707+00:00");
    assert_eq!(log.request_id, "archive:legacy");
    assert_eq!(log.model, "legacy-model");
    assert_eq!(log.key_name, "old-key");
    assert_eq!(log.input_tokens, 11);
    assert_eq!(log.cached_tokens, 2);
    assert_eq!(log.cached_write_tokens, 3);
    assert_eq!(log.output_tokens, 17);
    assert_eq!(log.cost, Number::Float(0.25f64.to_bits()));
    assert_eq!(log.duration_ms, 99);
    assert_eq!(log.status, 200);
    assert!(log.stream);
    assert_eq!(log.user_agent, "old-node");
    assert_eq!(log.path, "/v1/chat/completions");

    let bare = legacy_usage_log_at(&json("{}"), "then");
    assert_eq!(bare.timestamp, "then");
    assert_eq!(bare.model, "");
    assert_eq!(usage_lines("{}\n\n  \n[1]\n"), vec!["{}".to_string(), "[1]".to_string()]);
}

fn environment() -> Environment {
    Environment {
        data_dir: None,
        root: None,
        static_root: None,
        legacy_root: None,
        user_profile: None,
        home: Some("/home/me".to_string()),
        current_dir: Some("/work".to_string()),
        current_dir_facts: RootFacts {
            is_data_root: false,
            looks_legacy: true,
        },
        exe_dir: Some("/opt/relay".to_string()),
        exe_dir_has_panel: true,
        package_dir: "/src".to_string(),
        static_root_facts: RootFacts {
            is_data_root: false,
            looks_legacy: false,
        },
    }
}

#[test]
fn paths_follow_the_environment() {
    let paths = AppPaths::from_env(&environment());
    assert_eq!(path_buf(&paths.data_root), PathBuf::from("/home/me/.openrelay"));
    assert_eq!(path_buf(&paths.static_root), PathBuf::from("/opt/relay"));
    assert_eq!(path_buf(&paths.legacy_root.unwrap()), PathBuf::from("/work"));

    assert_eq!(
        path_buf(&root_from_env(&environment())),
        PathBuf::from("/home/me/.openrelay")
    );

    let mut env = environment();
    env.data_dir = Some("/data".to_string());
    env.legacy_root = Some("/old".to_string());
    let paths = AppPaths::from_env(&env);
    assert_eq!(path_buf(&paths.data_root), PathBuf::from("/data"));
    assert_eq!(path_buf(&paths.legacy_root.unwrap()), PathBuf::from("/old"));
}

#[test]
fn legacy_roots_are_known_by_their_files() {
    let markers: Vec<PathBuf> = legacy_markers("old").iter().map(path_buf).collect();
    assert!(markers.contains(&PathBuf::from("old/config.json")));
    assert!(looks_like_legacy_root(&vec![false, true]));
    assert!(!looks_like_legacy_root(&vec![false, false]));
}

#[test]
fn paths_are_compared_in_their_plain_form() {
    let canonical = |parts: &[&str]| PathIdentity {
        raw: vec!["raw".to_string()],
        canonical: Some(parts.iter().map(|p| p.to_string()).collect()),
    };
    assert!(same_path(&canonical(&["a", "b"]), &canonical(&["a", "b"])));
    assert!(!same_path(&canonical(&["a"]), &canonical(&["b"])));
    let missing = PathIdentity {
        raw: vec!["raw".to_string()],
        canonical: None,
    };
    assert!(same_path(&missing, &canonical(&["a"])));
}

#[test]
fn port_has_a_default() {
    assert_eq!(port_from_env(Some("80")), 80);
    assert_eq!(port_from_env(None), 18783);
    assert_eq!(port_from_env(Some("x")), 18783);
    assert_eq!(port_from_env(Some("65536")), 18783);
}
