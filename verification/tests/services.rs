use openrelay::admin::{
    admin_token, change_password, change_password_with, delete_virtual_key, detect_models, login,
    post_limits, post_pricing, post_virtual_key, post_virtual_key_with, put_virtual_key,
    session_expiry, session_expiry_at, with_storage, PasswordChange,
};
use openrelay::clock::{
    from_millis, moment_text, now_text, stamp_text, text_before, unix_milliseconds_to_rfc3339,
    unix_milliseconds_to_rfc3339_at, Moment,
};
use openrelay::config::{
    AppConfig, ConversationStorage, ModelConfig, ProviderConfig, VirtualKeyConfig,
};
use openrelay::decimal::{number_text, parse_number};
use openrelay::health::{
    classify_failure, env_name, fail_check, failed_trial, finish_check, finish_trial, plan_check,
    provider_base_url, resolve_api_key, HealthPlan,
};
use openrelay::ids::{new_request_id, new_simple_id, new_virtual_key, virtual_key_from};
use openrelay::json::{Json, Member, Number};
use openrelay::password::{hash_password, verify_password};
use openrelay::presets::provider_presets;
use openrelay::release::{
    app_status, finish_update, set_startup_enabled, startup_script, startup_script_path,
    startup_status, update_refused, update_unreachable, version_newer, version_parts,
    StartupAction,
};
use openrelay::session::{
    admitted, issue_token, issue_token_at, require_admin, TokenFault,
};
use openrelay::statics::{
    content_type, extension_of, keep_normal, safe_relative, static_file, static_target, PathPart,
};
use openrelay::text::{
    can_cut, clip, collapse_slashes, cut, join, less, lower_ascii, split, split_once, trim,
};
use openrelay::validation::{
    fail_reachability, finish_reachability, plan_reachability, validate_config_issues,
    validation_passes, ReachPlan,
};
use openrelay::weburl::{names_address, names_web_address, path_of, query_key};
use serde_json::Value;

fn from_value(value: &Value) -> Json {
    match value {
        Value::Null => Json::Null,
        Value::Bool(b) => Json::Bool(*b),
        Value::Number(n) => Json::Number(if let Some(u) = n.as_u64() {
            Number::Unsigned(u)
        } else if let Some(i) = n.as_i64() {
            Number::Negative(i)
        } else {
            Number::Float(n.as_f64().unwrap().to_bits())
        }),
        Value::String(s) => Json::Text(s.clone()),
        Value::Array(items) => Json::Array(items.iter().map(from_value).collect()),
        Value::Object(map) => Json::Object(
            map.iter()
                .map(|(name, v)| Member {
                    name: name.clone(),
                    value: from_value(v),
                })
                .collect(),
        ),
    }
}

fn to_value(j: &Json) -> Value {
    match j {
        Json::Null => Value::Null,
        Json::Bool(b) => Value::Bool(*b),
        Json::Number(Number::Unsigned(u)) => Value::from(*u),
        Json::Number(Number::Negative(i)) => Value::from(*i),
        Json::Number(Number::Float(bits)) => Value::from(f64::from_bits(*bits)),
        Json::Text(s) => Value::from(s.clone()),
        Json::Array(items) => Value::Array(items.iter().map(to_value).collect()),
        Json::Object(ms) => Value::Object(
            ms.iter()
                .map(|m| (m.name.clone(), to_value(&m.value)))
                .collect(),
        ),
    }
}

fn json(text: &str) -> Json {
    from_value(&serde_json::from_str(text).unwrap())
}
fn provider(name: &str, base_url: &str, api_key: &str, aliases: &[&str]) -> ProviderConfig {
    ProviderConfig {
        id: name.to_string(),
        name: name.to_string(),
        provider_type: "openai".to_string(),
        base_url: Some(base_url.to_string()),
        api_key: api_key.to_string(),
        user_agent: None,
        models: aliases
            .iter()
            .map(|a| ModelConfig {
                model_name: a.to_string(),
                model_id: "".to_string(),
            })
            .collect(),
    }
}

fn good() -> ProviderConfig {
    provider("OpenAI", "https://api.example.com/v1", "provider-key", &["local-gpt"])
}

#[test]
fn providers_are_asked_for_their_models() {
    match plan_check(&good(), None) {
        HealthPlan::Ask(probe) => {
            assert_eq!(probe.url, "https://api.example.com/v1/models");
            assert_eq!(probe.key_header, "authorization");
            assert_eq!(probe.key_value, "Bearer provider-key");
            assert_eq!(probe.user_agent, "OpenRelay-Gateway/1.0");
        }
        HealthPlan::Known(h) => panic!("{}", h.code),
    }
    let mut gemini = good();
    gemini.provider_type = "gemini".to_string();
    gemini.base_url = Some("https://g.example.com/v1beta".to_string());
    match plan_check(&gemini, None) {
        HealthPlan::Ask(probe) => assert_eq!(probe.key_header, "x-goog-api-key"),
        HealthPlan::Known(h) => panic!("{}", h.code),
    }
}

#[test]
fn providers_that_cannot_be_asked_are_known() {
    let code = |p: &ProviderConfig| match plan_check(p, None) {
        HealthPlan::Known(h) => h.code,
        HealthPlan::Ask(_) => panic!("asked"),
    };
    assert_eq!(code(&provider("a", "https://a", " ", &[])), "missing_api_key");
    assert_eq!(
        code(&provider("a", "https://a", "os.environ/KEY", &[])),
        "unresolved_api_key_env"
    );
    assert_eq!(code(&provider("a", "no address", "k", &[])), "invalid_base_url");
    assert_eq!(env_name("os.environ/KEY").as_deref(), Some("KEY"));
    assert_eq!(env_name("plain"), None);
    assert_eq!(resolve_api_key("os.environ/KEY", Some("v")), "v");
    assert_eq!(resolve_api_key("plain", None), "plain");
    assert_eq!(
        provider_base_url("openai", "https://api.example.com/v1"),
        "https://api.example.com/v1"
    );
}

#[test]
fn health_reports_success_latency_and_model_count() {
    let value = json(r#"{"data": [{"id": "a"}, {"id": "b"}]}"#);
    let h = finish_check(&good(), 200, "", Some(&value), 0);
    assert_eq!((h.status.as_str(), h.code.as_str()), ("ok", "available"));
    assert_eq!(h.http_status, Some(200));
    assert_eq!(h.model_count, Some(2));
    assert_eq!(h.latency_ms, Some(1));
    assert_eq!(h.message, "服务商可用");
}

#[test]
fn health_does_not_tell_the_key() {
    let mut other = good();
    other.api_key = "another-key".to_string();
    let a = finish_check(&good(), 401, "denied", None, 7);
    let b = finish_check(&other, 401, "denied", None, 7);
    assert_eq!(format!("{a:?}"), format!("{b:?}"));
    assert!(!format!("{a:?}").contains("provider-key"));
}

#[test]
fn health_classifies_auth_and_rate_limit_failures() {
    let code = |status: u16, body: &str| finish_check(&good(), status, body, None, 5).code;
    assert_eq!(code(401, ""), "auth_failed");
    assert_eq!(code(403, ""), "auth_failed");
    assert_eq!(code(402, ""), "quota_or_balance");
    assert_eq!(code(429, ""), "rate_limited");
    assert_eq!(code(500, "Quota exceeded"), "quota_or_balance");
    assert_eq!(code(500, "broken"), "upstream_error");
    assert_eq!(classify_failure(404, "BALANCE"), "quota_or_balance");
    let h = finish_check(&good(), 500, "", None, 5);
    assert_eq!(h.message, "模型列表检查返回 HTTP 500");
    assert_eq!(h.model_count, None);
    let f = fail_check(&good(), true, "late", 9);
    assert_eq!(f.code, "timeout");
    assert_eq!(fail_check(&good(), false, "refused", 9).code, "network_error");
}

#[test]
fn providers_are_tried_out() {
    let failed = to_value(&failed_trial());
    assert_eq!(failed.to_string(), r#"{"error":"连接失败","success":false}"#);
    let refused = to_value(&finish_trial(401, "401 Unauthorized", &json("{}"), false));
    assert_eq!(refused["error"], "HTTP 401 Unauthorized");
    let listed = to_value(&finish_trial(200, "200 OK", &json(r#"{"data": [{"id": "a"}]}"#), false));
    assert_eq!(listed.to_string(), r#"{"models":[{"id":"a"}],"success":true}"#);
    let gemini = to_value(&finish_trial(
        200,
        "200 OK",
        &json(r#"{"models": [{"name": "models/gemini-1.5-pro"}, {"name": "other"}]}"#),
        true,
    ));
    assert_eq!(gemini["models"][0]["id"], "gemini-1.5-pro");
    assert_eq!(gemini["models"][0]["owned_by"], "google");
    assert_eq!(gemini["models"][1]["id"], "other");
}

#[test]
fn validation_reports_save_blockers_and_warnings() {
    let cfg = AppConfig {
        providers: vec![
            provider("Broken", "localhost:8000", "", &["dup-model"]),
            provider("Duplicate", "https://api.example.com/v1", "provider-key", &["dup-model"]),
        ],
        pricing: json(
            r#"{"dup-model": {"input": 0, "cached_input": 0, "cached_write": 0, "output": 0}}"#,
        ),
        ..AppConfig::default()
    };
    let issues = validate_config_issues(&cfg);
    let has = |code: &str, severity: &str| {
        issues
            .iter()
            .any(|i| i.code == code && i.severity == severity)
    };
    assert!(has("missing_api_key", "error"));
    assert!(has("invalid_base_url", "error"));
    assert!(has("duplicate_model_alias", "error"));
    assert!(has("missing_pricing", "warning"));
    assert!(!validation_passes(&issues));
}

#[test]
fn validation_passes_with_warnings_only() {
    let cfg = AppConfig {
        providers: vec![good(), provider("", "https://b", "k", &[])],
        ..AppConfig::default()
    };
    let issues = validate_config_issues(&cfg);
    assert!(issues.iter().any(|i| i.code == "missing_models"));
    assert!(issues.iter().any(|i| i.code == "missing_provider_name"));
    let fine = validate_config_issues(&AppConfig {
        providers: vec![good()],
        pricing: json(r#"{"local-gpt": {"input": 1, "output": 2}}"#),
        ..AppConfig::default()
    });
    assert!(fine.is_empty());
    assert!(validation_passes(&fine));
}

#[test]
fn orderly_configurations_are_acceptable() {
    let passes = |providers: Vec<ProviderConfig>| {
        validation_passes(&validate_config_issues(&AppConfig {
            providers,
            ..AppConfig::default()
        }))
    };
    let other = |alias: &str| provider("Other", "https://b", "k", &[alias]);
    assert!(passes(vec![]));
    assert!(passes(vec![good(), other("x")]));
    assert!(!passes(vec![good(), other(" local-gpt ")]));
    assert!(!passes(vec![good(), other(" ")]));
    assert!(!passes(vec![provider("", "https://b", "k", &[])]));
    assert!(!passes(vec![provider("a", "https://b", " ", &[])]));
    assert!(!passes(vec![provider("a", "ftp://b", "k", &[])]));
}

#[test]
fn reachability_is_reported() {
    let missing = provider("Env", "http://127.0.0.1:9/v1", "os.environ/MISSING", &["m"]);
    match plan_reachability(&missing, 0, None) {
        ReachPlan::Report(issue) => {
            assert_eq!(issue.code, "unresolved_api_key_env");
            assert_eq!(issue.severity, "warning");
        }
        _ => panic!("not reported"),
    }
    assert!(matches!(plan_reachability(&good(), 1, None), ReachPlan::Ask(_)));
    assert!(matches!(
        plan_reachability(&provider("a", "https://a", "", &[]), 0, None),
        ReachPlan::Skip
    ));
    assert!(finish_reachability(&good(), 1, 200, "200 OK").is_none());
    let refused = finish_reachability(&good(), 1, 500, "500 Internal Server Error").unwrap();
    assert_eq!(refused.code, "provider_unreachable");
    let failed = fail_reachability(&good(), 1, "refused");
    assert_eq!(failed.code, "provider_unreachable");
    assert_eq!(failed.message, "OpenAI 暂时不可达: refused");
}

#[test]
fn versions_are_ordered() {
    assert_eq!(version_parts("v1.2.3-rc1"), vec![1, 2, 3, 0]);
    assert!(version_newer("v1.10.0", "1.9.9"));
    assert!(!version_newer("1.9.9", "v1.10.0"));
    assert!(!version_newer("1.0", "1.0"));
    assert!(version_newer("1.0.0", "1.0"));
}

#[test]
fn updates_are_found() {
    let info = finish_update(
        "1.0.0",
        &json(r#"{"tag_name": "v1.1.0", "html_url": "https://x", "body": "notes"}"#),
    );
    assert_eq!(info.latest_version.as_deref(), Some("1.1.0"));
    assert!(info.update_available);
    assert_eq!(info.release_url.as_deref(), Some("https://x"));
    assert_eq!(info.changelog.as_deref(), Some("notes"));
    assert_eq!(info.error, None);
    let none = update_unreachable("1.0.0");
    assert!(!none.update_available);
    assert_eq!(none.error.as_deref(), Some("无法连接 GitHub Releases"));
    assert_eq!(
        update_refused("1.0.0", "404 Not Found").error.as_deref(),
        Some("GitHub Releases 返回 HTTP 404 Not Found")
    );
}

#[test]
fn the_gateway_starts_with_the_system() {
    let path = startup_script_path(Some("C:\\Roaming")).unwrap();
    assert_eq!(path.base, "C:\\Roaming");
    assert_eq!(path.parts.last().unwrap(), "OpenRelay.cmd");
    assert!(startup_script_path(None).is_none());
    assert_eq!(
        startup_script("C:\\o.exe"),
        "@echo off\r\nstart \"OpenRelay\" \"C:\\o.exe\"\r\n"
    );
    assert_eq!(set_startup_enabled(true, true, false), StartupAction::WriteScript);
    assert_eq!(set_startup_enabled(false, true, true), StartupAction::RemoveScript);
    assert_eq!(set_startup_enabled(false, true, false), StartupAction::Nothing);
    assert_eq!(set_startup_enabled(true, false, true), StartupAction::Nothing);
    let status = app_status("1.0.0", "data", "static", startup_status(false, None, false), false);
    assert_eq!(status.version, "1.0.0");
    assert_eq!(status.data_root, "data");
    assert!(!status.startup.supported && !status.secrets_supported);
    let on = startup_status(true, Some("p"), true);
    assert!(on.supported && on.enabled);
}

#[test]
fn presets_seed_the_wizard() {
    let presets = provider_presets();
    let find = |id: &str| presets.iter().find(|p| p.id == id).unwrap();
    assert!(!find("openrouter").models.is_empty());
    assert!(!find("bailian").models.is_empty());
    let anthropic = find("anthropic");
    assert_eq!(anthropic.provider_type, "anthropic");
    assert_eq!(anthropic.base_url, "https://api.anthropic.com/v1");
    assert_eq!(anthropic.api_key_placeholder, "os.environ/ANTHROPIC_API_KEY");
    let flow = find("siliconflow-cn");
    assert_eq!(flow.base_url, "https://api.siliconflow.cn/v1");
    assert_eq!(flow.api_key_placeholder, "os.environ/SILICONFLOW_CN_API_KEY");
    assert!(flow.models.len() >= 3);
}

#[test]
fn passwords_are_checked() {
    let cfg = AppConfig::default();
    assert!(login(&cfg, "admin", "admin123"));
    assert!(!login(&cfg, "admin", "wrong"));
    assert!(!login(&cfg, "someone", "admin123"));
    assert!(!verify_password("admin123", "no hash"));
    let hash = hash_password("secret").unwrap();
    assert!(hash != "secret");
    assert!(verify_password("secret", &hash));
}

#[test]
fn new_password_logs_in() {
    let cfg = AppConfig::default();
    match change_password(&cfg, "admin123", "next") {
        PasswordChange::Changed(next) => {
            assert!(login(&next, "admin", "next"));
            assert!(!login(&next, "admin", "admin123"));
        }
        other => panic!("{other:?}"),
    }
    assert!(matches!(
        change_password(&cfg, "wrong", "next"),
        PasswordChange::WrongPassword
    ));
    assert!(matches!(
        change_password_with(&cfg, "admin123", Err("too long".to_string())),
        PasswordChange::Failed(e) if e == "too long"
    ));
}

const SECRET: &str = "a secret";

#[test]
fn issued_token_opens_what_needs_the_administrator() {
    let cfg = AppConfig::default();
    let token = issue_token(&cfg, "admin", "admin123", SECRET).unwrap();
    let header = format!("Bearer {token}");
    assert!(require_admin(Some(&header), None, SECRET).is_ok());
    assert!(require_admin(None, Some(&token), SECRET).is_ok());
    // It is signed with this secret and no other.
    assert!(matches!(
        require_admin(Some(&header), None, "another"),
        Err(TokenFault::Invalid(_))
    ));
    assert!(matches!(
        issue_token(&cfg, "admin", "wrong", SECRET),
        Err(TokenFault::Unauthorized)
    ));
    assert!(matches!(
        issue_token(&cfg, "someone", "admin123", SECRET),
        Err(TokenFault::Unauthorized)
    ));
}

#[test]
fn tokens_that_are_not_good_are_refused() {
    let none = require_admin(None, None, SECRET).unwrap_err();
    assert!(matches!(none, TokenFault::Unauthorized));
    assert_eq!(none.message(), "Unauthorized");
    let odd = require_admin(Some("Bearer x"), None, SECRET).unwrap_err();
    assert_eq!(odd.message(), "JWT error: InvalidToken");
    // A session that ended long ago.
    let cfg = AppConfig::default();
    let then = Moment { secs: 0, nanos: 0 };
    let old = issue_token_at(&cfg, "admin", "admin123", SECRET, then).unwrap();
    let late = require_admin(None, Some(&old), SECRET).unwrap_err();
    assert_eq!(late.message(), "JWT error: ExpiredSignature");
    // A token that does not say who the user is.
    let mut claims = serde_json::Map::new();
    claims.insert("exp".to_string(), Value::from(session_expiry()));
    let key = jsonwebtoken::EncodingKey::from_secret(SECRET.as_bytes());
    let nameless =
        jsonwebtoken::encode(&jsonwebtoken::Header::default(), &claims, &key).unwrap();
    assert_eq!(
        require_admin(None, Some(&nameless), SECRET).unwrap_err().message(),
        "JWT error: JSON error: missing field `username`"
    );
}

#[test]
fn claims_are_complete() {
    let name = || Some("admin".to_string());
    assert_eq!(admitted(Ok((name(), Some(1)))), Ok(()));
    assert_eq!(
        admitted(Ok((None, Some(1)))),
        Err("JSON error: missing field `username`".to_string())
    );
    assert_eq!(
        admitted(Ok((name(), None))),
        Err("JSON error: missing field `exp`".to_string())
    );
    assert_eq!(admitted(Err("late".to_string())), Err("late".to_string()));
}

#[test]
fn sessions_end() {
    assert_eq!(session_expiry_at(Moment { secs: 100, nanos: 0 }), 100 + 604_800);
    assert!(session_expiry() > 604_800);
    assert_eq!(admin_token(Some("Bearer t"), None).as_deref(), Some("t"));
    assert_eq!(admin_token(Some("Bearer t"), Some("q")).as_deref(), Some("q"));
    assert_eq!(admin_token(Some("Bearer t"), Some(" ")).as_deref(), Some("t"));
    assert_eq!(admin_token(None, None), None);
}

#[test]
fn keys_are_made_changed_and_removed() {
    let cfg = AppConfig::default();
    let wish = || VirtualKeyConfig {
        name: "dev".to_string(),
        ..VirtualKeyConfig::default()
    };
    let (cfg, made) = post_virtual_key_with(&cfg, wish(), "sk-1".to_string());
    assert_eq!(made.key, "sk-1");
    assert_eq!(cfg.virtual_keys.len(), 1);
    let changed = put_virtual_key(
        &cfg,
        0,
        VirtualKeyConfig {
            name: "ops".to_string(),
            key: "other".to_string(),
            ..VirtualKeyConfig::default()
        },
    )
    .unwrap();
    assert_eq!(changed.virtual_keys[0].name, "ops");
    assert_eq!(changed.virtual_keys[0].key, "sk-1");
    assert!(put_virtual_key(&cfg, 1, wish()).is_none());
    assert!(delete_virtual_key(&cfg, 1).is_none());
    assert!(delete_virtual_key(&cfg, 0).unwrap().virtual_keys.is_empty());
    let (_, random) = post_virtual_key(&cfg, wish());
    assert!(random.key != "");
    assert_eq!(virtual_key_from("0a"), "sk-vk-0a");
    assert!(new_virtual_key() != new_virtual_key());
}

#[test]
fn identifiers_are_new() {
    let simple = new_simple_id();
    assert_eq!(&simple[12..13], "4");
    assert_eq!(&new_request_id()[14..15], "4");
    assert_eq!(simple.len(), 32);
    assert!(simple.chars().all(|c| c.is_ascii_hexdigit()));
    assert!(simple != new_simple_id());
    assert_eq!(new_request_id().len(), 36);
    assert!(new_request_id() != new_request_id());
}

#[test]
fn settings_are_replaced() {
    let cfg = AppConfig::default();
    let priced = post_pricing(&cfg, json(r#"{"m": 1}"#));
    assert_eq!(to_value(&priced.pricing).to_string(), r#"{"m":1}"#);
    let limited = post_limits(&cfg, json(r#"{"global": {}}"#));
    assert_eq!(to_value(&limited.limits).to_string(), r#"{"global":{}}"#);
    let stored = with_storage(
        &cfg,
        ConversationStorage {
            enabled: true,
            directory: "d".to_string(),
        },
    );
    assert_eq!(stored.conversation_storage.directory, "d");
    let cfg = AppConfig {
        providers: vec![good()],
        ..AppConfig::default()
    };
    let found = to_value(&detect_models(&cfg));
    assert_eq!(found["count"], 1);
    assert_eq!(found["models"][0]["id"], "local-gpt");
    assert_eq!(found["models"][0]["provider"], "OpenAI");
}

#[test]
fn files_of_the_panel_stay_below_it() {
    assert_eq!(static_target("/"), "index.html");
    assert_eq!(static_target("//login.html"), "login.html");
    assert_eq!(safe_relative("a/../b/./c"), vec!["a", "b", "c"]);
    assert_eq!(safe_relative("./assets//app.js/"), vec!["assets", "app.js"]);
    assert!(safe_relative("..").is_empty());
    assert_eq!(safe_relative("../../etc/./passwd"), vec!["etc", "passwd"]);
    assert_eq!(safe_relative("/assets/app.js"), vec!["assets", "app.js"]);
    assert!(safe_relative("/").is_empty());
    let again = safe_relative("/a/../b//c").join("/");
    assert_eq!(safe_relative(&again), vec!["a", "b", "c"]);
    // A colon past the second character splits nothing.
    assert_eq!(safe_relative("ab:c/d:e"), vec!["ab:c", "d:e"]);
    assert_eq!(safe_relative("/a:b"), vec!["a:b"]);
    assert_eq!(
        keep_normal(&vec![
            PathPart::Prefix,
            PathPart::Root,
            PathPart::Parent,
            PathPart::Normal("x".to_string()),
            PathPart::Current,
        ]),
        vec!["x".to_string()]
    );
    let file = static_file("/opt/relay", "/../../etc/passwd");
    assert_eq!(file.base, "/opt/relay");
    assert_eq!(file.parts, vec!["public", "etc", "passwd"]);
}

#[test]
fn content_types_follow_the_extension() {
    assert_eq!(extension_of("a.tar.gz"), "gz");
    assert_eq!(extension_of(".hidden"), "");
    assert_eq!(extension_of("plain"), "");
    assert_eq!(content_type(&static_file("r", "/")), "text/html");
    assert_eq!(content_type(&static_file("r", "/assets/x.png")), "image/png");
    assert_eq!(content_type(&static_file("r", "/LICENSE")), "application/octet-stream");
}

#[test]
fn times_are_written() {
    let m = from_millis(1_778_949_353_707);
    assert_eq!(moment_text(m).as_deref(), Some("2026-05-16T16:35:53.707+00:00"));
    assert_eq!(stamp_text(m).as_deref(), Some("20260516T163553.707Z"));
    assert_eq!(unix_milliseconds_to_rfc3339(0), "1970-01-01T00:00:00+00:00");
    // A time out of range is taken for now.
    let now = Moment { secs: 60, nanos: 0 };
    assert_eq!(
        unix_milliseconds_to_rfc3339_at(i64::MAX, now).as_deref(),
        Some("1970-01-01T00:01:00+00:00")
    );
    let before = from_millis(-1);
    assert_eq!((before.secs, before.nanos), (-1, 999_000_000));
    assert_eq!(
        moment_text(before).as_deref(),
        Some("1969-12-31T23:59:59.999+00:00")
    );
    assert!(text_before("1970-01-01T00:00:59Z", now));
    assert!(!text_before("1970-01-01T00:01:00Z", now));
    assert!(now_text().ends_with("+00:00"));
}

#[test]
fn addresses_are_read() {
    assert_eq!(path_of("https://a.com/b/c?d").unwrap(), "/b/c");
    assert_eq!(path_of("b/c").unwrap_err(), "relative URL without a base");
    assert!(names_address("ftp://a"));
    assert!(names_web_address("https://a"));
    assert!(!names_web_address("ftp://a"));
    assert!(!names_web_address("localhost"));
    assert_eq!(query_key(Some("a=1&key=x%20y")).as_deref(), Some("x y"));
    assert_eq!(query_key(Some("a=1")), None);
    assert_eq!(query_key(None), None);
}

#[test]
fn numbers_are_written_and_read() {
    assert_eq!(number_text(0), "0");
    assert_eq!(number_text(u64::MAX), "18446744073709551615");
    assert_eq!(parse_number("18446744073709551615"), Some(u64::MAX));
    assert_eq!(parse_number("18446744073709551616"), None);
    assert_eq!(parse_number(""), None);
    assert_eq!(parse_number("-1"), None);
    assert!(Number::Float(0.5f64.to_bits()).positive());
    assert!(!Number::Float((-0.5f64).to_bits()).positive());
    assert!(!Number::Float(0f64.to_bits()).positive());
    assert_eq!(Number::Float(12.9f64.to_bits()).to_whole(), 12);
    assert_eq!(Number::Float(1e30f64.to_bits()).to_whole(), u64::MAX);
    assert_eq!(Number::Float((-3.0f64).to_bits()).to_whole(), 0);
    assert_eq!(Number::Negative(-3).to_whole(), 0);
}

#[test]
fn values_are_changed_by_name() {
    let mut v = json(r#"{"a": 1, "b": {"c": "x"}}"#);
    v.put("a", Json::Bool(true));
    v.put("d", Json::Null);
    v.remove("b");
    assert_eq!(to_value(&v).to_string(), r#"{"a":true,"d":null}"#);
    assert!(v.get("b").is_none());
    assert_eq!(json(r#"{"b": {"c": "x"}}"#).get2("b", "c").unwrap().as_text(), Some("x"));
    let same = v.copy();
    assert_eq!(to_value(&same), to_value(&v));
}

#[test]
fn texts_are_taken_apart() {
    assert_eq!(trim(" \u{3000}a b\n"), "a b");
    assert_eq!(split("a,,b", ','), vec!["a", "", "b"]);
    assert_eq!(join(&vec!["a".to_string(), "b".to_string()], ", "), "a, b");
    assert_eq!(
        split_once("a=b=c", '='),
        Some(("a".to_string(), "b=c".to_string()))
    );
    assert_eq!(collapse_slashes("a////b"), "a////b".replace("//", "/"));
    assert_eq!(lower_ascii("AÉz"), "aÉz");
    assert_eq!(clip("中文字", 2), "中文");
    assert!(less("a", "b") && less("a", "ab") && !less("b", "b"));
    assert!(can_cut("0123456789", 4, 4));
    assert_eq!(cut("0123456789", 4, 4), ("0123".to_string(), "6789".to_string()));
    assert!(!can_cut("中文", 1, 1));
}
