use openrelay::backups::{
    backup_created_at, backup_id, backup_id_from_filename, backup_path, backup_reason,
    backups_dir, count_models, entry_from_config, existing_backup, new_backup_id, sort_backups,
    valid_backup_id, BackupError,
};
use openrelay::config::{
    admin_with, config_path, config_with, default_provider_type, ensure_files, flatten_for_yaml, load_config, upstream_model, yaml_path,
    AppConfig, ModelConfig, ProviderConfig, VirtualKeyConfig, FALLBACK_PASSWORD_HASH,
};
use openrelay::configjson::{
    can_mask_keys, can_redact_config, complete_incoming, config_value, export_current_config,
    keep_identity, masked_keys_value, panel_value,
};
use openrelay::hexcode::{hex_decode, hex_encode};
use openrelay::json::{Json, Member, Number};
use openrelay::secrets::{
    audit_passes, audit_security, can_redact, config_for_storage, count_protectable_provider_keys,
    is_protected_secret, keys_to_replace, protect_config_secrets, protect_secret,
    protection_enabled, protection_marker_path, redact_secret, replace_keys, secrets_supported,
    should_protect_value, unprotect_config, unprotect_secret, SecretFault,
};
use serde_json::Value;

fn from_value(value: &Value) -> Json {
    match value {
        Value::Null => Json::Null,
        Value::Bool(b) => Json::Bool(*b),
        Value::Number(n) => Json::Number(if let Some(u) = n.as_u64() {
            Number::Unsigned(u)
        } else if let Some(i) = n.as_i64() {
            Number::Negative(i)
        } else {
            Number::Float(n.as_f64().unwrap().to_bits())
        }),
        Value::String(s) => Json::Text(s.clone()),
        Value::Array(items) => Json::Array(items.iter().map(from_value).collect()),
        Value::Object(map) => Json::Object(
            map.iter()
                .map(|(name, v)| Member {
                    name: name.clone(),
                    value: from_value(v),
                })
                .collect(),
        ),
    }
}

fn to_value(j: &Json) -> Value {
    match j {
        Json::Null => Value::Null,
        Json::Bool(b) => Value::Bool(*b),
        Json::Number(Number::Unsigned(u)) => Value::from(*u),
        Json::Number(Number::Negative(i)) => Value::from(*i),
        Json::Number(Number::Float(bits)) => Value::from(f64::from_bits(*bits)),
        Json::Text(s) => Value::from(s.clone()),
        Json::Array(items) => Value::Array(items.iter().map(to_value).collect()),
        Json::Object(ms) => Value::Object(
            ms.iter()
                .map(|m| (m.name.clone(), to_value(&m.value)))
                .collect(),
        ),
    }
}

fn json(text: &str) -> Json {
    from_value(&serde_json::from_str(text).unwrap())
}
fn provider(api_key: &str, models: Vec<ModelConfig>) -> ProviderConfig {
    ProviderConfig {
        id: "p1".to_string(),
        name: "OpenAI".to_string(),
        provider_type: "openai".to_string(),
        base_url: Some("https://api.example.com/v1".to_string()),
        api_key: api_key.to_string(),
        user_agent: None,
        models,
    }
}

fn local_gpt() -> Vec<ModelConfig> {
    vec![ModelConfig {
        model_name: "local-gpt".to_string(),
        model_id: "gpt-4o-mini".to_string(),
    }]
}

#[test]
fn ensure_files_creates_default_config_and_yaml() {
    assert_eq!(config_path("data").base, "data");
    assert_eq!(config_path("data").parts, vec!["config.json".to_string()]);
    assert_eq!(yaml_path("data").base, "data");
    assert_eq!(yaml_path("data").parts, vec!["openrelay-config.yaml".to_string()]);

    // Neither file is there, so both are written.
    let written = ensure_files(None, false).unwrap();
    let cfg = load_config(written);
    assert_eq!(cfg.admin.username, "admin");
    assert_eq!(
        cfg.general_settings.master_key.as_deref(),
        Some("openrelay-master")
    );
    assert!(!cfg.conversation_storage.enabled);
    assert!(cfg.conversation_storage.directory.is_empty());
}

#[test]
fn fixed_hash_is_only_for_a_failure() {
    let hashed = admin_with(Ok("hash".to_string()));
    assert_eq!(hashed.username, "admin");
    assert_eq!(hashed.password_hash, "hash");
    let failed = admin_with(Err("no random bytes".to_string()));
    assert_eq!(failed.username, "admin");
    assert_eq!(failed.password_hash, FALLBACK_PASSWORD_HASH);
    let cfg = config_with(failed);
    assert_eq!(cfg.admin.password_hash, FALLBACK_PASSWORD_HASH);
    assert_eq!(cfg.general_settings.master_key.as_deref(), Some("openrelay-master"));
    assert!(AppConfig::default().admin.password_hash != FALLBACK_PASSWORD_HASH);
}

#[test]
fn files_that_are_there_are_kept() {
    let mut cfg = AppConfig::default();
    cfg.admin.username = "someone".to_string();
    assert!(ensure_files(Some(cfg.copy()), true).is_none());
    // The second file is made from the first.
    assert_eq!(ensure_files(Some(cfg), false).unwrap().admin.username, "someone");
}

#[test]
fn save_config_writes_provider_model_yaml() {
    let mut cfg = AppConfig::default();
    let mut p = provider("provider-key", local_gpt());
    p.user_agent = Some("OpenRelay-Gateway/1.0".to_string());
    cfg.providers.push(p);

    let yaml = serde_yaml::to_string(&to_value(&flatten_for_yaml(&cfg))).unwrap();
    assert!(yaml.contains("model_name: local-gpt"));
    assert!(yaml.contains("model: openai/gpt-4o-mini"));
}

#[test]
fn providers_have_a_default_type() {
    assert_eq!(default_provider_type(), "openai");
}

#[test]
fn model_is_named_for_the_second_file() {
    let plain = ModelConfig {
        model_name: "a".to_string(),
        model_id: "b".to_string(),
    };
    assert_eq!(upstream_model(&plain), "b");
    let unnamed = ModelConfig {
        model_name: "a".to_string(),
        model_id: "".to_string(),
    };
    assert_eq!(upstream_model(&unnamed), "a");
}

#[test]
fn config_backups_create_redact_and_restore_snapshots() {
    let mut cfg = AppConfig::default();
    cfg.providers.push(provider("provider-secret", local_gpt()));

    let id = new_backup_id();
    let reason = backup_reason("manual");
    let entry = entry_from_config(&id, "2026-05-24T00:00:00+00:00", &reason, &cfg, 100);
    assert_eq!(entry.reason, "manual");
    assert_eq!(entry.provider_count, 1);

    let found = backup_id_from_filename(&format!("{id}.json")).unwrap();
    let backups = sort_backups(vec![entry_from_config(
        &found,
        &backup_created_at(&found),
        "snapshot",
        &cfg,
        100,
    )]);
    assert_eq!(backups.len(), 1);
    assert_eq!(backups[0].id, entry.id);

    assert!(can_redact_config(&cfg));
    let redacted = to_value(&export_current_config(&cfg, true));
    assert_eq!(redacted["providers"][0]["api_key"], "prov...cret");

    // The snapshot as it is written, and the configuration that is read from it.
    let snapshot = to_value(&export_current_config(&cfg, false)).to_string();
    let mut changed = AppConfig::default();
    changed.providers.clear();
    assert!(existing_backup("data", &entry.id, true).is_ok());
    let read: Value = serde_json::from_str(&snapshot).unwrap();
    for p in read["providers"].as_array().unwrap() {
        changed.providers.push(ProviderConfig {
            id: p["id"].as_str().unwrap().to_string(),
            name: p["name"].as_str().unwrap().to_string(),
            provider_type: p["type"].as_str().unwrap().to_string(),
            base_url: p["base_url"].as_str().map(str::to_string),
            api_key: p["api_key"].as_str().unwrap().to_string(),
            user_agent: p["user_agent"].as_str().map(str::to_string),
            models: Vec::new(),
        });
    }
    let restored = load_config(changed);
    assert_eq!(restored.providers[0].api_key, "provider-secret");
}

#[test]
fn backup_ids_are_checked() {
    assert!(valid_backup_id("20260524T101112.123Z-0a"));
    assert!(!valid_backup_id(""));
    assert!(!valid_backup_id("../config"));
    let path = backup_path("data", "a-b").unwrap();
    assert_eq!(path.base, "data");
    assert_eq!(path.parts, vec!["backups".to_string(), "a-b.json".to_string()]);
    assert_eq!(backups_dir("data").parts, vec!["backups".to_string()]);
    let bad = backup_path("data", "a/b").unwrap_err();
    assert_eq!(bad, BackupError::InvalidId);
    assert_eq!(bad.message(), "invalid backup id");
    let missing = existing_backup("data", "a-b", false).unwrap_err();
    assert_eq!(missing, BackupError::NotFound);
    assert_eq!(missing.message(), "backup not found");
    assert_eq!(existing_backup("data", "a/b", true).unwrap_err(), BackupError::InvalidId);
}

#[test]
fn backup_ids_are_new() {
    let id = new_backup_id();
    assert!(valid_backup_id(&id));
    assert!(id != new_backup_id());
    // A stamp of twenty characters, a dash and thirty-two digits.
    assert_eq!(id.len(), 20 + 1 + 32);
    assert_eq!(backup_id("20260524T101112.123Z", "0a"), "20260524T101112.123Z-0a");
    assert_eq!(backup_created_at("20260524T101112.123Z-0a"), "20260524T101112.123Z");
    assert_eq!(backup_created_at("plain"), "plain");
    assert_eq!(backup_reason("  "), "manual");
    assert_eq!(backup_reason(" before "), "before");
}

#[test]
fn backups_are_listed_newest_first() {
    let cfg = AppConfig::default();
    let make = |id: &str| entry_from_config(id, "", "snapshot", &cfg, 0);
    let sorted = sort_backups(vec![make("a"), make("c"), make("b")]);
    let ids: Vec<&str> = sorted.iter().map(|e| e.id.as_str()).collect();
    assert_eq!(ids, vec!["c", "b", "a"]);
    assert_eq!(backup_id_from_filename("a.txt"), None);
    assert_eq!(backup_id_from_filename("a b.json"), None);
    assert_eq!(count_models(&cfg), Some(0));
}

#[test]
fn security_audit_flags_default_settings_and_plaintext_provider_keys() {
    let mut cfg = AppConfig::default();
    cfg.providers.push(provider("provider-secret", Vec::new()));

    let findings = audit_security(&cfg, secrets_supported(false), false, false);
    let codes: Vec<&str> = findings
        .iter()
        .map(|finding| finding.code.as_str())
        .collect();
    assert!(codes.contains(&"default_admin_password"));
    assert!(codes.contains(&"default_master_key"));
    assert!(codes.contains(&"missing_jwt_secret"));
    assert!(codes.contains(&"plaintext_provider_key"));
}

#[test]
fn security_audit_passes_without_defaults() {
    let mut cfg = AppConfig::default();
    cfg.admin.password_hash = "no hash".to_string();
    cfg.general_settings.master_key = Some("other".to_string());
    cfg.providers.push(provider("os.environ/KEY", Vec::new()));
    let clean = audit_security(&cfg, true, true, true);
    assert!(clean.is_empty());
    assert!(audit_passes(&clean));
    let open = audit_security(&cfg, true, false, true);
    assert_eq!(open.len(), 1);
    assert_eq!(open[0].code, "secret_protection_disabled");
    // A warning does not fail the audit; a danger does.
    assert!(audit_passes(&open));
    assert!(!audit_passes(&audit_security(&AppConfig::default(), false, false, true)));
}

#[test]
fn protect_config_secrets_encrypts_keys_when_supported_or_reports_unsupported() {
    let mut cfg = AppConfig::default();
    cfg.providers.push(provider("provider-secret", Vec::new()));

    let result = protect_config_secrets(secrets_supported(true), &cfg);
    assert_eq!(result.protected_count, 1);
    let stored = config_for_storage(true, &cfg, &vec![vec![1u8, 255u8]]);
    let raw = to_value(&config_value(&stored)).to_string();
    assert!(!raw.contains("provider-secret"));
    assert!(is_protected_secret(&stored.providers[0].api_key));
    let loaded = unprotect_config(stored, &vec!["provider-secret".to_string()]);
    assert_eq!(loaded.providers[0].api_key, "provider-secret");

    let result = protect_config_secrets(secrets_supported(false), &cfg);
    assert_eq!(result.protected_count, 0);
    assert!(!result.supported);
}

#[test]
fn protected_secret_reads_back() {
    let sealed = protect_secret(&vec![0u8, 16u8, 255u8]);
    assert_eq!(sealed, "protected:dpapi:0010ff");
    assert_eq!(unprotect_secret(&sealed).unwrap(), vec![0u8, 16u8, 255u8]);
    assert!(!should_protect_value(&sealed));
    let plain = unprotect_secret("plain").unwrap_err();
    assert_eq!(plain, SecretFault::NotProtected);
    let broken = unprotect_secret("protected:dpapi:0g").unwrap_err();
    assert_eq!(broken, SecretFault::BadEncoding);
    assert!(plain.message() != broken.message());
}

#[test]
fn hex_reads_back() {
    assert_eq!(hex_encode(&vec![0u8, 171u8]), "00ab");
    assert_eq!(hex_decode("00aB"), Some(vec![0u8, 171u8]));
    assert_eq!(hex_decode("abc"), None);
    assert_eq!(hex_decode("zz"), None);
    assert_eq!(hex_decode(""), Some(vec![]));
}

#[test]
fn only_keys_that_need_it_are_protected() {
    let mut cfg = AppConfig::default();
    cfg.providers.push(provider("os.environ/KEY", Vec::new()));
    cfg.providers.push(provider("secret", Vec::new()));
    cfg.providers.push(provider("  ", Vec::new()));
    assert_eq!(count_protectable_provider_keys(&cfg), 1);
    assert_eq!(keys_to_replace(&cfg, false), vec!["secret".to_string()]);
    let replaced = replace_keys(cfg, false, &vec!["new".to_string()]);
    let keys: Vec<&str> = replaced.providers.iter().map(|p| p.api_key.as_str()).collect();
    assert_eq!(keys, vec!["os.environ/KEY", "new", "  "]);
    assert!(keys_to_replace(&replaced, true).is_empty());
}

#[test]
fn protection_is_marked() {
    assert!(protection_enabled(true, true));
    assert!(!protection_enabled(false, true));
    assert!(!protection_enabled(true, false));
    assert_eq!(
        protection_marker_path("data").parts,
        vec![".secret-protection".to_string()]
    );
}

#[test]
fn redaction_hides_the_middle() {
    assert_eq!(redact_secret(" provider-secret "), "prov...cret");
    assert_eq!(redact_secret("12345678"), "***");
    assert_eq!(redact_secret("  "), "");
    // A cut inside a character is not possible.
    assert!(!can_redact("abc中defgh"));
    assert!(can_redact("abcd中efgh"));
}

#[test]
fn export_shows_no_secret() {
    let mut cfg = AppConfig::default();
    cfg.general_settings.master_key = Some("a-long-master-key".to_string());
    cfg.virtual_keys.push(VirtualKeyConfig {
        key: "vk-0123456789".to_string(),
        ..VirtualKeyConfig::default()
    });
    let shown = to_value(&export_current_config(&cfg, true));
    assert_eq!(shown["general_settings"]["master_key"], "a-lo...-key");
    assert_eq!(shown["virtual_keys"][0]["key"], "vk-0...6789");
    let whole = to_value(&export_current_config(&cfg, false));
    assert_eq!(whole["general_settings"]["master_key"], "a-long-master-key");
}

#[test]
fn panel_keeps_account_and_keys() {
    let mut current = AppConfig::default();
    current.admin.username = "someone".to_string();
    current.virtual_keys.push(VirtualKeyConfig {
        name: "dev".to_string(),
        key: "vk-0123456789".to_string(),
        ..VirtualKeyConfig::default()
    });
    assert!(can_mask_keys(&current));
    let shown = to_value(&panel_value(&current, &vec!["tool/1".to_string()]));
    assert_eq!(shown["header_candidates"]["user_agents"][0], "tool/1");
    assert!(shown["admin"].get("password_hash").is_none());
    assert!(shown["virtual_keys"][0]["key"] != "vk-0123456789");
    let masked = to_value(&masked_keys_value(&current));
    assert_eq!(masked[0]["key"], shown["virtual_keys"][0]["key"]);

    let mut incoming = AppConfig::default();
    incoming.admin.username = "intruder".to_string();
    let kept = keep_identity(incoming, &current);
    assert_eq!(kept.admin.username, "someone");
    assert_eq!(kept.virtual_keys[0].key, "vk-0123456789");
}

#[test]
fn incoming_config_is_completed() {
    let current = AppConfig::default();
    let value = to_value(&complete_incoming(
        json(r#"{"admin": {"username": "admin"}, "providers": []}"#),
        &current,
    ));
    assert_eq!(value["admin"]["password_hash"], current.admin.password_hash.as_str());
}
