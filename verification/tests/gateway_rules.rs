use openrelay::clock::Moment;
use openrelay::config::{
    AppConfig, ConversationStorage, ModelConfig, ProviderConfig, VirtualKeyConfig,
};
use openrelay::connections::{ActiveConnection, ConnectionRegistry, StreamCapture};
use openrelay::conversations::{
    accept_storage, answer_record, conversation_file_path, conversation_index_entry,
    conversation_index_entry_from_value, conversation_record,
    conversation_request_id_from_filename, conversation_trace, conversation_trace_at,
    file_modified_at, is_record_file, safe_conversation_filename, storage_directory,
    sync_conversation_index, trace_entry, ConversationTrace, SeenFile, TracedRequest,
};
use openrelay::gateway::{
    answer_value, bearer_token, can_send, client_key_for_protocol, error_text, inbound_body,
    inbound_type, is_json_type, let_in, let_in_at, limit_error, parse_target, passthrough_headers, proxy_handler, request_limits, response_usage,
    split_proxy_protocol, stream_error_text, usage_record, wants_stream, Admission, Admitted,
    Exchange, Forward, Inbound, ProxyProtocol, ProxyStep, Reply,
};
use openrelay::json::{Json, Member, Number};
use openrelay::keys::{can_mask, check_virtual_key, check_virtual_key_at, key_name, mask_key};
use openrelay::limits::{
    check_request_limits, limit_checks, limit_f64, limit_u64, recent_window_start, window_start,
    Allowance, LimitStep, Measured, Subject,
};
use openrelay::tokens::UsageTokens;
use openrelay::usage::{
    build_budget_watches, csv_cell, export_usage_csv, page_in_range, paginate, paginate_clamped,
    UsageLog,
};
use serde_json::Value;

fn from_value(value: &Value) -> Json {
    match value {
        Value::Null => Json::Null,
        Value::Bool(b) => Json::Bool(*b),
        Value::Number(n) => Json::Number(if let Some(u) = n.as_u64() {
            Number::Unsigned(u)
        } else if let Some(i) = n.as_i64() {
            Number::Negative(i)
        } else {
            Number::Float(n.as_f64().unwrap().to_bits())
        }),
        Value::String(s) => Json::Text(s.clone()),
        Value::Array(items) => Json::Array(items.iter().map(from_value).collect()),
        Value::Object(map) => Json::Object(
            map.iter()
                .map(|(name, v)| Member {
                    name: name.clone(),
                    value: from_value(v),
                })
                .collect(),
        ),
    }
}

fn to_value(j: &Json) -> Value {
    match j {
        Json::Null => Value::Null,
        Json::Bool(b) => Value::Bool(*b),
        Json::Number(Number::Unsigned(u)) => Value::from(*u),
        Json::Number(Number::Negative(i)) => Value::from(*i),
        Json::Number(Number::Float(bits)) => Value::from(f64::from_bits(*bits)),
        Json::Text(s) => Value::from(s.clone()),
        Json::Array(items) => Value::Array(items.iter().map(to_value).collect()),
        Json::Object(ms) => Value::Object(
            ms.iter()
                .map(|m| (m.name.clone(), to_value(&m.value)))
                .collect(),
        ),
    }
}

fn json(text: &str) -> Json {
    from_value(&serde_json::from_str(text).unwrap())
}
const NOW: Moment = Moment {
    secs: 1_780_000_000,
    nanos: 0,
};

fn config() -> AppConfig {
    AppConfig {
        providers: vec![
            ProviderConfig {
                id: "openai".to_string(),
                name: "OpenAI".to_string(),
                provider_type: "openai".to_string(),
                base_url: Some("https://api.example.com/v1".to_string()),
                api_key: "provider-key".to_string(),
                user_agent: None,
                models: vec![ModelConfig {
                    model_name: "local-gpt".to_string(),
                    model_id: "gpt-4o-mini".to_string(),
                }],
            },
            ProviderConfig {
                id: "gemini".to_string(),
                name: "Gemini".to_string(),
                provider_type: "gemini".to_string(),
                base_url: Some("https://gemini.example.com/v1beta".to_string()),
                api_key: "provider-gemini-key".to_string(),
                user_agent: None,
                models: vec![ModelConfig {
                    model_name: "gemini-local".to_string(),
                    model_id: "gemini-1.5-pro".to_string(),
                }],
            },
        ],
        virtual_keys: vec![VirtualKeyConfig {
            name: "gemini-user".to_string(),
            key: "client-key".to_string(),
            enabled: Some(true),
            allowed_models: Some(vec!["gemini-local".to_string()]),
            budget: None,
            rpm: Some(2),
            expires_at: None,
        }],
        ..AppConfig::default()
    }
}

fn enter(a: Admission) -> Admitted {
    match a {
        Admission::Enter(admitted) => admitted,
        Admission::Answer(r) => panic!("answered {}", to_value(&r.body)),
    }
}

fn answer(a: Admission) -> Reply {
    match a {
        Admission::Answer(r) => r,
        Admission::Enter(_) => panic!("let in"),
    }
}

fn inbound(query: &str, body: &str) -> Inbound {
    Inbound {
        query: query.to_string(),
        content_type: "application/json".to_string(),
        accept: None,
        body: json(body),
    }
}

fn send(step: ProxyStep) -> Forward {
    match step {
        ProxyStep::Send(f) => f,
        other => panic!("not sent: {other:?}"),
    }
}

#[test]
fn models_are_listed_for_the_master_key() {
    let reply = answer(let_in(
        &config(),
        ProxyProtocol::OpenAi,
        "/v1/models",
        &json("{}"),
        "openrelay-master",
    ));
    assert_eq!(reply.status, 200);
    assert_eq!(to_value(&reply.body)["data"][0]["id"], "local-gpt");
}

#[test]
fn gemini_models_are_listed_for_a_key() {
    let reply = answer(let_in(
        &config(),
        ProxyProtocol::Gemini,
        "/v1beta/models",
        &json("{}"),
        "client-key",
    ));
    assert_eq!(reply.status, 200);
    let models = to_value(&reply.body)["models"].clone();
    assert_eq!(models.as_array().unwrap().len(), 1);
    assert_eq!(models[0]["name"], "models/gemini-local");
}

#[test]
fn bad_keys_are_not_let_in() {
    let reply = answer(let_in(
        &config(),
        ProxyProtocol::OpenAi,
        "/v1/chat/completions",
        &json(r#"{"model": "local-gpt"}"#),
        "wrong",
    ));
    assert_eq!(reply.status, 429);
    assert_eq!(
        to_value(&reply.body).to_string(),
        r#"{"error":{"code":429,"message":"无效的 API Key","type":"limit_error"}}"#
    );
    let empty = answer(let_in(
        &config(),
        ProxyProtocol::OpenAi,
        "/v1/models",
        &json("{}"),
        "",
    ));
    assert_eq!(to_value(&empty.body)["error"]["message"], "缺少 API Key");
    assert_eq!(to_value(&limit_error("m").body)["error"]["message"], "m");
}

#[test]
fn a_key_opens_only_its_models() {
    let check = check_virtual_key(&config(), "client-key", Some("local-gpt"));
    assert!(!check.allowed);
    assert_eq!(
        check.reason.as_deref(),
        Some("密钥 \"gemini-user\" 无权访问模型 local-gpt")
    );
    let good = check_virtual_key(&config(), "client-key", Some("gemini-local"));
    assert!(good.allowed && !good.is_master);
    assert_eq!(key_name(&good), "gemini-user");
    let master = check_virtual_key(&config(), "openrelay-master", Some("local-gpt"));
    assert!(master.allowed && master.is_master);
    assert_eq!(key_name(&master), "master");
}

#[test]
fn keys_expire() {
    let mut cfg = config();
    cfg.virtual_keys[0].expires_at = Some("2020-01-01T00:00:00Z".to_string());
    let check = check_virtual_key_at(&cfg, "client-key", Some("gemini-local"), NOW);
    assert!(!check.allowed);
    assert_eq!(check.reason.as_deref(), Some("密钥 \"gemini-user\" 已过期"));
    // It was still good before.
    let before = Moment { secs: 0, nanos: 0 };
    assert!(check_virtual_key_at(&cfg, "client-key", Some("gemini-local"), before).allowed);
    // A time that cannot be read is no end.
    cfg.virtual_keys[0].expires_at = Some("soon".to_string());
    assert!(check_virtual_key_at(&cfg, "client-key", Some("gemini-local"), NOW).allowed);
}

#[test]
fn disabled_keys_are_unknown() {
    let mut cfg = config();
    cfg.virtual_keys[0].enabled = Some(false);
    let check = check_virtual_key(&cfg, "client-key", None);
    assert_eq!(check.reason.as_deref(), Some("无效的 API Key"));
}

#[test]
fn masks_hide_the_middle() {
    assert_eq!(mask_key("vk-0123456789abcdef"), "vk-01234****cdef");
    assert!(can_mask("vk-0123456789abcdef"));
    assert_eq!(mask_key("123456789012"), "****");
    // A cut inside a character is not possible.
    assert!(!can_mask("vk-0123中6789abcdef"));
}

#[test]
fn requests_without_a_model_are_sent_back() {
    let reply = answer(let_in(
        &config(),
        ProxyProtocol::OpenAi,
        "/v1/chat/completions",
        &json("{}"),
        "openrelay-master",
    ));
    assert_eq!(reply.status, 400);
    let body = to_value(&reply.body);
    assert_eq!(
        body["error"]["message"],
        "请求体缺少 model 字段，无法路由到兼容 API 服务商"
    );
    assert_eq!(body["error"]["type"], "invalid_request_error");
}

#[test]
fn gemini_requests_carry_the_key_of_the_provider() {
    let cfg = config();
    let (protocol, path) = parse_target("/gemini/v1beta/models/gemini-local:generateContent");
    assert_eq!(protocol, ProxyProtocol::Gemini);
    let key = client_key_for_protocol(protocol, None, None, Some("key=client-key")).unwrap();
    let body = json(r#"{"contents": [{"parts": [{"text": "hello"}]}]}"#);
    let a = enter(let_in_at(&cfg, protocol, &path, &body, &key, NOW));
    assert_eq!(a.model, "gemini-local");
    assert_eq!(a.key_name, "gemini-user");
    let q = inbound("?key=client-key", r#"{"contents": []}"#);
    assert!(can_send(&cfg, &a, &q));
    let f = send(proxy_handler(&cfg, &a, &q, &vec![Measured::Requests(1)]));
    assert_eq!(
        f.url,
        "https://gemini.example.com/v1beta/models/gemini-1.5-pro:generateContent"
    );
    assert_eq!((f.key_header.as_str(), f.key_value.as_str()), ("x-goog-api-key", "provider-gemini-key"));
    assert!(f.body.is_none());
    assert!(!f.stream);
}

#[test]
fn openai_requests_carry_the_model_of_the_provider() {
    let cfg = config();
    let body = r#"{"model": "local-gpt", "stream": true}"#;
    let a = enter(let_in_at(
        &cfg,
        ProxyProtocol::OpenAi,
        "/v1/chat/completions",
        &json(body),
        "openrelay-master",
        NOW,
    ));
    assert!(request_limits(&cfg, &a).is_empty());
    let f = send(proxy_handler(&cfg, &a, &inbound("", body), &vec![]));
    assert_eq!(f.url, "https://api.example.com/v1/chat/completions");
    assert_eq!(f.key_header, "authorization");
    assert_eq!(f.key_value, "Bearer provider-key");
    assert_eq!(f.accept, "application/json");
    assert!(f.stream);
    assert_eq!(to_value(&f.body.unwrap())["model"], "gpt-4o-mini");
}

#[test]
fn reached_limits_are_answered() {
    let cfg = config();
    let a = enter(let_in_at(
        &cfg,
        ProxyProtocol::Gemini,
        "/v1beta/models/gemini-local:generateContent",
        &json("{}"),
        "client-key",
        NOW,
    ));
    let q = inbound("", "{}");
    assert!(matches!(proxy_handler(&cfg, &a, &q, &vec![]), ProxyStep::Measure(0)));
    match proxy_handler(&cfg, &a, &q, &vec![Measured::Requests(2)]) {
        ProxyStep::Answer(r) => {
            assert_eq!(r.status, 429);
            assert_eq!(
                to_value(&r.body)["error"]["message"],
                "密钥 \"gemini-user\" 已达到 RPM 限额 2"
            );
        }
        other => panic!("{other:?}"),
    }
}

#[test]
fn unknown_models_and_bad_addresses_are_told_apart() {
    let mut cfg = config();
    let body = r#"{"model": "nobody"}"#;
    let a = enter(let_in_at(
        &cfg,
        ProxyProtocol::OpenAi,
        "/v1/chat/completions",
        &json(body),
        "openrelay-master",
        NOW,
    ));
    match proxy_handler(&cfg, &a, &inbound("", body), &vec![]) {
        ProxyStep::Answer(r) => {
            assert_eq!(to_value(&r.body)["error"]["message"], "未知模型: nobody")
        }
        other => panic!("{other:?}"),
    }
    cfg.providers[0].base_url = Some("no address".to_string());
    let body = r#"{"model": "local-gpt"}"#;
    let a = enter(let_in_at(
        &cfg,
        ProxyProtocol::OpenAi,
        "/v1/chat/completions",
        &json(body),
        "openrelay-master",
        NOW,
    ));
    match proxy_handler(&cfg, &a, &inbound("", body), &vec![]) {
        ProxyStep::Fail(text) => assert_eq!(
            text,
            "invalid upstream base URL: relative URL without a base"
        ),
        other => panic!("{other:?}"),
    }
}

#[test]
fn limits_are_checked_in_turn() {
    let mut cfg = config();
    cfg.limits = json(
        r#"{"global": {"rpm": 5, "budget": 1.5}, "gemini-local": {"rpm": 1}}"#,
    );
    let check = check_virtual_key(&cfg, "client-key", Some("gemini-local"));
    let checks = limit_checks(&cfg, "gemini-local", "gemini-user", &check);
    assert_eq!(checks.len(), 4);
    assert!(matches!(&checks[0].subject, Subject::Key(k) if k == "gemini-user"));
    assert_eq!(checks[0].allowance, Allowance::Requests(2));
    let low = || Measured::Requests(0);
    assert!(matches!(check_request_limits(&checks, &vec![low()]), LimitStep::Measure(1)));
    let spent = Measured::Cost(true, "1.5".to_string());
    match check_request_limits(&checks, &vec![low(), low(), spent]) {
        LimitStep::Refuse(text) => assert_eq!(text, "全局预算已达到限额 1.5"),
        other => panic!("{other:?}"),
    }
    let free = || Measured::Cost(false, "1.5".to_string());
    match check_request_limits(&checks, &vec![low(), low(), free(), Measured::Requests(1)]) {
        LimitStep::Refuse(text) => assert_eq!(text, "模型 gemini-local 已达到 RPM 限额 1"),
        other => panic!("{other:?}"),
    }
    assert!(matches!(
        check_request_limits(&checks, &vec![low(), low(), free(), low()]),
        LimitStep::Pass
    ));
}

#[test]
fn limits_are_read_from_numbers() {
    let limits = json(
        r#"{"a": {"rpm": 3, "budget": 2}, "b": {"rpm": "x"}, "c": {"rpm": 2.5, "budget": 2.5},
        "d": {"rpm": 0, "budget": 0}}"#,
    );
    assert_eq!(limit_u64(&limits, "a"), Some(3));
    assert_eq!(limit_u64(&limits, "b"), None);
    assert_eq!(limit_u64(&limits, "c"), Some(2));
    assert_eq!(limit_u64(&limits, "d"), None);
    assert_eq!(limit_u64(&limits, "e"), None);
    assert_eq!(limit_f64(&limits, "a"), Some(Number::Unsigned(2)));
    assert_eq!(limit_f64(&limits, "c"), Some(Number::Float(2.5f64.to_bits())));
    assert_eq!(limit_f64(&limits, "d"), None);
}

#[test]
fn the_window_is_a_minute() {
    assert_eq!(
        window_start(Moment { secs: 60, nanos: 0 }).as_deref(),
        Some("1970-01-01T00:00:00+00:00")
    );
    assert!(recent_window_start().is_some());
}

#[test]
fn targets_are_split() {
    assert_eq!(
        parse_target("/proxy/v1/models"),
        (ProxyProtocol::OpenAi, "/v1/models".to_string())
    );
    assert_eq!(
        split_proxy_protocol("/gemini/v1beta/models"),
        (ProxyProtocol::Gemini, "/v1beta/models".to_string())
    );
    assert_eq!(split_proxy_protocol("/v1/models").0, ProxyProtocol::OpenAi);
}

#[test]
fn keys_of_callers_are_found() {
    assert_eq!(bearer_token(Some("Bearer abc")).as_deref(), Some("abc"));
    assert_eq!(bearer_token(Some("Basic abc")), None);
    assert_eq!(bearer_token(None), None);
    let p = ProxyProtocol::Gemini;
    assert_eq!(
        client_key_for_protocol(p, None, Some("header-key"), Some("key=q")).as_deref(),
        Some("header-key")
    );
    assert_eq!(
        client_key_for_protocol(p, None, None, Some("a=1&key=sp%61ce")).as_deref(),
        Some("space")
    );
    assert_eq!(
        client_key_for_protocol(ProxyProtocol::OpenAi, Some("Bearer k"), None, None).as_deref(),
        Some("k")
    );
    assert_eq!(
        client_key_for_protocol(ProxyProtocol::OpenAi, None, None, Some("key=q")),
        None
    );
}

#[test]
fn streams_are_recognised() {
    assert!(wants_stream(ProxyProtocol::OpenAi, &json(r#"{"stream": true}"#), "/v1/x"));
    assert!(!wants_stream(ProxyProtocol::OpenAi, &json(r#"{"stream": 1}"#), "/v1/x"));
    assert!(wants_stream(ProxyProtocol::Gemini, &json("{}"), "/m:streamGenerateContent"));
    assert!(!wants_stream(ProxyProtocol::OpenAi, &json("{}"), "/m:streamGenerateContent"));
    assert!(is_json_type("application/json; charset=utf-8"));
    assert!(!is_json_type("text/plain"));
    assert_eq!(
        passthrough_headers(),
        vec!["openai-beta", "anthropic-version", "anthropic-beta", "idempotency-key"]
    );
}

#[test]
fn bodies_are_read_as_json() {
    assert_eq!(inbound_type(None), "application/json");
    assert_eq!(inbound_type(Some("text/plain")), "text/plain");
    let read = to_value(&inbound_body("application/json", Some(json(r#"{"a": 1}"#))));
    assert_eq!(read.to_string(), r#"{"a":1}"#);
    assert_eq!(to_value(&inbound_body("text/plain", Some(json("[1]")))).to_string(), "{}");
    assert_eq!(to_value(&inbound_body("application/json", None)).to_string(), "{}");
    assert!(answer_value("application/json", Some(json("1"))).is_some());
    assert!(answer_value("text/event-stream", Some(json("1"))).is_none());
    assert!(answer_value("application/json", None).is_none());
}

#[test]
fn answers_are_recorded() {
    let x = Exchange {
        request_id: "r".to_string(),
        model: "m".to_string(),
        key_name: "k".to_string(),
        user_agent: "u".to_string(),
        path: "/p".to_string(),
        stream: false,
    };
    let t: UsageTokens = response_usage(
        &json(r#"{"model": "m"}"#),
        Some(&json(r#"{"usage": {"prompt_tokens": 4, "completion_tokens": 2}}"#)),
    );
    let log = usage_record(&x, "now", t, Number::Unsigned(0), 200, 12, "");
    assert_eq!((log.input_tokens, log.output_tokens, log.status), (4, 2, 200));
    assert_eq!(log.request_id, "r");
    assert_eq!(response_usage(&json(r#"{"model": "abc"}"#), None).input_tokens, 1);
    assert_eq!(error_text(200, "fine"), "");
    assert_eq!(error_text(500, &"x".repeat(400)), "x".repeat(300));
    assert_eq!(stream_error_text(200, "200 OK"), "");
    assert_eq!(stream_error_text(502, "502 Bad Gateway"), "HTTP 502 Bad Gateway");
}

fn connection(id: &str, started_ms: u64) -> ActiveConnection {
    ActiveConnection {
        request_id: id.to_string(),
        model: "local-gpt".to_string(),
        key_name: "master".to_string(),
        user_agent: "test".to_string(),
        stream: false,
        started_ms,
    }
}

#[test]
fn connections_come_and_go() {
    let mut registry = ConnectionRegistry::new();
    registry.insert_connection(connection("a", 100));
    registry.insert_connection(connection("b", 50));
    let shown = to_value(&registry.connection_entries(160));
    assert_eq!(shown["count"], 2);
    let list = &shown["entries"];
    assert_eq!(list[0]["requestId"], "a");
    assert_eq!(list[0]["elapsedMs"], 60);
    assert_eq!(list[0]["keyName"], "master");
    assert_eq!(list[1]["elapsedMs"], 110);
    assert!(registry.remove_connection("b"));
    assert!(!registry.remove_connection("b"));
    let shown = to_value(&registry.connection_entries(160));
    assert_eq!(shown["count"], 1);
    assert_eq!(shown["entries"][0]["requestId"], "a");
}

#[test]
fn streams_are_kept_until_they_end() {
    let mut capture = StreamCapture::new(None);
    capture.feed(&vec![1, 2]);
    capture.feed(&vec![3]);
    let done = capture.finish().unwrap();
    assert_eq!(done.output, vec![1, 2, 3]);
    assert!(done.conversation.is_none());
    // A stream ends once.
    assert!(capture.finish().is_none());
    capture.feed(&vec![4]);
    assert!(capture.finish().is_none());
}

fn storing(directory: &str) -> AppConfig {
    AppConfig {
        conversation_storage: ConversationStorage {
            enabled: true,
            directory: directory.to_string(),
        },
        ..AppConfig::default()
    }
}

fn traced() -> TracedRequest {
    TracedRequest {
        timestamp: "2026-05-22T22:00:00Z".to_string(),
        request_id: "req-1".to_string(),
        model: "local-gpt".to_string(),
        key_name: "master".to_string(),
        user_agent: "test".to_string(),
    }
}

#[test]
fn storage_needs_a_directory() {
    let empty = ConversationStorage {
        enabled: true,
        directory: "  ".to_string(),
    };
    assert!(accept_storage(&empty).is_none());
    let off = ConversationStorage {
        enabled: false,
        directory: "".to_string(),
    };
    assert!(!accept_storage(&off).unwrap().enabled);
    let on = ConversationStorage {
        enabled: true,
        directory: r" D:\OpenRelay\conversations ".to_string(),
    };
    let kept = accept_storage(&on).unwrap();
    assert!(kept.enabled);
    assert_eq!(kept.directory, r"D:\OpenRelay\conversations");
    assert_eq!(storage_directory(&storing(" d ")).as_deref(), Some("d"));
    assert_eq!(storage_directory(&AppConfig::default()), None);
}

#[test]
fn conversations_are_kept_and_read_back() {
    let cfg = storing("talks");
    let input = json(r#"{"messages": []}"#);
    let trace: ConversationTrace =
        conversation_trace_at(&cfg, &traced(), &input, "20260522T220000.000Z").unwrap();
    assert_eq!(trace.filename, "20260522T220000000Z-req-1.json");
    assert_eq!(trace.directory, "talks");
    let record = conversation_record(&trace, Some(&json(r#"{"choices": []}"#)), None);
    let value = to_value(&record);
    assert_eq!(value["request_id"], "req-1");
    assert!(value["output"]["choices"].is_array());
    assert!(value.get("output_raw").is_none());
    let raw = to_value(&conversation_record(&trace, None, Some("data: x")));
    assert_eq!(raw["output_raw"], "data: x");
    assert!(raw["output"].is_null());

    let text = to_value(&answer_record(&trace, None, "data: x"));
    assert_eq!(text["output_raw"], "data: x");
    let tree = to_value(&answer_record(&trace, Some(&json(r#"{"choices": []}"#)), "ignored"));
    assert!(tree.get("output_raw").is_none());

    let entry = trace_entry(&trace);
    let again = conversation_index_entry_from_value(&entry.filename, &record, "", "");
    assert_eq!(again.request_id, entry.request_id);
    assert_eq!(again.timestamp, entry.timestamp);
    assert_eq!(again.model, "local-gpt");
    assert!(conversation_trace(&AppConfig::default(), &traced(), &input).is_none());
    let kept = conversation_trace(&cfg, &traced(), &input).unwrap().filename;
    assert!(kept.ends_with("-req-1.json"));
    assert!(safe_conversation_filename(&kept));
    assert_eq!(conversation_request_id_from_filename(&kept).as_deref(), Some("req-1"));
}

#[test]
fn conversation_names_are_checked() {
    assert!(safe_conversation_filename("20260522T220000.000Z-req-1.json"));
    assert!(!safe_conversation_filename("../config.json"));
    assert!(!safe_conversation_filename("a/b.json"));
    assert!(!safe_conversation_filename(r"a\b.json"));
    assert!(!safe_conversation_filename("a.txt"));
    let path = conversation_file_path(&storing("talks"), "a-b.json").unwrap();
    assert_eq!(path.base, "talks");
    assert_eq!(path.parts, vec!["a-b.json".to_string()]);
    assert!(conversation_file_path(&storing("talks"), "../b.json").is_none());
    assert_eq!(
        conversation_request_id_from_filename("stamp-req-1.json").as_deref(),
        Some("req-1")
    );
    assert_eq!(conversation_request_id_from_filename("stamp.json"), None);
    assert!(is_record_file("a.json"));
    assert!(!is_record_file("a.txt"));
}

#[test]
fn conversations_without_content_are_listed_too() {
    let entry = conversation_index_entry("stamp-req-9.json", None, None, "then");
    assert_eq!(entry.request_id, "req-9");
    assert_eq!(entry.timestamp, "then");
    assert_eq!(file_modified_at(Some(5)), 5);
    assert_eq!(file_modified_at(None), 0);
}

fn seen(name: &str, size: u64) -> SeenFile {
    SeenFile {
        filename: name.to_string(),
        size,
        modified_at: 1,
    }
}

#[test]
fn the_list_follows_the_directory() {
    let indexed = vec![seen("a.json", 1), seen("b.json", 1), seen("c.json", 1)];
    let present = vec![seen("a.json", 1), seen("b.json", 2), seen("d.json", 1)];
    let plan = sync_conversation_index(&indexed, true, &present);
    assert_eq!(plan.refresh, vec![1, 2]);
    assert_eq!(plan.remove, vec!["c.json".to_string()]);
}

#[test]
fn pages_are_counted() {
    let (p, offset) = paginate(2, 10, 25);
    assert_eq!((p.page, p.page_size, p.total, p.total_pages), (2, 10, 25, 3));
    assert_eq!(offset, 10);
    let (p, offset) = paginate(0, 1000, 0);
    assert_eq!((p.page, p.page_size, p.total_pages), (1, 100, 1));
    assert_eq!(offset, 0);
    let (p, offset) = paginate_clamped(9, 10, 25);
    assert_eq!((p.page, offset), (3, 20));
    assert!(page_in_range(1, 20));
    assert!(!page_in_range(u64::MAX, 100));
}

#[test]
fn pages_are_the_whole_list() {
    let rows: Vec<u64> = (1..=25).collect();
    let newest: Vec<u64> = rows.iter().rev().copied().collect();
    let show = |page: u64| {
        let (p, offset) = paginate(page, 10, 25);
        assert_eq!((p.page_size, p.total, p.total_pages), (10, 25, 3));
        newest
            .iter()
            .skip(offset as usize)
            .take(p.page_size as usize)
            .copied()
            .collect::<Vec<u64>>()
    };
    let all: Vec<u64> = (1..=3).flat_map(|page| show(page)).collect();
    assert_eq!(all, newest);
    assert!(show(4).is_empty());
    assert_eq!(show(0), show(1));
}

fn log() -> UsageLog {
    UsageLog {
        timestamp: "2026-05-21T00:00:00Z".to_string(),
        request_id: "req".to_string(),
        model: "gpt-a".to_string(),
        key_name: "master".to_string(),
        input_tokens: 10,
        cached_tokens: 0,
        cached_write_tokens: 0,
        output_tokens: 5,
        cost: Number::Float(0.01f64.to_bits()),
        status: 200,
        duration_ms: 20,
        stream: false,
        user_agent: "a,b".to_string(),
        error: "".to_string(),
        path: "/v1".to_string(),
    }
}

#[test]
fn usage_is_exported() {
    let csv = export_usage_csv(&vec![log()], &vec!["0.01000000".to_string()]);
    assert!(csv.contains("timestamp,model,key_name,input_tokens"));
    assert!(csv.contains("gpt-a,master,10,0,0,5"));
    assert!(csv.contains("\"a,b\""));
    assert_eq!(csv_cell("plain"), "plain");
    assert_eq!(csv_cell("say \"x\""), "\"say \"\"x\"\"\"");
    assert_eq!(csv_cell("a\nb"), "\"a\nb\"");
}

#[test]
fn budgets_are_watched() {
    let mut cfg = config();
    cfg.limits = json(r#"{"global": {"budget": 10}, "local-gpt": {"budget": 5}}"#);
    cfg.virtual_keys[0].budget = Some(Number::Unsigned(3));
    let watches = build_budget_watches(
        &cfg,
        &vec!["local-gpt".to_string()],
        &vec!["gemini-user".to_string()],
    );
    let kinds: Vec<(&str, &str)> = watches
        .iter()
        .map(|w| (w.kind.as_str(), w.name.as_str()))
        .collect();
    assert!(kinds.contains(&("global", "全局预算")));
    assert!(kinds.contains(&("model", "local-gpt")));
    assert!(kinds.contains(&("key", "gemini-user")));
}
