use openrelay::config::{AppConfig, ModelConfig, ProviderConfig, VirtualKeyConfig};
use openrelay::json::{Json, Member, Number};
use openrelay::proxy::{
    build_gemini_upstream_url, build_upstream_url, drop_query_key, fits_limit,
    is_versioned_base_path, upstream_path, ProxyHelperError,
};
use openrelay::routing::{
    build_gemini_models_response, build_models_response, get_request_model,
    is_gemini_models_endpoint, is_models_endpoint, resolve_provider, rewrite_json_model,
};
use openrelay::tokens::{
    cost_terms, estimate_tokens, estimated_usage, extract_usage_tokens, pricing_present,
    usage_in_range, CostTerms, UsageTokens,
};
use serde_json::Value;

fn from_value(value: &Value) -> Json {
    match value {
        Value::Null => Json::Null,
        Value::Bool(b) => Json::Bool(*b),
        Value::Number(n) => Json::Number(if let Some(u) = n.as_u64() {
            Number::Unsigned(u)
        } else if let Some(i) = n.as_i64() {
            Number::Negative(i)
        } else {
            Number::Float(n.as_f64().unwrap().to_bits())
        }),
        Value::String(s) => Json::Text(s.clone()),
        Value::Array(items) => Json::Array(items.iter().map(from_value).collect()),
        Value::Object(map) => Json::Object(
            map.iter()
                .map(|(name, v)| Member {
                    name: name.clone(),
                    value: from_value(v),
                })
                .collect(),
        ),
    }
}

fn to_value(j: &Json) -> Value {
    match j {
        Json::Null => Value::Null,
        Json::Bool(b) => Value::Bool(*b),
        Json::Number(Number::Unsigned(u)) => Value::from(*u),
        Json::Number(Number::Negative(i)) => Value::from(*i),
        Json::Number(Number::Float(bits)) => Value::from(f64::from_bits(*bits)),
        Json::Text(s) => Value::from(s.clone()),
        Json::Array(items) => Value::Array(items.iter().map(to_value).collect()),
        Json::Object(ms) => Value::Object(
            ms.iter()
                .map(|m| (m.name.clone(), to_value(&m.value)))
                .collect(),
        ),
    }
}

fn json(text: &str) -> Json {
    from_value(&serde_json::from_str(text).unwrap())
}

fn as_real(n: &Option<Number>) -> f64 {
    match n {
        None => 0.0,
        Some(Number::Unsigned(u)) => *u as f64,
        Some(Number::Negative(i)) => *i as f64,
        Some(Number::Float(bits)) => f64::from_bits(*bits),
    }
}

fn total(t: &CostTerms) -> f64 {
    (t.normal_input as f64 / 1_000_000.0) * as_real(&t.input_rate)
        + (t.cached_tokens as f64 / 1_000_000.0) * as_real(&t.cached_rate)
        + (t.cached_write_tokens as f64 / 1_000_000.0) * as_real(&t.cached_write_rate)
        + (t.output_tokens as f64 / 1_000_000.0) * as_real(&t.output_rate)
}

fn tokens(input: u64, output: u64, cached: u64, written: u64) -> UsageTokens {
    UsageTokens {
        input_tokens: input,
        output_tokens: output,
        cached_tokens: cached,
        cached_write_tokens: written,
    }
}

fn sample_config() -> AppConfig {
    AppConfig {
        providers: vec![
            ProviderConfig {
                id: "p1".to_string(),
                name: "OpenAI".to_string(),
                provider_type: "openai".to_string(),
                base_url: Some("https://api.example.com/v1".to_string()),
                api_key: "provider-key".to_string(),
                user_agent: Some("OpenRelay-Gateway/1.0".to_string()),
                models: vec![ModelConfig {
                    model_name: "local-gpt".to_string(),
                    model_id: "gpt-4o-mini".to_string(),
                }],
            },
            ProviderConfig {
                id: "p2".to_string(),
                name: "MiniMax".to_string(),
                provider_type: "openai".to_string(),
                base_url: Some("https://api.minimaxi.com/v1".to_string()),
                api_key: "minimax-key".to_string(),
                user_agent: None,
                models: vec![],
            },
        ],
        virtual_keys: vec![VirtualKeyConfig {
            name: "dev".to_string(),
            key: "vk-dev".to_string(),
            enabled: Some(true),
            allowed_models: Some(vec!["local-gpt".to_string()]),
            budget: None,
            rpm: None,
            expires_at: None,
        }],
        ..AppConfig::default()
    }
}

#[test]
fn upstream_url_preserves_versioned_base_and_query() {
    assert_eq!(
        build_upstream_url(
            "https://api.example.com/v1",
            "/v1/chat/completions",
            "?trace=1"
        )
        .unwrap(),
        "https://api.example.com/v1/chat/completions?trace=1"
    );
    assert_eq!(
        build_upstream_url("https://api.example.com/openai/v1/", "/responses", "").unwrap(),
        "https://api.example.com/openai/v1/responses"
    );
}

#[test]
fn request_model_reads_body_and_model_path() {
    assert_eq!(
        get_request_model(&json(r#"{"model": "local-gpt"}"#), "/v1/chat/completions"),
        Some("local-gpt".to_string())
    );
    assert_eq!(
        get_request_model(&json("{}"), "/v1/models/local-gpt"),
        Some("local-gpt".to_string())
    );
    assert_eq!(get_request_model(&json("{}"), "/v1/models"), None);
}

#[test]
fn resolves_configured_and_minimax_native_models() {
    let cfg = sample_config();
    let local = resolve_provider("local-gpt", &cfg).unwrap();
    assert_eq!(local.model_id, "gpt-4o-mini");
    assert_eq!(local.api_key, "provider-key");

    let minimax = resolve_provider("image-01", &cfg).unwrap();
    assert_eq!(minimax.model_id, "image-01");
    assert_eq!(minimax.api_key, "minimax-key");
}

#[test]
fn models_response_filters_by_virtual_key() {
    let cfg = sample_config();
    let response = to_value(&build_models_response(
        &cfg,
        Some(&vec!["local-gpt".to_string()]),
    ));
    assert_eq!(response["object"], "list");
    assert_eq!(response["data"][0]["id"], "local-gpt");
}

#[test]
fn extracts_openai_and_responses_usage() {
    let openai = extract_usage_tokens(
        &json(r#"{"usage": {"prompt_tokens": 100, "completion_tokens": 7, "prompt_tokens_details": {"cached_tokens": 80, "cache_write_tokens": 5}}}"#),
        12,
    );
    assert_eq!(openai.input_tokens, 100);
    assert_eq!(openai.output_tokens, 7);
    assert_eq!(openai.cached_tokens, 80);
    assert_eq!(openai.cached_write_tokens, 5);

    let responses = extract_usage_tokens(
        &json(r#"{"usage": {"input_tokens": 13, "output_tokens": 8, "input_tokens_details": {"cached_tokens": 3}}}"#),
        5,
    );
    assert_eq!(responses.input_tokens, 13);
    assert_eq!(responses.output_tokens, 8);
    assert_eq!(responses.cached_tokens, 3);
}

#[test]
fn cost_uses_cache_read_and_write_rates() {
    let pricing = json(
        r#"{"local-gpt": {"input": 10.0, "cached_input": 2.0, "cached_write": 4.0, "output": 20.0}}"#,
    );
    let cost = total(&cost_terms("local-gpt", tokens(100, 5, 30, 10), &pricing));
    assert!((cost - 0.0008).abs() < 1e-12);
}

#[test]
fn input_is_charged_once() {
    let pricing = json(r#"{"m": {"input": 3}}"#);
    let terms = cost_terms("m", tokens(100, 5, 30, 10), &pricing);
    assert_eq!(terms.normal_input, 60);
    assert_eq!(terms.cached_tokens, 30);
    assert_eq!(terms.cached_write_tokens, 10);
    assert_eq!(
        terms.normal_input + terms.cached_tokens + terms.cached_write_tokens,
        100
    );
    // More cached than read in: nothing is left to charge at the full rate.
    assert_eq!(cost_terms("m", tokens(10, 0, 30, 10), &pricing).normal_input, 0);
}

#[test]
fn unpriced_model_is_free() {
    let pricing = json(r#"{"m": {"input": 3}}"#);
    assert_eq!(total(&cost_terms("other", tokens(100, 5, 30, 10), &pricing)), 0.0);
    assert!(pricing_present(&pricing, "m"));
    assert!(!pricing_present(&pricing, "other"));
}

#[test]
fn usage_without_report_is_the_estimate() {
    let t = extract_usage_tokens(&json("{}"), 12);
    assert_eq!((t.input_tokens, t.output_tokens), (12, 0));
    let e = estimated_usage(9);
    assert_eq!(
        (e.input_tokens, e.output_tokens, e.cached_tokens, e.cached_write_tokens),
        (9, 0, 0, 0)
    );
}

#[test]
fn gemini_usage_is_read() {
    let t = extract_usage_tokens(
        &json(r#"{"usageMetadata": {"promptTokenCount": 23, "candidatesTokenCount": 11}}"#),
        5,
    );
    assert_eq!((t.input_tokens, t.output_tokens), (23, 11));
}

#[test]
fn usage_too_large_is_out_of_range() {
    assert!(usage_in_range(&json(r#"{"usage": {"prompt_tokens": 100}}"#)));
    assert!(!usage_in_range(&json(
        r#"{"usage": {"prompt_cache_hit_tokens": 18446744073709551615, "prompt_cache_miss_tokens": 1}}"#
    )));
}

#[test]
fn tokens_are_estimated_from_the_texts() {
    assert_eq!(estimate_tokens(&json("{}")), 1);
    // "abcdefg" and a blank: eight characters.
    assert_eq!(estimate_tokens(&json(r#"{"a": "abcdefg", "n": 12345678}"#)), 2);
    // One more character begins another token.
    assert_eq!(estimate_tokens(&json(r#"{"a": ["abcdefgh"]}"#)), 3);
}

#[test]
fn urls_that_cannot_be_read_are_refused() {
    let fault = build_upstream_url("no address", "/v1/models", "").unwrap_err();
    assert_eq!(
        fault.message(),
        "invalid upstream base URL: relative URL without a base"
    );
    assert!(matches!(fault, ProxyHelperError::InvalidUrl(_)));
    assert!(build_gemini_upstream_url("no address", "/v1beta/models", "", "m").is_err());
}

#[test]
fn upstream_paths_are_joined() {
    assert!(is_versioned_base_path("/openai/v1"));
    assert!(!is_versioned_base_path("/v12"));
    assert!(!is_versioned_base_path("/openai"));
    assert!(!is_versioned_base_path("/"));
    assert_eq!(upstream_path("/x", "y/z"), "/x/y/z");
    assert_eq!(upstream_path("/x", "///y"), "/x//y");
    assert!(fits_limit("https://a", "/b", "?c"));
}

#[test]
fn gemini_urls_lose_the_client_key() {
    let url = build_gemini_upstream_url(
        "https://generativelanguage.googleapis.com/v1beta",
        "/v1beta/models/gemini-local:generateContent",
        "?key=client-key&alt=sse",
        "gemini-1.5-pro",
    )
    .unwrap();
    assert_eq!(
        url,
        "https://generativelanguage.googleapis.com/v1beta/models/gemini-1.5-pro:generateContent?alt=sse"
    );
    assert_eq!(drop_query_key("?key=client-key"), "");
    assert_eq!(drop_query_key("?a=1&key=x&b=2"), "a=1&b=2");
}

#[test]
fn model_endpoints_are_told_apart() {
    assert!(is_models_endpoint("/v1/models"));
    assert!(is_models_endpoint("/models"));
    assert!(!is_models_endpoint("/v1/chat/completions"));
    assert!(is_gemini_models_endpoint("/v1beta/models"));
    assert!(!is_gemini_models_endpoint("/v1beta/models/m:generateContent"));
}

#[test]
fn gemini_model_is_read_from_the_path() {
    assert_eq!(
        get_request_model(&json("{}"), "/v1beta/models/gemini-local:generateContent"),
        Some("gemini-local".to_string())
    );
}

#[test]
fn first_alias_wins() {
    let mut cfg = sample_config();
    cfg.providers.push(ProviderConfig {
        id: "p3".to_string(),
        name: "Late".to_string(),
        provider_type: "openai".to_string(),
        base_url: Some("https://late.example.com".to_string()),
        api_key: "late-key".to_string(),
        user_agent: None,
        models: vec![ModelConfig {
            model_name: "local-gpt".to_string(),
            model_id: "late".to_string(),
        }],
    });
    assert_eq!(resolve_provider("local-gpt", &cfg).unwrap().api_key, "provider-key");
}

#[test]
fn unknown_model_is_refused() {
    assert!(resolve_provider("nobody", &sample_config()).is_none());
}

#[test]
fn listed_models_are_served() {
    let cfg = sample_config();
    let listed = to_value(&build_models_response(&cfg, None));
    let models = listed["data"].as_array().unwrap();
    assert_eq!(models.len(), 1);
    for m in models {
        assert!(resolve_provider(m["id"].as_str().unwrap(), &cfg).is_some());
    }
}

#[test]
fn only_allowed_models_are_listed() {
    let cfg = sample_config();
    let none = to_value(&build_models_response(&cfg, Some(&vec!["x".to_string()])));
    assert_eq!(none["data"].as_array().unwrap().len(), 0);
    let gemini = to_value(&build_gemini_models_response(
        &cfg,
        Some(&vec!["local-gpt".to_string()]),
    ));
    // Only providers of the Gemini kind are listed there.
    assert_eq!(gemini["models"].as_array().unwrap().len(), 0);
}

#[test]
fn body_is_sent_with_the_model_of_the_provider() {
    let body = rewrite_json_model(json(r#"{"model": "local-gpt", "n": 1}"#), "gpt-4o-mini");
    assert_eq!(
        to_value(&body).to_string(),
        r#"{"model":"gpt-4o-mini","n":1}"#
    );
    // A value that is no object stays as it is.
    assert_eq!(to_value(&rewrite_json_model(json("[1]"), "m")).to_string(), "[1]");
}
