//! Whether a provider answers, and what its answer means.
use vstd::prelude::*;

use crate::config;
use crate::config::ProviderConfig;
use crate::decimal;
use crate::json;
use crate::json::{array, named, object, text_value, Json, Member};
use crate::proxy;
use crate::secrets;
use crate::text;
use crate::weburl;

verus! {

/// What is known of a provider.
#[derive(Debug)]
pub struct ProviderHealth {
    pub provider_id: String,
    pub name: String,
    pub status: String,
    pub code: String,
    pub message: String,
    pub latency_ms: Option<u64>,
    pub http_status: Option<u16>,
    pub model_count: Option<usize>,
}

/// What a [`ProviderHealth`] holds.
#[verifier::ext_equal]
pub struct HealthView {
    pub provider_id: Seq<char>,
    pub name: Seq<char>,
    pub status: Seq<char>,
    pub code: Seq<char>,
    pub message: Seq<char>,
    pub latency_ms: Option<u64>,
    pub http_status: Option<u16>,
    pub model_count: Option<usize>,
}

impl View for ProviderHealth {
    type V = HealthView;

    open spec fn view(&self) -> HealthView {
        HealthView {
            provider_id: self.provider_id@,
            name: self.name@,
            status: self.status@,
            code: self.code@,
            message: self.message@,
            latency_ms: self.latency_ms,
            http_status: self.http_status,
            model_count: self.model_count,
        }
    }
}

/// What is known of a provider before it was asked, or where it said nothing more.
pub open spec fn state_of(
    p: config::ProviderView,
    status: Seq<char>,
    code: Seq<char>,
    message: Seq<char>,
    latency_ms: Option<u64>,
    http_status: Option<u16>,
    model_count: Option<usize>,
) -> HealthView {
    HealthView {
        provider_id: p.id,
        name: secrets::display_name(p),
        status,
        code,
        message,
        latency_ms,
        http_status,
        model_count,
    }
}

fn health(
    p: &ProviderConfig,
    status: &str,
    code: &str,
    message: &str,
    latency_ms: Option<u64>,
    http_status: Option<u16>,
    model_count: Option<usize>,
) -> (r: ProviderHealth)
    ensures
        r@ == state_of(p@, status@, code@, message@, latency_ms, http_status, model_count),
{
    ProviderHealth {
        provider_id: p.id.clone(),
        name: secrets::provider_name(p),
        status: status.to_owned(),
        code: code.to_owned(),
        message: message.to_owned(),
        latency_ms,
        http_status,
        model_count,
    }
}

// ---------------------------------------------------------------------------
// Asking a provider for its models
// ---------------------------------------------------------------------------

/// The name of the variable of the environment that a key refers to.
pub fn env_name(api_key: &str) -> (r: Option<String>)
    ensures
        text::opt_text(r) == text::after_prefix(api_key@, "os.environ/"@),
{
    text::strip_prefix(api_key, "os.environ/")
}

/// The key itself, given the value of the variable that it may refer to.
pub open spec fn resolved_key(api_key: Seq<char>, env_value: Option<Seq<char>>) -> Seq<char> {
    if secrets::is_reference(api_key) {
        match env_value {
            Some(v) => v,
            None => api_key,
        }
    } else {
        api_key
    }
}

/// The key itself, given the value of the variable that it may refer to (`None` where that is not
/// set).
pub fn resolve_api_key(api_key: &str, env_value: Option<&str>) -> (r: String)
    ensures
        r@ == resolved_key(api_key@, text::opt_str(env_value)),
{
    if secrets::is_env_reference(api_key) {
        match env_value {
            Some(v) => v.to_owned(),
            None => api_key.to_owned(),
        }
    } else {
        api_key.to_owned()
    }
}

/// The base address of a provider: its own, or the usual one of its type.
pub open spec fn base_address(provider_type: Seq<char>, base_url: Seq<char>) -> Seq<char> {
    if !text::blank(base_url) {
        text::trimmed(base_url)
    } else if provider_type == "anthropic"@ {
        "https://api.anthropic.com/v1"@
    } else if provider_type == "gemini"@ {
        "https://generativelanguage.googleapis.com/v1beta"@
    } else {
        "https://api.openai.com/v1"@
    }
}

/// The base address of a provider: its own, or the usual one of its type.
pub fn provider_base_url(provider_type: &str, base_url: &str) -> (r: String)
    ensures
        r@ == base_address(provider_type@, base_url@),
{
    if !text::is_blank(base_url) {
        text::trim(base_url)
    } else if text::same(provider_type, "anthropic") {
        "https://api.anthropic.com/v1".to_owned()
    } else if text::same(provider_type, "gemini") {
        "https://generativelanguage.googleapis.com/v1beta".to_owned()
    } else {
        "https://api.openai.com/v1".to_owned()
    }
}

/// A question for the models of a provider: where it goes, what it calls itself, and the header
/// that carries the key.
#[derive(Debug)]
pub struct Probe {
    pub url: String,
    pub user_agent: String,
    pub key_header: String,
    pub key_value: String,
}

/// What a [`Probe`] holds.
#[verifier::ext_equal]
pub struct ProbeView {
    pub url: Seq<char>,
    pub user_agent: Seq<char>,
    pub key_header: Seq<char>,
    pub key_value: Seq<char>,
}

impl View for Probe {
    type V = ProbeView;

    open spec fn view(&self) -> ProbeView {
        ProbeView {
            url: self.url@,
            user_agent: self.user_agent@,
            key_header: self.key_header@,
            key_value: self.key_value@,
        }
    }
}

/// The address at which a provider lists its models.
pub open spec fn models_address(provider_type: Seq<char>, base_url: Seq<char>) -> Result<
    Seq<char>,
    Seq<char>,
> {
    let base = base_address(provider_type, base_url);
    if provider_type == "gemini"@ {
        proxy::gemini_address(base, "/v1beta/models"@, ""@, ""@)
    } else {
        proxy::upstream_address(base, "/v1/models"@, ""@)
    }
}

/// The header that carries a key.
pub open spec fn key_header(provider_type: Seq<char>) -> Seq<char> {
    if provider_type == "gemini"@ {
        "x-goog-api-key"@
    } else {
        "authorization"@
    }
}

/// What the header that carries a key says.
pub open spec fn key_value(provider_type: Seq<char>, api_key: Seq<char>) -> Seq<char> {
    if provider_type == "gemini"@ {
        api_key
    } else {
        "Bearer "@ + api_key
    }
}

/// The question for the models of a provider, or why there is no address for it.
pub open spec fn probe(
    provider_type: Seq<char>,
    base_url: Seq<char>,
    api_key: Seq<char>,
    user_agent: Option<Seq<char>>,
) -> Result<ProbeView, Seq<char>> {
    match models_address(provider_type, base_url) {
        Ok(url) => Ok(
            ProbeView {
                url,
                user_agent: config::or_text(user_agent, config::DEFAULT_USER_AGENT@),
                key_header: key_header(provider_type),
                key_value: key_value(provider_type, api_key),
            },
        ),
        Err(e) => Err(e),
    }
}

/// What a probe, or the reason why there is none, holds.
pub open spec fn probe_view(r: Result<Probe, proxy::ProxyHelperError>) -> Result<
    ProbeView,
    Seq<char>,
> {
    match r {
        Ok(p) => Ok(p@),
        Err(proxy::ProxyHelperError::InvalidUrl(e)) => Err(e@),
    }
}

/// The question for the models of a provider, or why there is no address for it.
pub fn build_probe(
    provider_type: &str,
    base_url: &str,
    api_key: &str,
    user_agent: Option<&str>,
) -> (r: Result<Probe, proxy::ProxyHelperError>)
    requires
        base_url@.len() <= weburl::URL_LIMIT,
    ensures
        probe_view(r) == probe(provider_type@, base_url@, api_key@, text::opt_str(user_agent)),
{
    let base = provider_base_url(provider_type, base_url);
    let is_gemini = text::same(provider_type, "gemini");
    proof {
        text::lemma_trimmed_len(base_url@);
        reveal_strlit("https://api.anthropic.com/v1");
        reveal_strlit("https://generativelanguage.googleapis.com/v1beta");
        reveal_strlit("https://api.openai.com/v1");
        reveal_strlit("/v1beta/models");
        reveal_strlit("/v1/models");
        reveal_strlit("");
    }
    let address = if is_gemini {
        proxy::build_gemini_upstream_url(base.as_str(), "/v1beta/models", "", "")
    } else {
        proxy::build_upstream_url(base.as_str(), "/v1/models", "")
    };
    match address {
        Ok(url) => {
            let agent = match user_agent {
                Some(a) => a.to_owned(),
                None => config::DEFAULT_USER_AGENT.to_owned(),
            };
            if is_gemini {
                Ok(
                    Probe {
                        url,
                        user_agent: agent,
                        key_header: "x-goog-api-key".to_owned(),
                        key_value: api_key.to_owned(),
                    },
                )
            } else {
                Ok(
                    Probe {
                        url,
                        user_agent: agent,
                        key_header: "authorization".to_owned(),
                        key_value: text::cat("Bearer ", api_key),
                    },
                )
            }
        },
        Err(e) => Err(e),
    }
}

// ---------------------------------------------------------------------------
// The check of a provider
// ---------------------------------------------------------------------------

/// What is done first to check a provider: it is asked, or all is known already.
#[derive(Debug)]
pub enum HealthPlan {
    Ask(Probe),
    Known(ProviderHealth),
}

/// What a [`HealthPlan`] holds.
pub enum HealthPlanView {
    Ask(ProbeView),
    Known(HealthView),
}

impl View for HealthPlan {
    type V = HealthPlanView;

    open spec fn view(&self) -> HealthPlanView {
        match self {
            HealthPlan::Ask(p) => HealthPlanView::Ask(p@),
            HealthPlan::Known(h) => HealthPlanView::Known(h@),
        }
    }
}

/// What is known of a provider that cannot be asked.
pub open spec fn unasked(
    p: config::ProviderView,
    status: Seq<char>,
    code: Seq<char>,
    message: Seq<char>,
) -> HealthPlanView {
    HealthPlanView::Known(state_of(p, status, code, message, None, None, None))
}

/// What is done first to check a provider, given the value of the variable that its key may refer
/// to.
pub open spec fn health_plan(p: config::ProviderView, env_value: Option<Seq<char>>) -> HealthPlanView {
    let key = resolved_key(p.api_key, env_value);
    if text::blank(p.api_key) {
        unasked(p, "error"@, "missing_api_key"@, "缺少 API Key"@)
    } else if secrets::is_reference(p.api_key) && key == p.api_key {
        unasked(p, "warning"@, "unresolved_api_key_env"@, "API Key 环境变量未设置"@)
    } else {
        match probe(p.provider_type, text::or_empty(p.base_url), key, p.user_agent) {
            Ok(q) => HealthPlanView::Ask(q),
            Err(_) => unasked(
                p,
                "error"@,
                "invalid_base_url"@,
                "Base URL 无法拼接模型列表端点"@,
            ),
        }
    }
}

/// The optional borrowed text of an optional string.
pub fn borrow(o: &Option<String>) -> (r: Option<&str>)
    ensures
        text::opt_str(r) == text::opt_text(*o),
{
    match o {
        Some(s) => Some(s.as_str()),
        None => None,
    }
}

/// The text of an optional string, empty where there is none.
pub fn borrow_or_empty(o: &Option<String>) -> (r: &str)
    ensures
        r@ == text::or_empty(text::opt_text(*o)),
{
    match o {
        Some(s) => s.as_str(),
        None => {
            proof {
                reveal_strlit("");
                assert(""@ =~= Seq::empty());
            }
            ""
        },
    }
}

/// What is done first to check a provider, given the value of the variable that its key may refer
/// to.
pub fn plan_check(p: &ProviderConfig, env_value: Option<&str>) -> (r: HealthPlan)
    requires
        text::or_empty(p@.base_url).len() <= weburl::URL_LIMIT,
    ensures
        r@ == health_plan(p@, text::opt_str(env_value)),
{
    if text::is_blank(p.api_key.as_str()) {
        return HealthPlan::Known(
            health(p, "error", "missing_api_key", "缺少 API Key", None, None, None),
        );
    }
    let key = resolve_api_key(p.api_key.as_str(), env_value);
    if secrets::is_env_reference(p.api_key.as_str()) && text::same(
        key.as_str(),
        p.api_key.as_str(),
    ) {
        return HealthPlan::Known(
            health(
                p,
                "warning",
                "unresolved_api_key_env",
                "API Key 环境变量未设置",
                None,
                None,
                None,
            ),
        );
    }
    match build_probe(
        p.provider_type.as_str(),
        borrow_or_empty(&p.base_url),
        key.as_str(),
        borrow(&p.user_agent),
    ) {
        Ok(q) => HealthPlan::Ask(q),
        Err(_) => HealthPlan::Known(
            health(
                p,
                "error",
                "invalid_base_url",
                "Base URL 无法拼接模型列表端点",
                None,
                None,
                None,
            ),
        ),
    }
}

/// Whether a status says that a request succeeded.
pub open spec fn is_success(status: u16) -> bool {
    200 <= status < 300
}

/// The number of models that a list holds.
pub open spec fn listed_count(value: json::JsonView, gemini: bool) -> Option<usize> {
    let list = if gemini {
        value.at("models"@)
    } else {
        value.at("data"@)
    };
    match list {
        Some(v) => match v.list() {
            Some(s) => Some(s.len() as usize),
            None => None,
        },
        None => None,
    }
}

/// The number of models that a list holds.
pub fn model_count_from_value(value: &Json, is_gemini: bool) -> (r: Option<usize>)
    ensures
        r == listed_count(value@, is_gemini),
{
    let list = if is_gemini {
        value.get("models")
    } else {
        value.get("data")
    };
    match list {
        Some(v) => match v.as_array() {
            Some(s) => Some(s.len()),
            None => None,
        },
        None => None,
    }
}

/// What a status that is no success, and the text with it, mean.
pub open spec fn failure_code(status: u16, body: Seq<char>) -> Seq<char> {
    if status == 401 || status == 403 {
        "auth_failed"@
    } else if status == 402 {
        "quota_or_balance"@
    } else if status == 429 {
        "rate_limited"@
    } else if text::includes(text::lowered(body), "quota"@) || text::includes(
        text::lowered(body),
        "balance"@,
    ) {
        "quota_or_balance"@
    } else {
        "upstream_error"@
    }
}

/// What a status that is no success, and the text with it, mean.
pub fn classify_failure(status: u16, body: &str) -> (r: String)
    ensures
        r@ == failure_code(status, body@),
{
    if status == 401 || status == 403 {
        "auth_failed".to_owned()
    } else if status == 402 {
        "quota_or_balance".to_owned()
    } else if status == 429 {
        "rate_limited".to_owned()
    } else {
        let lower = text::lower_ascii(body);
        if text::contains(lower.as_str(), "quota") || text::contains(lower.as_str(), "balance") {
            "quota_or_balance".to_owned()
        } else {
            "upstream_error".to_owned()
        }
    }
}

/// The time that an answer took, at least a millisecond.
pub open spec fn latency(elapsed_ms: u64) -> u64 {
    if elapsed_ms < 1 {
        1
    } else {
        elapsed_ms
    }
}

/// What is known of a provider that answered.
pub open spec fn answered(
    p: config::ProviderView,
    status: u16,
    body: Seq<char>,
    model_count: Option<usize>,
    elapsed_ms: u64,
) -> HealthView {
    if is_success(status) {
        state_of(
            p,
            "ok"@,
            "available"@,
            "服务商可用"@,
            Some(latency(elapsed_ms)),
            Some(status),
            model_count,
        )
    } else {
        state_of(
            p,
            "error"@,
            failure_code(status, body),
            "模型列表检查返回 HTTP "@ + decimal::decimal(status as nat),
            Some(latency(elapsed_ms)),
            Some(status),
            None,
        )
    }
}

/// What is known of a provider that answered with a status and a text, given the value that the
/// text reads as where it is JSON.
pub fn finish_check(
    p: &ProviderConfig,
    status: u16,
    body: &str,
    value: Option<&Json>,
    elapsed_ms: u64,
) -> (r: ProviderHealth)
    ensures
        r@ == answered(
            p@,
            status,
            body@,
            match value {
                Some(v) => listed_count(v@, p@.provider_type == "gemini"@),
                None => None,
            },
            elapsed_ms,
        ),
{
    let latency_ms: u64 = if elapsed_ms < 1 {
        1
    } else {
        elapsed_ms
    };
    let count = match value {
        Some(v) => model_count_from_value(v, text::same(p.provider_type.as_str(), "gemini")),
        None => None,
    };
    if 200 <= status && status < 300 {
        return health(
            p,
            "ok",
            "available",
            "服务商可用",
            Some(latency_ms),
            Some(status),
            count,
        );
    }
    let code = classify_failure(status, body);
    let number = decimal::number_text(status as u64);
    let message = text::cat("模型列表检查返回 HTTP ", number.as_str());
    health(
        p,
        "error",
        code.as_str(),
        message.as_str(),
        Some(latency_ms),
        Some(status),
        None,
    )
}

/// What is known of a provider that could not be reached.
pub fn fail_check(
    p: &ProviderConfig,
    timed_out: bool,
    error: &str,
    elapsed_ms: u64,
) -> (r: ProviderHealth)
    ensures
        r@ == state_of(
            p@,
            "error"@,
            if timed_out {
                "timeout"@
            } else {
                "network_error"@
            },
            "连接失败: "@ + error@,
            Some(latency(elapsed_ms)),
            None,
            None,
        ),
{
    let latency_ms: u64 = if elapsed_ms < 1 {
        1
    } else {
        elapsed_ms
    };
    let code = if timed_out {
        "timeout"
    } else {
        "network_error"
    };
    let message = text::cat("连接失败: ", error);
    health(p, "error", code, message.as_str(), Some(latency_ms), None, None)
}

/// A provider is called available if and only if it answered with a success.
pub proof fn law_only_success_is_available(
    p: config::ProviderView,
    status: u16,
    body: Seq<char>,
    model_count: Option<usize>,
    elapsed_ms: u64,
)
    ensures
        (answered(p, status, body, model_count, elapsed_ms).code == "available"@) == is_success(
            status,
        ),
{
    reveal_strlit("available");
    reveal_strlit("auth_failed");
    reveal_strlit("quota_or_balance");
    reveal_strlit("rate_limited");
    reveal_strlit("upstream_error");
    assert("available"@.len() == 9);
}

/// What is said of a provider that answered tells nothing of its key: it is the same with another.
pub proof fn law_health_does_not_tell_the_key(
    p: config::ProviderView,
    other_key: Seq<char>,
    status: u16,
    body: Seq<char>,
    model_count: Option<usize>,
    elapsed_ms: u64,
)
    ensures
        answered(
            config::ProviderView { api_key: other_key, ..p },
            status,
            body,
            model_count,
            elapsed_ms,
        ) == answered(p, status, body, model_count, elapsed_ms),
{
}

// ---------------------------------------------------------------------------
// Trying a provider out
// ---------------------------------------------------------------------------

/// A model of a Gemini list as it is shown.
pub open spec fn shown_gemini_model(m: json::JsonView) -> json::JsonView {
    let name = text::or_empty(json::text_of(m.at("name"@)));
    json::JsonView::Object(
        seq![
            (
                "id"@,
                json::JsonView::Text(
                    match text::after_prefix(name, "models/"@) {
                        Some(rest) => rest,
                        None => name,
                    },
                ),
            ),
            ("owned_by"@, json::JsonView::Text("google"@)),
            ("object"@, json::JsonView::Text("model"@)),
        ],
    )
}

/// The models of a list as they are shown: none where there is no list.
pub open spec fn shown_models(value: json::JsonView, gemini: bool) -> Seq<json::JsonView> {
    if gemini {
        match value.at("models"@) {
            Some(json::JsonView::Array(list)) => Seq::new(
                list.len(),
                |i: int| shown_gemini_model(list[i]),
            ),
            _ => Seq::empty(),
        }
    } else {
        match value.at("data"@) {
            Some(json::JsonView::Array(list)) => list,
            _ => Seq::empty(),
        }
    }
}

fn show_gemini_model(m: &Json) -> (r: Json)
    ensures
        r@ == shown_gemini_model(m@),
{
    let name = match m.text_at("name") {
        Some(s) => s.to_owned(),
        None => String::new(),
    };
    let id = match text::strip_prefix(name.as_str(), "models/") {
        Some(rest) => rest,
        None => name,
    };
    let ms: Vec<Member> = vec![
        named("id", Json::Text(id)),
        named("owned_by", text_value("google")),
        named("object", text_value("model")),
    ];
    assert(json::members(ms@) =~= shown_gemini_model(m@)->Object_0);
    object(ms)
}

/// The models of a list as they are shown: none where there is no list.
pub fn list_models(value: &Json, is_gemini: bool) -> (r: Vec<Json>)
    ensures
        json::items(r@) == shown_models(value@, is_gemini),
{
    let mut out: Vec<Json> = Vec::new();
    assert(json::items(out@) =~= Seq::empty());
    let found = if is_gemini {
        value.get("models")
    } else {
        value.get("data")
    };
    if let Some(v) = found {
        if let Some(list) = v.as_array() {
            let n: usize = list.len();
            for i in 0..n
                invariant
                    n == list@.len(),
                    out@.len() == i,
                    forall|j: int|
                        0 <= j < i ==> (#[trigger] out@[j])@ == (if is_gemini {
                            shown_gemini_model(list@[j]@)
                        } else {
                            list@[j]@
                        }),
            {
                if is_gemini {
                    out.push(show_gemini_model(&list[i]));
                } else {
                    out.push(list[i].copy());
                }
            }
            assert(json::items(out@) =~= shown_models(value@, is_gemini));
        }
    }
    out
}

/// What is said of a provider that was tried out.
pub open spec fn trial_form(success: bool, name: Seq<char>, v: json::JsonView) -> json::JsonView {
    json::JsonView::Object(seq![("success"@, json::JsonView::Bool(success)), (name, v)])
}

fn trial(success: bool, name: &str, v: Json) -> (r: Json)
    ensures
        r@ == trial_form(success, name@, v@),
{
    let ms: Vec<Member> = vec![named("success", Json::Bool(success)), named(name, v)];
    assert(json::members(ms@) =~= trial_form(success, name@, v@)->Object_0);
    object(ms)
}

/// What is said of a provider that could not be reached when it was tried out.
pub fn failed_trial() -> (r: Json)
    ensures
        r@ == trial_form(false, "error"@, json::JsonView::Text("连接失败"@)),
{
    trial(false, "error", text_value("连接失败"))
}

/// What is said of a provider that was tried out and answered with a status, which is also given
/// in words, and a value.
pub fn finish_trial(status: u16, status_text: &str, value: &Json, is_gemini: bool) -> (r: Json)
    ensures
        r@ == (if is_success(status) {
            trial_form(
                true,
                "models"@,
                json::JsonView::Array(shown_models(value@, is_gemini)),
            )
        } else {
            trial_form(false, "error"@, json::JsonView::Text("HTTP "@ + status_text@))
        }),
{
    if 200 <= status && status < 300 {
        trial(true, "models", array(list_models(value, is_gemini)))
    } else {
        trial(false, "error", Json::Text(text::cat("HTTP ", status_text)))
    }
}

// ---------------------------------------------------------------------------
// What is promised of the check of a provider
// ---------------------------------------------------------------------------

/// A key that names a variable of the environment is the value of that variable where it is set;
/// any other key is itself.
pub proof fn law_key_may_stand_in_the_environment(
    name: Seq<char>,
    key: Seq<char>,
    value: Seq<char>,
)
    ensures
        resolved_key("os.environ/"@ + name, Some(value)) == value,
        resolved_key("os.environ/"@ + name, None) == "os.environ/"@ + name,
        !text::begins(key, "os.environ/"@) ==> resolved_key(key, Some(value)) == key,
        resolved_key(key, None) == key,
{
    let whole = "os.environ/"@ + name;
    assert(whole.take("os.environ/"@.len() as int) =~= "os.environ/"@);
}

/// A provider is asked at its own address, without whitespace around it; one without an address at
/// the usual one of its type.
pub proof fn law_provider_has_an_address(provider_type: Seq<char>, base_url: Seq<char>)
    ensures
        !text::blank(base_url) ==> base_address(provider_type, base_url) == text::trimmed(base_url),
        text::blank(base_url) ==> {
            &&& base_address("anthropic"@, base_url) == "https://api.anthropic.com/v1"@
            &&& base_address("gemini"@, base_url)
                == "https://generativelanguage.googleapis.com/v1beta"@
            &&& provider_type != "anthropic"@ && provider_type != "gemini"@ ==> base_address(
                provider_type,
                base_url,
            ) == "https://api.openai.com/v1"@
        },
{
    reveal_strlit("anthropic");
    reveal_strlit("gemini");
    assert("anthropic"@.len() == 9 && "gemini"@.len() == 6);
}

/// A provider is asked for its models with its key, in the header that its interface has for it, and
/// with its name for the caller's program, the one of the gateway where it has none.
pub proof fn law_probe_carries_the_key(
    provider_type: Seq<char>,
    base_url: Seq<char>,
    api_key: Seq<char>,
    user_agent: Option<Seq<char>>,
)
    ensures
        probe(provider_type, base_url, api_key, user_agent) matches Ok(q) ==> {
            &&& provider_type == "gemini"@ ==> q.key_header == "x-goog-api-key"@ && q.key_value
                == api_key && proxy::gemini_address(
                base_address(provider_type, base_url),
                "/v1beta/models"@,
                ""@,
                ""@,
            ) == Ok::<Seq<char>, Seq<char>>(q.url)
            &&& provider_type != "gemini"@ ==> q.key_header == "authorization"@ && q.key_value
                == "Bearer "@ + api_key && proxy::upstream_address(
                base_address(provider_type, base_url),
                "/v1/models"@,
                ""@,
            ) == Ok::<Seq<char>, Seq<char>>(q.url)
            &&& user_agent is Some ==> q.user_agent == user_agent->0
            &&& user_agent is None ==> q.user_agent == "OpenRelay-Gateway/1.0"@
        },
        weburl::url_path_of(
            text::drop_trailing(base_address(provider_type, base_url), '/'),
        ) is Ok == probe(provider_type, base_url, api_key, user_agent) is Ok,
{
}

/// A provider without a key is not asked, nor one whose key names a variable that is not set, nor
/// one without a good address; any other is asked with its key.
pub proof fn law_provider_is_asked_if_it_can_be(
    p: config::ProviderView,
    env_value: Option<Seq<char>>,
)
    ensures
        text::blank(p.api_key) ==> (health_plan(p, env_value) matches HealthPlanView::Known(h)
            && h.status == "error"@ && h.code == "missing_api_key"@ && h.provider_id == p.id),
        !text::blank(p.api_key) && text::begins(p.api_key, "os.environ/"@) && env_value is None ==> (
        health_plan(p, env_value) matches HealthPlanView::Known(h) && h.status == "warning"@
            && h.code == "unresolved_api_key_env"@ && h.provider_id == p.id),
        !text::blank(p.api_key) && !text::begins(p.api_key, "os.environ/"@) ==> {
            let q = probe(
                p.provider_type,
                if p.base_url is Some {
                    p.base_url->0
                } else {
                    Seq::empty()
                },
                p.api_key,
                p.user_agent,
            );
            &&& q is Ok ==> (health_plan(p, env_value) matches HealthPlanView::Ask(x) && x
                == q->Ok_0)
            &&& q is Err ==> (health_plan(p, env_value) matches HealthPlanView::Known(h) && h.status
                == "error"@ && h.code == "invalid_base_url"@)
        },
        !text::blank(p.api_key) && text::begins(p.api_key, "os.environ/"@) && env_value is Some
            && env_value->0 != p.api_key ==> (health_plan(p, env_value) matches HealthPlanView::Ask(
            x,
        ) ==> x.key_value == (if p.provider_type == "gemini"@ {
            env_value->0
        } else {
            "Bearer "@ + env_value->0
        })),
{
}

/// A success is said to be one, with the time that it took, its status and the number of models. A
/// refusal is told from want of money, from too many requests and from any other failure.
pub proof fn law_answers_are_told_apart(
    p: config::ProviderView,
    status: u16,
    body: Seq<char>,
    count: Option<usize>,
    elapsed_ms: u64,
)
    ensures
        ({
            let h = answered(p, status, body, count, elapsed_ms);
            let quota = exists|i: int| text::occurs_at(text::lowered(body), "quota"@, i);
            let balance = exists|i: int| text::occurs_at(text::lowered(body), "balance"@, i);
            let other = !(200 <= status < 300) && status != 401 && status != 402 && status != 403
                && status != 429;
            &&& h.provider_id == p.id
            &&& h.http_status == Some(status)
            &&& h.latency_ms matches Some(t) && t >= 1 && t >= elapsed_ms && (elapsed_ms >= 1 ==> t
                == elapsed_ms)
            &&& 200 <= status < 300 ==> h.status == "ok"@ && h.code == "available"@ && h.model_count
                == count
            &&& !(200 <= status < 300) ==> h.status == "error"@ && h.model_count is None
            &&& status == 401 || status == 403 ==> h.code == "auth_failed"@
            &&& status == 402 ==> h.code == "quota_or_balance"@
            &&& status == 429 ==> h.code == "rate_limited"@
            &&& other && (quota || balance) ==> h.code == "quota_or_balance"@
            &&& other && !quota && !balance ==> h.code == "upstream_error"@
        }),
{
}

/// A provider is called by its name, and by its identifier where it has none.
pub proof fn law_provider_is_called_by_its_name(
    p: config::ProviderView,
    status: Seq<char>,
    code: Seq<char>,
    message: Seq<char>,
)
    ensures
        ({
            let h = state_of(p, status, code, message, None, None, None);
            &&& h.provider_id == p.id && h.status == status && h.code == code && h.message == message
            &&& !text::blank(p.name) ==> h.name == p.name
            &&& text::blank(p.name) ==> h.name == p.id
        }),
{
}

/// The models of an answer are counted in the list that its interface has for them.
pub proof fn law_models_are_counted(value: json::JsonView, list: Seq<json::JsonView>)
    requires
        list.len() <= usize::MAX,
    ensures
        value.at("data"@) == Some(json::JsonView::Array(list)) ==> listed_count(value, false)
            == Some(list.len() as usize),
        value.at("models"@) == Some(json::JsonView::Array(list)) ==> listed_count(value, true)
            == Some(list.len() as usize),
        value.at("data"@) is None ==> listed_count(value, false) is None,
        value.at("models"@) is None ==> listed_count(value, true) is None,
{
}

/// A provider that is tried out is shown with its models: those of the OpenAI interface as they are,
/// those of Gemini by their names without what stands in front.
pub proof fn law_trial_shows_the_models(
    value: json::JsonView,
    list: Seq<json::JsonView>,
    i: int,
    name: Seq<char>,
)
    ensures
        value.at("data"@) == Some(json::JsonView::Array(list)) ==> shown_models(value, false) == list,
        value.at("models"@) == Some(json::JsonView::Array(list)) && 0 <= i < list.len() ==> {
            let shown = shown_models(value, true);
            &&& shown.len() == list.len()
            &&& list[i].at("name"@) == Some(json::JsonView::Text("models/"@ + name))
                ==> shown[i].at("id"@) == Some(json::JsonView::Text(name))
            &&& list[i].at("name"@) == Some(json::JsonView::Text(name)) && !text::begins(
                name,
                "models/"@,
            ) ==> shown[i].at("id"@) == Some(json::JsonView::Text(name))
            &&& shown[i].at("owned_by"@) == Some(json::JsonView::Text("google"@))
        },
        value.at("data"@) is None ==> shown_models(value, false).len() == 0,
        value.at("models"@) is None ==> shown_models(value, true).len() == 0,
{
    reveal_with_fuel(json::find_member, 4);
    reveal_strlit("id");
    reveal_strlit("owned_by");
    assert("id"@.len() == 2 && "owned_by"@.len() == 8);
    let whole = "models/"@ + name;
    assert(whole.take("models/"@.len() as int) =~= "models/"@);
    assert(whole.skip("models/"@.len() as int) =~= name);
}

/// What is said of a provider that was tried out says whether it went well, and what came of it.
pub proof fn law_trial_says_how_it_went(
    success: bool,
    name: Seq<char>,
    v: json::JsonView,
)
    requires
        name != "success"@,
    ensures
        trial_form(success, name, v).at("success"@) == Some(json::JsonView::Bool(success)),
        trial_form(success, name, v).at(name) == Some(v),
{
    reveal_with_fuel(json::find_member, 3);
}

} // verus!
