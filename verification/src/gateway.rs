//! The way of a request through the gateway: who asks, for what, within which limits, and what is
//! sent on.
use vstd::prelude::*;

use crate::clock;
use crate::config;
use crate::config::AppConfig;
use crate::health;
use crate::json;
use crate::json::{named, number_value, object, text_value, Json, Member, Number};
use crate::keys;
use crate::keys::KeyCheck;
use crate::limits;
use crate::limits::{LimitCheck, LimitStep, Measured};
use crate::proxy;
use crate::routing;
use crate::text;
use crate::tokens;
use crate::tokens::UsageTokens;
use crate::usage;
use crate::usage::UsageLog;
use crate::weburl;

verus! {

/// The interface that a caller speaks.
#[derive(Clone, Copy, Debug, PartialEq, Eq, Structural)]
pub enum ProxyProtocol {
    OpenAi,
    Gemini,
}

/// An answer of the gateway itself.
#[derive(Debug)]
pub struct Reply {
    pub status: u16,
    pub body: Json,
}

/// What a [`Reply`] holds.
pub struct ReplyView {
    pub status: u16,
    pub body: json::JsonView,
}

impl View for Reply {
    type V = ReplyView;

    open spec fn view(&self) -> ReplyView {
        ReplyView { status: self.status, body: self.body@ }
    }
}

/// An error as the interfaces write it.
pub open spec fn error_form(message: Seq<char>, kind: Seq<char>, code: u64) -> json::JsonView {
    json::JsonView::Object(
        seq![
            (
                "error"@,
                json::JsonView::Object(
                    seq![
                        ("message"@, json::JsonView::Text(message)),
                        ("type"@, json::JsonView::Text(kind)),
                        ("code"@, json::JsonView::Number(Number::Unsigned(code))),
                    ],
                ),
            ),
        ],
    )
}

/// The answer to a request that is not allowed, or not any more.
pub open spec fn limit_reply(message: Seq<char>) -> ReplyView {
    ReplyView { status: 429, body: error_form(message, "limit_error"@, 429) }
}

/// The answer to a request that cannot be sent on as it is.
pub open spec fn invalid_reply(message: Seq<char>) -> ReplyView {
    ReplyView { status: 400, body: error_form(message, "invalid_request_error"@, 400) }
}

fn error_value(message: &str, kind: &str, code: u64) -> (r: Json)
    ensures
        r@ == error_form(message@, kind@, code),
{
    let inner: Vec<Member> = vec![
        named("message", text_value(message)),
        named("type", text_value(kind)),
        named("code", number_value(code)),
    ];
    assert(json::members(inner@) =~= seq![
        ("message"@, json::JsonView::Text(message@)),
        ("type"@, json::JsonView::Text(kind@)),
        ("code"@, json::JsonView::Number(Number::Unsigned(code))),
    ]);
    let outer: Vec<Member> = vec![named("error", object(inner))];
    assert(json::members(outer@) =~= error_form(message@, kind@, code)->Object_0);
    object(outer)
}

/// The answer to a request that is not allowed, or not any more.
pub fn limit_error(message: &str) -> (r: Reply)
    ensures
        r@ == limit_reply(message@),
{
    Reply { status: 429, body: error_value(message, "limit_error", 429) }
}

fn invalid_request(message: &str) -> (r: Reply)
    ensures
        r@ == invalid_reply(message@),
{
    Reply { status: 400, body: error_value(message, "invalid_request_error", 400) }
}

// ---------------------------------------------------------------------------
// What a request says
// ---------------------------------------------------------------------------

/// A target without the prefix of the gateway.
pub open spec fn unprefixed(raw: Seq<char>) -> Seq<char> {
    match text::after_prefix(raw, "/proxy"@) {
        Some(rest) => rest,
        None => raw,
    }
}

/// The interface that a target belongs to, and the target within it.
pub open spec fn split_target(target: Seq<char>) -> (ProxyProtocol, Seq<char>) {
    match text::after_prefix(target, "/gemini"@) {
        Some(rest) => (
            ProxyProtocol::Gemini,
            if rest.len() == 0 {
                "/"@
            } else {
                rest
            },
        ),
        None => (ProxyProtocol::OpenAi, target),
    }
}

/// The interface that a target belongs to, and the target within it.
pub fn split_proxy_protocol(target: &str) -> (r: (ProxyProtocol, String))
    ensures
        r.0 == split_target(target@).0,
        r.1@ == split_target(target@).1,
{
    match text::strip_prefix(target, "/gemini") {
        Some(rest) => if rest.as_str().is_empty() {
            (ProxyProtocol::Gemini, "/".to_owned())
        } else {
            (ProxyProtocol::Gemini, rest)
        },
        None => (ProxyProtocol::OpenAi, target.to_owned()),
    }
}

/// The interface and the path of a request, given its path and query.
pub open spec fn addressed(raw: Seq<char>) -> (ProxyProtocol, Seq<char>) {
    let (protocol, target) = split_target(unprefixed(raw));
    (protocol, text::before(target, '?'))
}

/// The interface and the path of a request, given its path and query.
pub fn parse_target(raw: &str) -> (r: (ProxyProtocol, String))
    ensures
        r.0 == addressed(raw@).0,
        r.1@ == addressed(raw@).1,
{
    let plain = match text::strip_prefix(raw, "/proxy") {
        Some(rest) => rest,
        None => raw.to_owned(),
    };
    let (protocol, target) = split_proxy_protocol(plain.as_str());
    (protocol, text::until(target.as_str(), '?'))
}

/// The token that a header carries.
pub open spec fn token_of(authorization: Option<Seq<char>>) -> Option<Seq<char>> {
    match authorization {
        Some(v) => match text::after_prefix(v, "Bearer "@) {
            Some(t) => Some(t),
            None => text::after_prefix(v, "bearer "@),
        },
        None => None,
    }
}

/// The token that a header carries.
pub fn bearer_token(authorization: Option<&str>) -> (r: Option<String>)
    ensures
        text::opt_text(r) == token_of(text::opt_str(authorization)),
{
    match authorization {
        Some(v) => match text::strip_prefix(v, "Bearer ") {
            Some(t) => Some(t),
            None => text::strip_prefix(v, "bearer "),
        },
        None => None,
    }
}

/// The key that a caller presents: a token; in the Gemini interface also a header of its own, or
/// the fields of the query.
pub open spec fn presented(
    protocol: ProxyProtocol,
    authorization: Option<Seq<char>>,
    google_key: Option<Seq<char>>,
    query_key: Option<Seq<char>>,
) -> Option<Seq<char>> {
    match token_of(authorization) {
        Some(t) => Some(t),
        None => match protocol {
            ProxyProtocol::OpenAi => None,
            ProxyProtocol::Gemini => match google_key {
                Some(k) => Some(k),
                None => query_key,
            },
        },
    }
}

/// The key that a query carries.
pub open spec fn key_in_query(query: Option<Seq<char>>) -> Option<Seq<char>> {
    match query {
        Some(q) => weburl::first_field(weburl::form_fields(q), "key"@),
        None => None,
    }
}

/// The key that a caller presents.
pub fn client_key_for_protocol(
    protocol: ProxyProtocol,
    authorization: Option<&str>,
    google_key: Option<&str>,
    query: Option<&str>,
) -> (r: Option<String>)
    ensures
        text::opt_text(r) == presented(
            protocol,
            text::opt_str(authorization),
            text::opt_str(google_key),
            key_in_query(text::opt_str(query)),
        ),
{
    if let Some(t) = bearer_token(authorization) {
        return Some(t);
    }
    match protocol {
        ProxyProtocol::OpenAi => None,
        ProxyProtocol::Gemini => match google_key {
            Some(k) => Some(k.to_owned()),
            None => weburl::query_key(query),
        },
    }
}

/// Whether a request is for the list of models.
pub open spec fn asks_for_models(protocol: ProxyProtocol, path: Seq<char>) -> bool {
    match protocol {
        ProxyProtocol::OpenAi => routing::is_models_path(path),
        ProxyProtocol::Gemini => routing::is_gemini_models_path(path),
    }
}

/// Whether an answer is to come in pieces.
pub open spec fn asks_for_stream(
    protocol: ProxyProtocol,
    body: json::JsonView,
    path: Seq<char>,
) -> bool {
    ||| (match body.at("stream"@) {
        Some(v) => v.truth() == Some(true),
        None => false,
    })
    ||| protocol == ProxyProtocol::Gemini && text::includes(path, ":streamGenerateContent"@)
}

/// Whether an answer is to come in pieces.
pub fn wants_stream(protocol: ProxyProtocol, body: &Json, target_path: &str) -> (r: bool)
    ensures
        r == asks_for_stream(protocol, body@, target_path@),
{
    let said = match body.get("stream") {
        Some(v) => match v.as_bool() {
            Some(b) => b,
            None => false,
        },
        None => false,
    };
    said || (match protocol {
        ProxyProtocol::Gemini => text::contains(target_path, ":streamGenerateContent"),
        ProxyProtocol::OpenAi => false,
    })
}

/// Whether a content type is that of JSON.
pub fn is_json_type(content_type: &str) -> (r: bool)
    ensures
        r == text::includes(content_type@, "json"@),
        r == says_json(content_type@),
{
    proof {
        lemma_says_json(content_type@);
    }
    text::contains(content_type, "json")
}

// ---------------------------------------------------------------------------
// Whether it is let in
// ---------------------------------------------------------------------------

/// A request that was let in.
#[derive(Debug)]
pub struct Admitted {
    pub protocol: ProxyProtocol,
    pub target_path: String,
    pub model: String,
    pub key_name: String,
    pub check: KeyCheck,
}

/// What an [`Admitted`] request holds.
pub struct AdmittedView {
    pub protocol: ProxyProtocol,
    pub target_path: Seq<char>,
    pub model: Seq<char>,
    pub key_name: Seq<char>,
    pub check: keys::KeyCheckView,
}

impl View for Admitted {
    type V = AdmittedView;

    open spec fn view(&self) -> AdmittedView {
        AdmittedView {
            protocol: self.protocol,
            target_path: self.target_path@,
            model: self.model@,
            key_name: self.key_name@,
            check: self.check@,
        }
    }
}

/// What becomes of a request at the door: it is answered, or let in.
#[derive(Debug)]
pub enum Admission {
    Answer(Reply),
    Enter(Admitted),
}

/// What an [`Admission`] holds.
pub enum AdmissionView {
    Answer(ReplyView),
    Enter(AdmittedView),
}

impl View for Admission {
    type V = AdmissionView;

    open spec fn view(&self) -> AdmissionView {
        match self {
            Admission::Answer(r) => AdmissionView::Answer(r@),
            Admission::Enter(a) => AdmissionView::Enter(a@),
        }
    }
}

/// What becomes of a request at the door, given what is said of its key.
pub open spec fn admission_of(
    c: config::ConfigView,
    protocol: ProxyProtocol,
    path: Seq<char>,
    body: json::JsonView,
    check: keys::KeyCheckView,
) -> AdmissionView {
    if !check.allowed {
        AdmissionView::Answer(limit_reply(config::or_text(check.reason, "无权访问"@)))
    } else if asks_for_models(protocol, path) {
        let allowed = match check.virtual_key {
            Some(k) => k.allowed_models,
            None => None,
        };
        AdmissionView::Answer(
            ReplyView {
                status: 200,
                body: match protocol {
                    ProxyProtocol::OpenAi => routing::models_list(c.providers, allowed),
                    ProxyProtocol::Gemini => routing::gemini_list(c.providers, allowed),
                },
            },
        )
    } else {
        match routing::requested_model(body, path) {
            None => AdmissionView::Answer(
                invalid_reply("请求体缺少 model 字段，无法路由到兼容 API 服务商"@),
            ),
            Some(model) => AdmissionView::Enter(
                AdmittedView {
                    protocol,
                    target_path: path,
                    model,
                    key_name: keys::caller_name(check.virtual_key),
                    check,
                },
            ),
        }
    }
}

/// The model for which a key is looked at: a list of models is for no model.
pub open spec fn checked_model(
    protocol: ProxyProtocol,
    path: Seq<char>,
    body: json::JsonView,
) -> Option<Seq<char>> {
    if asks_for_models(protocol, path) {
        None
    } else {
        routing::requested_model(body, path)
    }
}

/// What becomes of a request at the door at a time.
pub open spec fn admission(
    c: config::ConfigView,
    protocol: ProxyProtocol,
    path: Seq<char>,
    body: json::JsonView,
    key: Seq<char>,
    now: clock::Moment,
) -> AdmissionView {
    admission_of(
        c,
        protocol,
        path,
        body,
        keys::verdict(c, key, checked_model(protocol, path, body), now),
    )
}

/// What becomes of a request at the door at a time: a key that is not good is refused, the list of
/// models is given, and a request without a model is sent back; any other is let in.
pub fn let_in_at(
    cfg: &AppConfig,
    protocol: ProxyProtocol,
    target_path: &str,
    body: &Json,
    auth_key: &str,
    now: clock::Moment,
) -> (r: Admission)
    ensures
        r@ == admission(cfg@, protocol, target_path@, body@, auth_key@, now),
{
    let for_models = match protocol {
        ProxyProtocol::OpenAi => routing::is_models_endpoint(target_path),
        ProxyProtocol::Gemini => routing::is_gemini_models_endpoint(target_path),
    };
    let model = routing::get_request_model(body, target_path);
    let checked = if for_models {
        None
    } else {
        health::borrow(&model)
    };
    let check = keys::check_virtual_key_at(cfg, auth_key, checked, now);
    if !check.allowed {
        return Admission::Answer(
            match &check.reason {
                Some(reason) => limit_error(reason.as_str()),
                None => limit_error("无权访问"),
            },
        );
    }
    if for_models {
        let allowed = match &check.virtual_key {
            Some(k) => match &k.allowed_models {
                Some(list) => Some(list),
                None => None,
            },
            None => None,
        };
        let list = match protocol {
            ProxyProtocol::OpenAi => routing::build_models_response(cfg, allowed),
            ProxyProtocol::Gemini => routing::build_gemini_models_response(cfg, allowed),
        };
        return Admission::Answer(Reply { status: 200, body: list });
    }
    match model {
        None => Admission::Answer(
            invalid_request("请求体缺少 model 字段，无法路由到兼容 API 服务商"),
        ),
        Some(m) => {
            let key_name = keys::key_name(&check);
            Admission::Enter(
                Admitted {
                    protocol,
                    target_path: target_path.to_owned(),
                    model: m,
                    key_name,
                    check,
                },
            )
        },
    }
}

/// What becomes of a request at the door now.
pub fn let_in(
    cfg: &AppConfig,
    protocol: ProxyProtocol,
    target_path: &str,
    body: &Json,
    auth_key: &str,
) -> (r: Admission)
    ensures
        exists|now: clock::Moment|
            r@ == #[trigger] admission(cfg@, protocol, target_path@, body@, auth_key@, now),
{
    let now = clock::now();
    let_in_at(cfg, protocol, target_path, body, auth_key, now)
}

// ---------------------------------------------------------------------------
// Whether and how it is sent on
// ---------------------------------------------------------------------------

/// A request as it is sent to a provider.
#[derive(Debug)]
pub struct Forward {
    pub url: String,
    pub content_type: String,
    pub accept: String,
    pub key_header: String,
    pub key_value: String,
    pub user_agent: Option<String>,
    /// The body; the one that came in, as it came, where this is `None`.
    pub body: Option<Json>,
    pub stream: bool,
}

/// What a [`Forward`] holds.
pub struct ForwardView {
    pub url: Seq<char>,
    pub content_type: Seq<char>,
    pub accept: Seq<char>,
    pub key_header: Seq<char>,
    pub key_value: Seq<char>,
    pub user_agent: Option<Seq<char>>,
    pub body: Option<json::JsonView>,
    pub stream: bool,
}

/// What an optional value holds.
pub open spec fn opt_body(o: Option<Json>) -> Option<json::JsonView> {
    match o {
        Some(v) => Some(v@),
        None => None,
    }
}

impl View for Forward {
    type V = ForwardView;

    open spec fn view(&self) -> ForwardView {
        ForwardView {
            url: self.url@,
            content_type: self.content_type@,
            accept: self.accept@,
            key_header: self.key_header@,
            key_value: self.key_value@,
            user_agent: text::opt_text(self.user_agent),
            body: opt_body(self.body),
            stream: self.stream,
        }
    }
}

/// What comes next for a request that was let in.
#[derive(Debug)]
pub enum ProxyStep {
    /// The limit with this number is measured.
    Measure(usize),
    /// The request is answered by the gateway.
    Answer(Reply),
    /// The request fails: the provider has no address, for this reason.
    Fail(String),
    /// The request is sent on.
    Send(Forward),
}

/// What a [`ProxyStep`] holds.
pub enum ProxyStepView {
    Measure(nat),
    Answer(ReplyView),
    Fail(Seq<char>),
    Send(ForwardView),
}

impl View for ProxyStep {
    type V = ProxyStepView;

    open spec fn view(&self) -> ProxyStepView {
        match self {
            ProxyStep::Measure(i) => ProxyStepView::Measure(*i as nat),
            ProxyStep::Answer(r) => ProxyStepView::Answer(r@),
            ProxyStep::Fail(e) => ProxyStepView::Fail(e@),
            ProxyStep::Send(f) => ProxyStepView::Send(f@),
        }
    }
}

/// The part of a request that is sent on: what follows the question mark, the content type, what
/// the caller takes, and the body as a value.
#[derive(Debug)]
pub struct Inbound {
    pub query: String,
    pub content_type: String,
    pub accept: Option<String>,
    pub body: Json,
}

/// What an [`Inbound`] holds.
pub struct InboundView {
    pub query: Seq<char>,
    pub content_type: Seq<char>,
    pub accept: Option<Seq<char>>,
    pub body: json::JsonView,
}

impl View for Inbound {
    type V = InboundView;

    open spec fn view(&self) -> InboundView {
        InboundView {
            query: self.query@,
            content_type: self.content_type@,
            accept: text::opt_text(self.accept),
            body: self.body@,
        }
    }
}

/// The address to which a request is sent.
pub open spec fn forward_address(
    protocol: ProxyProtocol,
    p: routing::ResolvedView,
    path: Seq<char>,
    query: Seq<char>,
) -> Result<Seq<char>, Seq<char>> {
    match protocol {
        ProxyProtocol::OpenAi => proxy::upstream_address(p.base_url, path, query),
        ProxyProtocol::Gemini => proxy::gemini_address(p.base_url, path, query, p.model_id),
    }
}

/// The body that is sent: in the OpenAI interface a JSON body with the provider's own name for the
/// model, else the one that came in.
pub open spec fn forward_body(
    protocol: ProxyProtocol,
    p: routing::ResolvedView,
    q: InboundView,
) -> Option<json::JsonView> {
    if protocol == ProxyProtocol::OpenAi && text::includes(q.content_type, "json"@) {
        Some(routing::with_model(q.body, p.model_id))
    } else {
        None
    }
}

/// A request as it is sent to a provider.
pub open spec fn forwarded(
    protocol: ProxyProtocol,
    path: Seq<char>,
    p: routing::ResolvedView,
    q: InboundView,
    url: Seq<char>,
) -> ForwardView {
    ForwardView {
        url,
        content_type: q.content_type,
        accept: config::or_text(q.accept, "application/json"@),
        key_header: if protocol == ProxyProtocol::Gemini {
            "x-goog-api-key"@
        } else {
            "authorization"@
        },
        key_value: if protocol == ProxyProtocol::Gemini {
            p.api_key
        } else {
            "Bearer "@ + p.api_key
        },
        user_agent: p.user_agent,
        body: forward_body(protocol, p, q),
        stream: asks_for_stream(protocol, q.body, path),
    }
}

/// What becomes of a request that has passed its limits.
pub open spec fn sent(c: config::ConfigView, a: AdmittedView, q: InboundView) -> ProxyStepView {
    match routing::resolved(c.providers, a.model) {
        None => ProxyStepView::Answer(invalid_reply("未知模型: "@ + a.model)),
        Some(p) => match forward_address(a.protocol, p, a.target_path, q.query) {
            Err(e) => ProxyStepView::Fail("invalid upstream base URL: "@ + e),
            Ok(url) => ProxyStepView::Send(forwarded(a.protocol, a.target_path, p, q, url)),
        },
    }
}

/// The limits of a request that was let in.
pub open spec fn limits_of(c: config::ConfigView, a: AdmittedView) -> Seq<limits::LimitView> {
    limits::limits_for(c.limits, a.model, a.key_name, a.check.virtual_key)
}

/// What comes next for a request that was let in, given what was measured for its limits.
pub open spec fn proxy_step(
    c: config::ConfigView,
    a: AdmittedView,
    q: InboundView,
    measured: Seq<limits::MeasuredView>,
) -> ProxyStepView {
    match limits::next_step(limits_of(c, a), measured) {
        limits::LimitStepView::Measure(i) => ProxyStepView::Measure(i),
        limits::LimitStepView::Refuse(message) => ProxyStepView::Answer(limit_reply(message)),
        limits::LimitStepView::Pass => sent(c, a, q),
    }
}

/// Whether the texts of which the address is made are short enough.
pub open spec fn is_sendable(c: config::ConfigView, a: AdmittedView, q: InboundView) -> bool {
    match routing::resolved(c.providers, a.model) {
        Some(p) => proxy::within_limit(p.base_url, a.target_path, q.query) && a.target_path.len()
            + p.model_id.len() < weburl::URL_LIMIT,
        None => true,
    }
}

/// Whether the texts of which the address is made are short enough.
pub fn can_send(cfg: &AppConfig, a: &Admitted, q: &Inbound) -> (r: bool)
    ensures
        r == is_sendable(cfg@, a@, q@),
{
    match routing::resolve_provider(a.model.as_str(), cfg) {
        Some(p) => {
            if !proxy::fits_limit(
                p.base_url.as_str(),
                a.target_path.as_str(),
                q.query.as_str(),
            ) {
                return false;
            }
            let n: usize = a.target_path.as_str().unicode_len();
            let m: usize = p.model_id.as_str().unicode_len();
            m < weburl::URL_LIMIT - n
        },
        None => true,
    }
}

fn build_forward(a: &Admitted, q: &Inbound, p: routing::ResolvedProvider, url: String) -> (r:
    Forward)
    ensures
        r@ == forwarded(a.protocol, a.target_path@, p@, q@, url@),
{
    let stream = wants_stream(a.protocol, &q.body, a.target_path.as_str());
    let accept = match &q.accept {
        Some(s) => s.clone(),
        None => "application/json".to_owned(),
    };
    match a.protocol {
        ProxyProtocol::OpenAi => {
            let body = if is_json_type(q.content_type.as_str()) {
                Some(routing::rewrite_json_model(q.body.copy(), p.model_id.as_str()))
            } else {
                None
            };
            Forward {
                url,
                content_type: q.content_type.clone(),
                accept,
                key_header: "authorization".to_owned(),
                key_value: text::cat("Bearer ", p.api_key.as_str()),
                user_agent: p.user_agent,
                body,
                stream,
            }
        },
        ProxyProtocol::Gemini => Forward {
            url,
            content_type: q.content_type.clone(),
            accept,
            key_header: "x-goog-api-key".to_owned(),
            key_value: p.api_key,
            user_agent: p.user_agent,
            body: None,
            stream,
        },
    }
}

fn send(cfg: &AppConfig, a: &Admitted, q: &Inbound) -> (r: ProxyStep)
    requires
        is_sendable(cfg@, a@, q@),
    ensures
        r@ == sent(cfg@, a@, q@),
{
    let p = match routing::resolve_provider(a.model.as_str(), cfg) {
        Some(p) => p,
        None => {
            let message = text::cat("未知模型: ", a.model.as_str());
            return ProxyStep::Answer(invalid_request(message.as_str()));
        },
    };
    let address = match a.protocol {
        ProxyProtocol::OpenAi => proxy::build_upstream_url(
            p.base_url.as_str(),
            a.target_path.as_str(),
            q.query.as_str(),
        ),
        ProxyProtocol::Gemini => proxy::build_gemini_upstream_url(
            p.base_url.as_str(),
            a.target_path.as_str(),
            q.query.as_str(),
            p.model_id.as_str(),
        ),
    };
    match address {
        Ok(url) => ProxyStep::Send(build_forward(a, q, p, url)),
        Err(e) => ProxyStep::Fail(e.message()),
    }
}

/// What comes next for a request that was let in, given what was measured for the first of its
/// limits: the next measurement, until a limit is reached or all are passed; then it is sent to the
/// provider of its model.
pub fn proxy_handler(cfg: &AppConfig, a: &Admitted, q: &Inbound, measured: &Vec<Measured>) -> (r:
    ProxyStep)
    requires
        is_sendable(cfg@, a@, q@),
    ensures
        r@ == proxy_step(cfg@, a@, q@, limits::measured_of(measured@)),
{
    let checks = limits::limit_checks(cfg, a.model.as_str(), a.key_name.as_str(), &a.check);
    match limits::check_request_limits(&checks, measured) {
        LimitStep::Measure(i) => ProxyStep::Measure(i),
        LimitStep::Refuse(message) => ProxyStep::Answer(limit_error(message.as_str())),
        LimitStep::Pass => send(cfg, a, q),
    }
}

/// The limits of a request that was let in.
pub fn request_limits(cfg: &AppConfig, a: &Admitted) -> (r: Vec<LimitCheck>)
    ensures
        limits::checks_of(r@) == limits_of(cfg@, a@),
{
    limits::limit_checks(cfg, a.model.as_str(), a.key_name.as_str(), &a.check)
}

/// The headers of a caller that are sent on as they are.
pub fn passthrough_headers() -> (r: Vec<String>)
    ensures
        text::texts(r@) == seq![
            "openai-beta"@,
            "anthropic-version"@,
            "anthropic-beta"@,
            "idempotency-key"@,
        ],
{
    let r: Vec<String> = vec![
        "openai-beta".to_owned(),
        "anthropic-version".to_owned(),
        "anthropic-beta".to_owned(),
        "idempotency-key".to_owned(),
    ];
    assert(text::texts(r@) =~= seq![
        "openai-beta"@,
        "anthropic-version"@,
        "anthropic-beta"@,
        "idempotency-key"@,
    ]);
    r
}

/// The content type of a request: JSON where it names none.
pub fn inbound_type(content_type: Option<&str>) -> (r: String)
    ensures
        r@ == config::or_text(text::opt_str(content_type), "application/json"@),
{
    match content_type {
        Some(t) => t.to_owned(),
        None => "application/json".to_owned(),
    }
}

/// The body of a request as a value: an empty object where it is not JSON.
pub open spec fn inbound_value(
    content_type: Seq<char>,
    parsed: Option<json::JsonView>,
) -> json::JsonView {
    match parsed {
        Some(v) => if text::includes(content_type, "json"@) {
            v
        } else {
            json::JsonView::Object(Seq::empty())
        },
        None => json::JsonView::Object(Seq::empty()),
    }
}

/// The body of a request as a value, given what its text reads as where that is JSON.
pub fn inbound_body(content_type: &str, parsed: Option<Json>) -> (r: Json)
    ensures
        r@ == inbound_value(content_type@, json::owned_json(parsed)),
{
    if let Some(v) = parsed {
        if is_json_type(content_type) {
            return v;
        }
    }
    let none: Vec<Member> = Vec::new();
    assert(json::members(none@) =~= Seq::empty());
    object(none)
}

/// The answer of a provider as a value, where it says that it is JSON and is.
pub fn answer_value(content_type: &str, parsed: Option<Json>) -> (r: Option<Json>)
    ensures
        json::owned_json(r) == (if text::includes(content_type@, "json"@) {
            json::owned_json(parsed)
        } else {
            None
        }),
        says_json(content_type@) ==> r == parsed,
        !says_json(content_type@) ==> r is None,
{
    if is_json_type(content_type) {
        parsed
    } else {
        None
    }
}

// ---------------------------------------------------------------------------
// What is promised of it
// ---------------------------------------------------------------------------

/// Whoever presents a key that is not good is answered with the reason, and not let in.
pub proof fn law_bad_key_is_not_let_in(
    c: config::ConfigView,
    protocol: ProxyProtocol,
    path: Seq<char>,
    body: json::JsonView,
    key: Seq<char>,
    now: clock::Moment,
)
    requires
        !keys::verdict(c, key, checked_model(protocol, path, body), now).allowed,
    ensures
        ({
            let check = keys::verdict(c, key, checked_model(protocol, path, body), now);
            &&& check.reason is Some
            &&& admission(c, protocol, path, body, key, now) == AdmissionView::Answer(
                limit_reply(check.reason->0),
            )
        }),
{
}

/// Whoever is let in presented the master key, or a key that covers the model.
pub proof fn law_only_good_keys_are_let_in(
    c: config::ConfigView,
    protocol: ProxyProtocol,
    path: Seq<char>,
    body: json::JsonView,
    key: Seq<char>,
    now: clock::Moment,
)
    ensures
        admission(c, protocol, path, body, key, now) matches AdmissionView::Enter(a) ==> {
            &&& a.check.allowed
            &&& routing::requested_model(body, path) == Some(a.model)
            &&& a.check.is_master || (a.check.virtual_key is Some && keys::covers(
                a.check.virtual_key->0,
                Some(a.model),
            ))
        },
{
}

/// A request is sent on only when each of its limits was measured and none is reached.
pub proof fn law_sent_only_within_limits(
    c: config::ConfigView,
    a: AdmittedView,
    q: InboundView,
    measured: Seq<limits::MeasuredView>,
)
    requires
        proxy_step(c, a, q, measured) is Send,
    ensures
        measured.len() >= limits_of(c, a).len(),
        forall|k: int|
            0 <= k < limits_of(c, a).len() ==> !limits::is_reached(
                #[trigger] limits_of(c, a)[k],
                measured[k],
            ),
{
    limits::law_pass_means_no_limit_reached(limits_of(c, a), measured);
}

/// A request that has reached one of its limits is answered, and not sent on.
pub proof fn law_reached_limit_is_answered(
    c: config::ConfigView,
    a: AdmittedView,
    q: InboundView,
    measured: Seq<limits::MeasuredView>,
    k: nat,
)
    requires
        k < limits_of(c, a).len(),
        k < measured.len(),
        limits::is_reached(limits_of(c, a)[k as int], measured[k as int]),
    ensures
        proxy_step(c, a, q, measured) matches ProxyStepView::Answer(r) && r.status == 429,
{
    limits::law_reached_limit_refuses(limits_of(c, a), measured, k);
}

/// What is sent carries the key of the provider and asks for the provider's own model: it is made of
/// the configuration and of the request, and never of the key that the caller presented.
pub proof fn law_sent_with_the_provider_key(
    c: config::ConfigView,
    a: AdmittedView,
    q: InboundView,
    measured: Seq<limits::MeasuredView>,
)
    requires
        proxy_step(c, a, q, measured) is Send,
    ensures
        routing::resolved(c.providers, a.model) is Some,
        ({
            let p = routing::resolved(c.providers, a.model)->0;
            let f = proxy_step(c, a, q, measured)->Send_0;
            &&& f.key_value == (if a.protocol == ProxyProtocol::Gemini {
                p.api_key
            } else {
                "Bearer "@ + p.api_key
            })
            &&& forward_address(a.protocol, p, a.target_path, q.query) == Ok::<
                Seq<char>,
                Seq<char>,
            >(f.url)
            &&& f.body matches Some(b) ==> b == routing::with_model(q.body, p.model_id)
        }),
{
}

// ---------------------------------------------------------------------------
// What is recorded of it
// ---------------------------------------------------------------------------

/// What was noted of a request before it was sent.
#[derive(Debug)]
pub struct Exchange {
    pub request_id: String,
    pub model: String,
    pub key_name: String,
    pub user_agent: String,
    pub path: String,
    pub stream: bool,
}

/// What is recorded of a request that was answered.
pub open spec fn record(
    x: Exchange,
    timestamp: Seq<char>,
    t: UsageTokens,
    cost: Number,
    status: u16,
    duration_ms: u64,
    error: Seq<char>,
) -> usage::UsageLogView {
    usage::UsageLogView {
        timestamp,
        request_id: x.request_id@,
        model: x.model@,
        key_name: x.key_name@,
        input_tokens: t.input_tokens,
        cached_tokens: t.cached_tokens,
        cached_write_tokens: t.cached_write_tokens,
        output_tokens: t.output_tokens,
        cost,
        status,
        duration_ms,
        stream: x.stream,
        user_agent: x.user_agent@,
        error,
        path: x.path@,
    }
}

/// What is recorded of a request that was answered.
pub fn usage_record(
    x: &Exchange,
    timestamp: &str,
    t: UsageTokens,
    cost: Number,
    status: u16,
    duration_ms: u64,
    error: &str,
) -> (r: UsageLog)
    ensures
        r@ == record(*x, timestamp@, t, cost, status, duration_ms, error@),
{
    UsageLog {
        timestamp: timestamp.to_owned(),
        request_id: x.request_id.clone(),
        model: x.model.clone(),
        key_name: x.key_name.clone(),
        input_tokens: t.input_tokens,
        cached_tokens: t.cached_tokens,
        cached_write_tokens: t.cached_write_tokens,
        output_tokens: t.output_tokens,
        cost,
        status,
        duration_ms,
        stream: x.stream,
        user_agent: x.user_agent.clone(),
        error: error.to_owned(),
        path: x.path.clone(),
    }
}

/// The tokens that are recorded: those that the answer reports where it is JSON, else the estimate.
pub open spec fn recorded_tokens(body: json::JsonView, answer: Option<json::JsonView>) -> UsageTokens {
    match answer {
        Some(v) => tokens::reported(v, tokens::estimated(body)),
        None => tokens::only_input(tokens::estimated(body)),
    }
}

/// The tokens that are recorded, given the request and, where it is JSON, the answer.
pub fn response_usage(body: &Json, answer: Option<&Json>) -> (r: UsageTokens)
    requires
        answer matches Some(v) ==> tokens::in_range(v@),
    ensures
        r == recorded_tokens(body@, json::opt_json(answer)),
{
    let estimate: u64 = tokens::estimate_tokens(body);
    match answer {
        Some(v) => tokens::extract_usage_tokens(v, estimate),
        None => tokens::estimated_usage(estimate),
    }
}

/// What is recorded as the error of an answer: the beginning of its text where it is no success.
pub fn error_text(status: u16, body: &str) -> (r: String)
    ensures
        r@ == (if health::is_success(status) {
            Seq::empty()
        } else {
            text::clipped(body@, 300)
        }),
        200 <= status < 300 ==> r@.len() == 0,
        !(200 <= status < 300) ==> text::begins(body@, r@) && (r@.len() == 300 || r@ == body@),
{
    proof {
        assert(body@.take(body@.len() as int) =~= body@);
    }
    if 200 <= status && status < 300 {
        String::new()
    } else {
        text::clip(body, 300)
    }
}

/// What is recorded as the error of an answer that comes in pieces: its status, which is given in
/// words, where it is no success.
pub fn stream_error_text(status: u16, status_text: &str) -> (r: String)
    ensures
        r@ == (if health::is_success(status) {
            Seq::empty()
        } else {
            "HTTP "@ + status_text@
        }),
        (200 <= status < 300) == (r@.len() == 0),
{
    proof {
        reveal_strlit("HTTP ");
    }
    if 200 <= status && status < 300 {
        String::new()
    } else {
        text::cat("HTTP ", status_text)
    }
}

// ---------------------------------------------------------------------------
// What is promised of each step
// ---------------------------------------------------------------------------

/// Whether a content type holds the word that JSON is known by, somewhere.
pub open spec fn says_json(content_type: Seq<char>) -> bool {
    exists|i: int|
        0 <= i && i + 4 <= content_type.len() && #[trigger] content_type[i] == 'j' && content_type[i
            + 1] == 's' && content_type[i + 2] == 'o' && content_type[i + 3] == 'n'
}

proof fn lemma_says_json(s: Seq<char>)
    ensures
        text::includes(s, "json"@) == says_json(s),
{
    reveal_strlit("json");
    if text::includes(s, "json"@) {
        let i = choose|i: int| text::occurs_at(s, "json"@, i);
        let part = s.subrange(i, i + 4);
        assert(part[0] == 'j' && part[1] == 's' && part[2] == 'o' && part[3] == 'n');
        assert(s[i] == 'j');
    }
    if says_json(s) {
        let i = choose|i: int|
            0 <= i && i + 4 <= s.len() && #[trigger] s[i] == 'j' && s[i + 1] == 's' && s[i + 2]
                == 'o' && s[i + 3] == 'n';
        assert(s.subrange(i, i + 4) =~= "json"@);
        assert(text::occurs_at(s, "json"@, i));
    }
}

/// A JSON request of the OpenAI interface is sent with a body that asks for the provider's own model
/// where it asked for one, and says everything else as before. Any other request is sent with the
/// body that came in.
pub proof fn law_json_body_asks_for_the_provider_model(
    c: config::ConfigView,
    a: AdmittedView,
    q: InboundView,
    measured: Seq<limits::MeasuredView>,
    name: Seq<char>,
)
    requires
        proxy_step(c, a, q, measured) is Send,
    ensures
        ({
            let f = proxy_step(c, a, q, measured)->Send_0;
            let p = routing::resolved(c.providers, a.model);
            &&& f.body is Some == (a.protocol == ProxyProtocol::OpenAi && says_json(q.content_type))
            &&& p is Some
            &&& f.body matches Some(b) ==> {
                &&& q.body.at("model"@) is Some ==> b.at("model"@) == Some(
                    json::JsonView::Text(p->0.model_id),
                )
                &&& name != "model"@ || q.body.at("model"@) is None ==> b.at(name) == q.body.at(name)
            }
        }),
{
    lemma_says_json(q.content_type);
    let p = routing::resolved(c.providers, a.model)->0;
    routing::law_rewritten_body(q.body, p.model_id, name);
    routing::law_rewritten_body(q.body, p.model_id, "model"@);
}

/// A request is sent to the provider with the provider's key, in the header that its interface has
/// for it, with the provider's name for the caller's program, and with the types that the caller
/// named, JSON where it named none to accept.
pub proof fn law_sent_request_is_the_providers(
    c: config::ConfigView,
    a: AdmittedView,
    q: InboundView,
    measured: Seq<limits::MeasuredView>,
)
    requires
        proxy_step(c, a, q, measured) is Send,
    ensures
        ({
            let f = proxy_step(c, a, q, measured)->Send_0;
            let p = routing::resolved(c.providers, a.model)->0;
            &&& a.protocol == ProxyProtocol::Gemini ==> f.key_header == "x-goog-api-key"@
                && f.key_value == p.api_key
            &&& a.protocol == ProxyProtocol::OpenAi ==> f.key_header == "authorization"@
                && f.key_value == "Bearer "@ + p.api_key
            &&& f.user_agent == p.user_agent
            &&& f.content_type == q.content_type
            &&& q.accept is Some ==> f.accept == q.accept->0
            &&& q.accept is None ==> f.accept == "application/json"@
            &&& f.stream == (q.body.at("stream"@) == Some(json::JsonView::Bool(true)) || (a.protocol
                == ProxyProtocol::Gemini && exists|i: int| #[trigger]
                text::occurs_at(a.target_path, ":streamGenerateContent"@, i)))
        }),
{
}

/// An answer comes in pieces if and only if the body asks for it, or the action of the Gemini
/// interface is the one for pieces.
pub proof fn law_streams_are_asked_for(
    protocol: ProxyProtocol,
    body: json::JsonView,
    path: Seq<char>,
)
    ensures
        asks_for_stream(protocol, body, path) == (body.at("stream"@) == Some(
            json::JsonView::Bool(true),
        ) || (protocol == ProxyProtocol::Gemini && exists|i: int| #[trigger]
            text::occurs_at(path, ":streamGenerateContent"@, i))),
{
}

/// The prefix of the gateway changes nothing, the one of Gemini names its interface and is left out,
/// any other target belongs to the OpenAI interface, and a query is not part of the path.
pub proof fn law_targets_are_told_apart(path: Seq<char>, query: Seq<char>)
    requires
        path.len() > 0,
        !path.contains('?'),
        !text::begins(path, "/proxy"@),
        !text::begins(path, "/gemini"@),
    ensures
        addressed(path) == (ProxyProtocol::OpenAi, path),
        addressed(path + seq!['?'] + query) == (ProxyProtocol::OpenAi, path),
        addressed("/gemini"@ + path) == (ProxyProtocol::Gemini, path),
        addressed("/proxy"@ + path) == (ProxyProtocol::OpenAi, path),
        addressed("/proxy"@ + ("/gemini"@ + path)) == (ProxyProtocol::Gemini, path),
        addressed("/gemini"@ + (path + seq!['?'] + query)) == (ProxyProtocol::Gemini, path),
{
    reveal_strlit("/proxy");
    reveal_strlit("/gemini");
    let asked = path + seq!['?'] + query;
    text::lemma_before_same(path, '?');
    text::lemma_before_at(path, '?', query);
    assert forall|p: Seq<char>| p.len() <= 7 && !p.contains('?') && #[trigger] text::begins(
        asked,
        p,
    ) implies text::begins(path, p) by {
        if path.len() < p.len() {
            assert(asked.take(p.len() as int)[path.len() as int] == '?');
            assert(p[path.len() as int] == '?');
        } else {
            assert(asked.take(p.len() as int) =~= path.take(p.len() as int));
        }
    }
    assert(!text::begins(asked, "/proxy"@) && !text::begins(asked, "/gemini"@));
    let g = "/gemini"@ + path;
    assert(g.take(7) =~= "/gemini"@ && g.skip(7) =~= path);
    assert(!text::begins(g, "/proxy"@)) by {
        if text::begins(g, "/proxy"@) {
            assert(g.take(6)[1] == 'p');
        }
    }
    let x = "/proxy"@ + path;
    assert(x.take(6) =~= "/proxy"@ && x.skip(6) =~= path);
    let y = "/proxy"@ + g;
    assert(y.take(6) =~= "/proxy"@ && y.skip(6) =~= g);
    let z = "/gemini"@ + asked;
    assert(z.take(7) =~= "/gemini"@ && z.skip(7) =~= asked);
    assert(!text::begins(z, "/proxy"@)) by {
        if text::begins(z, "/proxy"@) {
            assert(z.take(6)[1] == 'p');
        }
    }
}

/// A token is what follows the word for it in a header, in letters of either case at its front; a
/// header without that word carries none.
pub proof fn law_token_follows_its_word(token: Seq<char>, other: Seq<char>)
    ensures
        token_of(Some("Bearer "@ + token)) == Some(token),
        token_of(Some("bearer "@ + token)) == Some(token),
        token_of(None) is None,
        !text::begins(other, "Bearer "@) && !text::begins(other, "bearer "@) ==> token_of(
            Some(other),
        ) is None,
{
    reveal_strlit("Bearer ");
    reveal_strlit("bearer ");
    let a = "Bearer "@ + token;
    let b = "bearer "@ + token;
    assert(a.take(7) =~= "Bearer "@ && a.skip(7) =~= token);
    assert(b.take(7) =~= "bearer "@ && b.skip(7) =~= token);
    assert(!text::begins(b, "Bearer "@)) by {
        if text::begins(b, "Bearer "@) {
            assert(b.take(7)[0] == 'B');
        }
    }
}

/// A caller presents the token of the header. In the Gemini interface the header of its own counts
/// next, then the key in the query; in the OpenAI interface neither counts.
pub proof fn law_keys_are_presented_in_turn(
    authorization: Option<Seq<char>>,
    google_key: Option<Seq<char>>,
    query_key: Option<Seq<char>>,
)
    ensures
        token_of(authorization) matches Some(t) ==> presented(
            ProxyProtocol::OpenAi,
            authorization,
            google_key,
            query_key,
        ) == Some(t) && presented(ProxyProtocol::Gemini, authorization, google_key, query_key)
            == Some(t),
        token_of(authorization) is None ==> {
            &&& presented(ProxyProtocol::OpenAi, authorization, google_key, query_key) is None
            &&& google_key is Some ==> presented(
                ProxyProtocol::Gemini,
                authorization,
                google_key,
                query_key,
            ) == google_key
            &&& google_key is None ==> presented(
                ProxyProtocol::Gemini,
                authorization,
                google_key,
                query_key,
            ) == query_key
        },
{
}

/// A request with a good key that names a model is let in, for that model and under the name of its
/// key.
pub proof fn law_good_request_is_let_in(
    c: config::ConfigView,
    protocol: ProxyProtocol,
    path: Seq<char>,
    body: json::JsonView,
    key: Seq<char>,
    now: clock::Moment,
    model: Seq<char>,
)
    requires
        !asks_for_models(protocol, path),
        routing::requested_model(body, path) == Some(model),
        keys::verdict(c, key, Some(model), now).allowed,
    ensures
        admission(c, protocol, path, body, key, now) matches AdmissionView::Enter(a) && {
            &&& a.model == model
            &&& a.protocol == protocol
            &&& a.target_path == path
            &&& a.check == keys::verdict(c, key, Some(model), now)
            &&& a.key_name == keys::caller_name(a.check.virtual_key)
        },
{
}

/// Whoever has a good key and asks for the models gets the list of those that the key is good for,
/// in the form of the interface, whatever the body says.
pub proof fn law_models_are_listed_for_a_good_key(
    c: config::ConfigView,
    path: Seq<char>,
    body: json::JsonView,
    key: Seq<char>,
    now: clock::Moment,
)
    requires
        keys::verdict(c, key, None, now).allowed,
    ensures
        ({
            let k = keys::verdict(c, key, None, now).virtual_key;
            let allowed = if k is Some {
                k->0.allowed_models
            } else {
                None
            };
            &&& routing::is_models_path(path) ==> admission(
                c,
                ProxyProtocol::OpenAi,
                path,
                body,
                key,
                now,
            ) == AdmissionView::Answer(
                ReplyView { status: 200, body: routing::models_list(c.providers, allowed) },
            )
            &&& routing::is_gemini_models_path(path) ==> admission(
                c,
                ProxyProtocol::Gemini,
                path,
                body,
                key,
                now,
            ) == AdmissionView::Answer(
                ReplyView { status: 200, body: routing::gemini_list(c.providers, allowed) },
            )
        }),
{
}

/// A request with a good key that names no model is sent back.
pub proof fn law_request_without_a_model_is_sent_back(
    c: config::ConfigView,
    protocol: ProxyProtocol,
    path: Seq<char>,
    body: json::JsonView,
    key: Seq<char>,
    now: clock::Moment,
)
    requires
        !asks_for_models(protocol, path),
        routing::requested_model(body, path) is None,
        keys::verdict(c, key, None, now).allowed,
    ensures
        admission(c, protocol, path, body, key, now) matches AdmissionView::Answer(r) && r.status
            == 400,
{
}

/// An error that a caller is answered with says what is wrong, of what kind it is, and its status.
pub proof fn law_errors_say_what_is_wrong(message: Seq<char>)
    ensures
        limit_reply(message).status == 429,
        limit_reply(message).body.at2("error"@, "message"@) == Some(json::JsonView::Text(message)),
        limit_reply(message).body.at2("error"@, "type"@) == Some(
            json::JsonView::Text("limit_error"@),
        ),
        limit_reply(message).body.at2("error"@, "code"@) == Some(
            json::JsonView::Number(Number::Unsigned(429)),
        ),
        invalid_reply(message).status == 400,
        invalid_reply(message).body.at2("error"@, "message"@) == Some(
            json::JsonView::Text(message),
        ),
        invalid_reply(message).body.at2("error"@, "type"@) == Some(
            json::JsonView::Text("invalid_request_error"@),
        ),
        invalid_reply(message).body.at2("error"@, "code"@) == Some(
            json::JsonView::Number(Number::Unsigned(400)),
        ),
{
    reveal_with_fuel(json::find_member, 4);
    reveal_strlit("error");
    reveal_strlit("message");
    reveal_strlit("type");
    reveal_strlit("code");
    assert("message"@.len() == 7 && "type"@.len() == 4 && "code"@.len() == 4);
    assert("type"@[0] == 't' && "code"@[0] == 'c');
}

/// A request that has passed its limits is answered where no provider has its model, with that
/// model; fails where its provider has no good address; and is sent otherwise.
pub proof fn law_passed_request_is_sent(
    c: config::ConfigView,
    a: AdmittedView,
    q: InboundView,
    measured: Seq<limits::MeasuredView>,
)
    requires
        measured.len() >= limits_of(c, a).len(),
        forall|k: int|
            0 <= k < limits_of(c, a).len() ==> !limits::is_reached(
                #[trigger] limits_of(c, a)[k],
                measured[k],
            ),
    ensures
        routing::resolved(c.providers, a.model) is None ==> proxy_step(c, a, q, measured)
            == ProxyStepView::Answer(invalid_reply("未知模型: "@ + a.model)),
        routing::resolved(c.providers, a.model) matches Some(p) ==> {
            let to = match a.protocol {
                ProxyProtocol::OpenAi => proxy::upstream_address(
                    p.base_url,
                    a.target_path,
                    q.query,
                ),
                ProxyProtocol::Gemini => proxy::gemini_address(
                    p.base_url,
                    a.target_path,
                    q.query,
                    p.model_id,
                ),
            };
            &&& to is Err ==> proxy_step(c, a, q, measured) is Fail
            &&& to is Ok ==> (proxy_step(c, a, q, measured) matches ProxyStepView::Send(f) && f.url
                == to->Ok_0)
        },
{
    limits::law_next_limit_is_measured(limits_of(c, a), measured);
}

/// Whether a request is answered because of a limit.
pub open spec fn is_refused(step: ProxyStepView) -> bool {
    step matches ProxyStepView::Answer(r) && r.status == 429
}

/// A request whose key has a budget is not sent once a measurement says that the budget is spent:
/// it is answered. So is one whose key allows no more requests.
pub proof fn law_limits_of_the_key_hold(
    c: config::ConfigView,
    a: AdmittedView,
    q: InboundView,
    measured: Seq<limits::MeasuredView>,
    k: config::VirtualKeyView,
    i: int,
)
    requires
        a.check.virtual_key == Some(k),
        0 <= i < limits_of(c, a).len(),
        i < measured.len(),
        limits_of(c, a)[i].subject == limits::SubjectView::Key(a.key_name),
    ensures
        k.budget matches Some(b) ==> limits_of(c, a).contains(
            limits::LimitView {
                subject: limits::SubjectView::Key(a.key_name),
                allowance: limits::Allowance::Budget(b),
            },
        ),
        k.rpm matches Some(n) ==> limits_of(c, a).contains(
            limits::LimitView {
                subject: limits::SubjectView::Key(a.key_name),
                allowance: limits::Allowance::Requests(n as u64),
            },
        ),
        match (limits_of(c, a)[i].allowance, measured[i]) {
            (limits::Allowance::Budget(_), limits::MeasuredView::Cost(spent, _)) => spent
                ==> is_refused(proxy_step(c, a, q, measured)),
            (limits::Allowance::Requests(n), limits::MeasuredView::Requests(m)) => m >= n
                ==> is_refused(proxy_step(c, a, q, measured)),
            _ => true,
        },
{
    limits::law_limits_of_the_key_are_imposed(c.limits, a.model, a.key_name, k);
    if limits::is_reached(limits_of(c, a)[i], measured[i]) {
        law_reached_limit_is_answered(c, a, q, measured, i as nat);
    }
}

/// What is recorded of an answer is who asked for what, how it ended and what it used.
pub proof fn law_record_says_what_happened(
    x: Exchange,
    timestamp: Seq<char>,
    t: UsageTokens,
    cost: Number,
    status: u16,
    duration_ms: u64,
    error: Seq<char>,
)
    ensures
        ({
            let r = record(x, timestamp, t, cost, status, duration_ms, error);
            &&& r.timestamp == timestamp && r.request_id == x.request_id@ && r.model == x.model@
            &&& r.key_name == x.key_name@ && r.user_agent == x.user_agent@ && r.path == x.path@
            &&& r.stream == x.stream && r.status == status && r.duration_ms == duration_ms
            &&& r.error == error && r.cost == cost
            &&& r.input_tokens == t.input_tokens && r.output_tokens == t.output_tokens
            &&& r.cached_tokens == t.cached_tokens && r.cached_write_tokens == t.cached_write_tokens
        }),
{
}

/// An answer that is JSON is recorded with what it reports, the estimate of the request standing in
/// for what it does not; any other answer with that estimate.
pub proof fn law_answer_is_recorded_with_its_report(
    body: json::JsonView,
    answer: json::JsonView,
    n: u64,
)
    ensures
        recorded_tokens(body, None).input_tokens == tokens::estimated(body),
        recorded_tokens(body, None).output_tokens == 0,
        recorded_tokens(body, Some(answer)) == tokens::reported(answer, tokens::estimated(body)),
{
}

/// A body that says that it is JSON is read as what it says, where it can be read; any other is read
/// as nothing.
pub proof fn law_json_bodies_are_read(content_type: Seq<char>, v: json::JsonView, name: Seq<char>)
    ensures
        says_json(content_type) ==> inbound_value(content_type, Some(v)) == v,
        !says_json(content_type) ==> inbound_value(content_type, Some(v)).at(name) is None,
        inbound_value(content_type, None).at(name) is None,
{
    lemma_says_json(content_type);
}

/// The key in a query is the first value under its name that is not blank, and there is none without
/// a query.
pub proof fn law_query_may_carry_the_key(query: Seq<char>, i: int)
    requires
        0 <= i < weburl::form_fields(query).len(),
        weburl::form_fields(query)[i].0 == "key"@,
        !text::blank(weburl::form_fields(query)[i].1),
        forall|j: int|
            0 <= j < i ==> (#[trigger] weburl::form_fields(query)[j]).0 != "key"@ || text::blank(
                weburl::form_fields(query)[j].1,
            ),
    ensures
        key_in_query(Some(query)) == Some(weburl::form_fields(query)[i].1),
        key_in_query(None) is None,
{
    weburl::law_first_value_counts(weburl::form_fields(query), "key"@, i);
}

/// The prefix of Gemini alone is the top of its interface.
pub proof fn law_prefix_alone_is_the_top(rest: Seq<char>)
    ensures
        split_target("/gemini"@) == (ProxyProtocol::Gemini, "/"@),
        rest.len() > 0 ==> split_target("/gemini"@ + rest) == (ProxyProtocol::Gemini, rest),
        !text::begins(rest, "/gemini"@) ==> split_target(rest) == (ProxyProtocol::OpenAi, rest),
{
    let g = "/gemini"@;
    assert(g.take(g.len() as int) =~= g);
    assert(g.skip(g.len() as int) =~= Seq::<char>::empty());
    let x = g + rest;
    assert(x.take(g.len() as int) =~= g);
    assert(x.skip(g.len() as int) =~= rest);
}

/// A refused request is answered with the reason for it.
pub proof fn law_refusal_gives_the_reason(
    c: config::ConfigView,
    protocol: ProxyProtocol,
    path: Seq<char>,
    body: json::JsonView,
    key: Seq<char>,
    now: clock::Moment,
    reason: Seq<char>,
)
    requires
        !asks_for_models(protocol, path),
        !keys::verdict(c, key, routing::requested_model(body, path), now).allowed,
        keys::verdict(c, key, routing::requested_model(body, path), now).reason == Some(reason),
    ensures
        match admission(c, protocol, path, body, key, now) {
            AdmissionView::Answer(r) => r.status == 429 && r.body.at2("error"@, "message"@) == Some(
                json::JsonView::Text(reason),
            ),
            _ => false,
        },
{
    law_errors_say_what_is_wrong(reason);
}

} // verus!
