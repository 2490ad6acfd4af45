//! Which model a request is for, and which provider serves it.
use vstd::prelude::*;

use crate::config;
use crate::config::{AppConfig, ModelConfig, ProviderConfig};
use crate::json;
use crate::json::{array, named, object, text_value, Json, Member};
use crate::text;

verus! {

// ---------------------------------------------------------------------------
// The model of a request
// ---------------------------------------------------------------------------

/// The pieces of the path of a target.
pub open spec fn path_pieces(target: Seq<char>) -> Seq<Seq<char>> {
    text::split_on(
        text::drop_leading(text::drop_trailing(text::before(target, '?'), '/'), '/'),
        '/',
    )
}

/// The model that a path names.
pub open spec fn path_model(target: Seq<char>) -> Option<Seq<char>> {
    let parts = path_pieces(target);
    if parts.len() == 3 && parts[0] == "v1"@ && parts[1] == "models"@ {
        Some(parts[2])
    } else if parts.len() == 3 && parts[0] == "v1beta"@ && parts[1] == "models"@ {
        Some(text::before_last(parts[2], ':'))
    } else if parts.len() == 2 && parts[0] == "models"@ {
        Some(parts[1])
    } else {
        None
    }
}

/// The model that a request asks for: the one in its body where that is not blank, else the one in
/// its path.
pub open spec fn requested_model(body: json::JsonView, target: Seq<char>) -> Option<Seq<char>> {
    match json::text_of(body.at("model"@)) {
        Some(m) => if text::blank(m) {
            path_model(target)
        } else {
            Some(m)
        },
        None => path_model(target),
    }
}

fn model_in_path(target_path: &str) -> (r: Option<String>)
    ensures
        text::opt_text(r) == path_model(target_path@),
{
    let path = text::until(target_path, '?');
    let head = text::trim_trailing(path.as_str(), '/');
    let inner = text::trim_leading(head.as_str(), '/');
    let parts = text::split(inner.as_str(), '/');
    let ghost all = text::texts(parts@);
    assert(all == path_pieces(target_path@));
    if parts.len() == 3 {
        assert(all[0] == parts@[0]@ && all[1] == parts@[1]@ && all[2] == parts@[2]@);
        if text::same(parts[1].as_str(), "models") {
            if text::same(parts[0].as_str(), "v1") {
                return Some(parts[2].clone());
            }
            if text::same(parts[0].as_str(), "v1beta") {
                return Some(text::until_last(parts[2].as_str(), ':'));
            }
        }
        None
    } else if parts.len() == 2 {
        assert(all[0] == parts@[0]@ && all[1] == parts@[1]@);
        if text::same(parts[0].as_str(), "models") {
            Some(parts[1].clone())
        } else {
            None
        }
    } else {
        None
    }
}

/// The model that a request asks for: the one in its body where that is not blank, else the one in
/// its path.
pub fn get_request_model(body: &Json, target_path: &str) -> (r: Option<String>)
    ensures
        text::opt_text(r) == requested_model(body@, target_path@),
{
    if let Some(m) = body.text_at("model") {
        if !text::is_blank(m) {
            return Some(m.to_owned());
        }
    }
    model_in_path(target_path)
}

/// Whether a target asks for the models, or for one of them.
pub open spec fn is_models_path(target: Seq<char>) -> bool {
    let path = text::before(target, '?');
    ||| path == "/v1/models"@
    ||| path == "/models"@
    ||| text::begins(path, "/v1/models/"@)
    ||| text::begins(path, "/models/"@)
}

/// Whether a target asks for the models, or for one of them.
pub fn is_models_endpoint(target_path: &str) -> (r: bool)
    ensures
        r == is_models_path(target_path@),
{
    let path = text::until(target_path, '?');
    let p = path.as_str();
    text::same(p, "/v1/models") || text::same(p, "/models") || text::starts_with(p, "/v1/models/")
        || text::starts_with(p, "/models/")
}

/// Whether a target of the Gemini interface asks for the models, or for one of them. A colon names
/// an action on a model, which is something else.
pub open spec fn is_gemini_models_path(target: Seq<char>) -> bool {
    let path = text::before(target, '?');
    ||| path == "/v1beta/models"@
    ||| path == "/models"@
    ||| (text::begins(path, "/v1beta/models/"@) || text::begins(path, "/models/"@))
        && !path.contains(':')
}

/// Whether a target of the Gemini interface asks for the models, or for one of them.
pub fn is_gemini_models_endpoint(target_path: &str) -> (r: bool)
    ensures
        r == is_gemini_models_path(target_path@),
{
    let path = text::until(target_path, '?');
    let p = path.as_str();
    text::same(p, "/v1beta/models") || text::same(p, "/models") || ((text::starts_with(
        p,
        "/v1beta/models/",
    ) || text::starts_with(p, "/models/")) && !text::contains_char(p, ':'))
}

// ---------------------------------------------------------------------------
// The provider of a model
// ---------------------------------------------------------------------------

/// The provider that serves a request, and its own name for the model.
#[derive(Debug)]
pub struct ResolvedProvider {
    pub name: String,
    pub provider_type: String,
    pub base_url: String,
    pub api_key: String,
    pub user_agent: Option<String>,
    pub model_id: String,
}

/// What a [`ResolvedProvider`] holds.
#[verifier::ext_equal]
pub struct ResolvedView {
    pub name: Seq<char>,
    pub provider_type: Seq<char>,
    pub base_url: Seq<char>,
    pub api_key: Seq<char>,
    pub user_agent: Option<Seq<char>>,
    pub model_id: Seq<char>,
}

impl View for ResolvedProvider {
    type V = ResolvedView;

    open spec fn view(&self) -> ResolvedView {
        ResolvedView {
            name: self.name@,
            provider_type: self.provider_type@,
            base_url: self.base_url@,
            api_key: self.api_key@,
            user_agent: text::opt_text(self.user_agent),
            model_id: self.model_id@,
        }
    }
}

/// What an optional resolved provider holds.
pub open spec fn opt_resolved(o: Option<ResolvedProvider>) -> Option<ResolvedView> {
    match o {
        Some(p) => Some(p@),
        None => None,
    }
}

/// A provider as it serves a model that it calls `model_id`.
pub open spec fn serving(p: config::ProviderView, model_id: Seq<char>) -> ResolvedView {
    ResolvedView {
        name: p.name,
        provider_type: p.provider_type,
        base_url: text::or_empty(p.base_url),
        api_key: p.api_key,
        user_agent: p.user_agent,
        model_id,
    }
}

/// The models that MiniMax serves under their own names.
pub open spec fn is_minimax_native(model: Seq<char>) -> bool {
    ||| model == "MiniMax-M2.7"@
    ||| model == "MiniMax-M2.7-highspeed"@
    ||| model == "MiniMax-M2.5"@
    ||| model == "MiniMax-M2.5-highspeed"@
    ||| model == "MiniMax-M2.1"@
    ||| model == "MiniMax-M2.1-highspeed"@
    ||| model == "MiniMax-M2"@
    ||| model == "M2-her"@
    ||| model == "speech-2.8-hd"@
    ||| model == "speech-2.8-turbo"@
    ||| model == "speech-2.6-hd"@
    ||| model == "speech-2.6-turbo"@
    ||| model == "speech-02-hd"@
    ||| model == "speech-02-turbo"@
    ||| model == "speech-01-hd"@
    ||| model == "speech-01-turbo"@
    ||| model == "MiniMax-Hailuo-2.3"@
    ||| model == "MiniMax-Hailuo-2.3-Fast"@
    ||| model == "MiniMax-Hailuo-02"@
    ||| model == "T2V-01"@
    ||| model == "I2V-01"@
    ||| model == "I2V-01-live"@
    ||| model == "I2V-01-Director"@
    ||| model == "T2V-01-Director"@
    ||| model == "I2V-01-Subject"@
    ||| model == "S2V-01"@
    ||| model == "image-01"@
    ||| model == "image-01-live"@
    ||| model == "music-2.6"@
    ||| model == "music-cover"@
    ||| model == "music-2.6-free"@
    ||| model == "music-cover-free"@
}

fn minimax_native(model: &str) -> (r: bool)
    ensures
        r == is_minimax_native(model@),
{
    text::same(model, "MiniMax-M2.7") || text::same(model, "MiniMax-M2.7-highspeed") || text::same(
        model,
        "MiniMax-M2.5",
    ) || text::same(model, "MiniMax-M2.5-highspeed") || text::same(model, "MiniMax-M2.1")
        || text::same(model, "MiniMax-M2.1-highspeed") || text::same(model, "MiniMax-M2")
        || text::same(model, "M2-her") || text::same(model, "speech-2.8-hd") || text::same(
        model,
        "speech-2.8-turbo",
    ) || text::same(model, "speech-2.6-hd") || text::same(model, "speech-2.6-turbo") || text::same(
        model,
        "speech-02-hd",
    ) || text::same(model, "speech-02-turbo") || text::same(model, "speech-01-hd") || text::same(
        model,
        "speech-01-turbo",
    ) || text::same(model, "MiniMax-Hailuo-2.3") || text::same(model, "MiniMax-Hailuo-2.3-Fast")
        || text::same(model, "MiniMax-Hailuo-02") || text::same(model, "T2V-01") || text::same(
        model,
        "I2V-01",
    ) || text::same(model, "I2V-01-live") || text::same(model, "I2V-01-Director") || text::same(
        model,
        "T2V-01-Director",
    ) || text::same(model, "I2V-01-Subject") || text::same(model, "S2V-01") || text::same(
        model,
        "image-01",
    ) || text::same(model, "image-01-live") || text::same(model, "music-2.6") || text::same(
        model,
        "music-cover",
    ) || text::same(model, "music-2.6-free") || text::same(model, "music-cover-free")
}

/// The first model with the given alias.
pub open spec fn first_model(ms: Seq<config::ModelView>, alias: Seq<char>) -> Option<
    config::ModelView,
>
    decreases ms.len(),
{
    if ms.len() == 0 {
        None
    } else if ms[0].model_name == alias {
        Some(ms[0])
    } else {
        first_model(ms.skip(1), alias)
    }
}

/// The first provider that has a model with the given alias, as it serves that model.
pub open spec fn first_owner(ps: Seq<config::ProviderView>, alias: Seq<char>) -> Option<
    ResolvedView,
>
    decreases ps.len(),
{
    if ps.len() == 0 {
        None
    } else {
        match first_model(ps[0].models, alias) {
            Some(m) => Some(serving(ps[0], config::upstream_id(m))),
            None => first_owner(ps.skip(1), alias),
        }
    }
}

/// Whether a provider is MiniMax, by its address or its name.
pub open spec fn is_minimax(p: config::ProviderView) -> bool {
    ||| text::includes(text::lowered(text::or_empty(p.base_url)), "minimaxi.com"@)
    ||| text::includes(text::lowered(p.name), "minimax"@)
}

/// The first provider that is MiniMax.
pub open spec fn first_minimax(ps: Seq<config::ProviderView>) -> Option<config::ProviderView>
    decreases ps.len(),
{
    if ps.len() == 0 {
        None
    } else if is_minimax(ps[0]) {
        Some(ps[0])
    } else {
        first_minimax(ps.skip(1))
    }
}

/// The provider of a model: the first one that has it as an alias, else MiniMax for one of the
/// models that it serves under their own names.
pub open spec fn resolved(ps: Seq<config::ProviderView>, model: Seq<char>) -> Option<ResolvedView> {
    match first_owner(ps, model) {
        Some(r) => Some(r),
        None => if is_minimax_native(model) {
            match first_minimax(ps) {
                Some(p) => Some(serving(p, model)),
                None => None,
            }
        } else {
            None
        },
    }
}

fn find_model<'a>(models: &'a Vec<ModelConfig>, alias: &str) -> (r: Option<&'a ModelConfig>)
    ensures
        (match r {
            Some(m) => Some(m@),
            None => None,
        }) == first_model(config::models_of(models@), alias@),
{
    let n: usize = models.len();
    let ghost all = config::models_of(models@);
    assert(all.skip(0) =~= all);
    for i in 0..n
        invariant
            n == models@.len(),
            all == config::models_of(models@),
            first_model(all, alias@) == first_model(all.skip(i as int), alias@),
    {
        assert(all.skip(i as int)[0] == models@[i as int]@);
        if text::same(models[i].model_name.as_str(), alias) {
            return Some(&models[i]);
        }
        assert(all.skip(i as int).skip(1) =~= all.skip(i + 1));
    }
    None
}

fn to_resolved(p: &ProviderConfig, model_id: &str) -> (r: ResolvedProvider)
    ensures
        r@ == serving(p@, model_id@),
{
    let base_url = match &p.base_url {
        Some(u) => u.clone(),
        None => String::new(),
    };
    let r = ResolvedProvider {
        name: p.name.clone(),
        provider_type: p.provider_type.clone(),
        base_url,
        api_key: p.api_key.clone(),
        user_agent: text::copy_opt(&p.user_agent),
        model_id: model_id.to_owned(),
    };
    assert(r@ =~= serving(p@, model_id@));
    r
}

fn minimax(p: &ProviderConfig) -> (r: bool)
    ensures
        r == is_minimax(p@),
{
    let base = match &p.base_url {
        Some(u) => text::lower_ascii(u.as_str()),
        None => text::lower_ascii(""),
    };
    proof {
        reveal_strlit("");
        assert(""@ =~= Seq::empty());
    }
    let name = text::lower_ascii(p.name.as_str());
    text::contains(base.as_str(), "minimaxi.com") || text::contains(name.as_str(), "minimax")
}

fn find_owner(providers: &Vec<ProviderConfig>, alias: &str) -> (r: Option<ResolvedProvider>)
    ensures
        opt_resolved(r) == first_owner(config::providers_of(providers@), alias@),
{
    let n: usize = providers.len();
    let ghost all = config::providers_of(providers@);
    assert(all.skip(0) =~= all);
    for i in 0..n
        invariant
            n == providers@.len(),
            all == config::providers_of(providers@),
            first_owner(all, alias@) == first_owner(all.skip(i as int), alias@),
    {
        assert(all.skip(i as int)[0] == providers@[i as int]@);
        if let Some(m) = find_model(&providers[i].models, alias) {
            let id = config::upstream_model(m);
            return Some(to_resolved(&providers[i], id.as_str()));
        }
        assert(all.skip(i as int).skip(1) =~= all.skip(i + 1));
    }
    None
}

fn find_minimax(providers: &Vec<ProviderConfig>, model: &str) -> (r: Option<ResolvedProvider>)
    ensures
        opt_resolved(r) == (match first_minimax(config::providers_of(providers@)) {
            Some(p) => Some(serving(p, model@)),
            None => None,
        }),
{
    let n: usize = providers.len();
    let ghost all = config::providers_of(providers@);
    assert(all.skip(0) =~= all);
    for i in 0..n
        invariant
            n == providers@.len(),
            all == config::providers_of(providers@),
            first_minimax(all) == first_minimax(all.skip(i as int)),
    {
        assert(all.skip(i as int)[0] == providers@[i as int]@);
        if minimax(&providers[i]) {
            return Some(to_resolved(&providers[i], model));
        }
        assert(all.skip(i as int).skip(1) =~= all.skip(i + 1));
    }
    None
}

/// The provider of a model: the first one that has it as an alias, else MiniMax for one of the
/// models that it serves under their own names.
pub fn resolve_provider(model: &str, cfg: &AppConfig) -> (r: Option<ResolvedProvider>)
    ensures
        opt_resolved(r) == resolved(cfg@.providers, model@),
{
    if let Some(p) = find_owner(&cfg.providers, model) {
        return Some(p);
    }
    if minimax_native(model) {
        find_minimax(&cfg.providers, model)
    } else {
        None
    }
}

proof fn lemma_first_model(ms: Seq<config::ModelView>, alias: Seq<char>, j: int)
    requires
        0 <= j < ms.len(),
        ms[j].model_name == alias,
        forall|k: int| 0 <= k < j ==> (#[trigger] ms[k]).model_name != alias,
    ensures
        first_model(ms, alias) == Some(ms[j]),
    decreases ms.len(),
{
    if j > 0 {
        assert(ms[0].model_name != alias);
        let rest = ms.skip(1);
        assert forall|k: int| 0 <= k < j - 1 implies (#[trigger] rest[k]).model_name != alias by {
            assert(rest[k] == ms[k + 1]);
        }
        lemma_first_model(rest, alias, j - 1);
    }
}

/// Whether a provider has a model with the given alias.
pub open spec fn has_alias(p: config::ProviderView, alias: Seq<char>) -> bool {
    exists|j: int| 0 <= j < p.models.len() && (#[trigger] p.models[j]).model_name == alias
}

proof fn lemma_no_model(ms: Seq<config::ModelView>, alias: Seq<char>)
    requires
        forall|k: int| 0 <= k < ms.len() ==> (#[trigger] ms[k]).model_name != alias,
    ensures
        first_model(ms, alias) is None,
    decreases ms.len(),
{
    if ms.len() > 0 {
        let rest = ms.skip(1);
        assert forall|k: int| 0 <= k < rest.len() implies (#[trigger] rest[k]).model_name != alias by {
            assert(rest[k] == ms[k + 1]);
        }
        assert(ms[0].model_name != alias);
        lemma_no_model(rest, alias);
    }
}

/// An alias goes to the first provider that has it, and there to the first model that it names.
pub proof fn law_first_alias_wins(
    ps: Seq<config::ProviderView>,
    alias: Seq<char>,
    i: int,
    j: int,
)
    requires
        0 <= i < ps.len(),
        forall|k: int| 0 <= k < i ==> !has_alias(#[trigger] ps[k], alias),
        0 <= j < ps[i].models.len(),
        ps[i].models[j].model_name == alias,
        forall|k: int| 0 <= k < j ==> (#[trigger] ps[i].models[k]).model_name != alias,
    ensures
        resolved(ps, alias) == Some(serving(ps[i], config::upstream_id(ps[i].models[j]))),
    decreases ps.len(),
{
    if i == 0 {
        lemma_first_model(ps[0].models, alias, j);
    } else {
        assert(!has_alias(ps[0], alias));
        lemma_no_model(ps[0].models, alias);
        let rest = ps.skip(1);
        assert forall|k: int| 0 <= k < i - 1 implies !has_alias(#[trigger] rest[k], alias) by {
            assert(rest[k] == ps[k + 1]);
        }
        law_first_alias_wins(rest, alias, i - 1, j);
        assert(first_owner(rest, alias) is Some) by {
            lemma_owner_exists(rest, alias, i - 1, j);
        }
    }
}

proof fn lemma_owner_exists(ps: Seq<config::ProviderView>, alias: Seq<char>, i: int, j: int)
    requires
        0 <= i < ps.len(),
        0 <= j < ps[i].models.len(),
        ps[i].models[j].model_name == alias,
    ensures
        first_owner(ps, alias) is Some,
    decreases ps.len(),
{
    if first_model(ps[0].models, alias) is None {
        if i == 0 {
            lemma_model_exists(ps[0].models, alias, j);
        } else {
            lemma_owner_exists(ps.skip(1), alias, i - 1, j);
        }
    }
}

proof fn lemma_model_exists(ms: Seq<config::ModelView>, alias: Seq<char>, j: int)
    requires
        0 <= j < ms.len(),
        ms[j].model_name == alias,
    ensures
        first_model(ms, alias) is Some,
    decreases ms.len(),
{
    if ms[0].model_name != alias {
        lemma_model_exists(ms.skip(1), alias, j - 1);
    }
}

/// A model that no provider has as an alias and that MiniMax does not serve under its own name has
/// no provider.
pub proof fn law_unknown_model_is_refused(ps: Seq<config::ProviderView>, model: Seq<char>)
    requires
        forall|k: int| 0 <= k < ps.len() ==> !has_alias(#[trigger] ps[k], model),
        !is_minimax_native(model),
    ensures
        resolved(ps, model) is None,
    decreases ps.len(),
{
    if ps.len() > 0 {
        assert(!has_alias(ps[0], model));
        lemma_no_model(ps[0].models, model);
        let rest = ps.skip(1);
        assert forall|k: int| 0 <= k < rest.len() implies !has_alias(#[trigger] rest[k], model) by {
            assert(rest[k] == ps[k + 1]);
        }
        law_unknown_model_is_refused(rest, model);
    }
}

// ---------------------------------------------------------------------------
// Lists of models
// ---------------------------------------------------------------------------

/// Whether a caller sees a model: without a list of allowed models, every one.
pub open spec fn is_visible(allowed: Option<Seq<Seq<char>>>, alias: Seq<char>) -> bool {
    match allowed {
        Some(list) => list.contains(alias),
        None => true,
    }
}

/// The optional list of texts that an optional borrowed list of strings holds.
pub open spec fn opt_list(o: Option<&Vec<String>>) -> Option<Seq<Seq<char>>> {
    match o {
        Some(v) => Some(text::texts(v@)),
        None => None,
    }
}

fn visible(allowed: Option<&Vec<String>>, alias: &str) -> (r: bool)
    ensures
        r == is_visible(opt_list(allowed), alias@),
{
    match allowed {
        Some(list) => text::holds(list, alias),
        None => true,
    }
}

/// A model as the OpenAI interface lists it.
pub open spec fn model_item(p: config::ProviderView, m: config::ModelView) -> json::JsonView {
    json::JsonView::Object(
        seq![
            ("id"@, json::JsonView::Text(m.model_name)),
            ("object"@, json::JsonView::Text("model"@)),
            ("created"@, json::JsonView::Number(json::Number::Unsigned(0))),
            ("owned_by"@, json::JsonView::Text(p.name)),
        ],
    )
}

/// The first `n` models of a provider that a caller sees, as the OpenAI interface lists them.
pub open spec fn provider_items(
    p: config::ProviderView,
    allowed: Option<Seq<Seq<char>>>,
    n: nat,
) -> Seq<json::JsonView>
    decreases n,
{
    if n == 0 {
        Seq::empty()
    } else {
        let before = provider_items(p, allowed, (n - 1) as nat);
        let m = p.models[n - 1];
        if is_visible(allowed, m.model_name) {
            before.push(model_item(p, m))
        } else {
            before
        }
    }
}

/// The models that a caller sees, as the OpenAI interface lists them.
pub open spec fn model_items(
    ps: Seq<config::ProviderView>,
    allowed: Option<Seq<Seq<char>>>,
) -> Seq<json::JsonView>
    decreases ps.len(),
{
    if ps.len() == 0 {
        Seq::empty()
    } else {
        model_items(ps.drop_last(), allowed) + provider_items(
            ps.last(),
            allowed,
            ps.last().models.len(),
        )
    }
}

/// The list of models of the OpenAI interface.
pub open spec fn models_list(
    ps: Seq<config::ProviderView>,
    allowed: Option<Seq<Seq<char>>>,
) -> json::JsonView {
    json::JsonView::Object(
        seq![
            ("object"@, json::JsonView::Text("list"@)),
            ("data"@, json::JsonView::Array(model_items(ps, allowed))),
        ],
    )
}

fn list_item(p: &ProviderConfig, m: &ModelConfig) -> (r: Json)
    ensures
        r@ == model_item(p@, m@),
{
    let ms: Vec<Member> = vec![
        named("id", text_value(m.model_name.as_str())),
        named("object", text_value("model")),
        named("created", json::number_value(0)),
        named("owned_by", text_value(p.name.as_str())),
    ];
    assert(json::members(ms@) =~= model_item(p@, m@)->Object_0);
    object(ms)
}

/// The list of models of the OpenAI interface: those that the caller is allowed, the providers in
/// order and the models of each in order.
pub fn build_models_response(cfg: &AppConfig, allowed_models: Option<&Vec<String>>) -> (r: Json)
    ensures
        r@ == models_list(cfg@.providers, opt_list(allowed_models)),
{
    let mut data: Vec<Json> = Vec::new();
    let ghost ps = cfg@.providers;
    let ghost allowed = opt_list(allowed_models);
    let n: usize = cfg.providers.len();
    assert(json::items(data@) =~= Seq::empty());
    assert(ps.take(0) =~= Seq::empty());
    for i in 0..n
        invariant
            n == cfg.providers@.len(),
            ps == config::providers_of(cfg.providers@),
            allowed == opt_list(allowed_models),
            json::items(data@) == model_items(ps.take(i as int), allowed),
    {
        let p = &cfg.providers[i];
        let ghost before = json::items(data@);
        let k: usize = p.models.len();
        assert(before + provider_items(p@, allowed, 0) =~= before);
        for j in 0..k
            invariant
                k == p.models@.len(),
                allowed == opt_list(allowed_models),
                json::items(data@) == before + provider_items(p@, allowed, j as nat),
        {
            let m = &p.models[j];
            assert(p@.models[j as int] == m@);
            if visible(allowed_models, m.model_name.as_str()) {
                let item = list_item(p, m);
                proof {
                    json::lemma_items_push(data@, item);
                    assert(before + provider_items(p@, allowed, (j + 1) as nat) =~= (before
                        + provider_items(p@, allowed, j as nat)).push(item@));
                }
                data.push(item);
            }
        }
        assert(ps.take(i + 1).drop_last() =~= ps.take(i as int));
        assert(ps.take(i + 1).last() == p@);
    }
    assert(ps.take(n as int) =~= ps);
    let ms: Vec<Member> = vec![named("object", text_value("list")), named("data", array(data))];
    assert(json::members(ms@) =~= models_list(ps, allowed)->Object_0);
    object(ms)
}

/// A model as the Gemini interface lists it.
pub open spec fn gemini_item(m: config::ModelView) -> json::JsonView {
    json::JsonView::Object(
        seq![
            ("name"@, json::JsonView::Text("models/"@ + m.model_name)),
            ("displayName"@, json::JsonView::Text(m.model_name)),
            (
                "supportedGenerationMethods"@,
                json::JsonView::Array(
                    seq![
                        json::JsonView::Text("generateContent"@),
                        json::JsonView::Text("streamGenerateContent"@),
                    ],
                ),
            ),
        ],
    )
}

/// The first `n` models of a provider that a caller sees, as the Gemini interface lists them.
pub open spec fn gemini_provider_items(
    p: config::ProviderView,
    allowed: Option<Seq<Seq<char>>>,
    n: nat,
) -> Seq<json::JsonView>
    decreases n,
{
    if n == 0 {
        Seq::empty()
    } else {
        let before = gemini_provider_items(p, allowed, (n - 1) as nat);
        let m = p.models[n - 1];
        if is_visible(allowed, m.model_name) {
            before.push(gemini_item(m))
        } else {
            before
        }
    }
}

/// The models of Gemini providers that a caller sees, as the Gemini interface lists them.
pub open spec fn gemini_items(
    ps: Seq<config::ProviderView>,
    allowed: Option<Seq<Seq<char>>>,
) -> Seq<json::JsonView>
    decreases ps.len(),
{
    if ps.len() == 0 {
        Seq::empty()
    } else if ps.last().provider_type == "gemini"@ {
        gemini_items(ps.drop_last(), allowed) + gemini_provider_items(
            ps.last(),
            allowed,
            ps.last().models.len(),
        )
    } else {
        gemini_items(ps.drop_last(), allowed)
    }
}

/// The list of models of the Gemini interface.
pub open spec fn gemini_list(
    ps: Seq<config::ProviderView>,
    allowed: Option<Seq<Seq<char>>>,
) -> json::JsonView {
    json::JsonView::Object(seq![("models"@, json::JsonView::Array(gemini_items(ps, allowed)))])
}

fn gemini_list_item(m: &ModelConfig) -> (r: Json)
    ensures
        r@ == gemini_item(m@),
{
    let methods: Vec<Json> = vec![
        text_value("generateContent"),
        text_value("streamGenerateContent"),
    ];
    assert(json::items(methods@) =~= seq![
        json::JsonView::Text("generateContent"@),
        json::JsonView::Text("streamGenerateContent"@),
    ]);
    let ms: Vec<Member> = vec![
        named("name", Json::Text(text::cat("models/", m.model_name.as_str()))),
        named("displayName", text_value(m.model_name.as_str())),
        named("supportedGenerationMethods", array(methods)),
    ];
    assert(json::members(ms@) =~= gemini_item(m@)->Object_0);
    object(ms)
}

/// The list of models of the Gemini interface: those of Gemini providers that the caller is
/// allowed.
pub fn build_gemini_models_response(
    cfg: &AppConfig,
    allowed_models: Option<&Vec<String>>,
) -> (r: Json)
    ensures
        r@ == gemini_list(cfg@.providers, opt_list(allowed_models)),
{
    let mut data: Vec<Json> = Vec::new();
    let ghost ps = cfg@.providers;
    let ghost allowed = opt_list(allowed_models);
    let n: usize = cfg.providers.len();
    assert(json::items(data@) =~= Seq::empty());
    assert(ps.take(0) =~= Seq::empty());
    for i in 0..n
        invariant
            n == cfg.providers@.len(),
            ps == config::providers_of(cfg.providers@),
            allowed == opt_list(allowed_models),
            json::items(data@) == gemini_items(ps.take(i as int), allowed),
    {
        let p = &cfg.providers[i];
        let ghost before = json::items(data@);
        assert(ps.take(i + 1).drop_last() =~= ps.take(i as int));
        assert(ps.take(i + 1).last() == p@);
        if text::same(p.provider_type.as_str(), "gemini") {
            let k: usize = p.models.len();
            assert(before + gemini_provider_items(p@, allowed, 0) =~= before);
            for j in 0..k
                invariant
                    k == p.models@.len(),
                    allowed == opt_list(allowed_models),
                    json::items(data@) == before + gemini_provider_items(p@, allowed, j as nat),
            {
                let m = &p.models[j];
                assert(p@.models[j as int] == m@);
                if visible(allowed_models, m.model_name.as_str()) {
                    let item = gemini_list_item(m);
                    proof {
                        json::lemma_items_push(data@, item);
                        assert(before + gemini_provider_items(p@, allowed, (j + 1) as nat) =~= (
                        before + gemini_provider_items(p@, allowed, j as nat)).push(item@));
                    }
                    data.push(item);
                }
            }
        }
    }
    assert(ps.take(n as int) =~= ps);
    let ms: Vec<Member> = vec![named("models", array(data))];
    assert(json::members(ms@) =~= gemini_list(ps, allowed)->Object_0);
    object(ms)
}

/// Whether `item` lists the model `j` of the provider `i`, and the caller sees that model.
pub open spec fn lists(
    ps: Seq<config::ProviderView>,
    allowed: Option<Seq<Seq<char>>>,
    item: json::JsonView,
    i: int,
    j: int,
) -> bool {
    &&& 0 <= i < ps.len()
    &&& 0 <= j < ps[i].models.len()
    &&& is_visible(allowed, ps[i].models[j].model_name)
    &&& item == model_item(ps[i], ps[i].models[j])
}

proof fn lemma_provider_lists(
    p: config::ProviderView,
    allowed: Option<Seq<Seq<char>>>,
    n: nat,
    j: int,
)
    requires
        0 <= j < n,
        is_visible(allowed, p.models[j].model_name),
    ensures
        provider_items(p, allowed, n).contains(model_item(p, p.models[j])),
    decreases n,
{
    let all = provider_items(p, allowed, n);
    if j == n - 1 {
        assert(all.last() == model_item(p, p.models[j]));
    } else {
        let before = provider_items(p, allowed, (n - 1) as nat);
        lemma_provider_lists(p, allowed, (n - 1) as nat, j);
        let k = choose|k: int| 0 <= k < before.len() && before[k] == model_item(p, p.models[j]);
        assert(all[k] == before[k]);
    }
}

proof fn lemma_provider_only(
    p: config::ProviderView,
    allowed: Option<Seq<Seq<char>>>,
    n: nat,
    k: int,
) -> (j: int)
    requires
        0 <= k < provider_items(p, allowed, n).len(),
    ensures
        0 <= j < n,
        is_visible(allowed, p.models[j].model_name),
        provider_items(p, allowed, n)[k] == model_item(p, p.models[j]),
    decreases n,
{
    let before = provider_items(p, allowed, (n - 1) as nat);
    if k < before.len() {
        lemma_provider_only(p, allowed, (n - 1) as nat, k)
    } else {
        n - 1
    }
}

/// A model that is configured and that the caller is allowed is in the caller's list.
pub proof fn law_allowed_models_are_listed(
    ps: Seq<config::ProviderView>,
    allowed: Option<Seq<Seq<char>>>,
    i: int,
    j: int,
)
    requires
        0 <= i < ps.len(),
        0 <= j < ps[i].models.len(),
        is_visible(allowed, ps[i].models[j].model_name),
    ensures
        model_items(ps, allowed).contains(model_item(ps[i], ps[i].models[j])),
    decreases ps.len(),
{
    let head = model_items(ps.drop_last(), allowed);
    let tail = provider_items(ps.last(), allowed, ps.last().models.len());
    let item = model_item(ps[i], ps[i].models[j]);
    if i == ps.len() - 1 {
        lemma_provider_lists(ps.last(), allowed, ps.last().models.len(), j);
        let k = choose|k: int| 0 <= k < tail.len() && tail[k] == item;
        assert((head + tail)[head.len() + k] == item);
    } else {
        law_allowed_models_are_listed(ps.drop_last(), allowed, i, j);
        let k = choose|k: int| 0 <= k < head.len() && head[k] == item;
        assert((head + tail)[k] == item);
    }
}

/// A caller's list holds nothing but configured models that the caller is allowed.
pub proof fn law_only_allowed_models_are_listed(
    ps: Seq<config::ProviderView>,
    allowed: Option<Seq<Seq<char>>>,
    k: int,
)
    requires
        0 <= k < model_items(ps, allowed).len(),
    ensures
        exists|i: int, j: int| #[trigger] lists(ps, allowed, model_items(ps, allowed)[k], i, j),
    decreases ps.len(),
{
    let head = model_items(ps.drop_last(), allowed);
    let item = model_items(ps, allowed)[k];
    if k < head.len() {
        law_only_allowed_models_are_listed(ps.drop_last(), allowed, k);
        let (i, j) = choose|i: int, j: int| #[trigger] lists(ps.drop_last(), allowed, head[k], i, j);
        assert(ps.drop_last()[i] == ps[i]);
        assert(lists(ps, allowed, item, i, j));
    } else {
        let j = lemma_provider_only(
            ps.last(),
            allowed,
            ps.last().models.len(),
            k - head.len(),
        );
        assert(lists(ps, allowed, item, ps.len() - 1, j));
    }
}

/// Each model in a caller's list has a provider.
pub proof fn law_listed_models_are_served(
    ps: Seq<config::ProviderView>,
    allowed: Option<Seq<Seq<char>>>,
    k: int,
)
    requires
        0 <= k < model_items(ps, allowed).len(),
    ensures
        exists|i: int, j: int| #[trigger]
            lists(ps, allowed, model_items(ps, allowed)[k], i, j) && resolved(
                ps,
                ps[i].models[j].model_name,
            ) is Some,
{
    let item = model_items(ps, allowed)[k];
    law_only_allowed_models_are_listed(ps, allowed, k);
    let (i, j) = choose|i: int, j: int| #[trigger] lists(ps, allowed, item, i, j);
    lemma_owner_exists(ps, ps[i].models[j].model_name, i, j);
    assert(lists(ps, allowed, item, i, j));
}

/// Whether `item` lists the model `j` of the provider `i` in the Gemini interface: the provider is
/// one of Gemini, and the caller sees that model.
pub open spec fn lists_gemini(
    ps: Seq<config::ProviderView>,
    allowed: Option<Seq<Seq<char>>>,
    item: json::JsonView,
    i: int,
    j: int,
) -> bool {
    &&& 0 <= i < ps.len()
    &&& ps[i].provider_type == "gemini"@
    &&& 0 <= j < ps[i].models.len()
    &&& is_visible(allowed, ps[i].models[j].model_name)
    &&& item == gemini_item(ps[i].models[j])
}

proof fn lemma_gemini_provider_lists(
    p: config::ProviderView,
    allowed: Option<Seq<Seq<char>>>,
    n: nat,
    j: int,
)
    requires
        0 <= j < n,
        is_visible(allowed, p.models[j].model_name),
    ensures
        gemini_provider_items(p, allowed, n).contains(gemini_item(p.models[j])),
    decreases n,
{
    let all = gemini_provider_items(p, allowed, n);
    if j == n - 1 {
        assert(all.last() == gemini_item(p.models[j]));
    } else {
        let before = gemini_provider_items(p, allowed, (n - 1) as nat);
        lemma_gemini_provider_lists(p, allowed, (n - 1) as nat, j);
        let k = choose|k: int| 0 <= k < before.len() && before[k] == gemini_item(p.models[j]);
        assert(all[k] == before[k]);
    }
}

proof fn lemma_gemini_provider_only(
    p: config::ProviderView,
    allowed: Option<Seq<Seq<char>>>,
    n: nat,
    k: int,
) -> (j: int)
    requires
        0 <= k < gemini_provider_items(p, allowed, n).len(),
    ensures
        0 <= j < n,
        is_visible(allowed, p.models[j].model_name),
        gemini_provider_items(p, allowed, n)[k] == gemini_item(p.models[j]),
    decreases n,
{
    let before = gemini_provider_items(p, allowed, (n - 1) as nat);
    if k < before.len() {
        lemma_gemini_provider_only(p, allowed, (n - 1) as nat, k)
    } else {
        n - 1
    }
}

/// A model of a Gemini provider that the caller is allowed is in the caller's list of the Gemini
/// interface.
pub proof fn law_allowed_gemini_models_are_listed(
    ps: Seq<config::ProviderView>,
    allowed: Option<Seq<Seq<char>>>,
    i: int,
    j: int,
)
    requires
        0 <= i < ps.len(),
        ps[i].provider_type == "gemini"@,
        0 <= j < ps[i].models.len(),
        is_visible(allowed, ps[i].models[j].model_name),
    ensures
        gemini_items(ps, allowed).contains(gemini_item(ps[i].models[j])),
    decreases ps.len(),
{
    let all = gemini_items(ps, allowed);
    let head = gemini_items(ps.drop_last(), allowed);
    let item = gemini_item(ps[i].models[j]);
    if i == ps.len() - 1 {
        let tail = gemini_provider_items(ps.last(), allowed, ps.last().models.len());
        lemma_gemini_provider_lists(ps.last(), allowed, ps.last().models.len(), j);
        let k = choose|k: int| 0 <= k < tail.len() && tail[k] == item;
        assert(all[head.len() + k] == item);
    } else {
        law_allowed_gemini_models_are_listed(ps.drop_last(), allowed, i, j);
        let k = choose|k: int| 0 <= k < head.len() && head[k] == item;
        assert(all[k] == item);
    }
}

/// A caller's list of the Gemini interface holds nothing but models of Gemini providers that the
/// caller is allowed.
pub proof fn law_only_allowed_gemini_models_are_listed(
    ps: Seq<config::ProviderView>,
    allowed: Option<Seq<Seq<char>>>,
    k: int,
)
    requires
        0 <= k < gemini_items(ps, allowed).len(),
    ensures
        exists|i: int, j: int| #[trigger]
            lists_gemini(ps, allowed, gemini_items(ps, allowed)[k], i, j),
    decreases ps.len(),
{
    let head = gemini_items(ps.drop_last(), allowed);
    let item = gemini_items(ps, allowed)[k];
    if k < head.len() {
        law_only_allowed_gemini_models_are_listed(ps.drop_last(), allowed, k);
        let (i, j) = choose|i: int, j: int| #[trigger]
            lists_gemini(ps.drop_last(), allowed, head[k], i, j);
        assert(ps.drop_last()[i] == ps[i]);
        assert(lists_gemini(ps, allowed, item, i, j));
    } else {
        let j = lemma_gemini_provider_only(
            ps.last(),
            allowed,
            ps.last().models.len(),
            k - head.len(),
        );
        assert(lists_gemini(ps, allowed, item, ps.len() - 1, j));
    }
}

// ---------------------------------------------------------------------------
// The body that is sent on
// ---------------------------------------------------------------------------

/// A body with its model replaced, where it names one.
pub open spec fn with_model(body: json::JsonView, model: Seq<char>) -> json::JsonView {
    match body {
        json::JsonView::Object(ms) => if json::find_member(ms, "model"@) is Some {
            json::JsonView::Object(json::put_member(ms, "model"@, json::JsonView::Text(model)))
        } else {
            body
        },
        _ => body,
    }
}

/// The body with its model replaced by the provider's own name for it, where it names one.
pub fn rewrite_json_model(body: Json, upstream_model: &str) -> (r: Json)
    ensures
        r@ == with_model(body@, upstream_model@),
{
    let mut out = body;
    if out.get("model").is_some() {
        out.put("model", text_value(upstream_model));
    }
    out
}

/// A rewritten body asks for the provider's own model, and says everything else as before.
pub proof fn law_rewritten_body(body: json::JsonView, model: Seq<char>, name: Seq<char>)
    ensures
        with_model(body, model).at(name) == (if name == "model"@ && body.at(name) is Some {
            Some(json::JsonView::Text(model))
        } else {
            body.at(name)
        }),
{
    if let json::JsonView::Object(ms) = body {
        json::lemma_put_find(ms, "model"@, json::JsonView::Text(model), name);
    }
}

// ---------------------------------------------------------------------------
// What is promised of the way to a provider
// ---------------------------------------------------------------------------

/// The provider of an alias serves it with its own address, key and header, and under its own name
/// for the model; where it has no such name, under the alias.
pub proof fn law_provider_serves_with_its_own(
    ps: Seq<config::ProviderView>,
    alias: Seq<char>,
    i: int,
    j: int,
)
    requires
        0 <= i < ps.len(),
        forall|k: int| 0 <= k < i ==> !has_alias(#[trigger] ps[k], alias),
        0 <= j < ps[i].models.len(),
        ps[i].models[j].model_name == alias,
        forall|k: int| 0 <= k < j ==> (#[trigger] ps[i].models[k]).model_name != alias,
    ensures
        resolved(ps, alias) matches Some(r) && {
            &&& r.name == ps[i].name
            &&& r.provider_type == ps[i].provider_type
            &&& r.api_key == ps[i].api_key
            &&& r.user_agent == ps[i].user_agent
            &&& ps[i].base_url is Some ==> r.base_url == ps[i].base_url->0
            &&& ps[i].base_url is None ==> r.base_url.len() == 0
            &&& ps[i].models[j].model_id.len() > 0 ==> r.model_id == ps[i].models[j].model_id
            &&& ps[i].models[j].model_id.len() == 0 ==> r.model_id == alias
        },
{
    law_first_alias_wins(ps, alias, i, j);
}

/// Whether a provider is MiniMax: its address or its name says so, in letters of either case.
pub open spec fn says_minimax(p: config::ProviderView) -> bool {
    ||| p.base_url matches Some(u) && exists|i: int| #[trigger]
        text::occurs_at(text::lowered(u), "minimaxi.com"@, i)
    ||| exists|i: int| #[trigger] text::occurs_at(text::lowered(p.name), "minimax"@, i)
}

proof fn lemma_says_minimax(p: config::ProviderView)
    ensures
        is_minimax(p) == says_minimax(p),
{
    reveal_strlit("minimaxi.com");
    if p.base_url is None {
        let none = text::lowered(text::or_empty(p.base_url));
        assert(none.len() == 0);
        assert(!text::includes(none, "minimaxi.com"@));
    }
}

proof fn lemma_first_minimax(ps: Seq<config::ProviderView>, i: int)
    requires
        0 <= i < ps.len(),
        is_minimax(ps[i]),
        forall|k: int| 0 <= k < i ==> !is_minimax(#[trigger] ps[k]),
    ensures
        first_minimax(ps) == Some(ps[i]),
    decreases ps.len(),
{
    if i > 0 {
        assert(!is_minimax(ps[0]));
        let rest = ps.skip(1);
        assert forall|k: int| 0 <= k < i - 1 implies !is_minimax(#[trigger] rest[k]) by {
            assert(rest[k] == ps[k + 1]);
        }
        lemma_first_minimax(rest, i - 1);
    }
}

proof fn lemma_no_owner(ps: Seq<config::ProviderView>, alias: Seq<char>)
    requires
        forall|k: int| 0 <= k < ps.len() ==> !has_alias(#[trigger] ps[k], alias),
    ensures
        first_owner(ps, alias) is None,
    decreases ps.len(),
{
    if ps.len() > 0 {
        assert(!has_alias(ps[0], alias));
        lemma_no_model(ps[0].models, alias);
        let rest = ps.skip(1);
        assert forall|k: int| 0 <= k < rest.len() implies !has_alias(#[trigger] rest[k], alias) by {
            assert(rest[k] == ps[k + 1]);
        }
        lemma_no_owner(rest, alias);
    }
}

/// A model that MiniMax serves under its own name goes to the first provider that is MiniMax, under
/// that name, where no provider has it as an alias.
pub proof fn law_minimax_serves_its_own_models(
    ps: Seq<config::ProviderView>,
    model: Seq<char>,
    i: int,
)
    requires
        is_minimax_native(model),
        forall|k: int| 0 <= k < ps.len() ==> !has_alias(#[trigger] ps[k], model),
        0 <= i < ps.len(),
        says_minimax(ps[i]),
        forall|k: int| 0 <= k < i ==> !says_minimax(#[trigger] ps[k]),
    ensures
        resolved(ps, model) matches Some(r) && {
            &&& r.name == ps[i].name
            &&& r.provider_type == ps[i].provider_type
            &&& r.api_key == ps[i].api_key
            &&& r.user_agent == ps[i].user_agent
            &&& ps[i].base_url is Some ==> r.base_url == ps[i].base_url->0
            &&& r.model_id == model
        },
{
    lemma_no_owner(ps, model);
    lemma_says_minimax(ps[i]);
    assert forall|k: int| 0 <= k < i implies !is_minimax(#[trigger] ps[k]) by {
        lemma_says_minimax(ps[k]);
    }
    lemma_first_minimax(ps, i);
}

/// The names of the models that MiniMax serves: of language, speech, video, pictures and music.
pub open spec fn minimax_names() -> Seq<Seq<char>> {
    seq![
        "MiniMax-M2.7"@,
        "MiniMax-M2.7-highspeed"@,
        "MiniMax-M2.5"@,
        "MiniMax-M2.5-highspeed"@,
        "MiniMax-M2.1"@,
        "MiniMax-M2.1-highspeed"@,
        "MiniMax-M2"@,
        "M2-her"@,
        "speech-2.8-hd"@,
        "speech-2.8-turbo"@,
        "speech-2.6-hd"@,
        "speech-2.6-turbo"@,
        "speech-02-hd"@,
        "speech-02-turbo"@,
        "speech-01-hd"@,
        "speech-01-turbo"@,
        "MiniMax-Hailuo-2.3"@,
        "MiniMax-Hailuo-2.3-Fast"@,
        "MiniMax-Hailuo-02"@,
        "T2V-01"@,
        "I2V-01"@,
        "I2V-01-live"@,
        "I2V-01-Director"@,
        "T2V-01-Director"@,
        "I2V-01-Subject"@,
        "S2V-01"@,
        "image-01"@,
        "image-01-live"@,
        "music-2.6"@,
        "music-cover"@,
        "music-2.6-free"@,
        "music-cover-free"@,
    ]
}

/// The models that MiniMax serves under their own names are those of its list, and no others.
pub proof fn law_minimax_models_are_those_of_its_list(model: Seq<char>)
    ensures
        is_minimax_native(model) == minimax_names().contains(model),
{
    let all = minimax_names();
    assert forall|k: int| 0 <= k < all.len() implies is_minimax_native(#[trigger] all[k]) by {}
    if is_minimax_native(model) {
        assert(all[0] == "MiniMax-M2.7"@ && all[1] == "MiniMax-M2.7-highspeed"@ && all[2]
            == "MiniMax-M2.5"@ && all[3] == "MiniMax-M2.5-highspeed"@ && all[4] == "MiniMax-M2.1"@
            && all[5] == "MiniMax-M2.1-highspeed"@ && all[6] == "MiniMax-M2"@ && all[7]
            == "M2-her"@);
        assert(all[8] == "speech-2.8-hd"@ && all[9] == "speech-2.8-turbo"@ && all[10]
            == "speech-2.6-hd"@ && all[11] == "speech-2.6-turbo"@ && all[12] == "speech-02-hd"@
            && all[13] == "speech-02-turbo"@ && all[14] == "speech-01-hd"@ && all[15]
            == "speech-01-turbo"@);
        assert(all[16] == "MiniMax-Hailuo-2.3"@ && all[17] == "MiniMax-Hailuo-2.3-Fast"@ && all[18]
            == "MiniMax-Hailuo-02"@ && all[19] == "T2V-01"@ && all[20] == "I2V-01"@ && all[21]
            == "I2V-01-live"@ && all[22] == "I2V-01-Director"@ && all[23] == "T2V-01-Director"@);
        assert(all[24] == "I2V-01-Subject"@ && all[25] == "S2V-01"@ && all[26] == "image-01"@
            && all[27] == "image-01-live"@ && all[28] == "music-2.6"@ && all[29] == "music-cover"@
            && all[30] == "music-2.6-free"@ && all[31] == "music-cover-free"@);
    }
}

/// A request asks for the model that its body names, whatever its path is; a name that is blank, or
/// no text, is none.
pub proof fn law_body_names_the_model(body: json::JsonView, path: Seq<char>, model: Seq<char>)
    requires
        body.at("model"@) == Some(json::JsonView::Text(model)),
        !text::blank(model),
    ensures
        requested_model(body, path) == Some(model),
{
}

proof fn lemma_path_pieces(parts: Seq<Seq<char>>)
    requires
        parts.len() >= 2,
        forall|i: int| 0 <= i < parts.len() ==> is_piece(#[trigger] parts[i]),
    ensures
        path_pieces(seq!['/'] + text::joined(parts, seq!['/'])) == parts,
{
    let whole = text::joined(parts, seq!['/']);
    let path = seq!['/'] + whole;
    let last = parts.last();
    assert(is_piece(parts[parts.len() - 1]) && is_piece(parts[0]));
    assert forall|i: int| 0 <= i < parts.len() implies !(#[trigger] parts[i]).contains('?')
        && !parts[i].contains('/') by {
        assert(is_piece(parts[i]));
    }
    text::lemma_joined_free(parts, seq!['/'], '?');
    assert(!path.contains('?')) by {
        if path.contains('?') {
            let i = choose|i: int| 0 <= i < path.len() && path[i] == '?';
            assert(i > 0);
            assert(whole[i - 1] == '?');
        }
    }
    text::lemma_before_same(path, '?');
    assert(whole == text::joined(parts.drop_last(), seq!['/']) + seq!['/'] + last);
    assert(last.contains(last.last()));
    assert(path.last() == last.last());
    assert(text::drop_trailing(path, '/') == path);
    text::lemma_joined_begins(parts, seq!['/']);
    assert(parts[0].contains(parts[0][0]));
    assert(path.skip(1) =~= whole);
    assert(whole[0] != '/');
    reveal_with_fuel(text::drop_leading, 2);
    assert(text::drop_leading(path, '/') == whole);
    text::lemma_joined_split(parts, '/');
}

/// Whether a text can stand between the slashes of a path.
pub open spec fn is_piece(s: Seq<char>) -> bool {
    s.len() > 0 && !s.contains('/') && !s.contains('?')
}

/// A request whose body names no model asks for the one in its path: after the list of models, in
/// the OpenAI interface with its version or without, and in the Gemini interface up to the action.
pub proof fn law_path_names_the_model(body: json::JsonView, model: Seq<char>, action: Seq<char>)
    requires
        forall|m: Seq<char>|
            #![auto]
            body.at("model"@) == Some(json::JsonView::Text(m)) ==> text::blank(m),
        is_piece(model),
        is_piece(action),
        !action.contains(':'),
    ensures
        requested_model(body, "/v1/models/"@ + model) == Some(model),
        requested_model(body, "/models/"@ + model) == Some(model),
        requested_model(body, "/v1beta/models/"@ + model + ":"@ + action) == Some(model),
        requested_model(body, "/v1/models"@) is None,
{
    reveal_strlit("/v1/models/");
    reveal_strlit("/models/");
    reveal_strlit("/v1beta/models/");
    reveal_strlit("/v1/models");
    reveal_strlit("models");
    reveal_strlit("v1");
    reveal_strlit("v1beta");
    reveal_strlit(":");
    reveal_with_fuel(text::joined, 3);
    let slash = seq!['/'];
    assert(is_piece("models"@) && is_piece("v1"@) && is_piece("v1beta"@));
    if let Some(m) = json::text_of(body.at("model"@)) {
        assert(body.at("model"@) == Some(json::JsonView::Text(m)));
    }
    let a = seq!["v1"@, "models"@, model];
    assert(a.drop_last() =~= seq!["v1"@, "models"@]);
    assert(a.drop_last().drop_last() =~= seq!["v1"@]);
    assert("/v1/models/"@ + model =~= slash + text::joined(a, slash));
    lemma_path_pieces(a);
    let b = seq!["models"@, model];
    assert(b.drop_last() =~= seq!["models"@]);
    assert("/models/"@ + model =~= slash + text::joined(b, slash));
    lemma_path_pieces(b);
    let acted = model + ":"@ + action;
    assert(is_piece(acted)) by {
        if acted.contains('/') || acted.contains('?') {
            let i = choose|i: int| 0 <= i < acted.len() && (acted[i] == '/' || acted[i] == '?');
            if i < model.len() {
                assert(model[i] == acted[i]);
            } else if i > model.len() {
                assert(action[i - model.len() - 1] == acted[i]);
            }
        }
    }
    let c = seq!["v1beta"@, "models"@, acted];
    assert(c.drop_last() =~= seq!["v1beta"@, "models"@]);
    assert(c.drop_last().drop_last() =~= seq!["v1beta"@]);
    assert("/v1beta/models/"@ + model + ":"@ + action =~= slash + text::joined(c, slash));
    lemma_path_pieces(c);
    text::lemma_before_last_at(model, ':', action);
    assert(acted =~= model + seq![':'] + action);
    let d = seq!["v1"@, "models"@];
    assert(d.drop_last() =~= seq!["v1"@]);
    assert("/v1/models"@ =~= slash + text::joined(d, slash));
    lemma_path_pieces(d);
    assert("v1"@.len() == 2 && "models"@.len() == 6 && "v1beta"@.len() == 6);
    assert("v1beta"@[0] == 'v' && "models"@[0] == 'm');
}

/// The list of models, and each model below it, is asked for under these paths; anything else is
/// not, and neither is an action on a model of the Gemini interface.
pub proof fn law_models_are_asked_for_by_their_paths(rest: Seq<char>, query: Seq<char>)
    requires
        !rest.contains('?'),
    ensures
        is_models_path("/v1/models"@),
        is_models_path("/models"@),
        is_models_path("/v1/models/"@ + rest),
        is_models_path("/models/"@ + rest),
        !is_models_path("/v1/chat/"@ + rest),
        is_gemini_models_path("/v1beta/models"@),
        is_gemini_models_path("/v1beta/models/"@ + rest) == !rest.contains(':'),
        is_models_path("/v1/models?"@ + query),
        is_gemini_models_path("/v1beta/models?"@ + query),
{
    reveal_strlit("/v1/models");
    reveal_strlit("/models");
    reveal_strlit("/v1/models/");
    reveal_strlit("/models/");
    reveal_strlit("/v1/chat/");
    reveal_strlit("/v1beta/models");
    reveal_strlit("/v1beta/models/");
    reveal_strlit("/v1/models?");
    reveal_strlit("/v1beta/models?");
    text::lemma_before_same("/v1/models"@, '?');
    text::lemma_before_same("/models"@, '?');
    text::lemma_before_same("/v1beta/models"@, '?');
    lemma_plain_sum("/v1/models/"@, rest);
    lemma_plain_sum("/models/"@, rest);
    lemma_plain_sum("/v1/chat/"@, rest);
    lemma_plain_sum("/v1beta/models/"@, rest);
    assert(("/v1/models/"@ + rest).take(11) =~= "/v1/models/"@);
    assert(("/models/"@ + rest).take(8) =~= "/models/"@);
    assert(("/v1beta/models/"@ + rest).take(15) =~= "/v1beta/models/"@);
    let chat = "/v1/chat/"@ + rest;
    assert(chat[4] == 'c' && chat[1] == 'v');
    assert("/v1/models"@[4] == 'm' && "/v1/models/"@[4] == 'm' && "/models"@[1] == 'm'
        && "/models/"@[1] == 'm');
    if text::begins(chat, "/v1/models/"@) {
        assert(chat.take(11)[4] == 'm');
    }
    if text::begins(chat, "/models/"@) {
        assert(chat.take(8)[1] == 'm');
    }
    let below = "/v1beta/models/"@ + rest;
    if rest.contains(':') {
        let i = choose|i: int| 0 <= i < rest.len() && rest[i] == ':';
        assert(below[i + 15] == ':');
        assert("/v1beta/models"@.len() == 14 && "/models"@.len() == 7);
        assert(below.len() > 14);
    } else if below.contains(':') {
        let i = choose|i: int| 0 <= i < below.len() && below[i] == ':';
        assert(i >= 15);
        assert(rest[i - 15] == ':');
    }
    text::lemma_before_at("/v1/models"@, '?', query);
    assert("/v1/models?"@ + query =~= "/v1/models"@ + seq!['?'] + query);
    text::lemma_before_at("/v1beta/models"@, '?', query);
    assert("/v1beta/models?"@ + query =~= "/v1beta/models"@ + seq!['?'] + query);
}

proof fn lemma_plain_sum(a: Seq<char>, b: Seq<char>)
    requires
        !a.contains('?'),
        !b.contains('?'),
    ensures
        text::before(a + b, '?') == a + b,
{
    let s = a + b;
    if s.contains('?') {
        let i = choose|i: int| 0 <= i < s.len() && s[i] == '?';
        if i < a.len() {
            assert(a[i] == '?');
        } else {
            assert(b[i - a.len()] == '?');
        }
    }
    text::lemma_before_same(s, '?');
}

/// A model is listed under its alias, as a model, with the name of its provider as its owner; in the
/// Gemini interface under its alias with the word for models in front, and with what can be done
/// with it.
pub proof fn law_listed_model_says_what_it_is(p: config::ProviderView, m: config::ModelView)
    ensures
        model_item(p, m).at("id"@) == Some(json::JsonView::Text(m.model_name)),
        model_item(p, m).at("object"@) == Some(json::JsonView::Text("model"@)),
        model_item(p, m).at("created"@) == Some(json::JsonView::Number(json::Number::Unsigned(0))),
        model_item(p, m).at("owned_by"@) == Some(json::JsonView::Text(p.name)),
        gemini_item(m).at("name"@) == Some(json::JsonView::Text("models/"@ + m.model_name)),
        gemini_item(m).at("displayName"@) == Some(json::JsonView::Text(m.model_name)),
        gemini_item(m).at("supportedGenerationMethods"@) == Some(
            json::JsonView::Array(
                seq![
                    json::JsonView::Text("generateContent"@),
                    json::JsonView::Text("streamGenerateContent"@),
                ],
            ),
        ),
{
    reveal_with_fuel(json::find_member, 5);
    reveal_strlit("id");
    reveal_strlit("object");
    reveal_strlit("created");
    reveal_strlit("owned_by");
    reveal_strlit("name");
    reveal_strlit("displayName");
    reveal_strlit("supportedGenerationMethods");
    assert("id"@.len() == 2 && "object"@.len() == 6 && "created"@.len() == 7 && "owned_by"@.len()
        == 8);
    assert("name"@.len() == 4 && "displayName"@.len() == 11 && "supportedGenerationMethods"@.len()
        == 26);
}

proof fn lemma_all_provider_items(p: config::ProviderView, n: nat)
    requires
        n <= p.models.len(),
    ensures
        provider_items(p, None, n).len() == n,
        forall|j: int|
            0 <= j < n ==> #[trigger] provider_items(p, None, n)[j] == model_item(p, p.models[j]),
    decreases n,
{
    if n > 0 {
        lemma_all_provider_items(p, (n - 1) as nat);
        let before = provider_items(p, None, (n - 1) as nat);
        assert forall|j: int| 0 <= j < n implies #[trigger] provider_items(p, None, n)[j]
            == model_item(p, p.models[j]) by {
            if j < n - 1 {
                assert(provider_items(p, None, n)[j] == before[j]);
            }
        }
    }
}

proof fn lemma_models_before_front(ps: Seq<config::ProviderView>, n: nat)
    requires
        n < ps.len(),
    ensures
        config::models_before(ps.drop_last(), n) == config::models_before(ps, n),
    decreases n,
{
    if n > 0 {
        lemma_models_before_front(ps, (n - 1) as nat);
        assert(ps.drop_last()[n - 1] == ps[n - 1]);
    }
}

proof fn lemma_all_items(ps: Seq<config::ProviderView>)
    ensures
        model_items(ps, None).len() == config::models_before(ps, ps.len()),
        forall|i: int, j: int|
            0 <= i < ps.len() && 0 <= j < ps[i].models.len() ==> config::models_before(ps, i as nat)
                + j < model_items(ps, None).len() && model_items(
                ps,
                None,
            )[config::models_before(ps, i as nat) + j] == model_item(
                ps[i],
                #[trigger] ps[i].models[j],
            ),
    decreases ps.len(),
{
    if ps.len() > 0 {
        let init = ps.drop_last();
        lemma_all_items(init);
        lemma_models_before_front(ps, init.len());
        lemma_all_provider_items(ps.last(), ps.last().models.len());
        assert forall|i: int, j: int|
            0 <= i < ps.len() && 0 <= j < ps[i].models.len() implies config::models_before(
            ps,
            i as nat,
        ) + j < model_items(ps, None).len() && model_items(
            ps,
            None,
        )[config::models_before(ps, i as nat) + j] == model_item(
            ps[i],
            #[trigger] ps[i].models[j],
        ) by {
            if i < init.len() {
                lemma_models_before_front(ps, i as nat);
                assert(init[i].models[j] == ps[i].models[j]);
            }
        }
    }
}

/// Whoever is allowed everything sees all models, the providers in order and the models of each in
/// order; the list says that it is one.
pub proof fn law_all_models_are_listed_in_order(ps: Seq<config::ProviderView>, i: int, j: int)
    requires
        0 <= i < ps.len(),
        0 <= j < ps[i].models.len(),
    ensures
        models_list(ps, None).at("object"@) == Some(json::JsonView::Text("list"@)),
        match models_list(ps, None).at("data"@) {
            Some(json::JsonView::Array(list)) => {
                &&& list.len() == config::models_before(ps, ps.len())
                &&& list[config::models_before(ps, i as nat) + j].at("id"@) == Some(
                    json::JsonView::Text(ps[i].models[j].model_name),
                )
            },
            _ => false,
        },
        match gemini_list(ps, None).at("models"@) {
            Some(json::JsonView::Array(list)) => ps[i].provider_type == "gemini"@ ==> list.contains(
                gemini_item(ps[i].models[j]),
            ),
            _ => false,
        },
{
    reveal_with_fuel(json::find_member, 3);
    reveal_strlit("object");
    reveal_strlit("data");
    assert("object"@.len() == 6 && "data"@.len() == 4);
    lemma_all_items(ps);
    law_listed_model_says_what_it_is(ps[i], ps[i].models[j]);
    if ps[i].provider_type == "gemini"@ {
        law_allowed_gemini_models_are_listed(ps, None, i, j);
    }
}

/// A caller with a list of allowed models sees those in it, and one without sees all.
pub proof fn law_callers_see_what_they_are_allowed(list: Seq<Seq<char>>, alias: Seq<char>, i: int)
    ensures
        is_visible(None, alias),
        0 <= i < list.len() ==> is_visible(Some(list), list[i]),
        is_visible(Some(list), alias) ==> exists|k: int|
            0 <= k < list.len() && #[trigger] list[k] == alias,
{
    if is_visible(Some(list), alias) {
        assert(list.contains(alias));
    }
}

/// Nothing else asks for the models: in either interface a path that does begins as they do, and the
/// word for models stands there as a whole.
pub proof fn law_other_paths_do_not_ask_for_models(path: Seq<char>, more: Seq<char>)
    requires
        !path.contains('?'),
        more.len() > 0,
        !more.contains('?'),
        more[0] != '/',
    ensures
        !text::begins(path, "/v1/models"@) && !text::begins(path, "/models"@) ==> !is_models_path(
            path,
        ),
        !text::begins(path, "/v1beta/models"@) && !text::begins(path, "/models"@)
            ==> !is_gemini_models_path(path),
        !is_models_path("/v1/models"@ + more),
        !is_gemini_models_path("/v1beta/models"@ + more),
{
    reveal_strlit("/v1/models");
    reveal_strlit("/models");
    reveal_strlit("/v1/models/");
    reveal_strlit("/models/");
    reveal_strlit("/v1beta/models");
    reveal_strlit("/v1beta/models/");
    text::lemma_before_same(path, '?');
    if text::begins(path, "/v1/models/"@) {
        assert(path.take(10) =~= path.take(11).take(10));
        assert("/v1/models/"@.take(10) =~= "/v1/models"@);
    }
    if text::begins(path, "/models/"@) {
        assert(path.take(7) =~= path.take(8).take(7));
        assert("/models/"@.take(7) =~= "/models"@);
    }
    if text::begins(path, "/v1beta/models/"@) {
        assert(path.take(14) =~= path.take(15).take(14));
        assert("/v1beta/models/"@.take(14) =~= "/v1beta/models"@);
    }
    if path == "/v1/models"@ {
        assert(path.take(10) =~= path);
    }
    if path == "/models"@ {
        assert(path.take(7) =~= path);
    }
    if path == "/v1beta/models"@ {
        assert(path.take(14) =~= path);
    }
    let a = "/v1/models"@ + more;
    lemma_plain_sum("/v1/models"@, more);
    assert(a[10] == more[0] && a[1] == 'v');
    if text::begins(a, "/v1/models/"@) {
        assert(a.take(11)[10] == '/');
    }
    if text::begins(a, "/models/"@) {
        assert(a.take(8)[1] == 'm');
    }
    assert(a != "/models"@) by {
        assert("/models"@[1] == 'm');
    }
    let b = "/v1beta/models"@ + more;
    lemma_plain_sum("/v1beta/models"@, more);
    assert(b[14] == more[0] && b[1] == 'v');
    if text::begins(b, "/v1beta/models/"@) {
        assert(b.take(15)[14] == '/');
    }
    if text::begins(b, "/models/"@) {
        assert(b.take(8)[1] == 'm');
    }
}

/// No other path names a model: a path of two pieces does only behind the word for models, one of
/// three only behind a version and that word, and any other not at all.
pub proof fn law_other_paths_name_no_model(body: json::JsonView, parts: Seq<Seq<char>>)
    requires
        body.at("model"@) is None,
        parts.len() >= 2,
        forall|i: int| 0 <= i < parts.len() ==> is_piece(#[trigger] parts[i]),
        parts.len() == 2 ==> parts[0] != "models"@,
        parts.len() == 3 ==> parts[1] != "models"@ || (parts[0] != "v1"@ && parts[0] != "v1beta"@),
    ensures
        requested_model(body, seq!['/'] + text::joined(parts, seq!['/'])) is None,
{
    lemma_path_pieces(parts);
}

/// A query behind a path changes nothing of what it asks for.
pub proof fn law_query_does_not_name_the_model(
    body: json::JsonView,
    path: Seq<char>,
    query: Seq<char>,
)
    requires
        !path.contains('?'),
    ensures
        requested_model(body, path + seq!['?'] + query) == requested_model(body, path),
        is_models_path(path + seq!['?'] + query) == is_models_path(path),
        is_gemini_models_path(path + seq!['?'] + query) == is_gemini_models_path(path),
{
    text::lemma_before_same(path, '?');
    text::lemma_before_at(path, '?', query);
}

/// A model that MiniMax serves under its own name is not served where no provider is MiniMax and none
/// has it as an alias.
pub proof fn law_minimax_models_need_minimax(ps: Seq<config::ProviderView>, model: Seq<char>)
    requires
        forall|k: int| 0 <= k < ps.len() ==> !has_alias(#[trigger] ps[k], model),
        forall|k: int| 0 <= k < ps.len() ==> !says_minimax(#[trigger] ps[k]),
    ensures
        resolved(ps, model) is None,
{
    lemma_no_owner(ps, model);
    lemma_no_minimax(ps);
}

proof fn lemma_no_minimax(ps: Seq<config::ProviderView>)
    requires
        forall|k: int| 0 <= k < ps.len() ==> !says_minimax(#[trigger] ps[k]),
    ensures
        first_minimax(ps) is None,
    decreases ps.len(),
{
    if ps.len() > 0 {
        lemma_says_minimax(ps[0]);
        let rest = ps.skip(1);
        assert forall|k: int| 0 <= k < rest.len() implies !says_minimax(#[trigger] rest[k]) by {
            assert(rest[k] == ps[k + 1]);
        }
        lemma_no_minimax(rest);
    }
}

} // verus!
