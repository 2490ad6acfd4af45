//! The configuration as a JSON value: as it is stored, exported and shown.
use vstd::prelude::*;

use crate::config;
use crate::config::{AdminConfig, AppConfig, ModelConfig, ProviderConfig, VirtualKeyConfig};
use crate::json;
use crate::json::{array, named, object, text_value, Json, Member, Number};
use crate::keys;
use crate::secrets;
use crate::text;

verus! {

// ---------------------------------------------------------------------------
// The stored form
// ---------------------------------------------------------------------------

/// An optional text as a value.
pub open spec fn opt_value(o: Option<Seq<char>>) -> json::JsonView {
    match o {
        Some(s) => json::JsonView::Text(s),
        None => json::JsonView::Null,
    }
}

/// An account as a value.
pub open spec fn admin_form(a: config::AdminView) -> json::JsonView {
    json::JsonView::Object(
        seq![
            ("username"@, json::JsonView::Text(a.username)),
            ("password_hash"@, json::JsonView::Text(a.password_hash)),
        ],
    )
}

/// A model as a value.
pub open spec fn model_form(m: config::ModelView) -> json::JsonView {
    json::JsonView::Object(
        seq![
            ("model_name"@, json::JsonView::Text(m.model_name)),
            ("model_id"@, json::JsonView::Text(m.model_id)),
        ],
    )
}

/// A provider as a value.
pub open spec fn provider_form(p: config::ProviderView) -> json::JsonView {
    json::JsonView::Object(
        seq![
            ("id"@, json::JsonView::Text(p.id)),
            ("name"@, json::JsonView::Text(p.name)),
            ("type"@, json::JsonView::Text(p.provider_type)),
            ("base_url"@, opt_value(p.base_url)),
            ("api_key"@, json::JsonView::Text(p.api_key)),
            ("user_agent"@, opt_value(p.user_agent)),
            (
                "models"@,
                json::JsonView::Array(Seq::new(p.models.len(), |i: int| model_form(p.models[i]))),
            ),
        ],
    )
}

/// An optional list of texts as a value.
pub open spec fn list_value(o: Option<Seq<Seq<char>>>) -> json::JsonView {
    match o {
        Some(l) => json::JsonView::Array(Seq::new(l.len(), |i: int| json::JsonView::Text(l[i]))),
        None => json::JsonView::Null,
    }
}

/// A key as a value.
pub open spec fn key_form(k: config::VirtualKeyView) -> json::JsonView {
    json::JsonView::Object(
        seq![
            ("name"@, json::JsonView::Text(k.name)),
            ("key"@, json::JsonView::Text(k.key)),
            (
                "enabled"@,
                match k.enabled {
                    Some(b) => json::JsonView::Bool(b),
                    None => json::JsonView::Null,
                },
            ),
            ("allowed_models"@, list_value(k.allowed_models)),
            (
                "budget"@,
                match k.budget {
                    Some(n) => json::JsonView::Number(n),
                    None => json::JsonView::Null,
                },
            ),
            (
                "rpm"@,
                match k.rpm {
                    Some(n) => json::JsonView::Number(Number::Unsigned(n as u64)),
                    None => json::JsonView::Null,
                },
            ),
            ("expires_at"@, opt_value(k.expires_at)),
        ],
    )
}

/// Providers as a value.
pub open spec fn providers_form(ps: Seq<config::ProviderView>) -> json::JsonView {
    json::JsonView::Array(Seq::new(ps.len(), |i: int| provider_form(ps[i])))
}

/// Keys as a value.
pub open spec fn keys_form(ks: Seq<config::VirtualKeyView>) -> json::JsonView {
    json::JsonView::Array(Seq::new(ks.len(), |i: int| key_form(ks[i])))
}

/// Where conversations are kept, as a value.
pub open spec fn storage_form(s: config::StorageView) -> json::JsonView {
    json::JsonView::Object(
        seq![
            ("enabled"@, json::JsonView::Bool(s.enabled)),
            ("directory"@, json::JsonView::Text(s.directory)),
        ],
    )
}

/// A configuration as a value.
pub open spec fn config_form(c: config::ConfigView) -> json::JsonView {
    json::JsonView::Object(
        seq![
            ("admin"@, admin_form(c.admin)),
            ("providers"@, providers_form(c.providers)),
            ("pricing"@, c.pricing),
            ("limits"@, c.limits),
            ("virtual_keys"@, keys_form(c.virtual_keys)),
            ("router_settings"@, c.router_settings),
            ("litellm_settings"@, c.litellm_settings),
            (
                "general_settings"@,
                json::JsonView::Object(seq![("master_key"@, opt_value(c.master_key))]),
            ),
            ("conversation_storage"@, storage_form(c.conversation_storage)),
        ],
    )
}

fn opt_json(o: &Option<String>) -> (r: Json)
    ensures
        r@ == opt_value(text::opt_text(*o)),
{
    match o {
        Some(s) => text_value(s.as_str()),
        None => Json::Null,
    }
}

/// The account as a value.
pub fn admin_value(a: &AdminConfig) -> (r: Json)
    ensures
        r@ == admin_form(a@),
{
    let ms: Vec<Member> = vec![
        named("username", text_value(a.username.as_str())),
        named("password_hash", text_value(a.password_hash.as_str())),
    ];
    assert(json::members(ms@) =~= admin_form(a@)->Object_0);
    object(ms)
}

fn model_value(m: &ModelConfig) -> (r: Json)
    ensures
        r@ == model_form(m@),
{
    let ms: Vec<Member> = vec![
        named("model_name", text_value(m.model_name.as_str())),
        named("model_id", text_value(m.model_id.as_str())),
    ];
    assert(json::members(ms@) =~= model_form(m@)->Object_0);
    object(ms)
}

/// The provider as a value.
pub fn provider_value(p: &ProviderConfig) -> (r: Json)
    ensures
        r@ == provider_form(p@),
{
    let mut models: Vec<Json> = Vec::new();
    let n: usize = p.models.len();
    for i in 0..n
        invariant
            n == p.models@.len(),
            models@.len() == i,
            forall|j: int| 0 <= j < i ==> (#[trigger] models@[j])@ == model_form(p.models@[j]@),
    {
        models.push(model_value(&p.models[i]));
    }
    assert(json::items(models@) =~= Seq::new(
        p@.models.len(),
        |i: int| model_form(p@.models[i]),
    ));
    let ms: Vec<Member> = vec![
        named("id", text_value(p.id.as_str())),
        named("name", text_value(p.name.as_str())),
        named("type", text_value(p.provider_type.as_str())),
        named("base_url", opt_json(&p.base_url)),
        named("api_key", text_value(p.api_key.as_str())),
        named("user_agent", opt_json(&p.user_agent)),
        named("models", array(models)),
    ];
    assert(json::members(ms@) =~= provider_form(p@)->Object_0);
    object(ms)
}

/// A list of texts as a value.
pub fn texts_value(list: &Vec<String>) -> (r: Json)
    ensures
        r@ == list_value(Some(text::texts(list@))),
{
    let mut out: Vec<Json> = Vec::new();
    let n: usize = list.len();
    for i in 0..n
        invariant
            n == list@.len(),
            out@.len() == i,
            forall|j: int|
                0 <= j < i ==> (#[trigger] out@[j])@ == json::JsonView::Text(list@[j]@),
    {
        out.push(text_value(list[i].as_str()));
    }
    assert(json::items(out@) =~= list_value(Some(text::texts(list@)))->Array_0);
    array(out)
}

/// The key as a value.
pub fn key_value(k: &VirtualKeyConfig) -> (r: Json)
    ensures
        r@ == key_form(k@),
{
    let enabled = match k.enabled {
        Some(b) => Json::Bool(b),
        None => Json::Null,
    };
    let allowed = match &k.allowed_models {
        Some(l) => texts_value(l),
        None => Json::Null,
    };
    let budget = match k.budget {
        Some(n) => Json::Number(n),
        None => Json::Null,
    };
    let rpm = match k.rpm {
        Some(n) => json::number_value(n as u64),
        None => Json::Null,
    };
    let ms: Vec<Member> = vec![
        named("name", text_value(k.name.as_str())),
        named("key", text_value(k.key.as_str())),
        named("enabled", enabled),
        named("allowed_models", allowed),
        named("budget", budget),
        named("rpm", rpm),
        named("expires_at", opt_json(&k.expires_at)),
    ];
    assert(json::members(ms@) =~= key_form(k@)->Object_0);
    object(ms)
}

/// The keys as a value.
pub fn keys_value(list: &Vec<VirtualKeyConfig>) -> (r: Json)
    ensures
        r@ == keys_form(config::keys_of(list@)),
{
    let mut out: Vec<Json> = Vec::new();
    let n: usize = list.len();
    for i in 0..n
        invariant
            n == list@.len(),
            out@.len() == i,
            forall|j: int| 0 <= j < i ==> (#[trigger] out@[j])@ == key_form(list@[j]@),
    {
        out.push(key_value(&list[i]));
    }
    assert(json::items(out@) =~= keys_form(config::keys_of(list@))->Array_0);
    array(out)
}

fn providers_value(list: &Vec<ProviderConfig>) -> (r: Json)
    ensures
        r@ == providers_form(config::providers_of(list@)),
{
    let mut out: Vec<Json> = Vec::new();
    let n: usize = list.len();
    for i in 0..n
        invariant
            n == list@.len(),
            out@.len() == i,
            forall|j: int| 0 <= j < i ==> (#[trigger] out@[j])@ == provider_form(list@[j]@),
    {
        out.push(provider_value(&list[i]));
    }
    assert(json::items(out@) =~= providers_form(config::providers_of(list@))->Array_0);
    array(out)
}

/// Where conversations are kept, as a value.
pub fn storage_value(s: &config::ConversationStorage) -> (r: Json)
    ensures
        r@ == storage_form(s@),
{
    let ms: Vec<Member> = vec![
        named("enabled", Json::Bool(s.enabled)),
        named("directory", text_value(s.directory.as_str())),
    ];
    assert(json::members(ms@) =~= storage_form(s@)->Object_0);
    object(ms)
}

/// The configuration as a value.
pub fn config_value(cfg: &AppConfig) -> (r: Json)
    ensures
        r@ == config_form(cfg@),
{
    let general: Vec<Member> = vec![
        named("master_key", opt_json(&cfg.general_settings.master_key)),
    ];
    assert(json::members(general@) =~= seq![("master_key"@, opt_value(cfg@.master_key))]);
    let ms: Vec<Member> = vec![
        named("admin", admin_value(&cfg.admin)),
        named("providers", providers_value(&cfg.providers)),
        named("pricing", cfg.pricing.copy()),
        named("limits", cfg.limits.copy()),
        named("virtual_keys", keys_value(&cfg.virtual_keys)),
        named("router_settings", cfg.router_settings.copy()),
        named("litellm_settings", cfg.litellm_settings.copy()),
        named("general_settings", object(general)),
        named("conversation_storage", storage_value(&cfg.conversation_storage)),
    ];
    assert(json::members(ms@) =~= config_form(cfg@)->Object_0);
    object(ms)
}

// ---------------------------------------------------------------------------
// Secrets in it
// ---------------------------------------------------------------------------

/// How a secret is hidden.
#[derive(Clone, Copy, Debug, PartialEq, Eq, Structural)]
pub enum Veil {
    /// As in an export.
    Redact,
    /// As in the panel.
    Mask,
}

/// A secret as it is shown.
pub open spec fn veiled(veil: Veil, raw: Seq<char>) -> Seq<char> {
    match veil {
        Veil::Redact => secrets::redacted(raw),
        Veil::Mask => keys::masked(raw),
    }
}

/// Whether a secret can be hidden.
pub open spec fn can_veil(veil: Veil, raw: Seq<char>) -> bool {
    match veil {
        Veil::Redact => secrets::is_redactable(raw),
        Veil::Mask => keys::is_maskable(raw),
    }
}

/// An item with the secret in a field hidden, where there is one.
pub open spec fn veil_item(item: json::JsonView, field: Seq<char>, veil: Veil) -> json::JsonView {
    match (item, json::text_of(item.at(field))) {
        (json::JsonView::Object(ms), Some(raw)) => json::JsonView::Object(
            json::put_member(ms, field, json::JsonView::Text(veiled(veil, raw))),
        ),
        _ => item,
    }
}

/// The items of a list, each with the secret in a field hidden.
pub open spec fn veil_items(list: Seq<json::JsonView>, field: Seq<char>, veil: Veil) -> Seq<
    json::JsonView,
> {
    Seq::new(list.len(), |i: int| veil_item(list[i], field, veil))
}

/// A value with the secrets in the items of a list in it hidden.
pub open spec fn veil_list(
    value: json::JsonView,
    name: Seq<char>,
    field: Seq<char>,
    veil: Veil,
) -> json::JsonView {
    match (value, value.at(name)) {
        (json::JsonView::Object(ms), Some(json::JsonView::Array(list))) => json::JsonView::Object(
            json::put_member(ms, name, json::JsonView::Array(veil_items(list, field, veil))),
        ),
        _ => value,
    }
}

/// Whether the secret in a field of an item can be hidden.
pub open spec fn item_can_veil(item: json::JsonView, field: Seq<char>, veil: Veil) -> bool {
    match json::text_of(item.at(field)) {
        Some(raw) => can_veil(veil, raw),
        None => true,
    }
}

/// Whether the secrets in a field of the items can be hidden.
pub open spec fn items_can_veil(list: Seq<json::JsonView>, field: Seq<char>, veil: Veil) -> bool {
    forall|i: int| 0 <= i < list.len() ==> item_can_veil(#[trigger] list[i], field, veil)
}

/// Whether the secrets in the items of a list can be hidden.
pub open spec fn list_can_veil(
    value: json::JsonView,
    name: Seq<char>,
    field: Seq<char>,
    veil: Veil,
) -> bool {
    match value.at(name) {
        Some(json::JsonView::Array(list)) => items_can_veil(list, field, veil),
        _ => true,
    }
}

fn obscure(veil: Veil, raw: &str) -> (r: String)
    requires
        can_veil(veil, raw@),
    ensures
        r@ == veiled(veil, raw@),
{
    match veil {
        Veil::Redact => secrets::redact_secret(raw),
        Veil::Mask => keys::mask_key(raw),
    }
}

fn hide_in_item(item: &Json, field: &str, veil: Veil) -> (r: Json)
    requires
        item_can_veil(item@, field@, veil),
    ensures
        r@ == veil_item(item@, field@, veil),
{
    let mut out = item.copy();
    if let Some(raw) = item.text_at(field) {
        let shown = obscure(veil, raw);
        out.put(field, Json::Text(shown));
    }
    out
}

/// Hides the secrets in the items of a list in a value.
pub fn hide_in_list(value: &mut Json, name: &str, field: &str, veil: Veil)
    requires
        list_can_veil(old(value)@, name@, field@, veil),
    ensures
        final(value)@ == veil_list(old(value)@, name@, field@, veil),
{
    let mut out: Vec<Json> = Vec::new();
    let ghost before = value@;
    match value.get(name) {
        Some(found) => match found.as_array() {
            Some(list) => {
                let n: usize = list.len();
                let ghost all = json::items(list@);
                assert(before.at(name@) == Some(json::JsonView::Array(all)));
                for i in 0..n
                    invariant
                        n == list@.len(),
                        all == json::items(list@),
                        forall|j: int|
                            0 <= j < all.len() ==> item_can_veil(#[trigger] all[j], field@, veil),
                        out@.len() == i,
                        forall|j: int|
                            0 <= j < i ==> (#[trigger] out@[j])@ == veil_item(
                                all[j],
                                field@,
                                veil,
                            ),
                {
                    assert(all[i as int] == list@[i as int]@);
                    out.push(hide_in_item(&list[i], field, veil));
                }
                assert(json::items(out@) =~= veil_items(all, field@, veil));
            },
            None => {
                return ;
            },
        },
        None => {
            return ;
        },
    }
    value.put(name, array(out));
}

/// A value with the master key in it redacted, where there is one.
pub open spec fn redact_master(value: json::JsonView) -> json::JsonView {
    match (value, value.at("general_settings"@)) {
        (json::JsonView::Object(ms), Some(json::JsonView::Object(gs))) => match json::text_of(
            json::find_member(gs, "master_key"@),
        ) {
            Some(raw) => json::JsonView::Object(
                json::put_member(
                    ms,
                    "general_settings"@,
                    json::JsonView::Object(
                        json::put_member(
                            gs,
                            "master_key"@,
                            json::JsonView::Text(secrets::redacted(raw)),
                        ),
                    ),
                ),
            ),
            None => value,
        },
        _ => value,
    }
}

/// Whether the master key in a value can be redacted.
pub open spec fn master_redactable(value: json::JsonView) -> bool {
    match json::text_of(value.at2("general_settings"@, "master_key"@)) {
        Some(raw) => secrets::is_redactable(raw),
        None => true,
    }
}

fn hide_master(value: &mut Json)
    requires
        master_redactable(old(value)@),
    ensures
        final(value)@ == redact_master(old(value)@),
{
    let mut general = match value.get("general_settings") {
        Some(g) => g.copy(),
        None => {
            return ;
        },
    };
    let shown = match general.text_at("master_key") {
        Some(raw) => secrets::redact_secret(raw),
        None => {
            return ;
        },
    };
    general.put("master_key", Json::Text(shown));
    value.put("general_settings", general);
}

/// The secrets of a configuration, given as a value, redacted: the keys of the providers, the keys
/// of the callers, and the master key.
pub open spec fn redact_config(value: json::JsonView) -> json::JsonView {
    redact_master(
        veil_list(
            veil_list(value, "providers"@, "api_key"@, Veil::Redact),
            "virtual_keys"@,
            "key"@,
            Veil::Redact,
        ),
    )
}

/// Whether the secrets of a configuration, given as a value, can be redacted.
pub open spec fn config_redactable(value: json::JsonView) -> bool {
    &&& list_can_veil(value, "providers"@, "api_key"@, Veil::Redact)
    &&& list_can_veil(value, "virtual_keys"@, "key"@, Veil::Redact)
    &&& master_redactable(value)
}

proof fn lemma_veil_list_keeps(
    value: json::JsonView,
    name: Seq<char>,
    field: Seq<char>,
    veil: Veil,
    other: Seq<char>,
)
    requires
        other != name,
    ensures
        veil_list(value, name, field, veil).at(other) == value.at(other),
{
    if let (json::JsonView::Object(ms), Some(json::JsonView::Array(list))) = (
        value,
        value.at(name),
    ) {
        json::lemma_put_find(
            ms,
            name,
            json::JsonView::Array(veil_items(list, field, veil)),
            other,
        );
    }
}

proof fn lemma_names_differ()
    ensures
        "providers"@ != "virtual_keys"@,
        "providers"@ != "general_settings"@,
        "virtual_keys"@ != "general_settings"@,
{
    reveal_strlit("providers");
    reveal_strlit("virtual_keys");
    reveal_strlit("general_settings");
    assert("providers"@.len() == 9);
    assert("virtual_keys"@.len() == 12);
    assert("general_settings"@.len() == 16);
}

/// Redacts the secrets of a configuration, given as a value.
pub fn redact_config_value(value: &mut Json)
    requires
        config_redactable(old(value)@),
    ensures
        final(value)@ == redact_config(old(value)@),
{
    let ghost v0 = value@;
    proof {
        lemma_names_differ();
        lemma_veil_list_keeps(v0, "providers"@, "api_key"@, Veil::Redact, "virtual_keys"@);
        lemma_veil_list_keeps(v0, "providers"@, "api_key"@, Veil::Redact, "general_settings"@);
    }
    hide_in_list(value, "providers", "api_key", Veil::Redact);
    let ghost v1 = value@;
    proof {
        lemma_veil_list_keeps(v1, "virtual_keys"@, "key"@, Veil::Redact, "general_settings"@);
    }
    hide_in_list(value, "virtual_keys", "key", Veil::Redact);
    hide_master(value);
}

/// Whether the secrets of a configuration can be redacted.
pub open spec fn secrets_redactable(c: config::ConfigView) -> bool {
    &&& forall|i: int|
        0 <= i < c.providers.len() ==> secrets::is_redactable((#[trigger] c.providers[i]).api_key)
    &&& forall|i: int|
        0 <= i < c.virtual_keys.len() ==> secrets::is_redactable(
            (#[trigger] c.virtual_keys[i]).key,
        )
    &&& c.master_key matches Some(k) ==> secrets::is_redactable(k)
}

/// Whether the keys of the callers can be masked.
pub open spec fn keys_maskable(c: config::ConfigView) -> bool {
    forall|i: int|
        0 <= i < c.virtual_keys.len() ==> keys::is_maskable((#[trigger] c.virtual_keys[i]).key)
}

/// Where the parts of a configuration stand in its value.
pub proof fn lemma_config_form(c: config::ConfigView)
    ensures
        config_form(c).at("providers"@) == Some(providers_form(c.providers)),
        config_form(c).at("virtual_keys"@) == Some(keys_form(c.virtual_keys)),
        config_form(c).at("general_settings"@) == Some(
            json::JsonView::Object(seq![("master_key"@, opt_value(c.master_key))]),
        ),
        json::find_member(seq![("master_key"@, opt_value(c.master_key))], "master_key"@) == Some(
            opt_value(c.master_key),
        ),
{
    reveal_with_fuel(json::find_member, 10);
    reveal_strlit("admin");
    reveal_strlit("providers");
    reveal_strlit("pricing");
    reveal_strlit("limits");
    reveal_strlit("virtual_keys");
    reveal_strlit("router_settings");
    reveal_strlit("litellm_settings");
    reveal_strlit("general_settings");
    assert("admin"@.len() == 5 && "providers"@.len() == 9 && "pricing"@.len() == 7
        && "limits"@.len() == 6 && "virtual_keys"@.len() == 12 && "router_settings"@.len() == 15
        && "litellm_settings"@.len() == 16 && "general_settings"@.len() == 16);
    assert("litellm_settings"@[0] == 'l' && "general_settings"@[0] == 'g');
}

/// The key of a provider stands in its value.
pub proof fn lemma_provider_form(p: config::ProviderView)
    ensures
        provider_form(p).at("api_key"@) == Some(json::JsonView::Text(p.api_key)),
{
    reveal_with_fuel(json::find_member, 6);
    reveal_strlit("id");
    reveal_strlit("name");
    reveal_strlit("type");
    reveal_strlit("base_url");
    reveal_strlit("api_key");
    assert("api_key"@.len() == 7 && "id"@.len() == 2 && "name"@.len() == 4 && "type"@.len() == 4
        && "base_url"@.len() == 8);
}

/// The text of a key stands in its value.
pub proof fn lemma_key_form(k: config::VirtualKeyView)
    ensures
        key_form(k).at("key"@) == Some(json::JsonView::Text(k.key)),
{
    reveal_with_fuel(json::find_member, 3);
    reveal_strlit("name");
    reveal_strlit("key");
    assert("key"@.len() == 3 && "name"@.len() == 4);
}

proof fn lemma_redactable_form(c: config::ConfigView)
    requires
        secrets_redactable(c),
    ensures
        config_redactable(config_form(c)),
{
    lemma_config_form(c);
    let ps = providers_form(c.providers)->Array_0;
    assert forall|i: int| 0 <= i < ps.len() implies item_can_veil(
        #[trigger] ps[i],
        "api_key"@,
        Veil::Redact,
    ) by {
        lemma_provider_form(c.providers[i]);
    }
    let ks = keys_form(c.virtual_keys)->Array_0;
    assert forall|i: int| 0 <= i < ks.len() implies item_can_veil(
        #[trigger] ks[i],
        "key"@,
        Veil::Redact,
    ) by {
        lemma_key_form(c.virtual_keys[i]);
    }
}

proof fn lemma_maskable_form(c: config::ConfigView)
    requires
        keys_maskable(c),
    ensures
        items_can_veil(keys_form(c.virtual_keys)->Array_0, "key"@, Veil::Mask),
{
    let ks = keys_form(c.virtual_keys)->Array_0;
    assert forall|i: int| 0 <= i < ks.len() implies item_can_veil(
        #[trigger] ks[i],
        "key"@,
        Veil::Mask,
    ) by {
        lemma_key_form(c.virtual_keys[i]);
    }
}

/// Whether the secrets of the configuration can be redacted.
pub fn can_redact_config(cfg: &AppConfig) -> (r: bool)
    ensures
        r == secrets_redactable(cfg@),
{
    let n: usize = cfg.providers.len();
    for i in 0..n
        invariant
            n == cfg.providers@.len(),
            forall|j: int|
                0 <= j < i ==> secrets::is_redactable((#[trigger] cfg@.providers[j]).api_key),
    {
        assert(cfg@.providers[i as int] == cfg.providers@[i as int]@);
        if !secrets::can_redact(cfg.providers[i].api_key.as_str()) {
            return false;
        }
    }
    let k: usize = cfg.virtual_keys.len();
    for i in 0..k
        invariant
            k == cfg.virtual_keys@.len(),
            forall|j: int|
                0 <= j < i ==> secrets::is_redactable((#[trigger] cfg@.virtual_keys[j]).key),
    {
        assert(cfg@.virtual_keys[i as int] == cfg.virtual_keys@[i as int]@);
        if !secrets::can_redact(cfg.virtual_keys[i].key.as_str()) {
            return false;
        }
    }
    match &cfg.general_settings.master_key {
        Some(m) => secrets::can_redact(m.as_str()),
        None => true,
    }
}

/// Whether the keys of the callers can be masked.
pub fn can_mask_keys(cfg: &AppConfig) -> (r: bool)
    ensures
        r == keys_maskable(cfg@),
{
    let k: usize = cfg.virtual_keys.len();
    for i in 0..k
        invariant
            k == cfg.virtual_keys@.len(),
            forall|j: int|
                0 <= j < i ==> keys::is_maskable((#[trigger] cfg@.virtual_keys[j]).key),
    {
        assert(cfg@.virtual_keys[i as int] == cfg.virtual_keys@[i as int]@);
        if !keys::can_mask(cfg.virtual_keys[i].key.as_str()) {
            return false;
        }
    }
    true
}

/// The configuration as it is exported, with its secrets redacted or not.
pub fn export_current_config(cfg: &AppConfig, redacted: bool) -> (r: Json)
    requires
        redacted ==> secrets_redactable(cfg@),
    ensures
        r@ == (if redacted {
            redact_config(config_form(cfg@))
        } else {
            config_form(cfg@)
        }),
{
    let mut value = config_value(cfg);
    if redacted {
        proof {
            lemma_redactable_form(cfg@);
        }
        redact_config_value(&mut value);
    }
    value
}

/// In a redacted export the key of each provider, the key of each caller and the master key are
/// redacted.
pub proof fn law_export_shows_no_secret(c: config::ConfigView)
    ensures
        ({
            let out = redact_config(config_form(c));
            &&& out.at("providers"@) == Some(
                json::JsonView::Array(
                    veil_items(providers_form(c.providers)->Array_0, "api_key"@, Veil::Redact),
                ),
            )
            &&& out.at("virtual_keys"@) == Some(
                json::JsonView::Array(
                    veil_items(keys_form(c.virtual_keys)->Array_0, "key"@, Veil::Redact),
                ),
            )
            &&& out.at2("general_settings"@, "master_key"@) == Some(
                match c.master_key {
                    Some(k) => json::JsonView::Text(secrets::redacted(k)),
                    None => json::JsonView::Null,
                },
            )
        }),
        forall|i: int|
            0 <= i < c.providers.len() ==> veil_item(
                provider_form(#[trigger] c.providers[i]),
                "api_key"@,
                Veil::Redact,
            ).at("api_key"@) == Some(
                json::JsonView::Text(secrets::redacted(c.providers[i].api_key)),
            ),
        forall|i: int|
            0 <= i < c.virtual_keys.len() ==> veil_item(
                key_form(#[trigger] c.virtual_keys[i]),
                "key"@,
                Veil::Redact,
            ).at("key"@) == Some(json::JsonView::Text(secrets::redacted(c.virtual_keys[i].key))),
{
    lemma_config_form(c);
    lemma_names_differ();
    let v0 = config_form(c);
    let ps = json::JsonView::Array(
        veil_items(providers_form(c.providers)->Array_0, "api_key"@, Veil::Redact),
    );
    let v1 = veil_list(v0, "providers"@, "api_key"@, Veil::Redact);
    json::lemma_put_find(v0->Object_0, "providers"@, ps, "providers"@);
    json::lemma_put_find(v0->Object_0, "providers"@, ps, "virtual_keys"@);
    json::lemma_put_find(v0->Object_0, "providers"@, ps, "general_settings"@);
    let ks = json::JsonView::Array(
        veil_items(keys_form(c.virtual_keys)->Array_0, "key"@, Veil::Redact),
    );
    let v2 = veil_list(v1, "virtual_keys"@, "key"@, Veil::Redact);
    json::lemma_put_find(v1->Object_0, "virtual_keys"@, ks, "providers"@);
    json::lemma_put_find(v1->Object_0, "virtual_keys"@, ks, "virtual_keys"@);
    json::lemma_put_find(v1->Object_0, "virtual_keys"@, ks, "general_settings"@);
    let gs = seq![("master_key"@, opt_value(c.master_key))];
    if let Some(k) = c.master_key {
        let shown = json::JsonView::Text(secrets::redacted(k));
        let g = json::JsonView::Object(json::put_member(gs, "master_key"@, shown));
        json::lemma_put_find(gs, "master_key"@, shown, "master_key"@);
        json::lemma_put_find(v2->Object_0, "general_settings"@, g, "providers"@);
        json::lemma_put_find(v2->Object_0, "general_settings"@, g, "virtual_keys"@);
        json::lemma_put_find(v2->Object_0, "general_settings"@, g, "general_settings"@);
    }
    assert forall|i: int| 0 <= i < c.providers.len() implies veil_item(
        provider_form(#[trigger] c.providers[i]),
        "api_key"@,
        Veil::Redact,
    ).at("api_key"@) == Some(
        json::JsonView::Text(secrets::redacted(c.providers[i].api_key)),
    ) by {
        let p = c.providers[i];
        lemma_provider_form(p);
        json::lemma_put_find(
            provider_form(p)->Object_0,
            "api_key"@,
            json::JsonView::Text(secrets::redacted(p.api_key)),
            "api_key"@,
        );
    }
    assert forall|i: int| 0 <= i < c.virtual_keys.len() implies veil_item(
        key_form(#[trigger] c.virtual_keys[i]),
        "key"@,
        Veil::Redact,
    ).at("key"@) == Some(json::JsonView::Text(secrets::redacted(c.virtual_keys[i].key))) by {
        let k = c.virtual_keys[i];
        lemma_key_form(k);
        json::lemma_put_find(
            key_form(k)->Object_0,
            "key"@,
            json::JsonView::Text(secrets::redacted(k.key)),
            "key"@,
        );
    }
}

// ---------------------------------------------------------------------------
// The form that the panel reads and writes
// ---------------------------------------------------------------------------

/// A value with a member put into it.
pub open spec fn with(value: json::JsonView, name: Seq<char>, v: json::JsonView) -> json::JsonView {
    match value {
        json::JsonView::Object(ms) => json::JsonView::Object(json::put_member(ms, name, v)),
        other => other,
    }
}

/// A value with a member taken out of it.
pub open spec fn lacking(value: json::JsonView, name: Seq<char>) -> json::JsonView {
    match value {
        json::JsonView::Object(ms) => json::JsonView::Object(json::drop_member(ms, name)),
        other => other,
    }
}

/// The configuration as the panel reads it: of the account only the name, the keys of the callers
/// masked, and with the user agents that are offered for providers.
pub open spec fn panel_form(c: config::ConfigView, agents: Seq<Seq<char>>) -> json::JsonView {
    let v0 = config_form(c);
    let v1 = with(
        v0,
        "admin"@,
        json::JsonView::Object(seq![("username"@, json::JsonView::Text(c.admin.username))]),
    );
    let v2 = veil_list(v1, "virtual_keys"@, "key"@, Veil::Mask);
    with(
        v2,
        "header_candidates"@,
        json::JsonView::Object(seq![("user_agents"@, list_value(Some(agents)))]),
    )
}

/// The configuration as the panel reads it.
pub fn panel_value(cfg: &AppConfig, agents: &Vec<String>) -> (r: Json)
    requires
        keys_maskable(cfg@),
    ensures
        r@ == panel_form(cfg@, text::texts(agents@)),
{
    let mut value = config_value(cfg);
    let admin: Vec<Member> = vec![named("username", text_value(cfg.admin.username.as_str()))];
    assert(json::members(admin@) =~= seq![
        ("username"@, json::JsonView::Text(cfg@.admin.username)),
    ]);
    let account = object(admin);
    let ghost v0 = value@;
    proof {
        lemma_config_form(cfg@);
        lemma_maskable_form(cfg@);
        json::lemma_put_find(v0->Object_0, "admin"@, account@, "virtual_keys"@);
        reveal_strlit("admin");
        reveal_strlit("virtual_keys");
        assert("admin"@.len() != "virtual_keys"@.len());
    }
    value.put("admin", account);
    hide_in_list(&mut value, "virtual_keys", "key", Veil::Mask);
    let candidates: Vec<Member> = vec![named("user_agents", texts_value(agents))];
    assert(json::members(candidates@) =~= seq![
        ("user_agents"@, list_value(Some(text::texts(agents@)))),
    ]);
    value.put("header_candidates", object(candidates));
    value
}

/// The keys of the callers as the panel reads them.
pub fn masked_keys_value(cfg: &AppConfig) -> (r: Json)
    requires
        keys_maskable(cfg@),
    ensures
        r@ == json::JsonView::Array(
            veil_items(keys_form(cfg@.virtual_keys)->Array_0, "key"@, Veil::Mask),
        ),
{
    let mut out: Vec<Json> = Vec::new();
    let ghost ks = keys_form(cfg@.virtual_keys)->Array_0;
    let n: usize = cfg.virtual_keys.len();
    proof {
        lemma_maskable_form(cfg@);
    }
    for i in 0..n
        invariant
            n == cfg.virtual_keys@.len(),
            ks == keys_form(cfg@.virtual_keys)->Array_0,
            items_can_veil(ks, "key"@, Veil::Mask),
            out@.len() == i,
            forall|j: int|
                0 <= j < i ==> (#[trigger] out@[j])@ == veil_item(ks[j], "key"@, Veil::Mask),
    {
        let item = key_value(&cfg.virtual_keys[i]);
        assert(ks[i as int] == item@);
        out.push(hide_in_item(&item, "key", Veil::Mask));
    }
    assert(json::items(out@) =~= veil_items(ks, "key"@, Veil::Mask));
    array(out)
}

/// A configuration that the panel sends, with the account and the keys of the callers that are in
/// use, and without what the panel was only offered.
pub open spec fn completed(value: json::JsonView, current: config::ConfigView) -> json::JsonView {
    lacking(
        with(
            with(value, "admin"@, admin_form(current.admin)),
            "virtual_keys"@,
            keys_form(current.virtual_keys),
        ),
        "header_candidates"@,
    )
}

/// The configuration that the panel sends, with the account and the keys of the callers that are in
/// use. A value that is no object stays as it is.
pub fn complete_incoming(value: Json, current: &AppConfig) -> (r: Json)
    ensures
        r@ == completed(value@, current@),
{
    let mut out = value;
    out.put("admin", admin_value(&current.admin));
    out.put("virtual_keys", keys_value(&current.virtual_keys));
    out.remove("header_candidates");
    out
}

/// What the panel sends cannot replace the account or the keys of the callers; the rest of it is
/// taken over.
pub proof fn law_panel_keeps_account_and_keys(
    ms: Seq<(Seq<char>, json::JsonView)>,
    current: config::ConfigView,
    name: Seq<char>,
)
    ensures
        completed(json::JsonView::Object(ms), current).at("admin"@) == Some(
            admin_form(current.admin),
        ),
        completed(json::JsonView::Object(ms), current).at("virtual_keys"@) == Some(
            keys_form(current.virtual_keys),
        ),
        name != "admin"@ && name != "virtual_keys"@ && name != "header_candidates"@
            ==> completed(json::JsonView::Object(ms), current).at(name) == json::find_member(
            ms,
            name,
        ),
{
    reveal_strlit("admin");
    reveal_strlit("virtual_keys");
    reveal_strlit("header_candidates");
    assert("admin"@.len() == 5 && "virtual_keys"@.len() == 12 && "header_candidates"@.len() == 17);
    let a = admin_form(current.admin);
    let k = keys_form(current.virtual_keys);
    let m1 = json::put_member(ms, "admin"@, a);
    let m2 = json::put_member(m1, "virtual_keys"@, k);
    json::lemma_put_find(ms, "admin"@, a, "admin"@);
    json::lemma_put_find(ms, "admin"@, a, name);
    json::lemma_put_find(m1, "virtual_keys"@, k, "admin"@);
    json::lemma_put_find(m1, "virtual_keys"@, k, "virtual_keys"@);
    json::lemma_put_find(m1, "virtual_keys"@, k, name);
    json::lemma_drop_find(m2, "header_candidates"@, "admin"@);
    json::lemma_drop_find(m2, "header_candidates"@, "virtual_keys"@);
    json::lemma_drop_find(m2, "header_candidates"@, name);
}

/// The configuration that is saved, given the one that was sent: the account and the keys of the
/// callers stay those in use.
pub fn keep_identity(incoming: AppConfig, current: &AppConfig) -> (r: AppConfig)
    ensures
        r@ == (config::ConfigView {
            admin: current@.admin,
            virtual_keys: current@.virtual_keys,
            ..incoming@
        }),
{
    let mut cfg = incoming;
    cfg.admin = current.admin.copy();
    cfg.virtual_keys = config::copy_keys(&current.virtual_keys);
    cfg
}

// ---------------------------------------------------------------------------
// What is promised of the forms
// ---------------------------------------------------------------------------

/// The stored form of a configuration has all of its parts, each under its name.
pub proof fn law_stored_form_has_every_part(c: config::ConfigView)
    ensures
        ({
            let v = config_form(c);
            &&& v.at2("admin"@, "username"@) == Some(json::JsonView::Text(c.admin.username))
            &&& v.at2("admin"@, "password_hash"@) == Some(
                json::JsonView::Text(c.admin.password_hash),
            )
            &&& v.at("pricing"@) == Some(c.pricing)
            &&& v.at("limits"@) == Some(c.limits)
            &&& v.at("router_settings"@) == Some(c.router_settings)
            &&& v.at("litellm_settings"@) == Some(c.litellm_settings)
            &&& c.master_key is Some ==> v.at2("general_settings"@, "master_key"@) == Some(
                json::JsonView::Text(c.master_key->0),
            )
            &&& c.master_key is None ==> v.at2("general_settings"@, "master_key"@) == Some(
                json::JsonView::Null,
            )
            &&& v.at2("conversation_storage"@, "enabled"@) == Some(
                json::JsonView::Bool(c.conversation_storage.enabled),
            )
            &&& v.at2("conversation_storage"@, "directory"@) == Some(
                json::JsonView::Text(c.conversation_storage.directory),
            )
        }),
{
    lemma_config_form(c);
    reveal_with_fuel(json::find_member, 10);
    reveal_strlit("admin");
    reveal_strlit("providers");
    reveal_strlit("pricing");
    reveal_strlit("limits");
    reveal_strlit("virtual_keys");
    reveal_strlit("router_settings");
    reveal_strlit("litellm_settings");
    reveal_strlit("general_settings");
    reveal_strlit("conversation_storage");
    reveal_strlit("username");
    reveal_strlit("password_hash");
    reveal_strlit("enabled");
    reveal_strlit("directory");
    assert("admin"@.len() == 5 && "providers"@.len() == 9 && "pricing"@.len() == 7
        && "limits"@.len() == 6 && "virtual_keys"@.len() == 12 && "router_settings"@.len() == 15
        && "litellm_settings"@.len() == 16 && "general_settings"@.len() == 16
        && "conversation_storage"@.len() == 20);
    assert("litellm_settings"@[0] == 'l' && "general_settings"@[0] == 'g');
    assert("username"@.len() == 8 && "password_hash"@.len() == 13 && "enabled"@.len() == 7
        && "directory"@.len() == 9);
}

/// The stored form has each provider in its place with all of its settings, and each of its models.
pub proof fn law_stored_form_has_every_provider(c: config::ConfigView, i: int, j: int)
    requires
        0 <= i < c.providers.len(),
    ensures
        match config_form(c).at("providers"@) {
            Some(json::JsonView::Array(list)) => {
                let p = c.providers[i];
                let x = list[i];
                &&& list.len() == c.providers.len()
                &&& x.at("id"@) == Some(json::JsonView::Text(p.id))
                &&& x.at("name"@) == Some(json::JsonView::Text(p.name))
                &&& x.at("type"@) == Some(json::JsonView::Text(p.provider_type))
                &&& x.at("api_key"@) == Some(json::JsonView::Text(p.api_key))
                &&& p.base_url is Some ==> x.at("base_url"@) == Some(
                    json::JsonView::Text(p.base_url->0),
                )
                &&& p.base_url is None ==> x.at("base_url"@) == Some(json::JsonView::Null)
                &&& p.user_agent is Some ==> x.at("user_agent"@) == Some(
                    json::JsonView::Text(p.user_agent->0),
                )
                &&& p.user_agent is None ==> x.at("user_agent"@) == Some(json::JsonView::Null)
                &&& match x.at("models"@) {
                    Some(json::JsonView::Array(ms)) => {
                        &&& ms.len() == p.models.len()
                        &&& 0 <= j < ms.len() ==> ms[j].at("model_name"@) == Some(
                            json::JsonView::Text(p.models[j].model_name),
                        ) && ms[j].at("model_id"@) == Some(
                            json::JsonView::Text(p.models[j].model_id),
                        )
                    },
                    _ => false,
                }
            },
            _ => false,
        },
{
    lemma_config_form(c);
    reveal_with_fuel(json::find_member, 8);
    reveal_strlit("id");
    reveal_strlit("name");
    reveal_strlit("type");
    reveal_strlit("base_url");
    reveal_strlit("api_key");
    reveal_strlit("user_agent");
    reveal_strlit("models");
    reveal_strlit("model_name");
    reveal_strlit("model_id");
    assert("api_key"@.len() == 7 && "id"@.len() == 2 && "name"@.len() == 4 && "type"@.len() == 4
        && "base_url"@.len() == 8 && "user_agent"@.len() == 10 && "models"@.len() == 6);
    assert("name"@[0] == 'n' && "type"@[0] == 't');
    assert("model_name"@.len() == 10 && "model_id"@.len() == 8);
}

/// The stored form has each key of the callers in its place with all of its settings.
pub proof fn law_stored_form_has_every_key(c: config::ConfigView, i: int)
    requires
        0 <= i < c.virtual_keys.len(),
    ensures
        match config_form(c).at("virtual_keys"@) {
            Some(json::JsonView::Array(list)) => {
                let k = c.virtual_keys[i];
                let x = list[i];
                &&& list.len() == c.virtual_keys.len()
                &&& x.at("name"@) == Some(json::JsonView::Text(k.name))
                &&& x.at("key"@) == Some(json::JsonView::Text(k.key))
                &&& k.enabled is Some ==> x.at("enabled"@) == Some(
                    json::JsonView::Bool(k.enabled->0),
                )
                &&& k.enabled is None ==> x.at("enabled"@) == Some(json::JsonView::Null)
                &&& k.budget is Some ==> x.at("budget"@) == Some(
                    json::JsonView::Number(k.budget->0),
                )
                &&& k.budget is None ==> x.at("budget"@) == Some(json::JsonView::Null)
                &&& k.rpm is Some ==> x.at("rpm"@) == Some(
                    json::JsonView::Number(Number::Unsigned(k.rpm->0 as u64)),
                )
                &&& k.rpm is None ==> x.at("rpm"@) == Some(json::JsonView::Null)
                &&& k.expires_at is Some ==> x.at("expires_at"@) == Some(
                    json::JsonView::Text(k.expires_at->0),
                )
                &&& k.expires_at is None ==> x.at("expires_at"@) == Some(json::JsonView::Null)
                &&& k.allowed_models is None ==> x.at("allowed_models"@) == Some(
                    json::JsonView::Null,
                )
                &&& k.allowed_models is Some ==> match x.at("allowed_models"@) {
                    Some(json::JsonView::Array(ms)) => ms.len() == k.allowed_models->0.len() && (
                    forall|m: int|
                        0 <= m < ms.len() ==> #[trigger] ms[m] == json::JsonView::Text(
                            (k.allowed_models->0)[m],
                        )),
                    _ => false,
                }
            },
            _ => false,
        },
{
    lemma_config_form(c);
    reveal_with_fuel(json::find_member, 8);
    reveal_strlit("name");
    reveal_strlit("key");
    reveal_strlit("enabled");
    reveal_strlit("allowed_models");
    reveal_strlit("budget");
    reveal_strlit("rpm");
    reveal_strlit("expires_at");
    assert("name"@.len() == 4 && "key"@.len() == 3 && "enabled"@.len() == 7
        && "allowed_models"@.len() == 14 && "budget"@.len() == 6 && "rpm"@.len() == 3
        && "expires_at"@.len() == 10);
    assert("key"@[0] == 'k' && "rpm"@[0] == 'r');
}

/// An item whose secret is hidden shows the hidden form of it, and its other fields as they are.
pub proof fn law_only_the_secret_is_hidden(
    item: json::JsonView,
    field: Seq<char>,
    raw: Seq<char>,
    other: Seq<char>,
)
    requires
        item.at(field) == Some(json::JsonView::Text(raw)),
        other != field,
    ensures
        veil_item(item, field, Veil::Redact).at(field) == Some(
            json::JsonView::Text(secrets::redacted(raw)),
        ),
        veil_item(item, field, Veil::Mask).at(field) == Some(
            json::JsonView::Text(keys::masked(raw)),
        ),
        veil_item(item, field, Veil::Redact).at(other) == item.at(other),
        veil_item(item, field, Veil::Mask).at(other) == item.at(other),
{
    let ms = item->Object_0;
    let a = json::JsonView::Text(secrets::redacted(raw));
    let b = json::JsonView::Text(keys::masked(raw));
    json::lemma_put_find(ms, field, a, field);
    json::lemma_put_find(ms, field, a, other);
    json::lemma_put_find(ms, field, b, field);
    json::lemma_put_find(ms, field, b, other);
}

/// An export keeps all parts but the lists with secrets in them and the master key.
pub proof fn law_export_keeps_the_rest(c: config::ConfigView, name: Seq<char>)
    requires
        name != "providers"@,
        name != "virtual_keys"@,
        name != "general_settings"@,
    ensures
        redact_config(config_form(c)).at(name) == config_form(c).at(name),
{
    let v0 = config_form(c);
    let v1 = veil_list(v0, "providers"@, "api_key"@, Veil::Redact);
    let v2 = veil_list(v1, "virtual_keys"@, "key"@, Veil::Redact);
    lemma_veil_list_keeps(v0, "providers"@, "api_key"@, Veil::Redact, name);
    lemma_veil_list_keeps(v1, "virtual_keys"@, "key"@, Veil::Redact, name);
    if let (json::JsonView::Object(ms), Some(json::JsonView::Object(gs))) = (
        v2,
        v2.at("general_settings"@),
    ) {
        if let Some(raw) = json::text_of(json::find_member(gs, "master_key"@)) {
            let g = json::JsonView::Object(
                json::put_member(
                    gs,
                    "master_key"@,
                    json::JsonView::Text(secrets::redacted(raw)),
                ),
            );
            json::lemma_put_find(ms, "general_settings"@, g, name);
        }
    }
}

/// The panel sees the administrator's name and nothing else of the account, the keys of the callers
/// masked, the user agents that are offered, and all other parts as they are.
pub proof fn law_panel_sees_the_rest(
    c: config::ConfigView,
    agents: Seq<Seq<char>>,
    name: Seq<char>,
    i: int,
)
    ensures
        ({
            let v = panel_form(c, agents);
            &&& v.at2("admin"@, "username"@) == Some(json::JsonView::Text(c.admin.username))
            &&& v.at2("admin"@, "password_hash"@) is None
            &&& name != "admin"@ && name != "virtual_keys"@ && name != "header_candidates"@
                ==> v.at(name) == config_form(c).at(name)
            &&& match v.at2("header_candidates"@, "user_agents"@) {
                Some(json::JsonView::Array(list)) => list.len() == agents.len() && (0 <= i
                    < agents.len() ==> list[i] == json::JsonView::Text(agents[i])),
                _ => false,
            }
            &&& match v.at("virtual_keys"@) {
                Some(json::JsonView::Array(list)) => list.len() == c.virtual_keys.len() && (0 <= i
                    < list.len() ==> list[i].at("key"@) == Some(
                    json::JsonView::Text(keys::masked(c.virtual_keys[i].key)),
                )),
                _ => false,
            }
        }),
{
    reveal_with_fuel(json::find_member, 2);
    reveal_strlit("admin");
    reveal_strlit("virtual_keys");
    reveal_strlit("header_candidates");
    reveal_strlit("username");
    reveal_strlit("password_hash");
    assert("admin"@.len() == 5 && "virtual_keys"@.len() == 12 && "header_candidates"@.len() == 17);
    assert("username"@.len() == 8 && "password_hash"@.len() == 13);
    lemma_config_form(c);
    let v0 = config_form(c);
    let account = json::JsonView::Object(
        seq![("username"@, json::JsonView::Text(c.admin.username))],
    );
    let v1 = with(v0, "admin"@, account);
    let shown = veil_items(keys_form(c.virtual_keys)->Array_0, "key"@, Veil::Mask);
    let v2 = veil_list(v1, "virtual_keys"@, "key"@, Veil::Mask);
    let offered = json::JsonView::Object(seq![("user_agents"@, list_value(Some(agents)))]);
    json::lemma_put_find(v0->Object_0, "admin"@, account, "admin"@);
    json::lemma_put_find(v0->Object_0, "admin"@, account, "virtual_keys"@);
    let arr = json::JsonView::Array(shown);
    json::lemma_put_find(v1->Object_0, "virtual_keys"@, arr, "admin"@);
    json::lemma_put_find(v1->Object_0, "virtual_keys"@, arr, "virtual_keys"@);
    json::lemma_put_find(v2->Object_0, "header_candidates"@, offered, "admin"@);
    json::lemma_put_find(v2->Object_0, "header_candidates"@, offered, "virtual_keys"@);
    json::lemma_put_find(v2->Object_0, "header_candidates"@, offered, "header_candidates"@);
    if name != "admin"@ && name != "virtual_keys"@ && name != "header_candidates"@ {
        json::lemma_put_find(v0->Object_0, "admin"@, account, name);
        json::lemma_put_find(v1->Object_0, "virtual_keys"@, arr, name);
        json::lemma_put_find(v2->Object_0, "header_candidates"@, offered, name);
    }
    if 0 <= i < c.virtual_keys.len() {
        let k = c.virtual_keys[i];
        lemma_key_form(k);
        json::lemma_put_find(
            key_form(k)->Object_0,
            "key"@,
            json::JsonView::Text(keys::masked(k.key)),
            "key"@,
        );
    }
}

/// What the panel was only offered is not taken over.
pub proof fn law_offers_are_not_kept(
    ms: Seq<(Seq<char>, json::JsonView)>,
    current: config::ConfigView,
)
    ensures
        completed(json::JsonView::Object(ms), current).at("header_candidates"@) is None,
{
    let a = admin_form(current.admin);
    let m1 = json::put_member(ms, "admin"@, a);
    let m2 = json::put_member(m1, "virtual_keys"@, keys_form(current.virtual_keys));
    json::lemma_drop_find(m2, "header_candidates"@, "header_candidates"@);
}

} // verus!
