//! What the administrator may do.
use vstd::prelude::*;

use crate::clock;
use crate::config;
use crate::config::{AppConfig, ConversationStorage, ProviderConfig, VirtualKeyConfig};
use crate::gateway;
use crate::ids;
use crate::json;
use crate::json::{array, named, number_value, object, text_value, Json, Member};
use crate::password;
use crate::text;

verus! {

// ---------------------------------------------------------------------------
// Sessions
// ---------------------------------------------------------------------------

/// How long a session lasts, in seconds: seven days.
pub const SESSION_SECS: i64 = 604800;

/// Whether a name and a password are those of the administrator.
pub open spec fn is_admin(a: config::AdminView, username: Seq<char>, password: Seq<char>) -> bool {
    username == a.username && password::opens(password, a.password_hash)
}

/// Whether the name and the password are those of the administrator.
pub fn login(cfg: &AppConfig, username: &str, password: &str) -> (r: bool)
    ensures
        r == is_admin(cfg@.admin, username@, password@),
{
    text::same(username, cfg.admin.username.as_str()) && password::verify_password(
        password,
        cfg.admin.password_hash.as_str(),
    )
}

/// When a session that begins at a time ends, in seconds.
pub fn session_expiry_at(now: clock::Moment) -> (r: i64)
    requires
        now.secs <= i64::MAX - SESSION_SECS,
    ensures
        r == now.secs + SESSION_SECS,
{
    now.secs + SESSION_SECS
}

/// When a session that begins now ends, in seconds.
pub fn session_expiry() -> (r: i64)
    ensures
        exists|now: clock::Moment|
            0 <= now.secs < clock::SECS_LIMIT && #[trigger] ends_session(now, r),
{
    let now = clock::now();
    let r: i64 = session_expiry_at(now);
    assert(ends_session(now, r));
    r
}

/// Whether a session that begins at a time ends at the given second.
pub open spec fn ends_session(now: clock::Moment, end: i64) -> bool {
    end == now.secs + SESSION_SECS
}

/// The token that shows who asks: one in the query where it is not blank, else that of a header.
pub open spec fn shown_token(
    authorization: Option<Seq<char>>,
    query_token: Option<Seq<char>>,
) -> Option<Seq<char>> {
    match query_token {
        Some(t) => if text::blank(t) {
            gateway::token_of(authorization)
        } else {
            Some(t)
        },
        None => gateway::token_of(authorization),
    }
}

/// The token that shows who asks.
pub fn admin_token(authorization: Option<&str>, query_token: Option<&str>) -> (r: Option<String>)
    ensures
        text::opt_text(r) == shown_token(text::opt_str(authorization), text::opt_str(query_token)),
{
    if let Some(t) = query_token {
        if !text::is_blank(t) {
            return Some(t.to_owned());
        }
    }
    gateway::bearer_token(authorization)
}

/// The account of a new installation is entered with its default name and password, where the
/// default password could be hashed.
pub proof fn law_default_account_logs_in(hashed: Result<Seq<char>, Seq<char>>)
    requires
        config::is_default_hashing(hashed),
        hashed is Ok,
    ensures
        is_admin(config::default_account(hashed), "admin"@, config::DEFAULT_ADMIN_PASSWORD@),
{
}

// ---------------------------------------------------------------------------
// The password
// ---------------------------------------------------------------------------

/// What becomes of the wish for another password.
#[derive(Debug)]
pub enum PasswordChange {
    /// The old password is not right.
    WrongPassword,
    /// No hash could be made, for this reason.
    Failed(String),
    /// The configuration with the new password.
    Changed(AppConfig),
}

/// The configuration with another hash.
pub open spec fn rehashed(c: config::ConfigView, hash: Seq<char>) -> config::ConfigView {
    config::ConfigView { admin: config::AdminView { password_hash: hash, ..c.admin }, ..c }
}

/// What becomes of the wish for another password, given its hash.
pub fn change_password_with(cfg: &AppConfig, old_password: &str, hashed: Result<String, String>) -> (r:
    PasswordChange)
    ensures
        match r {
            PasswordChange::WrongPassword => !password::opens(
                old_password@,
                cfg@.admin.password_hash,
            ),
            PasswordChange::Failed(e) => password::opens(old_password@, cfg@.admin.password_hash)
                && hashed is Err && e == hashed->Err_0,
            PasswordChange::Changed(c) => password::opens(old_password@, cfg@.admin.password_hash)
                && hashed is Ok && c@ == rehashed(cfg@, hashed->Ok_0@),
        },
{
    if !password::verify_password(old_password, cfg.admin.password_hash.as_str()) {
        return PasswordChange::WrongPassword;
    }
    match hashed {
        Ok(h) => {
            let mut c = cfg.copy();
            c.admin.password_hash = h;
            PasswordChange::Changed(c)
        },
        Err(e) => PasswordChange::Failed(e),
    }
}

/// What becomes of the wish for another password: the old one must be right, and nothing but the
/// hash changes.
pub fn change_password(cfg: &AppConfig, old_password: &str, new_password: &str) -> (r:
    PasswordChange)
    ensures
        r is WrongPassword == !password::opens(old_password@, cfg@.admin.password_hash),
        r matches PasswordChange::Changed(c) ==> {
            &&& c@ == rehashed(cfg@, c@.admin.password_hash)
            &&& password::opens(new_password@, c@.admin.password_hash)
        },
{
    if !password::verify_password(old_password, cfg.admin.password_hash.as_str()) {
        return PasswordChange::WrongPassword;
    }
    change_password_with(cfg, old_password, password::hash_password(new_password))
}

/// With a hash that the new password opens, the administrator is known by the same name and the new
/// password.
pub proof fn law_new_password_logs_in(
    c: config::ConfigView,
    hash: Seq<char>,
    new_password: Seq<char>,
)
    requires
        password::opens(new_password, hash),
    ensures
        is_admin(rehashed(c, hash).admin, c.admin.username, new_password),
{
}

// ---------------------------------------------------------------------------
// The keys of callers
// ---------------------------------------------------------------------------

/// A key with the given text.
pub open spec fn rekeyed(k: config::VirtualKeyView, text: Seq<char>) -> config::VirtualKeyView {
    config::VirtualKeyView { key: text, ..k }
}

/// The configuration with one more key, which has the given text; and that key.
pub fn post_virtual_key_with(cfg: &AppConfig, key: VirtualKeyConfig, text: String) -> (r: (
    AppConfig,
    VirtualKeyConfig,
))
    ensures
        r.1@ == rekeyed(key@, text@),
        r.0@ == (config::ConfigView {
            virtual_keys: cfg@.virtual_keys.push(rekeyed(key@, text@)),
            ..cfg@
        }),
{
    let mut key = key;
    key.key = text;
    let mut c = cfg.copy();
    let ghost was = c.virtual_keys@;
    let added = key.copy();
    c.virtual_keys.push(added);
    assert(config::keys_of(c.virtual_keys@) =~= config::keys_of(was).push(added@));
    (c, key)
}

/// The configuration with one more key, whose text is made up; and that key.
pub fn post_virtual_key(cfg: &AppConfig, key: VirtualKeyConfig) -> (r: (AppConfig, VirtualKeyConfig))
    ensures
        exists|id: Seq<char>|
            {
                &&& ids::is_simple_id(id)
                &&& r.1@ == rekeyed(key@, #[trigger] ids::virtual_key_text(id))
                &&& r.0@ == (config::ConfigView {
                    virtual_keys: cfg@.virtual_keys.push(
                        rekeyed(key@, ids::virtual_key_text(id)),
                    ),
                    ..cfg@
                })
            },
{
    post_virtual_key_with(cfg, key, ids::new_virtual_key())
}

/// The configuration with the settings of a key replaced; its text stays. There is none where the
/// key is not there.
pub fn put_virtual_key(cfg: &AppConfig, index: usize, key: VirtualKeyConfig) -> (r: Option<
    AppConfig,
>)
    ensures
        match r {
            Some(c) => index < cfg@.virtual_keys.len() && c@ == (config::ConfigView {
                virtual_keys: cfg@.virtual_keys.update(
                    index as int,
                    rekeyed(key@, cfg@.virtual_keys[index as int].key),
                ),
                ..cfg@
            }),
            None => index >= cfg@.virtual_keys.len(),
        },
{
    if index >= cfg.virtual_keys.len() {
        return None;
    }
    let mut key = key;
    let mut c = cfg.copy();
    key.key = cfg.virtual_keys[index].key.clone();
    let ghost was = c.virtual_keys@;
    assert(config::keys_of(was).len() == config::keys_of(cfg.virtual_keys@).len());
    c.virtual_keys.set(index, key);
    assert(config::keys_of(c.virtual_keys@) =~= config::keys_of(was).update(index as int, key@));
    Some(c)
}

/// The configuration without a key. There is none where the key is not there.
pub fn delete_virtual_key(cfg: &AppConfig, index: usize) -> (r: Option<AppConfig>)
    ensures
        match r {
            Some(c) => index < cfg@.virtual_keys.len() && c@ == (config::ConfigView {
                virtual_keys: cfg@.virtual_keys.remove(index as int),
                ..cfg@
            }),
            None => index >= cfg@.virtual_keys.len(),
        },
{
    if index >= cfg.virtual_keys.len() {
        return None;
    }
    let mut c = cfg.copy();
    let ghost was = c.virtual_keys@;
    assert(config::keys_of(was).len() == config::keys_of(cfg.virtual_keys@).len());
    let _ = c.virtual_keys.remove(index);
    assert(config::keys_of(c.virtual_keys@) =~= config::keys_of(was).remove(index as int));
    Some(c)
}

/// Changing a key keeps the texts of all keys.
pub proof fn law_changing_a_key_keeps_its_text(
    ks: Seq<config::VirtualKeyView>,
    index: int,
    k: config::VirtualKeyView,
    i: int,
)
    requires
        0 <= index < ks.len(),
        0 <= i < ks.len(),
    ensures
        ks.update(index, rekeyed(k, ks[index].key))[i].key == ks[i].key,
{
}

// ---------------------------------------------------------------------------
// Other settings
// ---------------------------------------------------------------------------

/// The configuration with other prices.
pub fn post_pricing(cfg: &AppConfig, pricing: Json) -> (r: AppConfig)
    ensures
        r@ == (config::ConfigView { pricing: pricing@, ..cfg@ }),
{
    let mut c = cfg.copy();
    c.pricing = pricing;
    c
}

/// The configuration with other limits.
pub fn post_limits(cfg: &AppConfig, limits: Json) -> (r: AppConfig)
    ensures
        r@ == (config::ConfigView { limits: limits@, ..cfg@ }),
{
    let mut c = cfg.copy();
    c.limits = limits;
    c
}

/// The configuration with another place for conversations.
pub fn with_storage(cfg: &AppConfig, storage: ConversationStorage) -> (r: AppConfig)
    ensures
        r@ == (config::ConfigView { conversation_storage: storage@, ..cfg@ }),
{
    let mut c = cfg.copy();
    c.conversation_storage = storage;
    c
}

// ---------------------------------------------------------------------------
// The models that are configured
// ---------------------------------------------------------------------------

/// A model as it is listed for the administrator.
pub open spec fn detected_model(p: config::ProviderView, m: config::ModelView) -> json::JsonView {
    json::JsonView::Object(
        seq![
            ("provider"@, json::JsonView::Text(p.name)),
            ("id"@, json::JsonView::Text(config::upstream_id(m))),
            ("local_alias"@, json::JsonView::Text(m.model_name)),
            ("owned_by"@, json::JsonView::Text(p.name)),
        ],
    )
}

/// The models of all providers, in order.
pub open spec fn detected(ps: Seq<config::ProviderView>) -> Seq<json::JsonView>
    decreases ps.len(),
{
    if ps.len() == 0 {
        Seq::empty()
    } else {
        let p = ps.last();
        detected(ps.drop_last()) + Seq::new(
            p.models.len(),
            |i: int| detected_model(p, p.models[i]),
        )
    }
}

/// The list of models for the administrator.
pub open spec fn detected_form(ps: Seq<config::ProviderView>) -> json::JsonView {
    json::JsonView::Object(
        seq![
            ("models"@, json::JsonView::Array(detected(ps))),
            (
                "count"@,
                json::JsonView::Number(json::Number::Unsigned(detected(ps).len() as u64)),
            ),
            ("errors"@, json::JsonView::Array(Seq::empty())),
        ],
    )
}

fn detect_provider(list: &mut Vec<Json>, p: &ProviderConfig)
    ensures
        json::items(final(list)@) == json::items(old(list)@) + Seq::new(
            p@.models.len(),
            |i: int| detected_model(p@, p@.models[i]),
        ),
{
    let ghost before = json::items(list@);
    let ghost all = Seq::new(p@.models.len(), |i: int| detected_model(p@, p@.models[i]));
    let n: usize = p.models.len();
    assert(before + all.take(0) =~= before);
    for i in 0..n
        invariant
            n == p.models@.len(),
            all == Seq::new(p@.models.len(), |i: int| detected_model(p@, p@.models[i])),
            json::items(list@) == before + all.take(i as int),
    {
        let m = &p.models[i];
        let id = config::upstream_model(m);
        let ms: Vec<Member> = vec![
            named("provider", text_value(p.name.as_str())),
            named("id", Json::Text(id)),
            named("local_alias", text_value(m.model_name.as_str())),
            named("owned_by", text_value(p.name.as_str())),
        ];
        assert(p@.models[i as int] == m@);
        assert(json::members(ms@) =~= detected_model(p@, m@)->Object_0);
        let item = object(ms);
        proof {
            json::lemma_items_push(list@, item);
            assert(before + all.take(i + 1) =~= (before + all.take(i as int)).push(
                all[i as int],
            ));
        }
        list.push(item);
    }
    assert(all.take(n as int) =~= all);
}

/// The list of models for the administrator.
pub fn detect_models(cfg: &AppConfig) -> (r: Json)
    ensures
        r@ == detected_form(cfg@.providers),
{
    let mut list: Vec<Json> = Vec::new();
    let ghost ps = cfg@.providers;
    let n: usize = cfg.providers.len();
    assert(json::items(list@) =~= Seq::empty());
    assert(ps.take(0) =~= Seq::empty());
    for i in 0..n
        invariant
            n == cfg.providers@.len(),
            ps == config::providers_of(cfg.providers@),
            json::items(list@) == detected(ps.take(i as int)),
    {
        detect_provider(&mut list, &cfg.providers[i]);
        assert(ps.take(i + 1).drop_last() =~= ps.take(i as int));
        assert(ps.take(i + 1).last() == cfg.providers@[i as int]@);
    }
    assert(ps.take(n as int) =~= ps);
    let count: u64 = list.len() as u64;
    let none: Vec<Json> = Vec::new();
    assert(json::items(none@) =~= Seq::empty());
    assert(json::items(list@).len() == list@.len());
    let ms: Vec<Member> = vec![
        named("models", array(list)),
        named("count", number_value(count)),
        named("errors", array(none)),
    ];
    assert(json::members(ms@) =~= detected_form(ps)->Object_0);
    object(ms)
}

// ---------------------------------------------------------------------------
// What is promised of the administrator's requests
// ---------------------------------------------------------------------------

/// Another name is not let in, whatever its password; the right name only with a password that the
/// hash belongs to. A session lasts seven days.
pub proof fn law_only_the_administrator_logs_in(
    a: config::AdminView,
    username: Seq<char>,
    password: Seq<char>,
    now: clock::Moment,
    end: i64,
)
    ensures
        username != a.username ==> !is_admin(a, username, password),
        is_admin(a, a.username, password) == password::opens(password, a.password_hash),
        ends_session(now, end) ==> end - now.secs == 7 * 24 * 60 * 60,
{
}

/// A token in the query comes first where it is not blank; else the one behind `Bearer` in the
/// header is shown.
pub proof fn law_token_in_the_query_comes_first(header: Seq<char>, query: Seq<char>)
    ensures
        !text::blank(query) ==> shown_token(Some(header), Some(query)) == Some(query)
            && shown_token(None, Some(query)) == Some(query),
        text::blank(query) ==> shown_token(Some(header), Some(query)) == shown_token(
            Some(header),
            None,
        ),
        shown_token(Some(header), None) == gateway::token_of(Some(header)),
        text::blank(query) ==> shown_token(None, Some(query)) == gateway::token_of(None),
        shown_token(None, None) == gateway::token_of(None),
{
}

/// A new password replaces the hash of the account, and nothing else.
pub proof fn law_new_password_changes_nothing_else(c: config::ConfigView, hash: Seq<char>)
    ensures
        ({
            let d = rehashed(c, hash);
            &&& d.admin.password_hash == hash
            &&& d.admin.username == c.admin.username
            &&& d.providers == c.providers
            &&& d.pricing == c.pricing
            &&& d.limits == c.limits
            &&& d.virtual_keys == c.virtual_keys
            &&& d.router_settings == c.router_settings
            &&& d.litellm_settings == c.litellm_settings
            &&& d.master_key == c.master_key
            &&& d.conversation_storage == c.conversation_storage
        }),
{
}

/// A key that is given its text keeps its other settings.
pub proof fn law_key_keeps_its_settings(k: config::VirtualKeyView, text: Seq<char>)
    ensures
        ({
            let d = rekeyed(k, text);
            &&& d.key == text
            &&& d.name == k.name
            &&& d.enabled == k.enabled
            &&& d.allowed_models == k.allowed_models
            &&& d.budget == k.budget
            &&& d.rpm == k.rpm
            &&& d.expires_at == k.expires_at
        }),
{
}

proof fn lemma_models_before_init(ps: Seq<config::ProviderView>, n: nat)
    requires
        n < ps.len(),
    ensures
        config::models_before(ps.drop_last(), n) == config::models_before(ps, n),
    decreases n,
{
    if n > 0 {
        lemma_models_before_init(ps, (n - 1) as nat);
        assert(ps.drop_last()[n - 1] == ps[n - 1]);
    }
}

proof fn lemma_detected(ps: Seq<config::ProviderView>)
    ensures
        detected(ps).len() == config::models_before(ps, ps.len()),
        forall|i: int, j: int|
            0 <= i < ps.len() && 0 <= j < ps[i].models.len() ==> config::models_before(ps, i as nat)
                + j < detected(ps).len() && detected(ps)[config::models_before(ps, i as nat) + j]
                == detected_model(ps[i], #[trigger] ps[i].models[j]),
    decreases ps.len(),
{
    if ps.len() > 0 {
        let init = ps.drop_last();
        lemma_detected(init);
        lemma_models_before_init(ps, init.len());
        assert forall|i: int, j: int|
            0 <= i < ps.len() && 0 <= j < ps[i].models.len() implies config::models_before(
            ps,
            i as nat,
        ) + j < detected(ps).len() && detected(ps)[config::models_before(ps, i as nat) + j]
            == detected_model(ps[i], #[trigger] ps[i].models[j]) by {
            if i < init.len() {
                lemma_models_before_init(ps, i as nat);
                assert(init[i].models[j] == ps[i].models[j]);
            }
        }
    }
}

/// Each model of each provider is listed for the administrator, in order and nothing else: with its
/// provider's name, its alias, and the name that the provider has for it; and they are counted.
pub proof fn law_administrator_sees_each_model(ps: Seq<config::ProviderView>, i: int, j: int)
    requires
        0 <= i < ps.len(),
        0 <= j < ps[i].models.len(),
    ensures
        match detected_form(ps).at("models"@) {
            Some(json::JsonView::Array(list)) => {
                let x = list[config::models_before(ps, i as nat) + j];
                let m = ps[i].models[j];
                &&& list.len() == config::models_before(ps, ps.len())
                &&& config::models_before(ps, i as nat) + j < list.len()
                &&& x.at("provider"@) == Some(json::JsonView::Text(ps[i].name))
                &&& x.at("owned_by"@) == Some(json::JsonView::Text(ps[i].name))
                &&& x.at("local_alias"@) == Some(json::JsonView::Text(m.model_name))
                &&& m.model_id.len() > 0 ==> x.at("id"@) == Some(json::JsonView::Text(m.model_id))
                &&& m.model_id.len() == 0 ==> x.at("id"@) == Some(
                    json::JsonView::Text(m.model_name),
                )
                &&& detected_form(ps).at("count"@) == Some(
                    json::JsonView::Number(json::Number::Unsigned(list.len() as u64)),
                )
            },
            _ => false,
        },
{
    reveal_with_fuel(json::find_member, 5);
    reveal_strlit("models");
    reveal_strlit("count");
    reveal_strlit("errors");
    reveal_strlit("provider");
    reveal_strlit("id");
    reveal_strlit("local_alias");
    reveal_strlit("owned_by");
    assert("models"@.len() == 6 && "count"@.len() == 5 && "id"@.len() == 2);
    assert("provider"@[0] == 'p' && "owned_by"@[0] == 'o' && "local_alias"@.len() == 11);
    lemma_detected(ps);
    assert(ps[i].models[j] == ps[i].models[j]);
}

} // verus!
