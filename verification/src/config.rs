//! The configuration of the gateway.
use vstd::prelude::*;

use crate::json::{array, named, object, text_value, Json, Member, Number};
use crate::json;
use crate::password;
use crate::paths;
use crate::text;
use crate::weburl;

verus! {

/// The password of the administrator of a new installation.
pub const DEFAULT_ADMIN_PASSWORD: &'static str = "admin123";

/// The key that is allowed everything in a new installation.
pub const DEFAULT_MASTER_KEY: &'static str = "openrelay-master";

/// What the gateway calls itself where a provider names nothing else.
pub const DEFAULT_USER_AGENT: &'static str = "OpenRelay-Gateway/1.0";

/// The hash of the default password that is used where a new one cannot be made.
pub const FALLBACK_PASSWORD_HASH: &'static str =
    "$2a$10$KmfU1Kfs3BFCZ69V3FgJ6uxrzRy1sZmZMwdSlM8wTZNp0zsJLUPZ.";

/// The account of the administrator.
#[derive(Debug)]
pub struct AdminConfig {
    pub username: String,
    pub password_hash: String,
}

/// A model that a provider serves: the name that callers use, and the provider's own name for it
/// (empty where it is the same).
#[derive(Debug)]
pub struct ModelConfig {
    pub model_name: String,
    pub model_id: String,
}

/// An upstream service.
#[derive(Debug)]
pub struct ProviderConfig {
    pub id: String,
    pub name: String,
    pub provider_type: String,
    pub base_url: Option<String>,
    pub api_key: String,
    pub user_agent: Option<String>,
    pub models: Vec<ModelConfig>,
}

/// A key that a caller uses, with what it is allowed.
#[derive(Debug)]
pub struct VirtualKeyConfig {
    pub name: String,
    pub key: String,
    pub enabled: Option<bool>,
    pub allowed_models: Option<Vec<String>>,
    pub budget: Option<Number>,
    pub rpm: Option<u32>,
    pub expires_at: Option<String>,
}

/// Settings of the gateway as a whole.
#[derive(Debug)]
pub struct GeneralSettings {
    pub master_key: Option<String>,
}

/// Whether and where conversations are kept.
#[derive(Debug)]
pub struct ConversationStorage {
    pub enabled: bool,
    pub directory: String,
}

/// The whole configuration.
#[derive(Debug)]
pub struct AppConfig {
    pub admin: AdminConfig,
    pub providers: Vec<ProviderConfig>,
    pub pricing: Json,
    pub limits: Json,
    pub virtual_keys: Vec<VirtualKeyConfig>,
    pub router_settings: Json,
    pub litellm_settings: Json,
    pub general_settings: GeneralSettings,
    pub conversation_storage: ConversationStorage,
}

/// What an [`AdminConfig`] holds.
#[verifier::ext_equal]
pub struct AdminView {
    pub username: Seq<char>,
    pub password_hash: Seq<char>,
}

/// What a [`ModelConfig`] holds.
#[verifier::ext_equal]
pub struct ModelView {
    pub model_name: Seq<char>,
    pub model_id: Seq<char>,
}

/// What a [`ProviderConfig`] holds.
#[verifier::ext_equal]
pub struct ProviderView {
    pub id: Seq<char>,
    pub name: Seq<char>,
    pub provider_type: Seq<char>,
    pub base_url: Option<Seq<char>>,
    pub api_key: Seq<char>,
    pub user_agent: Option<Seq<char>>,
    pub models: Seq<ModelView>,
}

/// What a [`VirtualKeyConfig`] holds.
#[verifier::ext_equal]
pub struct VirtualKeyView {
    pub name: Seq<char>,
    pub key: Seq<char>,
    pub enabled: Option<bool>,
    pub allowed_models: Option<Seq<Seq<char>>>,
    pub budget: Option<Number>,
    pub rpm: Option<u32>,
    pub expires_at: Option<Seq<char>>,
}

/// What a [`ConversationStorage`] holds.
#[verifier::ext_equal]
pub struct StorageView {
    pub enabled: bool,
    pub directory: Seq<char>,
}

/// What an [`AppConfig`] holds.
#[verifier::ext_equal]
pub struct ConfigView {
    pub admin: AdminView,
    pub providers: Seq<ProviderView>,
    pub pricing: json::JsonView,
    pub limits: json::JsonView,
    pub virtual_keys: Seq<VirtualKeyView>,
    pub router_settings: json::JsonView,
    pub litellm_settings: json::JsonView,
    pub master_key: Option<Seq<char>>,
    pub conversation_storage: StorageView,
}

/// The optional list of texts that an optional list of strings holds.
pub open spec fn opt_texts(o: Option<Vec<String>>) -> Option<Seq<Seq<char>>> {
    match o {
        Some(v) => Some(text::texts(v@)),
        None => None,
    }
}

/// What the models of a list hold.
pub open spec fn models_of(v: Seq<ModelConfig>) -> Seq<ModelView> {
    Seq::new(v.len(), |i: int| v[i]@)
}

/// What the providers of a list hold.
pub open spec fn providers_of(v: Seq<ProviderConfig>) -> Seq<ProviderView> {
    Seq::new(v.len(), |i: int| v[i]@)
}

/// What the keys of a list hold.
pub open spec fn keys_of(v: Seq<VirtualKeyConfig>) -> Seq<VirtualKeyView> {
    Seq::new(v.len(), |i: int| v[i]@)
}

impl View for AdminConfig {
    type V = AdminView;

    open spec fn view(&self) -> AdminView {
        AdminView { username: self.username@, password_hash: self.password_hash@ }
    }
}

impl View for ModelConfig {
    type V = ModelView;

    open spec fn view(&self) -> ModelView {
        ModelView { model_name: self.model_name@, model_id: self.model_id@ }
    }
}

impl View for ProviderConfig {
    type V = ProviderView;

    open spec fn view(&self) -> ProviderView {
        ProviderView {
            id: self.id@,
            name: self.name@,
            provider_type: self.provider_type@,
            base_url: text::opt_text(self.base_url),
            api_key: self.api_key@,
            user_agent: text::opt_text(self.user_agent),
            models: models_of(self.models@),
        }
    }
}

impl View for VirtualKeyConfig {
    type V = VirtualKeyView;

    open spec fn view(&self) -> VirtualKeyView {
        VirtualKeyView {
            name: self.name@,
            key: self.key@,
            enabled: self.enabled,
            allowed_models: opt_texts(self.allowed_models),
            budget: self.budget,
            rpm: self.rpm,
            expires_at: text::opt_text(self.expires_at),
        }
    }
}

impl View for ConversationStorage {
    type V = StorageView;

    open spec fn view(&self) -> StorageView {
        StorageView { enabled: self.enabled, directory: self.directory@ }
    }
}

impl View for AppConfig {
    type V = ConfigView;

    open spec fn view(&self) -> ConfigView {
        ConfigView {
            admin: self.admin@,
            providers: providers_of(self.providers@),
            pricing: self.pricing@,
            limits: self.limits@,
            virtual_keys: keys_of(self.virtual_keys@),
            router_settings: self.router_settings@,
            litellm_settings: self.litellm_settings@,
            master_key: text::opt_text(self.general_settings.master_key),
            conversation_storage: self.conversation_storage@,
        }
    }
}

impl AdminConfig {
    /// A copy of this account.
    pub fn copy(&self) -> (r: AdminConfig)
        ensures
            r@ == self@,
    {
        AdminConfig { username: self.username.clone(), password_hash: self.password_hash.clone() }
    }
}

impl ModelConfig {
    /// A copy of this model.
    pub fn copy(&self) -> (r: ModelConfig)
        ensures
            r@ == self@,
    {
        ModelConfig { model_name: self.model_name.clone(), model_id: self.model_id.clone() }
    }
}

impl ProviderConfig {
    /// A copy of this provider.
    pub fn copy(&self) -> (r: ProviderConfig)
        ensures
            r@ == self@,
    {
        let mut models: Vec<ModelConfig> = Vec::new();
        let n: usize = self.models.len();
        for i in 0..n
            invariant
                n == self.models@.len(),
                models@.len() == i,
                forall|j: int| 0 <= j < i ==> (#[trigger] models@[j])@ == self.models@[j]@,
        {
            models.push(self.models[i].copy());
        }
        assert(models_of(models@) =~= models_of(self.models@));
        ProviderConfig {
            id: self.id.clone(),
            name: self.name.clone(),
            provider_type: self.provider_type.clone(),
            base_url: text::copy_opt(&self.base_url),
            api_key: self.api_key.clone(),
            user_agent: text::copy_opt(&self.user_agent),
            models,
        }
    }
}

impl VirtualKeyConfig {
    /// A copy of this key.
    pub fn copy(&self) -> (r: VirtualKeyConfig)
        ensures
            r@ == self@,
    {
        let allowed_models = match &self.allowed_models {
            Some(list) => Some(text::copy_texts(list)),
            None => None,
        };
        VirtualKeyConfig {
            name: self.name.clone(),
            key: self.key.clone(),
            enabled: self.enabled,
            allowed_models,
            budget: self.budget,
            rpm: self.rpm,
            expires_at: text::copy_opt(&self.expires_at),
        }
    }
}

/// A copy of the list of providers.
pub fn copy_providers(list: &Vec<ProviderConfig>) -> (r: Vec<ProviderConfig>)
    ensures
        providers_of(r@) == providers_of(list@),
{
    let mut out: Vec<ProviderConfig> = Vec::new();
    let n: usize = list.len();
    for i in 0..n
        invariant
            n == list@.len(),
            out@.len() == i,
            forall|j: int| 0 <= j < i ==> (#[trigger] out@[j])@ == list@[j]@,
    {
        out.push(list[i].copy());
    }
    assert(providers_of(out@) =~= providers_of(list@));
    out
}

/// A copy of the list of keys.
pub fn copy_keys(list: &Vec<VirtualKeyConfig>) -> (r: Vec<VirtualKeyConfig>)
    ensures
        keys_of(r@) == keys_of(list@),
{
    let mut out: Vec<VirtualKeyConfig> = Vec::new();
    let n: usize = list.len();
    for i in 0..n
        invariant
            n == list@.len(),
            out@.len() == i,
            forall|j: int| 0 <= j < i ==> (#[trigger] out@[j])@ == list@[j]@,
    {
        out.push(list[i].copy());
    }
    assert(keys_of(out@) =~= keys_of(list@));
    out
}

impl AppConfig {
    /// A copy of this configuration.
    pub fn copy(&self) -> (r: AppConfig)
        ensures
            r@ == self@,
    {
        AppConfig {
            admin: self.admin.copy(),
            providers: copy_providers(&self.providers),
            pricing: self.pricing.copy(),
            limits: self.limits.copy(),
            virtual_keys: copy_keys(&self.virtual_keys),
            router_settings: self.router_settings.copy(),
            litellm_settings: self.litellm_settings.copy(),
            general_settings: GeneralSettings {
                master_key: text::copy_opt(&self.general_settings.master_key),
            },
            conversation_storage: ConversationStorage {
                enabled: self.conversation_storage.enabled,
                directory: self.conversation_storage.directory.clone(),
            },
        }
    }
}

// ---------------------------------------------------------------------------
// Defaults
// ---------------------------------------------------------------------------

/// The account of a new installation, given what came of the hashing of the default password: the
/// fixed hash stands in only where that failed.
pub open spec fn default_account(hashed: Result<Seq<char>, Seq<char>>) -> AdminView {
    AdminView {
        username: "admin"@,
        password_hash: match hashed {
            Ok(h) => h,
            Err(_) => FALLBACK_PASSWORD_HASH@,
        },
    }
}

/// Whether something can come of the hashing of the default password: a failure, or a hash that the
/// default password opens.
pub open spec fn is_default_hashing(hashed: Result<Seq<char>, Seq<char>>) -> bool {
    hashed matches Ok(h) ==> password::opens(DEFAULT_ADMIN_PASSWORD@, h)
}

/// Whether an account is that of a new installation, made of what came of hashing the default
/// password.
pub open spec fn is_default_admin(a: AdminView) -> bool {
    exists|hashed: Result<Seq<char>, Seq<char>>| #[trigger]
        is_default_hashing(hashed) && a == default_account(hashed)
}

/// The account of a new installation, given what came of the hashing of the default password.
pub fn admin_with(hashed: Result<String, String>) -> (r: AdminConfig)
    ensures
        r@ == default_account(weburl::result_text(hashed)),
{
    let password_hash = match hashed {
        Ok(h) => h,
        Err(_) => FALLBACK_PASSWORD_HASH.to_owned(),
    };
    AdminConfig { username: "admin".to_owned(), password_hash }
}

/// The configuration of a new installation, but for its account.
pub open spec fn default_config(admin: AdminView) -> ConfigView {
    ConfigView {
        admin,
        providers: Seq::empty(),
        pricing: json::JsonView::Object(Seq::empty()),
        limits: json::JsonView::Object(Seq::empty()),
        virtual_keys: Seq::empty(),
        router_settings: json::JsonView::Object(
            seq![("timeout"@, json::JsonView::Number(Number::Unsigned(60)))],
        ),
        litellm_settings: json::JsonView::Object(
            seq![
                ("drop_params"@, json::JsonView::Bool(true)),
                ("allowed_headers"@, json::JsonView::Array(seq![json::JsonView::Text("*"@)])),
            ],
        ),
        master_key: Some(DEFAULT_MASTER_KEY@),
        conversation_storage: StorageView { enabled: false, directory: Seq::empty() },
    }
}

impl Default for AdminConfig {
    fn default() -> (r: AdminConfig)
        ensures
            is_default_admin(r@),
    {
        let hashed = password::hash_password(DEFAULT_ADMIN_PASSWORD);
        assert(is_default_hashing(weburl::result_text(hashed)));
        admin_with(hashed)
    }
}

impl Default for GeneralSettings {
    fn default() -> (r: GeneralSettings)
        ensures
            text::opt_text(r.master_key) == Some(DEFAULT_MASTER_KEY@),
    {
        GeneralSettings { master_key: Some(DEFAULT_MASTER_KEY.to_owned()) }
    }
}

impl Default for ConversationStorage {
    fn default() -> (r: ConversationStorage)
        ensures
            r@ == (StorageView { enabled: false, directory: Seq::empty() }),
    {
        ConversationStorage { enabled: false, directory: String::new() }
    }
}

impl Default for ModelConfig {
    fn default() -> (r: ModelConfig)
        ensures
            r@ == (ModelView { model_name: Seq::empty(), model_id: Seq::empty() }),
    {
        ModelConfig { model_name: String::new(), model_id: String::new() }
    }
}

impl Default for VirtualKeyConfig {
    fn default() -> (r: VirtualKeyConfig)
        ensures
            r@ == (VirtualKeyView {
                name: Seq::empty(),
                key: Seq::empty(),
                enabled: None,
                allowed_models: None,
                budget: None,
                rpm: None,
                expires_at: None,
            }),
    {
        VirtualKeyConfig {
            name: String::new(),
            key: String::new(),
            enabled: None,
            allowed_models: None,
            budget: None,
            rpm: None,
            expires_at: None,
        }
    }
}

/// The configuration of a new installation with the given account.
pub fn config_with(admin: AdminConfig) -> (r: AppConfig)
    ensures
        r@ == default_config(admin@),
{
    let ghost admin_view = admin@;
    let headers: Vec<Json> = vec![text_value("*")];
    let router: Vec<Member> = vec![named("timeout", json::number_value(60))];
    proof {
        assert(json::items(headers@) =~= seq![json::JsonView::Text("*"@)]);
        assert(json::members(router@) =~= seq![
            ("timeout"@, json::JsonView::Number(Number::Unsigned(60))),
        ]);
    }
    let litellm: Vec<Member> = vec![
        named("drop_params", Json::Bool(true)),
        named("allowed_headers", array(headers)),
    ];
    let empty: Vec<Member> = Vec::new();
    let none: Vec<Member> = Vec::new();
    proof {
        assert(json::members(litellm@) =~= seq![
            ("drop_params"@, json::JsonView::Bool(true)),
            ("allowed_headers"@, json::JsonView::Array(seq![json::JsonView::Text("*"@)])),
        ]);
        assert(json::members(empty@) =~= Seq::empty());
        assert(json::members(none@) =~= Seq::empty());
    }
    let r = AppConfig {
        admin,
        providers: Vec::new(),
        pricing: object(empty),
        limits: object(none),
        virtual_keys: Vec::new(),
        router_settings: object(router),
        litellm_settings: object(litellm),
        general_settings: GeneralSettings::default(),
        conversation_storage: ConversationStorage::default(),
    };
    assert(r@ =~= default_config(admin_view));
    r
}

impl Default for AppConfig {
    fn default() -> (r: AppConfig)
        ensures
            is_default_admin(r@.admin),
            r@ == default_config(r@.admin),
    {
        config_with(AdminConfig::default())
    }
}

/// The type of a provider whose configuration names none.
pub fn default_provider_type() -> (r: String)
    ensures
        r@ == "openai"@,
{
    "openai".to_owned()
}

// ---------------------------------------------------------------------------
// Files
// ---------------------------------------------------------------------------

/// Where the configuration is stored.
pub fn config_path(root: &str) -> (r: paths::FilePath)
    ensures
        r@ == paths::below(root@, "config.json"@),
{
    paths::child(root, "config.json")
}

/// Where the flat form of the configuration is stored.
pub fn yaml_path(root: &str) -> (r: paths::FilePath)
    ensures
        r@ == paths::below(root@, "openrelay-config.yaml"@),
{
    paths::child(root, "openrelay-config.yaml")
}

/// The configuration with the default master key where it has none.
pub open spec fn with_master_key(c: ConfigView) -> ConfigView {
    ConfigView {
        master_key: match c.master_key {
            Some(k) => Some(k),
            None => Some(DEFAULT_MASTER_KEY@),
        },
        ..c
    }
}

/// The configuration that is used, given the one that the file holds: a missing master key is the
/// default one.
pub fn load_config(stored: AppConfig) -> (r: AppConfig)
    ensures
        r@ == with_master_key(stored@),
{
    let mut cfg = stored;
    if cfg.general_settings.master_key.is_none() {
        cfg.general_settings.master_key = Some(DEFAULT_MASTER_KEY.to_owned());
    }
    cfg
}

/// What is written when the gateway starts, given the configuration that the file holds (`None`
/// where there is no such file) and whether the flat form is there: the default configuration in a
/// new installation, the loaded one where only the flat form is missing, else nothing.
pub fn ensure_files(stored: Option<AppConfig>, yaml_exists: bool) -> (r: Option<AppConfig>)
    ensures
        match stored {
            None => match r {
                Some(cfg) => is_default_admin(cfg@.admin) && cfg@ == default_config(cfg@.admin),
                None => false,
            },
            Some(old_cfg) => match r {
                Some(cfg) => !yaml_exists && cfg@ == with_master_key(old_cfg@),
                None => yaml_exists,
            },
        },
{
    match stored {
        None => Some(AppConfig::default()),
        Some(old_cfg) => {
            let cfg = load_config(old_cfg);
            if yaml_exists {
                None
            } else {
                Some(cfg)
            }
        },
    }
}

// ---------------------------------------------------------------------------
// The flat form
// ---------------------------------------------------------------------------

/// The provider's own name for a model.
pub open spec fn upstream_id(m: ModelView) -> Seq<char> {
    if m.model_id.len() == 0 {
        m.model_name
    } else {
        m.model_id
    }
}

/// The provider's own name for a model.
pub fn upstream_model(m: &ModelConfig) -> (r: String)
    ensures
        r@ == upstream_id(m@),
{
    if m.model_id.as_str().is_empty() {
        m.model_name.clone()
    } else {
        m.model_id.clone()
    }
}

/// The family of interfaces that a type of provider belongs to, as the flat form names it.
pub open spec fn yaml_prefix(provider_type: Seq<char>) -> Seq<char> {
    if provider_type == "gemini"@ {
        "gemini"@
    } else if provider_type == "anthropic"@ {
        "anthropic"@
    } else {
        "openai"@
    }
}

/// The optional text, or `other` where there is none.
pub open spec fn or_text(o: Option<Seq<char>>, other: Seq<char>) -> Seq<char> {
    match o {
        Some(s) => s,
        None => other,
    }
}

/// The parameters of a model in the flat form.
pub open spec fn yaml_params(p: ProviderView, m: ModelView) -> Seq<(Seq<char>, json::JsonView)> {
    let common = seq![
        ("model"@, json::JsonView::Text(yaml_prefix(p.provider_type) + "/"@ + upstream_id(m))),
        ("api_key"@, json::JsonView::Text(p.api_key)),
        (
            "extra_headers"@,
            json::JsonView::Object(
                seq![
                    (
                        "User-Agent"@,
                        json::JsonView::Text(or_text(p.user_agent, DEFAULT_USER_AGENT@)),
                    ),
                ],
            ),
        ),
    ];
    match p.base_url {
        Some(url) => common.push(("api_base"@, json::JsonView::Text(url))),
        None => common,
    }
}

/// A model in the flat form.
pub open spec fn yaml_model(p: ProviderView, m: ModelView) -> json::JsonView {
    json::JsonView::Object(
        seq![
            ("model_name"@, json::JsonView::Text(m.model_name)),
            ("litellm_params"@, json::JsonView::Object(yaml_params(p, m))),
        ],
    )
}

/// The models of a provider in the flat form, in order.
pub open spec fn yaml_models(p: ProviderView, n: nat) -> Seq<json::JsonView> {
    Seq::new(n, |i: int| yaml_model(p, p.models[i]))
}

/// The models of all providers in the flat form: the providers in order, and the models of each in
/// order.
pub open spec fn yaml_model_list(ps: Seq<ProviderView>) -> Seq<json::JsonView>
    decreases ps.len(),
{
    if ps.len() == 0 {
        Seq::empty()
    } else {
        yaml_model_list(ps.drop_last()) + yaml_models(ps.last(), ps.last().models.len())
    }
}

/// The flat form of a configuration.
pub open spec fn flat_form(c: ConfigView) -> json::JsonView {
    json::JsonView::Object(
        seq![
            ("router_settings"@, c.router_settings),
            ("litellm_settings"@, c.litellm_settings),
            (
                "general_settings"@,
                json::JsonView::Object(
                    seq![
                        (
                            "master_key"@,
                            match c.master_key {
                                Some(k) => json::JsonView::Text(k),
                                None => json::JsonView::Null,
                            },
                        ),
                    ],
                ),
            ),
            ("model_list"@, json::JsonView::Array(yaml_model_list(c.providers))),
        ],
    )
}

fn flat_model(p: &ProviderConfig, m: &ModelConfig) -> (r: Json)
    ensures
        r@ == yaml_model(p@, m@),
{
    let prefix = if text::same(p.provider_type.as_str(), "gemini") {
        "gemini"
    } else if text::same(p.provider_type.as_str(), "anthropic") {
        "anthropic"
    } else {
        "openai"
    };
    let agent = match &p.user_agent {
        Some(a) => a.as_str(),
        None => DEFAULT_USER_AGENT,
    };
    let headers: Vec<Member> = vec![named("User-Agent", text_value(agent))];
    proof {
        assert(json::members(headers@) =~= seq![
            (
                "User-Agent"@,
                json::JsonView::Text(or_text(p@.user_agent, DEFAULT_USER_AGENT@)),
            ),
        ]);
    }
    let id = upstream_model(m);
    let model = text::cat3(prefix, "/", id.as_str());
    let mut params: Vec<Member> = vec![
        named("model", Json::Text(model)),
        named("api_key", text_value(p.api_key.as_str())),
        named("extra_headers", object(headers)),
    ];
    if let Some(url) = &p.base_url {
        params.push(named("api_base", text_value(url.as_str())));
    }
    assert(json::members(params@) =~= yaml_params(p@, m@));
    let out: Vec<Member> = vec![
        named("model_name", text_value(m.model_name.as_str())),
        named("litellm_params", object(params)),
    ];
    assert(json::members(out@) =~= seq![
        ("model_name"@, json::JsonView::Text(m@.model_name)),
        ("litellm_params"@, json::JsonView::Object(yaml_params(p@, m@))),
    ]);
    object(out)
}

/// The flat form of a configuration, which other tools read.
pub fn flatten_for_yaml(cfg: &AppConfig) -> (r: Json)
    ensures
        r@ == flat_form(cfg@),
{
    let mut list: Vec<Json> = Vec::new();
    let ghost ps = cfg@.providers;
    let n: usize = cfg.providers.len();
    assert(json::items(list@) =~= Seq::empty());
    assert(ps.take(0) =~= Seq::empty());
    for i in 0..n
        invariant
            n == cfg.providers@.len(),
            ps == providers_of(cfg.providers@),
            json::items(list@) == yaml_model_list(ps.take(i as int)),
    {
        let p = &cfg.providers[i];
        let ghost before = json::items(list@);
        let k: usize = p.models.len();
        assert(before + yaml_models(p@, 0) =~= before);
        for j in 0..k
            invariant
                k == p.models@.len(),
                json::items(list@) == before + yaml_models(p@, j as nat),
        {
            let item = flat_model(p, &p.models[j]);
            proof {
                json::lemma_items_push(list@, item);
                assert(p@.models[j as int] == p.models@[j as int]@);
                assert(before + yaml_models(p@, (j + 1) as nat) =~= (before + yaml_models(
                    p@,
                    j as nat,
                )).push(item@));
            }
            list.push(item);
        }
        assert(ps.take(i + 1).drop_last() =~= ps.take(i as int));
        assert(ps.take(i + 1).last() == p@);
    }
    assert(ps.take(n as int) =~= ps);
    let general: Vec<Member> = vec![
        named(
            "master_key",
            match &cfg.general_settings.master_key {
                Some(k) => text_value(k.as_str()),
                None => Json::Null,
            },
        ),
    ];
    assert(json::members(general@) =~= seq![
        (
            "master_key"@,
            match cfg@.master_key {
                Some(k) => json::JsonView::Text(k),
                None => json::JsonView::Null,
            },
        ),
    ]);
    let out: Vec<Member> = vec![
        named("router_settings", cfg.router_settings.copy()),
        named("litellm_settings", cfg.litellm_settings.copy()),
        named("general_settings", object(general)),
        named("model_list", array(list)),
    ];
    assert(json::members(out@) =~= flat_form(cfg@)->Object_0);
    object(out)
}

// ---------------------------------------------------------------------------
// What is promised of configurations
// ---------------------------------------------------------------------------

/// A new installation has the account `admin` and the default master key; no providers, no keys, no
/// prices and no limits; a time limit of sixty seconds, and no conversations are kept.
pub proof fn law_new_installation_is_empty(hash: Seq<char>, e: Seq<char>)
    ensures
        ({
            let c = default_config(default_account(Ok(hash)));
            &&& c.admin.username == "admin"@
            &&& c.admin.password_hash == hash
            &&& c.master_key == Some("openrelay-master"@)
            &&& c.providers.len() == 0
            &&& c.virtual_keys.len() == 0
            &&& c.pricing == json::JsonView::Object(Seq::empty())
            &&& c.limits == json::JsonView::Object(Seq::empty())
            &&& c.router_settings.at("timeout"@) == Some(
                json::JsonView::Number(Number::Unsigned(60)),
            )
            &&& c.litellm_settings.at("drop_params"@) == Some(json::JsonView::Bool(true))
            &&& c.litellm_settings.at("allowed_headers"@) == Some(
                json::JsonView::Array(seq![json::JsonView::Text("*"@)]),
            )
            &&& !c.conversation_storage.enabled
            &&& c.conversation_storage.directory.len() == 0
        }),
        default_account(Err(e)).username == "admin"@,
        default_account(Err(e)).password_hash == FALLBACK_PASSWORD_HASH@,
{
    reveal_with_fuel(json::find_member, 3);
    reveal_strlit("drop_params");
    reveal_strlit("allowed_headers");
    assert("drop_params"@.len() == 11 && "allowed_headers"@.len() == 15);
}

/// A configuration without a master key has the default one; nothing else changes, and a master key
/// that is there stays.
pub proof fn law_missing_master_key_is_the_default(c: ConfigView)
    ensures
        c.master_key is None ==> with_master_key(c).master_key == Some("openrelay-master"@),
        c.master_key is Some ==> with_master_key(c) == c,
        with_master_key(c) == (ConfigView { master_key: with_master_key(c).master_key, ..c }),
{
}

/// A provider has a model under its own name for it, and where it has none under the alias.
pub proof fn law_model_has_a_name_at_its_provider(m: ModelView)
    ensures
        m.model_id.len() > 0 ==> upstream_id(m) == m.model_id,
        m.model_id.len() == 0 ==> upstream_id(m) == m.model_name,
{
}

/// How many models the first `n` providers have.
pub open spec fn models_before(ps: Seq<ProviderView>, n: nat) -> nat
    decreases n,
{
    if n == 0 {
        0
    } else {
        models_before(ps, (n - 1) as nat) + ps[n - 1].models.len()
    }
}

proof fn lemma_models_before_prefix(ps: Seq<ProviderView>, n: nat)
    requires
        n < ps.len(),
    ensures
        models_before(ps.drop_last(), n) == models_before(ps, n),
    decreases n,
{
    if n > 0 {
        lemma_models_before_prefix(ps, (n - 1) as nat);
        assert(ps.drop_last()[n - 1] == ps[n - 1]);
    }
}

proof fn lemma_yaml_model_at(ps: Seq<ProviderView>, i: int, j: int)
    requires
        0 <= i < ps.len(),
        0 <= j < ps[i].models.len(),
    ensures
        models_before(ps, i as nat) + j < yaml_model_list(ps).len(),
        yaml_model_list(ps)[models_before(ps, i as nat) + j] == yaml_model(ps[i], ps[i].models[j]),
    decreases ps.len(),
{
    let init = ps.drop_last();
    lemma_yaml_model_count(init);
    lemma_models_before_prefix_all(ps);
    if i < init.len() {
        lemma_models_before_prefix(ps, i as nat);
        lemma_yaml_model_at(init, i, j);
    }
}

proof fn lemma_models_before_prefix_all(ps: Seq<ProviderView>)
    requires
        ps.len() > 0,
    ensures
        models_before(ps.drop_last(), (ps.len() - 1) as nat) == models_before(
            ps,
            (ps.len() - 1) as nat,
        ),
{
    lemma_models_before_prefix(ps, (ps.len() - 1) as nat);
}

proof fn lemma_yaml_model_count(ps: Seq<ProviderView>)
    ensures
        yaml_model_list(ps).len() == models_before(ps, ps.len()),
    decreases ps.len(),
{
    if ps.len() > 0 {
        lemma_yaml_model_count(ps.drop_last());
        lemma_models_before_prefix_all(ps);
    }
}

/// The flat form lists each model of each provider, in order and nothing else: under its alias, with
/// the provider's key and address, the name that the provider has for it behind the family of its
/// interface, and the user agent of the provider, which is the gateway's where it names none.
pub proof fn law_flat_form_lists_each_model(c: ConfigView, i: int, j: int)
    requires
        0 <= i < c.providers.len(),
        0 <= j < c.providers[i].models.len(),
    ensures
        match flat_form(c).at("model_list"@) {
            Some(json::JsonView::Array(list)) => {
                let p = c.providers[i];
                let m = p.models[j];
                let x = list[models_before(c.providers, i as nat) + j];
                let model = if m.model_id.len() > 0 {
                    m.model_id
                } else {
                    m.model_name
                };
                &&& list.len() == models_before(c.providers, c.providers.len())
                &&& models_before(c.providers, i as nat) + j < list.len()
                &&& x.at("model_name"@) == Some(json::JsonView::Text(m.model_name))
                &&& match x.at("litellm_params"@) {
                    Some(params) => {
                        &&& p.provider_type == "gemini"@ ==> params.at("model"@) == Some(
                            json::JsonView::Text("gemini"@ + "/"@ + model),
                        )
                        &&& p.provider_type == "anthropic"@ ==> params.at("model"@) == Some(
                            json::JsonView::Text("anthropic"@ + "/"@ + model),
                        )
                        &&& p.provider_type != "gemini"@ && p.provider_type != "anthropic"@
                            ==> params.at("model"@) == Some(
                            json::JsonView::Text("openai"@ + "/"@ + model),
                        )
                        &&& params.at("api_key"@) == Some(json::JsonView::Text(p.api_key))
                        &&& p.user_agent is Some ==> params.at2("extra_headers"@, "User-Agent"@)
                            == Some(json::JsonView::Text(p.user_agent->0))
                        &&& p.user_agent is None ==> params.at2("extra_headers"@, "User-Agent"@)
                            == Some(json::JsonView::Text("OpenRelay-Gateway/1.0"@))
                        &&& p.base_url is Some ==> params.at("api_base"@) == Some(
                            json::JsonView::Text(p.base_url->0),
                        )
                        &&& p.base_url is None ==> params.at("api_base"@) is None
                    },
                    None => false,
                }
            },
            _ => false,
        },
{
    reveal_with_fuel(json::find_member, 5);
    reveal_strlit("model");
    reveal_strlit("api_key");
    reveal_strlit("extra_headers");
    reveal_strlit("api_base");
    reveal_strlit("model_name");
    reveal_strlit("litellm_params");
    reveal_strlit("anthropic");
    reveal_strlit("gemini");
    reveal_strlit("router_settings");
    reveal_strlit("litellm_settings");
    reveal_strlit("general_settings");
    reveal_strlit("model_list");
    assert("model"@.len() == 5 && "api_key"@.len() == 7 && "extra_headers"@.len() == 13
        && "api_base"@.len() == 8 && "model_name"@.len() == 10 && "litellm_params"@.len() == 14);
    assert("router_settings"@.len() == 15 && "litellm_settings"@.len() == 16
        && "general_settings"@.len() == 16 && "model_list"@.len() == 10);
    assert("anthropic"@.len() == 9 && "gemini"@.len() == 6);
    lemma_yaml_model_count(c.providers);
    lemma_yaml_model_at(c.providers, i, j);
}

/// The flat form has the settings of the configuration, and its master key.
pub proof fn law_flat_form_keeps_the_settings(c: ConfigView)
    ensures
        flat_form(c).at("router_settings"@) == Some(c.router_settings),
        flat_form(c).at("litellm_settings"@) == Some(c.litellm_settings),
        c.master_key is Some ==> flat_form(c).at2("general_settings"@, "master_key"@) == Some(
            json::JsonView::Text(c.master_key->0),
        ),
        c.master_key is None ==> flat_form(c).at2("general_settings"@, "master_key"@) == Some(
            json::JsonView::Null,
        ),
{
    reveal_with_fuel(json::find_member, 4);
    reveal_strlit("router_settings");
    reveal_strlit("litellm_settings");
    reveal_strlit("general_settings");
    assert("router_settings"@.len() == 15 && "litellm_settings"@.len() == 16);
    assert("litellm_settings"@[0] == 'l' && "general_settings"@[0] == 'g');
}

/// What is there comes before what stands in for it.
pub proof fn law_what_is_there_counts(s: Seq<char>, other: Seq<char>)
    ensures
        or_text(Some(s), other) == s,
        or_text(None, other) == other,
        text::or_empty(Some(s)) == s,
        text::or_empty(None).len() == 0,
{
}

} // verus!
