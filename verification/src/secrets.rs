//! How secrets are stored and shown, and what is unsafe about a configuration.
use vstd::prelude::*;

use crate::config;
use crate::config::{AppConfig, ProviderConfig};
use crate::decimal;
use crate::hexcode;
use crate::password;
use crate::paths;
use crate::text;

verus! {

/// What a key that is stored in protected form begins with.
pub const PROTECTED_PREFIX: &'static str = "protected:dpapi:";

/// What is reported once the keys were protected, or could not be.
#[derive(Debug)]
pub struct SecretProtectionResult {
    pub supported: bool,
    pub enabled: bool,
    pub protected_count: usize,
    pub message: String,
}

/// Something that is unsafe.
#[derive(Debug)]
pub struct SecurityFinding {
    pub severity: String,
    pub code: String,
    pub path: String,
    pub message: String,
}

/// What a [`SecurityFinding`] holds.
#[verifier::ext_equal]
pub struct FindingView {
    pub severity: Seq<char>,
    pub code: Seq<char>,
    pub path: Seq<char>,
    pub message: Seq<char>,
}

impl View for SecurityFinding {
    type V = FindingView;

    open spec fn view(&self) -> FindingView {
        FindingView {
            severity: self.severity@,
            code: self.code@,
            path: self.path@,
            message: self.message@,
        }
    }
}

/// What the findings of a list hold.
pub open spec fn findings_of(v: Seq<SecurityFinding>) -> Seq<FindingView> {
    Seq::new(v.len(), |i: int| v[i]@)
}

/// Why a protected key could not be read.
#[derive(Clone, Copy, Debug, PartialEq, Eq, Structural)]
pub enum SecretFault {
    /// It is not in protected form.
    NotProtected,
    /// What follows the prefix is not hexadecimal text.
    BadEncoding,
}

impl SecretFault {
    /// The fault in words.
    pub fn message(&self) -> (r: String)
        ensures
            r@ == (match self {
                SecretFault::NotProtected => "invalid protected secret"@,
                SecretFault::BadEncoding => "invalid protected secret encoding"@,
            }),
    {
        match self {
            SecretFault::NotProtected => "invalid protected secret".to_owned(),
            SecretFault::BadEncoding => "invalid protected secret encoding".to_owned(),
        }
    }
}

// ---------------------------------------------------------------------------
// Protected keys
// ---------------------------------------------------------------------------

/// Whether keys can be protected: Windows alone has the means.
pub fn secrets_supported(on_windows: bool) -> (r: bool)
    ensures
        r == on_windows,
{
    on_windows
}

/// Whether a key is in protected form.
pub open spec fn is_protected(value: Seq<char>) -> bool {
    text::begins(value, PROTECTED_PREFIX@)
}

/// Whether the key is in protected form.
pub fn is_protected_secret(value: &str) -> (r: bool)
    ensures
        r == is_protected(value@),
{
    text::starts_with(value, PROTECTED_PREFIX)
}

/// Where it is noted that keys are to be protected.
pub fn protection_marker_path(root: &str) -> (r: paths::FilePath)
    ensures
        r@ == paths::below(root@, ".secret-protection"@),
{
    paths::child(root, ".secret-protection")
}

/// Whether keys are protected, given whether the note is there.
pub fn protection_enabled(on_windows: bool, marker_exists: bool) -> (r: bool)
    ensures
        r == (on_windows && marker_exists),
{
    secrets_supported(on_windows) && marker_exists
}

/// Whether a key is the name of a variable of the environment.
pub open spec fn is_reference(value: Seq<char>) -> bool {
    text::begins(value, "os.environ/"@)
}

/// Whether the key is the name of a variable of the environment.
pub fn is_env_reference(value: &str) -> (r: bool)
    ensures
        r == is_reference(value@),
{
    text::starts_with(value, "os.environ/")
}

/// Whether a key is to be protected: there is one, and it is neither the name of a variable nor in
/// protected form.
pub open spec fn is_protectable(value: Seq<char>) -> bool {
    let v = text::trimmed(value);
    v.len() > 0 && !is_reference(v) && !is_protected(v)
}

/// Whether the key is to be protected.
pub fn should_protect_value(value: &str) -> (r: bool)
    ensures
        r == is_protectable(value@),
{
    let v = text::trim(value);
    !v.as_str().is_empty() && !is_env_reference(v.as_str()) && !is_protected_secret(v.as_str())
}

/// Some encrypted bytes as a key in protected form.
pub open spec fn sealed(bytes: Seq<u8>) -> Seq<char> {
    PROTECTED_PREFIX@ + hexcode::hex_text(bytes)
}

/// The encrypted bytes of a key in protected form.
pub open spec fn unsealed(value: Seq<char>) -> Result<Seq<u8>, SecretFault> {
    match text::after_prefix(value, PROTECTED_PREFIX@) {
        Some(rest) => match hexcode::hex_bytes(rest) {
            Some(bytes) => Ok(bytes),
            None => Err(SecretFault::BadEncoding),
        },
        None => Err(SecretFault::NotProtected),
    }
}

/// The encrypted bytes as a key in protected form.
pub fn protect_secret(encrypted: &Vec<u8>) -> (r: String)
    ensures
        r@ == sealed(encrypted@),
{
    let hex = hexcode::hex_encode(encrypted);
    text::cat(PROTECTED_PREFIX, hex.as_str())
}

/// The encrypted bytes of the key in protected form.
pub fn unprotect_secret(value: &str) -> (r: Result<Vec<u8>, SecretFault>)
    ensures
        match r {
            Ok(bytes) => unsealed(value@) == Ok::<Seq<u8>, SecretFault>(bytes@),
            Err(e) => unsealed(value@) == Err::<Seq<u8>, SecretFault>(e),
        },
{
    match text::strip_prefix(value, PROTECTED_PREFIX) {
        Some(rest) => match hexcode::hex_decode(rest.as_str()) {
            Some(bytes) => Ok(bytes),
            None => Err(SecretFault::BadEncoding),
        },
        None => Err(SecretFault::NotProtected),
    }
}

/// What was put in protected form is read back from it.
pub proof fn law_protected_secret_reads_back(encrypted: Seq<u8>)
    ensures
        unsealed(sealed(encrypted)) == Ok::<Seq<u8>, SecretFault>(encrypted),
        is_protected(sealed(encrypted)),
{
    let p = PROTECTED_PREFIX@;
    let s = sealed(encrypted);
    assert(s.take(p.len() as int) =~= p);
    assert(s.skip(p.len() as int) =~= hexcode::hex_text(encrypted));
    hexcode::law_hex_reads_back(encrypted);
}

/// A key in protected form is not protected again.
pub proof fn law_sealed_is_not_protectable(encrypted: Seq<u8>)
    ensures
        !is_protectable(sealed(encrypted)),
{
    let s = sealed(encrypted);
    reveal_strlit("protected:dpapi:");
    law_protected_secret_reads_back(encrypted);
    if encrypted.len() > 0 {
        let h = hexcode::hex_text(encrypted);
        let last = h[2 * encrypted.len() - 1];
        assert(last == hexcode::hex_char(encrypted, 2 * encrypted.len() - 1));
        assert(s.last() == last);
    } else {
        assert(s =~= PROTECTED_PREFIX@);
    }
    text::lemma_trimmed_same(s);
}

// ---------------------------------------------------------------------------
// The keys of a configuration
// ---------------------------------------------------------------------------

/// The keys that are replaced when a configuration is stored (`opening` is false) or loaded
/// (`opening` is true).
pub open spec fn is_replaced(p: config::ProviderView, opening: bool) -> bool {
    if opening {
        is_protected(p.api_key)
    } else {
        is_protectable(p.api_key)
    }
}

/// The keys that are replaced, in the order of their providers.
pub open spec fn replaced_keys(ps: Seq<config::ProviderView>, opening: bool) -> Seq<Seq<char>>
    decreases ps.len(),
{
    if ps.len() == 0 {
        Seq::empty()
    } else if is_replaced(ps.last(), opening) {
        replaced_keys(ps.drop_last(), opening).push(ps.last().api_key)
    } else {
        replaced_keys(ps.drop_last(), opening)
    }
}

/// The providers with their keys replaced by the given ones, in order.
pub open spec fn rekeyed(
    ps: Seq<config::ProviderView>,
    opening: bool,
    keys: Seq<Seq<char>>,
) -> Seq<config::ProviderView>
    decreases ps.len(),
{
    if ps.len() == 0 {
        Seq::empty()
    } else {
        let init = ps.drop_last();
        let p = ps.last();
        if is_replaced(p, opening) {
            rekeyed(init, opening, keys).push(
                config::ProviderView { api_key: keys[replaced_keys(init, opening).len() as int], ..p },
            )
        } else {
            rekeyed(init, opening, keys).push(p)
        }
    }
}

fn replaced(p: &ProviderConfig, opening: bool) -> (r: bool)
    ensures
        r == is_replaced(p@, opening),
{
    if opening {
        is_protected_secret(p.api_key.as_str())
    } else {
        should_protect_value(p.api_key.as_str())
    }
}

/// The keys that are replaced when a configuration is stored or loaded, in the order of their
/// providers.
pub fn keys_to_replace(cfg: &AppConfig, opening: bool) -> (r: Vec<String>)
    ensures
        text::texts(r@) == replaced_keys(cfg@.providers, opening),
{
    let mut out: Vec<String> = Vec::new();
    let ghost ps = cfg@.providers;
    let n: usize = cfg.providers.len();
    assert(text::texts(out@) =~= Seq::empty());
    assert(ps.take(0) =~= Seq::empty());
    for i in 0..n
        invariant
            n == cfg.providers@.len(),
            ps == config::providers_of(cfg.providers@),
            text::texts(out@) == replaced_keys(ps.take(i as int), opening),
    {
        let p = &cfg.providers[i];
        assert(ps.take(i + 1).drop_last() =~= ps.take(i as int));
        assert(ps.take(i + 1).last() == p@);
        if replaced(p, opening) {
            proof {
                text::lemma_texts_push(out@, p.api_key);
            }
            out.push(p.api_key.clone());
        }
    }
    assert(ps.take(n as int) =~= ps);
    out
}

proof fn lemma_replaced_count(ps: Seq<config::ProviderView>, opening: bool, i: int)
    requires
        0 <= i <= ps.len(),
    ensures
        replaced_keys(ps.take(i), opening).len() <= replaced_keys(ps, opening).len(),
        i < ps.len() && is_replaced(ps[i], opening) ==> replaced_keys(ps.take(i), opening).len()
            < replaced_keys(ps, opening).len(),
    decreases ps.len(),
{
    if i == ps.len() {
        assert(ps.take(i) =~= ps);
    } else {
        let init = ps.drop_last();
        lemma_replaced_count(init, opening, i);
        assert(init.take(i) =~= ps.take(i));
        if i < init.len() {
            assert(init[i] == ps[i]);
        }
    }
}

/// The configuration with the keys that are replaced on storing or loading replaced by the given
/// ones, in order.
pub fn replace_keys(cfg: AppConfig, opening: bool, keys: &Vec<String>) -> (r: AppConfig)
    requires
        keys@.len() == replaced_keys(cfg@.providers, opening).len(),
    ensures
        r@ == (config::ConfigView {
            providers: rekeyed(cfg@.providers, opening, text::texts(keys@)),
            ..cfg@
        }),
{
    let ghost before = cfg@;
    let ghost ps = before.providers;
    let ghost given = text::texts(keys@);
    let mut cfg = cfg;
    let mut out: Vec<ProviderConfig> = Vec::new();
    let mut used: usize = 0;
    let total: usize = keys.len();
    let n: usize = cfg.providers.len();
    assert(config::providers_of(out@) =~= Seq::empty());
    assert(ps.take(0) =~= Seq::empty());
    for i in 0..n
        invariant
            n == cfg.providers@.len(),
            ps == config::providers_of(cfg.providers@),
            given == text::texts(keys@),
            total == keys@.len(),
            total == replaced_keys(ps, opening).len(),
            used == replaced_keys(ps.take(i as int), opening).len(),
            config::providers_of(out@) == rekeyed(ps.take(i as int), opening, given),
    {
        let mut p = cfg.providers[i].copy();
        assert(ps.take(i + 1).drop_last() =~= ps.take(i as int));
        assert(ps.take(i + 1).last() == cfg.providers@[i as int]@);
        proof {
            lemma_replaced_count(ps, opening, i as int);
        }
        if replaced(&cfg.providers[i], opening) {
            assert(ps[i as int] == cfg.providers@[i as int]@);
            assert(given[used as int] == keys@[used as int]@);
            p.api_key = keys[used].clone();
            used = used + 1;
        }
        let ghost was = out@;
        out.push(p);
        assert(config::providers_of(out@) =~= config::providers_of(was).push(p@));
    }
    assert(ps.take(n as int) =~= ps);
    cfg.providers = out;
    cfg
}

/// Some encrypted keys in protected form.
pub open spec fn sealed_all(list: Seq<Vec<u8>>) -> Seq<Seq<char>> {
    Seq::new(list.len(), |i: int| sealed(list[i]@))
}

/// The configuration as it is stored: where keys are protected, those that are to be are replaced by
/// their protected forms, given encrypted and in order.
pub fn config_for_storage(enabled: bool, cfg: &AppConfig, encrypted: &Vec<Vec<u8>>) -> (r: AppConfig)
    requires
        enabled ==> encrypted@.len() == replaced_keys(cfg@.providers, false).len(),
    ensures
        r@ == (if enabled {
            config::ConfigView {
                providers: rekeyed(cfg@.providers, false, sealed_all(encrypted@)),
                ..cfg@
            }
        } else {
            cfg@
        }),
{
    if !enabled {
        return cfg.copy();
    }
    let mut keys: Vec<String> = Vec::new();
    let n: usize = encrypted.len();
    for i in 0..n
        invariant
            n == encrypted@.len(),
            keys@.len() == i,
            forall|j: int| 0 <= j < i ==> (#[trigger] keys@[j])@ == sealed(encrypted@[j]@),
    {
        keys.push(protect_secret(&encrypted[i]));
    }
    assert(text::texts(keys@) =~= sealed_all(encrypted@));
    replace_keys(cfg.copy(), false, &keys)
}

/// The configuration as it is used, given the one that is stored and its protected keys decrypted,
/// in order.
pub fn unprotect_config(cfg: AppConfig, decrypted: &Vec<String>) -> (r: AppConfig)
    requires
        decrypted@.len() == replaced_keys(cfg@.providers, true).len(),
    ensures
        r@ == (config::ConfigView {
            providers: rekeyed(cfg@.providers, true, text::texts(decrypted@)),
            ..cfg@
        }),
{
    replace_keys(cfg, true, decrypted)
}

/// Replacing keys keeps the providers, and all that they hold but their keys.
pub proof fn law_rekeying_keeps_the_rest(
    ps: Seq<config::ProviderView>,
    opening: bool,
    keys: Seq<Seq<char>>,
    i: int,
)
    requires
        0 <= i < ps.len(),
    ensures
        rekeyed(ps, opening, keys).len() == ps.len(),
        rekeyed(ps, opening, keys)[i] == (config::ProviderView {
            api_key: rekeyed(ps, opening, keys)[i].api_key,
            ..ps[i]
        }),
        !is_replaced(ps[i], opening) ==> rekeyed(ps, opening, keys)[i] == ps[i],
        is_replaced(ps[i], opening) ==> rekeyed(ps, opening, keys)[i].api_key
            == keys[replaced_keys(ps.take(i), opening).len() as int],
    decreases ps.len(),
{
    let init = ps.drop_last();
    lemma_rekeyed_len(init, opening, keys);
    assert(ps.take(ps.len() - 1) =~= init);
    if i < ps.len() - 1 {
        law_rekeying_keeps_the_rest(init, opening, keys, i);
        assert(init.take(i) =~= ps.take(i));
        assert(init[i] == ps[i]);
        assert(rekeyed(ps, opening, keys)[i] == rekeyed(init, opening, keys)[i]);
    }
}

proof fn lemma_rekeyed_len(ps: Seq<config::ProviderView>, opening: bool, keys: Seq<Seq<char>>)
    ensures
        rekeyed(ps, opening, keys).len() == ps.len(),
    decreases ps.len(),
{
    if ps.len() > 0 {
        lemma_rekeyed_len(ps.drop_last(), opening, keys);
    }
}

/// In a stored configuration no key is left that would still have to be protected.
pub proof fn law_stored_keys_are_protected(
    ps: Seq<config::ProviderView>,
    encrypted: Seq<Vec<u8>>,
    i: int,
)
    requires
        encrypted.len() == replaced_keys(ps, false).len(),
        0 <= i < ps.len(),
    ensures
        !is_protectable(rekeyed(ps, false, sealed_all(encrypted))[i].api_key),
{
    law_rekeying_keeps_the_rest(ps, false, sealed_all(encrypted), i);
    lemma_replaced_count(ps, false, i);
    if is_replaced(ps[i], false) {
        law_sealed_is_not_protectable(
            encrypted[replaced_keys(ps.take(i), false).len() as int]@,
        );
    }
}

/// Storing protected keys and decrypting them on loading gives back the configuration, as long as
/// no key of it was in protected form before.
pub proof fn law_protection_round_trip(ps: Seq<config::ProviderView>, encrypted: Seq<Vec<u8>>)
    requires
        encrypted.len() == replaced_keys(ps, false).len(),
        forall|i: int| 0 <= i < ps.len() ==> !is_protected((#[trigger] ps[i]).api_key),
    ensures
        ({
            let stored = rekeyed(ps, false, sealed_all(encrypted));
            &&& replaced_keys(stored, true) == sealed_all(encrypted)
            &&& rekeyed(stored, true, replaced_keys(ps, false)) == ps
        }),
    decreases ps.len(),
{
    let keys = sealed_all(encrypted);
    let plain = replaced_keys(ps, false);
    let stored = rekeyed(ps, false, keys);
    if ps.len() == 0 {
        assert(keys =~= Seq::empty());
        assert(rekeyed(stored, true, plain) =~= ps);
    } else {
        let init = ps.drop_last();
        let p = ps.last();
        let k = replaced_keys(init, false).len();
        assert forall|i: int| 0 <= i < init.len() implies !is_protected(
            (#[trigger] init[i]).api_key,
        ) by {
            assert(init[i] == ps[i]);
        }
        assert(!is_protected(ps[ps.len() - 1].api_key));
        let few = encrypted.take(k as int);
        law_protection_round_trip(init, few);
        lemma_rekeyed_prefix(init, false, keys, sealed_all(few), k);
        lemma_rekeyed_len(init, false, keys);
        let stored_init = rekeyed(init, false, keys);
        assert(stored.drop_last() =~= stored_init);
        assert(sealed_all(few) =~= keys.take(k as int));
        if is_replaced(p, false) {
            law_protected_secret_reads_back(encrypted[k as int]@);
            assert(keys =~= keys.take(k as int).push(keys[k as int]));
            assert(plain.drop_last() =~= replaced_keys(init, false));
        } else {
            assert(keys =~= keys.take(k as int));
        }
        lemma_rekeyed_len(stored_init, true, plain);
        lemma_rekeyed_prefix(stored_init, true, plain, replaced_keys(init, false), k);
        assert(rekeyed(stored, true, plain) =~= ps);
    }
}

proof fn lemma_rekeyed_prefix(
    ps: Seq<config::ProviderView>,
    opening: bool,
    a: Seq<Seq<char>>,
    b: Seq<Seq<char>>,
    n: nat,
)
    requires
        replaced_keys(ps, opening).len() <= n <= a.len(),
        n <= b.len(),
        forall|i: int| 0 <= i < n ==> #[trigger] a[i] == b[i],
    ensures
        rekeyed(ps, opening, a) == rekeyed(ps, opening, b),
    decreases ps.len(),
{
    if ps.len() > 0 {
        lemma_rekeyed_prefix(ps.drop_last(), opening, a, b, n);
    }
}

// ---------------------------------------------------------------------------
// Reports
// ---------------------------------------------------------------------------

/// The number of providers whose keys are to be protected.
pub fn count_protectable_provider_keys(cfg: &AppConfig) -> (r: usize)
    ensures
        r == replaced_keys(cfg@.providers, false).len(),
{
    let keys = keys_to_replace(cfg, false);
    assert(text::texts(keys@).len() == keys@.len());
    keys.len()
}

/// What is reported once the keys of a configuration were protected, or could not be because the
/// system has no means.
pub fn protect_config_secrets(supported: bool, cfg: &AppConfig) -> (r: SecretProtectionResult)
    ensures
        r.supported == supported,
        r.enabled == supported,
        r.protected_count == (if supported {
            replaced_keys(cfg@.providers, false).len()
        } else {
            0
        }),
        r.message@ == (if supported {
            "Provider API Key 已启用本机用户级 DPAPI 保护"@
        } else {
            "当前平台不支持 Windows DPAPI"@
        }),
{
    if !supported {
        return SecretProtectionResult {
            supported: false,
            enabled: false,
            protected_count: 0,
            message: "当前平台不支持 Windows DPAPI".to_owned(),
        };
    }
    SecretProtectionResult {
        supported: true,
        enabled: true,
        protected_count: count_protectable_provider_keys(cfg),
        message: "Provider API Key 已启用本机用户级 DPAPI 保护".to_owned(),
    }
}

/// The name by which a provider is spoken of: its name, or its identifier where that is blank.
pub open spec fn display_name(p: config::ProviderView) -> Seq<char> {
    if text::blank(p.name) {
        p.id
    } else {
        p.name
    }
}

/// The name by which a provider is spoken of.
pub fn provider_name(p: &ProviderConfig) -> (r: String)
    ensures
        r@ == display_name(p@),
{
    if text::is_blank(p.name.as_str()) {
        p.id.clone()
    } else {
        p.name.clone()
    }
}

fn finding(severity: &str, code: &str, path: &str, message: &str) -> (r: SecurityFinding)
    ensures
        r@ == (FindingView {
            severity: severity@,
            code: code@,
            path: path@,
            message: message@,
        }),
{
    SecurityFinding {
        severity: severity.to_owned(),
        code: code.to_owned(),
        path: path.to_owned(),
        message: message.to_owned(),
    }
}

/// The finding that the default password is still in use.
pub open spec fn default_password_finding() -> FindingView {
    FindingView {
        severity: "danger"@,
        code: "default_admin_password"@,
        path: "admin.password"@,
        message: "管理员仍在使用默认密码 admin123"@,
    }
}

/// The finding that the default master key is still in use.
pub open spec fn default_key_finding() -> FindingView {
    FindingView {
        severity: "danger"@,
        code: "default_master_key"@,
        path: "general_settings.master_key"@,
        message: "Master key 仍是默认值 openrelay-master"@,
    }
}

/// The finding that sessions are signed with the built-in secret.
pub open spec fn missing_secret_finding() -> FindingView {
    FindingView {
        severity: "warning"@,
        code: "missing_jwt_secret"@,
        path: "environment.JWT_SECRET"@,
        message: "未设置 JWT_SECRET，重启后使用内置默认签名密钥"@,
    }
}

/// The finding that keys could be protected and are not.
pub open spec fn unprotected_finding() -> FindingView {
    FindingView {
        severity: "warning"@,
        code: "secret_protection_disabled"@,
        path: ".secret-protection"@,
        message: "Provider API Key 尚未启用 Windows DPAPI 本机保护"@,
    }
}

/// Whether the key of a provider is readable text.
pub open spec fn is_plaintext(p: config::ProviderView) -> bool {
    !text::blank(p.api_key) && !is_reference(p.api_key) && !is_protected(p.api_key)
}

/// The finding that the key of a provider is readable text.
pub open spec fn plaintext_finding(p: config::ProviderView, index: nat) -> FindingView {
    FindingView {
        severity: "warning"@,
        code: "plaintext_provider_key"@,
        path: "providers["@ + decimal::decimal(index) + "].api_key"@,
        message: display_name(p) + " 的 API Key 当前以可读文本保存"@,
    }
}

/// The findings about the keys of the first `n` providers.
pub open spec fn plaintext_findings(ps: Seq<config::ProviderView>, n: nat) -> Seq<FindingView>
    decreases n,
{
    if n == 0 {
        Seq::empty()
    } else {
        let before = plaintext_findings(ps, (n - 1) as nat);
        if is_plaintext(ps[n - 1]) {
            before.push(plaintext_finding(ps[n - 1], (n - 1) as nat))
        } else {
            before
        }
    }
}

/// A finding where the condition holds.
pub open spec fn found(condition: bool, f: FindingView) -> Seq<FindingView> {
    if condition {
        seq![f]
    } else {
        Seq::empty()
    }
}

/// All that is unsafe about a configuration and the system around it.
pub open spec fn audit(
    c: config::ConfigView,
    supported: bool,
    protected: bool,
    jwt_secret_present: bool,
) -> Seq<FindingView> {
    found(
        password::opens(config::DEFAULT_ADMIN_PASSWORD@, c.admin.password_hash),
        default_password_finding(),
    ) + found(c.master_key == Some(config::DEFAULT_MASTER_KEY@), default_key_finding()) + found(
        !jwt_secret_present,
        missing_secret_finding(),
    ) + found(supported && !protected, unprotected_finding()) + plaintext_findings(
        c.providers,
        c.providers.len(),
    )
}

fn note(list: &mut Vec<SecurityFinding>, f: SecurityFinding)
    ensures
        findings_of(final(list)@) == findings_of(old(list)@).push(f@),
{
    let ghost was = list@;
    list.push(f);
    assert(findings_of(list@) =~= findings_of(was).push(f@));
}

/// All that is unsafe about a configuration and the system around it: first what endangers the
/// gateway, then what could be better, and at the end the keys of providers that are readable text.
pub fn audit_security(
    cfg: &AppConfig,
    supported: bool,
    protected: bool,
    jwt_secret_present: bool,
) -> (r: Vec<SecurityFinding>)
    ensures
        findings_of(r@) == audit(cfg@, supported, protected, jwt_secret_present),
{
    let mut out: Vec<SecurityFinding> = Vec::new();
    assert(findings_of(out@) =~= Seq::empty());
    if password::verify_password(
        config::DEFAULT_ADMIN_PASSWORD,
        cfg.admin.password_hash.as_str(),
    ) {
        note(
            &mut out,
            finding(
                "danger",
                "default_admin_password",
                "admin.password",
                "管理员仍在使用默认密码 admin123",
            ),
        );
    }
    let default_key = match &cfg.general_settings.master_key {
        Some(k) => text::same(k.as_str(), config::DEFAULT_MASTER_KEY),
        None => false,
    };
    if default_key {
        note(
            &mut out,
            finding(
                "danger",
                "default_master_key",
                "general_settings.master_key",
                "Master key 仍是默认值 openrelay-master",
            ),
        );
    }
    if !jwt_secret_present {
        note(
            &mut out,
            finding(
                "warning",
                "missing_jwt_secret",
                "environment.JWT_SECRET",
                "未设置 JWT_SECRET，重启后使用内置默认签名密钥",
            ),
        );
    }
    if supported && !protected {
        note(
            &mut out,
            finding(
                "warning",
                "secret_protection_disabled",
                ".secret-protection",
                "Provider API Key 尚未启用 Windows DPAPI 本机保护",
            ),
        );
    }
    let ghost ps = cfg@.providers;
    let ghost head = findings_of(out@);
    assert(head =~= found(
        password::opens(config::DEFAULT_ADMIN_PASSWORD@, cfg@.admin.password_hash),
        default_password_finding(),
    ) + found(cfg@.master_key == Some(config::DEFAULT_MASTER_KEY@), default_key_finding()) + found(
        !jwt_secret_present,
        missing_secret_finding(),
    ) + found(supported && !protected, unprotected_finding()));
    let n: usize = cfg.providers.len();
    assert(head + plaintext_findings(ps, 0) =~= head);
    for i in 0..n
        invariant
            n == cfg.providers@.len(),
            ps == config::providers_of(cfg.providers@),
            findings_of(out@) == head + plaintext_findings(ps, i as nat),
    {
        let p = &cfg.providers[i];
        assert(ps[i as int] == p@);
        if !text::is_blank(p.api_key.as_str()) && !is_env_reference(p.api_key.as_str())
            && !is_protected_secret(p.api_key.as_str()) {
            let index = decimal::number_text(i as u64);
            let path = text::cat3("providers[", index.as_str(), "].api_key");
            let name = provider_name(p);
            let message = text::cat(name.as_str(), " 的 API Key 当前以可读文本保存");
            note(
                &mut out,
                finding("warning", "plaintext_provider_key", path.as_str(), message.as_str()),
            );
            assert(head + plaintext_findings(ps, (i + 1) as nat) =~= (head + plaintext_findings(
                ps,
                i as nat,
            )).push(plaintext_finding(p@, i as nat)));
        }
    }
    out
}

/// Whether nothing is dangerous.
pub open spec fn is_harmless(list: Seq<FindingView>) -> bool {
    forall|i: int| 0 <= i < list.len() ==> (#[trigger] list[i]).severity != "danger"@
}

/// Whether none of the findings is a danger.
pub fn audit_passes(list: &Vec<SecurityFinding>) -> (r: bool)
    ensures
        r == is_harmless(findings_of(list@)),
{
    let n: usize = list.len();
    for i in 0..n
        invariant
            n == list@.len(),
            forall|j: int| 0 <= j < i ==> (#[trigger] findings_of(list@)[j]).severity != "danger"@,
    {
        if text::same(list[i].severity.as_str(), "danger") {
            assert(findings_of(list@)[i as int].severity == "danger"@);
            return false;
        }
    }
    true
}

proof fn lemma_plaintext_findings(ps: Seq<config::ProviderView>, n: nat)
    ensures
        forall|i: int|
            0 <= i < plaintext_findings(ps, n).len() ==> (#[trigger] plaintext_findings(
                ps,
                n,
            )[i]).severity == "warning"@,
    decreases n,
{
    if n > 0 {
        lemma_plaintext_findings(ps, (n - 1) as nat);
        let before = plaintext_findings(ps, (n - 1) as nat);
        let all = plaintext_findings(ps, n);
        assert forall|i: int| 0 <= i < all.len() implies (#[trigger] all[i]).severity
            == "warning"@ by {
            if i < before.len() {
                assert(all[i] == before[i]);
            }
        }
    }
}

/// The audit is passed if and only if neither the default password nor the default master key is in
/// use.
pub proof fn law_audit_passes_without_defaults(
    c: config::ConfigView,
    supported: bool,
    protected: bool,
    jwt_secret_present: bool,
)
    ensures
        is_harmless(audit(c, supported, protected, jwt_secret_present)) == (!password::opens(
            config::DEFAULT_ADMIN_PASSWORD@,
            c.admin.password_hash,
        ) && c.master_key != Some(config::DEFAULT_MASTER_KEY@)),
{
    reveal_strlit("warning");
    reveal_strlit("danger");
    assert("warning"@.len() != "danger"@.len());
    lemma_plaintext_findings(c.providers, c.providers.len());
    let all = audit(c, supported, protected, jwt_secret_present);
    let weak = password::opens(config::DEFAULT_ADMIN_PASSWORD@, c.admin.password_hash);
    let a = found(weak, default_password_finding());
    let b = found(c.master_key == Some(config::DEFAULT_MASTER_KEY@), default_key_finding());
    let d = found(!jwt_secret_present, missing_secret_finding());
    let e = found(supported && !protected, unprotected_finding());
    let rest = plaintext_findings(c.providers, c.providers.len());
    if weak {
        assert(all[0] == default_password_finding());
    } else if c.master_key == Some(config::DEFAULT_MASTER_KEY@) {
        assert(all[0] == default_key_finding());
    } else {
        assert(a =~= Seq::empty() && b =~= Seq::empty());
        assert(all =~= d + e + rest);
        assert forall|i: int| 0 <= i < all.len() implies (#[trigger] all[i]).severity
            != "danger"@ by {
            if i >= d.len() + e.len() {
                assert(all[i] == rest[i - d.len() - e.len()]);
            }
        }
    }
}

// ---------------------------------------------------------------------------
// Secrets as they are shown
// ---------------------------------------------------------------------------

/// Whether a secret can be redacted: a long one shows its first four bytes and its last four, which
/// must be texts.
pub open spec fn is_redactable(value: Seq<char>) -> bool {
    let v = text::trimmed(value);
    text::byte_len(v) > 8 ==> text::cuts_at(v, 4, 4)
}

/// A secret as it is exported.
pub open spec fn redacted(value: Seq<char>) -> Seq<char> {
    let v = text::trimmed(value);
    if v.len() == 0 {
        Seq::empty()
    } else if text::byte_len(v) <= 8 {
        "***"@
    } else {
        text::byte_head(v, 4) + "..."@ + text::byte_tail(v, 4)
    }
}

/// Whether the secret can be redacted.
pub fn can_redact(value: &str) -> (r: bool)
    ensures
        r == is_redactable(value@),
{
    let v = text::trim(value);
    text::count_bytes(v.as_str()) <= 8 || text::can_cut(v.as_str(), 4, 4)
}

/// The secret as it is exported: the ends of a long one, nothing of a short one.
pub fn redact_secret(value: &str) -> (r: String)
    requires
        is_redactable(value@),
    ensures
        r@ == redacted(value@),
{
    let v = text::trim(value);
    if v.as_str().is_empty() {
        return String::new();
    }
    if text::count_bytes(v.as_str()) <= 8 {
        return "***".to_owned();
    }
    let (head, tail) = text::cut(v.as_str(), 4, 4);
    text::cat3(head.as_str(), "...", tail.as_str())
}

/// A redacted secret shows the ends of a long one and nothing else: two long secrets with the same
/// ends are redacted alike.
pub proof fn law_redaction_hides_the_middle(a: Seq<char>, b: Seq<char>)
    requires
        text::byte_len(text::trimmed(a)) > 8,
        text::byte_len(text::trimmed(b)) > 8,
        text::trimmed(a).len() > 0,
        text::trimmed(b).len() > 0,
        text::byte_head(text::trimmed(a), 4) == text::byte_head(text::trimmed(b), 4),
        text::byte_tail(text::trimmed(a), 4) == text::byte_tail(text::trimmed(b), 4),
    ensures
        redacted(a) == redacted(b),
{
}

// ---------------------------------------------------------------------------
// What is promised of keys and of the audit
// ---------------------------------------------------------------------------

/// A key that is there is protected, unless it names a variable or is protected already. Whitespace
/// around a key makes no difference.
pub proof fn law_keys_that_are_there_are_protected(value: Seq<char>)
    ensures
        text::blank(value) ==> !is_protectable(value),
        text::begins(text::trimmed(value), "os.environ/"@) ==> !is_protectable(value),
        text::begins(text::trimmed(value), "protected:dpapi:"@) ==> !is_protectable(value),
        !text::blank(value) && !text::begins(text::trimmed(value), "os.environ/"@) && !text::begins(
            text::trimmed(value),
            "protected:dpapi:"@,
        ) ==> is_protectable(value),
{
}

/// What is not in protected form is told from what is badly encoded.
pub proof fn law_bad_secrets_are_told_apart(value: Seq<char>, rest: Seq<char>)
    ensures
        !text::begins(value, "protected:dpapi:"@) ==> unsealed(value) == Err::<
            Seq<u8>,
            SecretFault,
        >(SecretFault::NotProtected),
        hexcode::hex_bytes(rest) is None ==> unsealed("protected:dpapi:"@ + rest) == Err::<
            Seq<u8>,
            SecretFault,
        >(SecretFault::BadEncoding),
{
    let whole = "protected:dpapi:"@ + rest;
    assert(whole.take("protected:dpapi:"@.len() as int) =~= "protected:dpapi:"@);
    assert(whole.skip("protected:dpapi:"@.len() as int) =~= rest);
}

/// A provider is spoken of by its name, and by its identifier where it has none.
pub proof fn law_provider_has_a_name(p: config::ProviderView)
    ensures
        !text::blank(p.name) ==> display_name(p) == p.name,
        text::blank(p.name) ==> display_name(p) == p.id,
{
}

/// Nothing is shown of a short secret, nor of none; of a long one its ends are shown.
pub proof fn law_redaction_shows_the_ends(value: Seq<char>)
    ensures
        text::trimmed(value).len() == 0 ==> redacted(value).len() == 0,
        text::trimmed(value).len() > 0 && text::byte_len(text::trimmed(value)) <= 8 ==> redacted(
            value,
        ) == "***"@,
        text::trimmed(value).len() > 0 && text::byte_len(text::trimmed(value)) > 8 ==> redacted(
            value,
        ) == text::byte_head(text::trimmed(value), 4) + "..."@ + text::byte_tail(
            text::trimmed(value),
            4,
        ),
{
}

/// Whether a list has a finding of a severity, with a code, at a place.
pub open spec fn reports(
    list: Seq<FindingView>,
    severity: Seq<char>,
    code: Seq<char>,
    path: Seq<char>,
) -> bool {
    exists|i: int|
        0 <= i < list.len() && (#[trigger] list[i]).severity == severity && list[i].code == code
            && list[i].path == path
}

/// Whether a list has a finding with a code.
pub open spec fn mentions(list: Seq<FindingView>, code: Seq<char>) -> bool {
    exists|i: int| 0 <= i < list.len() && (#[trigger] list[i]).code == code
}

proof fn lemma_codes_differ()
    ensures
        "default_admin_password"@ != "default_master_key"@,
        "default_admin_password"@ != "missing_jwt_secret"@,
        "default_admin_password"@ != "secret_protection_disabled"@,
        "default_admin_password"@ != "plaintext_provider_key"@,
        "default_master_key"@ != "missing_jwt_secret"@,
        "default_master_key"@ != "secret_protection_disabled"@,
        "default_master_key"@ != "plaintext_provider_key"@,
        "missing_jwt_secret"@ != "secret_protection_disabled"@,
        "missing_jwt_secret"@ != "plaintext_provider_key"@,
        "secret_protection_disabled"@ != "plaintext_provider_key"@,
{
    reveal_strlit("default_admin_password");
    reveal_strlit("default_master_key");
    reveal_strlit("missing_jwt_secret");
    reveal_strlit("secret_protection_disabled");
    reveal_strlit("plaintext_provider_key");
    assert("default_admin_password"@[0] == 'd');
    assert("plaintext_provider_key"@[0] == 'p');
    assert("default_master_key"@[0] == 'd');
    assert("missing_jwt_secret"@[0] == 'm');
    assert("secret_protection_disabled"@[0] == 's');
    assert("default_admin_password"@.len() == 22);
    assert("default_master_key"@.len() == 18);
}

proof fn lemma_plaintext_reported(ps: Seq<config::ProviderView>, n: nat, i: int) -> (at: int)
    requires
        0 <= i < n <= ps.len(),
        is_plaintext(ps[i]),
    ensures
        0 <= at < plaintext_findings(ps, n).len(),
        plaintext_findings(ps, n)[at] == plaintext_finding(ps[i], i as nat),
    decreases n,
{
    if i == n - 1 {
        plaintext_findings(ps, (n - 1) as nat).len() as int
    } else {
        lemma_plaintext_reported(ps, (n - 1) as nat, i)
    }
}

proof fn lemma_plaintext_has_a_cause(ps: Seq<config::ProviderView>, n: nat, at: int) -> (i: int)
    requires
        n <= ps.len(),
        0 <= at < plaintext_findings(ps, n).len(),
    ensures
        0 <= i < n,
        is_plaintext(ps[i]),
        plaintext_findings(ps, n)[at] == plaintext_finding(ps[i], i as nat),
    decreases n,
{
    let before = plaintext_findings(ps, (n - 1) as nat);
    if at < before.len() {
        lemma_plaintext_has_a_cause(ps, (n - 1) as nat, at)
    } else {
        n - 1
    }
}

/// The audit names each thing that is unsafe, and nothing that is not: the default password and the
/// default master key as dangers; as warnings that no secret is set for sessions, and that keys
/// could be protected and are not.
pub proof fn law_audit_names_what_is_unsafe(
    c: config::ConfigView,
    supported: bool,
    protected: bool,
    jwt_secret_present: bool,
)
    ensures
        ({
            let list = audit(c, supported, protected, jwt_secret_present);
            &&& password::opens("admin123"@, c.admin.password_hash) ==> reports(
                list,
                "danger"@,
                "default_admin_password"@,
                "admin.password"@,
            )
            &&& !password::opens("admin123"@, c.admin.password_hash) ==> !mentions(
                list,
                "default_admin_password"@,
            )
            &&& c.master_key == Some("openrelay-master"@) ==> reports(
                list,
                "danger"@,
                "default_master_key"@,
                "general_settings.master_key"@,
            )
            &&& c.master_key != Some("openrelay-master"@) ==> !mentions(
                list,
                "default_master_key"@,
            )
            &&& !jwt_secret_present ==> reports(
                list,
                "warning"@,
                "missing_jwt_secret"@,
                "environment.JWT_SECRET"@,
            )
            &&& jwt_secret_present ==> !mentions(list, "missing_jwt_secret"@)
            &&& supported && !protected ==> reports(
                list,
                "warning"@,
                "secret_protection_disabled"@,
                ".secret-protection"@,
            )
            &&& !supported || protected ==> !mentions(list, "secret_protection_disabled"@)
        }),
{
    lemma_codes_differ();
    let list = audit(c, supported, protected, jwt_secret_present);
    let weak = password::opens(config::DEFAULT_ADMIN_PASSWORD@, c.admin.password_hash);
    let known = c.master_key == Some(config::DEFAULT_MASTER_KEY@);
    let open = supported && !protected;
    let a = found(weak, default_password_finding());
    let b = found(known, default_key_finding());
    let d = found(!jwt_secret_present, missing_secret_finding());
    let e = found(open, unprotected_finding());
    let rest = plaintext_findings(c.providers, c.providers.len());
    assert(list =~= a + b + d + e + rest);
    if weak {
        assert(list[0] == default_password_finding());
    }
    if known {
        assert(list[a.len() as int] == default_key_finding());
    }
    if !jwt_secret_present {
        assert(list[(a.len() + b.len()) as int] == missing_secret_finding());
    }
    if open {
        assert(list[(a.len() + b.len() + d.len()) as int] == unprotected_finding());
    }
    assert forall|i: int| 0 <= i < list.len() implies {
        let x = #[trigger] list[i];
        ||| weak && x == default_password_finding()
        ||| known && x == default_key_finding()
        ||| !jwt_secret_present && x == missing_secret_finding()
        ||| open && x == unprotected_finding()
        ||| x.code == "plaintext_provider_key"@
    } by {
        let past = (a.len() + b.len() + d.len() + e.len()) as int;
        if i >= past {
            assert(list[i] == rest[i - past]);
            let k = lemma_plaintext_has_a_cause(c.providers, c.providers.len(), i - past);
        }
    }
}

/// The audit names the key of each provider that is readable text, at its place and with the
/// provider's name, and no other key.
pub proof fn law_audit_names_readable_keys(
    c: config::ConfigView,
    supported: bool,
    protected: bool,
    jwt_secret_present: bool,
    i: int,
    at: int,
)
    ensures
        ({
            let list = audit(c, supported, protected, jwt_secret_present);
            &&& 0 <= i < c.providers.len() && !text::blank(c.providers[i].api_key) && !text::begins(
                c.providers[i].api_key,
                "os.environ/"@,
            ) && !text::begins(c.providers[i].api_key, "protected:dpapi:"@) ==> reports(
                list,
                "warning"@,
                "plaintext_provider_key"@,
                "providers["@ + decimal::decimal(i as nat) + "].api_key"@,
            )
            &&& 0 <= at < list.len() && list[at].code == "plaintext_provider_key"@ ==> exists|k: int|
                0 <= k < c.providers.len() && !text::blank((#[trigger] c.providers[k]).api_key)
                    && !text::begins(c.providers[k].api_key, "os.environ/"@) && !text::begins(
                    c.providers[k].api_key,
                    "protected:dpapi:"@,
                ) && list[at].path == "providers["@ + decimal::decimal(k as nat) + "].api_key"@
        }),
{
    lemma_codes_differ();
    let list = audit(c, supported, protected, jwt_secret_present);
    let weak = password::opens(config::DEFAULT_ADMIN_PASSWORD@, c.admin.password_hash);
    let a = found(weak, default_password_finding());
    let b = found(c.master_key == Some(config::DEFAULT_MASTER_KEY@), default_key_finding());
    let d = found(!jwt_secret_present, missing_secret_finding());
    let e = found(supported && !protected, unprotected_finding());
    let rest = plaintext_findings(c.providers, c.providers.len());
    let past = (a.len() + b.len() + d.len() + e.len()) as int;
    assert(list =~= a + b + d + e + rest);
    if 0 <= i < c.providers.len() && is_plaintext(c.providers[i]) {
        let k = lemma_plaintext_reported(c.providers, c.providers.len(), i);
        assert(list[past + k] == rest[k]);
    }
    if 0 <= at < list.len() && list[at].code == "plaintext_provider_key"@ {
        if at >= past {
            assert(list[at] == rest[at - past]);
            let k = lemma_plaintext_has_a_cause(c.providers, c.providers.len(), at - past);
            assert(is_plaintext(c.providers[k]));
        }
    }
}

/// A short secret can always be redacted, and a long one if it can be cut after four bytes and before
/// the last four.
pub proof fn law_short_secrets_can_be_redacted(value: Seq<char>)
    ensures
        text::byte_len(text::trimmed(value)) <= 8 ==> is_redactable(value),
        text::byte_len(text::trimmed(value)) > 8 && text::cuts_at(text::trimmed(value), 4, 4)
            ==> is_redactable(value),
{
}

} // verus!
