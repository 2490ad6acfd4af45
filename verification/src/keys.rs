//! The keys of callers: who may ask for what.
use vstd::prelude::*;

use crate::clock;
use crate::config;
use crate::config::{AppConfig, VirtualKeyConfig};
use crate::text;

verus! {

/// What is said of a key that a caller presents.
#[derive(Debug)]
pub struct KeyCheck {
    pub allowed: bool,
    pub is_master: bool,
    pub virtual_key: Option<VirtualKeyConfig>,
    pub reason: Option<String>,
}

/// What a [`KeyCheck`] holds.
#[verifier::ext_equal]
pub struct KeyCheckView {
    pub allowed: bool,
    pub is_master: bool,
    pub virtual_key: Option<config::VirtualKeyView>,
    pub reason: Option<Seq<char>>,
}

/// What an optional key holds.
pub open spec fn opt_key(o: Option<VirtualKeyConfig>) -> Option<config::VirtualKeyView> {
    match o {
        Some(k) => Some(k@),
        None => None,
    }
}

impl View for KeyCheck {
    type V = KeyCheckView;

    open spec fn view(&self) -> KeyCheckView {
        KeyCheckView {
            allowed: self.allowed,
            is_master: self.is_master,
            virtual_key: opt_key(self.virtual_key),
            reason: text::opt_text(self.reason),
        }
    }
}

/// A refusal for the given reason.
pub open spec fn refusal(reason: Seq<char>) -> KeyCheckView {
    KeyCheckView { allowed: false, is_master: false, virtual_key: None, reason: Some(reason) }
}

fn denied(reason: String) -> (r: KeyCheck)
    ensures
        r@ == refusal(reason@),
{
    KeyCheck { allowed: false, is_master: false, virtual_key: None, reason: Some(reason) }
}

/// Whether a key is switched on: one that says nothing is.
pub open spec fn is_enabled(k: config::VirtualKeyView) -> bool {
    match k.enabled {
        Some(b) => b,
        None => true,
    }
}

/// The first key that is switched on and has the given text.
pub open spec fn first_key(keys: Seq<config::VirtualKeyView>, key: Seq<char>) -> Option<
    config::VirtualKeyView,
>
    decreases keys.len(),
{
    if keys.len() == 0 {
        None
    } else if keys[0].key == key && is_enabled(keys[0]) {
        Some(keys[0])
    } else {
        first_key(keys.skip(1), key)
    }
}

/// Whether a key has expired. One whose time of expiry is not a time never does.
pub open spec fn is_expired(k: config::VirtualKeyView, now: clock::Moment) -> bool {
    match k.expires_at {
        Some(t) => match clock::rfc3339_moment(t) {
            Some(m) => clock::is_before(m, now),
            None => false,
        },
        None => false,
    }
}

/// Whether a key is good for a model: without a list of models, for each, and without a model,
/// always.
pub open spec fn covers(k: config::VirtualKeyView, model: Option<Seq<char>>) -> bool {
    match (model, k.allowed_models) {
        (Some(m), Some(list)) => list.contains(m),
        _ => true,
    }
}

/// What is said of a key that a caller presents for a model at a time.
pub open spec fn verdict(
    c: config::ConfigView,
    key: Seq<char>,
    model: Option<Seq<char>>,
    now: clock::Moment,
) -> KeyCheckView {
    if key.len() == 0 {
        refusal("缺少 API Key"@)
    } else if c.master_key == Some(key) {
        KeyCheckView { allowed: true, is_master: true, virtual_key: None, reason: None }
    } else {
        match first_key(c.virtual_keys, key) {
            None => refusal("无效的 API Key"@),
            Some(k) => if is_expired(k, now) {
                refusal("密钥 \""@ + k.name + "\" 已过期"@)
            } else if !covers(k, model) {
                refusal("密钥 \""@ + k.name + "\" 无权访问模型 "@ + model->0)
            } else {
                KeyCheckView { allowed: true, is_master: false, virtual_key: Some(k), reason: None }
            },
        }
    }
}

fn find_key<'a>(keys: &'a Vec<VirtualKeyConfig>, key: &str) -> (r: Option<&'a VirtualKeyConfig>)
    ensures
        (match r {
            Some(k) => Some(k@),
            None => None,
        }) == first_key(config::keys_of(keys@), key@),
{
    let n: usize = keys.len();
    let ghost all = config::keys_of(keys@);
    assert(all.skip(0) =~= all);
    for i in 0..n
        invariant
            n == keys@.len(),
            all == config::keys_of(keys@),
            first_key(all, key@) == first_key(all.skip(i as int), key@),
    {
        assert(all.skip(i as int)[0] == keys@[i as int]@);
        let enabled = match keys[i].enabled {
            Some(b) => b,
            None => true,
        };
        if enabled && text::same(keys[i].key.as_str(), key) {
            return Some(&keys[i]);
        }
        assert(all.skip(i as int).skip(1) =~= all.skip(i + 1));
    }
    None
}

fn expired(k: &VirtualKeyConfig, now: clock::Moment) -> (r: bool)
    ensures
        r == is_expired(k@, now),
{
    match &k.expires_at {
        Some(t) => clock::text_before(t.as_str(), now),
        None => false,
    }
}

/// What is said of a key that a caller presents for a model at a time: whether it is refused, and
/// why, or which key it is.
pub fn check_virtual_key_at(
    cfg: &AppConfig,
    auth_key: &str,
    model: Option<&str>,
    now: clock::Moment,
) -> (r: KeyCheck)
    ensures
        r@ == verdict(cfg@, auth_key@, text::opt_str(model), now),
{
    if auth_key.is_empty() {
        return denied("缺少 API Key".to_owned());
    }
    if let Some(master) = &cfg.general_settings.master_key {
        if text::same(master.as_str(), auth_key) {
            return KeyCheck { allowed: true, is_master: true, virtual_key: None, reason: None };
        }
    }
    let k = match find_key(&cfg.virtual_keys, auth_key) {
        Some(k) => k,
        None => {
            return denied("无效的 API Key".to_owned());
        },
    };
    if expired(k, now) {
        return denied(text::cat3("密钥 \"", k.name.as_str(), "\" 已过期"));
    }
    if let (Some(m), Some(list)) = (model, &k.allowed_models) {
        if !text::holds(list, m) {
            return denied(text::cat4("密钥 \"", k.name.as_str(), "\" 无权访问模型 ", m));
        }
    }
    KeyCheck { allowed: true, is_master: false, virtual_key: Some(k.copy()), reason: None }
}

/// What is said of a key that a caller presents for a model now.
pub fn check_virtual_key(cfg: &AppConfig, auth_key: &str, model: Option<&str>) -> (r: KeyCheck)
    ensures
        exists|now: clock::Moment|
            r@ == #[trigger] verdict(cfg@, auth_key@, text::opt_str(model), now),
{
    let now = clock::now();
    check_virtual_key_at(cfg, auth_key, model, now)
}

/// A refusal says why, and an acceptance gives no reason.
pub proof fn law_refusal_has_a_reason(
    c: config::ConfigView,
    key: Seq<char>,
    model: Option<Seq<char>>,
    now: clock::Moment,
)
    ensures
        verdict(c, key, model, now).allowed == verdict(c, key, model, now).reason is None,
{
}

/// The master key is good for every model at every time.
pub proof fn law_master_key_is_accepted(
    c: config::ConfigView,
    key: Seq<char>,
    model: Option<Seq<char>>,
    now: clock::Moment,
)
    requires
        key.len() > 0,
        c.master_key == Some(key),
    ensures
        verdict(c, key, model, now).allowed,
        verdict(c, key, model, now).is_master,
        verdict(c, key, model, now).virtual_key is None,
{
}

proof fn lemma_no_key(keys: Seq<config::VirtualKeyView>, key: Seq<char>)
    requires
        forall|i: int|
            0 <= i < keys.len() ==> (#[trigger] keys[i]).key != key || !is_enabled(keys[i]),
    ensures
        first_key(keys, key) is None,
    decreases keys.len(),
{
    if keys.len() > 0 {
        assert(keys[0].key != key || !is_enabled(keys[0]));
        let rest = keys.skip(1);
        assert forall|i: int| 0 <= i < rest.len() implies (#[trigger] rest[i]).key != key
            || !is_enabled(rest[i]) by {
            assert(rest[i] == keys[i + 1]);
        }
        lemma_no_key(rest, key);
    }
}

proof fn lemma_found_key(keys: Seq<config::VirtualKeyView>, key: Seq<char>) -> (i: int)
    requires
        first_key(keys, key) is Some,
    ensures
        0 <= i < keys.len(),
        keys[i] == first_key(keys, key)->0,
        keys[i].key == key,
        is_enabled(keys[i]),
    decreases keys.len(),
{
    if keys[0].key == key && is_enabled(keys[0]) {
        0
    } else {
        lemma_found_key(keys.skip(1), key) + 1
    }
}

/// A key that is neither the master key nor one that is switched on is refused.
pub proof fn law_unknown_key_is_refused(
    c: config::ConfigView,
    key: Seq<char>,
    model: Option<Seq<char>>,
    now: clock::Moment,
)
    requires
        c.master_key != Some(key),
        forall|i: int|
            0 <= i < c.virtual_keys.len() ==> (#[trigger] c.virtual_keys[i]).key != key
                || !is_enabled(c.virtual_keys[i]),
    ensures
        !verdict(c, key, model, now).allowed,
{
    lemma_no_key(c.virtual_keys, key);
}

/// Whoever is accepted presents the master key, or one of the keys that are switched on, which has
/// not expired and covers the model.
pub proof fn law_acceptance_is_earned(
    c: config::ConfigView,
    key: Seq<char>,
    model: Option<Seq<char>>,
    now: clock::Moment,
)
    requires
        verdict(c, key, model, now).allowed,
    ensures
        c.master_key == Some(key) || exists|i: int|
            0 <= i < c.virtual_keys.len() && (#[trigger] c.virtual_keys[i]).key == key
                && is_enabled(c.virtual_keys[i]) && !is_expired(c.virtual_keys[i], now) && covers(
                c.virtual_keys[i],
                model,
            ) && verdict(c, key, model, now).virtual_key == Some(c.virtual_keys[i]),
{
    if c.master_key != Some(key) {
        let i = lemma_found_key(c.virtual_keys, key);
        assert(c.virtual_keys[i].key == key);
    }
}

/// A key that has expired stays expired.
pub proof fn law_expiry_is_final(
    k: config::VirtualKeyView,
    earlier: clock::Moment,
    later: clock::Moment,
)
    requires
        is_expired(k, earlier),
        earlier.secs < later.secs || (earlier.secs == later.secs && earlier.nanos <= later.nanos),
    ensures
        is_expired(k, later),
{
}

// ---------------------------------------------------------------------------
// Names and masks
// ---------------------------------------------------------------------------

/// The name under which the requests of a caller are counted.
pub open spec fn caller_name(k: Option<config::VirtualKeyView>) -> Seq<char> {
    match k {
        Some(k) => if text::blank(k.name) {
            "virtual-key"@
        } else {
            k.name
        },
        None => "master"@,
    }
}

/// The name under which the requests of a caller are counted.
pub fn key_name(check: &KeyCheck) -> (r: String)
    ensures
        r@ == caller_name(check@.virtual_key),
{
    match &check.virtual_key {
        Some(k) => if text::is_blank(k.name.as_str()) {
            "virtual-key".to_owned()
        } else {
            k.name.clone()
        },
        None => "master".to_owned(),
    }
}

/// Whether a key can be masked: a long one shows its first eight bytes and its last four, which
/// must be texts.
pub open spec fn is_maskable(key: Seq<char>) -> bool {
    text::byte_len(key) > 12 ==> text::cuts_at(key, 8, 4)
}

/// A key as it is shown.
pub open spec fn masked(key: Seq<char>) -> Seq<char> {
    if text::byte_len(key) <= 12 {
        "****"@
    } else {
        text::byte_head(key, 8) + "****"@ + text::byte_tail(key, 4)
    }
}

/// Whether the key can be masked.
pub fn can_mask(key: &str) -> (r: bool)
    ensures
        r == is_maskable(key@),
{
    text::count_bytes(key) <= 12 || text::can_cut(key, 8, 4)
}

/// The key as it is shown: the ends of a long one, nothing of a short one.
pub fn mask_key(key: &str) -> (r: String)
    requires
        is_maskable(key@),
    ensures
        r@ == masked(key@),
{
    if text::count_bytes(key) <= 12 {
        return "****".to_owned();
    }
    let (head, tail) = text::cut(key, 8, 4);
    text::cat3(head.as_str(), "****", tail.as_str())
}

/// A mask shows the ends of a long key and nothing else: two long keys with the same ends have the
/// same mask.
pub proof fn law_mask_hides_the_middle(a: Seq<char>, b: Seq<char>)
    requires
        text::byte_len(a) > 12,
        text::byte_len(b) > 12,
        text::byte_head(a, 8) == text::byte_head(b, 8),
        text::byte_tail(a, 4) == text::byte_tail(b, 4),
    ensures
        masked(a) == masked(b),
{
}

// ---------------------------------------------------------------------------
// What is promised of a key
// ---------------------------------------------------------------------------

/// Whether the key `i` of a list is the first one with the given text that is not switched off.
pub open spec fn is_entry(keys: Seq<config::VirtualKeyView>, key: Seq<char>, i: int) -> bool {
    &&& 0 <= i < keys.len()
    &&& keys[i].key == key
    &&& keys[i].enabled != Some(false)
    &&& forall|j: int|
        0 <= j < i ==> (#[trigger] keys[j]).key != key || keys[j].enabled == Some(false)
}

/// Whether the time at which a key ends lies before another: the seconds decide, then the
/// nanoseconds. A text that is no time is none.
pub open spec fn has_ended(k: config::VirtualKeyView, now: clock::Moment) -> bool {
    exists|end: Seq<char>, secs: i64, nanos: u32|
        k.expires_at == Some(end) && #[trigger] names_time(end, secs, nanos) && (secs < now.secs || (
        secs == now.secs && nanos < now.nanos))
}

/// Whether a text names a time.
pub open spec fn names_time(s: Seq<char>, secs: i64, nanos: u32) -> bool {
    clock::rfc3339_moment(s) == Some((secs, nanos))
}

proof fn lemma_entry(keys: Seq<config::VirtualKeyView>, key: Seq<char>, i: int)
    requires
        is_entry(keys, key, i),
    ensures
        first_key(keys, key) == Some(keys[i]),
    decreases keys.len(),
{
    if i > 0 {
        assert(keys[0].key != key || keys[0].enabled == Some(false));
        let rest = keys.skip(1);
        assert forall|j: int| 0 <= j < i - 1 implies (#[trigger] rest[j]).key != key
            || rest[j].enabled == Some(false) by {
            assert(rest[j] == keys[j + 1]);
        }
        lemma_entry(rest, key, i - 1);
    }
}

proof fn lemma_ended(k: config::VirtualKeyView, now: clock::Moment)
    ensures
        is_expired(k, now) == has_ended(k, now),
{
    if is_expired(k, now) {
        let end = k.expires_at->0;
        let m = clock::rfc3339_moment(end)->0;
        assert(names_time(end, m.0, m.1));
    }
}

/// A key that stands in the configuration, is not switched off and has not ended is accepted for
/// every model where it has no list of models, for each model of its list where it has one, and
/// always where no model is asked for.
pub proof fn law_good_key_is_accepted(
    c: config::ConfigView,
    key: Seq<char>,
    model: Option<Seq<char>>,
    now: clock::Moment,
    i: int,
)
    requires
        key.len() > 0,
        c.master_key != Some(key),
        is_entry(c.virtual_keys, key, i),
        !has_ended(c.virtual_keys[i], now),
        c.virtual_keys[i].allowed_models is None || model is None
            || c.virtual_keys[i].allowed_models->0.contains(model->0),
    ensures
        verdict(c, key, model, now).allowed,
        !verdict(c, key, model, now).is_master,
        verdict(c, key, model, now).virtual_key == Some(c.virtual_keys[i]),
        verdict(c, key, model, now).reason is None,
{
    lemma_entry(c.virtual_keys, key, i);
    lemma_ended(c.virtual_keys[i], now);
}

/// A key that has ended is refused, by its name, whatever it is asked for.
pub proof fn law_ended_key_is_refused(
    c: config::ConfigView,
    key: Seq<char>,
    model: Option<Seq<char>>,
    now: clock::Moment,
    i: int,
)
    requires
        key.len() > 0,
        c.master_key != Some(key),
        is_entry(c.virtual_keys, key, i),
        has_ended(c.virtual_keys[i], now),
    ensures
        !verdict(c, key, model, now).allowed,
        verdict(c, key, model, now).virtual_key is None,
        verdict(c, key, model, now).reason == Some(
            "密钥 \""@ + c.virtual_keys[i].name + "\" 已过期"@,
        ),
{
    lemma_entry(c.virtual_keys, key, i);
    lemma_ended(c.virtual_keys[i], now);
}

/// A key with a list of models is refused for each model that is not in it, with the name of the
/// key and that of the model.
pub proof fn law_other_models_are_refused(
    c: config::ConfigView,
    key: Seq<char>,
    model: Seq<char>,
    now: clock::Moment,
    i: int,
)
    requires
        key.len() > 0,
        c.master_key != Some(key),
        is_entry(c.virtual_keys, key, i),
        !has_ended(c.virtual_keys[i], now),
        c.virtual_keys[i].allowed_models is Some,
        !c.virtual_keys[i].allowed_models->0.contains(model),
    ensures
        !verdict(c, key, Some(model), now).allowed,
        verdict(c, key, Some(model), now).virtual_key is None,
        verdict(c, key, Some(model), now).reason == Some(
            "密钥 \""@ + c.virtual_keys[i].name + "\" 无权访问模型 "@ + model,
        ),
{
    lemma_entry(c.virtual_keys, key, i);
    lemma_ended(c.virtual_keys[i], now);
}

/// Who presents nothing is told that a key is missing, and who presents a key that is not in the
/// configuration that it is not a good one.
pub proof fn law_missing_and_unknown_keys_are_told_apart(
    c: config::ConfigView,
    key: Seq<char>,
    model: Option<Seq<char>>,
    now: clock::Moment,
)
    requires
        key.len() > 0 ==> c.master_key != Some(key),
        forall|i: int|
            0 <= i < c.virtual_keys.len() ==> (#[trigger] c.virtual_keys[i]).key != key
                || c.virtual_keys[i].enabled == Some(false),
    ensures
        !verdict(c, key, model, now).allowed,
        verdict(c, key, model, now).reason == Some(
            if key.len() == 0 {
                "缺少 API Key"@
            } else {
                "无效的 API Key"@
            },
        ),
{
    lemma_no_key(c.virtual_keys, key);
}

/// Requests are counted under the name of the key, under a common one where the key has no name,
/// and under that of the master key where there is no other.
pub proof fn law_requests_are_counted_under_a_name(k: config::VirtualKeyView)
    ensures
        !text::blank(k.name) ==> caller_name(Some(k)) == k.name,
        text::blank(k.name) ==> caller_name(Some(k)) == "virtual-key"@,
        caller_name(None) == "master"@,
{
}

/// A mask shows nothing of a key of up to twelve bytes. Of a longer one it begins with the first
/// eight bytes, ends in the last four, and holds four stars in place of the rest.
pub proof fn law_mask_shows_the_ends(key: Seq<char>)
    ensures
        text::byte_len(key) <= 12 ==> masked(key) == "****"@,
        text::byte_len(key) > 12 ==> {
            let head = text::byte_head(key, 8);
            let tail = text::byte_tail(key, 4);
            &&& masked(key).len() == head.len() + 4 + tail.len()
            &&& masked(key).take(head.len() as int) == head
            &&& masked(key).skip(head.len() as int + 4) == tail
            &&& forall|i: int|
                head.len() <= i < head.len() + 4 ==> #[trigger] masked(key)[i] == '*'
        },
{
    reveal_strlit("****");
    if text::byte_len(key) > 12 {
        let head = text::byte_head(key, 8);
        let tail = text::byte_tail(key, 4);
        assert(masked(key).take(head.len() as int) =~= head);
        assert(masked(key).skip(head.len() as int + 4) =~= tail);
    }
}

/// A short key can always be masked, and a long one if it can be cut after eight bytes and before the
/// last four.
pub proof fn law_short_keys_can_be_masked(key: Seq<char>)
    ensures
        text::byte_len(key) <= 12 ==> is_maskable(key),
        text::byte_len(key) > 12 && text::cuts_at(key, 8, 4) ==> is_maskable(key),
{
}

} // verus!
