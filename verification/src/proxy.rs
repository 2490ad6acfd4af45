//! The rules by which a request is sent on: to which provider, at what address, for whom.
use vstd::prelude::*;

use crate::text;
use crate::weburl;

verus! {

/// Why a request could not be sent on.
#[derive(Debug)]
pub enum ProxyHelperError {
    /// The base address of the provider is none; the text says why.
    InvalidUrl(String),
}

impl ProxyHelperError {
    /// The error in words.
    pub fn message(&self) -> (r: String)
        ensures
            match self {
                ProxyHelperError::InvalidUrl(e) => r@ == "invalid upstream base URL: "@ + e@,
            },
    {
        match self {
            ProxyHelperError::InvalidUrl(e) => text::cat(
                "invalid upstream base URL: ",
                e.as_str(),
            ),
        }
    }
}

// ---------------------------------------------------------------------------
// Addresses
// ---------------------------------------------------------------------------

/// `s` with a slash in front where it has none there.
pub open spec fn rooted(s: Seq<char>) -> Seq<char> {
    if s.len() > 0 && s[0] == '/' {
        s
    } else {
        seq!['/'] + s
    }
}

/// The text with a slash in front where it has none there.
pub fn root(s: &str) -> (r: String)
    ensures
        r@ == rooted(s@),
{
    proof {
        reveal_strlit("/");
        assert("/"@ =~= seq!['/']);
        assert(text::begins(s@, "/"@) == (s@.len() > 0 && s@[0] == '/')) by {
            if s@.len() > 0 && s@[0] == '/' {
                assert(s@.take(1) =~= "/"@);
            }
            if text::begins(s@, "/"@) {
                assert(s@.take(1)[0] == '/');
            }
        }
    }
    if text::starts_with(s, "/") {
        s.to_owned()
    } else {
        text::cat("/", s)
    }
}

/// Whether the path of a base address ends in the version `v1`.
pub open spec fn is_versioned(path: Seq<char>) -> bool {
    text::ends(path, "/v1"@)
}

/// Whether the path of a base address ends in the version `v1`.
pub fn is_versioned_base_path(path: &str) -> (r: bool)
    ensures
        r == is_versioned(path@),
{
    text::ends_with(path, "/v1")
}

/// `target` without the version in front, where something follows it.
pub open spec fn unversioned(target: Seq<char>, version: Seq<char>) -> Seq<char> {
    match text::after_prefix(target, version) {
        Some(rest) => if rest.len() == 0 {
            target
        } else {
            rooted(rest)
        },
        None => target,
    }
}

fn unversion(target: &str, version: &str) -> (r: String)
    ensures
        r@ == unversioned(target@, version@),
{
    match text::strip_prefix(target, version) {
        Some(rest) => if rest.as_str().is_empty() {
            target.to_owned()
        } else {
            root(rest.as_str())
        },
        None => target.to_owned(),
    }
}

/// The path that a target has below a base address with the path `base_path`: a version that
/// both have stands there once.
pub open spec fn joined_path(base_path: Seq<char>, target: Seq<char>) -> Seq<char> {
    let base = text::drop_trailing(base_path, '/');
    let plain = rooted(text::before(target, '?'));
    let rest = if is_versioned(base) {
        unversioned(plain, "/v1"@)
    } else {
        plain
    };
    text::single_slashes(base + rest)
}

/// The path that a target has below a base address with the path `base_path`.
pub fn upstream_path(base_path: &str, target: &str) -> (r: String)
    ensures
        r@ == joined_path(base_path@, target@),
{
    let base = text::trim_trailing(base_path, '/');
    let path = text::until(target, '?');
    let plain = root(path.as_str());
    let rest = if is_versioned_base_path(base.as_str()) {
        unversion(plain.as_str(), "/v1")
    } else {
        plain
    };
    let whole = text::cat(base.as_str(), rest.as_str());
    text::collapse_slashes(whole.as_str())
}

/// A version that both the base address and the target have stands in the path once.
pub proof fn law_version_stands_once(base: Seq<char>, rest: Seq<char>)
    requires
        is_versioned(base),
        rest.len() > 0,
        rest[0] == '/',
        !rest.contains('?'),
        text::has_single_slashes(base + rest),
    ensures
        joined_path(base, "/v1"@ + rest) == base + rest,
{
    reveal_strlit("/v1");
    let target = "/v1"@ + rest;
    assert(base.skip(base.len() - 3)[2] == base.last());
    assert(base.last() == '1');
    assert(text::drop_trailing(base, '/') == base);
    assert(!target.contains('?')) by {
        if target.contains('?') {
            let i = choose|i: int| 0 <= i < target.len() && target[i] == '?';
            assert(i >= 3);
            assert(rest[i - 3] == '?');
        }
    }
    text::lemma_before_same(target, '?');
    assert(target.take(3) =~= "/v1"@);
    assert(target.skip(3) =~= rest);
    text::lemma_slashes_same(base + rest);
}

/// A base address without a version has the whole target below it.
pub proof fn law_target_stands_below_the_base(base: Seq<char>, target: Seq<char>)
    requires
        !is_versioned(base),
        base.len() == 0 || base.last() != '/',
        target.len() > 0,
        target[0] == '/',
        !target.contains('?'),
        text::has_single_slashes(base + target),
    ensures
        joined_path(base, target) == base + target,
{
    text::lemma_before_same(target, '?');
    text::lemma_slashes_same(base + target);
}

/// Whether the texts that an address is made of are short enough for it.
pub open spec fn within_limit(base_url: Seq<char>, target: Seq<char>, query: Seq<char>) -> bool {
    &&& base_url.len() <= weburl::URL_LIMIT
    &&& target.len() < weburl::URL_LIMIT
    &&& query.len() <= weburl::URL_LIMIT
}

/// Whether the texts that an address is made of are short enough for it.
pub fn fits_limit(base_url: &str, target: &str, query: &str) -> (r: bool)
    ensures
        r == within_limit(base_url@, target@, query@),
{
    base_url.unicode_len() <= weburl::URL_LIMIT && target.unicode_len() < weburl::URL_LIMIT
        && query.unicode_len() <= weburl::URL_LIMIT
}

proof fn lemma_joined_len(base_path: Seq<char>, target: Seq<char>)
    ensures
        joined_path(base_path, target).len() <= base_path.len() + target.len() + 1,
{
    let base = text::drop_trailing(base_path, '/');
    let plain = rooted(text::before(target, '?'));
    text::lemma_drop_len(base_path, '/');
    text::lemma_drop_len(target, '?');
    let rest = if is_versioned(base) {
        unversioned(plain, "/v1"@)
    } else {
        plain
    };
    reveal_strlit("/v1");
    assert(rest.len() <= plain.len());
    text::lemma_slashes_len(base + rest);
}

/// The address of a target below a base address.
pub open spec fn upstream_address(
    base_url: Seq<char>,
    target: Seq<char>,
    query: Seq<char>,
) -> Result<Seq<char>, Seq<char>> {
    let base = text::drop_trailing(base_url, '/');
    match weburl::url_path_of(base) {
        Ok(path) => Ok(weburl::readdressed(base, joined_path(path, target), query)),
        Err(e) => Err(e),
    }
}

/// The text of an address, or of the reason why there is none.
pub open spec fn address_text(r: Result<String, ProxyHelperError>) -> Result<Seq<char>, Seq<char>> {
    match r {
        Ok(s) => Ok(s@),
        Err(ProxyHelperError::InvalidUrl(e)) => Err(e@),
    }
}

/// The address of a target below a base address: the base with the joined path, and with the query
/// where there is one. It fails where the base is no address.
pub fn build_upstream_url(base_url: &str, target_path: &str, query: &str) -> (r: Result<
    String,
    ProxyHelperError,
>)
    requires
        within_limit(base_url@, target_path@, query@),
    ensures
        address_text(r) == upstream_address(base_url@, target_path@, query@),
{
    let base = text::trim_trailing(base_url, '/');
    match weburl::path_of(base.as_str()) {
        Ok(path) => {
            let joined = upstream_path(path.as_str(), target_path);
            proof {
                lemma_joined_len(path@, target_path@);
                text::lemma_drop_len(base_url@, '/');
            }
            Ok(weburl::readdress(base.as_str(), joined.as_str(), query))
        },
        Err(e) => Err(ProxyHelperError::InvalidUrl(e)),
    }
}

// ---------------------------------------------------------------------------
// Addresses of the Gemini interface
// ---------------------------------------------------------------------------

/// The last piece of a Gemini path with the model replaced: what stands from the last colon on,
/// which is the action, stays.
pub open spec fn renamed_piece(piece: Seq<char>, model_id: Seq<char>) -> Seq<char> {
    model_id + piece.skip(text::before_last(piece, ':').len() as int)
}

/// `target` with the model that follows the prefix replaced, where one piece follows it.
pub open spec fn renamed_after(target: Seq<char>, prefix: Seq<char>, model_id: Seq<char>) -> Option<
    Seq<char>,
> {
    match text::after_prefix(target, prefix) {
        Some(piece) => if piece.len() == 0 || piece.contains('/') {
            None
        } else {
            Some(prefix + renamed_piece(piece, model_id))
        },
        None => None,
    }
}

/// A Gemini target with its model replaced by the provider's own name for it. Without such a name,
/// or where the target names no model, it stays.
pub open spec fn renamed_target(target: Seq<char>, model_id: Seq<char>) -> Seq<char> {
    if model_id.len() == 0 {
        target
    } else {
        match renamed_after(target, "/v1beta/models/"@, model_id) {
            Some(t) => t,
            None => match renamed_after(target, "/models/"@, model_id) {
                Some(t) => t,
                None => target,
            },
        }
    }
}

/// The path that a Gemini target has below a base address with the path `base_path`.
pub open spec fn gemini_joined_path(
    base_path: Seq<char>,
    target: Seq<char>,
    model_id: Seq<char>,
) -> Seq<char> {
    let base = text::drop_trailing(base_path, '/');
    let named = renamed_target(rooted(text::before(target, '?')), model_id);
    let rest = if text::ends(base, "/v1beta"@) {
        unversioned(named, "/v1beta"@)
    } else {
        named
    };
    text::single_slashes(base + rest)
}

fn rename_after(target: &str, prefix: &str, model_id: &str) -> (r: Option<String>)
    ensures
        text::opt_text(r) == renamed_after(target@, prefix@, model_id@),
{
    match text::strip_prefix(target, prefix) {
        Some(piece) => {
            if piece.as_str().is_empty() || text::contains_char(piece.as_str(), '/') {
                None
            } else {
                let head = text::until_last(piece.as_str(), ':');
                let chars = text::chars_of(piece.as_str());
                let from: usize = text::chars_of(head.as_str()).len();
                proof {
                    text::lemma_before_last_len(piece@, ':');
                    assert(chars@.subrange(from as int, chars@.len() as int) =~= piece@.skip(
                        from as int,
                    ));
                }
                let action = text::slice_text(&chars, from, chars.len());
                let r = text::cat3(prefix, model_id, action.as_str());
                assert(r@ =~= prefix@ + renamed_piece(piece@, model_id@));
                Some(r)
            }
        },
        None => None,
    }
}

fn rename_target(target: &str, model_id: &str) -> (r: String)
    ensures
        r@ == renamed_target(target@, model_id@),
{
    if model_id.is_empty() {
        target.to_owned()
    } else {
        match rename_after(target, "/v1beta/models/", model_id) {
            Some(t) => t,
            None => match rename_after(target, "/models/", model_id) {
                Some(t) => t,
                None => target.to_owned(),
            },
        }
    }
}

/// The path that a Gemini target has below a base address with the path `base_path`: the model is
/// the provider's own, and the version stands there once.
pub fn gemini_upstream_path(base_path: &str, target: &str, model_id: &str) -> (r: String)
    ensures
        r@ == gemini_joined_path(base_path@, target@, model_id@),
{
    let base = text::trim_trailing(base_path, '/');
    let path = text::until(target, '?');
    let plain = root(path.as_str());
    let named = rename_target(plain.as_str(), model_id);
    let rest = if text::ends_with(base.as_str(), "/v1beta") {
        unversion(named.as_str(), "/v1beta")
    } else {
        named
    };
    let whole = text::cat(base.as_str(), rest.as_str());
    text::collapse_slashes(whole.as_str())
}

/// Whether a part of a query carries the caller's key.
pub open spec fn is_key_part(part: Seq<char>) -> bool {
    text::before(part, '=') == "key"@
}

/// The parts of a query that do not carry the caller's key.
pub open spec fn keyless_parts(parts: Seq<Seq<char>>) -> Seq<Seq<char>>
    decreases parts.len(),
{
    if parts.len() == 0 {
        parts
    } else if is_key_part(parts.last()) {
        keyless_parts(parts.drop_last())
    } else {
        keyless_parts(parts.drop_last()).push(parts.last())
    }
}

/// A query without the caller's key.
pub open spec fn keyless(query: Seq<char>) -> Seq<char> {
    text::joined(keyless_parts(text::split_on(text::drop_leading(query, '?'), '&')), "&"@)
}

/// The query without the caller's key, and without a question mark in front.
pub fn drop_query_key(query: &str) -> (r: String)
    ensures
        r@ == keyless(query@),
{
    let plain = text::trim_leading(query, '?');
    let parts = text::split(plain.as_str(), '&');
    let mut kept: Vec<String> = Vec::new();
    let ghost all = text::texts(parts@);
    let n: usize = parts.len();
    assert(text::texts(kept@) =~= Seq::empty());
    assert(all.take(0) =~= Seq::empty());
    for i in 0..n
        invariant
            n == parts@.len(),
            all == text::texts(parts@),
            text::texts(kept@) == keyless_parts(all.take(i as int)),
    {
        let name = text::until(parts[i].as_str(), '=');
        assert(all.take(i + 1).drop_last() =~= all.take(i as int));
        assert(all.take(i + 1).last() == parts@[i as int]@);
        if !text::same(name.as_str(), "key") {
            proof {
                text::lemma_texts_push(kept@, parts@[i as int]);
            }
            kept.push(parts[i].clone());
        }
    }
    assert(all.take(n as int) =~= all);
    text::join(&kept, "&")
}

/// The address of a Gemini target below a base address.
pub open spec fn gemini_address(
    base_url: Seq<char>,
    target: Seq<char>,
    query: Seq<char>,
    model_id: Seq<char>,
) -> Result<Seq<char>, Seq<char>> {
    let base = text::drop_trailing(base_url, '/');
    match weburl::url_path_of(base) {
        Ok(path) => Ok(
            weburl::readdressed(base, gemini_joined_path(path, target, model_id), keyless(query)),
        ),
        Err(e) => Err(e),
    }
}

proof fn lemma_renamed_len(target: Seq<char>, prefix: Seq<char>, model_id: Seq<char>)
    ensures
        renamed_after(target, prefix, model_id) matches Some(t) ==> t.len() <= target.len()
            + model_id.len(),
{
    if text::begins(target, prefix) {
        let piece = target.skip(prefix.len() as int);
        text::lemma_before_last_len(piece, ':');
        assert(renamed_piece(piece, model_id).len() <= piece.len() + model_id.len());
    }
}

proof fn lemma_gemini_joined_len(base_path: Seq<char>, target: Seq<char>, model_id: Seq<char>)
    ensures
        gemini_joined_path(base_path, target, model_id).len() <= base_path.len() + target.len()
            + model_id.len() + 1,
{
    let base = text::drop_trailing(base_path, '/');
    let plain = rooted(text::before(target, '?'));
    let named = renamed_target(plain, model_id);
    text::lemma_drop_len(base_path, '/');
    text::lemma_drop_len(target, '?');
    lemma_renamed_len(plain, "/v1beta/models/"@, model_id);
    lemma_renamed_len(plain, "/models/"@, model_id);
    assert(named.len() <= plain.len() + model_id.len());
    let rest = if text::ends(base, "/v1beta"@) {
        unversioned(named, "/v1beta"@)
    } else {
        named
    };
    reveal_strlit("/v1beta");
    assert(rest.len() <= named.len());
    text::lemma_slashes_len(base + rest);
}

proof fn lemma_keyless_parts_len(parts: Seq<Seq<char>>)
    ensures
        text::joined(keyless_parts(parts), "&"@).len() <= text::joined(parts, "&"@).len(),
        parts.len() > 0 && keyless_parts(parts).len() > 0 && is_key_part(parts.last())
            ==> text::joined(keyless_parts(parts), "&"@).len() < text::joined(parts, "&"@).len(),
    decreases parts.len(),
{
    reveal_strlit("&");
    if parts.len() > 0 {
        lemma_keyless_parts_len(parts.drop_last());
        let kept = keyless_parts(parts);
        if !is_key_part(parts.last()) {
            assert(kept.drop_last() =~= keyless_parts(parts.drop_last()));
            assert(kept.last() == parts.last());
            if parts.len() == 1 {
                assert(parts.drop_last() =~= Seq::empty());
            }
        }
    }
}

/// The address of a Gemini target below a base address: the base with the joined path and with what
/// is left of the query without the caller's key. It fails where the base is no address.
pub fn build_gemini_upstream_url(
    base_url: &str,
    target_path: &str,
    query: &str,
    model_id: &str,
) -> (r: Result<String, ProxyHelperError>)
    requires
        within_limit(base_url@, target_path@, query@),
        target_path@.len() + model_id@.len() < weburl::URL_LIMIT,
    ensures
        address_text(r) == gemini_address(base_url@, target_path@, query@, model_id@),
{
    let base = text::trim_trailing(base_url, '/');
    match weburl::path_of(base.as_str()) {
        Ok(path) => {
            let joined = gemini_upstream_path(path.as_str(), target_path, model_id);
            let rest = drop_query_key(query);
            proof {
                lemma_gemini_joined_len(path@, target_path@, model_id@);
                text::lemma_drop_len(base_url@, '/');
                text::lemma_drop_len(query@, '?');
                let plain = text::drop_leading(query@, '?');
                lemma_keyless_parts_len(text::split_on(plain, '&'));
                text::lemma_split_joined(plain, '&');
                reveal_strlit("&");
                assert("&"@ =~= seq!['&']);
            }
            Ok(weburl::readdress(base.as_str(), joined.as_str(), rest.as_str()))
        },
        Err(e) => Err(ProxyHelperError::InvalidUrl(e)),
    }
}

proof fn lemma_keyless_parts(parts: Seq<Seq<char>>)
    requires
        forall|i: int| 0 <= i < parts.len() ==> !(#[trigger] parts[i]).contains('&'),
    ensures
        forall|i: int|
            0 <= i < keyless_parts(parts).len() ==> !is_key_part(#[trigger] keyless_parts(parts)[i])
                && !keyless_parts(parts)[i].contains('&'),
    decreases parts.len(),
{
    if parts.len() > 0 {
        assert forall|i: int| 0 <= i < parts.drop_last().len() implies !(
        #[trigger] parts.drop_last()[i]).contains('&') by {
            assert(parts.drop_last()[i] == parts[i]);
        }
        lemma_keyless_parts(parts.drop_last());
        assert(!parts[parts.len() - 1].contains('&'));
        let kept = keyless_parts(parts);
        let init = keyless_parts(parts.drop_last());
        assert forall|i: int| 0 <= i < kept.len() implies !is_key_part(#[trigger] kept[i])
            && !kept[i].contains('&') by {
            if i < init.len() {
                assert(kept[i] == init[i]);
            }
        }
    }
}

/// The caller's key is not sent on: no part of the query that goes to the provider carries it.
pub proof fn law_query_key_is_dropped(query: Seq<char>)
    ensures
        forall|i: int|
            0 <= i < text::split_on(keyless(query), '&').len() ==> !is_key_part(
                #[trigger] text::split_on(keyless(query), '&')[i],
            ),
{
    reveal_strlit("&");
    reveal_strlit("key");
    assert("&"@ =~= seq!['&']);
    let plain = text::drop_leading(query, '?');
    let parts = text::split_on(plain, '&');
    text::lemma_split_free(plain, '&');
    lemma_keyless_parts(parts);
    let kept = keyless_parts(parts);
    if kept.len() > 0 {
        text::lemma_joined_split(kept, '&');
    } else {
        let none = Seq::<char>::empty();
        assert(text::first_at(none, '&') == 0);
        assert(text::split_on(none, '&') =~= seq![none]);
        assert(text::before(none, '=').len() == 0);
    }
}

// ---------------------------------------------------------------------------
// What is promised of addresses
// ---------------------------------------------------------------------------

/// A target goes below the path of the base address, and a query goes along as it is. A version that
/// both have stands there once; slashes at the end of the base count for nothing.
pub proof fn law_address_is_below_the_base(
    base: Seq<char>,
    path: Seq<char>,
    rest: Seq<char>,
    query: Seq<char>,
)
    requires
        base.len() == 0 || base.last() != '/',
        weburl::url_path_of(base) == Ok::<Seq<char>, Seq<char>>(path),
        path.len() == 0 || path.last() != '/',
        rest.len() > 0,
        rest[0] == '/',
        !rest.contains('?'),
        text::has_single_slashes(path + rest),
        query.len() > 0,
        query[0] != '?',
    ensures
        upstream_address(base + seq!['/'], rest, query) == upstream_address(base, rest, query),
        text::ends(path, "/v1"@) ==> {
            &&& upstream_address(base, "/v1"@ + rest, Seq::empty()) == Ok::<Seq<char>, Seq<char>>(
                weburl::url_with_path(base, path + rest),
            )
            &&& upstream_address(base, "/v1"@ + rest, seq!['?'] + query) == Ok::<
                Seq<char>,
                Seq<char>,
            >(weburl::url_with_path_and_query(base, path + rest, query))
        },
        !text::ends(path, "/v1"@) ==> {
            &&& upstream_address(base, rest, Seq::empty()) == Ok::<Seq<char>, Seq<char>>(
                weburl::url_with_path(base, path + rest),
            )
            &&& upstream_address(base, rest, seq!['?'] + query) == Ok::<Seq<char>, Seq<char>>(
                weburl::url_with_path_and_query(base, path + rest, query),
            )
        },
{
    let slashed = base + seq!['/'];
    assert(slashed.drop_last() =~= base);
    reveal_with_fuel(text::drop_trailing, 2);
    assert(text::drop_trailing(base, '/') == base);
    assert(text::drop_trailing(slashed, '/') == base);
    let asked = seq!['?'] + query;
    reveal_with_fuel(text::drop_leading, 2);
    assert(asked.skip(1) =~= query);
    assert(text::drop_leading(asked, '?') == query);
    if text::ends(path, "/v1"@) {
        law_version_stands_once(path, rest);
    } else {
        law_target_stands_below_the_base(path, rest);
    }
}

/// Below a base that is no address nothing has an address, and the reason is the one that the base
/// has.
pub proof fn law_no_address_below_what_is_none(
    base: Seq<char>,
    target: Seq<char>,
    query: Seq<char>,
    model_id: Seq<char>,
    e: Seq<char>,
)
    requires
        base.len() == 0 || base.last() != '/',
        weburl::url_path_of(base) == Err::<Seq<char>, Seq<char>>(e),
    ensures
        upstream_address(base, target, query) == Err::<Seq<char>, Seq<char>>(e),
        gemini_address(base, target, query, model_id) == Err::<Seq<char>, Seq<char>>(e),
{
}

/// A request of the Gemini interface goes to the provider's own model, with the action that was
/// asked for; the version that base and target have stands there once. An address keeps what is
/// left of the query without the caller's key.
pub proof fn law_gemini_request_goes_to_the_provider_model(
    base: Seq<char>,
    path: Seq<char>,
    model: Seq<char>,
    action: Seq<char>,
    model_id: Seq<char>,
    query: Seq<char>,
)
    requires
        base.len() == 0 || base.last() != '/',
        weburl::url_path_of(base) == Ok::<Seq<char>, Seq<char>>(path),
        text::ends(path, "/v1beta"@),
        model.len() > 0,
        !model.contains('/') && !model.contains('?'),
        !action.contains('/') && !action.contains('?') && !action.contains(':'),
        model_id.len() > 0,
        text::has_single_slashes(path + ("/models/"@ + model_id + ":"@ + action)),
    ensures
        gemini_address(base, "/v1beta/models/"@ + model + ":"@ + action, query, model_id) == Ok::<
            Seq<char>,
            Seq<char>,
        >(
            weburl::readdressed(
                base,
                path + ("/models/"@ + model_id + ":"@ + action),
                keyless(query),
            ),
        ),
{
    reveal_strlit("/v1beta/models/");
    reveal_strlit("/models/");
    reveal_strlit("/v1beta");
    reveal_strlit(":");
    let piece = model + ":"@ + action;
    let target = "/v1beta/models/"@ + model + ":"@ + action;
    assert(target =~= "/v1beta/models/"@ + piece);
    assert(!piece.contains('/') && !piece.contains('?')) by {
        if piece.contains('/') || piece.contains('?') {
            let i = choose|i: int| 0 <= i < piece.len() && (piece[i] == '/' || piece[i] == '?');
            if i < model.len() {
                assert(model[i] == piece[i]);
            } else if i > model.len() {
                assert(action[i - model.len() - 1] == piece[i]);
            }
        }
    }
    assert(!target.contains('?')) by {
        if target.contains('?') {
            let i = choose|i: int| 0 <= i < target.len() && target[i] == '?';
            assert(i >= 15);
            assert(piece[i - 15] == '?');
        }
    }
    text::lemma_before_same(target, '?');
    assert(target.take(15) =~= "/v1beta/models/"@);
    assert(target.skip(15) =~= piece);
    assert(piece =~= model + seq![':'] + action);
    text::lemma_before_last_at(model, ':', action);
    assert(piece.skip(model.len() as int) =~= ":"@ + action);
    let named = "/v1beta/models/"@ + (model_id + (":"@ + action));
    assert(renamed_target(target, model_id) == named);
    let rest = "/models/"@ + model_id + ":"@ + action;
    assert(path.skip(path.len() - 7)[6] == path.last());
    assert(path.last() == 'a');
    assert(text::drop_trailing(path, '/') == path);
    assert(named.take(7) =~= "/v1beta"@);
    assert(named.skip(7) =~= rest);
    assert(rest[0] == '/');
    text::lemma_slashes_same(path + rest);
    assert(text::drop_trailing(base, '/') == base);
}

/// A part of a query carries the caller's key if and only if its name is that of the key.
pub proof fn law_key_part_is_known_by_its_name(name: Seq<char>, value: Seq<char>)
    requires
        !name.contains('='),
    ensures
        is_key_part(name + seq!['='] + value) == (name == "key"@),
        is_key_part(name) == (name == "key"@),
{
    text::lemma_before_at(name, '=', value);
    text::lemma_before_same(name, '=');
}

proof fn lemma_keyless_all(parts: Seq<Seq<char>>)
    requires
        forall|i: int| 0 <= i < parts.len() ==> !is_key_part(#[trigger] parts[i]),
    ensures
        keyless_parts(parts) == parts,
    decreases parts.len(),
{
    if parts.len() > 0 {
        let init = parts.drop_last();
        assert forall|i: int| 0 <= i < init.len() implies !is_key_part(#[trigger] init[i]) by {
            assert(init[i] == parts[i]);
        }
        lemma_keyless_all(init);
        assert(!is_key_part(parts[parts.len() - 1]));
        assert(init.push(parts.last()) =~= parts);
    }
}

proof fn lemma_keyless_sum(a: Seq<Seq<char>>, b: Seq<Seq<char>>)
    ensures
        keyless_parts(a + b) == keyless_parts(a) + keyless_parts(b),
    decreases b.len(),
{
    if b.len() == 0 {
        assert(a + b =~= a);
        assert(keyless_parts(a) + keyless_parts(b) =~= keyless_parts(a));
    } else {
        assert((a + b).drop_last() =~= a + b.drop_last());
        assert((a + b).last() == b.last());
        lemma_keyless_sum(a, b.drop_last());
        assert(keyless_parts(a + b) =~= keyless_parts(a) + keyless_parts(b));
    }
}

/// Only the caller's key is left out of a query: the parts before it and those after it stay, in
/// their order, and a query without a key stays as it is but for the question mark in front.
pub proof fn law_the_rest_of_a_query_stays(
    before: Seq<Seq<char>>,
    key: Seq<char>,
    after: Seq<Seq<char>>,
    query: Seq<char>,
)
    ensures
        (forall|i: int| 0 <= i < before.len() ==> !is_key_part(#[trigger] before[i])) && (forall|
            i: int,
        |
            0 <= i < after.len() ==> !is_key_part(#[trigger] after[i])) && is_key_part(key)
            ==> keyless_parts(before + seq![key] + after) == before + after,
        (query.len() == 0 || query[0] != '?') && (forall|i: int|
            0 <= i < text::split_on(query, '&').len() ==> !is_key_part(
                #[trigger] text::split_on(query, '&')[i],
            )) ==> keyless(query) == query && keyless(seq!['?'] + query) == query,
{
    if (forall|i: int| 0 <= i < before.len() ==> !is_key_part(#[trigger] before[i])) && (forall|
        i: int,
    |
        0 <= i < after.len() ==> !is_key_part(#[trigger] after[i])) && is_key_part(key) {
        lemma_keyless_all(before);
        lemma_keyless_all(after);
        lemma_keyless_sum(before + seq![key], after);
        lemma_keyless_sum(before, seq![key]);
        reveal_with_fuel(keyless_parts, 2);
        assert(seq![key].drop_last() =~= Seq::<Seq<char>>::empty());
        assert(keyless_parts(seq![key]) =~= Seq::<Seq<char>>::empty());
        assert(before + Seq::<Seq<char>>::empty() =~= before);
    }
    if (query.len() == 0 || query[0] != '?') && (forall|i: int|
        0 <= i < text::split_on(query, '&').len() ==> !is_key_part(
            #[trigger] text::split_on(query, '&')[i],
        )) {
        reveal_strlit("&");
        assert("&"@ =~= seq!['&']);
        lemma_keyless_all(text::split_on(query, '&'));
        text::lemma_split_joined(query, '&');
        let asked = seq!['?'] + query;
        reveal_with_fuel(text::drop_leading, 2);
        assert(asked.skip(1) =~= query);
    }
}

proof fn lemma_renamed(prefix: Seq<char>, model: Seq<char>, action: Seq<char>, model_id: Seq<char>)
    requires
        model.len() > 0,
        !model.contains('/'),
        !action.contains('/'),
        !action.contains(':'),
    ensures
        renamed_after(prefix + model + seq![':'] + action, prefix, model_id) == Some(
            prefix + model_id + seq![':'] + action,
        ),
        !model.contains(':') ==> renamed_after(prefix + model, prefix, model_id) == Some(
            prefix + model_id,
        ),
{
    let piece = model + seq![':'] + action;
    let target = prefix + model + seq![':'] + action;
    assert(target =~= prefix + piece);
    assert(target.take(prefix.len() as int) =~= prefix);
    assert(target.skip(prefix.len() as int) =~= piece);
    assert(!piece.contains('/')) by {
        if piece.contains('/') {
            let i = choose|i: int| 0 <= i < piece.len() && piece[i] == '/';
            if i < model.len() {
                assert(model[i] == '/');
            } else {
                assert(action[i - model.len() - 1] == '/');
            }
        }
    }
    text::lemma_before_last_at(model, ':', action);
    assert(piece.skip(model.len() as int) =~= seq![':'] + action);
    assert(prefix + (model_id + (seq![':'] + action)) =~= prefix + model_id + seq![':'] + action);
    let bare = prefix + model;
    assert(bare.take(prefix.len() as int) =~= prefix);
    assert(bare.skip(prefix.len() as int) =~= model);
    if !model.contains(':') {
        assert(text::before_last(model, ':') == model);
        assert(model.skip(model.len() as int) =~= Seq::<char>::empty());
        assert(model_id + Seq::<char>::empty() =~= model_id);
    }
}

/// The model in a target of the Gemini interface becomes the provider's own, with a version in front
/// or without one, with an action or without one; the action stays. Without a name of its own the
/// target stays as it is.
pub proof fn law_gemini_model_is_replaced(
    model: Seq<char>,
    action: Seq<char>,
    model_id: Seq<char>,
    target: Seq<char>,
)
    requires
        model.len() > 0,
        !model.contains('/'),
        !action.contains('/'),
        !action.contains(':'),
        model_id.len() > 0,
    ensures
        renamed_target("/v1beta/models/"@ + model + seq![':'] + action, model_id)
            == "/v1beta/models/"@ + model_id + seq![':'] + action,
        renamed_target("/models/"@ + model + seq![':'] + action, model_id) == "/models/"@ + model_id
            + seq![':'] + action,
        !model.contains(':') ==> renamed_target("/v1beta/models/"@ + model, model_id)
            == "/v1beta/models/"@ + model_id,
        !model.contains(':') ==> renamed_target("/models/"@ + model, model_id) == "/models/"@
            + model_id,
        renamed_target(target, Seq::empty()) == target,
        !text::begins(target, "/v1beta/models/"@) && !text::begins(target, "/models/"@)
            ==> renamed_target(target, model_id) == target,
{
    reveal_strlit("/v1beta/models/");
    reveal_strlit("/models/");
    lemma_renamed("/v1beta/models/"@, model, action, model_id);
    lemma_renamed("/models/"@, model, action, model_id);
    let a = "/models/"@ + model + seq![':'] + action;
    let b = "/models/"@ + model;
    assert(a[1] == 'm' && b[1] == 'm');
    if text::begins(a, "/v1beta/models/"@) {
        assert(a.take(15)[1] == 'v');
    }
    if text::begins(b, "/v1beta/models/"@) {
        assert(b.take(15)[1] == 'v');
    }
}

/// Below a base without a version of its own a target of the Gemini interface stands as it is.
pub proof fn law_gemini_target_stands_below_the_base(path: Seq<char>, rest: Seq<char>)
    requires
        path.len() == 0 || path.last() != '/',
        !text::ends(path, "/v1beta"@),
        rest.len() > 0,
        rest[0] == '/',
        !rest.contains('?'),
        text::has_single_slashes(path + rest),
    ensures
        gemini_joined_path(path, rest, Seq::empty()) == path + rest,
{
    text::lemma_before_same(rest, '?');
    text::lemma_slashes_same(path + rest);
    assert(text::drop_trailing(path, '/') == path);
}

/// A target may stand without a slash in front, and a query in it is not part of the path; slashes at
/// the end of the base count for nothing.
pub proof fn law_targets_may_be_written_in_several_ways(
    path: Seq<char>,
    target: Seq<char>,
    query: Seq<char>,
    model_id: Seq<char>,
)
    requires
        target.len() > 0,
        target[0] != '/',
        !target.contains('?'),
    ensures
        joined_path(path, target) == joined_path(path, seq!['/'] + target),
        joined_path(path, target + seq!['?'] + query) == joined_path(path, target),
        joined_path(path + seq!['/'], target) == joined_path(path, target),
        gemini_joined_path(path, target, model_id) == gemini_joined_path(
            path,
            seq!['/'] + target,
            model_id,
        ),
        gemini_joined_path(path, target + seq!['?'] + query, model_id) == gemini_joined_path(
            path,
            target,
            model_id,
        ),
        gemini_joined_path(path + seq!['/'], target, model_id) == gemini_joined_path(
            path,
            target,
            model_id,
        ),
{
    let slashed = seq!['/'] + target;
    assert(!slashed.contains('?')) by {
        if slashed.contains('?') {
            let i = choose|i: int| 0 <= i < slashed.len() && slashed[i] == '?';
            assert(target[i - 1] == '?');
        }
    }
    text::lemma_before_same(target, '?');
    text::lemma_before_same(slashed, '?');
    text::lemma_before_at(target, '?', query);
    assert((path + seq!['/']).drop_last() =~= path);
}

} // verus!
