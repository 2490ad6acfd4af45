//! Addresses of upstream services.
use vstd::prelude::*;

use crate::text;

verus! {

/// The last position in an address: the `url` crate keeps positions in 32 bits, and panics on an
/// address that outgrows them.
pub const LAST_POSITION: usize = 0xFFFF_FFFF;

/// The bytes of an address for one character in each of the texts that it is made of, at most. In a
/// host a character is mapped to eighteen at most, and each of these takes ten bytes at most in
/// Punycode: 180. Elsewhere it is percent-encoded, in twelve bytes at most; a path of the base that
/// is encoded a second time takes 144, which is less. To the 180 of the base come twelve of a target,
/// twelve of a query, and one for what stands between the parts.
pub const CHAR_GROWTH: usize = 205;

/// The greatest length of the texts that an address is made of.
pub const URL_LIMIT: usize = LAST_POSITION / CHAR_GROWTH;

/// The path of the address that a text names, or the message of the error where it names none.
pub uninterp spec fn url_path_of(s: Seq<char>) -> Result<Seq<char>, Seq<char>>;

/// The scheme of the address that a text names.
pub uninterp spec fn url_scheme_of(s: Seq<char>) -> Option<Seq<char>>;

/// The text of the address that `base` names, with another path.
pub uninterp spec fn url_with_path(base: Seq<char>, path: Seq<char>) -> Seq<char>;

/// The text of the address that `base` names, with another path and another query.
pub uninterp spec fn url_with_path_and_query(
    base: Seq<char>,
    path: Seq<char>,
    query: Seq<char>,
) -> Seq<char>;

/// The names and values of a query.
pub uninterp spec fn form_fields(query: Seq<char>) -> Seq<(Seq<char>, Seq<char>)>;

/// The texts of pairs of strings.
pub open spec fn pairs(v: Seq<(String, String)>) -> Seq<(Seq<char>, Seq<char>)> {
    Seq::new(v.len(), |i: int| (v[i].0@, v[i].1@))
}

/// The texts of a result made of strings.
pub open spec fn result_text(r: Result<String, String>) -> Result<Seq<char>, Seq<char>> {
    match r {
        Ok(s) => Ok(s@),
        Err(e) => Err(e@),
    }
}

/// Whether a text names an address.
pub open spec fn is_url(s: Seq<char>) -> bool {
    url_path_of(s) is Ok
}

/// Calls `url::Url::parse` and `path`. The path is named, not described; an error of the crate
/// becomes its message.
#[verifier::external_body]
fn parse_path(s: &str) -> (r: Result<String, String>)
    ensures
        result_text(r) == url_path_of(s@),
{
    url::Url::parse(s).map(|u| u.path().to_string()).map_err(|e| e.to_string())
}

/// Calls `url::Url::parse` and `scheme`. The scheme is named, not described; there is one where the
/// text names an address.
#[verifier::external_body]
fn parse_scheme(s: &str) -> (r: Option<String>)
    ensures
        text::opt_text(r) == url_scheme_of(s@),
        r is Some == is_url(s@),
{
    url::Url::parse(s).ok().map(|u| u.scheme().to_string())
}

/// Calls `url::Url::parse`, `set_path` and `to_string`. The text is named, not described. The
/// lengths keep the address within the positions of the crate.
#[verifier::external_body]
fn replace_path(base: &str, path: &str) -> (r: String)
    requires
        is_url(base@),
        base@.len() <= URL_LIMIT,
        path@.len() <= url_path_of(base@)->Ok_0.len() + URL_LIMIT,
    ensures
        r@ == url_with_path(base@, path@),
{
    let mut address = url::Url::parse(base).unwrap();
    address.set_path(path);
    address.to_string()
}

/// Calls `url::Url::parse`, `set_path`, `set_query` and `to_string`. The text is named, not
/// described. The lengths keep the address within the positions of the crate.
#[verifier::external_body]
fn replace_path_and_query(base: &str, path: &str, query: &str) -> (r: String)
    requires
        is_url(base@),
        base@.len() <= URL_LIMIT,
        path@.len() <= url_path_of(base@)->Ok_0.len() + URL_LIMIT,
        query@.len() <= URL_LIMIT,
    ensures
        r@ == url_with_path_and_query(base@, path@, query@),
{
    let mut address = url::Url::parse(base).unwrap();
    address.set_path(path);
    address.set_query(Some(query));
    address.to_string()
}

/// Calls `url::form_urlencoded::parse`, which splits a query into names and values and decodes
/// them. The pairs are named, not described.
#[verifier::external_body]
fn parse_form(query: &str) -> (r: Vec<(String, String)>)
    ensures
        pairs(r@) == form_fields(query@),
{
    url::form_urlencoded::parse(query.as_bytes()).into_owned().collect()
}

/// The path of the address that a text names, or the message of the error.
pub fn path_of(s: &str) -> (r: Result<String, String>)
    ensures
        result_text(r) == url_path_of(s@),
{
    parse_path(s)
}

/// Whether a text names an address.
pub fn names_address(s: &str) -> (r: bool)
    ensures
        r == is_url(s@),
{
    parse_path(s).is_ok()
}

/// Whether a text names an address of the web.
pub open spec fn is_web(s: Seq<char>) -> bool {
    url_scheme_of(s) == Some("http"@) || url_scheme_of(s) == Some("https"@)
}

/// Whether a text names an address of the web.
pub fn names_web_address(s: &str) -> (r: bool)
    ensures
        r == is_web(s@),
{
    match parse_scheme(s) {
        Some(scheme) => text::same(scheme.as_str(), "http") || text::same(
            scheme.as_str(),
            "https",
        ),
        None => false,
    }
}

/// The address that `base` names with another path, and with another query where one is given.
pub open spec fn readdressed(base: Seq<char>, path: Seq<char>, query: Seq<char>) -> Seq<char> {
    if query.len() == 0 {
        url_with_path(base, path)
    } else {
        url_with_path_and_query(base, path, text::drop_leading(query, '?'))
    }
}

/// The address that `base` names with another path, and with another query where one is given.
pub(crate) fn readdress(base: &str, path: &str, query: &str) -> (r: String)
    requires
        is_url(base@),
        base@.len() <= URL_LIMIT,
        path@.len() <= url_path_of(base@)->Ok_0.len() + URL_LIMIT,
        query@.len() <= URL_LIMIT,
    ensures
        r@ == readdressed(base@, path@, query@),
{
    if query.is_empty() {
        replace_path(base, path)
    } else {
        let plain = text::trim_leading(query, '?');
        proof {
            text::lemma_drop_len(query@, '?');
        }
        replace_path_and_query(base, path, plain.as_str())
    }
}

/// The first value of a query that is named `name` and is not blank.
pub open spec fn first_field(fields: Seq<(Seq<char>, Seq<char>)>, name: Seq<char>) -> Option<
    Seq<char>,
>
    decreases fields.len(),
{
    if fields.len() == 0 {
        None
    } else if fields[0].0 == name && !text::blank(fields[0].1) {
        Some(fields[0].1)
    } else {
        first_field(fields.skip(1), name)
    }
}

/// The first value among the pairs that is named `name` and is not blank.
pub fn find_field(fields: &Vec<(String, String)>, name: &str) -> (r: Option<String>)
    ensures
        text::opt_text(r) == first_field(pairs(fields@), name@),
{
    let n: usize = fields.len();
    let ghost all = pairs(fields@);
    assert(all.skip(0) =~= all);
    for i in 0..n
        invariant
            n == fields@.len(),
            all == pairs(fields@),
            first_field(all, name@) == first_field(all.skip(i as int), name@),
    {
        let f = &fields[i];
        assert(all.skip(i as int)[0] == (f.0@, f.1@));
        if text::same(f.0.as_str(), name) && !text::is_blank(f.1.as_str()) {
            return Some(f.1.clone());
        }
        assert(all.skip(i as int).skip(1) =~= all.skip(i + 1));
    }
    None
}

/// The key that a query carries under the name `key`.
pub fn query_key(query: Option<&str>) -> (r: Option<String>)
    ensures
        text::opt_text(r) == (match query {
            Some(q) => first_field(form_fields(q@), "key"@),
            None => None,
        }),
{
    match query {
        Some(q) => {
            let fields = parse_form(q);
            find_field(&fields, "key")
        },
        None => None,
    }
}

/// The value of a name in a query is the first one under that name that is not blank, and there is
/// none where all are blank.
pub proof fn law_first_value_counts(
    fields: Seq<(Seq<char>, Seq<char>)>,
    name: Seq<char>,
    i: int,
)
    requires
        0 <= i <= fields.len(),
        forall|j: int|
            0 <= j < i ==> (#[trigger] fields[j]).0 != name || text::blank(fields[j].1),
    ensures
        i < fields.len() && fields[i].0 == name && !text::blank(fields[i].1) ==> first_field(
            fields,
            name,
        ) == Some(fields[i].1),
        i == fields.len() ==> first_field(fields, name) is None,
    decreases fields.len(),
{
    if i > 0 {
        assert(fields[0].0 != name || text::blank(fields[0].1));
        let rest = fields.skip(1);
        assert forall|j: int| 0 <= j < i - 1 implies (#[trigger] rest[j]).0 != name || text::blank(
            rest[j].1,
        ) by {
            assert(rest[j] == fields[j + 1]);
        }
        law_first_value_counts(rest, name, i - 1);
    }
}

/// An address gets another query where one is given, without the question mark in front, and none
/// where none is.
pub proof fn law_query_goes_along(base: Seq<char>, path: Seq<char>, query: Seq<char>)
    requires
        query.len() > 0,
        query[0] != '?',
    ensures
        readdressed(base, path, Seq::empty()) == url_with_path(base, path),
        readdressed(base, path, query) == url_with_path_and_query(base, path, query),
        readdressed(base, path, seq!['?'] + query) == url_with_path_and_query(base, path, query),
{
    let asked = seq!['?'] + query;
    reveal_with_fuel(text::drop_leading, 2);
    assert(asked.skip(1) =~= query);
}

/// An address of the web is one with the scheme of the web, plain or secured.
pub proof fn law_web_is_known_by_its_scheme(s: Seq<char>, scheme: Seq<char>)
    requires
        url_scheme_of(s) == Some(scheme),
    ensures
        is_web(s) == (scheme == "http"@ || scheme == "https"@),
{
}

} // verus!
