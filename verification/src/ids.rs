//! Identifiers that are made up.
use vstd::prelude::*;

use crate::text;

verus! {

/// Whether a character is a hexadecimal digit in lower case.
pub open spec fn is_lower_hex(c: char) -> bool {
    '0' <= c <= '9' || 'a' <= c <= 'f'
}

/// Whether a text is a random identifier without hyphens.
pub open spec fn is_simple_id(s: Seq<char>) -> bool {
    &&& s.len() == 32
    &&& forall|i: int| 0 <= i < s.len() ==> is_lower_hex(#[trigger] s[i])
    &&& s[12] == '4'
}

/// Whether a text is a random identifier with hyphens.
pub open spec fn is_hyphenated_id(s: Seq<char>) -> bool {
    &&& s.len() == 36
    &&& forall|i: int|
        0 <= i < s.len() ==> (if i == 8 || i == 13 || i == 18 || i == 23 {
            #[trigger] s[i] == '-'
        } else {
            is_lower_hex(s[i])
        })
    &&& s[14] == '4'
}

/// Calls `uuid::Uuid::new_v4` and writes the identifier with `simple`. It is random, so nothing is
/// said of its digits but that there are thirty-two, hexadecimal and in lower case, the first of the
/// third group being the version.
#[verifier::external_body]
fn random_simple() -> (r: String)
    ensures
        is_simple_id(r@),
{
    uuid::Uuid::new_v4().simple().to_string()
}

/// Calls `uuid::Uuid::new_v4` and writes the identifier with `to_string`. It is random, so nothing
/// is said of its digits but that they are hexadecimal, in lower case and in five groups with
/// hyphens between them, the first of the third group being the version.
#[verifier::external_body]
fn random_hyphenated() -> (r: String)
    ensures
        is_hyphenated_id(r@),
{
    uuid::Uuid::new_v4().to_string()
}

/// A new identifier without hyphens.
pub fn new_simple_id() -> (r: String)
    ensures
        is_simple_id(r@),
{
    random_simple()
}

/// A new identifier for a request.
pub fn new_request_id() -> (r: String)
    ensures
        is_hyphenated_id(r@),
{
    random_hyphenated()
}

/// The text of a key for callers that is made of an identifier.
pub open spec fn virtual_key_text(id: Seq<char>) -> Seq<char> {
    "sk-vk-"@ + id
}

/// The text of a key for callers that is made of an identifier.
pub fn virtual_key_from(id: &str) -> (r: String)
    ensures
        r@ == virtual_key_text(id@),
{
    text::cat("sk-vk-", id)
}

/// A new text of a key for callers.
pub fn new_virtual_key() -> (r: String)
    ensures
        exists|id: Seq<char>| is_simple_id(id) && r@ == #[trigger] virtual_key_text(id),
{
    let id = random_simple();
    virtual_key_from(id.as_str())
}

/// The text of a key for callers says that it is one, and keys of different identifiers differ.
pub proof fn law_keys_differ(a: Seq<char>, b: Seq<char>)
    ensures
        virtual_key_text(a).len() == 6 + a.len(),
        virtual_key_text(a).take(6) == "sk-vk-"@,
        a != b ==> virtual_key_text(a) != virtual_key_text(b),
{
    reveal_strlit("sk-vk-");
    assert(virtual_key_text(a).take(6) =~= "sk-vk-"@);
    assert(virtual_key_text(a).skip(6) =~= a);
    assert(virtual_key_text(b).skip(6) =~= b);
}

} // verus!
