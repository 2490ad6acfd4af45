//! Password hashes.
use vstd::prelude::*;

verus! {

/// What bcrypt says of a password and a hash: whether they belong together, or nothing where the
/// hash is not a well-formed one.
pub uninterp spec fn bcrypt_verdict(password: Seq<char>, hash: Seq<char>) -> Option<bool>;

/// Whether the password belongs to the hash. A malformed hash belongs to no password.
pub open spec fn opens(password: Seq<char>, hash: Seq<char>) -> bool {
    bcrypt_verdict(password, hash) == Some(true)
}

/// Calls `bcrypt::verify`, which hashes the password with the salt and the cost that the hash
/// names and compares. The result is named, not described: the hash function is not written out
/// here. An error of the crate (the hash is malformed) becomes `None`.
#[verifier::external_body]
fn bcrypt_verify(password: &str, hash: &str) -> (r: Option<bool>)
    ensures
        r == bcrypt_verdict(password@, hash@),
{
    bcrypt::verify(password, hash).ok()
}

/// Calls `bcrypt::hash` with the crate's default cost. The salt is random, so nothing is said of
/// the text of the hash; what holds of each one is that `bcrypt::verify` accepts the password with
/// it. It fails where the system gives no random bytes, which is left open.
#[verifier::external_body]
fn bcrypt_hash(password: &str) -> (r: Result<String, String>)
    ensures
        r matches Ok(h) ==> bcrypt_verdict(password@, h@) == Some(true),
{
    bcrypt::hash(password, bcrypt::DEFAULT_COST).map_err(|e| e.to_string())
}

/// Whether the password belongs to the hash.
pub fn verify_password(password: &str, hash: &str) -> (r: bool)
    ensures
        r == opens(password@, hash@),
{
    match bcrypt_verify(password, hash) {
        Some(b) => b,
        None => false,
    }
}

/// A new hash of the password, which the password opens.
pub fn hash_password(password: &str) -> (r: Result<String, String>)
    ensures
        r matches Ok(h) ==> opens(password@, h@),
{
    bcrypt_hash(password)
}

} // verus!
