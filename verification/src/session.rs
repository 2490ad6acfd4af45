//! The sessions of the administrator: tokens that show who asks.
use vstd::prelude::*;

use crate::admin;
use crate::clock;
use crate::config::AppConfig;
use crate::text;

verus! {

/// Why a caller is not taken for the administrator.
#[derive(Debug)]
pub enum TokenFault {
    /// No token was shown, or not the name and password of the administrator.
    Unauthorized,
    /// The token is not a good one, for the given reason.
    Invalid(String),
}

impl TokenFault {
    /// The text of the fault.
    pub fn message(&self) -> (r: String)
        ensures
            match self {
                TokenFault::Unauthorized => r@ == "Unauthorized"@,
                TokenFault::Invalid(e) => r@ == "JWT error: "@ + e@,
            },
    {
        match self {
            TokenFault::Unauthorized => "Unauthorized".to_owned(),
            TokenFault::Invalid(e) => text::cat("JWT error: ", e.as_str()),
        }
    }
}

// ---------------------------------------------------------------------------
// Tokens
// ---------------------------------------------------------------------------

/// What a token says that is signed with a secret: the name of the user and the second at which the
/// session ends, each where it is there. `None` where the token is not signed with the secret.
pub uninterp spec fn signed_claims(token: Seq<char>, secret: Seq<char>) -> Option<
    (Option<Seq<char>>, Option<u64>),
>;

/// The token that says who the user is and when the session ends, signed with a secret.
pub uninterp spec fn token_text(username: Seq<char>, expiry: u64, secret: Seq<char>) -> Seq<char>;

/// What the claims of a token hold.
pub open spec fn claims_view(c: (Option<String>, Option<u64>)) -> (Option<Seq<char>>, Option<u64>) {
    (text::opt_text(c.0), c.1)
}

/// Calls `jsonwebtoken::decode` with the crate's default checks: the token is signed with the secret
/// by HMAC with SHA-256, and the session has not ended. What a signed token says is named; the error
/// of the crate becomes its message. Whether the session has ended rests on the time, so when a
/// signed token is refused is left unsaid.
#[verifier::external_body]
fn decode_token(token: &str, secret: &str) -> (r: Result<(Option<String>, Option<u64>), String>)
    ensures
        r matches Ok(c) ==> signed_claims(token@, secret@) == Some(claims_view(c)),
{
    let key = jsonwebtoken::DecodingKey::from_secret(secret.as_bytes());
    let checks = jsonwebtoken::Validation::default();
    let read = jsonwebtoken::decode::<serde_json::Value>(token, &key, &checks);
    read.map(|d| (
        d.claims.get("username").and_then(|v| v.as_str()).map(|s| s.to_string()),
        d.claims.get("exp").and_then(|v| v.as_u64()),
    )).map_err(|e| e.to_string())
}

/// Calls `jsonwebtoken::encode` with the crate's default header, that is with HMAC and SHA-256, which
/// takes any secret and does not fail. The token is named; read with the same secret it says what it
/// was made of.
#[verifier::external_body]
fn encode_token(username: &str, expiry: u64, secret: &str) -> (r: Result<String, String>)
    ensures
        r is Ok,
        r matches Ok(t) ==> t@ == token_text(username@, expiry, secret@),
        r matches Ok(t) ==> signed_claims(t@, secret@) == Some((Some(username@), Some(expiry))),
{
    let key = jsonwebtoken::EncodingKey::from_secret(secret.as_bytes());
    let mut claims = serde_json::Map::new();
    claims.insert("username".to_string(), serde_json::Value::from(username));
    claims.insert("exp".to_string(), serde_json::Value::from(expiry));
    let header = jsonwebtoken::Header::default();
    jsonwebtoken::encode(&header, &claims, &key).map_err(|e| e.to_string())
}

// ---------------------------------------------------------------------------
// Who is taken for the administrator
// ---------------------------------------------------------------------------

/// What becomes of the claims of a token: they are good if both are there.
pub fn admitted(claims: Result<(Option<String>, Option<u64>), String>) -> (r: Result<(), String>)
    ensures
        match claims {
            Err(e) => r == Err::<(), String>(e),
            Ok((None, _)) => r matches Err(e) && e@ == "JSON error: missing field `username`"@,
            Ok((Some(_), None)) => r matches Err(e) && e@ == "JSON error: missing field `exp`"@,
            Ok((Some(_), Some(_))) => r is Ok,
        },
{
    match claims {
        Err(e) => Err(e),
        Ok((None, _)) => Err("JSON error: missing field `username`".to_owned()),
        Ok((Some(_), None)) => Err("JSON error: missing field `exp`".to_owned()),
        Ok((Some(_), Some(_))) => Ok(()),
    }
}

/// Whether a token is signed with the secret and says who the user is and when the session ends.
pub open spec fn is_signed(token: Seq<char>, secret: Seq<char>) -> bool {
    signed_claims(token, secret) matches Some((Some(_), Some(_)))
}

/// Whether the caller is taken for the administrator. One who shows no token is not, and one who
/// shows a token only if it is signed with the secret and complete; whether its session has ended
/// is left to the time.
pub fn require_admin(
    authorization: Option<&str>,
    query_token: Option<&str>,
    secret: &str,
) -> (r: Result<(), TokenFault>)
    ensures
        match admin::shown_token(text::opt_str(authorization), text::opt_str(query_token)) {
            None => r == Err::<(), TokenFault>(TokenFault::Unauthorized),
            Some(t) => match r {
                Ok(_) => is_signed(t, secret@),
                Err(e) => e is Invalid,
            },
        },
{
    match admin::admin_token(authorization, query_token) {
        None => Err(TokenFault::Unauthorized),
        Some(token) => match admitted(decode_token(token.as_str(), secret)) {
            Ok(_) => Ok(()),
            Err(e) => Err(TokenFault::Invalid(e)),
        },
    }
}

/// The token for a user who logs in at a time: the one that ends with the session. None but the
/// administrator gets one.
pub fn issue_token_at(
    cfg: &AppConfig,
    username: &str,
    password: &str,
    secret: &str,
    now: clock::Moment,
) -> (r: Result<String, TokenFault>)
    requires
        0 <= now.secs <= i64::MAX - admin::SESSION_SECS,
    ensures
        if admin::is_admin(cfg@.admin, username@, password@) {
            r matches Ok(t) && is_token_at(t@, username@, secret@, now)
        } else {
            r == Err::<String, TokenFault>(TokenFault::Unauthorized)
        },
{
    if !admin::login(cfg, username, password) {
        return Err(TokenFault::Unauthorized);
    }
    let expiry: u64 = admin::session_expiry_at(now) as u64;
    match encode_token(username, expiry, secret) {
        Ok(t) => Ok(t),
        Err(e) => Err(TokenFault::Invalid(e)),
    }
}

/// Whether a token is the one for a user who logs in at a time: it says so when it is read.
pub open spec fn is_token_at(
    token: Seq<char>,
    username: Seq<char>,
    secret: Seq<char>,
    now: clock::Moment,
) -> bool {
    let expiry = (now.secs + admin::SESSION_SECS) as u64;
    &&& token == token_text(username, expiry, secret)
    &&& signed_claims(token, secret) == Some((Some(username), Some(expiry)))
}

/// The token for a user who logs in now.
pub fn issue_token(cfg: &AppConfig, username: &str, password: &str, secret: &str) -> (r: Result<
    String,
    TokenFault,
>)
    ensures
        if admin::is_admin(cfg@.admin, username@, password@) {
            r matches Ok(t) && exists|now: clock::Moment|
                0 <= now.secs < clock::SECS_LIMIT && #[trigger] is_token_at(
                    t@,
                    username@,
                    secret@,
                    now,
                )
        } else {
            r == Err::<String, TokenFault>(TokenFault::Unauthorized)
        },
{
    let now = clock::now();
    issue_token_at(cfg, username, password, secret, now)
}

/// A token that was made when the administrator logged in is signed and complete: it opens what
/// needs the administrator, until its session has ended.
pub proof fn law_issued_token_is_signed(
    token: Seq<char>,
    username: Seq<char>,
    secret: Seq<char>,
    now: clock::Moment,
)
    requires
        is_token_at(token, username, secret, now),
    ensures
        is_signed(token, secret),
{
}

/// A token says who the user is and that the session ends after seven days, as it is signed. Claims
/// without a name or without an end make no token good.
pub proof fn law_token_ends_with_the_session(
    token: Seq<char>,
    username: Seq<char>,
    secret: Seq<char>,
    now: clock::Moment,
    expiry: Option<u64>,
)
    requires
        0 <= now.secs < clock::SECS_LIMIT,
    ensures
        is_token_at(token, username, secret, now) ==> signed_claims(token, secret) == Some(
            (Some(username), Some((now.secs + 7 * 24 * 60 * 60) as u64)),
        ),
        signed_claims(token, secret) == Some((None::<Seq<char>>, expiry)) ==> !is_signed(
            token,
            secret,
        ),
        signed_claims(token, secret) == Some((Some(username), None::<u64>)) ==> !is_signed(
            token,
            secret,
        ),
        signed_claims(token, secret) is None ==> !is_signed(token, secret),
{
}

} // verus!
