//! Shared-secret authentication and bearer session tokens.
//!
//! A client proves it holds the shared secret and receives a random session
//! token; the service stores only the token's SHA-256 hex digest. Every
//! later request presents the token as `Authorization: Bearer <token>`.

use vstd::prelude::*;

use crate::encoding::{hex_encode, hex_lower, is_lower_hex, lemma_hex_lower_shape, random_bytes, sha256, sha256_digest};
use crate::error::AppError;
use crate::text::{chars_of, str_eq, string_of};
use vstd::string::StringSliceAdditionalSpecFns;

verus! {

/// The caller identity attached to an authenticated request.
#[derive(Debug)]
pub struct ServiceSession {
    pub service_name: String,
}

impl Clone for ServiceSession {
    fn clone(&self) -> (r: Self)
        ensures
            r.service_name@ == self.service_name@,
    {
        ServiceSession { service_name: self.service_name.clone() }
    }
}

/// Body of `POST /internal/auth`.
pub struct AuthRequest {
    pub shared_secret: String,
    pub service_name: String,
}

/// Reply to `POST /internal/auth`.
pub struct AuthResponse {
    pub session_token: String,
}

/// The token for 32 drawn bytes: their lowercase hex encoding.
pub fn token_from_bytes(bytes: &[u8]) -> (r: String)
    requires
        bytes@.len() == 32,
    ensures
        r@ == hex_lower(bytes@),
        r@.len() == 64,
        is_lower_hex(r@),
{
    let s = hex_encode(bytes);
    proof {
        lemma_hex_lower_shape(bytes@);
    }
    s
}

/// A fresh random token: 32 random bytes, hex-encoded (256 bits of entropy).
pub fn generate_token() -> (r: String)
    ensures
        exists|b: Seq<u8>| b.len() == 32 && r@ == hex_lower(b),
        r@.len() == 64,
        is_lower_hex(r@),
{
    let bytes = random_bytes(32);
    token_from_bytes(bytes.as_slice())
}

/// What is stored for a token: the lowercase hex SHA-256 of its UTF-8 bytes.
pub open spec fn token_hash_spec(token: Seq<char>) -> Seq<char> {
    hex_lower(sha256_digest(vstd::utf8::encode_utf8(token)))
}

/// SHA-256 hex digest for storage / lookup.
pub fn hash_token(token: &str) -> (r: String)
    ensures
        r@ == token_hash_spec(token@),
        r@.len() == 64,
        is_lower_hex(r@),
{
    let digest = sha256(token.as_bytes());
    let s = hex_encode(digest.as_slice());
    proof {
        lemma_hex_lower_shape(digest@);
    }
    s
}

/// `s` with the prefix `p` removed, if it starts with `p`.
pub open spec fn strip_prefix_spec(s: Seq<char>, p: Seq<char>) -> Option<Seq<char>> {
    if p.len() <= s.len() && s.take(p.len() as int) == p {
        Some(s.skip(p.len() as int))
    } else {
        None
    }
}

/// `str::strip_prefix`, returning an owned string.
pub fn strip_prefix(s: &str, prefix: &str) -> (r: Option<String>)
    ensures
        match strip_prefix_spec(s@, prefix@) {
            Some(t) => r matches Some(u) && u@ == t,
            None => r is None,
        },
{
    let cs = chars_of(s);
    let ps = chars_of(prefix);
    if ps.len() > cs.len() {
        return None;
    }
    let mut i: usize = 0;
    while i < ps.len()
        invariant
            cs@ == s@,
            ps@ == prefix@,
            ps@.len() <= cs@.len(),
            i <= ps@.len(),
            forall|j: int| 0 <= j < i ==> cs@[j] == ps@[j],
        decreases ps@.len() - i,
    {
        if cs[i] != ps[i] {
            proof {
                assert(s@.take(prefix@.len() as int)[i as int] != prefix@[i as int]);
            }
            return None;
        }
        i = i + 1;
    }
    assert(s@.take(prefix@.len() as int) =~= prefix@);
    let mut rest: Vec<char> = Vec::new();
    let mut k: usize = ps.len();
    while k < cs.len()
        invariant
            cs@ == s@,
            ps@.len() <= k <= cs@.len(),
            rest@ == cs@.subrange(ps@.len() as int, k as int),
        decreases cs@.len() - k,
    {
        rest.push(cs[k]);
        k = k + 1;
        assert(rest@ =~= cs@.subrange(ps@.len() as int, k as int));
    }
    assert(rest@ =~= s@.skip(prefix@.len() as int));
    Some(string_of(&rest))
}

/// Why a request was refused before reaching its handler.
#[derive(Debug, Clone, Copy, PartialEq, Eq, Structural)]
pub enum AuthRejection {
    /// No `Authorization` header (or one that is not visible ASCII).
    MissingHeader,
    /// The header does not start with `Bearer `.
    BadFormat,
    /// The session lookup itself failed.
    LookupFailed,
    /// No live session has this token.
    InvalidSession,
}

impl AuthRejection {
    /// HTTP status of the refusal.
    pub fn status(self) -> (r: u16)
        ensures
            r == (if self == AuthRejection::LookupFailed { 500u16 } else { 401u16 }),
    {
        match self {
            AuthRejection::LookupFailed => 500,
            _ => 401,
        }
    }

    /// The `error` field of the refusal's body.
    pub fn message(self) -> (r: &'static str)
        ensures
            r@ == (match self {
                AuthRejection::MissingHeader => "missing authorization header"@,
                AuthRejection::BadFormat => "invalid authorization format"@,
                AuthRejection::LookupFailed => "auth lookup failed"@,
                AuthRejection::InvalidSession => "invalid or expired session token"@,
            }),
    {
        match self {
            AuthRejection::MissingHeader => "missing authorization header",
            AuthRejection::BadFormat => "invalid authorization format",
            AuthRejection::LookupFailed => "auth lookup failed",
            AuthRejection::InvalidSession => "invalid or expired session token",
        }
    }
}

/// The token of an `Authorization: Bearer <token>` header.
pub fn extract_bearer(header: Option<&str>) -> (r: Result<String, AuthRejection>)
    ensures
        match header {
            None => r == Err::<String, AuthRejection>(AuthRejection::MissingHeader),
            Some(h) => match strip_prefix_spec(h@, "Bearer "@) {
                Some(t) => r matches Ok(u) && u@ == t,
                None => r == Err::<String, AuthRejection>(AuthRejection::BadFormat),
            },
        },
{
    match header {
        None => Err(AuthRejection::MissingHeader),
        Some(h) => match strip_prefix(h, "Bearer ") {
            Some(t) => Ok(t),
            None => Err(AuthRejection::BadFormat),
        },
    }
}

/// The session attached to a request, from the lookup of its token hash.
pub fn session_from_lookup(lookup: Result<Option<String>, AppError>) -> (r: Result<ServiceSession, AuthRejection>)
    ensures
        match lookup {
            Err(_) => r == Err::<ServiceSession, AuthRejection>(AuthRejection::LookupFailed),
            Ok(None) => r == Err::<ServiceSession, AuthRejection>(AuthRejection::InvalidSession),
            Ok(Some(name)) => r matches Ok(s) && s.service_name@ == name@,
        },
{
    match lookup {
        Err(_) => Err(AuthRejection::LookupFailed),
        Ok(None) => Err(AuthRejection::InvalidSession),
        Ok(Some(name)) => Ok(ServiceSession { service_name: name }),
    }
}

/// The WebSocket bearer: the `Authorization` header's token if it has the
/// `Bearer ` form, otherwise the `?token=` query parameter (browsers cannot
/// set headers on the upgrade request).
pub fn ws_bearer(header: Option<&str>, query_token: Option<String>) -> (r: Option<String>)
    ensures
        match header {
            Some(h) if strip_prefix_spec(h@, "Bearer "@) is Some => r matches Some(u) && u@
                == strip_prefix_spec(h@, "Bearer "@)->0,
            _ => match query_token {
                Some(q) => r matches Some(u) && u@ == q@,
                None => r is None,
            },
        },
{
    let from_header = match header {
        Some(h) => strip_prefix(h, "Bearer "),
        None => None,
    };
    match from_header {
        Some(t) => Some(t),
        None => query_token,
    }
}

/// The shared-secret check of `POST /internal/auth` and the admin grant.
pub fn check_shared_secret(given: &str, expected: &str) -> (r: Result<(), AppError>)
    ensures
        given@ == expected@ ==> r is Ok,
        given@ != expected@ ==> (r matches Err(AppError::Unauthorized(m)) && m@ == "invalid shared secret"@),
{
    if str_eq(given, expected) {
        Ok(())
    } else {
        Err(AppError::Unauthorized("invalid shared secret".to_owned()))
    }
}

/// `POST /internal/auth` up to the write: the shared secret is checked,
/// then a fresh token is minted together with the hash that is stored for
/// it (the token itself is never stored).
pub fn issue_token(req: &AuthRequest, shared_secret: &str) -> (r: Result<(String, String), AppError>)
    ensures
        req.shared_secret@ != shared_secret@ ==> (r matches Err(AppError::Unauthorized(m)) && m@
            == "invalid shared secret"@),
        req.shared_secret@ == shared_secret@ ==> (r matches Ok((token, hash)) && token@.len() == 64 && is_lower_hex(
            token@,
        ) && (exists|b: Seq<u8>| b.len() == 32 && token@ == hex_lower(b)) && hash@ == token_hash_spec(token@)),
{
    check_shared_secret(req.shared_secret.as_str(), shared_secret)?;
    let token = generate_token();
    let hash = hash_token(token.as_str());
    Ok((token, hash))
}

/// The token presented to `POST /internal/heartbeat`.
pub fn heartbeat_token(header: Option<&str>) -> (r: Result<String, AppError>)
    ensures
        match header {
            Some(h) if strip_prefix_spec(h@, "Bearer "@) is Some => r matches Ok(u) && u@
                == strip_prefix_spec(h@, "Bearer "@)->0,
            _ => r matches Err(AppError::Unauthorized(m)) && m@ == "missing bearer token"@,
        },
{
    let t = match header {
        Some(h) => strip_prefix(h, "Bearer "),
        None => None,
    };
    match t {
        Some(t) => Ok(t),
        None => Err(AppError::Unauthorized("missing bearer token".to_owned())),
    }
}

/// The heartbeat answer once the session row was (or was not) touched.
pub fn heartbeat_result(touched: bool) -> (r: Result<(), AppError>)
    ensures
        touched ==> r is Ok,
        !touched ==> (r matches Err(AppError::Unauthorized(m)) && m@ == "invalid session token"@),
{
    if touched {
        Ok(())
    } else {
        Err(AppError::Unauthorized("invalid session token".to_owned()))
    }
}

/// Polling period of the stale-session reaper for a heartbeat window of
/// `window_secs`: a third of the window, but at least five seconds.
pub fn reaper_period_nanos(window_secs: u64) -> (r: u128)
    ensures
        r == (if window_secs as int * 1_000_000_000 / 3 >= 5_000_000_000 {
            window_secs as int * 1_000_000_000 / 3
        } else {
            5_000_000_000
        }),
{
    let third: u128 = window_secs as u128 * 1_000_000_000 / 3;
    if third >= 5_000_000_000 {
        third
    } else {
        5_000_000_000
    }
}

} // verus!
