//! Bearer-token authentication: token issuance on login, and per-request
//! verification of the `Authorization` header. Signing and verification
//! are done by an outside JWT library behind trusted wrappers; everything
//! around them — header parsing, claim handling — is verified.

use vstd::prelude::*;
use crate::errors::ApiError;

verus! {

/// The signed token that encodes the claims {subject, expiry} under this
/// secret; HMAC signing is deterministic, so it is a function of the
/// three alone.
pub uninterp spec fn token_of(sub: i32, exp: u64, secret: Seq<char>) -> Seq<char>;

/// Relies on jsonwebtoken::encode with the default HS256 header: signing
/// the claims {sub, exp} with the secret is deterministic, and for HS256
/// with a secret-derived key it cannot fail — the HMAC key accepts any
/// length and serializing the two claims is infallible.
#[verifier::external_body]
fn jwt_encode(sub: i32, exp: u64, secret: &str) -> (r: Option<String>)
    ensures
        r is Some,
        r matches Some(t) ==> t@ == token_of(sub, exp, secret@),
{
    let mut claims = serde_json::Map::new();
    claims.insert("sub".to_string(), serde_json::Value::from(sub));
    claims.insert("exp".to_string(), serde_json::Value::from(exp));
    jsonwebtoken::encode(
        &jsonwebtoken::Header::default(),
        &serde_json::Value::Object(claims),
        &jsonwebtoken::EncodingKey::from_secret(secret.as_bytes()),
    ).ok()
}

/// Relies on jsonwebtoken::decode with HS256 and default validation: the
/// subject claim of a token whose signature verifies and whose expiry
/// lies in the future. The outcome depends on the clock, so nothing is
/// promised of it.
#[verifier::external_body]
fn jwt_decode(token: &str, secret: &str) -> Option<i64> {
    jsonwebtoken::decode::<serde_json::Value>(
        token,
        &jsonwebtoken::DecodingKey::from_secret(secret.as_bytes()),
        &jsonwebtoken::Validation::new(jsonwebtoken::Algorithm::HS256),
    ).ok().and_then(|data| data.claims.get("sub").and_then(|v| v.as_i64()))
}

/// Issues the bearer token for a user: subject is the user id, expiry one
/// day after `now` (seconds since the epoch). Issuance never fails.
pub fn generate_jwt(user_id: i32, now: u64, secret: &str) -> (r: String)
    requires
        now + 86400 <= u64::MAX,
    ensures
        r@ == token_of(user_id, (now + 86400) as u64, secret@),
{
    let exp = now + 86400;
    match jwt_encode(user_id, exp, secret) {
        Some(t) => t,
        None => {
            proof {
                assert(false);
            }
            String::new()
        },
    }
}

/// Whether a header value carries a bearer token.
pub open spec fn starts_with_bearer(h: Seq<char>) -> bool {
    h.len() >= 7 && h.subrange(0, 7) == "Bearer "@
}

/// Maps a decoded subject claim to the authenticated user id: absent,
/// out-of-range or non-numeric subjects are all unauthorized.
pub fn authenticate_claims(claims: Option<i64>) -> (r: Result<i32, ApiError>)
    ensures
        match claims {
            Some(s) => if i32::MIN <= s <= i32::MAX {
                r == Ok::<i32, ApiError>(s as i32)
            } else {
                r == Err::<i32, ApiError>(ApiError::Unauthorized)
            },
            None => r == Err::<i32, ApiError>(ApiError::Unauthorized),
        },
{
    match claims {
        Some(s) => {
            if i32::MIN as i64 <= s && s <= i32::MAX as i64 {
                Ok(s as i32)
            } else {
                Err(ApiError::Unauthorized)
            }
        },
        None => Err(ApiError::Unauthorized),
    }
}

/// Authenticates one request from its `Authorization` header: the header
/// must be present, carry a bearer token, and the token must verify and
/// be unexpired; the verified user id is handed to the handlers. A
/// missing or malformed header is rejected outright.
pub fn require_auth(header: Option<&str>, secret: &str) -> (r: Result<i32, ApiError>)
    ensures
        header is None ==> r == Err::<i32, ApiError>(ApiError::Unauthorized),
        header matches Some(h) && !starts_with_bearer(h@) ==> r == Err::<i32, ApiError>(
            ApiError::Unauthorized,
        ),
        r is Ok ==> (header matches Some(h) && starts_with_bearer(h@)),
        r is Err ==> r == Err::<i32, ApiError>(ApiError::Unauthorized),
{
    let h = match header {
        Some(h) => h,
        None => {
            return Err(ApiError::Unauthorized);
        },
    };
    let n = h.unicode_len();
    if n < 7 {
        return Err(ApiError::Unauthorized);
    }
    let prefix = h.substring_char(0, 7);
    if !crate::text::str_eq(prefix, "Bearer ") {
        return Err(ApiError::Unauthorized);
    }
    let token = h.substring_char(7, n);
    authenticate_claims(jwt_decode(token.to_owned().as_str(), secret))
}

} // verus!
