//! Token responses, the (unverified) JWT payload, and expiry checks.
//!
//! No signature verification is performed client-side; the platform validates
//! tokens. Claims are decoded only for display (e.g. the logged-in user).

use vstd::prelude::*;
use base64::Engine as _;
use crate::error::Error;
use crate::text::{chars_of, owned, push_str, split_chars, split_on, string_of};

verus! {

/// A successful OAuth token endpoint response.
#[derive(Debug)]
pub struct TokenResponse {
    /// The OIDC ID token (what the platform consumes).
    pub id_token: Option<String>,
    /// The access token (parsed for completeness).
    pub access_token: Option<String>,
    /// A refresh token, when the provider issues one.
    pub refresh_token: Option<String>,
    /// Lifetime of the token in seconds.
    pub expires_in: Option<i64>,
}

/// Non-sensitive claims decoded from an ID token's payload, for display only.
#[derive(Debug)]
pub struct Claims {
    /// The subject (user) identifier.
    pub sub: Option<String>,
    /// The user's email, if present.
    pub email: Option<String>,
    /// The user's display name, if present.
    pub name: Option<String>,
    /// Expiry as a Unix timestamp (seconds).
    pub exp: Option<i64>,
}

impl Default for Claims {
    fn default() -> (r: Self)
        ensures
            r.sub is None && r.email is None && r.name is None && r.exp is None,
    {
        Claims { sub: None, email: None, name: None, exp: None }
    }
}

/// The label shown for a user: the email, else the name, else the subject.
pub open spec fn display_name_of(c: Claims) -> Option<Seq<char>> {
    match c.email {
        Some(e) => Some(e@),
        None => match c.name {
            Some(n) => Some(n@),
            None => match c.sub {
                Some(s) => Some(s@),
                None => None,
            },
        },
    }
}

impl Claims {
    /// A best-effort human label for the authenticated user.
    pub fn display_name(&self) -> (r: Option<&str>)
        ensures
            match r {
                Some(s) => display_name_of(*self) == Some(s@),
                None => display_name_of(*self) is None,
            },
    {
        match &self.email {
            Some(e) => Some(e.as_str()),
            None => match &self.name {
                Some(n) => Some(n.as_str()),
                None => match &self.sub {
                    Some(s) => Some(s.as_str()),
                    None => None,
                },
            },
        }
    }
}

/// What decoding `input` as unpadded URL-safe base64 gives: the bytes, or the
/// text of the decoding error.
pub uninterp spec fn url_safe_no_pad_decode(input: Seq<char>) -> Result<Seq<u8>, Seq<char>>;

/// `base64::engine::general_purpose::URL_SAFE_NO_PAD.decode(input)`, with the
/// error rendered as text.
///
/// Trusted: the outcome equals `url_safe_no_pad_decode(input@)`, a name for
/// what the `base64` crate computes on this input.
#[verifier::external_body]
fn decode_url_safe_no_pad(input: &str) -> (r: Result<Vec<u8>, String>)
    ensures
        match r {
            Ok(b) => url_safe_no_pad_decode(input@) == Ok::<Seq<u8>, Seq<char>>(b@),
            Err(m) => url_safe_no_pad_decode(input@) == Err::<Seq<u8>, Seq<char>>(m@),
        },
{
    base64::engine::general_purpose::URL_SAFE_NO_PAD.decode(input).map_err(|e| e.to_string())
}

/// The payload segment of a JWT: the second `.`-separated piece.
pub open spec fn jwt_payload_segment(jwt: Seq<char>) -> Option<Seq<char>> {
    let parts = split_on(jwt, '.');
    if parts.len() >= 2 {
        Some(parts[1])
    } else {
        None
    }
}

/// The message for a JWT without a payload segment.
pub open spec fn not_a_jwt_message() -> Seq<char> {
    "malformed id_token: not a JWT"@
}

/// What extracting the payload of `jwt` gives.
pub open spec fn jwt_payload(jwt: Seq<char>) -> Result<Seq<u8>, Seq<char>> {
    match jwt_payload_segment(jwt) {
        None => Err(not_a_jwt_message()),
        Some(seg) => match url_safe_no_pad_decode(seg) {
            Ok(b) => Ok(b),
            Err(m) => Err("cannot base64-decode id_token payload: "@ + m),
        },
    }
}

/// The decoded payload bytes of a JWT (its claims, as JSON).
///
/// Errors with an authentication error when the token has no payload
/// segment or the segment is not unpadded URL-safe base64.
pub fn claims_payload(jwt: &str) -> (r: Result<Vec<u8>, Error>)
    ensures
        match jwt_payload(jwt@) {
            Ok(b) => r matches Ok(v) && v@ == b,
            Err(m) => r matches Err(Error::Auth(s)) && s@ == m,
        },
{
    let parts = split_chars(&chars_of(jwt), '.');
    if parts.len() < 2 {
        return Err(Error::Auth(owned("malformed id_token: not a JWT")));
    }
    let seg = string_of(&parts[1]);
    match decode_url_safe_no_pad(seg.as_str()) {
        Ok(b) => Ok(b),
        Err(e) => {
            let mut m = owned("cannot base64-decode id_token payload: ");
            push_str(&mut m, e.as_str());
            Err(Error::Auth(m))
        },
    }
}

/// The current Unix time in seconds (`time::OffsetDateTime::now_utc()`).
///
/// Trusted to return; nothing is claimed of the value, which is the clock's.
#[verifier::external_body]
fn unix_now() -> (t: i64) {
    time::OffsetDateTime::now_utc().unix_timestamp()
}

/// Whether a token expiring at `exp` counts as expired at time `now`, when
/// tokens expiring within `skew_seconds` already count as expired.
pub open spec fn expired_at(now: int, exp: int, skew_seconds: int) -> bool {
    now + skew_seconds >= exp
}

/// Whether a token expiring at `exp` is expired at `now` (or expires within
/// `skew_seconds` of it).
pub fn is_expired_at(now: i64, exp: i64, skew_seconds: i64) -> (r: bool)
    ensures
        r == expired_at(now as int, exp as int, skew_seconds as int),
{
    (now as i128) + (skew_seconds as i128) >= (exp as i128)
}

/// Whether the token is expired (or expires within `skew_seconds`), by the
/// clock's current time.
pub fn is_expired(exp: i64, skew_seconds: i64) -> (r: bool)
    ensures
        exists|now: i64| r == expired_at(now as int, exp as int, skew_seconds as int),
{
    let now = unix_now();
    is_expired_at(now, exp, skew_seconds)
}

} // verus!
