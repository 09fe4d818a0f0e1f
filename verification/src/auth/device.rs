//! The OAuth 2.0 device authorization grant (interactive login).
//!
//! The requests and the waiting are the caller's; this module builds the
//! request bodies and decides, for each answer of the token endpoint, whether
//! to keep polling or to give up.

use vstd::prelude::*;
use super::form_view;
use super::oidc::{DiscoveryDocument, DEFAULT_DEVICE_SCOPE, OidcSettings};
use crate::error::Error;
use crate::text::{owned, push_str, str_eq};

verus! {

/// The scope a device authorization asks for.
pub open spec fn device_scope(settings: OidcSettings) -> Seq<char> {
    match settings.scope {
        Some(s) => s@,
        None => DEFAULT_DEVICE_SCOPE@,
    }
}

/// The device authorization endpoint, or an error when the provider does not
/// advertise one.
pub fn device_endpoint(discovery: &DiscoveryDocument) -> (r: Result<&str, Error>)
    ensures
        match discovery.device_authorization_endpoint {
            Some(e) => r matches Ok(s) && s@ == e@,
            None => r matches Err(Error::Auth(m))
                && m@ == "the OIDC provider does not advertise a device authorization endpoint"@,
        },
{
    match &discovery.device_authorization_endpoint {
        Some(e) => Ok(e.as_str()),
        None => Err(Error::Auth(owned("the OIDC provider does not advertise a device authorization endpoint"))),
    }
}

/// The form body of the device authorization request: the client id, the
/// scope (default `openid email`), and the audience only when one is
/// configured (the device flow never falls back to the client id).
pub fn authorization_form(settings: &OidcSettings) -> (r: Vec<(String, String)>)
    ensures
        form_view(r@) == seq![("client_id"@, settings.client_id@), ("scope"@, device_scope(*settings))] + match settings.audience {
            Some(a) => seq![("audience"@, a@)],
            None => Seq::empty(),
        },
{
    let scope = match &settings.scope {
        Some(s) => owned(s.as_str()),
        None => owned(DEFAULT_DEVICE_SCOPE),
    };
    let mut f: Vec<(String, String)> = Vec::new();
    f.push((owned("client_id"), owned(settings.client_id.as_str())));
    f.push((owned("scope"), scope));
    if let Some(aud) = &settings.audience {
        f.push((owned("audience"), owned(aud.as_str())));
    }
    proof {
        assert(form_view(f@) =~= seq![("client_id"@, settings.client_id@), ("scope"@, device_scope(*settings))] + match settings.audience {
            Some(a) => seq![("audience"@, a@)],
            None => Seq::empty(),
        });
    }
    f
}

/// The form body of one token poll.
pub fn poll_form(device_code: &str, client_id: &str) -> (r: Vec<(String, String)>)
    ensures
        form_view(r@) == seq![
            ("grant_type"@, "urn:ietf:params:oauth:grant-type:device_code"@),
            ("device_code"@, device_code@),
            ("client_id"@, client_id@),
        ],
{
    let mut f: Vec<(String, String)> = Vec::new();
    f.push((owned("grant_type"), owned("urn:ietf:params:oauth:grant-type:device_code")));
    f.push((owned("device_code"), owned(device_code)));
    f.push((owned("client_id"), owned(client_id)));
    proof {
        assert(form_view(f@) =~= seq![
            ("grant_type"@, "urn:ietf:params:oauth:grant-type:device_code"@),
            ("device_code"@, device_code@),
            ("client_id"@, client_id@),
        ]);
    }
    f
}

/// The first polling interval: the server's, but at least one second.
/// The polling interval in seconds when the provider names none.
pub fn default_interval() -> (r: u64)
    ensures
        r == 5,
{
    5
}

pub fn initial_interval(interval: u64) -> (r: u64)
    ensures
        r == if interval < 1 { 1 } else { interval },
{
    if interval < 1 { 1 } else { interval }
}

/// How long the device code stays valid: the server's `expires_in`, but at
/// least one second.
pub fn validity_seconds(expires_in: u64) -> (r: u64)
    ensures
        r == if expires_in < 1 { 1 } else { expires_in },
{
    if expires_in < 1 { 1 } else { expires_in }
}

/// What to do after the token endpoint answered a poll with an error.
#[derive(Debug)]
pub enum PollStep {
    /// Keep polling, waiting this many seconds first.
    Wait(u64),
    /// Stop with this error.
    Fail(Error),
}

/// The message for an unknown polling error code, with its description.
pub open spec fn poll_failure_message(code: Seq<char>, description: Option<Seq<char>>) -> Seq<char> {
    "device login failed ("@ + code + ")"@ + match description {
        Some(d) => ": "@ + d,
        None => Seq::empty(),
    }
}

/// Whether `code` is one of the polling error codes with a fixed meaning.
pub open spec fn known_poll_code(code: Seq<char>) -> bool {
    code == "authorization_pending"@ || code == "slow_down"@ || code == "expired_token"@
        || code == "access_denied"@
}

/// Whether `s` stops the login with an authentication error saying `m`.
pub open spec fn fails_with(s: PollStep, m: Seq<char>) -> bool {
    s matches PollStep::Fail(Error::Auth(t)) && t@ == m
}

/// Decide the next step after the token endpoint answered with error `code`.
pub fn next_poll(code: &str, description: Option<&str>, interval: u64) -> (r: PollStep)
    requires
        code@ == "slow_down"@ ==> interval + 5 <= u64::MAX,
    ensures
        code@ == "authorization_pending"@ ==> r == PollStep::Wait(interval),
        code@ == "slow_down"@ ==> r == PollStep::Wait((interval + 5) as u64),
        code@ == "expired_token"@ ==> fails_with(r, "device login expired"@),
        code@ == "access_denied"@ ==> fails_with(r, "device login was denied"@),
        !known_poll_code(code@) ==> fails_with(r, poll_failure_message(code@, match description {
            Some(d) => Some(d@),
            None => None,
        })),
{
    proof {
        reveal_strlit("authorization_pending");
        reveal_strlit("slow_down");
        reveal_strlit("expired_token");
        reveal_strlit("access_denied");
        assert("slow_down"@[0] != "authorization_pending"@[0]);
        assert("expired_token"@[0] != "authorization_pending"@[0]);
        assert("expired_token"@[0] != "slow_down"@[0]);
        assert("access_denied"@[1] != "authorization_pending"@[1]);
        assert("access_denied"@[0] != "slow_down"@[0]);
        assert("access_denied"@[0] != "expired_token"@[0]);
    }
    if str_eq(code, "authorization_pending") {
        PollStep::Wait(interval)
    } else if str_eq(code, "slow_down") {
        PollStep::Wait(interval + 5)
    } else if str_eq(code, "expired_token") {
        PollStep::Fail(Error::Auth(owned("device login expired")))
    } else if str_eq(code, "access_denied") {
        PollStep::Fail(Error::Auth(owned("device login was denied")))
    } else {
        let mut m = owned("device login failed (");
        push_str(&mut m, code);
        push_str(&mut m, ")");
        if let Some(d) = description {
            push_str(&mut m, ": ");
            push_str(&mut m, d);
        }
        proof {
            assert(m@ =~= poll_failure_message(code@, match description {
                Some(d) => Some(d@),
                None => None,
            }));
        }
        PollStep::Fail(Error::Auth(m))
    }
}

} // verus!
