//! The OAuth 2.0 client-credentials grant (non-interactive login).

use vstd::prelude::*;
use super::form_view;
use super::oidc::{DEFAULT_CLIENT_CREDENTIALS_SCOPE, OidcSettings};
use crate::error::Error;
use crate::text::owned;

verus! {

/// The scope a client-credentials request asks for.
pub open spec fn credentials_scope(settings: OidcSettings) -> Seq<char> {
    match settings.scope {
        Some(s) => s@,
        None => DEFAULT_CLIENT_CREDENTIALS_SCOPE@,
    }
}

/// The audience a token request names: the configured one, else the client id.
pub open spec fn audience_of(settings: OidcSettings) -> Seq<char> {
    match settings.audience {
        Some(a) => a@,
        None => settings.client_id@,
    }
}

/// The form body of a client-credentials token request: grant type, client
/// id, client secret, scope (default `openid`) and the effective audience.
///
/// Errors when no client secret is configured. The same id and secret are
/// also sent as HTTP Basic credentials.
pub fn form(settings: &OidcSettings) -> (r: Result<Vec<(String, String)>, Error>)
    ensures
        settings.client_secret is None ==> (r matches Err(Error::Auth(m))
            && m@ == "client-credentials flow requires a client secret"@),
        settings.client_secret is Some ==> (r matches Ok(f) && form_view(f@) == seq![
            ("grant_type"@, "client_credentials"@),
            ("client_id"@, settings.client_id@),
            ("client_secret"@, settings.client_secret->0@),
            ("scope"@, credentials_scope(*settings)),
            ("audience"@, audience_of(*settings)),
        ]),
{
    let secret = match &settings.client_secret {
        Some(s) => s,
        None => {
            return Err(Error::Auth(owned("client-credentials flow requires a client secret")));
        },
    };
    let scope = match &settings.scope {
        Some(s) => owned(s.as_str()),
        None => owned(DEFAULT_CLIENT_CREDENTIALS_SCOPE),
    };
    let mut f: Vec<(String, String)> = Vec::new();
    f.push((owned("grant_type"), owned("client_credentials")));
    f.push((owned("client_id"), owned(settings.client_id.as_str())));
    f.push((owned("client_secret"), owned(secret.as_str())));
    f.push((owned("scope"), scope));
    f.push((owned("audience"), owned(settings.effective_audience())));
    proof {
        assert(form_view(f@) =~= seq![
            ("grant_type"@, "client_credentials"@),
            ("client_id"@, settings.client_id@),
            ("client_secret"@, settings.client_secret->0@),
            ("scope"@, credentials_scope(*settings)),
            ("audience"@, audience_of(*settings)),
        ]);
    }
    Ok(f)
}

} // verus!
