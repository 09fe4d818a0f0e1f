//! Authentication: the credentials cache, OIDC settings, token handling and
//! the decisions of the login flows.

pub mod cache;
pub mod oidc;
pub mod token;
pub mod client_credentials;
pub mod device;

use vstd::prelude::*;
use crate::auth::cache::CachedToken;
use crate::auth::token::{expired_at, is_expired_at, TokenResponse};
use crate::config::ResolvedConfig;
use crate::error::Error;
use crate::project::frontmatter::opt_view;
use crate::text::{chars_of, chars_start_with, copy_opt_string, owned, push_str, starts_with, string_of_range, trim, trim_str};

verus! {

/// The fields of a form body as plain text pairs.
pub open spec fn form_view(f: Seq<(String, String)>) -> Seq<(Seq<char>, Seq<char>)> {
    f.map_values(|p: (String, String)| (p.0@, p.1@))
}


/// Which login flow to use.
#[derive(Debug, Clone, Copy, PartialEq, Eq, Structural)]
pub enum LoginMode {
    /// Force the interactive device-code flow.
    Interactive,
    /// Force the non-interactive client-credentials flow.
    NonInteractive,
    /// Auto-select based on whether a client secret is configured.
    Auto,
}

/// The flow a login runs.
#[derive(Debug, Clone, Copy, PartialEq, Eq, Structural)]
pub enum LoginFlow {
    /// The OAuth client-credentials grant.
    ClientCredentials,
    /// The OAuth device authorization grant.
    DeviceCode,
}

/// Choose the login flow for `mode`: the forced one, or client credentials
/// exactly when a client secret is configured. A forced non-interactive login
/// without a secret is an error.
pub fn select_flow(mode: LoginMode, has_secret: bool) -> (r: Result<LoginFlow, Error>)
    ensures
        mode == LoginMode::Interactive ==> r == Ok::<LoginFlow, Error>(LoginFlow::DeviceCode),
        mode == LoginMode::NonInteractive && has_secret ==> r == Ok::<LoginFlow, Error>(LoginFlow::ClientCredentials),
        mode == LoginMode::NonInteractive && !has_secret ==> (r matches Err(Error::Auth(m))
            && m@ == "non-interactive login requires a client secret in [platform.oidc]"@),
        mode == LoginMode::Auto ==> r == Ok::<LoginFlow, Error>(
            if has_secret { LoginFlow::ClientCredentials } else { LoginFlow::DeviceCode },
        ),
{
    match mode {
        LoginMode::Interactive => Ok(LoginFlow::DeviceCode),
        LoginMode::NonInteractive => {
            if has_secret {
                Ok(LoginFlow::ClientCredentials)
            } else {
                Err(Error::Auth(owned("non-interactive login requires a client secret in [platform.oidc]")))
            }
        },
        LoginMode::Auto => {
            if has_secret {
                Ok(LoginFlow::ClientCredentials)
            } else {
                Ok(LoginFlow::DeviceCode)
            }
        },
    }
}

/// Pre-supplied token sources, resolved from CLI/config/env.
#[derive(Debug)]
pub struct TokenSources {
    /// An explicit token from `--token`, `[auth].id_token`, or env.
    pub explicit_token: Option<String>,
    /// A path to a file containing the id token (`[auth].token_file`).
    pub token_file: Option<String>,
}

impl Default for TokenSources {
    fn default() -> (r: Self)
        ensures
            r.explicit_token is None && r.token_file is None,
    {
        TokenSources { explicit_token: None, token_file: None }
    }
}

impl TokenSources {
    /// Build token sources from resolved config and an optional `--token`
    /// flag, which wins over the configured token.
    pub fn from_config(config: &ResolvedConfig, cli_token: Option<String>) -> (r: Self)
        ensures
            opt_view(r.explicit_token) == (match cli_token {
                Some(t) => Some(t@),
                None => opt_view(config.id_token),
            }),
            opt_view(r.token_file) == opt_view(config.token_file),
    {
        let explicit_token = match cli_token {
            Some(t) => Some(t),
            None => copy_opt_string(&config.id_token),
        };
        TokenSources { explicit_token, token_file: copy_opt_string(&config.token_file) }
    }
}

/// Where a usable id token is looked for first.
#[derive(Debug)]
pub enum TokenSource {
    /// An explicitly supplied token, used as is.
    Explicit(String),
    /// A file holding the token, read and trimmed.
    File(String),
    /// The credentials cache, then minting with a client secret.
    Stored,
}

/// The documented precedence: an explicit token, else the token file, else
/// the cache (and minting).
pub fn token_source(sources: &TokenSources) -> (r: TokenSource)
    ensures
        match sources.explicit_token {
            Some(t) => r matches TokenSource::Explicit(u) && u@ == t@,
            None => match sources.token_file {
                Some(p) => r matches TokenSource::File(q) && q@ == p@,
                None => r is Stored,
            },
        },
{
    match &sources.explicit_token {
        Some(t) => TokenSource::Explicit(owned(t.as_str())),
        None => match &sources.token_file {
            Some(p) => TokenSource::File(owned(p.as_str())),
            None => TokenSource::Stored,
        },
    }
}

/// The part of a path after a leading `~/`, which is taken relative to the
/// home directory.
pub fn home_relative(path: &str) -> (r: Option<String>)
    ensures
        starts_with(path@, "~/"@) ==> (r matches Some(rest) && rest@ == path@.skip(2)),
        !starts_with(path@, "~/"@) ==> r is None,
{
    let v = chars_of(path);
    let p = chars_of("~/");
    proof {
        reveal_strlit("~/");
    }
    if chars_start_with(&v, &p) {
        let rest = string_of_range(&v, 2, v.len());
        proof {
            assert(v@.subrange(2, v@.len() as int) =~= path@.skip(2));
        }
        Some(rest)
    } else {
        None
    }
}

/// The token held in a token file: its contents, trimmed.
pub fn token_from_file(contents: &str) -> (r: String)
    ensures
        r@ == trim(contents@),
{
    trim_str(contents)
}

/// The error for a token file that could not be read.
pub fn token_file_error(path: &str, reason: &str) -> (r: Error)
    ensures
        r matches Error::Auth(m) && m@ == "cannot read token_file "@ + path@ + ": "@ + reason@,
{
    let mut m = owned("cannot read token_file ");
    push_str(&mut m, path);
    push_str(&mut m, ": ");
    push_str(&mut m, reason);
    Error::Auth(m)
}

/// What a cached token is good for.
#[derive(Debug)]
pub enum CachedUse {
    /// It is still valid: use this id token.
    Use(String),
    /// It expired but has a refresh token: try refreshing with it.
    Refresh(String),
    /// It expired and cannot be refreshed.
    Skip,
}

/// How many seconds before its expiry a cached token stops being used.
pub const EXPIRY_SKEW_SECONDS: i64 = 60;

/// Whether a cached token with expiry `expires_at` is expired at `now`; one
/// without an expiry never is.
pub open spec fn cached_expired(expires_at: Option<i64>, now: i64) -> bool {
    match expires_at {
        Some(exp) => expired_at(now as int, exp as int, EXPIRY_SKEW_SECONDS as int),
        None => false,
    }
}

/// Decide how to use a cached token at time `now`.
pub fn cached_use(cached: &CachedToken, now: i64) -> (r: CachedUse)
    ensures
        !cached_expired(cached.expires_at, now) ==> (r matches CachedUse::Use(t) && t@ == cached.id_token@),
        cached_expired(cached.expires_at, now) ==> match cached.refresh_token {
            Some(rt) => r matches CachedUse::Refresh(t) && t@ == rt@,
            None => r is Skip,
        },
{
    let expired = match cached.expires_at {
        Some(exp) => is_expired_at(now, exp, EXPIRY_SKEW_SECONDS),
        None => false,
    };
    if !expired {
        return CachedUse::Use(owned(cached.id_token.as_str()));
    }
    match &cached.refresh_token {
        Some(rt) => CachedUse::Refresh(owned(rt.as_str())),
        None => CachedUse::Skip,
    }
}

/// The last step of resolving a token when no source gave one: mint with the
/// client secret when one is configured, else fail.
pub fn mint_or_fail(has_secret: bool) -> (r: Result<(), Error>)
    ensures
        has_secret ==> r is Ok,
        !has_secret ==> (r matches Err(Error::Auth(m)) && m@ == "not logged in"@),
{
    if has_secret {
        Ok(())
    } else {
        Err(Error::Auth(owned("not logged in")))
    }
}

/// The id token of a token response, or an error when the provider did not
/// return one.
pub fn response_id_token(resp: &TokenResponse) -> (r: Result<String, Error>)
    ensures
        match resp.id_token {
            Some(t) => r matches Ok(u) && u@ == t@,
            None => r matches Err(Error::Auth(m)) && m@ == "the provider did not return an id_token"@,
        },
{
    match &resp.id_token {
        Some(t) => Ok(owned(t.as_str())),
        None => Err(Error::Auth(owned("the provider did not return an id_token"))),
    }
}

/// The expiry recorded for a fresh token: the `exp` claim, else `now` plus
/// the response's lifetime, else none.
pub open spec fn entry_expiry(claims_exp: Option<i64>, expires_in: Option<i64>, now: i64) -> Option<int> {
    match claims_exp {
        Some(e) => Some(e as int),
        None => match expires_in {
            Some(secs) => Some(now + secs),
            None => None,
        },
    }
}

/// The cache entry for a token response from `issuer`.
pub fn cached_entry(
    resp: &TokenResponse,
    id_token: &str,
    claims_exp: Option<i64>,
    issuer: &str,
    now: i64,
) -> (r: CachedToken)
    requires
        claims_exp is None && resp.expires_in is Some ==> i64::MIN <= now + resp.expires_in->0 <= i64::MAX,
    ensures
        r.id_token@ == id_token@,
        opt_view(r.refresh_token) == opt_view(resp.refresh_token),
        match r.expires_at {
            Some(e) => entry_expiry(claims_exp, resp.expires_in, now) == Some(e as int),
            None => entry_expiry(claims_exp, resp.expires_in, now) is None,
        },
        r.issuer@ == issuer@,
{
    let expires_at = match claims_exp {
        Some(e) => Some(e),
        None => match resp.expires_in {
            Some(secs) => Some(now + secs),
            None => None,
        },
    };
    CachedToken {
        id_token: owned(id_token),
        refresh_token: copy_opt_string(&resp.refresh_token),
        expires_at,
        issuer: owned(issuer),
    }
}

/// A refreshed cache entry keeps the refresh token it was refreshed with when
/// the provider did not issue a new one.
pub fn keep_refresh_token(entry: CachedToken, refresh_token: &str) -> (r: CachedToken)
    ensures
        r.id_token == entry.id_token,
        r.expires_at == entry.expires_at,
        r.issuer == entry.issuer,
        match entry.refresh_token {
            Some(t) => r.refresh_token == Some(t),
            None => r.refresh_token matches Some(t) && t@ == refresh_token@,
        },
{
    let mut e = entry;
    if e.refresh_token.is_none() {
        e.refresh_token = Some(owned(refresh_token));
    }
    e
}

} // verus!
