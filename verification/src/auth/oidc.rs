//! OIDC settings and discovery-document handling.

use vstd::prelude::*;
use crate::config::ResolvedConfig;
use crate::project::frontmatter::opt_view;
use crate::text::{chars_of, copy_opt_string, owned, push_str, string_of_range};

verus! {

/// The default public Auth0 issuer for the Tenzir Platform.
pub const DEFAULT_ISSUER: &'static str = "https://tenzir.eu.auth0.com/";

/// The default public OIDC client id.
pub const DEFAULT_CLIENT_ID: &'static str = "vzRh8grIVu1bwutvZbbpBDCOvSzN8AXh";

/// The default scope for the interactive device-code flow.
pub const DEFAULT_DEVICE_SCOPE: &'static str = "openid email";

/// The default scope for the non-interactive client-credentials flow.
pub const DEFAULT_CLIENT_CREDENTIALS_SCOPE: &'static str = "openid";

/// Resolved OIDC parameters, derived from the `[platform.oidc]` config table
/// and built-in defaults.
#[derive(Debug)]
pub struct OidcSettings {
    /// The OIDC issuer URL (no trailing-slash assumptions are made).
    pub issuer: String,
    /// The OAuth client id.
    pub client_id: String,
    /// The OAuth client secret, when using client-credentials.
    pub client_secret: Option<String>,
    /// An optional audience override.
    pub audience: Option<String>,
    /// An optional scope override (otherwise flow-specific defaults apply).
    pub scope: Option<String>,
}

impl Default for OidcSettings {
    fn default() -> (r: Self)
        ensures
            r.issuer@ == DEFAULT_ISSUER@,
            r.client_id@ == DEFAULT_CLIENT_ID@,
            r.client_secret is None,
            r.audience is None,
            r.scope is None,
    {
        OidcSettings {
            issuer: owned(DEFAULT_ISSUER),
            client_id: owned(DEFAULT_CLIENT_ID),
            client_secret: None,
            audience: None,
            scope: None,
        }
    }
}

/// `s` without any trailing `c` characters (`str::trim_end_matches`).
pub open spec fn trim_end_char(s: Seq<char>, c: char) -> Seq<char>
    decreases s.len(),
{
    if s.len() > 0 && s.last() == c {
        trim_end_char(s.drop_last(), c)
    } else {
        s
    }
}

/// The number of characters of `s` left after trimming trailing `c`.
fn trimmed_end_len(v: &Vec<char>, c: char) -> (n: usize)
    ensures
        n <= v.len(),
        v@.take(n as int) == trim_end_char(v@, c),
{
    let mut n = v.len();
    proof {
        assert(v@.take(n as int) =~= v@);
    }
    while n > 0 && v[n - 1] == c
        invariant
            n <= v.len(),
            trim_end_char(v@.take(n as int), c) == trim_end_char(v@, c),
        decreases n,
    {
        proof {
            assert(v@.take(n as int).drop_last() =~= v@.take(n - 1));
        }
        n = n - 1;
    }
    n
}

/// The URL of the discovery document of an issuer.
pub open spec fn discovery_url_of(issuer: Seq<char>) -> Seq<char> {
    trim_end_char(issuer, '/') + "/.well-known/openid-configuration"@
}

impl OidcSettings {
    /// Resolve settings from the `[platform.oidc]` config table over defaults.
    pub fn from_config(config: &ResolvedConfig) -> (r: Self)
        ensures
            r.issuer@ == (match config.oidc_issuer {
                Some(i) => i@,
                None => DEFAULT_ISSUER@,
            }),
            r.client_id@ == (match config.client_id {
                Some(c) => c@,
                None => DEFAULT_CLIENT_ID@,
            }),
            opt_view(r.client_secret) == opt_view(config.client_secret),
            opt_view(r.audience) == opt_view(config.oidc_audience),
            opt_view(r.scope) == opt_view(config.oidc_scope),
    {
        let mut settings = Self::default();
        if let Some(issuer) = &config.oidc_issuer {
            settings.issuer = owned(issuer.as_str());
        }
        if let Some(client_id) = &config.client_id {
            settings.client_id = owned(client_id.as_str());
        }
        settings.client_secret = copy_opt_string(&config.client_secret);
        settings.audience = copy_opt_string(&config.oidc_audience);
        settings.scope = copy_opt_string(&config.oidc_scope);
        settings
    }

    /// The effective audience for token requests: the configured audience,
    /// else the `client_id`.
    pub fn effective_audience(&self) -> (r: &str)
        ensures
            r@ == (match self.audience {
                Some(a) => a@,
                None => self.client_id@,
            }),
    {
        match &self.audience {
            Some(a) => a.as_str(),
            None => self.client_id.as_str(),
        }
    }

    /// The URL of the OIDC discovery document for this issuer.
    pub fn discovery_url(&self) -> (r: String)
        ensures
            r@ == discovery_url_of(self.issuer@),
    {
        let v = chars_of(self.issuer.as_str());
        let n = trimmed_end_len(&v, '/');
        let mut url = string_of_range(&v, 0, n);
        push_str(&mut url, "/.well-known/openid-configuration");
        proof {
            assert(v@.subrange(0, n as int) =~= v@.take(n as int));
        }
        url
    }
}

/// The subset of the OIDC discovery document that is consumed.
#[derive(Debug)]
pub struct DiscoveryDocument {
    /// The token endpoint URL.
    pub token_endpoint: String,
    /// The device authorization endpoint URL (absent on some providers).
    pub device_authorization_endpoint: Option<String>,
}

} // verus!
