use base64::Engine as _;
use tzctl::auth::cache::{Cache, CachedToken, CachedUserKey, CredentialStore};
use tzctl::auth::client_credentials;
use tzctl::auth::device::{authorization_form, next_poll, poll_form, PollStep};
use tzctl::auth::oidc::{OidcSettings, DEFAULT_CLIENT_ID, DEFAULT_ISSUER};
use tzctl::auth::token::{claims_payload, is_expired, is_expired_at, Claims};
use tzctl::auth::{
    cached_use, home_relative, select_flow, token_source, CachedUse, LoginFlow, LoginMode,
    TokenSource, TokenSources,
};
use tzctl::config::{resolve, CliOverrides, Config, EnvOverrides};
use tzctl::error::Error;

fn token(id: &str) -> CachedToken {
    CachedToken {
        id_token: id.to_string(),
        refresh_token: None,
        expires_at: Some(9_999_999_999),
        issuer: "https://issuer.test/".to_string(),
    }
}

#[test]
fn round_trip() {
    let tmp = tempfile::tempdir().unwrap();
    let mut cache = Cache::new(tmp.path().join("credentials.json").to_string_lossy().into_owned());
    let endpoint = "https://api.test";
    assert!(cache.get(endpoint, "https://issuer.test/").is_none());

    cache.put(endpoint, token("abc"));
    let got = cache.get(endpoint, "https://issuer.test/").unwrap();
    assert_eq!(got.id_token, "abc");

    assert!(cache.remove(endpoint, "https://issuer.test/"));
    assert!(cache.get(endpoint, "https://issuer.test/").is_none());
    assert!(!cache.remove(endpoint, "https://issuer.test/"));
}

#[test]
fn keys_are_isolated_per_endpoint() {
    let tmp = tempfile::tempdir().unwrap();
    let mut cache = Cache::new(tmp.path().join("credentials.json").to_string_lossy().into_owned());
    cache.put("https://a.test", token("token-a"));
    cache.put("https://b.test", token("token-b"));
    assert_eq!(cache.get("https://a.test", "https://issuer.test/").unwrap().id_token, "token-a");
    assert_eq!(cache.get("https://b.test", "https://issuer.test/").unwrap().id_token, "token-b");
}

#[test]
fn logout_drops_the_endpoints_user_keys_only() {
    let mut cache = Cache::new("credentials.json".to_string());
    let key = |k: &str| CachedUserKey { user_key: k.to_string(), expires_at: None };
    cache.put("https://a.test", token("t"));
    cache.put_user_key("https://a.test", "t-aaaa1111", key("ka"));
    cache.put_user_key("https://b.test", "t-aaaa1111", key("kb"));
    cache.mark_saved();
    assert!(!cache.needs_save());
    assert!(cache.remove("https://a.test", "https://issuer.test/"));
    assert!(cache.needs_save());
    assert!(cache.get_user_key("https://a.test", "t-aaaa1111").is_none());
    assert_eq!(cache.get_user_key("https://b.test", "t-aaaa1111").unwrap().user_key, "kb");
    assert_eq!(cache.store().tokens.len(), 0);
    assert_eq!(cache.store().user_keys.len(), 1);
}

#[test]
fn put_replaces_and_remove_user_key_reports() {
    let mut store = CredentialStore::new();
    store.tokens.insert("https://a.test|https://issuer.test/".to_string(), token("old"));
    let mut cache = Cache::with_store("c.json".to_string(), store);
    assert_eq!(cache.path(), "c.json");
    assert!(!cache.needs_save());
    cache.put("https://a.test", token("new"));
    assert_eq!(cache.get("https://a.test", "https://issuer.test/").unwrap().id_token, "new");
    assert_eq!(cache.store().tokens.len(), 1);
    cache.mark_saved();
    assert!(!cache.remove_user_key("https://a.test", "t-x"));
    assert!(!cache.needs_save());
    cache.put_user_key("https://a.test", "t-x", CachedUserKey { user_key: "k".to_string(), expires_at: Some(5) });
    assert!(cache.remove_user_key("https://a.test", "t-x"));
    assert!(cache.get_user_key("https://a.test", "t-x").is_none());
}

#[test]
fn discovery_url_handles_trailing_slash() {
    let s = OidcSettings { issuer: "https://example.test/".to_string(), ..Default::default() };
    assert_eq!(s.discovery_url(), "https://example.test/.well-known/openid-configuration");
    let s2 = OidcSettings { issuer: "https://example.test".to_string(), ..Default::default() };
    assert_eq!(s2.discovery_url(), "https://example.test/.well-known/openid-configuration");
}

#[test]
fn defaults_are_public_platform() {
    let s = OidcSettings::default();
    assert_eq!(s.issuer, DEFAULT_ISSUER);
    assert_eq!(s.client_id, DEFAULT_CLIENT_ID);
    assert!(s.client_secret.is_none());
}

#[test]
fn settings_follow_the_config() {
    let mut config = Config::default();
    config.platform.oidc.issuer = Some("https://issuer.test/".to_string());
    config.platform.oidc.client_secret = Some("s".to_string());
    let resolved = resolve(&CliOverrides::default(), &EnvOverrides::default(), &config, None, None).unwrap();
    let s = OidcSettings::from_config(&resolved);
    assert_eq!(s.issuer, "https://issuer.test/");
    assert_eq!(s.client_id, DEFAULT_CLIENT_ID);
    assert_eq!(s.client_secret.as_deref(), Some("s"));
    assert_eq!(s.effective_audience(), DEFAULT_CLIENT_ID);
}

#[test]
fn explicit_token_wins() {
    let mut config = Config::default();
    config.auth.id_token = Some("inline-token".to_string());
    config.auth.token_file = Some("/tmp/token".to_string());
    let resolved = resolve(&CliOverrides::default(), &EnvOverrides::default(), &config, None, None).unwrap();
    let sources = TokenSources::from_config(&resolved, None);
    assert!(matches!(token_source(&sources), TokenSource::Explicit(t) if t == "inline-token"));
}

#[test]
fn cli_token_overrides_config() {
    let mut config = Config::default();
    config.auth.id_token = Some("inline-token".to_string());
    let resolved = resolve(&CliOverrides::default(), &EnvOverrides::default(), &config, None, None).unwrap();
    let sources = TokenSources::from_config(&resolved, Some("flag-token".to_string()));
    assert!(matches!(token_source(&sources), TokenSource::Explicit(t) if t == "flag-token"));
}

#[test]
fn token_file_is_next_then_the_cache() {
    let sources = TokenSources { explicit_token: None, token_file: Some("~/tok".to_string()) };
    assert!(matches!(token_source(&sources), TokenSource::File(p) if p == "~/tok"));
    assert_eq!(home_relative("~/tok").as_deref(), Some("tok"));
    assert_eq!(home_relative("/abs/tok"), None);
    assert!(matches!(token_source(&TokenSources::default()), TokenSource::Stored));
    assert_eq!(tzctl::auth::token_from_file("  file-token\n"), "file-token");
}

#[test]
fn errors_when_not_logged_in() {
    match tzctl::auth::mint_or_fail(false) {
        Err(Error::Auth(m)) => assert_eq!(m, "not logged in"),
        other => panic!("expected Auth, got {other:?}"),
    }
    assert!(tzctl::auth::mint_or_fail(true).is_ok());
}

#[test]
fn valid_cached_token_is_used() {
    let now = 1_000;
    match cached_use(&token("abc"), now) {
        CachedUse::Use(t) => assert_eq!(t, "abc"),
        other => panic!("expected Use, got {other:?}"),
    }
    let mut expired = token("old");
    expired.expires_at = Some(now + 30);
    assert!(matches!(cached_use(&expired, now), CachedUse::Skip));
    expired.refresh_token = Some("r".to_string());
    assert!(matches!(cached_use(&expired, now), CachedUse::Refresh(r) if r == "r"));
}

#[test]
fn flow_selection() {
    assert_eq!(select_flow(LoginMode::Interactive, true).unwrap(), LoginFlow::DeviceCode);
    assert_eq!(select_flow(LoginMode::Auto, true).unwrap(), LoginFlow::ClientCredentials);
    assert_eq!(select_flow(LoginMode::Auto, false).unwrap(), LoginFlow::DeviceCode);
    assert!(matches!(select_flow(LoginMode::NonInteractive, false), Err(Error::Auth(_))));
}

#[test]
fn client_credentials_form_fields() {
    let mut s = OidcSettings::default();
    assert!(client_credentials::form(&s).is_err());
    s.client_secret = Some("sec".to_string());
    let f = client_credentials::form(&s).unwrap();
    let pairs: Vec<(&str, &str)> = f.iter().map(|(k, v)| (k.as_str(), v.as_str())).collect();
    assert_eq!(
        pairs,
        vec![
            ("grant_type", "client_credentials"),
            ("client_id", DEFAULT_CLIENT_ID),
            ("client_secret", "sec"),
            ("scope", "openid"),
            ("audience", DEFAULT_CLIENT_ID),
        ]
    );
}

#[test]
fn device_forms_and_polling() {
    let s = OidcSettings::default();
    let f = authorization_form(&s);
    assert_eq!(f.len(), 2);
    assert_eq!(f[1].1, "openid email");
    let p = poll_form("dc", "cid");
    assert_eq!(p[0].1, "urn:ietf:params:oauth:grant-type:device_code");
    assert!(matches!(next_poll("authorization_pending", None, 5), PollStep::Wait(5)));
    assert!(matches!(next_poll("slow_down", None, 5), PollStep::Wait(10)));
    match next_poll("weird", Some("why"), 5) {
        PollStep::Fail(Error::Auth(m)) => assert_eq!(m, "device login failed (weird): why"),
        other => panic!("unexpected {other:?}"),
    }
}

#[test]
fn expiry_detection() {
    let now = time::OffsetDateTime::now_utc().unix_timestamp();
    assert!(is_expired(now - 10, 0));
    assert!(!is_expired(now + 3600, 60));
    assert!(is_expired(now + 30, 60));
    assert!(is_expired_at(100, 150, 60));
    assert!(!is_expired_at(100, 161, 60));
}

#[test]
fn rejects_non_jwt() {
    assert!(claims_payload("notajwt").is_err());
}

#[test]
fn decodes_claims() {
    let b64 = |s: &[u8]| base64::engine::general_purpose::URL_SAFE_NO_PAD.encode(s);
    let jwt = format!(
        "{}.{}.{}",
        b64(b"{\"alg\":\"none\"}"),
        b64(br#"{"sub":"auth0|abc","email":"a@b.test","exp":123}"#),
        b64(b"sig")
    );
    let payload = claims_payload(&jwt).unwrap();
    assert_eq!(payload, br#"{"sub":"auth0|abc","email":"a@b.test","exp":123}"#.to_vec());
    let claims = Claims {
        sub: Some("auth0|abc".to_string()),
        email: Some("a@b.test".to_string()),
        name: None,
        exp: Some(123),
    };
    assert_eq!(claims.display_name(), Some("a@b.test"));
    match claims_payload("a.!!!.c") {
        Err(Error::Auth(m)) => assert!(m.starts_with("cannot base64-decode id_token payload: ")),
        other => panic!("unexpected {other:?}"),
    }
}
