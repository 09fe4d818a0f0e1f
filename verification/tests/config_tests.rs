use tzctl::config::{
    config_candidates, discover, resolve, secret_file_to_read, CliOverrides, Config, EnvOverrides,
    DEFAULT_API_ENDPOINT, DEFAULT_PIPELINES_GLOB,
};
use tzctl::error::Error;

fn some(s: &str) -> Option<String> {
    Some(s.to_string())
}

#[test]
fn defaults_when_empty() {
    let config = Config::default();
    let resolved = resolve(&CliOverrides::default(), &EnvOverrides::default(), &config, None, None).unwrap();
    assert_eq!(resolved.api_endpoint, DEFAULT_API_ENDPOINT);
    assert_eq!(resolved.pipelines_glob, DEFAULT_PIPELINES_GLOB);
    assert!(resolved.workspace.is_none());
    assert!(resolved.node.is_none());
    assert!(resolved.client_id.is_none());
    assert!(resolved.client_secret.is_none());
    assert_eq!(resolved.project_root, ".");
}

#[test]
fn file_values_apply() {
    let mut config = Config::default();
    config.platform.api_endpoint = some("https://example.test/api");
    config.platform.oidc.client_id = some("my-client-id");
    config.workspace.id = some("t-abcd1234");
    config.node.id = some("n-w2tjezz3");
    let resolved = resolve(&CliOverrides::default(), &EnvOverrides::default(), &config, None, None).unwrap();
    assert_eq!(resolved.api_endpoint, "https://example.test/api");
    assert_eq!(resolved.client_id.as_deref(), Some("my-client-id"));
    assert_eq!(resolved.workspace.as_deref(), Some("t-abcd1234"));
    assert_eq!(resolved.node.as_deref(), Some("n-w2tjezz3"));
}

#[test]
fn client_secret_from_file() {
    let mut config = Config::default();
    config.platform.oidc.client_secret_file = some("/tmp/secret.txt");
    assert_eq!(secret_file_to_read(&config), Some("/tmp/secret.txt"));
    let resolved = resolve(
        &CliOverrides::default(),
        &EnvOverrides::default(),
        &config,
        None,
        Some(Ok("  s3cr3t-value\n".to_string())),
    )
    .unwrap();
    assert_eq!(resolved.client_secret.as_deref(), Some("s3cr3t-value"));
}

#[test]
fn unreadable_secret_file_is_a_config_error() {
    let mut config = Config::default();
    config.platform.oidc.client_secret_file = some("/nonexistent/path");
    let err = resolve(
        &CliOverrides::default(),
        &EnvOverrides::default(),
        &config,
        None,
        Some(Err("No such file or directory (os error 2)".to_string())),
    )
    .unwrap_err();
    match err {
        Error::Config(m) => assert_eq!(
            m,
            "cannot read client secret file \"/nonexistent/path\": No such file or directory (os error 2)"
        ),
        other => panic!("expected Config, got {other:?}"),
    }
}

#[test]
fn client_secret_inline_beats_file() {
    let mut config = Config::default();
    config.platform.oidc.client_secret = some("inline");
    config.platform.oidc.client_secret_file = some("/nonexistent/path");
    assert_eq!(secret_file_to_read(&config), None);
    let resolved = resolve(&CliOverrides::default(), &EnvOverrides::default(), &config, None, None).unwrap();
    assert_eq!(resolved.client_secret.as_deref(), Some("inline"));
}

#[test]
fn oidc_settings_from_file() {
    let mut config = Config::default();
    config.platform.oidc.issuer = some("https://issuer.test/");
    config.platform.oidc.client_id = some("file-client-id");
    config.platform.oidc.audience = some("my-audience");
    config.platform.oidc.scope = some("openid profile");
    let resolved = resolve(&CliOverrides::default(), &EnvOverrides::default(), &config, None, None).unwrap();
    assert_eq!(resolved.oidc_issuer.as_deref(), Some("https://issuer.test/"));
    assert_eq!(resolved.client_id.as_deref(), Some("file-client-id"));
    assert_eq!(resolved.oidc_audience.as_deref(), Some("my-audience"));
    assert_eq!(resolved.oidc_scope.as_deref(), Some("openid profile"));
}

#[test]
fn flag_overrides_env_and_file() {
    let mut config = Config::default();
    config.workspace.id = some("t-ffffffff");
    let env = EnvOverrides { workspace: some("t-eeeeeeee"), ..Default::default() };
    let cli = CliOverrides { workspace: some("t-aaaa1111"), ..Default::default() };
    let resolved = resolve(&cli, &env, &config, None, None).unwrap();
    assert_eq!(resolved.workspace.as_deref(), Some("t-aaaa1111"));
}

#[test]
fn env_overrides_file() {
    let mut config = Config::default();
    config.node.id = some("n-ffffffff");
    let env = EnvOverrides { node: some("n-aaaa1111"), ..Default::default() };
    let resolved = resolve(&CliOverrides::default(), &env, &config, None, None).unwrap();
    assert_eq!(resolved.node.as_deref(), Some("n-aaaa1111"));
}

#[test]
fn empty_env_value_is_ignored() {
    let mut config = Config::default();
    config.node.id = some("n-ffffffff");
    let env = EnvOverrides { node: some(""), id_token: some(""), ..Default::default() };
    let resolved = resolve(&CliOverrides::default(), &env, &config, Some("/proj".to_string()), None).unwrap();
    assert_eq!(resolved.node.as_deref(), Some("n-ffffffff"));
    assert!(resolved.id_token.is_none());
    assert_eq!(resolved.project_root, "/proj");
    assert_eq!(resolved.config_dir.as_deref(), Some("/proj"));
}

#[test]
fn rejects_malformed_workspace() {
    let cli = CliOverrides { workspace: some("nope"), ..Default::default() };
    let err = resolve(&cli, &EnvOverrides::default(), &Config::default(), None, None).unwrap_err();
    assert!(matches!(err, Error::Config(_)));
}

#[test]
fn rejects_malformed_node() {
    let cli = CliOverrides { node: some("n-TOOLONG9"), ..Default::default() };
    let err = resolve(&cli, &EnvOverrides::default(), &Config::default(), None, None).unwrap_err();
    match err {
        Error::Config(m) => assert_eq!(
            m,
            "invalid node id \"n-TOOLONG9\": expected the form \"n-xxxxxxxx\" (8 lowercase alphanumerics)"
        ),
        other => panic!("expected Config, got {other:?}"),
    }
}

#[test]
fn discover_returns_none_when_absent() {
    let candidates = config_candidates("/tmp/a/b");
    let flags = vec![false; candidates.len()];
    assert!(discover(&candidates, &flags).is_none());
}

#[test]
fn discover_prefers_closest() {
    let candidates = config_candidates("/root/a/b");
    assert_eq!(
        candidates,
        vec!["/root/a/b/tenzir.toml", "/root/a/tenzir.toml", "/root/tenzir.toml", "/tenzir.toml"]
    );
    let flags = vec![false, true, true, false];
    assert_eq!(discover(&candidates, &flags).as_deref(), Some("/root/a/tenzir.toml"));
}

#[test]
fn relative_start_reaches_the_empty_ancestor() {
    assert_eq!(config_candidates("a/b"), vec!["a/b/tenzir.toml", "a/tenzir.toml", "tenzir.toml"]);
    assert_eq!(config_candidates(""), vec!["tenzir.toml"]);
}
