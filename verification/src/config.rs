//! The `tenzir.toml` model, discovery, and precedence resolution.
//!
//! Configuration values are resolved with the precedence:
//! CLI flags → `TENZIR_PLATFORM_CLI_*` env → `tenzir.toml` → built-in defaults.
//! Reading the file, the environment and the client-secret file is the
//! caller's part; the values read are handed to [`resolve`].

use vstd::prelude::*;
use crate::error::Error;
use crate::ext::{debug_quoted, debug_str};
use crate::paths::{components, components_of, push_component, push_component_exec};
use crate::project::frontmatter::opt_view;
use crate::text::{char_views, chars_of, copy_opt_string, owned, push_char, push_str, string_of, trim, trim_str};

verus! {

/// The default public platform API endpoint.
pub const DEFAULT_API_ENDPOINT: &'static str = "https://rest.tenzir.app/production-v1";

/// The default pipeline glob used when none is configured.
pub const DEFAULT_PIPELINES_GLOB: &'static str = "pipelines/**/*.tql";

/// The configuration file name discovered by walking up the tree.
pub const CONFIG_FILE_NAME: &'static str = "tenzir.toml";

/// The on-disk `tenzir.toml` model. Every section is optional.
#[derive(Debug)]
pub struct Config {
    /// Platform connection settings.
    pub platform: PlatformConfig,
    /// Target workspace.
    pub workspace: WorkspaceConfig,
    /// Target node.
    pub node: NodeConfig,
    /// Pipeline discovery settings.
    pub pipelines: PipelinesConfig,
    /// Default pipeline settings.
    pub defaults: DefaultsConfig,
    /// Authentication settings.
    pub auth: AuthConfig,
}

/// `[platform]` section.
#[derive(Debug)]
pub struct PlatformConfig {
    /// The platform API endpoint base URL.
    pub api_endpoint: Option<String>,
    /// OIDC settings (`[platform.oidc]`).
    pub oidc: OidcConfig,
}

/// `[platform.oidc]` section.
#[derive(Debug)]
pub struct OidcConfig {
    /// The OIDC issuer URL.
    pub issuer: Option<String>,
    /// The OIDC client id used for login.
    pub client_id: Option<String>,
    /// The OIDC client secret for non-interactive (client-credentials) login.
    pub client_secret: Option<String>,
    /// A path to a file containing the OIDC client secret.
    pub client_secret_file: Option<String>,
    /// An optional audience override.
    pub audience: Option<String>,
    /// An optional scope override.
    pub scope: Option<String>,
}

/// `[workspace]` section.
#[derive(Debug)]
pub struct WorkspaceConfig {
    /// The workspace (tenant) id, e.g. `t-abcd1234`.
    pub id: Option<String>,
}

/// `[node]` section.
#[derive(Debug)]
pub struct NodeConfig {
    /// The node id, e.g. `n-w2tjezz3`.
    pub id: Option<String>,
}

/// `[pipelines]` section.
#[derive(Debug)]
pub struct PipelinesConfig {
    /// The glob used to discover `.tql` files.
    pub glob: Option<String>,
}

/// `[defaults]` section.
#[derive(Debug)]
pub struct DefaultsConfig {
    /// The default desired state for pipelines (e.g. `running`).
    pub state: Option<String>,
}

/// `[auth]` section.
#[derive(Debug)]
pub struct AuthConfig {
    /// An inline OIDC id token (discouraged; prefer `token_file`).
    pub id_token: Option<String>,
    /// A path to a file containing the OIDC id token.
    pub token_file: Option<String>,
}

/// Whether every value of the `[platform.oidc]` section is absent.
pub open spec fn oidc_is_empty(o: OidcConfig) -> bool {
    o.issuer is None && o.client_id is None && o.client_secret is None
        && o.client_secret_file is None && o.audience is None && o.scope is None
}

/// Whether every value of a configuration is absent (an empty file).
pub open spec fn config_is_empty(c: Config) -> bool {
    &&& c.platform.api_endpoint is None
    &&& oidc_is_empty(c.platform.oidc)
    &&& c.workspace.id is None
    &&& c.node.id is None
    &&& c.pipelines.glob is None
    &&& c.defaults.state is None
    &&& c.auth.id_token is None
    &&& c.auth.token_file is None
}

impl Default for OidcConfig {
    fn default() -> (r: Self)
        ensures
            oidc_is_empty(r),
    {
        OidcConfig {
            issuer: None,
            client_id: None,
            client_secret: None,
            client_secret_file: None,
            audience: None,
            scope: None,
        }
    }
}

impl Default for PlatformConfig {
    fn default() -> (r: Self)
        ensures
            r.api_endpoint is None,
            oidc_is_empty(r.oidc),
    {
        PlatformConfig { api_endpoint: None, oidc: OidcConfig::default() }
    }
}

impl Default for WorkspaceConfig {
    fn default() -> (r: Self)
        ensures
            r.id is None,
    {
        WorkspaceConfig { id: None }
    }
}

impl Default for NodeConfig {
    fn default() -> (r: Self)
        ensures
            r.id is None,
    {
        NodeConfig { id: None }
    }
}

impl Default for PipelinesConfig {
    fn default() -> (r: Self)
        ensures
            r.glob is None,
    {
        PipelinesConfig { glob: None }
    }
}

impl Default for DefaultsConfig {
    fn default() -> (r: Self)
        ensures
            r.state is None,
    {
        DefaultsConfig { state: None }
    }
}

impl Default for AuthConfig {
    fn default() -> (r: Self)
        ensures
            r.id_token is None && r.token_file is None,
    {
        AuthConfig { id_token: None, token_file: None }
    }
}

impl Default for Config {
    fn default() -> (r: Self)
        ensures
            config_is_empty(r),
    {
        Config {
            platform: PlatformConfig::default(),
            workspace: WorkspaceConfig::default(),
            node: NodeConfig::default(),
            pipelines: PipelinesConfig::default(),
            defaults: DefaultsConfig::default(),
            auth: AuthConfig::default(),
        }
    }
}

/// Overrides supplied on the command line.
///
/// Each field, when `Some`, takes precedence over env and file values.
#[derive(Debug)]
pub struct CliOverrides {
    /// `--api-endpoint`.
    pub api_endpoint: Option<String>,
    /// `--workspace`.
    pub workspace: Option<String>,
    /// `--node`.
    pub node: Option<String>,
}

impl Default for CliOverrides {
    fn default() -> (r: Self)
        ensures
            r.api_endpoint is None && r.workspace is None && r.node is None,
    {
        CliOverrides { api_endpoint: None, workspace: None, node: None }
    }
}

/// The `TENZIR_PLATFORM_CLI_*` environment variables, as read (an empty
/// value counts as unset).
#[derive(Debug)]
pub struct EnvOverrides {
    /// `TENZIR_PLATFORM_CLI_API_ENDPOINT`.
    pub api_endpoint: Option<String>,
    /// `TENZIR_PLATFORM_CLI_WORKSPACE`.
    pub workspace: Option<String>,
    /// `TENZIR_PLATFORM_CLI_NODE`.
    pub node: Option<String>,
    /// `TENZIR_PLATFORM_CLI_ID_TOKEN`.
    pub id_token: Option<String>,
}

impl Default for EnvOverrides {
    fn default() -> (r: Self)
        ensures
            r.api_endpoint is None && r.workspace is None && r.node is None && r.id_token is None,
    {
        EnvOverrides { api_endpoint: None, workspace: None, node: None, id_token: None }
    }
}

/// A fully-resolved configuration used throughout the program.
#[derive(Debug)]
pub struct ResolvedConfig {
    /// The platform API endpoint base URL.
    pub api_endpoint: String,
    /// The OIDC issuer URL, if configured.
    pub oidc_issuer: Option<String>,
    /// The OIDC client id, if configured.
    pub client_id: Option<String>,
    /// The OIDC client secret, if configured (inline or via file).
    pub client_secret: Option<String>,
    /// The OIDC audience override, if configured.
    pub oidc_audience: Option<String>,
    /// The OIDC scope override, if configured.
    pub oidc_scope: Option<String>,
    /// The workspace id, if any.
    pub workspace: Option<String>,
    /// The node id, if any.
    pub node: Option<String>,
    /// The pipeline discovery glob.
    pub pipelines_glob: String,
    /// The default desired pipeline state, if configured.
    pub default_state: Option<String>,
    /// An inline id token, if configured.
    pub id_token: Option<String>,
    /// A path to the id token file, if configured.
    pub token_file: Option<String>,
    /// The directory the config file was found in, if any.
    pub config_dir: Option<String>,
    /// The project root used to resolve the pipelines glob.
    pub project_root: String,
}

// --- ids --------------------------------------------------------------------

/// An ASCII lowercase letter or digit.
pub open spec fn is_id_char(c: char) -> bool {
    ('a' <= c && c <= 'z') || ('0' <= c && c <= '9')
}

/// Whether `id` has the form `{prefix}-` followed by 8 lowercase
/// alphanumerics.
pub open spec fn valid_id(id: Seq<char>, prefix: char) -> bool {
    &&& id.len() == 10
    &&& id[0] == prefix
    &&& id[1] == '-'
    &&& forall|i: int| 2 <= i < 10 ==> is_id_char(#[trigger] id[i])
}

/// The error text for an id of the wrong shape.
pub open spec fn invalid_id_message(kind: Seq<char>, id: Seq<char>, prefix: char) -> Seq<char> {
    "invalid "@ + kind + " id "@ + debug_str(id) + ": expected the form \""@ + seq![prefix]
        + "-xxxxxxxx\" (8 lowercase alphanumerics)"@
}

/// Whether a result is an error whose message is `m`, of the configuration kind.
pub open spec fn is_config_error(r: Result<(), Error>, m: Seq<char>) -> bool {
    r matches Err(Error::Config(s)) && s@ == m
}

/// Validate an id of the form `{prefix}-[a-z0-9]{8}`.
fn validate_id(id: &str, prefix: char, kind: &str) -> (r: Result<(), Error>)
    ensures
        valid_id(id@, prefix) ==> r is Ok,
        !valid_id(id@, prefix) ==> is_config_error(r, invalid_id_message(kind@, id@, prefix)),
{
    let c = chars_of(id);
    let mut valid = c.len() == 10 && c[0] == prefix && c[1] == '-';
    if valid {
        let mut i: usize = 2;
        while i < 10
            invariant
                c@ == id@,
                c.len() == 10,
                2 <= i <= 10,
                valid == forall|j: int| 2 <= j < i ==> is_id_char(#[trigger] c@[j]),
            decreases 10 - i,
        {
            let ch = c[i];
            if !(('a' <= ch && ch <= 'z') || ('0' <= ch && ch <= '9')) {
                valid = false;
            }
            i = i + 1;
        }
    }
    if valid {
        Ok(())
    } else {
        let mut m = owned("invalid ");
        push_str(&mut m, kind);
        push_str(&mut m, " id ");
        let q = debug_quoted(id);
        push_str(&mut m, q.as_str());
        push_str(&mut m, ": expected the form \"");
        push_char(&mut m, prefix);
        push_str(&mut m, "-xxxxxxxx\" (8 lowercase alphanumerics)");
        assert(m@ =~= invalid_id_message(kind@, id@, prefix));
        Err(Error::Config(m))
    }
}

/// Validate a workspace id against the `t-[a-z0-9]{8}` shape.
pub fn validate_workspace(id: &str) -> (r: Result<(), Error>)
    ensures
        valid_id(id@, 't') ==> r is Ok,
        !valid_id(id@, 't') ==> is_config_error(r, invalid_id_message("workspace"@, id@, 't')),
{
    validate_id(id, 't', "workspace")
}

/// Validate a node id against the `n-[a-z0-9]{8}` shape.
pub fn validate_node(id: &str) -> (r: Result<(), Error>)
    ensures
        valid_id(id@, 'n') ==> r is Ok,
        !valid_id(id@, 'n') ==> is_config_error(r, invalid_id_message("node"@, id@, 'n')),
{
    validate_id(id, 'n', "node")
}


// --- resolution ---------------------------------------------------------------

/// An environment value counts only when it is set and not empty.
pub open spec fn env_value(v: Option<String>) -> Option<Seq<char>> {
    match v {
        Some(s) => if s@.len() > 0 { Some(s@) } else { None },
        None => None,
    }
}

/// The first of a command-line value, an environment value and a file value
/// that is present.
pub open spec fn layered(cli: Option<String>, env: Option<String>, file: Option<String>) -> Option<Seq<char>> {
    match cli {
        Some(s) => Some(s@),
        None => match env_value(env) {
            Some(e) => Some(e),
            None => opt_view(file),
        },
    }
}

/// `o`'s value, or `d` when it is absent.
pub open spec fn or_default(o: Option<Seq<char>>, d: Seq<char>) -> Seq<char> {
    match o {
        Some(s) => s,
        None => d,
    }
}

/// Whether resolving `config` reads the client-secret file: there is a file
/// and no inline secret.
pub open spec fn needs_secret_file(config: Config) -> bool {
    config.platform.oidc.client_secret is None && config.platform.oidc.client_secret_file is Some
}

/// The client-secret file to read while resolving `config`, if any.
pub fn secret_file_to_read(config: &Config) -> (r: Option<&str>)
    ensures
        r is Some == needs_secret_file(*config),
        r is Some ==> r->0@ == config.platform.oidc.client_secret_file->0@,
{
    match (&config.platform.oidc.client_secret, &config.platform.oidc.client_secret_file) {
        (None, Some(path)) => Some(path.as_str()),
        _ => None,
    }
}

/// The error for a client-secret file that could not be read.
pub open spec fn secret_file_message(path: Seq<char>, reason: Seq<char>) -> Seq<char> {
    "cannot read client secret file "@ + debug_str(path) + ": "@ + reason
}

/// Whether reading the client-secret file failed.
pub open spec fn secret_read_failed(secret_file: Option<Result<String, String>>) -> bool {
    secret_file matches Some(Err(_))
}

/// The resolved client secret: the inline value, else the trimmed contents
/// of the secret file.
pub open spec fn secret_value(config: Config, secret_file: Option<Result<String, String>>) -> Option<Seq<char>> {
    match config.platform.oidc.client_secret {
        Some(s) => Some(s@),
        None => match secret_file {
            Some(Ok(text)) => Some(trim(text@)),
            _ => None,
        },
    }
}

/// The workspace id that resolution picks.
pub open spec fn resolved_workspace(cli: CliOverrides, env: EnvOverrides, config: Config) -> Option<Seq<char>> {
    layered(cli.workspace, env.workspace, config.workspace.id)
}

/// The node id that resolution picks.
pub open spec fn resolved_node(cli: CliOverrides, env: EnvOverrides, config: Config) -> Option<Seq<char>> {
    layered(cli.node, env.node, config.node.id)
}

/// Whether a picked id is present and of the wrong shape.
pub open spec fn bad_id(id: Option<Seq<char>>, prefix: char) -> bool {
    id matches Some(s) && !valid_id(s, prefix)
}

/// Every field of `rc` is what the precedence rules give.
pub open spec fn resolved_fields(
    rc: ResolvedConfig,
    cli: CliOverrides,
    env: EnvOverrides,
    config: Config,
    config_dir: Option<String>,
    secret_file: Option<Result<String, String>>,
) -> bool {
    &&& rc.api_endpoint@ == or_default(
        layered(cli.api_endpoint, env.api_endpoint, config.platform.api_endpoint),
        DEFAULT_API_ENDPOINT@,
    )
    &&& opt_view(rc.oidc_issuer) == opt_view(config.platform.oidc.issuer)
    &&& opt_view(rc.client_id) == opt_view(config.platform.oidc.client_id)
    &&& opt_view(rc.client_secret) == secret_value(config, secret_file)
    &&& opt_view(rc.oidc_audience) == opt_view(config.platform.oidc.audience)
    &&& opt_view(rc.oidc_scope) == opt_view(config.platform.oidc.scope)
    &&& opt_view(rc.workspace) == resolved_workspace(cli, env, config)
    &&& opt_view(rc.node) == resolved_node(cli, env, config)
    &&& rc.pipelines_glob@ == or_default(opt_view(config.pipelines.glob), DEFAULT_PIPELINES_GLOB@)
    &&& opt_view(rc.default_state) == opt_view(config.defaults.state)
    &&& opt_view(rc.id_token) == match env_value(env.id_token) {
        Some(e) => Some(e),
        None => opt_view(config.auth.id_token),
    }
    &&& opt_view(rc.token_file) == opt_view(config.auth.token_file)
    &&& opt_view(rc.config_dir) == opt_view(config_dir)
    &&& rc.project_root@ == or_default(opt_view(config_dir), "."@)
}

/// The first present value among a command-line, an environment and a file
/// value.
fn layered_value(cli: &Option<String>, env: &Option<String>, file: &Option<String>) -> (r: Option<String>)
    ensures
        opt_view(r) == layered(*cli, *env, *file),
{
    match cli {
        Some(s) => Some(owned(s.as_str())),
        None => {
            match env {
                Some(e) => {
                    if !e.as_str().is_empty() {
                        return Some(owned(e.as_str()));
                    }
                },
                None => {},
            }
            match file {
                Some(f) => Some(owned(f.as_str())),
                None => None,
            }
        },
    }
}

/// Resolve effective configuration from CLI overrides, the environment and
/// the parsed config file.
///
/// `secret_file` is the outcome of reading the client-secret file (the text,
/// or why it could not be read); it is given exactly when
/// [`secret_file_to_read`] names a file. Errors come in this order: an
/// unreadable secret file, then a malformed workspace id, then a malformed
/// node id.
pub fn resolve(
    cli: &CliOverrides,
    env: &EnvOverrides,
    config: &Config,
    config_dir: Option<String>,
    secret_file: Option<Result<String, String>>,
) -> (r: Result<ResolvedConfig, Error>)
    requires
        secret_file is Some == needs_secret_file(*config),
    ensures
        secret_read_failed(secret_file) ==> (r matches Err(Error::Config(m)) && m@ == secret_file_message(
            config.platform.oidc.client_secret_file->0@,
            secret_file->0->Err_0@,
        )),
        !secret_read_failed(secret_file) && bad_id(resolved_workspace(*cli, *env, *config), 't') ==> (r matches Err(
            Error::Config(m),
        ) && m@ == invalid_id_message("workspace"@, resolved_workspace(*cli, *env, *config)->0, 't')),
        !secret_read_failed(secret_file) && !bad_id(resolved_workspace(*cli, *env, *config), 't') && bad_id(
            resolved_node(*cli, *env, *config),
            'n',
        ) ==> (r matches Err(Error::Config(m)) && m@ == invalid_id_message(
            "node"@,
            resolved_node(*cli, *env, *config)->0,
            'n',
        )),
        !secret_read_failed(secret_file) && !bad_id(resolved_workspace(*cli, *env, *config), 't') && !bad_id(
            resolved_node(*cli, *env, *config),
            'n',
        ) ==> (r matches Ok(rc) && resolved_fields(rc, *cli, *env, *config, config_dir, secret_file)),
{
    let api_endpoint = match layered_value(&cli.api_endpoint, &env.api_endpoint, &config.platform.api_endpoint) {
        Some(v) => v,
        None => owned(DEFAULT_API_ENDPOINT),
    };
    let oidc = &config.platform.oidc;
    let client_secret = match &oidc.client_secret {
        Some(secret) => Some(owned(secret.as_str())),
        None => match secret_file {
            Some(Ok(text)) => Some(trim_str(text.as_str())),
            Some(Err(reason)) => {
                let path = match &oidc.client_secret_file {
                    Some(p) => p.as_str(),
                    None => "",
                };
                let mut m = owned("cannot read client secret file ");
                let q = debug_quoted(path);
                push_str(&mut m, q.as_str());
                push_str(&mut m, ": ");
                push_str(&mut m, reason.as_str());
                assert(m@ =~= secret_file_message(config.platform.oidc.client_secret_file->0@, reason@));
                return Err(Error::Config(m));
            },
            None => None,
        },
    };
    let workspace = layered_value(&cli.workspace, &env.workspace, &config.workspace.id);
    match &workspace {
        Some(ws) => {
            match validate_workspace(ws.as_str()) {
                Err(e) => return Err(e),
                Ok(()) => {},
            }
        },
        None => {},
    }
    let node = layered_value(&cli.node, &env.node, &config.node.id);
    match &node {
        Some(n) => {
            match validate_node(n.as_str()) {
                Err(e) => return Err(e),
                Ok(()) => {},
            }
        },
        None => {},
    }
    let pipelines_glob = match &config.pipelines.glob {
        Some(g) => owned(g.as_str()),
        None => owned(DEFAULT_PIPELINES_GLOB),
    };
    let id_token = layered_value(&None, &env.id_token, &config.auth.id_token);
    let project_root = match &config_dir {
        Some(d) => owned(d.as_str()),
        None => owned("."),
    };
    Ok(ResolvedConfig {
        api_endpoint,
        oidc_issuer: copy_opt_string(&oidc.issuer),
        client_id: copy_opt_string(&oidc.client_id),
        client_secret,
        oidc_audience: copy_opt_string(&oidc.audience),
        oidc_scope: copy_opt_string(&oidc.scope),
        workspace,
        node,
        pipelines_glob,
        default_state: copy_opt_string(&config.defaults.state),
        id_token,
        token_file: copy_opt_string(&config.auth.token_file),
        project_root,
        config_dir,
    })
}


/// The precedence of layered values: a command-line value wins over the
/// environment and the file, a non-empty environment value wins over the
/// file, and the file applies when neither override is given.
pub proof fn law_precedence(cli: String, env: String, file: Option<String>, empty_env: Option<String>)
    requires
        env@.len() > 0,
        empty_env matches Some(e) ==> e@.len() == 0,
    ensures
        layered(Some(cli), Some(env), file) == Some(cli@),
        layered(None, Some(env), file) == Some(env@),
        layered(None, empty_env, file) == opt_view(file),
{
}

/// In a resolved configuration, every layered value follows the layers: a
/// command-line value wins; otherwise a non-empty environment value wins over
/// `tenzir.toml`; the file applies only when the environment value is absent
/// or empty. The id token, which has no command-line flag, follows the same
/// rule between the environment and the file.
pub proof fn law_resolved_layers(
    rc: ResolvedConfig,
    cli: CliOverrides,
    env: EnvOverrides,
    config: Config,
    config_dir: Option<String>,
    secret_file: Option<Result<String, String>>,
)
    requires
        resolved_fields(rc, cli, env, config, config_dir, secret_file),
    ensures
        env.id_token is Some && env.id_token->0@.len() > 0 ==> opt_view(rc.id_token) == Some(env.id_token->0@),
        !(env.id_token is Some && env.id_token->0@.len() > 0) ==> opt_view(rc.id_token) == opt_view(config.auth.id_token),
        cli.workspace matches Some(c) ==> opt_view(rc.workspace) == Some(c@),
        cli.workspace is None ==> (env.workspace is Some && env.workspace->0@.len() > 0 ==> opt_view(rc.workspace) == Some(env.workspace->0@)),
        cli.workspace is None && !(env.workspace is Some && env.workspace->0@.len() > 0) ==> opt_view(rc.workspace)
            == opt_view(config.workspace.id),
        cli.node matches Some(c) ==> opt_view(rc.node) == Some(c@),
        cli.node is None ==> (env.node is Some && env.node->0@.len() > 0 ==> opt_view(rc.node) == Some(env.node->0@)),
        cli.node is None && !(env.node is Some && env.node->0@.len() > 0) ==> opt_view(rc.node) == opt_view(config.node.id),
        cli.api_endpoint matches Some(c) ==> rc.api_endpoint@ == c@,
        cli.api_endpoint is None ==> (env.api_endpoint is Some && env.api_endpoint->0@.len() > 0 ==> rc.api_endpoint@ == env.api_endpoint->0@),
        cli.api_endpoint is None && !(env.api_endpoint is Some && env.api_endpoint->0@.len() > 0) ==> (config.platform.api_endpoint matches Some(f) ==> rc.api_endpoint@ == f@),
{
}

/// An inline client secret is used even when a secret file is configured.
pub proof fn law_inline_secret_beats_file(config: Config, secret_file: Option<Result<String, String>>)
    requires
        config.platform.oidc.client_secret is Some,
    ensures
        !needs_secret_file(config),
        secret_value(config, secret_file) == Some(config.platform.oidc.client_secret->0@),
{
}

// --- discovery ----------------------------------------------------------------

/// The path made of `comps`, pushed one after the other onto an empty path.
pub open spec fn join_all(comps: Seq<Seq<char>>) -> Seq<char>
    decreases comps.len(),
{
    if comps.len() == 0 {
        seq![]
    } else {
        push_component(join_all(comps.drop_last()), comps.last())
    }
}

/// How many directories `Path::ancestors` yields for `start`: one per prefix
/// of its components, down to the root for an absolute path and down to the
/// empty path for a relative one.
pub open spec fn ancestor_count(start: Seq<char>) -> int {
    if start.len() > 0 && start[0] == '/' {
        components(start).len() as int
    } else {
        components(start).len() + 1int
    }
}

/// The `k`-th candidate config file, nearest first: `tenzir.toml` in the
/// `k`-th ancestor of `start`.
pub open spec fn config_candidate(start: Seq<char>, k: int) -> Seq<char> {
    push_component(
        join_all(components(start).take(components(start).len() - k)),
        CONFIG_FILE_NAME@,
    )
}

/// The places a `tenzir.toml` is looked for, from `start` up to the root.
pub fn config_candidates(start: &str) -> (r: Vec<String>)
    ensures
        r.len() == ancestor_count(start@),
        forall|k: int| 0 <= k < r.len() ==> #[trigger] r[k]@ == config_candidate(start@, k),
{
    let sc = chars_of(start);
    let comps = components_of(&sc);
    let ghost cs = components(start@);
    let absolute = sc.len() > 0 && sc[0] == '/';
    let stop: usize = if absolute { 1 } else { 0 };
    proof {
        if absolute {
            assert(cs.len() >= 1);
            assert(char_views(comps@).len() == comps@.len());
        }
    }
    let name = chars_of(CONFIG_FILE_NAME);
    let mut out: Vec<String> = Vec::new();
    let mut len: usize = comps.len();
    let mut done = false;
    while !done
        invariant
            char_views(comps@) == cs,
            cs == components(start@),
            name@ == CONFIG_FILE_NAME@,
            len <= comps.len(),
            absolute == (start@.len() > 0 && start@[0] == '/'),
            stop == (if absolute { 1usize } else { 0usize }),
            !done ==> stop <= len && out.len() == comps.len() - len,
            done ==> out.len() == ancestor_count(start@),
            forall|k: int| 0 <= k < out.len() ==> #[trigger] out[k]@ == config_candidate(start@, k),
        decreases (if done { 0 } else { len + 1 }),
    {
        let mut base: Vec<char> = Vec::new();
        let mut j: usize = 0;
        while j < len
            invariant
                j <= len <= comps.len(),
                char_views(comps@) == cs,
                base@ == join_all(cs.take(j as int)),
            decreases len - j,
        {
            proof {
                assert(cs.take(j + 1).drop_last() =~= cs.take(j as int));
                assert(cs.take(j + 1).last() == comps@[j as int]@);
            }
            push_component_exec(&mut base, &comps[j]);
            j = j + 1;
        }
        push_component_exec(&mut base, &name);
        proof {
            assert(cs.take(len as int) =~= cs.take(cs.len() - out.len()));
        }
        out.push(string_of(&base));
        if len == stop {
            done = true;
        } else {
            len = len - 1;
        }
    }
    out
}

/// The first candidate that is an existing file, given whether each
/// candidate of [`config_candidates`] is one.
pub fn discover(candidates: &[String], is_file: &[bool]) -> (r: Option<String>)
    requires
        candidates.len() == is_file.len(),
    ensures
        match r {
            Some(p) => exists|k: int|
                0 <= k < candidates.len() && is_file[k] && p@ == candidates[k]@ && forall|j: int|
                    0 <= j < k ==> !#[trigger] is_file[j],
            None => forall|k: int| 0 <= k < is_file.len() ==> !#[trigger] is_file[k],
        },
{
    let mut i: usize = 0;
    while i < candidates.len()
        invariant
            candidates.len() == is_file.len(),
            i <= candidates.len(),
            forall|j: int| 0 <= j < i ==> !#[trigger] is_file[j],
        decreases candidates.len() - i,
    {
        if is_file[i] {
            return Some(owned(candidates[i].as_str()));
        }
        i = i + 1;
    }
    None
}

} // verus!
