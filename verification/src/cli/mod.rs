//! The decisions and renderings of the command-line commands.
//!
//! Parsing arguments, talking to the platform and printing are the caller's
//! part; what a command decides and what it shows is stated here.

pub mod alert;
pub mod destroy;
pub mod lifecycle;
pub mod list;
pub mod node;
pub mod org;
pub mod plan;
pub mod workspace;

use vstd::prelude::*;
use crate::config::ResolvedConfig;
use crate::error::{Error, HintedError};
use crate::ext::{debug_quoted, debug_str};
use crate::model::{resolve_error_message, NodeId, ResolveError, TenantId};
use crate::text::{chars_eq, chars_of, decimal, lower_chars, lower_seq, owned, push_char, push_str, str_eq, trim, trim_str, u64_to_string};

verus! {

/// The configuration format for `tz node config`.
#[derive(Debug, Clone, Copy, PartialEq, Eq, Structural)]
pub enum NodeConfigFormat {
    /// A `docker compose` configuration.
    Docker,
    /// A `tenzir` client configuration.
    Tenzir,
    /// A `tenzir-node` configuration.
    TenzirNode,
}

/// The wire name of a node configuration format.
pub open spec fn node_config_wire(f: NodeConfigFormat) -> Seq<char> {
    match f {
        NodeConfigFormat::Docker => "docker"@,
        NodeConfigFormat::Tenzir => "tenzir"@,
        NodeConfigFormat::TenzirNode => "tenzir-node"@,
    }
}

impl NodeConfigFormat {
    /// The wire string expected by `generate-client-config`.
    pub fn as_wire(self) -> (r: &'static str)
        ensures
            r@ == node_config_wire(self),
    {
        match self {
            NodeConfigFormat::Docker => "docker",
            NodeConfigFormat::Tenzir => "tenzir",
            NodeConfigFormat::TenzirNode => "tenzir-node",
        }
    }
}

/// The hint for a missing workspace.
pub open spec fn no_workspace_hint() -> Seq<char> {
    "set `[workspace] id` in tenzir.toml, pass --workspace, or run `tz workspace select`"@
}

/// The hint for a missing node.
pub open spec fn no_node_hint() -> Seq<char> {
    "set `[node] id` in tenzir.toml, pass --node, or run `tz node list`"@
}

/// Whether `e` is a configuration error saying `m` with the single hint `h`.
pub open spec fn config_error_with_hint(e: HintedError, m: Seq<char>, h: Seq<char>) -> bool {
    &&& e.error matches Error::Config(s) && s@ == m
    &&& e.hints@.len() == 1
    &&& e.hints@[0]@ == h
}

/// The workspace from the configuration, or a hinted error.
pub fn current_workspace(config: &ResolvedConfig) -> (r: Result<TenantId, HintedError>)
    ensures
        match config.workspace {
            Some(w) => r matches Ok(t) && t.0@ == w@,
            None => r matches Err(e) && config_error_with_hint(e, "no workspace configured"@, no_workspace_hint()),
        },
{
    match &config.workspace {
        Some(w) => Ok(TenantId(owned(w.as_str()))),
        None => Err(HintedError::new(Error::Config(owned("no workspace configured"))).with_hint(
            "set `[workspace] id` in tenzir.toml, pass --workspace, or run `tz workspace select`",
        )),
    }
}

/// The `(workspace, node)` target from the configuration, or a hinted error
/// for the first of them that is missing.
pub fn resolve_target(config: &ResolvedConfig) -> (r: Result<(TenantId, NodeId), HintedError>)
    ensures
        match (config.workspace, config.node) {
            (Some(w), Some(n)) => r matches Ok((t, m)) && t.0@ == w@ && m.0@ == n@,
            (None, _) => r matches Err(e) && config_error_with_hint(e, "no workspace configured"@, no_workspace_hint()),
            (Some(_), None) => r matches Err(e) && config_error_with_hint(e, "no node configured"@, no_node_hint()),
        },
{
    let workspace = current_workspace(config)?;
    match &config.node {
        Some(n) => Ok((workspace, NodeId(owned(n.as_str())))),
        None => Err(HintedError::new(Error::Config(owned("no node configured"))).with_hint(
            "set `[node] id` in tenzir.toml, pass --node, or run `tz node list`",
        )),
    }
}

/// Whether an answer to a yes/no prompt confirms: `y` or `yes` in any ASCII
/// case, around whitespace. Anything else (including nothing) is a no.
pub open spec fn confirms(answer: Seq<char>) -> bool {
    lower_seq(trim(answer)) == "y"@ || lower_seq(trim(answer)) == "yes"@
}

/// Read a confirmation prompt's answer.
pub fn confirmed(answer: &str) -> (r: bool)
    ensures
        r == confirms(answer@),
{
    let t = trim_str(answer);
    let l = lower_chars(t.as_str());
    chars_eq(&l, &chars_of("y")) || chars_eq(&l, &chars_of("yes"))
}

/// Map a unit-returning handler result to exit code `0`.
pub fn zero(result: Result<(), HintedError>) -> (r: Result<u8, HintedError>)
    ensures
        match result {
            Ok(_) => r == Ok::<u8, HintedError>(0),
            Err(e) => r == Err::<u8, HintedError>(e),
        },
{
    match result {
        Ok(()) => Ok(0),
        Err(e) => Err(e),
    }
}

/// The project root when no config file was found: the start directory
/// (`--dir` or the current directory) rather than the resolved default.
pub fn project_root_for(config_dir_found: bool, resolved_root: String, start: String) -> (r: String)
    ensures
        r == if config_dir_found { resolved_root } else { start },
{
    if config_dir_found { resolved_root } else { start }
}


/// Validate an invitation role: `member` or `admin`.
pub fn check_role(role: &str) -> (r: Result<(), HintedError>)
    ensures
        (role@ == "member"@ || role@ == "admin"@) ==> r is Ok,
        !(role@ == "member"@ || role@ == "admin"@) ==> (r matches Err(e) && e.hints@.len() == 0
            && (e.error matches Error::Config(m) && m@ == "invalid role "@ + debug_str(role@)
            + ": must be 'member' or 'admin'"@)),
{
    if !str_eq(role, "member") && !str_eq(role, "admin") {
        let mut m = owned("invalid role ");
        let q = debug_quoted(role);
        push_str(&mut m, q.as_str());
        push_str(&mut m, ": must be 'member' or 'admin'");
        return Err(HintedError::new(Error::Config(m)));
    }
    Ok(())
}

/// The error for a workspace query that selects no single workspace.
pub fn select_error(e: &ResolveError) -> (r: HintedError)
    ensures
        r.error matches Error::Config(m) && m@ == "cannot select workspace: "@ + resolve_error_message(*e),
        r.hints@.len() == 1,
        r.hints@[0]@ == "run `tz workspace list` to see available workspaces"@,
{
    let mut m = owned("cannot select workspace: ");
    let d = e.message();
    push_str(&mut m, d.as_str());
    HintedError::new(Error::Config(m)).with_hint("run `tz workspace list` to see available workspaces")
}

/// A calendar date and time of day in UTC.
#[derive(Debug, Clone, Copy, PartialEq, Eq, Structural)]
pub struct UtcTime {
    /// The year.
    pub year: i32,
    /// The month, 1 to 12.
    pub month: u8,
    /// The day of the month, 1 to 31.
    pub day: u8,
    /// The hour, 0 to 23.
    pub hour: u8,
    /// The minute, 0 to 59.
    pub minute: u8,
    /// The second, 0 to 59.
    pub second: u8,
}

/// Whether the parts of a UTC time lie in the ranges the `time` crate
/// documents: a year of at most four digits, a month of 1 to 12, a day of 1
/// to 31, an hour of 0 to 23, a minute and a second of 0 to 59.
pub open spec fn utc_in_range(t: UtcTime) -> bool {
    &&& -9999 <= t.year <= 9999
    &&& 1 <= t.month <= 12
    &&& 1 <= t.day <= 31
    &&& t.hour <= 23
    &&& t.minute <= 59
    &&& t.second <= 59
}

/// The current UTC date and time (`time::OffsetDateTime::now_utc()`).
///
/// Trusted: the parts are in the ranges the `time` crate documents for them
/// (a year of at most four digits, a month of 1 to 12, a day of 1 to 31, an
/// hour of 0 to 23, a minute and a second of 0 to 59); their values are the
/// clock's.
#[verifier::external_body]
pub(crate) fn utc_now() -> (t: UtcTime)
    ensures
        utc_in_range(t),
{
    let now = time::OffsetDateTime::now_utc();
    UtcTime {
        year: now.year(),
        month: u8::from(now.month()),
        day: now.day(),
        hour: now.hour(),
        minute: now.minute(),
        second: now.second(),
    }
}

/// `n` in decimal, padded with zeros to at least `w` digits.
pub open spec fn zero_padded(n: nat, w: nat) -> Seq<char> {
    if decimal(n).len() >= w {
        decimal(n)
    } else {
        Seq::new((w - decimal(n).len()) as nat, |i: int| '0') + decimal(n)
    }
}

/// Append `n` zero-padded to `w` digits (`{:0w}`).
fn push_zero_padded(out: &mut String, n: u64, w: usize)
    ensures
        final(out)@ == old(out)@ + zero_padded(n as nat, w as nat),
{
    let digits = u64_to_string(n);
    let len = chars_of(digits.as_str()).len();
    if len < w {
        let ghost base = out@;
        let mut k: usize = 0;
        while k < w - len
            invariant
                len < w,
                k <= w - len,
                out@ =~= base + Seq::new(k as nat, |i: int| '0'),
            decreases w - len - k,
        {
            push_char(out, '0');
            k = k + 1;
        }
    }
    push_str(out, digits.as_str());
    proof {
        assert(out@ =~= old(out)@ + zero_padded(n as nat, w as nat));
    }
}

/// The `{:04}` rendering of a year: four digits, or a sign and three.
pub open spec fn year_text(y: int) -> Seq<char> {
    if y < 0 {
        "-"@ + zero_padded((-y) as nat, 3)
    } else {
        zero_padded(y as nat, 4)
    }
}

/// The timestamp text `YYYYMMDDTHHMMSSZ` of a UTC time.
pub open spec fn timestamp_text(t: UtcTime) -> Seq<char> {
    year_text(t.year as int) + zero_padded(t.month as nat, 2) + zero_padded(t.day as nat, 2) + "T"@ + zero_padded(
        t.hour as nat,
        2,
    ) + zero_padded(t.minute as nat, 2) + zero_padded(t.second as nat, 2) + "Z"@
}

/// A UTC timestamp like `20260707T120000Z`, used in default names.
pub fn timestamp_of(t: UtcTime) -> (r: String)
    ensures
        r@ == timestamp_text(t),
{
    let mut s = String::new();
    if t.year < 0 {
        push_str(&mut s, "-");
        let y: i64 = -(t.year as i64);
        push_zero_padded(&mut s, y as u64, 3);
    } else {
        push_zero_padded(&mut s, t.year as u64, 4);
    }
    push_zero_padded(&mut s, t.month as u64, 2);
    push_zero_padded(&mut s, t.day as u64, 2);
    push_str(&mut s, "T");
    push_zero_padded(&mut s, t.hour as u64, 2);
    push_zero_padded(&mut s, t.minute as u64, 2);
    push_zero_padded(&mut s, t.second as u64, 2);
    push_str(&mut s, "Z");
    proof {
        assert(s@ =~= timestamp_text(t));
    }
    s
}

/// The timestamp suffix of default names, at the current UTC time.
pub fn timestamp_suffix() -> (r: String)
    ensures
        exists|t: UtcTime| utc_in_range(t) && r@ == timestamp_text(t),
{
    timestamp_of(utc_now())
}

/// The default name of a new workspace: `workspace-` and a timestamp.
pub fn default_workspace_name() -> (r: String)
    ensures
        exists|t: UtcTime| utc_in_range(t) && r@ == "workspace-"@ + timestamp_text(t),
{
    let t = utc_now();
    let mut s = owned("workspace-");
    let ts = timestamp_of(t);
    push_str(&mut s, ts.as_str());
    s
}

/// The default name of a temporary node: `node-` and a timestamp.
pub fn default_node_name() -> (r: String)
    ensures
        exists|t: UtcTime| utc_in_range(t) && r@ == "node-"@ + timestamp_text(t),
{
    let t = utc_now();
    let mut s = owned("node-");
    let ts = timestamp_of(t);
    push_str(&mut s, ts.as_str());
    s
}

} // verus!
