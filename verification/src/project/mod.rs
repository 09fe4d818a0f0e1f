//! Project loading: turning `.tql` files into desired pipelines.
//!
//! A project's `.tql` files are the desired state. Each file becomes a
//! [`DesiredPipeline`]; the pipeline name (its identity key) comes from
//! frontmatter or the file stem and must be unique across the project.

pub mod frontmatter;

use vstd::prelude::*;
use crate::error::Error;
use crate::ext::{debug_quoted, debug_str};
use crate::model::{DesiredPipeline, DesiredState, NodeId};
use crate::paths::{file_stem, path_file_stem};
use crate::text::{chars_eq, chars_of, lower_chars, lower_seq, owned, push_str, string_of};
use frontmatter::Parsed;

verus! {

/// The desired state a `[defaults].state` string names, case-insensitively.
pub open spec fn default_state_named(s: Seq<char>) -> Option<DesiredState> {
    let l = lower_seq(s);
    if l == "running"@ {
        Some(DesiredState::Running)
    } else if l == "paused"@ {
        Some(DesiredState::Paused)
    } else if l == "stopped"@ {
        Some(DesiredState::Stopped)
    } else {
        None
    }
}

/// Map a `[defaults].state` string to a [`DesiredState`].
pub fn parse_default_state(s: &str) -> (r: Result<DesiredState, Error>)
    ensures
        match default_state_named(s@) {
            Some(d) => r == Ok::<DesiredState, Error>(d),
            None => r matches Err(Error::Config(m)) && m@ == "invalid [defaults] state "@
                + debug_str(lower_seq(s@)) + ": expected running|paused|stopped"@,
        },
{
    let l = lower_chars(s);
    if chars_eq(&l, &chars_of("running")) {
        Ok(DesiredState::Running)
    } else if chars_eq(&l, &chars_of("paused")) {
        Ok(DesiredState::Paused)
    } else if chars_eq(&l, &chars_of("stopped")) {
        Ok(DesiredState::Stopped)
    } else {
        let lower = string_of(&l);
        let mut m = String::new();
        push_str(&mut m, "invalid [defaults] state ");
        let q = debug_quoted(lower.as_str());
        push_str(&mut m, q.as_str());
        push_str(&mut m, ": expected running|paused|stopped");
        Err(Error::Config(m))
    }
}

/// The name a file's pipeline gets: from frontmatter, else the file stem.
pub open spec fn pipeline_name(path: Seq<char>, parsed: Parsed) -> Option<Seq<char>> {
    match parsed.frontmatter.name {
        Some(n) => Some(n@),
        None => file_stem(path),
    }
}

/// The state a file's pipeline gets: from frontmatter, else the project
/// default, else running.
pub open spec fn pipeline_state(parsed: Parsed, default_state: Option<DesiredState>) -> DesiredState {
    match parsed.frontmatter.state {
        Some(s) => s,
        None => match default_state {
            Some(d) => d,
            None => DesiredState::Running,
        },
    }
}

/// Build a [`DesiredPipeline`] from a parsed `.tql` file at `path`.
///
/// The name comes from frontmatter, else the file stem. The state comes from
/// frontmatter, else `default_state`, else `running`. A file without a
/// definition is rejected.
pub fn desired_from_parsed(path: &str, parsed: Parsed, default_state: Option<DesiredState>) -> (r:
    Result<DesiredPipeline, Error>)
    ensures
        match pipeline_name(path@, parsed) {
            None => r matches Err(Error::Config(m)) && m@ == "cannot derive a pipeline name from "@
                + path@,
            Some(name) => if parsed.definition@.len() == 0 {
                r matches Err(Error::Config(m)) && m@ == path@ + " contains no pipeline definition"@
            } else {
                r matches Ok(p) && p.name@ == name && p.definition == parsed.definition && p.state
                    == pipeline_state(parsed, default_state) && match parsed.frontmatter.node {
                    Some(n) => p.node matches Some(id) && id.0 == n,
                    None => p.node is None,
                }
            },
        },
{
    let name = match parsed.frontmatter.name {
        Some(n) => n,
        None => match path_file_stem(path) {
            Some(s) => s,
            None => {
                let mut m = String::new();
                push_str(&mut m, "cannot derive a pipeline name from ");
                push_str(&mut m, path);
                return Err(Error::Config(m));
            },
        },
    };
    if parsed.definition.as_str().is_empty() {
        let mut m = String::new();
        push_str(&mut m, path);
        push_str(&mut m, " contains no pipeline definition");
        return Err(Error::Config(m));
    }
    let state = match parsed.frontmatter.state {
        Some(s) => s,
        None => match default_state {
            Some(d) => d,
            None => DesiredState::Running,
        },
    };
    let node = match parsed.frontmatter.node {
        Some(n) => Some(NodeId(n)),
        None => None,
    };
    Ok(DesiredPipeline { name, definition: parsed.definition, state, node })
}

/// The position of the pipeline named `name`, if any.
pub fn find_name(pipelines: &[DesiredPipeline], name: &str) -> (r: Option<usize>)
    ensures
        r matches Some(i) ==> i < pipelines.len() && pipelines@[i as int].name@ == name@ && forall|
            k: int,
        | 0 <= k < i ==> (#[trigger] pipelines@[k]).name@ != name@,
        r is None ==> forall|k: int| 0 <= k < pipelines.len() ==> (#[trigger] pipelines@[k]).name@ != name@,
{
    let mut i: usize = 0;
    while i < pipelines.len()
        invariant
            i <= pipelines.len(),
            forall|k: int| 0 <= k < i ==> (#[trigger] pipelines@[k]).name@ != name@,
        decreases pipelines.len() - i,
    {
        if crate::text::str_eq(pipelines[i].name.as_str(), name) {
            return Some(i);
        }
        i = i + 1;
    }
    None
}

/// The error for a pipeline name declared by two files.
pub fn duplicate_error(name: &str, first: &str, second: &str) -> (e: Error)
    ensures
        e matches Error::Config(m) && m@ == "duplicate pipeline name "@ + debug_str(name@) + " in "@
            + first@ + " and "@ + second@,
{
    let mut m = String::new();
    push_str(&mut m, "duplicate pipeline name ");
    let q = debug_quoted(name);
    push_str(&mut m, q.as_str());
    push_str(&mut m, " in ");
    push_str(&mut m, first);
    push_str(&mut m, " and ");
    push_str(&mut m, second);
    Error::Config(m)
}


/// Build a [`DesiredPipeline`] from a single parsed `.tql` file, with no
/// project default state (frontmatter, else running).
pub fn desired_from_file(path: &str, parsed: Parsed) -> (r: Result<DesiredPipeline, Error>)
    ensures
        file_result(r, path@, parsed, None),
{
    desired_from_parsed(path, parsed, None)
}

/// Whether a parsed file yields a pipeline: it has a name and a definition.
pub open spec fn file_ok(path: Seq<char>, parsed: Parsed) -> bool {
    pipeline_name(path, parsed) is Some && parsed.definition@.len() > 0
}

/// Whether `r` is what [`desired_from_parsed`] gives for a file.
pub open spec fn file_result(
    r: Result<DesiredPipeline, Error>,
    path: Seq<char>,
    parsed: Parsed,
    default_state: Option<DesiredState>,
) -> bool {
    match pipeline_name(path, parsed) {
        None => r matches Err(Error::Config(m)) && m@ == "cannot derive a pipeline name from "@ + path,
        Some(name) => if parsed.definition@.len() == 0 {
            r matches Err(Error::Config(m)) && m@ == path + " contains no pipeline definition"@
        } else {
            r matches Ok(p) && desired_of(p, name, parsed, default_state)
        },
    }
}

/// Whether `p` is the pipeline named `name` that a parsed file declares.
pub open spec fn desired_of(p: DesiredPipeline, name: Seq<char>, parsed: Parsed, default_state: Option<DesiredState>) -> bool {
    &&& p.name@ == name
    &&& p.definition == parsed.definition
    &&& p.state == pipeline_state(parsed, default_state)
    &&& match parsed.frontmatter.node {
        Some(n) => p.node matches Some(id) && id.0 == n,
        None => p.node is None,
    }
}

/// Whether the first `k` files all yield pipelines with distinct names.
pub open spec fn clean_upto(paths: Seq<Seq<char>>, parsed: Seq<Parsed>, k: int) -> bool {
    &&& forall|i: int| 0 <= i < k ==> file_ok(paths[i], #[trigger] parsed[i])
    &&& forall|i: int, j: int|
        0 <= i < j < k ==> pipeline_name(paths[i], #[trigger] parsed[i]) != pipeline_name(paths[j], #[trigger] parsed[j])
}

/// Whether `e` is the error of the first bad file, `k`: its own error, or a
/// duplicate of the name of the earlier file `j`.
pub open spec fn load_error_at(e: Error, paths: Seq<Seq<char>>, parsed: Seq<Parsed>, default_state: Option<DesiredState>, k: int) -> bool {
    if !file_ok(paths[k], parsed[k]) {
        file_result(Err(e), paths[k], parsed[k], default_state)
    } else {
        exists|j: int|
            0 <= j < k && #[trigger] pipeline_name(paths[j], parsed[j]) == pipeline_name(paths[k], parsed[k])
                && (e matches Error::Config(m) && m@ == "duplicate pipeline name "@ + debug_str(
                pipeline_name(paths[k], parsed[k])->0,
            ) + " in "@ + paths[j] + " and "@ + paths[k])
    }
}

/// The project default state a `[defaults].state` value names, if any.
pub open spec fn project_default(default_state: Option<&str>) -> Option<DesiredState> {
    match default_state {
        Some(s) => default_state_named(s@),
        None => None,
    }
}

/// Load a project from its files, each given by its path and parsed
/// contents, in the order they are processed (sorted by path).
///
/// The project default state (`[defaults].state`) is checked first; then
/// each file becomes a pipeline, and the first file that cannot, or that
/// repeats an earlier file's name, is the error.
pub fn load_project(default_state: Option<&str>, paths: &Vec<String>, parsed: Vec<Parsed>) -> (r: Result<Vec<DesiredPipeline>, Error>)
    requires
        paths@.len() == parsed@.len(),
    ensures
        ({
            let ps = paths@.map_values(|p: String| p@);
            let n = paths@.len() as int;
            let d = project_default(default_state);
            &&& (default_state matches Some(s) && default_state_named(s@) is None) ==> (r matches Err(
                Error::Config(m),
            ) && m@ == "invalid [defaults] state "@ + debug_str(lower_seq(default_state->0@))
                + ": expected running|paused|stopped"@)
            &&& !(default_state matches Some(s) && default_state_named(s@) is None) ==> {
                &&& (r is Ok <==> clean_upto(ps, parsed@, n))
                &&& r matches Ok(v) ==> v@.len() == n && forall|i: int|
                    0 <= i < n ==> desired_of(#[trigger] v@[i], pipeline_name(ps[i], parsed@[i])->0, parsed@[i], d)
                &&& r matches Err(e) ==> exists|k: int|
                    0 <= k < n && clean_upto(ps, parsed@, k) && #[trigger] load_error_at(e, ps, parsed@, d, k)
            }
        }),
{
    let ghost ps = paths@.map_values(|p: String| p@);
    let ghost all = parsed@;
    let ghost dd = project_default(default_state);
    let default = match default_state {
        Some(s) => match parse_default_state(s) {
            Ok(d) => Some(d),
            Err(e) => return Err(e),
        },
        None => None,
    };
    let mut rest = parsed;
    let mut stack: Vec<Parsed> = Vec::new();
    while rest.len() > 0
        invariant
            stack@.len() + rest@.len() == all.len(),
            forall|k: int| 0 <= k < stack@.len() ==> #[trigger] stack@[k] == all[all.len() - 1 - k],
            rest@ == all.take(rest@.len() as int),
        decreases rest.len(),
    {
        let x = rest.pop().unwrap();
        stack.push(x);
    }
    let mut out: Vec<DesiredPipeline> = Vec::new();
    let mut i: usize = 0;
    while i < paths.len()
        invariant
            paths@.len() == all.len(),
            ps == paths@.map_values(|p: String| p@),
            all == parsed@,
            default == dd,
            dd == project_default(default_state),
            !(default_state matches Some(s) && default_state_named(s@) is None),
            i <= paths.len(),
            stack@.len() == all.len() - i,
            forall|k: int| 0 <= k < stack@.len() ==> #[trigger] stack@[k] == all[all.len() - 1 - k],
            out@.len() == i,
            clean_upto(ps, all, i as int),
            forall|k: int| 0 <= k < i ==> desired_of(#[trigger] out@[k], pipeline_name(ps[k], all[k])->0, all[k], default),
        decreases paths.len() - i,
    {
        let x = stack.pop().unwrap();
        proof {
            assert(x == all[i as int]);
            assert(ps[i as int] == paths@[i as int]@);
        }
        let ghost xv = x;
        let p = match desired_from_parsed(paths[i].as_str(), x, default) {
            Ok(p) => p,
            Err(e) => {
                proof {
                    assert(!file_ok(ps[i as int], all[i as int]));
                    assert(load_error_at(e, ps, all, dd, i as int));
                    assert(!clean_upto(ps, all, paths@.len() as int));
                    assert(exists|k: int| 0 <= k < paths@.len() && clean_upto(ps, all, k) && #[trigger] load_error_at(e, ps, all, dd, k));
                }
                return Err(e);
            },
        };
        match find_name(&out, p.name.as_str()) {
            Some(j) => {
                let e = duplicate_error(p.name.as_str(), paths[j].as_str(), paths[i].as_str());
                proof {
                    assert(ps[j as int] == paths@[j as int]@);
                    assert(pipeline_name(ps[j as int], all[j as int]) == pipeline_name(ps[i as int], all[i as int]));
                    assert(load_error_at(e, ps, all, dd, i as int));
                    assert(!clean_upto(ps, all, paths@.len() as int)) by {
                        assert(pipeline_name(ps[j as int], all[j as int]) == pipeline_name(ps[i as int], all[i as int]));
                    }
                    assert(exists|k: int| 0 <= k < paths@.len() && clean_upto(ps, all, k) && #[trigger] load_error_at(e, ps, all, dd, k));
                }
                return Err(e);
            },
            None => {},
        }
        proof {
            assert forall|a: int, b: int| 0 <= a < b < i + 1 implies pipeline_name(ps[a], #[trigger] all[a]) != pipeline_name(ps[b], #[trigger] all[b]) by {
                if b == i {
                    assert(out@[a].name@ == pipeline_name(ps[a], all[a])->0);
                    assert(out@[a].name@ != p.name@);
                }
            }
        }
        out.push(p);
        i = i + 1;
    }
    Ok(out)
}


/// A file's own frontmatter state decides its pipeline's state, whatever
/// the project default is; the project default (else `running`) applies only
/// to files that set no state.
pub proof fn law_file_state_beats_project_default(
    r: Result<DesiredPipeline, Error>,
    path: Seq<char>,
    parsed: Parsed,
    default_state: Option<DesiredState>,
)
    requires
        file_result(r, path, parsed, default_state),
        r is Ok,
    ensures
        parsed.frontmatter.state matches Some(s) ==> r->Ok_0.state == s,
        parsed.frontmatter.state is None ==> (default_state matches Some(d) ==> r->Ok_0.state == d),
        parsed.frontmatter.state is None && default_state is None ==> r->Ok_0.state == DesiredState::Running,
        parsed.frontmatter.name matches Some(n) ==> r->Ok_0.name@ == n@,
        parsed.frontmatter.name is None ==> file_stem(path) == Some(r->Ok_0.name@),
        r->Ok_0.definition@ == parsed.definition@ && parsed.definition@.len() > 0,
{
}

/// The same for each pipeline a project load yields.
pub proof fn law_loaded_state_follows_file(
    p: DesiredPipeline,
    name: Seq<char>,
    parsed: Parsed,
    default_state: Option<DesiredState>,
)
    requires
        desired_of(p, name, parsed, default_state),
    ensures
        parsed.frontmatter.state matches Some(s) ==> p.state == s,
        parsed.frontmatter.state is None ==> (default_state matches Some(d) ==> p.state == d),
        parsed.frontmatter.state is None && default_state is None ==> p.state == DesiredState::Running,
{
}

} // verus!
