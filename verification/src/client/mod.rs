//! Platform client: wire types, the node-proxy addressing, and the decisions
//! of the query loops.

pub mod pipelines;
pub mod query;
pub mod session;
pub mod transport;

use vstd::prelude::*;
use crate::error::Error;
use crate::ext::{debug_quoted, debug_str};
use crate::model::{match_positions, lemma_match_positions, NodeId, RemotePipeline, TenantId};
use crate::text::{chars_of, owned, push_str, str_eq, string_of_range};

verus! {

/// `s` without any leading `c` characters (`str::trim_start_matches`).
pub open spec fn trim_start_char(s: Seq<char>, c: char) -> Seq<char>
    decreases s.len(),
{
    if s.len() > 0 && s[0] == c {
        trim_start_char(s.drop_first(), c)
    } else {
        s
    }
}

/// `s` without its leading `c` characters.
pub fn trim_start_matches(s: &str, c: char) -> (r: String)
    ensures
        r@ == trim_start_char(s@, c),
{
    let v = chars_of(s);
    let mut i: usize = 0;
    proof {
        assert(v@.skip(0) =~= v@);
    }
    while i < v.len() && v[i] == c
        invariant
            i <= v.len(),
            v@ == s@,
            trim_start_char(v@.skip(i as int), c) == trim_start_char(s@, c),
        decreases v.len() - i,
    {
        proof {
            assert(v@.skip(i as int).drop_first() =~= v@.skip(i + 1));
        }
        i = i + 1;
    }
    proof {
        assert(v@.subrange(i as int, v@.len() as int) =~= v@.skip(i as int));
    }
    string_of_range(&v, i, v.len())
}

/// The node-proxy suffix of an endpoint of a node in a workspace.
pub open spec fn proxy_suffix_of(workspace: Seq<char>, node: Seq<char>, endpoint: Seq<char>) -> Seq<char> {
    "node-proxy/"@ + workspace + "/"@ + node + "/"@ + trim_start_char(endpoint, '/')
}

/// The node-proxy endpoint suffix for a workspace/node/endpoint triple.
pub fn proxy_suffix(workspace: &TenantId, node: &NodeId, endpoint: &str) -> (r: String)
    ensures
        r@ == proxy_suffix_of(workspace.0@, node.0@, endpoint@),
{
    let mut s = owned("node-proxy/");
    push_str(&mut s, workspace.as_str());
    push_str(&mut s, "/");
    push_str(&mut s, node.as_str());
    push_str(&mut s, "/");
    let e = trim_start_matches(endpoint, '/');
    push_str(&mut s, e.as_str());
    s
}

/// The names of a list of pipelines.
pub open spec fn pipeline_names(s: Seq<RemotePipeline>) -> Seq<Seq<char>> {
    s.map_values(|p: RemotePipeline| p.name@)
}

/// Resolve a pipeline by exact name among those listed on a node: the only
/// one with that name, else a not-found or an ambiguity error.
pub fn resolve_pipeline(pipelines: Vec<RemotePipeline>, name: &str) -> (r: Result<RemotePipeline, Error>)
    ensures
        ({
            let m = match_positions(pipeline_names(pipelines@), name@);
            &&& m.len() == 0 ==> (r matches Err(Error::Platform(s))
                && s@ == "no pipeline named "@ + debug_str(name@) + " on the node"@)
            &&& m.len() >= 2 ==> (r matches Err(Error::Platform(s))
                && s@ == "multiple pipelines named "@ + debug_str(name@) + "; names must be unique"@)
            &&& m.len() == 1 ==> r == Ok::<RemotePipeline, Error>(pipelines@[m[0]])
        }),
{
    let ghost names = pipeline_names(pipelines@);
    let mut count: usize = 0;
    let mut first: usize = 0;
    let mut i: usize = 0;
    while i < pipelines.len()
        invariant
            i <= pipelines.len(),
            names == pipeline_names(pipelines@),
            count == match_positions(names.take(i as int), name@).len(),
            count <= i,
            count >= 1 ==> first == match_positions(names.take(i as int), name@)[0],
        decreases pipelines.len() - i,
    {
        proof {
            assert(names.take(i + 1).drop_last() =~= names.take(i as int));
            assert(names.take(i + 1).last() == pipelines@[i as int].name@);
        }
        if str_eq(pipelines[i].name.as_str(), name) {
            if count == 0 {
                first = i;
            }
            count = count + 1;
        }
        i = i + 1;
    }
    proof {
        assert(names.take(pipelines.len() as int) =~= names);
    }
    if count == 0 {
        let mut m = owned("no pipeline named ");
        let q = debug_quoted(name);
        push_str(&mut m, q.as_str());
        push_str(&mut m, " on the node");
        return Err(Error::Platform(m));
    }
    if count >= 2 {
        let mut m = owned("multiple pipelines named ");
        let q = debug_quoted(name);
        push_str(&mut m, q.as_str());
        push_str(&mut m, "; names must be unique");
        return Err(Error::Platform(m));
    }
    proof {
        lemma_match_positions(names, name@);
    }
    let mut pipelines = pipelines;
    Ok(pipelines.remove(first))
}

/// What the serve loop does after a page.
#[derive(Debug)]
pub enum PageOutcome {
    /// Fetch the next page with this continuation token.
    Next(String),
    /// The stream is exhausted.
    Done,
    /// The served pipeline failed.
    Failed(Error),
}

/// The failure message of a served pipeline that ended in the `failed` state.
pub open spec fn served_failure_message(status_query: bool) -> Seq<char> {
    if status_query {
        "the status query pipeline failed on the node"@
    } else {
        "the pipeline failed on the node"@
    }
}

/// Decide what follows a served page: its continuation token leads to the
/// next page; without one the stream ends, as a failure when the pipeline's
/// state is `failed`. `status_query` selects the wording of that failure
/// (a bounded status query, or a streamed pipeline).
pub fn after_page(next_token: Option<String>, state: Option<&str>, status_query: bool) -> (r: PageOutcome)
    ensures
        match next_token {
            Some(t) => r matches PageOutcome::Next(u) && u@ == t@,
            None => if state matches Some(s) && s@ == "failed"@ {
                r matches PageOutcome::Failed(Error::Platform(m)) && m@ == served_failure_message(status_query)
            } else {
                r is Done
            },
        },
{
    match next_token {
        Some(t) => PageOutcome::Next(t),
        None => {
            let failed = match state {
                Some(s) => str_eq(s, "failed"),
                None => false,
            };
            if failed {
                if status_query {
                    PageOutcome::Failed(Error::Platform(owned("the status query pipeline failed on the node")))
                } else {
                    PageOutcome::Failed(Error::Platform(owned("the pipeline failed on the node")))
                }
            } else {
                PageOutcome::Done
            }
        },
    }
}

/// How many more events a bounded query may collect (`saturating_sub`).
pub fn remaining_events(max_events: usize, collected: usize) -> (r: usize)
    ensures
        r == if collected >= max_events { 0 } else { max_events - collected },
{
    if collected >= max_events { 0 } else { max_events - collected }
}

/// The companion pipeline that tails the diagnostics of pipeline `main_id`.
pub open spec fn diagnostics_definition_of(main_id: Seq<char>) -> Seq<char> {
    "remote { diagnostics live=true, retro=true | where pipeline_id == \""@ + main_id + "\" }"@
}

/// The definition of the companion diagnostics pipeline of `main_id`.
pub fn diagnostics_definition(main_id: &str) -> (r: String)
    ensures
        r@ == diagnostics_definition_of(main_id@),
{
    let mut s = owned("remote { diagnostics live=true, retro=true | where pipeline_id == \"");
    push_str(&mut s, main_id);
    push_str(&mut s, "\" }");
    s
}

} // verus!
