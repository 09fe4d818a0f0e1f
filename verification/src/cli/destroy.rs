//! `tz project destroy`: the delete-only plan for the project's pipelines.

use vstd::prelude::*;
use crate::apply::ApplyReport;
use crate::model::{copy_pipeline_id, RemotePipeline, DesiredPipeline};
use crate::reconcile::{declared, is_declared, Action};
use crate::text::owned;

verus! {

/// Exit code for a partial failure during destroy.
pub const EXIT_PARTIAL_FAILURE: u8 = 3;

/// Whether `a` deletes the pipeline `p`.
pub open spec fn deletes(a: Action, p: RemotePipeline) -> bool {
    a matches Action::Delete { remote, name } && remote == p.id && name@ == p.name@
}

/// The pipelines on the node that the project declares, in node order.
pub open spec fn declared_remote(desired: Seq<DesiredPipeline>, actual: Seq<RemotePipeline>) -> Seq<RemotePipeline>
    decreases actual.len(),
{
    if actual.len() == 0 {
        seq![]
    } else if declared(desired, actual.last().name@) {
        declared_remote(desired, actual.drop_last()).push(actual.last())
    } else {
        declared_remote(desired, actual.drop_last())
    }
}

/// The actions of a destroy: one delete for every pipeline on the node whose
/// name the project declares, in node order.
pub fn destroy_actions(desired: &[DesiredPipeline], actual: &[RemotePipeline]) -> (r: Vec<Action>)
    ensures
        r@.len() == declared_remote(desired@, actual@).len(),
        forall|k: int| 0 <= k < r@.len() ==> deletes(#[trigger] r@[k], declared_remote(desired@, actual@)[k]),
{
    let mut out: Vec<Action> = Vec::new();
    let mut i: usize = 0;
    while i < actual.len()
        invariant
            i <= actual.len(),
            out@.len() == declared_remote(desired@, actual@.take(i as int)).len(),
            forall|k: int| 0 <= k < out@.len() ==> deletes(#[trigger] out@[k], declared_remote(desired@, actual@.take(i as int))[k]),
        decreases actual.len() - i,
    {
        proof {
            assert(actual@.take(i + 1).drop_last() =~= actual@.take(i as int));
            assert(actual@.take(i + 1).last() == actual@[i as int]);
        }
        let p = &actual[i];
        if is_declared(desired, p.name.as_str()) {
            out.push(Action::Delete { remote: copy_pipeline_id(&p.id), name: owned(p.name.as_str()) });
        }
        i = i + 1;
    }
    proof {
        assert(actual@.take(actual@.len() as int) =~= actual@);
    }
    out
}

/// The exit code of a destroy: `3` when some delete failed.
pub fn exit_code(report: &ApplyReport) -> (r: u8)
    ensures
        r == if report.failed@.len() > 0 { EXIT_PARTIAL_FAILURE } else { 0 },
{
    if report.has_failures() { EXIT_PARTIAL_FAILURE } else { 0 }
}

} // verus!
