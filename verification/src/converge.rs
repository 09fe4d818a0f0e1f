//! What carrying out a plan does to a node, and the law that a plan, carried
//! out in full, brings the node in sync with the project.
//!
//! The node is modelled as the sequence of its pipelines. Each action takes
//! effect as its name says: a create adds the pipeline, driven to its desired
//! run-state, under an id the node assigns; a set replaces the definition of
//! the pipeline with the given id; a delete removes it; a transition moves it
//! to the run-state its action leads to.

use vstd::prelude::*;
use crate::model::{
    satisfies, spec_create_transitions, spec_transition_for, DesiredPipeline, DesiredState, LifecycleState, PipelineId,
    RemotePipeline, TransitionAction,
};
use crate::reconcile::{
    declared, find_last, gather, in_sync, lemma_find_last, plan_actions, spec_drifted,
    spec_is_terminal, Action,
};

verus! {

/// The run-state a transition action leaves a pipeline in.
pub open spec fn state_after(act: TransitionAction) -> LifecycleState {
    match act {
        TransitionAction::Start => LifecycleState::Running,
        TransitionAction::Pause => LifecycleState::Paused,
        TransitionAction::Stop => LifecycleState::Stopped,
    }
}

/// The run-state a created pipeline is left in: it starts out `Created`, and
/// the transitions that drive a created pipeline to its desired run-state
/// move it on.
pub open spec fn state_reached(s: DesiredState) -> LifecycleState {
    let acts = spec_create_transitions(s);
    if acts.len() == 0 {
        LifecycleState::Created
    } else {
        state_after(acts.last())
    }
}

/// The node's pipelines without those whose id is `id`.
pub open spec fn without_id(node: Seq<RemotePipeline>, id: Seq<char>) -> Seq<RemotePipeline>
    decreases node.len(),
{
    if node.len() == 0 {
        node
    } else if node.last().id.0@ == id {
        without_id(node.drop_last(), id)
    } else {
        without_id(node.drop_last(), id).push(node.last())
    }
}

/// The pipeline `p` with the definition `def`.
pub open spec fn with_definition(p: RemotePipeline, def: String) -> RemotePipeline {
    RemotePipeline { id: p.id, name: p.name, definition: def, state: p.state, error: p.error }
}

/// The pipeline `p` in run-state `s`.
pub open spec fn with_state(p: RemotePipeline, s: LifecycleState) -> RemotePipeline {
    RemotePipeline { id: p.id, name: p.name, definition: p.definition, state: s, error: p.error }
}

/// The pipeline a create of `d` leaves on the node under the id `id`.
pub open spec fn created(d: DesiredPipeline, id: PipelineId) -> RemotePipeline {
    RemotePipeline { id, name: d.name, definition: d.definition, state: state_reached(d.state), error: None }
}

/// The node's pipelines after action `a` took effect; `fresh` is the id the
/// node assigns when `a` creates a pipeline.
pub open spec fn effect(node: Seq<RemotePipeline>, a: Action, fresh: PipelineId) -> Seq<RemotePipeline> {
    match a {
        Action::Create(d) => node.push(created(d, fresh)),
        Action::SetDefinition { remote, to } => node.map_values(
            |p: RemotePipeline| if p.id.0@ == remote.0@ { with_definition(p, to.definition) } else { p },
        ),
        Action::Delete { remote, .. } => without_id(node, remote.0@),
        Action::Transition { remote, action, .. } => node.map_values(
            |p: RemotePipeline| if p.id.0@ == remote.0@ { with_state(p, state_after(action)) } else { p },
        ),
    }
}

/// The node's pipelines after the actions took effect in order; `fresh[i]`
/// is the id the node assigns when `actions[i]` creates a pipeline.
pub open spec fn run(node: Seq<RemotePipeline>, actions: Seq<Action>, fresh: Seq<PipelineId>) -> Seq<RemotePipeline>
    decreases actions.len(),
{
    if actions.len() == 0 {
        node
    } else {
        effect(run(node, actions.drop_last(), fresh), actions.last(), fresh[actions.len() - 1])
    }
}

/// Running `a + b` is running `a`, then `b` with the ids that follow.
proof fn lemma_run_concat(node: Seq<RemotePipeline>, a: Seq<Action>, b: Seq<Action>, fresh: Seq<PipelineId>)
    requires
        a.len() + b.len() <= fresh.len(),
    ensures
        run(node, a + b, fresh) == run(run(node, a, fresh), b, fresh.skip(a.len() as int)),
    decreases b.len(),
{
    if b.len() == 0 {
        assert(a + b =~= a);
    } else {
        assert((a + b).drop_last() =~= a + b.drop_last());
        lemma_run_concat(node, a, b.drop_last(), fresh);
        assert(fresh.skip(a.len() as int)[b.len() - 1] == fresh[a.len() + b.len() - 1]);
    }
}

/// The last pipeline named `name` in `x + y`.
proof fn lemma_find_last_append(x: Seq<RemotePipeline>, y: Seq<RemotePipeline>, name: Seq<char>)
    ensures
        find_last(x + y, name) == match find_last(y, name) {
            Some(j) => Some(x.len() + j),
            None => find_last(x, name),
        },
    decreases y.len(),
{
    if y.len() == 0 {
        assert(x + y =~= x);
    } else {
        assert((x + y).drop_last() =~= x + y.drop_last());
        lemma_find_last_append(x, y.drop_last(), name);
    }
}

/// Changing pipelines without renaming them leaves `find_last` alone.
proof fn lemma_find_last_same_names(x: Seq<RemotePipeline>, y: Seq<RemotePipeline>, name: Seq<char>)
    requires
        x.len() == y.len(),
        forall|k: int| 0 <= k < x.len() ==> (#[trigger] x[k]).name@ == y[k].name@,
    ensures
        find_last(x, name) == find_last(y, name),
    decreases x.len(),
{
    if x.len() > 0 {
        assert(x.last().name@ == y.last().name@);
        assert forall|k: int| 0 <= k < x.drop_last().len() implies (#[trigger] x.drop_last()[k]).name@
            == y.drop_last()[k].name@ by {
            assert(x.drop_last()[k] == x[k] && y.drop_last()[k] == y[k]);
        }
        lemma_find_last_same_names(x.drop_last(), y.drop_last(), name);
    }
}

/// Whether no two pipelines of the node share an id.
pub open spec fn ids_distinct(node: Seq<RemotePipeline>) -> bool {
    forall|i: int, j: int| 0 <= i < j < node.len() ==> (#[trigger] node[i]).id.0@ != (#[trigger] node[j]).id.0@
}

/// The pipelines of `node` that the project declares, in order.
pub open spec fn keep_declared(desired: Seq<DesiredPipeline>, node: Seq<RemotePipeline>) -> Seq<RemotePipeline>
    decreases node.len(),
{
    if node.len() == 0 {
        node
    } else if declared(desired, node.last().name@) {
        keep_declared(desired, node.drop_last()).push(node.last())
    } else {
        keep_declared(desired, node.drop_last())
    }
}

/// The kept pipelines are declared pipelines of the node.
proof fn lemma_keep_declared(desired: Seq<DesiredPipeline>, node: Seq<RemotePipeline>)
    ensures
        forall|i: int| 0 <= i < keep_declared(desired, node).len() ==> declared(desired, (#[trigger] keep_declared(desired, node)[i]).name@),
        forall|i: int| 0 <= i < keep_declared(desired, node).len() ==> exists|k: int| 0 <= k < node.len() && node[k] == #[trigger] keep_declared(desired, node)[i],
    decreases node.len(),
{
    if node.len() > 0 {
        let p = node.drop_last();
        lemma_keep_declared(desired, p);
        let kp = keep_declared(desired, p);
        let kn = keep_declared(desired, node);
        assert forall|i: int| 0 <= i < kn.len() implies exists|k: int| 0 <= k < node.len() && node[k] == #[trigger] kn[i] by {
            if i < kp.len() {
                assert(kn[i] == kp[i]);
                let k = choose|k: int| 0 <= k < p.len() && p[k] == kp[i];
                assert(node[k] == p[k]);
            } else {
                assert(node[node.len() - 1] == kn[i]);
            }
        }
        assert forall|i: int| 0 <= i < kn.len() implies declared(desired, (#[trigger] kn[i]).name@) by {
            if i < kp.len() {
                assert(kn[i] == kp[i]);
            }
        }
    }
}

/// Removing an id no pipeline has changes nothing.
proof fn lemma_without_absent(node: Seq<RemotePipeline>, id: Seq<char>)
    requires
        forall|k: int| 0 <= k < node.len() ==> (#[trigger] node[k]).id.0@ != id,
    ensures
        without_id(node, id) == node,
    decreases node.len(),
{
    if node.len() > 0 {
        assert forall|k: int| 0 <= k < node.drop_last().len() implies (#[trigger] node.drop_last()[k]).id.0@ != id by {
            assert(node.drop_last()[k] == node[k]);
        }
        lemma_without_absent(node.drop_last(), id);
        assert(node.drop_last().push(node.last()) =~= node);
    }
}

/// Deletes of other ids do not touch a pipeline added at the end.
proof fn lemma_run_deletes_push(x: Seq<RemotePipeline>, acts: Seq<Action>, fresh: Seq<PipelineId>, last: RemotePipeline)
    requires
        forall|i: int| 0 <= i < acts.len() ==> (#[trigger] acts[i] matches Action::Delete { remote, .. } && remote.0@ != last.id.0@),
    ensures
        run(x.push(last), acts, fresh) == run(x, acts, fresh).push(last),
    decreases acts.len(),
{
    if acts.len() > 0 {
        assert forall|i: int| 0 <= i < acts.drop_last().len() implies (#[trigger] acts.drop_last()[i] matches Action::Delete { remote, .. } && remote.0@ != last.id.0@) by {
            assert(acts.drop_last()[i] == acts[i]);
        }
        lemma_run_deletes_push(x, acts.drop_last(), fresh, last);
        let y = run(x, acts.drop_last(), fresh);
        assert(acts[acts.len() - 1] matches Action::Delete { remote, .. } && remote.0@ != last.id.0@);
        assert(y.push(last).drop_last() =~= y);
    }
}

/// Carrying out the deletes of a pruning plan keeps exactly the declared
/// pipelines.
proof fn lemma_run_deletes(desired: Seq<DesiredPipeline>, actual: Seq<RemotePipeline>, fresh: Seq<PipelineId>)
    requires
        ids_distinct(actual),
        gather(actual, |a: RemotePipeline| crate::reconcile::delete_for(desired, true, a)).len() <= fresh.len(),
    ensures
        run(actual, gather(actual, |a: RemotePipeline| crate::reconcile::delete_for(desired, true, a)), fresh)
            == keep_declared(desired, actual),
    decreases actual.len(),
{
    let fd = |a: RemotePipeline| crate::reconcile::delete_for(desired, true, a);
    if actual.len() > 0 {
        let p = actual.drop_last();
        let last = actual.last();
        assert(ids_distinct(p)) by {
            assert forall|i: int, j: int| 0 <= i < j < p.len() implies (#[trigger] p[i]).id.0@ != (#[trigger] p[j]).id.0@ by {
                assert(p[i] == actual[i] && p[j] == actual[j]);
            }
        }
        lemma_run_deletes(desired, p, fresh);
        let dp = gather(p, fd);
        let pred = |e: Action| e matches Action::Delete { remote, .. } && remote.0@ != last.id.0@;
        assert forall|i: int, k: int| 0 <= i < p.len() && 0 <= k < fd(p[i]).len() implies pred(#[trigger] fd(p[i])[k]) by {
            assert(p[i] == actual[i]);
        }
        crate::reconcile::lemma_gather_elements(p, fd, pred);
        assert(p.push(last) =~= actual);
        lemma_run_deletes_push(p, dp, fresh, last);
        let kp = keep_declared(desired, p);
        lemma_run_concat(actual, dp, fd(last), fresh);
        assert(gather(actual, fd) == dp + fd(last));
        assert(run(actual, dp, fresh) == kp.push(last));
        if declared(desired, last.name@) {
            assert(fd(last) =~= seq![]);
            assert(dp + fd(last) =~= dp);
        } else {
            lemma_keep_declared(desired, p);
            assert forall|k: int| 0 <= k < kp.len() implies (#[trigger] kp[k]).id.0@ != last.id.0@ by {
                let j = choose|j: int| 0 <= j < p.len() && p[j] == kp[k];
                assert(p[j] == actual[j]);
            }
            lemma_without_absent(kp, last.id.0@);
            let rest = fd(last);
            assert(rest.drop_last() =~= seq![]);
            assert(kp.push(last).drop_last() =~= kp);
            assert(run(kp.push(last), rest.drop_last(), fresh.skip(dp.len() as int)) == kp.push(last));
            assert(without_id(kp.push(last), last.id.0@) == without_id(kp, last.id.0@));
            assert(run(kp.push(last), rest, fresh.skip(dp.len() as int)) == kp);
        }
    }
}

/// Creates append the created pipelines, in order, after the node's own.
proof fn lemma_run_creates(node: Seq<RemotePipeline>, acts: Seq<Action>, fresh: Seq<PipelineId>)
    requires
        forall|i: int| 0 <= i < acts.len() ==> (#[trigger] acts[i]) is Create,
        acts.len() <= fresh.len(),
    ensures
        run(node, acts, fresh).len() == node.len() + acts.len(),
        forall|k: int| 0 <= k < node.len() ==> #[trigger] run(node, acts, fresh)[k] == node[k],
        forall|k: int| 0 <= k < acts.len() ==> #[trigger] run(node, acts, fresh)[node.len() + k] == created(acts[k]->Create_0, fresh[k]),
    decreases acts.len(),
{
    if acts.len() > 0 {
        let q = acts.drop_last();
        assert forall|i: int| 0 <= i < q.len() implies (#[trigger] q[i]) is Create by {
            assert(q[i] == acts[i]);
        }
        lemma_run_creates(node, q, fresh);
        let r = run(node, q, fresh);
        assert(acts.last() is Create);
        assert forall|k: int| 0 <= k < acts.len() implies #[trigger] run(node, acts, fresh)[node.len() + k] == created(acts[k]->Create_0, fresh[k]) by {
            if k < q.len() {
                assert(run(node, acts, fresh)[node.len() + k] == r[node.len() + k]);
                assert(q[k] == acts[k]);
            }
        }
    }
}

/// Each action owed to an element of `s` occurs in the gathered sequence.
pub(crate) proof fn lemma_gather_contains<T, U>(s: Seq<T>, f: spec_fn(T) -> Seq<U>, i: int, k: int)
    requires
        0 <= i < s.len(),
        0 <= k < f(s[i]).len(),
    ensures
        exists|m: int| 0 <= m < gather(s, f).len() && #[trigger] gather(s, f)[m] == f(s[i])[k],
    decreases s.len(),
{
    let g = gather(s.drop_last(), f);
    if i == s.len() - 1 {
        assert(gather(s, f)[g.len() + k] == f(s[i])[k]);
    } else {
        assert(s.drop_last()[i] == s[i]);
        lemma_gather_contains(s.drop_last(), f, i, k);
        let m = choose|m: int| 0 <= m < g.len() && #[trigger] g[m] == f(s[i])[k];
        assert(gather(s, f)[m] == g[m]);
    }
}

/// The definition a pipeline with id `id` has after the actions, starting
/// from `def`: that of the last set that names the id.
pub open spec fn definition_after(acts: Seq<Action>, id: Seq<char>, def: String) -> String
    decreases acts.len(),
{
    if acts.len() == 0 {
        def
    } else {
        match acts.last() {
            Action::SetDefinition { remote, to } => if remote.0@ == id {
                to.definition
            } else {
                definition_after(acts.drop_last(), id, def)
            },
            _ => definition_after(acts.drop_last(), id, def),
        }
    }
}

/// The run-state a pipeline with id `id` is in after the actions, starting
/// from `s`: the one the last transition that names the id leads to.
pub open spec fn state_after_all(acts: Seq<Action>, id: Seq<char>, s: LifecycleState) -> LifecycleState
    decreases acts.len(),
{
    if acts.len() == 0 {
        s
    } else {
        match acts.last() {
            Action::Transition { remote, action, .. } => if remote.0@ == id {
                state_after(action)
            } else {
                state_after_all(acts.drop_last(), id, s)
            },
            _ => state_after_all(acts.drop_last(), id, s),
        }
    }
}

/// Whether an action changes a pipeline in place (a set or a transition).
pub open spec fn in_place(a: Action) -> bool {
    a is SetDefinition || a is Transition
}

/// Sets and transitions keep every pipeline where it is, changing only the
/// definitions and run-states of the pipelines they name.
proof fn lemma_run_in_place(node: Seq<RemotePipeline>, acts: Seq<Action>, fresh: Seq<PipelineId>)
    requires
        forall|i: int| 0 <= i < acts.len() ==> in_place(#[trigger] acts[i]),
    ensures
        run(node, acts, fresh).len() == node.len(),
        forall|k: int| 0 <= k < node.len() ==> #[trigger] run(node, acts, fresh)[k] == (RemotePipeline {
            id: node[k].id,
            name: node[k].name,
            definition: definition_after(acts, node[k].id.0@, node[k].definition),
            state: state_after_all(acts, node[k].id.0@, node[k].state),
            error: node[k].error,
        }),
    decreases acts.len(),
{
    if acts.len() > 0 {
        let q = acts.drop_last();
        assert forall|i: int| 0 <= i < q.len() implies in_place(#[trigger] q[i]) by {
            assert(q[i] == acts[i]);
        }
        lemma_run_in_place(node, q, fresh);
        assert(in_place(acts[acts.len() - 1]));
        let r = run(node, q, fresh);
        assert forall|k: int| 0 <= k < node.len() implies #[trigger] run(node, acts, fresh)[k] == (RemotePipeline {
            id: node[k].id,
            name: node[k].name,
            definition: definition_after(acts, node[k].id.0@, node[k].definition),
            state: state_after_all(acts, node[k].id.0@, node[k].state),
            error: node[k].error,
        }) by {
            assert(r[k].id == node[k].id);
        }
    }
}

/// Actions after the first part see the result of the first part.
proof fn lemma_after_concat(a: Seq<Action>, b: Seq<Action>, id: Seq<char>, def: String, s: LifecycleState)
    ensures
        definition_after(a + b, id, def) == definition_after(b, id, definition_after(a, id, def)),
        state_after_all(a + b, id, s) == state_after_all(b, id, state_after_all(a, id, s)),
    decreases b.len(),
{
    if b.len() == 0 {
        assert(a + b =~= a);
    } else {
        assert((a + b).drop_last() =~= a + b.drop_last());
        lemma_after_concat(a, b.drop_last(), id, def, s);
    }
}

/// Actions that name other ids leave a pipeline as it was.
proof fn lemma_after_untouched(acts: Seq<Action>, id: Seq<char>, def: String, s: LifecycleState)
    requires
        forall|i: int| 0 <= i < acts.len() ==> !targets(#[trigger] acts[i], id),
    ensures
        definition_after(acts, id, def) == def,
        state_after_all(acts, id, s) == s,
    decreases acts.len(),
{
    if acts.len() > 0 {
        assert forall|i: int| 0 <= i < acts.drop_last().len() implies !targets(#[trigger] acts.drop_last()[i], id) by {
            assert(acts.drop_last()[i] == acts[i]);
        }
        assert(!targets(acts[acts.len() - 1], id));
        lemma_after_untouched(acts.drop_last(), id, def, s);
    }
}

/// Whether action `a` names the pipeline with id `id`.
pub open spec fn targets(a: Action, id: Seq<char>) -> bool {
    match a {
        Action::Create(_) => false,
        Action::SetDefinition { remote, .. } => remote.0@ == id,
        Action::Delete { remote, .. } => remote.0@ == id,
        Action::Transition { remote, .. } => remote.0@ == id,
    }
}

/// The sets of a plan.
pub open spec fn sets_of(desired: Seq<DesiredPipeline>, actual: Seq<RemotePipeline>) -> Seq<Action> {
    gather(desired, |d: DesiredPipeline| crate::reconcile::set_for(actual, d))
}

/// The transitions of a plan.
pub open spec fn transitions_of(desired: Seq<DesiredPipeline>, actual: Seq<RemotePipeline>) -> Seq<Action> {
    gather(desired, |d: DesiredPipeline| crate::reconcile::transition_for_desired(actual, d))
}

/// Whether no two desired pipelines share a name.
pub open spec fn names_distinct(desired: Seq<DesiredPipeline>) -> bool {
    forall|i: int, j: int| 0 <= i < j < desired.len() ==> (#[trigger] desired[i]).name@ != (#[trigger] desired[j]).name@
}

proof fn lemma_gather_concat<T, U>(a: Seq<T>, b: Seq<T>, f: spec_fn(T) -> Seq<U>)
    ensures
        gather(a + b, f) == gather(a, f) + gather(b, f),
    decreases b.len(),
{
    if b.len() == 0 {
        assert(a + b =~= a);
        assert(gather(a, f) + gather(b, f) =~= gather(a, f));
    } else {
        assert((a + b).drop_last() =~= a + b.drop_last());
        lemma_gather_concat(a, b.drop_last(), f);
        assert(gather(a, f) + gather(b.drop_last(), f) + f(b.last()) =~= gather(a, f) + (gather(b.drop_last(), f) + f(b.last())));
    }
}

proof fn lemma_gather_one<T, U>(x: T, f: spec_fn(T) -> Seq<U>)
    ensures
        gather(seq![x], f) == f(x),
{
    assert(seq![x].drop_last() =~= Seq::<T>::empty());
    assert(gather(Seq::<T>::empty(), f) + f(x) =~= f(x));
}

/// Sets and transitions owed to desired pipelines of other names do not
/// name the pipeline `actual[j]`.
proof fn lemma_others_untouched(part: Seq<DesiredPipeline>, actual: Seq<RemotePipeline>, j: int)
    requires
        ids_distinct(actual),
        0 <= j < actual.len(),
        forall|i: int| 0 <= i < part.len() ==> (#[trigger] part[i]).name@ != actual[j].name@,
    ensures
        forall|k: int| 0 <= k < sets_of(part, actual).len() ==> !targets(#[trigger] sets_of(part, actual)[k], actual[j].id.0@),
        forall|k: int| 0 <= k < transitions_of(part, actual).len() ==> !targets(#[trigger] transitions_of(part, actual)[k], actual[j].id.0@),
{
    let fs = |d: DesiredPipeline| crate::reconcile::set_for(actual, d);
    let ft = |d: DesiredPipeline| crate::reconcile::transition_for_desired(actual, d);
    let idj = actual[j].id.0@;
    let p = |e: Action| !targets(e, idj);
    assert forall|i: int, k: int| 0 <= i < part.len() && 0 <= k < fs(part[i]).len() implies p(#[trigger] fs(part[i])[k]) by {
        lemma_find_last(actual, part[i].name@);
    }
    assert forall|i: int, k: int| 0 <= i < part.len() && 0 <= k < ft(part[i]).len() implies p(#[trigger] ft(part[i])[k]) by {
        lemma_find_last(actual, part[i].name@);
    }
    crate::reconcile::lemma_gather_elements(part, fs, p);
    crate::reconcile::lemma_gather_elements(part, ft, p);
}

/// What the sets and transitions of a plan do to the counterpart
/// `actual[j]` of the desired pipeline `desired[i]`.
proof fn lemma_counterpart_changes(
    desired: Seq<DesiredPipeline>,
    actual: Seq<RemotePipeline>,
    i: int,
    j: int,
    def: String,
    s: LifecycleState,
)
    requires
        names_distinct(desired),
        ids_distinct(actual),
        0 <= i < desired.len(),
        find_last(actual, desired[i].name@) == Some(j),
    ensures
        definition_after(sets_of(desired, actual), actual[j].id.0@, def) == (if spec_drifted(desired[i], actual[j]) {
            desired[i].definition
        } else {
            def
        }),
        state_after_all(sets_of(desired, actual), actual[j].id.0@, s) == s,
        definition_after(transitions_of(desired, actual), actual[j].id.0@, def) == def,
        state_after_all(transitions_of(desired, actual), actual[j].id.0@, s) == (if spec_is_terminal(actual[j].state) {
            s
        } else {
            match spec_transition_for(actual[j].state, desired[i].state) {
                Some(act) => state_after(act),
                None => s,
            }
        }),
{
    lemma_find_last(actual, desired[i].name@);
    let fs = |d: DesiredPipeline| crate::reconcile::set_for(actual, d);
    let ft = |d: DesiredPipeline| crate::reconcile::transition_for_desired(actual, d);
    let idj = actual[j].id.0@;
    let pre = desired.take(i);
    let post = desired.skip(i + 1);
    assert(desired =~= pre + seq![desired[i]] + post);
    assert forall|k: int| 0 <= k < pre.len() implies (#[trigger] pre[k]).name@ != actual[j].name@ by {
        assert(pre[k] == desired[k]);
    }
    assert forall|k: int| 0 <= k < post.len() implies (#[trigger] post[k]).name@ != actual[j].name@ by {
        assert(post[k] == desired[i + 1 + k]);
    }
    lemma_others_untouched(pre, actual, j);
    lemma_others_untouched(post, actual, j);
    lemma_gather_concat(pre + seq![desired[i]], post, fs);
    lemma_gather_concat(pre, seq![desired[i]], fs);
    lemma_gather_concat(pre + seq![desired[i]], post, ft);
    lemma_gather_concat(pre, seq![desired[i]], ft);
    lemma_gather_one(desired[i], fs);
    lemma_gather_one(desired[i], ft);
    let own_s = fs(desired[i]);
    let own_t = ft(desired[i]);
    lemma_after_untouched(sets_of(pre, actual), idj, def, s);
    lemma_after_untouched(sets_of(post, actual), idj, definition_after(own_s, idj, def), state_after_all(own_s, idj, s));
    lemma_after_untouched(transitions_of(pre, actual), idj, def, s);
    lemma_after_untouched(transitions_of(post, actual), idj, definition_after(own_t, idj, def), state_after_all(own_t, idj, s));
    lemma_after_concat(sets_of(pre, actual) + own_s, sets_of(post, actual), idj, def, s);
    lemma_after_concat(sets_of(pre, actual), own_s, idj, def, s);
    lemma_after_concat(transitions_of(pre, actual) + own_t, transitions_of(post, actual), idj, def, s);
    lemma_after_concat(transitions_of(pre, actual), own_t, idj, def, s);
    if own_s.len() > 0 {
        assert(own_s.drop_last() =~= Seq::<Action>::empty());
        assert(state_after_all(own_s.drop_last(), idj, s) == s);
    }
    assert(state_after_all(own_s, idj, s) == s);
    if own_t.len() > 0 {
        assert(own_t.drop_last() =~= Seq::<Action>::empty());
        assert(definition_after(own_t.drop_last(), idj, def) == def);
    }
    assert(definition_after(own_t, idj, def) == def);
}

/// The last pipeline named after a declared pipeline keeps its place among
/// the kept ones.
proof fn lemma_find_last_kept(desired: Seq<DesiredPipeline>, node: Seq<RemotePipeline>, name: Seq<char>)
    requires
        declared(desired, name),
    ensures
        match find_last(node, name) {
            Some(j) => find_last(keep_declared(desired, node), name) matches Some(k) && 0 <= k < keep_declared(
                desired,
                node,
            ).len() && keep_declared(desired, node)[k] == node[j],
            None => find_last(keep_declared(desired, node), name) is None,
        },
    decreases node.len(),
{
    if node.len() > 0 {
        let p = node.drop_last();
        lemma_find_last_kept(desired, p, name);
        lemma_find_last(p, name);
        let kp = keep_declared(desired, p);
        if declared(desired, node.last().name@) {
            assert(kp.push(node.last()).drop_last() =~= kp);
            if node.last().name@ != name {
                if let Some(j) = find_last(p, name) {
                    assert(p[j] == node[j]);
                }
            }
        } else {
            if let Some(j) = find_last(p, name) {
                assert(p[j] == node[j]);
            }
        }
    }
}

/// The transition owed toward a desired run-state leads into it, and none is
/// owed exactly when the pipeline is in it already; a created pipeline
/// driven to a running or paused state ends up in it.
pub proof fn law_transition_reaches_target(from: LifecycleState, to: DesiredState)
    ensures
        match spec_transition_for(from, to) {
            Some(act) => satisfies(state_after(act), to),
            None => satisfies(from, to),
        },
        spec_transition_for(from, to) is None <==> satisfies(from, to),
        to != DesiredState::Stopped ==> satisfies(state_reached(to), to),
{
}

/// Sets and transitions only name pipelines the node had.
proof fn lemma_fresh_untouched(desired: Seq<DesiredPipeline>, actual: Seq<RemotePipeline>, id: Seq<char>)
    requires
        forall|k: int| 0 <= k < actual.len() ==> (#[trigger] actual[k]).id.0@ != id,
    ensures
        forall|k: int| 0 <= k < sets_of(desired, actual).len() ==> !targets(#[trigger] sets_of(desired, actual)[k], id),
        forall|k: int| 0 <= k < transitions_of(desired, actual).len() ==> !targets(#[trigger] transitions_of(desired, actual)[k], id),
{
    let fs = |d: DesiredPipeline| crate::reconcile::set_for(actual, d);
    let ft = |d: DesiredPipeline| crate::reconcile::transition_for_desired(actual, d);
    let p = |e: Action| !targets(e, id);
    assert forall|i: int, k: int| 0 <= i < desired.len() && 0 <= k < fs(desired[i]).len() implies p(#[trigger] fs(desired[i])[k]) by {
        lemma_find_last(actual, desired[i].name@);
    }
    assert forall|i: int, k: int| 0 <= i < desired.len() && 0 <= k < ft(desired[i]).len() implies p(#[trigger] ft(desired[i])[k]) by {
        lemma_find_last(actual, desired[i].name@);
    }
    crate::reconcile::lemma_gather_elements(desired, fs, p);
    crate::reconcile::lemma_gather_elements(desired, ft, p);
}

/// Whether every desired pipeline has a counterpart on the node with its
/// (trimmed) definition that is terminal or in the desired run-state.
pub open spec fn desired_met(desired: Seq<DesiredPipeline>, node: Seq<RemotePipeline>) -> bool {
    forall|i: int|
        0 <= i < desired.len() ==> match find_last(node, (#[trigger] desired[i]).name@) {
            Some(j) => !spec_drifted(desired[i], node[j]) && (spec_is_terminal(node[j].state)
                || satisfies(node[j].state, desired[i].state)),
            None => false,
        }
}

/// A node on which every desired pipeline is met, and which holds only
/// declared pipelines when pruning, is planned nothing.
proof fn lemma_met_plans_nothing(desired: Seq<DesiredPipeline>, node: Seq<RemotePipeline>, prune: bool)
    requires
        desired_met(desired, node),
        prune ==> forall|k: int| 0 <= k < node.len() ==> declared(desired, (#[trigger] node[k]).name@),
    ensures
        plan_actions(desired, node, prune).len() == 0,
{
    let fc = |d: DesiredPipeline| crate::reconcile::create_for(node, d);
    let fs = |d: DesiredPipeline| crate::reconcile::set_for(node, d);
    let ft = |d: DesiredPipeline| crate::reconcile::transition_for_desired(node, d);
    let fd = |a: RemotePipeline| crate::reconcile::delete_for(desired, prune, a);
    crate::reconcile::lemma_gather_len_zero(desired, fc);
    crate::reconcile::lemma_gather_len_zero(desired, fs);
    crate::reconcile::lemma_gather_len_zero(desired, ft);
    crate::reconcile::lemma_gather_len_zero(node, fd);
    assert forall|i: int| 0 <= i < desired.len() implies (#[trigger] fc(desired[i])).len() == 0 && fs(desired[i]).len() == 0
        && ft(desired[i]).len() == 0 by {
        let d = desired[i];
        if let Some(j) = find_last(node, d.name@) {
            if !spec_is_terminal(node[j].state) {
                law_transition_reaches_target(node[j].state, d.state);
            }
        }
    }
    assert forall|i: int| 0 <= i < desired.len() implies (#[trigger] fs(desired[i])).len() == 0 by {
        assert(fc(desired[i]).len() == 0);
    }
    assert forall|i: int| 0 <= i < desired.len() implies (#[trigger] ft(desired[i])).len() == 0 by {
        assert(fc(desired[i]).len() == 0);
    }
    assert forall|k: int| 0 <= k < node.len() implies (#[trigger] fd(node[k])).len() == 0 by {}
}

/// Carrying out a plan in full brings the node in sync with the project.
///
/// When every action of the plan for `desired` against `actual` takes effect
/// (`fresh` holds the ids the node assigns, none of them an id the node
/// already had), planning again against the node that results has nothing
/// left to do; when the plan pruned, the node is then in sync with the
/// project. Desired pipelines have distinct names (a project guarantees it)
/// and the node's pipelines distinct ids. A created pipeline that is to stay
/// stopped is left `Created`, which a later plan stops; the law is stated
/// for plans that create no such pipeline.
#[verifier::rlimit(80)]
pub proof fn law_applied_plan_converges(
    desired: Seq<DesiredPipeline>,
    actual: Seq<RemotePipeline>,
    prune: bool,
    fresh: Seq<PipelineId>,
)
    requires
        names_distinct(desired),
        ids_distinct(actual),
        fresh.len() == plan_actions(desired, actual, prune).len(),
        forall|i: int, k: int| 0 <= i < fresh.len() && 0 <= k < actual.len() ==> (#[trigger] fresh[i]).0@ != (#[trigger] actual[k]).id.0@,
        forall|i: int| 0 <= i < desired.len() && find_last(actual, (#[trigger] desired[i]).name@) is None ==> desired[i].state != DesiredState::Stopped,
    ensures
        plan_actions(desired, run(actual, plan_actions(desired, actual, prune), fresh), prune).len() == 0,
        prune ==> in_sync(desired, run(actual, plan_actions(desired, actual, prune), fresh)),
{
    let fd = |a: RemotePipeline| crate::reconcile::delete_for(desired, prune, a);
    let fc = |d: DesiredPipeline| crate::reconcile::create_for(actual, d);
    let dl = gather(actual, fd);
    let cl = gather(desired, fc);
    let sl = sets_of(desired, actual);
    let tl = transitions_of(desired, actual);
    let plan = plan_actions(desired, actual, prune);
    assert(plan =~= (dl + cl) + (sl + tl));
    lemma_run_concat(actual, dl + cl, sl + tl, fresh);
    lemma_run_concat(actual, dl, cl, fresh);
    let a1 = run(actual, dl, fresh);
    let f1 = fresh.skip(dl.len() as int);
    let a2 = run(a1, cl, f1);
    let f2 = fresh.skip((dl + cl).len() as int);
    let fin = run(a2, sl + tl, f2);
    assert(run(actual, plan, fresh) == fin);

    // the deletes keep the declared pipelines, or all of them
    if prune {
        assert(fd =~= (|a: RemotePipeline| crate::reconcile::delete_for(desired, true, a)));
        lemma_run_deletes(desired, actual, fresh);
        lemma_keep_declared(desired, actual);
    } else {
        crate::reconcile::lemma_gather_len_zero(actual, fd);
        assert forall|k: int| 0 <= k < actual.len() implies (#[trigger] fd(actual[k])).len() == 0 by {}
        assert(dl =~= Seq::<Action>::empty());
    }
    assert(a1 == if prune { keep_declared(desired, actual) } else { actual });

    // the creates append pipelines for the desired ones the node lacks
    let pc = |e: Action| e is Create && find_last(actual, e->Create_0.name@) is None && exists|i: int|
        0 <= i < desired.len() && e->Create_0 == #[trigger] desired[i];
    assert forall|i: int, k: int| 0 <= i < desired.len() && 0 <= k < fc(desired[i]).len() implies pc(#[trigger] fc(desired[i])[k]) by {
        assert(fc(desired[i])[k]->Create_0 == desired[i]);
    }
    crate::reconcile::lemma_gather_elements(desired, fc, pc);
    lemma_run_creates(a1, cl, f1);
    let nn = a2.subrange(a1.len() as int, a2.len() as int);
    assert(a2 =~= a1 + nn);

    // the sets and transitions change pipelines in place
    let fs = |d: DesiredPipeline| crate::reconcile::set_for(actual, d);
    let ft = |d: DesiredPipeline| crate::reconcile::transition_for_desired(actual, d);
    crate::reconcile::lemma_gather_elements(desired, fs, |e: Action| in_place(e));
    crate::reconcile::lemma_gather_elements(desired, ft, |e: Action| in_place(e));
    assert forall|k: int| 0 <= k < (sl + tl).len() implies in_place(#[trigger] (sl + tl)[k]) by {
        if k < sl.len() {
            assert((sl + tl)[k] == sl[k]);
        } else {
            assert((sl + tl)[k] == tl[k - sl.len()]);
        }
    }
    lemma_run_in_place(a2, sl + tl, f2);
    assert forall|k: int| 0 <= k < fin.len() implies (#[trigger] fin[k]).name@ == a2[k].name@ by {}

    assert forall|i: int| 0 <= i < desired.len() implies match find_last(fin, (#[trigger] desired[i]).name@) {
        Some(j) => !spec_drifted(desired[i], fin[j]) && (spec_is_terminal(fin[j].state) || satisfies(
            fin[j].state,
            desired[i].state,
        )),
        None => false,
    } by {
        let d = desired[i];
        let n = d.name@;
        lemma_find_last(actual, n);
        lemma_find_last(nn, n);
        lemma_find_last_append(a1, nn, n);
        lemma_find_last_same_names(fin, a2, n);
        law_transition_reaches_target(LifecycleState::Running, d.state);
        match find_last(actual, n) {
            Some(j) => {
                let q = actual[j];
                if let Some(m) = find_last(nn, n) {
                    assert(nn[m] == a2[a1.len() + m]);
                    assert(pc(cl[m]));
                }
                let j1 = if prune {
                    lemma_find_last_kept(desired, actual, n);
                    find_last(a1, n)->0
                } else {
                    j
                };
                assert(find_last(fin, n) == Some(j1));
                assert(a2[j1] == q);
                lemma_after_concat(sl, tl, q.id.0@, q.definition, q.state);
                lemma_counterpart_changes(desired, actual, i, j, q.definition, q.state);
                lemma_counterpart_changes(
                    desired,
                    actual,
                    i,
                    j,
                    definition_after(sl, q.id.0@, q.definition),
                    q.state,
                );
                law_transition_reaches_target(q.state, d.state);
            },
            None => {
                assert(fc(d).len() == 1);
                lemma_gather_contains(desired, fc, i, 0);
                let m0 = choose|m: int| 0 <= m < cl.len() && #[trigger] cl[m] == fc(desired[i])[0];
                assert(nn[m0] == a2[a1.len() + m0]);
                let m = find_last(nn, n)->0;
                assert(nn[m] == a2[a1.len() + m]);
                assert(pc(cl[m]));
                let i2 = choose|i2: int| 0 <= i2 < desired.len() && cl[m]->Create_0 == #[trigger] desired[i2];
                assert(i2 == i);
                let fid = f1[m].0@;
                assert(f1[m] == fresh[dl.len() + m]);
                lemma_fresh_untouched(desired, actual, fid);
                assert forall|k: int| 0 <= k < (sl + tl).len() implies !targets(#[trigger] (sl + tl)[k], fid) by {
                    if k < sl.len() {
                        assert((sl + tl)[k] == sl[k]);
                    } else {
                        assert((sl + tl)[k] == tl[k - sl.len()]);
                    }
                }
                lemma_after_untouched(sl + tl, fid, d.definition, state_reached(d.state));
            },
        }
    }
    assert(desired_met(desired, fin));
    if prune {
        assert forall|k: int| 0 <= k < fin.len() implies declared(desired, (#[trigger] fin[k]).name@) by {
            if k < a1.len() {
                assert(a2[k] == a1[k]);
            } else {
                let m = k - a1.len();
                assert(a2[a1.len() + m] == created(cl[m]->Create_0, f1[m]));
                assert(pc(cl[m]));
                let i2 = choose|i2: int| 0 <= i2 < desired.len() && cl[k - a1.len()]->Create_0 == #[trigger] desired[i2];
                assert(desired[i2].name@ == fin[k].name@);
            }
        }
    }
    lemma_met_plans_nothing(desired, fin, prune);
}

} // verus!
