//! Pure desired-vs-actual diff engine.
//!
//! [`reconcile`] takes the desired pipelines (from the project) and the actual
//! pipelines (from the node) and returns a [`Plan`]. It performs no I/O.
//!
//! Identity is by pipeline name. Drift is a difference in the
//! whitespace-trimmed definitions; `state` is handled via transitions.

use vstd::prelude::*;
use crate::model::{
    copy_desired, copy_lifecycle, copy_pipeline_id, satisfies, spec_transition_for,
    transition_for, DesiredPipeline, DesiredState, LifecycleState, PipelineId, RemotePipeline,
    TransitionAction,
};
use crate::text::{chars_eq, chars_of, trim, trim_chars};

verus! {

/// Options controlling reconciliation.
#[derive(Debug, Clone, Copy, PartialEq, Eq, Structural)]
pub struct ReconcileOpts {
    /// When set, actual-only ("orphan") pipelines are scheduled for deletion.
    pub prune: bool,
}

impl Default for ReconcileOpts {
    fn default() -> (r: Self)
        ensures
            r.prune == false,
    {
        ReconcileOpts { prune: false }
    }
}

/// A single executable action in a [`Plan`].
#[derive(Debug, Clone, PartialEq, Eq)]
pub enum Action {
    /// Create a new pipeline (the client drives it to its desired state).
    Create(DesiredPipeline),
    /// Update a pipeline's definition in place.
    SetDefinition {
        /// The node-assigned id of the pipeline to update.
        remote: PipelineId,
        /// The desired pipeline to apply.
        to: DesiredPipeline,
    },
    /// Delete a pipeline (only emitted with `--prune`).
    Delete {
        /// The id of the pipeline to delete.
        remote: PipelineId,
        /// The pipeline name (for display).
        name: String,
    },
    /// Change a pipeline's run-state.
    Transition {
        /// The id of the pipeline to transition.
        remote: PipelineId,
        /// The pipeline name (for display).
        name: String,
        /// The observed state.
        from: LifecycleState,
        /// The desired state.
        to: DesiredState,
        /// The action sent to the node.
        action: TransitionAction,
    },
}

/// The kind label of an action.
pub open spec fn action_kind(a: Action) -> Seq<char> {
    match a {
        Action::Create(_) => "create"@,
        Action::SetDefinition { .. } => "set"@,
        Action::Delete { .. } => "delete"@,
        Action::Transition { .. } => "transition"@,
    }
}

/// The pipeline name an action targets.
pub open spec fn action_name(a: Action) -> Seq<char> {
    match a {
        Action::Create(p) => p.name@,
        Action::SetDefinition { to, .. } => to.name@,
        Action::Delete { name, .. } => name@,
        Action::Transition { name, .. } => name@,
    }
}

/// The execution rank of an action: deletes, creates, sets, transitions.
pub open spec fn action_rank(a: Action) -> int {
    match a {
        Action::Delete { .. } => 0,
        Action::Create(_) => 1,
        Action::SetDefinition { .. } => 2,
        Action::Transition { .. } => 3,
    }
}

impl Action {
    /// The action kind as a stable lowercase label.
    pub fn kind(&self) -> (r: &'static str)
        ensures
            r@ == action_kind(*self),
    {
        match self {
            Action::Create(_) => "create",
            Action::SetDefinition { .. } => "set",
            Action::Delete { .. } => "delete",
            Action::Transition { .. } => "transition",
        }
    }

    /// The pipeline name this action targets.
    pub fn name(&self) -> (r: &str)
        ensures
            r@ == action_name(*self),
    {
        match self {
            Action::Create(p) => p.name.as_str(),
            Action::SetDefinition { to, .. } => to.name.as_str(),
            Action::Delete { name, .. } => name.as_str(),
            Action::Transition { name, .. } => name.as_str(),
        }
    }
}

/// An actual-only pipeline that has no desired counterpart.
#[derive(Debug, Clone, PartialEq, Eq)]
pub struct Orphan {
    /// The node-assigned id.
    pub remote: PipelineId,
    /// The pipeline name.
    pub name: String,
}

/// A pipeline in a terminal state, reported but never force-transitioned.
#[derive(Debug, Clone, PartialEq, Eq)]
pub struct Terminal {
    /// The pipeline name.
    pub name: String,
    /// The observed terminal state.
    pub state: LifecycleState,
    /// The desired state (for context).
    pub desired: DesiredState,
}

/// The computed reconciliation plan.
#[derive(Debug, Clone, PartialEq, Eq)]
pub struct Plan {
    /// Ordered, executable actions.
    pub actions: Vec<Action>,
    /// Actual-only pipelines (deleted iff `--prune`).
    pub orphans: Vec<Orphan>,
    /// Pipelines in terminal states, reported only.
    pub terminal: Vec<Terminal>,
    /// Whether pruning was requested.
    pub prune: bool,
}

/// Per-kind action counts.
#[derive(Debug, Clone, Copy, PartialEq, Eq, Structural)]
pub struct PlanCounts {
    /// Pipelines to create.
    pub create: usize,
    /// Pipelines to update in place.
    pub set: usize,
    /// Pipelines to delete.
    pub delete: usize,
    /// Run-state transitions.
    pub transition: usize,
    /// Actual-only orphans.
    pub orphans: usize,
}

impl Default for PlanCounts {
    fn default() -> (r: Self)
        ensures
            r == (PlanCounts { create: 0, set: 0, delete: 0, transition: 0, orphans: 0 }),
    {
        PlanCounts { create: 0, set: 0, delete: 0, transition: 0, orphans: 0 }
    }
}

/// The number of actions in `s` whose rank is `rank`.
pub open spec fn count_rank(s: Seq<Action>, rank: int) -> nat
    decreases s.len(),
{
    if s.len() == 0 {
        0
    } else {
        count_rank(s.drop_last(), rank) + if action_rank(s.last()) == rank {
            1nat
        } else {
            0nat
        }
    }
}

/// Whether a plan implies changes: any action, or any orphan.
pub open spec fn spec_has_changes(actions: Seq<Action>, orphans: Seq<Orphan>) -> bool {
    actions.len() > 0 || orphans.len() > 0
}

proof fn lemma_count_rank_bound(s: Seq<Action>, rank: int)
    ensures
        count_rank(s, rank) <= s.len(),
    decreases s.len(),
{
    if s.len() > 0 {
        lemma_count_rank_bound(s.drop_last(), rank);
    }
}

impl Plan {
    /// Whether the plan implies changes (drives the `plan` exit code).
    ///
    /// Orphans count as pending changes even without `--prune`, since they
    /// represent state the project does not declare.
    pub fn has_changes(&self) -> (r: bool)
        ensures
            r == spec_has_changes(self.actions@, self.orphans@),
    {
        !self.actions.is_empty() || !self.orphans.is_empty()
    }

    /// Count of each action kind, plus orphans, for the summary line.
    pub fn counts(&self) -> (c: PlanCounts)
        ensures
            c.create == count_rank(self.actions@, 1),
            c.set == count_rank(self.actions@, 2),
            c.delete == count_rank(self.actions@, 0),
            c.transition == count_rank(self.actions@, 3),
            c.orphans == self.orphans.len(),
    {
        let mut c = PlanCounts { create: 0, set: 0, delete: 0, transition: 0, orphans: self.orphans.len() };
        let mut i: usize = 0;
        while i < self.actions.len()
            invariant
                i <= self.actions.len(),
                c.orphans == self.orphans.len(),
                c.create == count_rank(self.actions@.take(i as int), 1),
                c.set == count_rank(self.actions@.take(i as int), 2),
                c.delete == count_rank(self.actions@.take(i as int), 0),
                c.transition == count_rank(self.actions@.take(i as int), 3),
            decreases self.actions.len() - i,
        {
            proof {
                let t = self.actions@.take(i + 1);
                assert(t.drop_last() =~= self.actions@.take(i as int));
                assert(t.last() == self.actions@[i as int]);
                lemma_count_rank_bound(self.actions@.take(i as int), 0);
                lemma_count_rank_bound(self.actions@.take(i as int), 1);
                lemma_count_rank_bound(self.actions@.take(i as int), 2);
                lemma_count_rank_bound(self.actions@.take(i as int), 3);
            }
            match &self.actions[i] {
                Action::Create(_) => c.create = c.create + 1,
                Action::SetDefinition { .. } => c.set = c.set + 1,
                Action::Delete { .. } => c.delete = c.delete + 1,
                Action::Transition { .. } => c.transition = c.transition + 1,
            }
            i = i + 1;
        }
        proof {
            assert(self.actions@.take(self.actions.len() as int) =~= self.actions@);
        }
        c
    }
}

// --- the specification of reconcile -----------------------------------------

/// The concatenation of `f(x)` over `s`, in order.
pub open spec fn gather<T, U>(s: Seq<T>, f: spec_fn(T) -> Seq<U>) -> Seq<U>
    decreases s.len(),
{
    if s.len() == 0 {
        seq![]
    } else {
        gather(s.drop_last(), f) + f(s.last())
    }
}

/// The position of the last actual pipeline named `name`, if any.
///
/// Several actual pipelines may share a name; the last one is the one the
/// diff is taken against.
pub open spec fn find_last(actual: Seq<RemotePipeline>, name: Seq<char>) -> Option<int>
    decreases actual.len(),
{
    if actual.len() == 0 {
        None
    } else if actual.last().name@ == name {
        Some(actual.len() - 1)
    } else {
        find_last(actual.drop_last(), name)
    }
}

/// Whether some desired pipeline is named `name`.
pub open spec fn declared(desired: Seq<DesiredPipeline>, name: Seq<char>) -> bool {
    exists|i: int| 0 <= i < desired.len() && (#[trigger] desired[i]).name@ == name
}

/// Whether a state is terminal (and should not be force-transitioned).
pub open spec fn spec_is_terminal(s: LifecycleState) -> bool {
    s is Completed || s is Failed
}

/// Whether a desired pipeline has drifted from its actual counterpart.
pub open spec fn spec_drifted(d: DesiredPipeline, a: RemotePipeline) -> bool {
    trim(d.definition@) != trim(a.definition@)
}

/// The create action owed to `d`: one when no actual pipeline has its name.
pub open spec fn create_for(actual: Seq<RemotePipeline>, d: DesiredPipeline) -> Seq<Action> {
    if find_last(actual, d.name@) is None {
        seq![Action::Create(d)]
    } else {
        seq![]
    }
}

/// The set action owed to `d`: one when its counterpart's definition drifted.
pub open spec fn set_for(actual: Seq<RemotePipeline>, d: DesiredPipeline) -> Seq<Action> {
    match find_last(actual, d.name@) {
        Some(j) => if spec_drifted(d, actual[j]) {
            seq![Action::SetDefinition { remote: actual[j].id, to: d }]
        } else {
            seq![]
        },
        None => seq![],
    }
}

/// The transition owed to `d`: one when its counterpart is neither terminal
/// nor already in the desired run-state.
pub open spec fn transition_for_desired(actual: Seq<RemotePipeline>, d: DesiredPipeline) -> Seq<
    Action,
> {
    match find_last(actual, d.name@) {
        Some(j) => {
            let a = actual[j];
            if spec_is_terminal(a.state) {
                seq![]
            } else {
                match spec_transition_for(a.state, d.state) {
                    Some(act) => seq![
                        Action::Transition {
                            remote: a.id,
                            name: d.name,
                            from: a.state,
                            to: d.state,
                            action: act,
                        },
                    ],
                    None => seq![],
                }
            }
        },
        None => seq![],
    }
}

/// The terminal report owed to `d`: one when its counterpart is terminal.
pub open spec fn terminal_for(actual: Seq<RemotePipeline>, d: DesiredPipeline) -> Seq<Terminal> {
    match find_last(actual, d.name@) {
        Some(j) => if spec_is_terminal(actual[j].state) {
            seq![Terminal { name: d.name, state: actual[j].state, desired: d.state }]
        } else {
            seq![]
        },
        None => seq![],
    }
}

/// The orphan report owed to an actual pipeline no desired one names.
pub open spec fn orphan_for(desired: Seq<DesiredPipeline>, a: RemotePipeline) -> Seq<Orphan> {
    if declared(desired, a.name@) {
        seq![]
    } else {
        seq![Orphan { remote: a.id, name: a.name }]
    }
}

/// The delete owed to an orphan when pruning.
pub open spec fn delete_for(desired: Seq<DesiredPipeline>, prune: bool, a: RemotePipeline) -> Seq<
    Action,
> {
    if prune && !declared(desired, a.name@) {
        seq![Action::Delete { remote: a.id, name: a.name }]
    } else {
        seq![]
    }
}

/// The ordered actions of the plan: deletes, creates, sets, transitions.
pub open spec fn plan_actions(
    desired: Seq<DesiredPipeline>,
    actual: Seq<RemotePipeline>,
    prune: bool,
) -> Seq<Action> {
    gather(actual, |a: RemotePipeline| delete_for(desired, prune, a)) + gather(
        desired,
        |d: DesiredPipeline| create_for(actual, d),
    ) + gather(desired, |d: DesiredPipeline| set_for(actual, d)) + gather(
        desired,
        |d: DesiredPipeline| transition_for_desired(actual, d),
    )
}

/// The orphans of the plan, in actual order.
pub open spec fn plan_orphans(desired: Seq<DesiredPipeline>, actual: Seq<RemotePipeline>) -> Seq<
    Orphan,
> {
    gather(actual, |a: RemotePipeline| orphan_for(desired, a))
}

/// The terminal reports of the plan, in desired order.
pub open spec fn plan_terminal(desired: Seq<DesiredPipeline>, actual: Seq<RemotePipeline>) -> Seq<
    Terminal,
> {
    gather(desired, |d: DesiredPipeline| terminal_for(actual, d))
}

/// What `find_last` answers: the last position whose name matches.
pub proof fn lemma_find_last(actual: Seq<RemotePipeline>, name: Seq<char>)
    ensures
        match find_last(actual, name) {
            Some(j) => 0 <= j < actual.len() && actual[j].name@ == name && forall|k: int|
                j < k < actual.len() ==> (#[trigger] actual[k]).name@ != name,
            None => forall|k: int| 0 <= k < actual.len() ==> (#[trigger] actual[k]).name@ != name,
        },
    decreases actual.len(),
{
    if actual.len() > 0 {
        let p = actual.drop_last();
        lemma_find_last(p, name);
        assert forall|k: int| 0 <= k < actual.len() - 1 implies actual[k] == #[trigger] p[k] by {}
        if actual.last().name@ != name {
            match find_last(p, name) {
                Some(j) => {
                    assert forall|k: int| j < k < actual.len() implies (#[trigger] actual[k]).name@ != name by {
                        if k < actual.len() - 1 {
                            assert(actual[k] == p[k]);
                        }
                    }
                },
                None => {
                    assert forall|k: int| 0 <= k < actual.len() implies (#[trigger] actual[k]).name@ != name by {
                        if k < actual.len() - 1 {
                            assert(actual[k] == p[k]);
                        }
                    }
                },
            }
        }
    }
}

// --- the implementation -----------------------------------------------------

proof fn lemma_gather_step<T, U>(s: Seq<T>, i: int, f: spec_fn(T) -> Seq<U>)
    requires
        0 <= i < s.len(),
    ensures
        gather(s.take(i + 1), f) == gather(s.take(i), f) + f(s[i]),
{
    assert(s.take(i + 1).drop_last() =~= s.take(i));
    assert(s.take(i + 1).last() == s[i]);
}

/// The position of the last actual pipeline named `name`.
fn find_last_named(actual: &[RemotePipeline], name: &str) -> (r: Option<usize>)
    ensures
        r matches Some(j) ==> find_last(actual@, name@) == Some(j as int) && j < actual.len(),
        r is None ==> find_last(actual@, name@) is None,
{
    proof {
        lemma_find_last(actual@, name@);
    }
    let mut i = actual.len();
    proof {
        lemma_find_last_take(actual@, name@);
    }
    while i > 0
        invariant
            i <= actual.len(),
            find_last(actual@, name@) == find_last(actual@.take(i as int), name@),
        decreases i,
    {
        proof {
            assert(actual@.take(i as int).drop_last() =~= actual@.take(i - 1));
            assert(actual@.take(i as int).last() == actual@[i - 1]);
        }
        if crate::text::str_eq(actual[i - 1].name.as_str(), name) {
            return Some(i - 1);
        }
        i = i - 1;
    }
    proof {
        assert(actual@.take(0) =~= Seq::<RemotePipeline>::empty());
    }
    None
}

proof fn lemma_find_last_take(actual: Seq<RemotePipeline>, name: Seq<char>)
    ensures
        find_last(actual, name) == find_last(actual.take(actual.len() as int), name),
{
    assert(actual.take(actual.len() as int) =~= actual);
}

/// Whether some desired pipeline is named `name`.
pub fn is_declared(desired: &[DesiredPipeline], name: &str) -> (r: bool)
    ensures
        r == declared(desired@, name@),
{
    let mut i: usize = 0;
    while i < desired.len()
        invariant
            i <= desired.len(),
            forall|k: int| 0 <= k < i ==> (#[trigger] desired@[k]).name@ != name@,
        decreases desired.len() - i,
    {
        if crate::text::str_eq(desired[i].name.as_str(), name) {
            return true;
        }
        i = i + 1;
    }
    false
}

/// Whether a state is terminal (and should not be force-transitioned).
fn is_terminal(state: &LifecycleState) -> (r: bool)
    ensures
        r == spec_is_terminal(*state),
{
    match state {
        LifecycleState::Completed | LifecycleState::Failed => true,
        _ => false,
    }
}

/// Whether a desired pipeline has drifted from its actual counterpart.
///
/// Drift is a difference in the (whitespace-trimmed) `definition`.
fn drifted(desired: &DesiredPipeline, actual: &RemotePipeline) -> (r: bool)
    ensures
        r == spec_drifted(*desired, *actual),
{
    let a = trim_chars(&chars_of(desired.definition.as_str()));
    let b = trim_chars(&chars_of(actual.definition.as_str()));
    !chars_eq(&a, &b)
}

/// Append `b` to `a`, keeping order.
fn append_actions(a: &mut Vec<Action>, b: Vec<Action>)
    ensures
        final(a)@ == old(a)@ + b@,
{
    let mut b = b;
    a.append(&mut b);
}

/// Compute the plan to make `actual` match `desired`.
///
/// Actions are ordered deterministically: deletes, creates, sets,
/// transitions, so a rename (delete old + create new) never collides.
pub fn reconcile(desired: &[DesiredPipeline], actual: &[RemotePipeline], opts: ReconcileOpts) -> (plan: Plan)
    ensures
        plan.actions@ == plan_actions(desired@, actual@, opts.prune),
        plan.orphans@ == plan_orphans(desired@, actual@),
        plan.terminal@ == plan_terminal(desired@, actual@),
        plan.prune == opts.prune,
{
    let ghost fc = |d: DesiredPipeline| create_for(actual@, d);
    let ghost fs = |d: DesiredPipeline| set_for(actual@, d);
    let ghost ft = |d: DesiredPipeline| transition_for_desired(actual@, d);
    let ghost fterm = |d: DesiredPipeline| terminal_for(actual@, d);
    let ghost fo = |a: RemotePipeline| orphan_for(desired@, a);
    let ghost fd = |a: RemotePipeline| delete_for(desired@, opts.prune, a);

    let mut deletes: Vec<Action> = Vec::new();
    let mut creates: Vec<Action> = Vec::new();
    let mut sets: Vec<Action> = Vec::new();
    let mut transitions: Vec<Action> = Vec::new();
    let mut orphans: Vec<Orphan> = Vec::new();
    let mut terminal: Vec<Terminal> = Vec::new();

    let mut i: usize = 0;
    while i < desired.len()
        invariant
            i <= desired.len(),
            fc == (|d: DesiredPipeline| create_for(actual@, d)),
            fs == (|d: DesiredPipeline| set_for(actual@, d)),
            ft == (|d: DesiredPipeline| transition_for_desired(actual@, d)),
            fterm == (|d: DesiredPipeline| terminal_for(actual@, d)),
            creates@ == gather(desired@.take(i as int), fc),
            sets@ == gather(desired@.take(i as int), fs),
            transitions@ == gather(desired@.take(i as int), ft),
            terminal@ == gather(desired@.take(i as int), fterm),
        decreases desired.len() - i,
    {
        let d = &desired[i];
        proof {
            lemma_gather_step(desired@, i as int, fc);
            lemma_gather_step(desired@, i as int, fs);
            lemma_gather_step(desired@, i as int, ft);
            lemma_gather_step(desired@, i as int, fterm);
        }
        let ghost c0 = creates@;
        let ghost s0 = sets@;
        let ghost t0 = transitions@;
        let ghost r0 = terminal@;
        match find_last_named(actual, d.name.as_str()) {
            None => {
                creates.push(Action::Create(copy_desired(d)));
                proof {
                    assert(creates@ =~= c0 + fc(*d));
                    assert(sets@ =~= s0 + fs(*d));
                    assert(transitions@ =~= t0 + ft(*d));
                    assert(terminal@ =~= r0 + fterm(*d));
                }
            },
            Some(j) => {
                let a = &actual[j];
                proof {
                    assert(find_last(actual@, d.name@) == Some(j as int));
                    assert(*a == actual@[j as int]);
                }
                if drifted(d, a) {
                    sets.push(Action::SetDefinition { remote: copy_pipeline_id(&a.id), to: copy_desired(d) });
                }
                if is_terminal(&a.state) {
                    terminal.push(
                        Terminal {
                            name: d.name.clone(),
                            state: copy_lifecycle(&a.state),
                            desired: d.state,
                        },
                    );
                } else {
                    match transition_for(&a.state, d.state) {
                        Some(action) => {
                            transitions.push(
                                Action::Transition {
                                    remote: copy_pipeline_id(&a.id),
                                    name: d.name.clone(),
                                    from: copy_lifecycle(&a.state),
                                    to: d.state,
                                    action,
                                },
                            );
                        },
                        None => {},
                    }
                }
                proof {
                    assert(creates@ =~= c0 + fc(*d));
                    assert(sets@ =~= s0 + fs(*d));
                    assert(transitions@ =~= t0 + ft(*d));
                    assert(terminal@ =~= r0 + fterm(*d));
                }
            },
        }
        i = i + 1;
    }

    let mut k: usize = 0;
    while k < actual.len()
        invariant
            k <= actual.len(),
            fo == (|a: RemotePipeline| orphan_for(desired@, a)),
            fd == (|a: RemotePipeline| delete_for(desired@, opts.prune, a)),
            orphans@ == gather(actual@.take(k as int), fo),
            deletes@ == gather(actual@.take(k as int), fd),
        decreases actual.len() - k,
    {
        let a = &actual[k];
        proof {
            lemma_gather_step(actual@, k as int, fo);
            lemma_gather_step(actual@, k as int, fd);
        }
        let ghost o0 = orphans@;
        let ghost d0 = deletes@;
        if !is_declared(desired, a.name.as_str()) {
            orphans.push(Orphan { remote: copy_pipeline_id(&a.id), name: a.name.clone() });
            if opts.prune {
                deletes.push(Action::Delete { remote: copy_pipeline_id(&a.id), name: a.name.clone() });
            }
        }
        proof {
            assert(orphans@ =~= o0 + fo(*a));
            assert(deletes@ =~= d0 + fd(*a));
        }
        k = k + 1;
    }
    proof {
        assert(desired@.take(desired.len() as int) =~= desired@);
        assert(actual@.take(actual.len() as int) =~= actual@);
    }

    let mut actions: Vec<Action> = Vec::new();
    append_actions(&mut actions, deletes);
    append_actions(&mut actions, creates);
    append_actions(&mut actions, sets);
    append_actions(&mut actions, transitions);
    proof {
        assert(actions@ =~= plan_actions(desired@, actual@, opts.prune));
    }
    Plan { actions, orphans, terminal, prune: opts.prune }
}


// --- laws -------------------------------------------------------------------

pub(crate) proof fn lemma_gather_len_zero<T, U>(s: Seq<T>, f: spec_fn(T) -> Seq<U>)
    ensures
        gather(s, f).len() == 0 <==> forall|i: int| 0 <= i < s.len() ==> (#[trigger] f(s[i])).len() == 0,
    decreases s.len(),
{
    if s.len() > 0 {
        lemma_gather_len_zero(s.drop_last(), f);
        if gather(s, f).len() == 0 {
            assert forall|i: int| 0 <= i < s.len() implies (#[trigger] f(s[i])).len() == 0 by {
                if i < s.len() - 1 {
                    assert(s.drop_last()[i] == s[i]);
                }
            }
        }
        if forall|i: int| 0 <= i < s.len() ==> (#[trigger] f(s[i])).len() == 0 {
            assert forall|i: int| 0 <= i < s.drop_last().len() implies (#[trigger] f(s.drop_last()[i])).len() == 0 by {
                assert(s.drop_last()[i] == s[i]);
            }
            assert(f(s[s.len() - 1]).len() == 0);
        }
    }
}

pub(crate) proof fn lemma_gather_elements<T, U>(s: Seq<T>, f: spec_fn(T) -> Seq<U>, p: spec_fn(U) -> bool)
    requires
        forall|i: int, k: int| 0 <= i < s.len() && 0 <= k < f(s[i]).len() ==> p(#[trigger] f(s[i])[k]),
    ensures
        forall|k: int| 0 <= k < gather(s, f).len() ==> p(#[trigger] gather(s, f)[k]),
    decreases s.len(),
{
    if s.len() > 0 {
        assert forall|i: int, k: int| 0 <= i < s.drop_last().len() && 0 <= k < f(s.drop_last()[i]).len() implies p(#[trigger] f(s.drop_last()[i])[k]) by {
            assert(s.drop_last()[i] == s[i]);
        }
        lemma_gather_elements(s.drop_last(), f, p);
        let g = gather(s.drop_last(), f);
        let l = f(s.last());
        assert forall|k: int| 0 <= k < gather(s, f).len() implies p(#[trigger] gather(s, f)[k]) by {
            if k < g.len() {
                assert(gather(s, f)[k] == g[k]);
            } else {
                assert(gather(s, f)[k] == l[k - g.len()]);
                assert(p(f(s[s.len() - 1])[k - g.len()]));
            }
        }
    }
}

/// Whether the node already matches the project: every desired pipeline has
/// a counterpart with the same (trimmed) definition that is either terminal or
/// already in the desired run-state, and every actual pipeline is declared.
pub open spec fn in_sync(desired: Seq<DesiredPipeline>, actual: Seq<RemotePipeline>) -> bool {
    &&& forall|i: int|
        0 <= i < desired.len() ==> match find_last(actual, (#[trigger] desired[i]).name@) {
            Some(j) => !spec_drifted(desired[i], actual[j]) && (spec_is_terminal(actual[j].state)
                || satisfies(actual[j].state, desired[i].state)),
            None => false,
        }
    &&& forall|k: int| 0 <= k < actual.len() ==> declared(desired, (#[trigger] actual[k]).name@)
}

/// A plan has changes exactly when the node does not already match the
/// project; in particular, reconciling a converged node plans nothing, so
/// re-applying a project is a no-op.
pub proof fn law_no_changes_iff_in_sync(
    desired: Seq<DesiredPipeline>,
    actual: Seq<RemotePipeline>,
    prune: bool,
)
    ensures
        !spec_has_changes(plan_actions(desired, actual, prune), plan_orphans(desired, actual))
            <==> in_sync(desired, actual),
        in_sync(desired, actual) ==> plan_actions(desired, actual, prune).len() == 0,
{
    let fc = |d: DesiredPipeline| create_for(actual, d);
    let fs = |d: DesiredPipeline| set_for(actual, d);
    let ft = |d: DesiredPipeline| transition_for_desired(actual, d);
    let fo = |a: RemotePipeline| orphan_for(desired, a);
    let fd = |a: RemotePipeline| delete_for(desired, prune, a);
    lemma_gather_len_zero(desired, fc);
    lemma_gather_len_zero(desired, fs);
    lemma_gather_len_zero(desired, ft);
    lemma_gather_len_zero(actual, fo);
    lemma_gather_len_zero(actual, fd);
    let none = gather(actual, fd).len() == 0 && gather(desired, fc).len() == 0 && gather(desired, fs).len()
        == 0 && gather(desired, ft).len() == 0 && gather(actual, fo).len() == 0;
    assert(plan_actions(desired, actual, prune).len() == gather(actual, fd).len() + gather(desired, fc).len()
        + gather(desired, fs).len() + gather(desired, ft).len());
    if in_sync(desired, actual) {
        assert forall|i: int| 0 <= i < desired.len() implies (#[trigger] fc(desired[i])).len() == 0
            && fs(desired[i]).len() == 0 && ft(desired[i]).len() == 0 by {
            let d = desired[i];
            if let Some(j) = find_last(actual, d.name@) {
                if !spec_is_terminal(actual[j].state) {
                    assert(satisfies(actual[j].state, d.state));
                }
            }
        }
        assert forall|i: int| 0 <= i < desired.len() implies (#[trigger] fs(desired[i])).len() == 0 by {
            assert(fc(desired[i]).len() == 0);
        }
        assert forall|i: int| 0 <= i < desired.len() implies (#[trigger] ft(desired[i])).len() == 0 by {
            assert(fc(desired[i]).len() == 0);
        }
        assert forall|k: int| 0 <= k < actual.len() implies (#[trigger] fo(actual[k])).len() == 0 && fd(actual[k]).len() == 0 by {}
        assert forall|k: int| 0 <= k < actual.len() implies (#[trigger] fd(actual[k])).len() == 0 by {
            assert(fo(actual[k]).len() == 0);
        }
    }
    if none {
        assert forall|i: int| 0 <= i < desired.len() implies match find_last(actual, (#[trigger] desired[i]).name@) {
            Some(j) => !spec_drifted(desired[i], actual[j]) && (spec_is_terminal(actual[j].state)
                || satisfies(actual[j].state, desired[i].state)),
            None => false,
        } by {
            assert(fc(desired[i]).len() == 0);
            assert(fs(desired[i]).len() == 0);
            assert(ft(desired[i]).len() == 0);
        }
        assert forall|k: int| 0 <= k < actual.len() implies declared(desired, (#[trigger] actual[k]).name@) by {
            assert(fo(actual[k]).len() == 0);
        }
    }
}

/// Actions come in the order deletes, creates, sets, transitions.
pub proof fn law_actions_ordered(
    desired: Seq<DesiredPipeline>,
    actual: Seq<RemotePipeline>,
    prune: bool,
)
    ensures
        forall|i: int, j: int|
            0 <= i <= j < plan_actions(desired, actual, prune).len() ==> action_rank(
                #[trigger] plan_actions(desired, actual, prune)[i],
            ) <= action_rank(#[trigger] plan_actions(desired, actual, prune)[j]),
{
    let fc = |d: DesiredPipeline| create_for(actual, d);
    let fs = |d: DesiredPipeline| set_for(actual, d);
    let ft = |d: DesiredPipeline| transition_for_desired(actual, d);
    let fd = |a: RemotePipeline| delete_for(desired, prune, a);
    let g0 = gather(actual, fd);
    let g1 = gather(desired, fc);
    let g2 = gather(desired, fs);
    let g3 = gather(desired, ft);
    lemma_gather_elements(actual, fd, |x: Action| action_rank(x) == 0);
    lemma_gather_elements(desired, fc, |x: Action| action_rank(x) == 1);
    lemma_gather_elements(desired, fs, |x: Action| action_rank(x) == 2);
    lemma_gather_elements(desired, ft, |x: Action| action_rank(x) == 3);
    let all = plan_actions(desired, actual, prune);
    assert(all == g0 + g1 + g2 + g3);
    assert forall|i: int| 0 <= i < all.len() implies (action_rank(#[trigger] all[i]) == 0 <==> i
        < g0.len()) && (action_rank(all[i]) == 1 <==> g0.len() <= i < g0.len() + g1.len()) && (
    action_rank(all[i]) == 2 <==> g0.len() + g1.len() <= i < g0.len() + g1.len() + g2.len()) && (
    action_rank(all[i]) == 3 <==> g0.len() + g1.len() + g2.len() <= i) by {
        if i < g0.len() {
            assert(all[i] == g0[i]);
        } else if i < g0.len() + g1.len() {
            assert(all[i] == g1[i - g0.len()]);
        } else if i < g0.len() + g1.len() + g2.len() {
            assert(all[i] == g2[i - g0.len() - g1.len()]);
        } else {
            assert(all[i] == g3[i - g0.len() - g1.len() - g2.len()]);
        }
    }
}

/// Terminal pipelines are never force-transitioned, and every transition is
/// the minimal one from the observed to the desired run-state.
pub proof fn law_transitions_are_minimal(
    desired: Seq<DesiredPipeline>,
    actual: Seq<RemotePipeline>,
    prune: bool,
)
    ensures
        forall|k: int|
            0 <= k < plan_actions(desired, actual, prune).len() ==> match #[trigger] plan_actions(
                desired,
                actual,
                prune,
            )[k] {
                Action::Transition { from, to, action, .. } => !spec_is_terminal(from)
                    && spec_transition_for(from, to) == Some(action),
                _ => true,
            },
{
    let fc = |d: DesiredPipeline| create_for(actual, d);
    let fs = |d: DesiredPipeline| set_for(actual, d);
    let ft = |d: DesiredPipeline| transition_for_desired(actual, d);
    let fd = |a: RemotePipeline| delete_for(desired, prune, a);
    let ok = |x: Action| match x {
        Action::Transition { from, to, action, .. } => !spec_is_terminal(from) && spec_transition_for(
            from,
            to,
        ) == Some(action),
        _ => true,
    };
    lemma_gather_elements(actual, fd, ok);
    lemma_gather_elements(desired, fc, ok);
    lemma_gather_elements(desired, fs, ok);
    lemma_gather_elements(desired, ft, ok);
    let g0 = gather(actual, fd);
    let g1 = gather(desired, fc);
    let g2 = gather(desired, fs);
    let g3 = gather(desired, ft);
    let all = plan_actions(desired, actual, prune);
    assert(all == g0 + g1 + g2 + g3);
    assert forall|k: int| 0 <= k < all.len() implies ok(#[trigger] all[k]) by {
        if k < g0.len() {
            assert(all[k] == g0[k]);
        } else if k < g0.len() + g1.len() {
            assert(all[k] == g1[k - g0.len()]);
        } else if k < g0.len() + g1.len() + g2.len() {
            assert(all[k] == g2[k - g0.len() - g1.len()]);
        } else {
            assert(all[k] == g3[k - g0.len() - g1.len() - g2.len()]);
        }
    }
}

/// Creates target exactly names absent from the node, deletes target
/// exactly undeclared names, and deletes appear only with `--prune`.
pub proof fn law_creates_and_deletes(
    desired: Seq<DesiredPipeline>,
    actual: Seq<RemotePipeline>,
    prune: bool,
)
    ensures
        forall|k: int|
            0 <= k < plan_actions(desired, actual, prune).len() ==> match #[trigger] plan_actions(
                desired,
                actual,
                prune,
            )[k] {
                Action::Create(p) => find_last(actual, p.name@) is None,
                Action::Delete { name, .. } => prune && !declared(desired, name@),
                _ => true,
            },
{
    let fc = |d: DesiredPipeline| create_for(actual, d);
    let fs = |d: DesiredPipeline| set_for(actual, d);
    let ft = |d: DesiredPipeline| transition_for_desired(actual, d);
    let fd = |a: RemotePipeline| delete_for(desired, prune, a);
    let ok = |x: Action| match x {
        Action::Create(p) => find_last(actual, p.name@) is None,
        Action::Delete { name, .. } => prune && !declared(desired, name@),
        _ => true,
    };
    lemma_gather_elements(actual, fd, ok);
    lemma_gather_elements(desired, fc, ok);
    lemma_gather_elements(desired, fs, ok);
    lemma_gather_elements(desired, ft, ok);
    let g0 = gather(actual, fd);
    let g1 = gather(desired, fc);
    let g2 = gather(desired, fs);
    let g3 = gather(desired, ft);
    let all = plan_actions(desired, actual, prune);
    assert(all == g0 + g1 + g2 + g3);
    assert forall|k: int| 0 <= k < all.len() implies ok(#[trigger] all[k]) by {
        if k < g0.len() {
            assert(all[k] == g0[k]);
        } else if k < g0.len() + g1.len() {
            assert(all[k] == g1[k - g0.len()]);
        } else if k < g0.len() + g1.len() + g2.len() {
            assert(all[k] == g2[k - g0.len() - g1.len()]);
        } else {
            assert(all[k] == g3[k - g0.len() - g1.len() - g2.len()]);
        }
    }
}

proof fn lemma_deletes_match_orphans(desired: Seq<DesiredPipeline>, actual: Seq<RemotePipeline>, prune: bool)
    ensures
        gather(actual, |a: RemotePipeline| delete_for(desired, prune, a)) == if prune {
            plan_orphans(desired, actual).map_values(|o: Orphan| Action::Delete { remote: o.remote, name: o.name })
        } else {
            seq![]
        },
    decreases actual.len(),
{
    let fd = |a: RemotePipeline| delete_for(desired, prune, a);
    let fo = |a: RemotePipeline| orphan_for(desired, a);
    if actual.len() > 0 {
        lemma_deletes_match_orphans(desired, actual.drop_last(), prune);
        assert(gather(actual, fd) == gather(actual.drop_last(), fd) + fd(actual.last()));
        assert(gather(actual, fo) == gather(actual.drop_last(), fo) + fo(actual.last()));
        if prune {
            let m = |o: Orphan| Action::Delete { remote: o.remote, name: o.name };
            assert((gather(actual.drop_last(), fo) + fo(actual.last())).map_values(m) =~= gather(
                actual.drop_last(),
                fo,
            ).map_values(m) + fo(actual.last()).map_values(m));
            assert(fo(actual.last()).map_values(m) =~= fd(actual.last()));
        } else {
            assert(fd(actual.last()) =~= Seq::<Action>::empty());
            assert(gather(actual, fd) =~= Seq::<Action>::empty());
        }
    } else {
        if prune {
            assert(plan_orphans(desired, actual).map_values(|o: Orphan| Action::Delete { remote: o.remote, name: o.name }) =~= Seq::<Action>::empty());
        }
    }
}

/// With `--prune`, the plan starts with one delete per orphan, in orphan
/// order; without it, orphans are only reported and nothing is deleted.
pub proof fn law_prune_deletes_orphans(
    desired: Seq<DesiredPipeline>,
    actual: Seq<RemotePipeline>,
    prune: bool,
)
    ensures
        count_rank(plan_actions(desired, actual, prune), 0) == if prune {
            plan_orphans(desired, actual).len()
        } else {
            0
        },
        prune ==> forall|k: int|
            0 <= k < plan_orphans(desired, actual).len() ==> plan_actions(desired, actual, prune)[k]
                == (Action::Delete {
                remote: (#[trigger] plan_orphans(desired, actual)[k]).remote,
                name: plan_orphans(desired, actual)[k].name,
            }),
{
    lemma_deletes_match_orphans(desired, actual, prune);
    let fc = |d: DesiredPipeline| create_for(actual, d);
    let fs = |d: DesiredPipeline| set_for(actual, d);
    let ft = |d: DesiredPipeline| transition_for_desired(actual, d);
    let fd = |a: RemotePipeline| delete_for(desired, prune, a);
    let g0 = gather(actual, fd);
    let rest = gather(desired, fc) + gather(desired, fs) + gather(desired, ft);
    let all = plan_actions(desired, actual, prune);
    assert(all =~= g0 + rest);
    lemma_gather_elements(desired, fc, |x: Action| action_rank(x) != 0);
    lemma_gather_elements(desired, fs, |x: Action| action_rank(x) != 0);
    lemma_gather_elements(desired, ft, |x: Action| action_rank(x) != 0);
    assert forall|k: int| 0 <= k < rest.len() implies action_rank(#[trigger] rest[k]) != 0 by {
        let a = gather(desired, fc);
        let b = gather(desired, fs);
        if k < a.len() {
            assert(rest[k] == a[k]);
        } else if k < a.len() + b.len() {
            assert(rest[k] == b[k - a.len()]);
        } else {
            assert(rest[k] == gather(desired, ft)[k - a.len() - b.len()]);
        }
    }
    lemma_count_rank_concat(g0, rest, 0);
    lemma_count_rank_none(rest, 0);
    lemma_count_rank_all(g0, 0);
}

proof fn lemma_count_rank_concat(a: Seq<Action>, b: Seq<Action>, rank: int)
    ensures
        count_rank(a + b, rank) == count_rank(a, rank) + count_rank(b, rank),
    decreases b.len(),
{
    if b.len() == 0 {
        assert(a + b =~= a);
    } else {
        assert((a + b).drop_last() =~= a + b.drop_last());
        lemma_count_rank_concat(a, b.drop_last(), rank);
    }
}

proof fn lemma_count_rank_none(s: Seq<Action>, rank: int)
    requires
        forall|k: int| 0 <= k < s.len() ==> action_rank(#[trigger] s[k]) != rank,
    ensures
        count_rank(s, rank) == 0,
    decreases s.len(),
{
    if s.len() > 0 {
        assert forall|k: int| 0 <= k < s.drop_last().len() implies action_rank(#[trigger] s.drop_last()[k]) != rank by {
            assert(s.drop_last()[k] == s[k]);
        }
        lemma_count_rank_none(s.drop_last(), rank);
    }
}

proof fn lemma_count_rank_all(s: Seq<Action>, rank: int)
    requires
        forall|k: int| 0 <= k < s.len() ==> action_rank(#[trigger] s[k]) == rank,
    ensures
        count_rank(s, rank) == s.len(),
    decreases s.len(),
{
    if s.len() > 0 {
        assert forall|k: int| 0 <= k < s.drop_last().len() implies action_rank(#[trigger] s.drop_last()[k]) == rank by {
            assert(s.drop_last()[k] == s[k]);
        }
        lemma_count_rank_all(s.drop_last(), rank);
    }
}

/// The per-kind counts of any action list add up to its length.
pub proof fn law_counts_sum(actions: Seq<Action>)
    ensures
        count_rank(actions, 0) + count_rank(actions, 1) + count_rank(actions, 2) + count_rank(actions, 3)
            == actions.len(),
    decreases actions.len(),
{
    if actions.len() > 0 {
        law_counts_sum(actions.drop_last());
    }
}
} // verus!
