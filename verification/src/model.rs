//! Domain model: identifier newtypes, pipeline states, and platform resources.

use vstd::prelude::*;
use crate::ext::{debug_quoted, debug_str};
use crate::text::{
    chars_eq, chars_of, decimal, join, join_strings, lower_chars, lower_seq, owned, parse_u64, parses_u64, push_str,
    string_views, u64_value, usize_to_string,
};

verus! {

/// A workspace identifier (`t-xxxxxxxx`, the platform's `tenant_id`).
#[derive(Debug, Clone, PartialEq, Eq, Hash)]
pub struct TenantId(pub String);

impl TenantId {
    /// Borrow the underlying string.
    pub fn as_str(&self) -> (r: &str)
        ensures
            r@ == self.0@,
    {
        self.0.as_str()
    }
}

impl From<String> for TenantId {
    fn from(s: String) -> (r: Self) {
        TenantId(s)
    }
}

impl vstd::std_specs::convert::FromSpecImpl<String> for TenantId {
    open spec fn obeys_from_spec() -> bool {
        true
    }

    open spec fn from_spec(s: String) -> Self {
        TenantId(s)
    }
}

/// A node identifier (`n-xxxxxxxx`, the platform's `node_id`).
#[derive(Debug, Clone, PartialEq, Eq, Hash)]
pub struct NodeId(pub String);

impl NodeId {
    /// Borrow the underlying string.
    pub fn as_str(&self) -> (r: &str)
        ensures
            r@ == self.0@,
    {
        self.0.as_str()
    }
}

impl From<String> for NodeId {
    fn from(s: String) -> (r: Self) {
        NodeId(s)
    }
}

impl vstd::std_specs::convert::FromSpecImpl<String> for NodeId {
    open spec fn obeys_from_spec() -> bool {
        true
    }

    open spec fn from_spec(s: String) -> Self {
        NodeId(s)
    }
}

/// A pipeline identifier as assigned by the node.
#[derive(Debug, Clone, PartialEq, Eq, Hash)]
pub struct PipelineId(pub String);

impl PipelineId {
    /// Borrow the underlying string.
    pub fn as_str(&self) -> (r: &str)
        ensures
            r@ == self.0@,
    {
        self.0.as_str()
    }
}

/// A copy of a pipeline id that keeps its contents.
pub fn copy_pipeline_id(p: &PipelineId) -> (r: PipelineId)
    ensures
        r == *p,
{
    PipelineId(p.0.clone())
}

/// A copy of an optional node id that keeps its contents.
pub fn copy_opt_node(n: &Option<NodeId>) -> (r: Option<NodeId>)
    ensures
        r == *n,
{
    match n {
        Some(id) => Some(NodeId(id.0.clone())),
        None => None,
    }
}

/// A pipeline lifecycle state as observed on the node.
///
/// Unknown states (from a newer node) are preserved verbatim in
/// [`LifecycleState::Other`] so node-version drift never breaks parsing.
#[derive(Debug, Clone, PartialEq, Eq)]
pub enum LifecycleState {
    /// Created but not started.
    Created,
    /// Actively running.
    Running,
    /// Finished successfully.
    Completed,
    /// Terminated with an error.
    Failed,
    /// Paused; keeps in-memory state.
    Paused,
    /// Stopped; resets in-memory state.
    Stopped,
    /// An unrecognized state, displayed verbatim.
    Other(String),
}

/// The canonical wire string of a lifecycle state.
pub open spec fn lifecycle_wire(s: LifecycleState) -> Seq<char> {
    match s {
        LifecycleState::Created => "created"@,
        LifecycleState::Running => "running"@,
        LifecycleState::Completed => "completed"@,
        LifecycleState::Failed => "failed"@,
        LifecycleState::Paused => "paused"@,
        LifecycleState::Stopped => "stopped"@,
        LifecycleState::Other(x) => x@,
    }
}

/// The known lifecycle state named by a lowercase wire string, if any.
pub open spec fn known_lifecycle(l: Seq<char>) -> Option<LifecycleState> {
    if l == "created"@ {
        Some(LifecycleState::Created)
    } else if l == "running"@ {
        Some(LifecycleState::Running)
    } else if l == "completed"@ {
        Some(LifecycleState::Completed)
    } else if l == "failed"@ {
        Some(LifecycleState::Failed)
    } else if l == "paused"@ {
        Some(LifecycleState::Paused)
    } else if l == "stopped"@ {
        Some(LifecycleState::Stopped)
    } else {
        None
    }
}

/// The declarable state an observed lifecycle state maps to, if any.
pub open spec fn spec_to_desired(s: LifecycleState) -> Option<DesiredState> {
    match s {
        LifecycleState::Running => Some(DesiredState::Running),
        LifecycleState::Paused => Some(DesiredState::Paused),
        LifecycleState::Stopped | LifecycleState::Completed => Some(DesiredState::Stopped),
        _ => None,
    }
}

impl LifecycleState {
    /// The canonical lowercase wire string for this state.
    pub fn as_wire(&self) -> (r: &str)
        ensures
            r@ == lifecycle_wire(*self),
    {
        match self {
            LifecycleState::Created => "created",
            LifecycleState::Running => "running",
            LifecycleState::Completed => "completed",
            LifecycleState::Failed => "failed",
            LifecycleState::Paused => "paused",
            LifecycleState::Stopped => "stopped",
            LifecycleState::Other(s) => s.as_str(),
        }
    }

    /// Map an observed lifecycle state to a declarable [`DesiredState`].
    ///
    /// Only `running`, `paused`, and the two terminal-but-declarable states
    /// (`stopped`/`completed`) map cleanly; transient or error states
    /// (`created`, `failed`, unknown) give `None`.
    pub fn to_desired(&self) -> (r: Option<DesiredState>)
        ensures
            r == spec_to_desired(*self),
    {
        match self {
            LifecycleState::Running => Some(DesiredState::Running),
            LifecycleState::Paused => Some(DesiredState::Paused),
            LifecycleState::Stopped | LifecycleState::Completed => Some(DesiredState::Stopped),
            LifecycleState::Created | LifecycleState::Failed | LifecycleState::Other(_) => None,
        }
    }

    /// Parse a wire string, case-insensitively; unknown strings are kept
    /// verbatim as [`LifecycleState::Other`].
    pub fn from(s: &str) -> (r: LifecycleState)
        ensures
            match known_lifecycle(lower_seq(s@)) {
                Some(k) => r == k,
                None => r matches LifecycleState::Other(x) && x@ == s@,
            },
    {
        let l = lower_chars(s);
        proof {
            reveal_strlit("created");
            reveal_strlit("running");
            reveal_strlit("completed");
            reveal_strlit("failed");
            reveal_strlit("paused");
            reveal_strlit("stopped");
        }
        if chars_eq(&l, &chars_of("created")) {
            LifecycleState::Created
        } else if chars_eq(&l, &chars_of("running")) {
            LifecycleState::Running
        } else if chars_eq(&l, &chars_of("completed")) {
            LifecycleState::Completed
        } else if chars_eq(&l, &chars_of("failed")) {
            LifecycleState::Failed
        } else if chars_eq(&l, &chars_of("paused")) {
            LifecycleState::Paused
        } else if chars_eq(&l, &chars_of("stopped")) {
            LifecycleState::Stopped
        } else {
            LifecycleState::Other(owned(s))
        }
    }
}

/// A lowercase word is its own lowercase form.
proof fn lemma_lower_fixed(w: Seq<char>)
    requires
        forall|i: int| 0 <= i < w.len() ==> 'a' <= #[trigger] w[i] <= 'z',
    ensures
        lower_seq(w) == w,
{
    assert(lower_seq(w) =~= w);
}

/// Parsing the wire string of a state gives the state back; an unknown state
/// comes back verbatim. (An unknown state whose text is a known state name in
/// another case, such as `Other("Running")`, parses as that known state.)
pub proof fn law_lifecycle_wire_round_trip(s: LifecycleState)
    requires
        s matches LifecycleState::Other(x) ==> known_lifecycle(lower_seq(x@)) is None,
    ensures
        match known_lifecycle(lower_seq(lifecycle_wire(s))) {
            Some(k) => k == s,
            None => s matches LifecycleState::Other(x) && x@ == lifecycle_wire(s),
        },
{
    reveal_strlit("created");
    reveal_strlit("running");
    reveal_strlit("completed");
    reveal_strlit("failed");
    reveal_strlit("paused");
    reveal_strlit("stopped");
    let w = lifecycle_wire(s);
    match s {
        LifecycleState::Other(_) => {},
        _ => {
            lemma_lower_fixed(w);
            assert(w[0] != "created"@[0] ==> w != "created"@);
            assert(w[0] != "running"@[0] ==> w != "running"@);
            assert(w[0] != "completed"@[0] ==> w != "completed"@);
            assert(w[0] != "failed"@[0] ==> w != "failed"@);
            assert(w[0] != "paused"@[0] ==> w != "paused"@);
            assert(w.len() != "paused"@.len() ==> w != "paused"@);
        },
    }
}

/// A copy of a lifecycle state that keeps its contents.
pub fn copy_lifecycle(s: &LifecycleState) -> (r: LifecycleState)
    ensures
        r == *s,
{
    match s {
        LifecycleState::Created => LifecycleState::Created,
        LifecycleState::Running => LifecycleState::Running,
        LifecycleState::Completed => LifecycleState::Completed,
        LifecycleState::Failed => LifecycleState::Failed,
        LifecycleState::Paused => LifecycleState::Paused,
        LifecycleState::Stopped => LifecycleState::Stopped,
        LifecycleState::Other(x) => LifecycleState::Other(x.clone()),
    }
}

/// A pipeline as it currently exists on the node.
#[derive(Debug, Clone, PartialEq, Eq)]
pub struct RemotePipeline {
    /// The node-assigned id.
    pub id: PipelineId,
    /// The user-assigned name (identity key).
    pub name: String,
    /// The TQL definition.
    pub definition: String,
    /// The current lifecycle state.
    pub state: LifecycleState,
    /// The last error message, if the pipeline failed.
    pub error: Option<String>,
}

/// The desired run-state of a pipeline, as declared by the user.
#[derive(Debug, Clone, Copy, PartialEq, Eq, Structural)]
pub enum DesiredState {
    /// The pipeline should be running (the default).
    Running,
    /// The pipeline should be paused (keeps in-memory state).
    Paused,
    /// The pipeline should be stopped (resets in-memory state).
    Stopped,
}

impl Default for DesiredState {
    fn default() -> (r: Self)
        ensures
            r == DesiredState::Running,
    {
        DesiredState::Running
    }
}

/// A run-state transition relayed to the node via `pipeline/update`.
#[derive(Debug, Clone, Copy, PartialEq, Eq, Structural)]
pub enum TransitionAction {
    /// Start (or resume) the pipeline.
    Start,
    /// Pause the pipeline, keeping in-memory state.
    Pause,
    /// Stop the pipeline, resetting in-memory state.
    Stop,
}

/// The node `action` wire string of a transition.
pub open spec fn transition_wire(a: TransitionAction) -> Seq<char> {
    match a {
        TransitionAction::Start => "start"@,
        TransitionAction::Pause => "pause"@,
        TransitionAction::Stop => "stop"@,
    }
}

impl TransitionAction {
    /// The node `action` wire string.
    pub fn as_wire(&self) -> (r: &'static str)
        ensures
            r@ == transition_wire(*self),
    {
        match self {
            TransitionAction::Start => "start",
            TransitionAction::Pause => "pause",
            TransitionAction::Stop => "stop",
        }
    }
}

/// A pipeline as declared by the user.
#[derive(Debug, Clone, PartialEq, Eq)]
pub struct DesiredPipeline {
    /// The identity key (the pipeline name).
    pub name: String,
    /// The TQL definition.
    pub definition: String,
    /// The desired run-state.
    pub state: DesiredState,
    /// An optional explicit target node (overrides config).
    pub node: Option<NodeId>,
}

/// A copy of a desired pipeline that keeps its contents.
pub fn copy_desired(p: &DesiredPipeline) -> (r: DesiredPipeline)
    ensures
        r == *p,
{
    DesiredPipeline {
        name: p.name.clone(),
        definition: p.definition.clone(),
        state: p.state,
        node: copy_opt_node(&p.node),
    }
}

/// The transitions that drive a freshly created pipeline to `state`.
pub open spec fn spec_create_transitions(state: DesiredState) -> Seq<TransitionAction> {
    match state {
        DesiredState::Running => seq![TransitionAction::Start],
        DesiredState::Paused => seq![TransitionAction::Start, TransitionAction::Pause],
        DesiredState::Stopped => seq![],
    }
}

impl DesiredPipeline {
    /// The transitions needed to drive a freshly-created pipeline (in the
    /// `Created` state) to this desired state.
    pub fn create_transitions(&self) -> (r: Vec<TransitionAction>)
        ensures
            r@ == spec_create_transitions(self.state),
    {
        let mut v: Vec<TransitionAction> = Vec::new();
        match self.state {
            DesiredState::Running => {
                v.push(TransitionAction::Start);
            },
            DesiredState::Paused => {
                v.push(TransitionAction::Start);
                v.push(TransitionAction::Pause);
            },
            DesiredState::Stopped => {},
        }
        proof {
            assert(v@ =~= spec_create_transitions(self.state));
        }
        v
    }
}

/// The minimal transition from an observed state toward a desired one.
pub open spec fn spec_transition_for(from: LifecycleState, to: DesiredState) -> Option<TransitionAction> {
    match to {
        DesiredState::Running => if from is Running {
            None
        } else {
            Some(TransitionAction::Start)
        },
        DesiredState::Paused => if from is Paused {
            None
        } else {
            Some(TransitionAction::Pause)
        },
        DesiredState::Stopped => if from is Stopped || from is Completed {
            None
        } else {
            Some(TransitionAction::Stop)
        },
    }
}

/// Whether an observed state already satisfies a desired run-state.
pub open spec fn satisfies(from: LifecycleState, to: DesiredState) -> bool {
    match to {
        DesiredState::Running => from is Running,
        DesiredState::Paused => from is Paused,
        DesiredState::Stopped => from is Stopped || from is Completed,
    }
}

/// The minimal transition to move an observed `from` state toward `to`.
///
/// Returns `None` when the pipeline is already in the desired run-state.
pub fn transition_for(from: &LifecycleState, to: DesiredState) -> (r: Option<TransitionAction>)
    ensures
        r == spec_transition_for(*from, to),
        r is None <==> satisfies(*from, to),
{
    match to {
        DesiredState::Running => match from {
            LifecycleState::Running => None,
            _ => Some(TransitionAction::Start),
        },
        DesiredState::Paused => match from {
            LifecycleState::Paused => None,
            _ => Some(TransitionAction::Pause),
        },
        DesiredState::Stopped => match from {
            LifecycleState::Stopped | LifecycleState::Completed => None,
            _ => Some(TransitionAction::Stop),
        },
    }
}

/// A workspace the authenticated user can access.
#[derive(Debug, Clone, PartialEq, Eq)]
pub struct Workspace {
    /// The workspace (tenant) id.
    pub tenant_id: TenantId,
    /// The human-readable workspace name.
    pub name: String,
}

/// A node within a workspace.
#[derive(Debug, Clone, PartialEq, Eq)]
pub struct Node {
    /// The node id.
    pub node_id: NodeId,
    /// The human-readable node name.
    pub name: String,
    /// Whether the node is currently connected to the platform.
    pub connected: bool,
    /// The raw lifecycle state reported by the platform, if any.
    pub lifecycle_state: Option<String>,
}


/// An error from resolving a user-supplied identifier to a single item.
#[derive(Debug, Clone, PartialEq, Eq)]
pub enum ResolveError {
    /// No item matched the query.
    NotFound(String),
    /// The query matched more than one item.
    Ambiguous {
        /// The query that matched multiple items.
        query: String,
        /// The ids of the matches.
        matches: Vec<String>,
    },
    /// A numeric index was out of range.
    IndexOutOfRange {
        /// The 1-based index requested.
        index: usize,
        /// The number of available items.
        len: usize,
    },
}

/// The views of a sequence of strings.
pub open spec fn views(s: Seq<String>) -> Seq<Seq<char>> {
    s.map_values(|x: String| x@)
}

/// The positions of `keys` whose value equals `q`, in increasing order.
pub open spec fn match_positions(keys: Seq<Seq<char>>, q: Seq<char>) -> Seq<int>
    decreases keys.len(),
{
    if keys.len() == 0 {
        seq![]
    } else if keys.last() == q {
        match_positions(keys.drop_last(), q).push(keys.len() - 1)
    } else {
        match_positions(keys.drop_last(), q)
    }
}

/// Every position in `match_positions(keys, q)` is in range and matches.
pub proof fn lemma_match_positions(keys: Seq<Seq<char>>, q: Seq<char>)
    ensures
        forall|k: int|
            0 <= k < match_positions(keys, q).len() ==> 0 <= #[trigger] match_positions(keys, q)[k]
                < keys.len() && keys[match_positions(keys, q)[k]] == q,
        forall|i: int| 0 <= i < keys.len() && keys[i] == q ==> match_positions(keys, q).contains(i),
    decreases keys.len(),
{
    if keys.len() > 0 {
        lemma_match_positions(keys.drop_last(), q);
        let p = match_positions(keys.drop_last(), q);
        assert forall|i: int| 0 <= i < keys.len() && keys[i] == q implies match_positions(
            keys,
            q,
        ).contains(i) by {
            if i < keys.len() - 1 {
                assert(keys.drop_last()[i] == keys[i]);
                let k = choose|k: int| 0 <= k < p.len() && p[k] == i;
                if keys.last() == q {
                    assert(match_positions(keys, q)[k] == i);
                }
            } else {
                assert(match_positions(keys, q).last() == i);
            }
        }
    }
}

/// The positions of `keys` equal to `q`.
fn positions_of(keys: &[String], q: &str) -> (r: Vec<usize>)
    ensures
        r@.map_values(|i: usize| i as int) == match_positions(views(keys@), q@),
{
    let mut r: Vec<usize> = Vec::new();
    let mut i: usize = 0;
    while i < keys.len()
        invariant
            i <= keys.len(),
            r@.map_values(|i: usize| i as int) == match_positions(views(keys@.take(i as int)), q@),
        decreases keys.len() - i,
    {
        let ghost prev = r@;
        proof {
            assert(views(keys@.take(i + 1)).drop_last() =~= views(keys@.take(i as int)));
            assert(views(keys@.take(i + 1)).last() == keys@[i as int]@);
        }
        if crate::text::str_eq(keys[i].as_str(), q) {
            r.push(i);
            proof {
                assert(r@.map_values(|i: usize| i as int) =~= prev.map_values(|i: usize| i as int).push(i as int));
            }
        }
        i = i + 1;
    }
    proof {
        assert(keys@.take(keys.len() as int) =~= keys@);
    }
    r
}

/// The ids at the given positions.
pub open spec fn ids_at(ids: Seq<Seq<char>>, positions: Seq<int>) -> Seq<Seq<char>> {
    positions.map_values(|i: int| ids[i])
}

/// What [`resolve_index`] answers for `ids`, `names` and `query`: by a unique
/// id, else a unique name, else (several names: ambiguous), else a 1-based
/// index, else not found.
pub open spec fn resolve_ok(ids: Seq<Seq<char>>, names: Seq<Seq<char>>, q: Seq<char>, r: Result<usize, ResolveError>) -> bool {
    let idm = match_positions(ids, q);
    let nm = match_positions(names, q);
    if idm.len() == 1 {
        r == Ok::<usize, ResolveError>(idm[0] as usize)
    } else if nm.len() == 1 {
        r == Ok::<usize, ResolveError>(nm[0] as usize)
    } else if nm.len() > 1 {
        r matches Err(ResolveError::Ambiguous { query, matches }) && query@ == q && views(matches@)
            == ids_at(ids, nm)
    } else if parses_u64(q) && u64_value(q) <= usize::MAX {
        let n = u64_value(q);
        if n == 0 || n > ids.len() {
            r matches Err(ResolveError::IndexOutOfRange { index, len }) && index == n && len
                == ids.len()
        } else {
            r == Ok::<usize, ResolveError>((n - 1) as usize)
        }
    } else {
        r matches Err(ResolveError::NotFound(x)) && x@ == q
    }
}

/// Resolve a query against items by id, exact name, or 1-based index.
///
/// `ids[i]` and `names[i]` are the id and name of the `i`-th item. A query
/// that equals exactly one item's id wins; otherwise an exact name match is
/// tried; otherwise a purely numeric query is treated as a 1-based index.
/// Returns the matched item's position.
pub fn resolve_index(ids: &[String], names: &[String], query: &str) -> (r: Result<
    usize,
    ResolveError,
>)
    requires
        ids.len() == names.len(),
    ensures
        resolve_ok(views(ids@), views(names@), query@, r),
        r matches Ok(i) ==> i < ids.len(),
{
    let id_matches = positions_of(ids, query);
    proof {
        lemma_match_positions(views(ids@), query@);
        lemma_match_positions(views(names@), query@);
    }
    if id_matches.len() == 1 {
        proof {
            assert(id_matches@.map_values(|i: usize| i as int)[0] == id_matches@[0] as int);
        }
        return Ok(id_matches[0]);
    }
    let name_matches = positions_of(names, query);
    if name_matches.len() == 1 {
        proof {
            assert(name_matches@.map_values(|i: usize| i as int)[0] == name_matches@[0] as int);
        }
        return Ok(name_matches[0]);
    }
    if name_matches.len() > 1 {
        let ghost nm = match_positions(views(names@), query@);
        let mut matches: Vec<String> = Vec::new();
        let mut k: usize = 0;
        while k < name_matches.len()
            invariant
                k <= name_matches.len(),
                ids.len() == names.len(),
                name_matches@.map_values(|i: usize| i as int) == nm,
                forall|j: int| 0 <= j < nm.len() ==> 0 <= #[trigger] nm[j] < names@.len(),
                views(matches@) =~= ids_at(views(ids@), nm.take(k as int)),
            decreases name_matches.len() - k,
        {
            let idx = name_matches[k];
            proof {
                assert(nm[k as int] == idx as int);
            }
            let ghost before = matches@;
            matches.push(ids[idx].clone());
            proof {
                assert(nm.take(k + 1) =~= nm.take(k as int).push(nm[k as int]));
                assert(views(matches@) =~= views(before).push(ids@[idx as int]@));
                assert(ids_at(views(ids@), nm.take(k + 1)) =~= ids_at(views(ids@), nm.take(k as int)).push(views(ids@)[nm[k as int]]));
            }
            k = k + 1;
        }
        proof {
            assert(nm.take(name_matches.len() as int) =~= nm);
        }
        return Err(ResolveError::Ambiguous { query: owned(query), matches });
    }
    match parse_u64(query) {
        Some(n) => {
            if n > usize::MAX as u64 {
                return Err(ResolveError::NotFound(owned(query)));
            }
            let index = n as usize;
            if index == 0 || index > ids.len() {
                return Err(ResolveError::IndexOutOfRange { index, len: ids.len() });
            }
            Ok(index - 1)
        },
        None => Err(ResolveError::NotFound(owned(query))),
    }
}

/// The message a resolution error displays.
pub open spec fn resolve_error_message(e: ResolveError) -> Seq<char> {
    match e {
        ResolveError::NotFound(q) => "no match for "@ + debug_str(q@),
        ResolveError::Ambiguous { query, matches } => debug_str(query@) + " is ambiguous; matches: "@ + join(
            string_views(matches@),
            ", "@,
        ),
        ResolveError::IndexOutOfRange { index, len } => "index "@ + decimal(index as nat) + " is out of range (1..="@
            + decimal(len as nat) + ")"@,
    }
}

impl ResolveError {
    /// The human-readable message of this error.
    pub fn message(&self) -> (r: String)
        ensures
            r@ == resolve_error_message(*self),
    {
        match self {
            ResolveError::NotFound(q) => {
                let mut m = owned("no match for ");
                let d = debug_quoted(q.as_str());
                push_str(&mut m, d.as_str());
                m
            },
            ResolveError::Ambiguous { query, matches } => {
                let mut m = debug_quoted(query.as_str());
                push_str(&mut m, " is ambiguous; matches: ");
                let j = join_strings(matches, ", ");
                push_str(&mut m, j.as_str());
                m
            },
            ResolveError::IndexOutOfRange { index, len } => {
                let mut m = owned("index ");
                let i = usize_to_string(*index);
                push_str(&mut m, i.as_str());
                push_str(&mut m, " is out of range (1..=");
                let l = usize_to_string(*len);
                push_str(&mut m, l.as_str());
                push_str(&mut m, ")");
                m
            },
        }
    }
}

} // verus!
