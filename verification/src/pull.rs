//! Planning `project pull`: the inverse of `apply`, reconciling the local
//! project directory to match the pipelines on the node.
//!
//! Remote pipelines with no local file are written; those whose local file
//! differs are overwritten; local files with no matching pipeline are deleted
//! (with `--prune`) or reported as orphans.

use vstd::prelude::*;
use crate::ext::{bold_fg_painted, fg_painted, green_bold, red_bold, yellow};
use crate::symbols::{ERR, OK};
use crate::model::{DesiredPipeline, DesiredState, LifecycleState, RemotePipeline, spec_to_desired};
use crate::paths::{file_stem, glob_base_dir, path_file_stem, push_component, spec_glob_base_dir};
use crate::project::frontmatter::{render, rendered, Frontmatter};
use crate::text::{
    char_views, chars_eq, join, law_stable_order_sorts, lex_lt, owned, chars_of, lower_chars, lower_seq, push_str,
    sorted_order, stable_order,
    decimal, str_eq, string_views, trim, trim_chars, usize_to_string,
};

verus! {

/// A single planned filesystem change.
#[derive(Debug, Clone, PartialEq, Eq)]
pub enum Action {
    /// Write a new file for a remote pipeline with no local counterpart.
    Create { name: String, path: String, content: String },
    /// Overwrite a local file whose content differs from the platform.
    Overwrite { name: String, path: String, content: String },
    /// Delete a local file with no matching pipeline on the platform.
    Delete { name: String, path: String },
}

/// A local file with no matching pipeline on the platform, left in place.
#[derive(Debug, Clone, PartialEq, Eq)]
pub struct OrphanFile {
    /// The pipeline name.
    pub name: String,
    /// The file path.
    pub path: String,
}

/// The full set of changes `pull` would apply.
#[derive(Debug, Clone, PartialEq, Eq)]
pub struct PullPlan {
    /// The ordered file changes: creates, overwrites, deletes, each by name.
    pub actions: Vec<Action>,
    /// Local files with no matching pipeline that are *not* deleted (no
    /// `--prune`), reported for visibility.
    pub orphans: Vec<OrphanFile>,
    /// The number of remote pipelines already in sync with local files.
    pub in_sync: usize,
    /// Whether pruning was requested.
    pub prune: bool,
}

/// What a planned change is, as plain text.
pub ghost enum Step {
    Create { name: Seq<char>, path: Seq<char>, content: Seq<char> },
    Overwrite { name: Seq<char>, path: Seq<char>, content: Seq<char> },
    Delete { name: Seq<char>, path: Seq<char> },
}

/// The plain-text view of a planned change.
pub open spec fn step_of(a: Action) -> Step {
    match a {
        Action::Create { name, path, content } => Step::Create { name: name@, path: path@, content: content@ },
        Action::Overwrite { name, path, content } => Step::Overwrite {
            name: name@,
            path: path@,
            content: content@,
        },
        Action::Delete { name, path } => Step::Delete { name: name@, path: path@ },
    }
}

/// The pipeline name a step concerns.
pub open spec fn step_name(s: Step) -> Seq<char> {
    match s {
        Step::Create { name, .. } => name,
        Step::Overwrite { name, .. } => name,
        Step::Delete { name, .. } => name,
    }
}

impl Action {
    /// The pipeline name this action concerns.
    pub fn name(&self) -> (r: &str)
        ensures
            r@ == step_name(step_of(*self)),
    {
        match self {
            Action::Create { name, .. } | Action::Overwrite { name, .. } | Action::Delete { name, .. } => name.as_str(),
        }
    }

    /// Whether this action mutates or removes an existing file.
    pub fn is_destructive(&self) -> (r: bool)
        ensures
            r == !(*self is Create),
    {
        match self {
            Action::Create { .. } => false,
            _ => true,
        }
    }
}

impl PullPlan {
    /// Whether the plan would change anything on disk.
    pub fn has_changes(&self) -> (r: bool)
        ensures
            r == (self.actions.len() > 0),
    {
        !self.actions.is_empty()
    }
}

/// A stable sort rank so plans list creates, then overwrites, then deletes.
pub fn action_rank(action: &Action) -> (r: u8)
    ensures
        r == match *action {
            Action::Create { .. } => 0u8,
            Action::Overwrite { .. } => 1u8,
            Action::Delete { .. } => 2u8,
        },
{
    match action {
        Action::Create { .. } => 0,
        Action::Overwrite { .. } => 1,
        Action::Delete { .. } => 2,
    }
}

/// The configured default state for pulled files: `paused` or `stopped`
/// (case-insensitively), otherwise running.
pub open spec fn pull_default(s: Option<Seq<char>>) -> DesiredState {
    match s {
        Some(x) => if lower_seq(x) == "paused"@ {
            DesiredState::Paused
        } else if lower_seq(x) == "stopped"@ {
            DesiredState::Stopped
        } else {
            DesiredState::Running
        },
        None => DesiredState::Running,
    }
}

/// Map the configured default-state string to a [`DesiredState`].
pub fn parse_default_state(s: Option<&str>) -> (r: DesiredState)
    ensures
        r == pull_default(
            match s {
                Some(x) => Some(x@),
                None => None,
            },
        ),
{
    match s {
        Some(x) => {
            let l = lower_chars(x);
            if chars_eq(&l, &chars_of("paused")) {
                DesiredState::Paused
            } else if chars_eq(&l, &chars_of("stopped")) {
                DesiredState::Stopped
            } else {
                DesiredState::Running
            }
        },
        None => DesiredState::Running,
    }
}

/// The frontmatter written for a pulled pipeline at `path`: the name only when
/// it differs from the file stem, the state only when it is declarable and
/// differs from the project default.
pub open spec fn pulled_frontmatter(p: RemotePipeline, path: Seq<char>, ds: DesiredState) -> Frontmatter {
    Frontmatter {
        name: if file_stem(path) == Some(p.name@) {
            None
        } else {
            Some(p.name)
        },
        description: None,
        state: match spec_to_desired(p.state) {
            Some(s) => if s != ds {
                Some(s)
            } else {
                None
            },
            None => None,
        },
        node: None,
    }
}

/// Render a remote pipeline as `.tql` file contents.
///
/// The `name` field is written only when it differs from the file stem, and
/// the `state` field only when the observed state maps to a declarable desired
/// state that differs from the project default.
pub fn render_pipeline(pipeline: &RemotePipeline, path: &str, default_state: DesiredState) -> (r: String)
    ensures
        r@ == rendered(pulled_frontmatter(*pipeline, path@, default_state), pipeline.definition@),
{
    let name = match path_file_stem(path) {
        Some(stem) => if str_eq(stem.as_str(), pipeline.name.as_str()) {
            None
        } else {
            Some(pipeline.name.clone())
        },
        None => Some(pipeline.name.clone()),
    };
    let state = match pipeline.state.to_desired() {
        Some(s) => if s != default_state {
            Some(s)
        } else {
            None
        },
        None => None,
    };
    let fm = Frontmatter { name, description: None, state, node: None };
    proof {
        assert(fm == pulled_frontmatter(*pipeline, path@, default_state));
    }
    render(&fm, pipeline.definition.as_str())
}

/// The position of the last local pipeline named `name`, if any.
pub open spec fn last_local(local: Seq<DesiredPipeline>, name: Seq<char>) -> Option<int>
    decreases local.len(),
{
    if local.len() == 0 {
        None
    } else if local.last().name@ == name {
        Some(local.len() - 1)
    } else {
        last_local(local.drop_last(), name)
    }
}

/// Whether some remote pipeline is named `name`.
pub open spec fn on_remote(remote: Seq<RemotePipeline>, name: Seq<char>) -> bool {
    exists|i: int| 0 <= i < remote.len() && (#[trigger] remote[i]).name@ == name
}

/// The run-state a pulled pipeline is compared in: its declarable state, else
/// the project default.
pub open spec fn effective_state(p: RemotePipeline, ds: DesiredState) -> DesiredState {
    match spec_to_desired(p.state) {
        Some(s) => s,
        None => ds,
    }
}

/// Whether a local pipeline already matches a remote one.
pub open spec fn synced(d: DesiredPipeline, p: RemotePipeline, ds: DesiredState) -> bool {
    d.definition@ == trim(p.definition@) && d.state == effective_state(p, ds)
}

/// The path a new file for `name` gets under `base`.
pub open spec fn new_path(base: Seq<char>, name: Seq<char>) -> Seq<char> {
    push_component(base, name + ".tql"@)
}

/// The create owed to a remote pipeline without a local file.
pub open spec fn create_step(local: Seq<DesiredPipeline>, base: Seq<char>, ds: DesiredState, p: RemotePipeline) -> Seq<Step> {
    match last_local(local, p.name@) {
        None => seq![
            Step::Create {
                name: p.name@,
                path: new_path(base, p.name@),
                content: rendered(pulled_frontmatter(p, new_path(base, p.name@), ds), p.definition@),
            },
        ],
        Some(_) => seq![],
    }
}

/// The overwrite owed to a remote pipeline whose local file differs.
pub open spec fn overwrite_step(
    local: Seq<DesiredPipeline>,
    paths: Seq<Seq<char>>,
    ds: DesiredState,
    p: RemotePipeline,
) -> Seq<Step> {
    match last_local(local, p.name@) {
        Some(i) => if synced(local[i], p, ds) {
            seq![]
        } else {
            seq![
                Step::Overwrite {
                    name: p.name@,
                    path: paths[i],
                    content: rendered(pulled_frontmatter(p, paths[i], ds), p.definition@),
                },
            ]
        },
        None => seq![],
    }
}

/// The delete owed to the `i`-th local file when pruning.
pub open spec fn delete_step(
    local: Seq<DesiredPipeline>,
    paths: Seq<Seq<char>>,
    remote: Seq<RemotePipeline>,
    prune: bool,
    i: int,
) -> Seq<Step> {
    if prune && !on_remote(remote, local[i].name@) {
        seq![Step::Delete { name: local[i].name@, path: paths[i] }]
    } else {
        seq![]
    }
}

/// The orphan report owed to the `i`-th local file without pruning.
pub open spec fn orphan_step(
    local: Seq<DesiredPipeline>,
    paths: Seq<Seq<char>>,
    remote: Seq<RemotePipeline>,
    prune: bool,
    i: int,
) -> Seq<(Seq<char>, Seq<char>)> {
    if !prune && !on_remote(remote, local[i].name@) {
        seq![(local[i].name@, paths[i])]
    } else {
        seq![]
    }
}

/// The number of remote pipelines whose local file already matches.
pub open spec fn count_synced(local: Seq<DesiredPipeline>, remote: Seq<RemotePipeline>, ds: DesiredState) -> nat
    decreases remote.len(),
{
    if remote.len() == 0 {
        0
    } else {
        count_synced(local, remote.drop_last(), ds) + match last_local(local, remote.last().name@) {
            Some(i) => if synced(local[i], remote.last(), ds) {
                1nat
            } else {
                0nat
            },
            None => 0nat,
        }
    }
}

/// `s` sorted by name, ties kept in order.
pub open spec fn sort_steps(s: Seq<Step>) -> Seq<Step> {
    stable_order(s.map_values(|x: Step| step_name(x)), s.len() as int).map_values(|i: int| s[i])
}

/// `s` sorted by name (the first component), ties kept in order.
pub open spec fn sort_pairs(s: Seq<(Seq<char>, Seq<char>)>) -> Seq<(Seq<char>, Seq<char>)> {
    stable_order(s.map_values(|x: (Seq<char>, Seq<char>)| x.0), s.len() as int).map_values(
        |i: int| s[i],
    )
}

/// The positions `0..n`.
pub open spec fn upto(n: int) -> Seq<int> {
    Seq::new(n as nat, |i: int| i)
}

/// The planned changes: creates, overwrites, deletes, each sorted by name.
pub open spec fn pull_steps(
    local: Seq<DesiredPipeline>,
    paths: Seq<Seq<char>>,
    remote: Seq<RemotePipeline>,
    base: Seq<char>,
    ds: DesiredState,
    prune: bool,
) -> Seq<Step> {
    sort_steps(crate::reconcile::gather(remote, |p: RemotePipeline| create_step(local, base, ds, p)))
        + sort_steps(
        crate::reconcile::gather(remote, |p: RemotePipeline| overwrite_step(local, paths, ds, p)),
    ) + sort_steps(
        crate::reconcile::gather(
            upto(local.len() as int),
            |i: int| delete_step(local, paths, remote, prune, i),
        ),
    )
}

/// The orphans reported: unmatched local files without pruning, by name.
pub open spec fn pull_orphans(
    local: Seq<DesiredPipeline>,
    paths: Seq<Seq<char>>,
    remote: Seq<RemotePipeline>,
    prune: bool,
) -> Seq<(Seq<char>, Seq<char>)> {
    sort_pairs(
        crate::reconcile::gather(
            upto(local.len() as int),
            |i: int| orphan_step(local, paths, remote, prune, i),
        ),
    )
}

/// The plain-text view of an orphan.
pub open spec fn orphan_of(o: OrphanFile) -> (Seq<char>, Seq<char>) {
    (o.name@, o.path@)
}

fn last_local_index(local: &[DesiredPipeline], name: &str) -> (r: Option<usize>)
    ensures
        r matches Some(i) ==> last_local(local@, name@) == Some(i as int) && i < local.len(),
        r is None ==> last_local(local@, name@) is None,
{
    let mut i = local.len();
    proof {
        assert(local@.take(local.len() as int) =~= local@);
    }
    while i > 0
        invariant
            i <= local.len(),
            last_local(local@, name@) == last_local(local@.take(i as int), name@),
        decreases i,
    {
        proof {
            assert(local@.take(i as int).drop_last() =~= local@.take(i - 1));
            assert(local@.take(i as int).last() == local@[i - 1]);
        }
        if str_eq(local[i - 1].name.as_str(), name) {
            return Some(i - 1);
        }
        i = i - 1;
    }
    proof {
        assert(local@.take(0) =~= Seq::<DesiredPipeline>::empty());
    }
    None
}

proof fn lemma_last_local(local: Seq<DesiredPipeline>, name: Seq<char>)
    ensures
        last_local(local, name) matches Some(i) ==> 0 <= i < local.len(),
    decreases local.len(),
{
    if local.len() > 0 {
        lemma_last_local(local.drop_last(), name);
    }
}

fn remote_has(remote: &[RemotePipeline], name: &str) -> (r: bool)
    ensures
        r == on_remote(remote@, name@),
{
    let mut i: usize = 0;
    while i < remote.len()
        invariant
            i <= remote.len(),
            forall|k: int| 0 <= k < i ==> (#[trigger] remote@[k]).name@ != name@,
        decreases remote.len() - i,
    {
        if str_eq(remote[i].name.as_str(), name) {
            return true;
        }
        i = i + 1;
    }
    false
}

fn copy_action(a: &Action) -> (r: Action)
    ensures
        r == *a,
{
    match a {
        Action::Create { name, path, content } => Action::Create {
            name: name.clone(),
            path: path.clone(),
            content: content.clone(),
        },
        Action::Overwrite { name, path, content } => Action::Overwrite {
            name: name.clone(),
            path: path.clone(),
            content: content.clone(),
        },
        Action::Delete { name, path } => Action::Delete { name: name.clone(), path: path.clone() },
    }
}

/// `actions` sorted by name, ties kept in order.
fn sort_actions(actions: &Vec<Action>) -> (r: Vec<Action>)
    ensures
        r@.map_values(|a: Action| step_of(a)) == sort_steps(actions@.map_values(|a: Action| step_of(a))),
{
    let ghost steps = actions@.map_values(|a: Action| step_of(a));
    let mut keys: Vec<Vec<char>> = Vec::new();
    let mut i: usize = 0;
    while i < actions.len()
        invariant
            i <= actions.len(),
            steps == actions@.map_values(|a: Action| step_of(a)),
            char_views(keys@) =~= steps.map_values(|x: Step| step_name(x)).take(i as int),
        decreases actions.len() - i,
    {
        let k = chars_of(actions[i].name());
        let ghost before = char_views(keys@);
        keys.push(k);
        proof {
            assert(char_views(keys@) =~= before.push(step_name(steps[i as int])));
            assert(steps.map_values(|x: Step| step_name(x)).take(i + 1) =~= steps.map_values(
                |x: Step| step_name(x),
            ).take(i as int).push(step_name(steps[i as int])));
        }
        i = i + 1;
    }
    proof {
        assert(steps.map_values(|x: Step| step_name(x)).take(actions.len() as int) =~= steps.map_values(
            |x: Step| step_name(x),
        ));
    }
    let order = sorted_order(&keys);
    let ghost o = stable_order(char_views(keys@), keys.len() as int);
    let mut r: Vec<Action> = Vec::new();
    let mut k: usize = 0;
    while k < order.len()
        invariant
            k <= order.len() == keys.len() == actions.len(),
            steps == actions@.map_values(|a: Action| step_of(a)),
            order@.map_values(|i: usize| i as int) == o,
            forall|j: int| 0 <= j < order.len() ==> #[trigger] order@[j] < keys.len(),
            r@.map_values(|a: Action| step_of(a)) =~= o.take(k as int).map_values(|i: int| steps[i]),
        decreases order.len() - k,
    {
        let idx = order[k];
        proof {
            assert(o[k as int] == idx as int);
        }
        let ghost before = r@.map_values(|a: Action| step_of(a));
        r.push(copy_action(&actions[idx]));
        proof {
            assert(o.take(k + 1) =~= o.take(k as int).push(o[k as int]));
            assert(r@.map_values(|a: Action| step_of(a)) =~= before.push(steps[idx as int]));
            assert(o.take(k + 1).map_values(|i: int| steps[i]) =~= o.take(k as int).map_values(
                |i: int| steps[i],
            ).push(steps[o[k as int]]));
        }
        k = k + 1;
    }
    proof {
        assert(o.take(order.len() as int) =~= o);
    }
    r
}

/// `orphans` sorted by name, ties kept in order.
fn sort_orphans(orphans: &Vec<OrphanFile>) -> (r: Vec<OrphanFile>)
    ensures
        r@.map_values(|o: OrphanFile| orphan_of(o)) == sort_pairs(orphans@.map_values(|o: OrphanFile| orphan_of(o))),
{
    let ghost pairs = orphans@.map_values(|o: OrphanFile| orphan_of(o));
    let mut keys: Vec<Vec<char>> = Vec::new();
    let mut i: usize = 0;
    while i < orphans.len()
        invariant
            i <= orphans.len(),
            pairs == orphans@.map_values(|o: OrphanFile| orphan_of(o)),
            char_views(keys@) =~= pairs.map_values(|x: (Seq<char>, Seq<char>)| x.0).take(i as int),
        decreases orphans.len() - i,
    {
        let k = chars_of(orphans[i].name.as_str());
        let ghost before = char_views(keys@);
        keys.push(k);
        proof {
            assert(char_views(keys@) =~= before.push(pairs[i as int].0));
            assert(pairs.map_values(|x: (Seq<char>, Seq<char>)| x.0).take(i + 1) =~= pairs.map_values(
                |x: (Seq<char>, Seq<char>)| x.0,
            ).take(i as int).push(pairs[i as int].0));
        }
        i = i + 1;
    }
    proof {
        assert(pairs.map_values(|x: (Seq<char>, Seq<char>)| x.0).take(orphans.len() as int) =~= pairs.map_values(
            |x: (Seq<char>, Seq<char>)| x.0,
        ));
    }
    let order = sorted_order(&keys);
    let ghost o = stable_order(char_views(keys@), keys.len() as int);
    let mut r: Vec<OrphanFile> = Vec::new();
    let mut k: usize = 0;
    while k < order.len()
        invariant
            k <= order.len() == keys.len() == orphans.len(),
            pairs == orphans@.map_values(|o: OrphanFile| orphan_of(o)),
            order@.map_values(|i: usize| i as int) == o,
            forall|j: int| 0 <= j < order.len() ==> #[trigger] order@[j] < keys.len(),
            r@.map_values(|o: OrphanFile| orphan_of(o)) =~= o.take(k as int).map_values(|i: int| pairs[i]),
        decreases order.len() - k,
    {
        let idx = order[k];
        proof {
            assert(o[k as int] == idx as int);
        }
        let ghost before = r@.map_values(|o: OrphanFile| orphan_of(o));
        r.push(OrphanFile { name: orphans[idx].name.clone(), path: orphans[idx].path.clone() });
        proof {
            assert(o.take(k + 1) =~= o.take(k as int).push(o[k as int]));
            assert(r@.map_values(|o: OrphanFile| orphan_of(o)) =~= before.push(pairs[idx as int]));
            assert(o.take(k + 1).map_values(|i: int| pairs[i]) =~= o.take(k as int).map_values(
                |i: int| pairs[i],
            ).push(pairs[o[k as int]]));
        }
        k = k + 1;
    }
    proof {
        assert(o.take(order.len() as int) =~= o);
    }
    r
}

/// Build the pull plan by diffing remote pipelines against the project's
/// local files.
///
/// `local[i]` is the pipeline loaded from `paths[i]`; new files go under the
/// static prefix of `pipelines_glob` in `project_root`.
pub fn compute_plan(
    project_root: &str,
    pipelines_glob: &str,
    default_state: Option<&str>,
    paths: &[String],
    local: &[DesiredPipeline],
    remote: &[RemotePipeline],
    prune: bool,
) -> (plan: PullPlan)
    requires
        paths.len() == local.len(),
    ensures
        ({
            let ds = pull_default(
                match default_state {
                    Some(x) => Some(x@),
                    None => None,
                },
            );
            let base = spec_glob_base_dir(project_root@, pipelines_glob@);
            let ps = paths@.map_values(|p: String| p@);
            &&& plan.actions@.map_values(|a: Action| step_of(a)) == pull_steps(local@, ps, remote@, base, ds, prune)
            &&& plan.orphans@.map_values(|o: OrphanFile| orphan_of(o)) == pull_orphans(local@, ps, remote@, prune)
            &&& plan.in_sync == count_synced(local@, remote@, ds)
            &&& plan.prune == prune
        }),
{
    let ds = parse_default_state(default_state);
    let base = glob_base_dir(project_root, pipelines_glob);
    let ghost ps = paths@.map_values(|p: String| p@);
    let ghost fc = |p: RemotePipeline| create_step(local@, base@, ds, p);
    let ghost fo = |p: RemotePipeline| overwrite_step(local@, ps, ds, p);
    let ghost fdel = |i: int| delete_step(local@, ps, remote@, prune, i);
    let ghost forph = |i: int| orphan_step(local@, ps, remote@, prune, i);

    let mut creates: Vec<Action> = Vec::new();
    let mut overwrites: Vec<Action> = Vec::new();
    let mut in_sync: usize = 0;
    let mut j: usize = 0;
    while j < remote.len()
        invariant
            j <= remote.len(),
            paths.len() == local.len(),
            ps == paths@.map_values(|p: String| p@),
            fc == (|p: RemotePipeline| create_step(local@, base@, ds, p)),
            fo == (|p: RemotePipeline| overwrite_step(local@, ps, ds, p)),
            creates@.map_values(|a: Action| step_of(a)) == crate::reconcile::gather(remote@.take(j as int), fc),
            overwrites@.map_values(|a: Action| step_of(a)) == crate::reconcile::gather(remote@.take(j as int), fo),
            in_sync == count_synced(local@, remote@.take(j as int), ds),
            in_sync <= j,
        decreases remote.len() - j,
    {
        let p = &remote[j];
        let ghost c0 = creates@.map_values(|a: Action| step_of(a));
        let ghost o0 = overwrites@.map_values(|a: Action| step_of(a));
        proof {
            let t = remote@.take(j + 1);
            assert(t.drop_last() =~= remote@.take(j as int));
            assert(t.last() == remote@[j as int]);
            lemma_last_local(local@, p.name@);
        }
        match last_local_index(local, p.name.as_str()) {
            Some(i) => {
                let path = paths[i].as_str();
                let content = render_pipeline(p, path, ds);
                let effective = match p.state.to_desired() {
                    Some(s) => s,
                    None => ds,
                };
                let def_trim = trim_chars(&chars_of(p.definition.as_str()));
                if chars_eq(&chars_of(local[i].definition.as_str()), &def_trim) && local[i].state == effective {
                    in_sync = in_sync + 1;
                } else {
                    overwrites.push(Action::Overwrite { name: p.name.clone(), path: paths[i].clone(), content });
                }
                proof {
                    assert(ps[i as int] == paths@[i as int]@);
                    assert(creates@.map_values(|a: Action| step_of(a)) =~= c0 + fc(*p));
                    assert(overwrites@.map_values(|a: Action| step_of(a)) =~= o0 + fo(*p));
                }
            },
            None => {
                let mut file = p.name.clone();
                push_str(&mut file, ".tql");
                let mut bv = chars_of(base.as_str());
                let fv = chars_of(file.as_str());
                crate::paths::push_component_exec(&mut bv, &fv);
                let path = crate::text::string_of(&bv);
                let content = render_pipeline(p, path.as_str(), ds);
                creates.push(Action::Create { name: p.name.clone(), path, content });
                proof {
                    assert(creates@.map_values(|a: Action| step_of(a)) =~= c0 + fc(*p));
                    assert(overwrites@.map_values(|a: Action| step_of(a)) =~= o0 + fo(*p));
                }
            },
        }
        j = j + 1;
    }

    let mut deletes: Vec<Action> = Vec::new();
    let mut orphans: Vec<OrphanFile> = Vec::new();
    let mut i: usize = 0;
    while i < local.len()
        invariant
            i <= local.len(),
            paths.len() == local.len(),
            ps == paths@.map_values(|p: String| p@),
            fdel == (|i: int| delete_step(local@, ps, remote@, prune, i)),
            forph == (|i: int| orphan_step(local@, ps, remote@, prune, i)),
            deletes@.map_values(|a: Action| step_of(a)) == crate::reconcile::gather(upto(local.len() as int).take(i as int), fdel),
            orphans@.map_values(|o: OrphanFile| orphan_of(o)) == crate::reconcile::gather(upto(local.len() as int).take(i as int), forph),
        decreases local.len() - i,
    {
        let ghost d0 = deletes@.map_values(|a: Action| step_of(a));
        let ghost r0 = orphans@.map_values(|o: OrphanFile| orphan_of(o));
        proof {
            let t = upto(local.len() as int).take(i + 1);
            assert(t.drop_last() =~= upto(local.len() as int).take(i as int));
            assert(t.last() == i as int);
            assert(ps[i as int] == paths@[i as int]@);
        }
        if !remote_has(remote, local[i].name.as_str()) {
            if prune {
                deletes.push(Action::Delete { name: local[i].name.clone(), path: paths[i].clone() });
            } else {
                orphans.push(OrphanFile { name: local[i].name.clone(), path: paths[i].clone() });
            }
        }
        proof {
            assert(deletes@.map_values(|a: Action| step_of(a)) =~= d0 + fdel(i as int));
            assert(orphans@.map_values(|o: OrphanFile| orphan_of(o)) =~= r0 + forph(i as int));
        }
        i = i + 1;
    }
    proof {
        assert(remote@.take(remote.len() as int) =~= remote@);
        assert(upto(local.len() as int).take(local.len() as int) =~= upto(local.len() as int));
    }

    let mut actions = sort_actions(&creates);
    let mut sorted_overwrites = sort_actions(&overwrites);
    let mut sorted_deletes = sort_actions(&deletes);
    let ghost a0 = actions@;
    let ghost a1 = sorted_overwrites@;
    let ghost a2 = sorted_deletes@;
    actions.append(&mut sorted_overwrites);
    actions.append(&mut sorted_deletes);
    proof {
        assert(actions@ =~= a0 + a1 + a2);
        assert(actions@.map_values(|a: Action| step_of(a)) =~= a0.map_values(|a: Action| step_of(a)) + a1.map_values(
            |a: Action| step_of(a),
        ) + a2.map_values(|a: Action| step_of(a)));
    }
    let sorted_orphans = sort_orphans(&orphans);
    PullPlan { actions, orphans: sorted_orphans, in_sync, prune }
}


// --- rendering ----------------------------------------------------------------

/// The diff line of a file change.
pub open spec fn pull_action_line(a: Action) -> Seq<char> {
    match a {
        Action::Create { name, path, .. } => crate::cli::plan::line_head(crate::ext::fg_painted("32"@, "+"@), name@, "create"@)
            + " "@ + path@,
        Action::Overwrite { name, path, .. } => crate::cli::plan::line_head(crate::ext::fg_painted("33"@, "~"@), name@, "overwrite"@)
            + " "@ + path@,
        Action::Delete { name, path } => crate::cli::plan::line_head(crate::ext::fg_painted("31"@, "-"@), name@, "delete"@)
            + " "@ + path@,
    }
}

/// The diff lines of the file changes, each ending in a newline.
pub open spec fn pull_actions_text(s: Seq<Action>) -> Seq<char>
    decreases s.len(),
{
    if s.len() == 0 {
        seq![]
    } else {
        pull_actions_text(s.drop_last()) + pull_action_line(s.last()) + "\n"@
    }
}

/// The lines of orphaned files that are kept without `--prune`.
pub open spec fn pull_orphans_text(s: Seq<OrphanFile>) -> Seq<char>
    decreases s.len(),
{
    if s.len() == 0 {
        seq![]
    } else {
        pull_orphans_text(s.drop_last()) + crate::cli::plan::line_head(crate::ext::fg_painted("31"@, "-"@), s.last().name@, "delete"@)
            + " "@ + s.last().path@ + " (orphaned, needs --prune)\n"@
    }
}

/// The number of file changes of one kind (0 create, 1 overwrite, 2 delete).
pub open spec fn count_kind(s: Seq<Action>, kind: int) -> nat
    decreases s.len(),
{
    if s.len() == 0 {
        0
    } else {
        count_kind(s.drop_last(), kind) + if pull_kind(s.last()) == kind { 1nat } else { 0nat }
    }
}

/// The kind of a file change: 0 create, 1 overwrite, 2 delete.
pub open spec fn pull_kind(a: Action) -> int {
    match a {
        Action::Create { .. } => 0,
        Action::Overwrite { .. } => 1,
        Action::Delete { .. } => 2,
    }
}

/// The parts of the summary line of a pull plan.
pub open spec fn pull_summary_parts(plan: PullPlan) -> Seq<Seq<char>> {
    let parts = crate::cli::plan::count_part(count_kind(plan.actions@, 0), " to create"@)
        + crate::cli::plan::count_part(count_kind(plan.actions@, 1), " to overwrite"@)
        + crate::cli::plan::count_part(count_kind(plan.actions@, 2), " to delete"@)
        + crate::cli::plan::count_part(plan.orphans@.len(), " orphan"@)
        + crate::cli::plan::count_part(plan.in_sync as nat, " in sync"@);
    if parts.len() == 0 {
        seq!["no changes"@]
    } else {
        parts
    }
}

/// The summary line of a pull plan.
pub open spec fn pull_summary_text(plan: PullPlan) -> Seq<char> {
    "Plan: "@ + join(pull_summary_parts(plan), ", "@) + "."@
}

/// The whole rendering of a pull plan: the file changes, the kept orphans,
/// then the in-sync message or the summary line.
pub open spec fn pull_plan_text(plan: PullPlan) -> Seq<char> {
    pull_actions_text(plan.actions@) + pull_orphans_text(plan.orphans@) + if plan.actions@.len() == 0
        && plan.orphans@.len() == 0 {
        "No changes. The project matches the platform.\n"@
    } else {
        pull_summary_text(plan) + "\n"@
    }
}

proof fn lemma_count_kind_bound(s: Seq<Action>, kind: int)
    ensures
        count_kind(s, kind) <= s.len(),
    decreases s.len(),
{
    if s.len() > 0 {
        lemma_count_kind_bound(s.drop_last(), kind);
    }
}

/// Render the trailing summary line of a pull plan.
pub fn pull_summary(plan: &PullPlan) -> (r: String)
    ensures
        r@ == pull_summary_text(*plan),
{
    let mut creates: usize = 0;
    let mut overwrites: usize = 0;
    let mut deletes: usize = 0;
    let mut i: usize = 0;
    while i < plan.actions.len()
        invariant
            i <= plan.actions.len(),
            creates == count_kind(plan.actions@.take(i as int), 0),
            overwrites == count_kind(plan.actions@.take(i as int), 1),
            deletes == count_kind(plan.actions@.take(i as int), 2),
        decreases plan.actions.len() - i,
    {
        proof {
            assert(plan.actions@.take(i + 1).drop_last() =~= plan.actions@.take(i as int));
            lemma_count_kind_bound(plan.actions@.take(i as int), 0);
            lemma_count_kind_bound(plan.actions@.take(i as int), 1);
            lemma_count_kind_bound(plan.actions@.take(i as int), 2);
        }
        match &plan.actions[i] {
            Action::Create { .. } => creates = creates + 1,
            Action::Overwrite { .. } => overwrites = overwrites + 1,
            Action::Delete { .. } => deletes = deletes + 1,
        }
        i = i + 1;
    }
    proof {
        assert(plan.actions@.take(plan.actions@.len() as int) =~= plan.actions@);
    }
    let mut parts: Vec<String> = Vec::new();
    crate::cli::plan::push_count(&mut parts, creates, " to create");
    crate::cli::plan::push_count(&mut parts, overwrites, " to overwrite");
    crate::cli::plan::push_count(&mut parts, deletes, " to delete");
    crate::cli::plan::push_count(&mut parts, plan.orphans.len(), " orphan");
    crate::cli::plan::push_count(&mut parts, plan.in_sync, " in sync");
    proof {
        assert(crate::text::string_views(parts@) =~= crate::cli::plan::count_part(count_kind(plan.actions@, 0), " to create"@)
            + crate::cli::plan::count_part(count_kind(plan.actions@, 1), " to overwrite"@)
            + crate::cli::plan::count_part(count_kind(plan.actions@, 2), " to delete"@)
            + crate::cli::plan::count_part(plan.orphans@.len(), " orphan"@)
            + crate::cli::plan::count_part(plan.in_sync as nat, " in sync"@));
    }
    if parts.len() == 0 {
        parts.push(owned("no changes"));
        proof {
            assert(crate::text::string_views(parts@) =~= seq!["no changes"@]);
        }
    }
    let mut out = owned("Plan: ");
    let joined = crate::text::join_strings(&parts, ", ");
    push_str(&mut out, joined.as_str());
    push_str(&mut out, ".");
    out
}

/// Render a pull plan as a stable, reviewable diff.
pub fn render_pull_plan(plan: &PullPlan) -> (r: String)
    ensures
        r@ == pull_plan_text(*plan),
{
    let mut out = String::new();
    let mut i: usize = 0;
    while i < plan.actions.len()
        invariant
            i <= plan.actions.len(),
            out@ == pull_actions_text(plan.actions@.take(i as int)),
        decreases plan.actions.len() - i,
    {
        proof {
            assert(plan.actions@.take(i + 1).drop_last() =~= plan.actions@.take(i as int));
        }
        let ghost before = out@;
        match &plan.actions[i] {
            Action::Create { name, path, .. } => {
                let m = crate::ext::green("+");
                crate::cli::plan::push_head(&mut out, m.as_str(), name.as_str(), "create");
                push_str(&mut out, " ");
                push_str(&mut out, path.as_str());
            },
            Action::Overwrite { name, path, .. } => {
                let m = crate::ext::yellow("~");
                crate::cli::plan::push_head(&mut out, m.as_str(), name.as_str(), "overwrite");
                push_str(&mut out, " ");
                push_str(&mut out, path.as_str());
            },
            Action::Delete { name, path } => {
                let m = crate::ext::red("-");
                crate::cli::plan::push_head(&mut out, m.as_str(), name.as_str(), "delete");
                push_str(&mut out, " ");
                push_str(&mut out, path.as_str());
            },
        }
        push_str(&mut out, "\n");
        proof {
            assert(out@ =~= before + pull_action_line(plan.actions@[i as int]) + "\n"@);
        }
        i = i + 1;
    }
    proof {
        assert(plan.actions@.take(plan.actions@.len() as int) =~= plan.actions@);
    }
    let ghost after_actions = out@;
    let mut j: usize = 0;
    while j < plan.orphans.len()
        invariant
            j <= plan.orphans.len(),
            out@ == after_actions + pull_orphans_text(plan.orphans@.take(j as int)),
        decreases plan.orphans.len() - j,
    {
        proof {
            assert(plan.orphans@.take(j + 1).drop_last() =~= plan.orphans@.take(j as int));
        }
        let m = crate::ext::red("-");
        crate::cli::plan::push_head(&mut out, m.as_str(), plan.orphans[j].name.as_str(), "delete");
        push_str(&mut out, " ");
        push_str(&mut out, plan.orphans[j].path.as_str());
        push_str(&mut out, " (orphaned, needs --prune)\n");
        j = j + 1;
    }
    proof {
        assert(plan.orphans@.take(plan.orphans@.len() as int) =~= plan.orphans@);
    }
    if !plan.has_changes() && plan.orphans.len() == 0 {
        push_str(&mut out, "No changes. The project matches the platform.\n");
        return out;
    }
    let s = pull_summary(plan);
    push_str(&mut out, s.as_str());
    push_str(&mut out, "\n");
    out
}


// --- the order of a pull plan ----------------------------------------------------

/// The group a planned change is listed in: creates, overwrites, deletes.
pub open spec fn step_rank(s: Step) -> int {
    match s {
        Step::Create { .. } => 0,
        Step::Overwrite { .. } => 1,
        Step::Delete { .. } => 2,
    }
}

/// Sorting one group of changes keeps the group and orders it by name.
proof fn lemma_sort_steps(s: Seq<Step>, r: int)
    requires
        forall|k: int| 0 <= k < s.len() ==> step_rank(#[trigger] s[k]) == r,
    ensures
        sort_steps(s).len() == s.len(),
        forall|k: int| 0 <= k < s.len() ==> step_rank(#[trigger] sort_steps(s)[k]) == r,
        forall|i: int, j: int|
            0 <= i < j < s.len() ==> !lex_lt(step_name(#[trigger] sort_steps(s)[j]), step_name(#[trigger] sort_steps(s)[i])),
{
    let keys = s.map_values(|x: Step| step_name(x));
    let n = s.len() as int;
    law_stable_order_sorts(keys, n);
    let o = stable_order(keys, n);
    let t = sort_steps(s);
    assert(t == o.map_values(|i: int| s[i]));
    assert forall|k: int| 0 <= k < n implies #[trigger] t[k] == s[o[k]] && step_name(t[k]) == keys[o[k]] by {}
    assert forall|k: int| 0 <= k < n implies step_rank(#[trigger] t[k]) == r by {
        assert(t[k] == s[o[k]]);
    }
    assert forall|i: int, j: int| 0 <= i < j < n implies !lex_lt(step_name(#[trigger] t[j]), step_name(#[trigger] t[i])) by {
        assert(t[i] == s[o[i]] && t[j] == s[o[j]]);
        assert(step_name(t[i]) == keys[o[i]] && step_name(t[j]) == keys[o[j]]);
    }
}

/// A pull plan lists its creates first, then its overwrites, then its
/// deletes, and each group in ascending order of pipeline name.
pub proof fn law_pull_plan_ordered(
    local: Seq<DesiredPipeline>,
    paths: Seq<Seq<char>>,
    remote: Seq<RemotePipeline>,
    base: Seq<char>,
    ds: DesiredState,
    prune: bool,
)
    ensures
        ({
            let s = pull_steps(local, paths, remote, base, ds, prune);
            forall|i: int, j: int|
                0 <= i < j < s.len() ==> step_rank(#[trigger] s[i]) <= step_rank(#[trigger] s[j]) && (step_rank(s[i])
                    == step_rank(s[j]) ==> !lex_lt(step_name(s[j]), step_name(s[i])))
        }),
{
    let fc = |p: RemotePipeline| create_step(local, base, ds, p);
    let fo = |p: RemotePipeline| overwrite_step(local, paths, ds, p);
    let fd = |i: int| delete_step(local, paths, remote, prune, i);
    let gc = crate::reconcile::gather(remote, fc);
    let go = crate::reconcile::gather(remote, fo);
    let gd = crate::reconcile::gather(upto(local.len() as int), fd);
    crate::reconcile::lemma_gather_elements(remote, fc, |x: Step| step_rank(x) == 0);
    crate::reconcile::lemma_gather_elements(remote, fo, |x: Step| step_rank(x) == 1);
    assert forall|i: int, k: int| 0 <= i < upto(local.len() as int).len() && 0 <= k < fd(upto(local.len() as int)[i]).len()
        implies step_rank(#[trigger] fd(upto(local.len() as int)[i])[k]) == 2 by {}
    crate::reconcile::lemma_gather_elements(upto(local.len() as int), fd, |x: Step| step_rank(x) == 2);
    assert forall|k: int| 0 <= k < gc.len() implies step_rank(#[trigger] gc[k]) == 0 by {}
    assert forall|k: int| 0 <= k < go.len() implies step_rank(#[trigger] go[k]) == 1 by {}
    assert forall|k: int| 0 <= k < gd.len() implies step_rank(#[trigger] gd[k]) == 2 by {}
    lemma_sort_steps(gc, 0);
    lemma_sort_steps(go, 1);
    lemma_sort_steps(gd, 2);
    let a = sort_steps(gc);
    let b = sort_steps(go);
    let c = sort_steps(gd);
    let s = pull_steps(local, paths, remote, base, ds, prune);
    assert(s == a + b + c);
    let na = a.len() as int;
    let nb = b.len() as int;
    assert forall|k: int| 0 <= k < s.len() implies #[trigger] s[k] == if k < na {
        a[k]
    } else if k < na + nb {
        b[k - na]
    } else {
        c[k - na - nb]
    } && step_rank(s[k]) == if k < na {
        0int
    } else if k < na + nb {
        1int
    } else {
        2int
    } by {
        if k < na {
        } else if k < na + nb {
            assert(step_rank(b[k - na]) == 1);
        } else {
            assert(step_rank(c[k - na - nb]) == 2);
        }
    }
    assert forall|i: int, j: int| 0 <= i < j < s.len() implies step_rank(#[trigger] s[i]) <= step_rank(#[trigger] s[j]) && (
    step_rank(s[i]) == step_rank(s[j]) ==> !lex_lt(step_name(s[j]), step_name(s[i]))) by {
        if j < na {
            assert(s[i] == a[i] && s[j] == a[j]);
        } else if i >= na && j < na + nb {
            assert(s[i] == b[i - na] && s[j] == b[j - na]);
        } else if i >= na + nb {
            assert(s[i] == c[i - na - nb] && s[j] == c[j - na - nb]);
        }
    }
}

/// Why a planned change is owed: a create for a remote pipeline without a
/// local file, an overwrite for one whose file differs, a delete (only with
/// `--prune`) for a file whose pipeline is gone from the node.
pub open spec fn step_justified(
    local: Seq<DesiredPipeline>,
    paths: Seq<Seq<char>>,
    remote: Seq<RemotePipeline>,
    ds: DesiredState,
    prune: bool,
    s: Step,
) -> bool {
    match s {
        Step::Create { name, .. } => on_remote(remote, name) && last_local(local, name) is None,
        Step::Overwrite { name, path, .. } => exists|j: int|
            0 <= j < remote.len() && (#[trigger] remote[j]).name@ == name && (last_local(local, name) matches Some(
                i,
            ) && path == paths[i] && !synced(local[i], remote[j], ds)),
        Step::Delete { name, path } => prune && !on_remote(remote, name) && exists|i: int|
            0 <= i < local.len() && (#[trigger] local[i]).name@ == name && paths[i] == path,
    }
}

/// The elements of a sorted group are elements of the group.
proof fn lemma_sort_steps_elements(s: Seq<Step>, p: spec_fn(Step) -> bool)
    requires
        forall|k: int| 0 <= k < s.len() ==> p(#[trigger] s[k]),
    ensures
        forall|k: int| 0 <= k < sort_steps(s).len() ==> p(#[trigger] sort_steps(s)[k]),
{
    let keys = s.map_values(|x: Step| step_name(x));
    law_stable_order_sorts(keys, s.len() as int);
    let o = stable_order(keys, s.len() as int);
    assert forall|k: int| 0 <= k < sort_steps(s).len() implies p(#[trigger] sort_steps(s)[k]) by {
        assert(sort_steps(s)[k] == s[o[k]]);
    }
}

/// Every change a pull plans is owed: files are created only for remote
/// pipelines without one, overwritten only where they differ from the node,
/// and deleted only with `--prune` when their pipeline is gone.
pub proof fn law_pull_changes_are_owed(
    local: Seq<DesiredPipeline>,
    paths: Seq<Seq<char>>,
    remote: Seq<RemotePipeline>,
    base: Seq<char>,
    ds: DesiredState,
    prune: bool,
)
    requires
        paths.len() == local.len(),
    ensures
        forall|k: int|
            0 <= k < pull_steps(local, paths, remote, base, ds, prune).len() ==> step_justified(
                local,
                paths,
                remote,
                ds,
                prune,
                #[trigger] pull_steps(local, paths, remote, base, ds, prune)[k],
            ),
{
    let just = |x: Step| step_justified(local, paths, remote, ds, prune, x);
    let fc = |p: RemotePipeline| create_step(local, base, ds, p);
    let fo = |p: RemotePipeline| overwrite_step(local, paths, ds, p);
    let ups = upto(local.len() as int);
    let fd = |i: int| delete_step(local, paths, remote, prune, i);
    assert forall|j: int, k: int| 0 <= j < remote.len() && 0 <= k < fc(remote[j]).len() implies just(
        #[trigger] fc(remote[j])[k],
    ) by {
        assert(on_remote(remote, remote[j].name@));
    }
    assert forall|j: int, k: int| 0 <= j < remote.len() && 0 <= k < fo(remote[j]).len() implies just(
        #[trigger] fo(remote[j])[k],
    ) by {
        lemma_last_local(local, remote[j].name@);
    }
    assert forall|j: int, k: int| 0 <= j < ups.len() && 0 <= k < fd(ups[j]).len() implies just(
        #[trigger] fd(ups[j])[k],
    ) by {
        assert(ups[j] == j);
    }
    crate::reconcile::lemma_gather_elements(remote, fc, just);
    crate::reconcile::lemma_gather_elements(remote, fo, just);
    crate::reconcile::lemma_gather_elements(ups, fd, just);
    let gc = crate::reconcile::gather(remote, fc);
    let go = crate::reconcile::gather(remote, fo);
    let gd = crate::reconcile::gather(ups, fd);
    lemma_sort_steps_elements(gc, just);
    lemma_sort_steps_elements(go, just);
    lemma_sort_steps_elements(gd, just);
    let a = sort_steps(gc);
    let b = sort_steps(go);
    let c = sort_steps(gd);
    let s = pull_steps(local, paths, remote, base, ds, prune);
    assert(s == a + b + c);
    assert forall|k: int| 0 <= k < s.len() implies just(#[trigger] s[k]) by {
        if k < a.len() {
            assert(s[k] == a[k]);
        } else if k < a.len() + b.len() {
            assert(s[k] == b[k - a.len()]);
        } else {
            assert(s[k] == c[k - a.len() - b.len()]);
        }
    }
}

// --- executing a pull -----------------------------------------------------------

/// What writing a pull plan to disk did.
#[derive(Debug)]
pub struct PullReport {
    /// Pipelines whose file was created.
    pub created: Vec<String>,
    /// Pipelines whose file was overwritten.
    pub overwritten: Vec<String>,
    /// Pipelines whose file was deleted.
    pub deleted: Vec<String>,
    /// Pipelines whose change the user declined.
    pub skipped: Vec<String>,
    /// The number of file changes that failed.
    pub failed: usize,
    /// The messages of the failures, in order.
    pub errors: Vec<String>,
}

impl Default for PullReport {
    fn default() -> (r: Self)
        ensures
            r.created@.len() == 0 && r.overwritten@.len() == 0 && r.deleted@.len() == 0 && r.skipped@.len() == 0
                && r.failed == 0 && r.errors@.len() == 0,
    {
        PullReport {
            created: Vec::new(),
            overwritten: Vec::new(),
            deleted: Vec::new(),
            skipped: Vec::new(),
            failed: 0,
            errors: Vec::new(),
        }
    }
}

/// The name of the pipeline a file change is about.
pub open spec fn pull_action_name(a: Action) -> Seq<char> {
    match a {
        Action::Create { name, .. } => name@,
        Action::Overwrite { name, .. } => name@,
        Action::Delete { name, .. } => name@,
    }
}

/// The confirmation prompt before a destructive file change, if it is one.
pub open spec fn pull_prompt(a: Action) -> Option<Seq<char>> {
    match a {
        Action::Create { .. } => None,
        Action::Overwrite { path, .. } => Some(crate::ext::fg_painted("31"@, "!"@) + " Overwrite "@ + path@ + "?"@),
        Action::Delete { path, .. } => Some(crate::ext::fg_painted("31"@, "!"@) + " Delete "@ + path@ + "?"@),
    }
}

/// The prompt to confirm a file change with, when it is destructive
/// (overwrites and deletes).
pub fn confirmation_prompt(action: &Action) -> (r: Option<String>)
    ensures
        match pull_prompt(*action) {
            Some(p) => r matches Some(s) && s@ == p,
            None => r is None,
        },
{
    match action {
        Action::Create { .. } => None,
        Action::Overwrite { path, .. } => {
            let mut s = crate::ext::red("!");
            push_str(&mut s, " Overwrite ");
            push_str(&mut s, path.as_str());
            push_str(&mut s, "?");
            Some(s)
        },
        Action::Delete { path, .. } => {
            let mut s = crate::ext::red("!");
            push_str(&mut s, " Delete ");
            push_str(&mut s, path.as_str());
            push_str(&mut s, "?");
            Some(s)
        },
    }
}

impl PullReport {
    /// Record that the user declined a change.
    pub fn skip(&mut self, action: &Action)
        ensures
            final(self).skipped@.len() == old(self).skipped@.len() + 1,
            final(self).skipped@.last()@ == pull_action_name(*action),
            final(self).skipped@.take(old(self).skipped@.len() as int) == old(self).skipped@,
            final(self).created == old(self).created,
            final(self).overwritten == old(self).overwritten,
            final(self).deleted == old(self).deleted,
            final(self).failed == old(self).failed,
            final(self).errors == old(self).errors,
    {
        let name = match action {
            Action::Create { name, .. } => name,
            Action::Overwrite { name, .. } => name,
            Action::Delete { name, .. } => name,
        };
        self.skipped.push(owned(name.as_str()));
        proof {
            assert(self.skipped@.take(old(self).skipped@.len() as int) =~= old(self).skipped@);
        }
    }

    /// Record the outcome of a file change: its pipeline joins the list of its
    /// kind, or the failure is counted with its message.
    pub fn record(&mut self, action: &Action, result: Result<(), String>)
        requires
            old(self).failed < usize::MAX,
        ensures
            final(self).skipped == old(self).skipped,
            result is Err ==> final(self).failed == old(self).failed + 1
                && final(self).errors@ == old(self).errors@.push(result->Err_0)
                && final(self).created == old(self).created
                && final(self).overwritten == old(self).overwritten
                && final(self).deleted == old(self).deleted,
            result is Ok ==> final(self).failed == old(self).failed && final(self).errors == old(self).errors
                && match *action {
                    Action::Create { name, .. } => final(self).created@.len() == old(self).created@.len() + 1
                        && final(self).created@.last()@ == name@
                        && final(self).created@.take(old(self).created@.len() as int) == old(self).created@
                        && final(self).overwritten == old(self).overwritten && final(self).deleted == old(self).deleted,
                    Action::Overwrite { name, .. } => final(self).overwritten@.len() == old(self).overwritten@.len() + 1
                        && final(self).overwritten@.last()@ == name@
                        && final(self).overwritten@.take(old(self).overwritten@.len() as int) == old(self).overwritten@
                        && final(self).created == old(self).created && final(self).deleted == old(self).deleted,
                    Action::Delete { name, .. } => final(self).deleted@.len() == old(self).deleted@.len() + 1
                        && final(self).deleted@.last()@ == name@
                        && final(self).deleted@.take(old(self).deleted@.len() as int) == old(self).deleted@
                        && final(self).created == old(self).created && final(self).overwritten == old(self).overwritten,
                },
    {
        match result {
            Ok(()) => match action {
                Action::Create { name, .. } => {
                    self.created.push(owned(name.as_str()));
                    proof {
                        assert(self.created@.take(old(self).created@.len() as int) =~= old(self).created@);
                    }
                },
                Action::Overwrite { name, .. } => {
                    self.overwritten.push(owned(name.as_str()));
                    proof {
                        assert(self.overwritten@.take(old(self).overwritten@.len() as int) =~= old(self).overwritten@);
                    }
                },
                Action::Delete { name, .. } => {
                    self.deleted.push(owned(name.as_str()));
                    proof {
                        assert(self.deleted@.take(old(self).deleted@.len() as int) =~= old(self).deleted@);
                    }
                },
            },
            Err(e) => {
                self.failed = self.failed + 1;
                self.errors.push(e);
            },
        }
    }

    /// The exit code of a pull: `3` when some file change failed.
    pub fn exit_code(&self) -> (r: u8)
        ensures
            r == if self.failed > 0 { 3u8 } else { 0u8 },
    {
        if self.failed > 0 { 3 } else { 0 }
    }
}


// --- the printed pull report -----------------------------------------------------

/// The lines `prefix` + name, one per name, in order.
pub open spec fn prefixed_lines(prefix: Seq<char>, names: Seq<Seq<char>>) -> Seq<char>
    decreases names.len(),
{
    if names.len() == 0 {
        seq![]
    } else {
        prefixed_lines(prefix, names.drop_last()) + prefix + names.last() + "\n"@
    }
}

/// The text printed after a pull: a bold green check for each file created,
/// overwritten or deleted, a yellow dash for each skipped one, a bold red
/// cross for each failure, then the totals.
pub open spec fn pull_report_text_of(r: PullReport) -> Seq<char> {
    let ok = bold_fg_painted("32"@, OK@);
    prefixed_lines(ok + " created "@, string_views(r.created@)) + prefixed_lines(ok + " overwrote "@, string_views(r.overwritten@))
        + prefixed_lines(ok + " deleted "@, string_views(r.deleted@)) + prefixed_lines(
        fg_painted("33"@, "-"@) + " skipped "@,
        string_views(r.skipped@),
    ) + prefixed_lines(bold_fg_painted("31"@, ERR@) + " "@, string_views(r.errors@)) + "Pulled: "@ + decimal(r.created@.len())
        + " created, "@ + decimal(r.overwritten@.len()) + " overwritten, "@ + decimal(r.deleted@.len()) + " deleted, "@
        + decimal(r.skipped@.len()) + " skipped, "@ + decimal(r.failed as nat) + " failed.\n"@
}

fn push_prefixed_lines(out: &mut String, prefix: &str, names: &Vec<String>)
    ensures
        final(out)@ == old(out)@ + prefixed_lines(prefix@, string_views(names@)),
{
    let ghost vs = string_views(names@);
    let ghost start = out@;
    let mut i: usize = 0;
    while i < names.len()
        invariant
            i <= names.len(),
            vs == string_views(names@),
            out@ == start + prefixed_lines(prefix@, vs.take(i as int)),
        decreases names.len() - i,
    {
        let ghost before = out@;
        push_str(out, prefix);
        push_str(out, names[i].as_str());
        push_str(out, "\n");
        proof {
            let t = vs.take(i + 1);
            assert(t.drop_last() =~= vs.take(i as int));
            assert(t.last() == names@[i as int]@);
            assert(out@ =~= before + prefix@ + names@[i as int]@ + "\n"@);
        }
        i = i + 1;
    }
    proof {
        assert(vs.take(names.len() as int) =~= vs);
    }
}

/// The text printed after a pull.
pub fn pull_report_text(report: &PullReport) -> (r: String)
    ensures
        r@ == pull_report_text_of(*report),
{
    let mut out = String::new();
    let ok = green_bold(OK);
    let mut p = ok.clone();
    push_str(&mut p, " created ");
    push_prefixed_lines(&mut out, p.as_str(), &report.created);
    let mut p = ok.clone();
    push_str(&mut p, " overwrote ");
    push_prefixed_lines(&mut out, p.as_str(), &report.overwritten);
    let mut p = ok.clone();
    push_str(&mut p, " deleted ");
    push_prefixed_lines(&mut out, p.as_str(), &report.deleted);
    let mut p = yellow("-");
    push_str(&mut p, " skipped ");
    push_prefixed_lines(&mut out, p.as_str(), &report.skipped);
    let mut p = red_bold(ERR);
    push_str(&mut p, " ");
    push_prefixed_lines(&mut out, p.as_str(), &report.errors);
    push_str(&mut out, "Pulled: ");
    let n = usize_to_string(report.created.len());
    push_str(&mut out, n.as_str());
    push_str(&mut out, " created, ");
    let n = usize_to_string(report.overwritten.len());
    push_str(&mut out, n.as_str());
    push_str(&mut out, " overwritten, ");
    let n = usize_to_string(report.deleted.len());
    push_str(&mut out, n.as_str());
    push_str(&mut out, " deleted, ");
    let n = usize_to_string(report.skipped.len());
    push_str(&mut out, n.as_str());
    push_str(&mut out, " skipped, ");
    let n = usize_to_string(report.failed);
    push_str(&mut out, n.as_str());
    push_str(&mut out, " failed.\n");
    proof {
        assert(out@ =~= pull_report_text_of(*report));
    }
    out
}


// --- what a pull owes every pipeline --------------------------------------------

/// A pulled file loads back to the node's pipeline: its frontmatter name, or
/// else its file stem, is the pipeline's name, and its frontmatter state, or
/// else the project default, is the node's declarable state (the default
/// where the node's state has none).
pub proof fn law_pulled_file_loads_back(p: RemotePipeline, path: Seq<char>, ds: DesiredState)
    ensures
        match pulled_frontmatter(p, path, ds).name {
            Some(n) => Some(n@),
            None => file_stem(path),
        } == Some(p.name@),
        match pulled_frontmatter(p, path, ds).state {
            Some(s) => s,
            None => ds,
        } == match spec_to_desired(p.state) {
            Some(s) => s,
            None => ds,
        },
        pulled_frontmatter(p, path, ds).node is None,
{
}

/// A pull counts a remote pipeline as in sync exactly when it has a local
/// file whose definition equals the node's trimmed definition and whose
/// state equals the node's declarable state (the project default where the
/// node's state has none).
pub proof fn law_in_sync_needs_definition_and_state(
    local: Seq<DesiredPipeline>,
    remote: Seq<RemotePipeline>,
    ds: DesiredState,
)
    ensures
        count_synced(local, Seq::<RemotePipeline>::empty(), ds) == 0,
        remote.len() > 0 ==> count_synced(local, remote, ds) == count_synced(local, remote.drop_last(), ds) + if (
        last_local(local, remote.last().name@) matches Some(i) && local[i].definition@ == trim(remote.last().definition@)
            && local[i].state == match spec_to_desired(remote.last().state) {
            Some(s) => s,
            None => ds,
        }) {
            1nat
        } else {
            0nat
        },
{
}

/// Every remote pipeline whose local file differs from it, in trimmed
/// definition or in run-state (against the node's declarable state, or the
/// project default where the node's state has none), gets an overwrite of
/// that file with the node's definition under the frontmatter that loads
/// back to it.
pub proof fn law_pull_overwrites_every_difference(
    local: Seq<DesiredPipeline>,
    paths: Seq<Seq<char>>,
    remote: Seq<RemotePipeline>,
    base: Seq<char>,
    ds: DesiredState,
    prune: bool,
    j: int,
)
    requires
        paths.len() == local.len(),
        0 <= j < remote.len(),
    ensures
        match last_local(local, remote[j].name@) {
            Some(i) => !(local[i].definition@ == trim(remote[j].definition@) && local[i].state == match spec_to_desired(
                remote[j].state,
            ) {
                Some(s) => s,
                None => ds,
            }) ==> exists|k: int|
                0 <= k < pull_steps(local, paths, remote, base, ds, prune).len() && #[trigger] pull_steps(
                    local,
                    paths,
                    remote,
                    base,
                    ds,
                    prune,
                )[k] == (Step::Overwrite {
                    name: remote[j].name@,
                    path: paths[i],
                    content: rendered(pulled_frontmatter(remote[j], paths[i], ds), remote[j].definition@),
                }),
            None => true,
        },
{
    if let Some(i) = last_local(local, remote[j].name@) {
        let p = remote[j];
        if !(local[i].definition@ == trim(p.definition@) && local[i].state == match spec_to_desired(p.state) {
            Some(s) => s,
            None => ds,
        }) {
            let fc = |q: RemotePipeline| create_step(local, base, ds, q);
            let fo = |q: RemotePipeline| overwrite_step(local, paths, ds, q);
            let fd = |x: int| delete_step(local, paths, remote, prune, x);
            let gc = crate::reconcile::gather(remote, fc);
            let go = crate::reconcile::gather(remote, fo);
            let gd = crate::reconcile::gather(upto(local.len() as int), fd);
            let step = Step::Overwrite {
                name: p.name@,
                path: paths[i],
                content: rendered(pulled_frontmatter(p, paths[i], ds), p.definition@),
            };
            assert(fo(p) =~= seq![step]);
            crate::converge::lemma_gather_contains(remote, fo, j, 0);
            let m = choose|m: int| 0 <= m < go.len() && #[trigger] go[m] == fo(remote[j])[0];
            let ko = go.map_values(|x: Step| step_name(x));
            let kc = gc.map_values(|x: Step| step_name(x));
            crate::text::lemma_stable_order(ko, go.len() as int);
            crate::text::lemma_stable_order(kc, gc.len() as int);
            crate::text::lemma_stable_order_covers(ko, go.len() as int, m);
            let o = stable_order(ko, go.len() as int);
            let k = choose|k: int| 0 <= k < go.len() && #[trigger] o[k] == m;
            assert(sort_steps(go)[k] == step);
            let all = pull_steps(local, paths, remote, base, ds, prune);
            assert(all == sort_steps(gc) + sort_steps(go) + sort_steps(gd));
            assert(all[sort_steps(gc).len() + k] == step);
        }
    }
}


/// A pull overwrites only files that differ from the node: every overwrite
/// names a remote pipeline whose local file (the last one of that name, at
/// the overwritten path) differs in trimmed definition or in run-state.
pub proof fn law_pull_overwrites_only_differences(
    local: Seq<DesiredPipeline>,
    paths: Seq<Seq<char>>,
    remote: Seq<RemotePipeline>,
    base: Seq<char>,
    ds: DesiredState,
    prune: bool,
    k: int,
)
    requires
        paths.len() == local.len(),
        0 <= k < pull_steps(local, paths, remote, base, ds, prune).len(),
        pull_steps(local, paths, remote, base, ds, prune)[k] is Overwrite,
    ensures
        exists|j: int|
            0 <= j < remote.len() && (#[trigger] remote[j]).name@ == step_name(pull_steps(local, paths, remote, base, ds, prune)[k])
                && match last_local(local, remote[j].name@) {
                Some(i) => pull_steps(local, paths, remote, base, ds, prune)[k]->Overwrite_path == paths[i] && !(
                local[i].definition@ == trim(remote[j].definition@) && local[i].state == match spec_to_desired(
                    remote[j].state,
                ) {
                    Some(s) => s,
                    None => ds,
                }),
                None => false,
            },
{
    law_pull_changes_are_owed(local, paths, remote, base, ds, prune);
    let st = pull_steps(local, paths, remote, base, ds, prune)[k];
    assert(step_justified(local, paths, remote, ds, prune, st));
}

} // verus!
