use tzctl::model::{DesiredPipeline, DesiredState, LifecycleState, PipelineId, RemotePipeline, TransitionAction};
use tzctl::reconcile::{reconcile, Action, ReconcileOpts};

fn desired(name: &str, def: &str, state: DesiredState) -> DesiredPipeline {
    DesiredPipeline {
        name: name.to_string(),
        definition: def.to_string(),
        state,
        node: None,
    }
}

fn remote(id: &str, name: &str, def: &str, state: LifecycleState) -> RemotePipeline {
    RemotePipeline {
        id: PipelineId(id.to_string()),
        name: name.to_string(),
        definition: def.to_string(),
        state,
        error: None,
    }
}

#[test]
fn create_when_desired_only() {
    let plan = reconcile(
        &[desired("a", "version", DesiredState::Running)],
        &[],
        ReconcileOpts::default(),
    );
    assert_eq!(plan.actions.len(), 1);
    assert!(matches!(plan.actions[0], Action::Create(_)));
    assert!(plan.has_changes());
}

#[test]
fn no_op_when_in_sync() {
    let plan = reconcile(
        &[desired("a", "version", DesiredState::Running)],
        &[remote("id1", "a", "version", LifecycleState::Running)],
        ReconcileOpts::default(),
    );
    assert!(plan.actions.is_empty());
    assert!(!plan.has_changes());
}

#[test]
fn set_on_definition_drift() {
    let plan = reconcile(
        &[desired("a", "version | head", DesiredState::Running)],
        &[remote("id1", "a", "version", LifecycleState::Running)],
        ReconcileOpts::default(),
    );
    assert_eq!(plan.counts().set, 1);
    match &plan.actions[0] {
        Action::SetDefinition { remote, to } => {
            assert_eq!(remote.as_str(), "id1");
            assert_eq!(to.definition, "version | head");
        }
        other => panic!("expected Set, got {other:?}"),
    }
}

#[test]
fn whitespace_only_diff_is_not_drift() {
    let plan = reconcile(
        &[desired("a", "  version \n", DesiredState::Running)],
        &[remote("id1", "a", "version", LifecycleState::Running)],
        ReconcileOpts::default(),
    );
    assert!(plan.actions.is_empty());
}

#[test]
fn transition_on_state_mismatch() {
    let plan = reconcile(
        &[desired("a", "version", DesiredState::Paused)],
        &[remote("id1", "a", "version", LifecycleState::Running)],
        ReconcileOpts::default(),
    );
    assert_eq!(plan.counts().transition, 1);
    match &plan.actions[0] {
        Action::Transition { action, to, .. } => {
            assert_eq!(*action, TransitionAction::Pause);
            assert_eq!(*to, DesiredState::Paused);
        }
        other => panic!("expected Transition, got {other:?}"),
    }
}

#[test]
fn drift_and_transition_together_are_ordered() {
    let plan = reconcile(
        &[desired("a", "v2", DesiredState::Paused)],
        &[remote("id1", "a", "v1", LifecycleState::Running)],
        ReconcileOpts::default(),
    );
    assert!(matches!(plan.actions[0], Action::SetDefinition { .. }));
    assert!(matches!(plan.actions[1], Action::Transition { .. }));
}

#[test]
fn orphan_gated_without_prune() {
    let plan = reconcile(
        &[],
        &[remote("id1", "old", "version", LifecycleState::Running)],
        ReconcileOpts::default(),
    );
    assert!(plan.actions.is_empty());
    assert_eq!(plan.orphans.len(), 1);
    assert!(plan.has_changes());
}

#[test]
fn orphan_deleted_with_prune() {
    let plan = reconcile(
        &[],
        &[remote("id1", "old", "version", LifecycleState::Running)],
        ReconcileOpts { prune: true },
    );
    assert_eq!(plan.counts().delete, 1);
    assert!(matches!(plan.actions[0], Action::Delete { .. }));
}

#[test]
fn rename_is_delete_then_create_ordered() {
    let plan = reconcile(
        &[desired("new", "version", DesiredState::Running)],
        &[remote("id1", "old", "version", LifecycleState::Running)],
        ReconcileOpts { prune: true },
    );
    assert_eq!(plan.actions.len(), 2);
    assert!(matches!(plan.actions[0], Action::Delete { .. }));
    assert!(matches!(plan.actions[1], Action::Create(_)));
}

#[test]
fn terminal_state_is_reported_not_forced() {
    let plan = reconcile(
        &[desired("a", "version", DesiredState::Running)],
        &[remote("id1", "a", "version", LifecycleState::Failed)],
        ReconcileOpts::default(),
    );
    assert!(plan.actions.is_empty());
    assert_eq!(plan.terminal.len(), 1);
    assert_eq!(plan.terminal[0].state, LifecycleState::Failed);
    assert!(!plan.has_changes());
}

#[test]
fn terminal_state_still_sets_on_drift() {
    let plan = reconcile(
        &[desired("a", "v2", DesiredState::Running)],
        &[remote("id1", "a", "v1", LifecycleState::Failed)],
        ReconcileOpts::default(),
    );
    assert_eq!(plan.counts().set, 1);
    assert_eq!(plan.terminal.len(), 1);
}

/// The node after `action` took effect, as the platform carries it out.
fn carry_out(node: &mut Vec<RemotePipeline>, action: &Action, fresh: &str) {
    match action {
        Action::Create(d) => {
            let mut state = LifecycleState::Created;
            for t in d.create_transitions() {
                state = match t {
                    TransitionAction::Start => LifecycleState::Running,
                    TransitionAction::Pause => LifecycleState::Paused,
                    TransitionAction::Stop => LifecycleState::Stopped,
                };
            }
            node.push(remote(fresh, &d.name, &d.definition, state));
        }
        Action::SetDefinition { remote, to } => {
            for p in node.iter_mut().filter(|p| p.id.as_str() == remote.as_str()) {
                p.definition = to.definition.clone();
            }
        }
        Action::Delete { remote, .. } => node.retain(|p| p.id.as_str() != remote.as_str()),
        Action::Transition { remote, action, .. } => {
            for p in node.iter_mut().filter(|p| p.id.as_str() == remote.as_str()) {
                p.state = match action {
                    TransitionAction::Start => LifecycleState::Running,
                    TransitionAction::Pause => LifecycleState::Paused,
                    TransitionAction::Stop => LifecycleState::Stopped,
                };
            }
        }
    }
}

#[test]
fn applied_plan_converges() {
    let want = [
        desired("a", "version | head", DesiredState::Running),
        desired("b", "version", DesiredState::Paused),
        desired("c", "from \"x\"", DesiredState::Stopped),
        desired("d", "version", DesiredState::Running),
    ];
    let mut node = vec![
        remote("id1", "a", "version", LifecycleState::Running),
        remote("id2", "orphan", "version", LifecycleState::Running),
        remote("id3", "c", "from \"x\"", LifecycleState::Running),
        remote("id4", "d", "version", LifecycleState::Failed),
    ];
    let plan = reconcile(&want, &node, ReconcileOpts { prune: true });
    assert!(plan.has_changes());
    for (i, action) in plan.actions.iter().enumerate() {
        carry_out(&mut node, action, &format!("new{i}"));
    }
    let again = reconcile(&want, &node, ReconcileOpts { prune: true });
    assert!(again.actions.is_empty());
    assert!(!again.has_changes());
    assert_eq!(node.len(), 4);
}

#[test]
fn created_stopped_pipeline_is_stopped_on_the_next_plan() {
    let want = [desired("c", "version", DesiredState::Stopped)];
    let mut node = Vec::new();
    let plan = reconcile(&want, &node, ReconcileOpts::default());
    for action in &plan.actions {
        carry_out(&mut node, action, "new0");
    }
    assert_eq!(node[0].state, LifecycleState::Created);
    let again = reconcile(&want, &node, ReconcileOpts::default());
    assert_eq!(again.counts().transition, 1);
}
