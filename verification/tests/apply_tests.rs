use tzctl::apply::{report_of, ApplyReport};
use tzctl::error::Error;
use tzctl::model::{DesiredPipeline, DesiredState, LifecycleState, PipelineId, RemotePipeline};
use tzctl::reconcile::{reconcile, ReconcileOpts};

fn desired(name: &str, def: &str, state: DesiredState) -> DesiredPipeline {
    DesiredPipeline { name: name.to_string(), definition: def.to_string(), state, node: None }
}

fn remote(id: &str, name: &str, def: &str, state: LifecycleState) -> RemotePipeline {
    RemotePipeline {
        id: PipelineId(id.to_string()),
        name: name.to_string(),
        definition: def.to_string(),
        state,
        error: None,
    }
}

#[test]
fn report_of_empty_plan_is_noop() {
    let plan = reconcile(&[], &[], ReconcileOpts::default());
    let report = report_of(&plan.actions, vec![]);
    assert_eq!(report.attempted(), 0);
    assert!(!report.has_failures());
}

#[test]
fn report_records_every_success() {
    let desired = vec![
        desired("new", "version", DesiredState::Running),
        desired("drift", "v2", DesiredState::Running),
        desired("paused-me", "version", DesiredState::Paused),
    ];
    let actual = vec![
        remote("id-drift", "drift", "v1", LifecycleState::Running),
        remote("id-pause", "paused-me", "version", LifecycleState::Running),
    ];
    let plan = reconcile(&desired, &actual, ReconcileOpts::default());
    let results = plan.actions.iter().map(|_| Ok(())).collect();
    let report = report_of(&plan.actions, results);
    assert_eq!(report.succeeded.len(), 3);
    assert!(!report.has_failures());
}

#[test]
fn report_of_pruned_delete() {
    let actual = vec![remote("id-old", "old", "version", LifecycleState::Running)];
    let plan = reconcile(&[], &actual, ReconcileOpts { prune: true });
    let report = report_of(&plan.actions, vec![Ok(())]);
    assert_eq!(report.succeeded.len(), 1);
    assert_eq!(report.succeeded[0].kind, "delete");
}

#[test]
fn report_isolates_failures() {
    let desired = vec![
        desired("new", "version", DesiredState::Stopped),
        desired("drift", "v2", DesiredState::Running),
    ];
    let actual = vec![remote("id-drift", "drift", "v1", LifecycleState::Running)];
    let plan = reconcile(&desired, &actual, ReconcileOpts::default());
    assert_eq!(plan.actions.len(), 2);
    let report = report_of(&plan.actions, vec![Ok(()), Err(Error::NodeDisconnected)]);
    assert!(report.has_failures());
    assert_eq!(report.succeeded.len(), 1);
    assert_eq!(report.succeeded[0].kind, "create");
    assert_eq!(report.failed.len(), 1);
    assert_eq!(report.failed[0].kind, "set");
    assert_eq!(report.failed[0].name, "drift");
    assert_eq!(report.failed[0].error.as_deref(), Some("the node is disconnected"));
    assert_eq!(report.attempted(), 2);
}

#[test]
fn record_keeps_order() {
    let mut report = ApplyReport::default();
    let actual = vec![
        remote("1", "a", "v", LifecycleState::Running),
        remote("2", "b", "v", LifecycleState::Running),
    ];
    let plan = reconcile(&[], &actual, ReconcileOpts { prune: true });
    report.record(&plan.actions[0], Err(Error::Other("boom".to_string())));
    report.record(&plan.actions[1], Err(Error::Other("bang".to_string())));
    assert_eq!(report.failed[0].error.as_deref(), Some("boom"));
    assert_eq!(report.failed[1].error.as_deref(), Some("bang"));
}
