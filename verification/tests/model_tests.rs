use tzctl::model::{
    resolve_index, transition_for, DesiredPipeline, DesiredState, LifecycleState, ResolveError,
    TenantId, TransitionAction, Workspace,
};

fn ws(id: &str, name: &str) -> Workspace {
    Workspace {
        tenant_id: TenantId(id.to_string()),
        name: name.to_string(),
    }
}

fn resolve(items: &[Workspace], q: &str) -> Result<usize, ResolveError> {
    let ids: Vec<String> = items.iter().map(|w| w.tenant_id.0.clone()).collect();
    let names: Vec<String> = items.iter().map(|w| w.name.clone()).collect();
    resolve_index(&ids, &names, q)
}

#[test]
fn resolves_by_id() {
    let items = [ws("t-aaaa1111", "prod"), ws("t-bbbb2222", "dev")];
    assert_eq!(resolve(&items, "t-bbbb2222").unwrap(), 1);
}

#[test]
fn resolves_by_name() {
    let items = [ws("t-aaaa1111", "prod"), ws("t-bbbb2222", "dev")];
    assert_eq!(resolve(&items, "prod").unwrap(), 0);
}

#[test]
fn resolves_by_index() {
    let items = [ws("t-aaaa1111", "prod"), ws("t-bbbb2222", "dev")];
    assert_eq!(resolve(&items, "2").unwrap(), 1);
}

#[test]
fn index_out_of_range() {
    let items = [ws("t-aaaa1111", "prod")];
    assert!(matches!(
        resolve(&items, "5"),
        Err(ResolveError::IndexOutOfRange { index: 5, len: 1 })
    ));
    assert!(matches!(
        resolve(&items, "0"),
        Err(ResolveError::IndexOutOfRange { .. })
    ));
}

#[test]
fn ambiguous_name() {
    let items = [ws("t-aaaa1111", "dup"), ws("t-bbbb2222", "dup")];
    assert!(matches!(
        resolve(&items, "dup"),
        Err(ResolveError::Ambiguous { .. })
    ));
}

#[test]
fn not_found() {
    let items = [ws("t-aaaa1111", "prod")];
    assert!(matches!(resolve(&items, "nope"), Err(ResolveError::NotFound(_))));
}

#[test]
fn id_takes_precedence_over_index() {
    let items = [ws("t-aaaa1111", "1"), ws("t-bbbb2222", "two")];
    assert_eq!(resolve(&items, "1").unwrap(), 0);
}

#[test]
fn create_transitions_by_desired_state() {
    let mk = |state| DesiredPipeline {
        name: "p".into(),
        definition: "version".into(),
        state,
        node: None,
    };
    assert_eq!(
        mk(DesiredState::Running).create_transitions(),
        vec![TransitionAction::Start]
    );
    assert_eq!(
        mk(DesiredState::Paused).create_transitions(),
        vec![TransitionAction::Start, TransitionAction::Pause]
    );
    assert!(mk(DesiredState::Stopped).create_transitions().is_empty());
}

#[test]
fn transition_for_is_minimal() {
    assert_eq!(transition_for(&LifecycleState::Running, DesiredState::Running), None);
    assert_eq!(transition_for(&LifecycleState::Paused, DesiredState::Paused), None);
    assert_eq!(transition_for(&LifecycleState::Stopped, DesiredState::Stopped), None);
    assert_eq!(transition_for(&LifecycleState::Completed, DesiredState::Stopped), None);
    assert_eq!(
        transition_for(&LifecycleState::Paused, DesiredState::Running),
        Some(TransitionAction::Start)
    );
    assert_eq!(
        transition_for(&LifecycleState::Running, DesiredState::Paused),
        Some(TransitionAction::Pause)
    );
    assert_eq!(
        transition_for(&LifecycleState::Running, DesiredState::Stopped),
        Some(TransitionAction::Stop)
    );
}

#[test]
fn lifecycle_state_to_desired() {
    assert_eq!(LifecycleState::Running.to_desired(), Some(DesiredState::Running));
    assert_eq!(LifecycleState::Paused.to_desired(), Some(DesiredState::Paused));
    assert_eq!(LifecycleState::Stopped.to_desired(), Some(DesiredState::Stopped));
    assert_eq!(LifecycleState::Completed.to_desired(), Some(DesiredState::Stopped));
    assert_eq!(LifecycleState::Created.to_desired(), None);
    assert_eq!(LifecycleState::Failed.to_desired(), None);
    assert_eq!(LifecycleState::Other("weird".into()).to_desired(), None);
}

#[test]
fn lifecycle_state_mapping() {
    assert_eq!(LifecycleState::from("running"), LifecycleState::Running);
    assert_eq!(LifecycleState::from("PAUSED"), LifecycleState::Paused);
    assert_eq!(LifecycleState::from("stopped"), LifecycleState::Stopped);
    match LifecycleState::from("quantum") {
        LifecycleState::Other(s) => assert_eq!(s, "quantum"),
        other => panic!("expected Other, got {other:?}"),
    }
}

#[test]
fn lifecycle_wire_names_round_trip() {
    for wire in ["created", "running", "completed", "failed", "paused", "stopped", "weird"] {
        assert_eq!(LifecycleState::from(wire).as_wire(), wire);
    }
}

#[test]
fn lifecycle_wire_round_trips() {
    let states = [
        LifecycleState::Created,
        LifecycleState::Running,
        LifecycleState::Completed,
        LifecycleState::Failed,
        LifecycleState::Paused,
        LifecycleState::Stopped,
        LifecycleState::Other("booting".to_string()),
    ];
    for s in states {
        assert_eq!(LifecycleState::from(s.as_wire()), s);
    }
    assert_eq!(LifecycleState::from(LifecycleState::Other("Running".to_string()).as_wire()), LifecycleState::Running);
}
