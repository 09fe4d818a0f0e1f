use tzctl::model::{DesiredPipeline, DesiredState, LifecycleState, PipelineId, RemotePipeline};
use tzctl::pull::{compute_plan, render_pull_plan, Action, PullPlan};

fn remote(name: &str, def: &str, state: LifecycleState) -> RemotePipeline {
    RemotePipeline {
        id: PipelineId(format!("id-{name}")),
        name: name.to_string(),
        definition: def.to_string(),
        state,
        error: None,
    }
}

fn local(name: &str, def: &str) -> DesiredPipeline {
    DesiredPipeline { name: name.to_string(), definition: def.to_string(), state: DesiredState::Running, node: None }
}

#[test]
fn creates_new_files_for_remote_pipelines() {
    let remote = vec![remote("alpha", "version", LifecycleState::Running)];
    let plan = compute_plan("/proj", "pipelines/**/*.tql", None, &[], &[], &remote, false);
    assert_eq!(plan.actions.len(), 1);
    assert!(matches!(&plan.actions[0], Action::Create { name, .. } if name == "alpha"));
    if let Action::Create { path, content, .. } = &plan.actions[0] {
        assert!(path.ends_with("pipelines/alpha.tql"));
        assert_eq!(content, "version\n");
    }
}

#[test]
fn detects_in_sync_and_overwrite() {
    let paths = vec!["/proj/pipelines/alpha.tql".to_string(), "/proj/pipelines/beta.tql".to_string()];
    let locals = vec![local("alpha", "version"), local("beta", "old")];
    let remote = vec![
        remote("alpha", "version", LifecycleState::Running),
        remote("beta", "new", LifecycleState::Running),
    ];
    let plan = compute_plan("/proj", "pipelines/**/*.tql", None, &paths, &locals, &remote, false);
    assert_eq!(plan.in_sync, 1);
    assert_eq!(plan.actions.len(), 1);
    assert!(matches!(&plan.actions[0], Action::Overwrite { name, .. } if name == "beta"));
}

#[test]
fn orphans_are_gated_by_prune() {
    let paths = vec!["/proj/pipelines/gone.tql".to_string()];
    let locals = vec![local("gone", "version")];
    let remote: Vec<RemotePipeline> = vec![];
    let plan = compute_plan("/proj", "pipelines/**/*.tql", None, &paths, &locals, &remote, false);
    assert!(plan.actions.is_empty());
    assert_eq!(plan.orphans.len(), 1);
    let plan = compute_plan("/proj", "pipelines/**/*.tql", None, &paths, &locals, &remote, true);
    assert_eq!(plan.actions.len(), 1);
    assert!(matches!(&plan.actions[0], Action::Delete { name, .. } if name == "gone"));
}

#[test]
fn paused_pipeline_writes_state_frontmatter() {
    let remote = vec![remote("p", "version", LifecycleState::Paused)];
    let plan = compute_plan("/proj", "pipelines/**/*.tql", None, &[], &[], &remote, false);
    if let Action::Create { content, .. } = &plan.actions[0] {
        assert!(content.contains("state: paused"));
    } else {
        panic!("expected create");
    }
}

#[test]
fn pull_render_lists_changes_and_summary() {
    let plan = PullPlan {
        actions: vec![Action::Create {
            name: "a".to_string(),
            path: "p/a.tql".to_string(),
            content: "x\n".to_string(),
        }],
        orphans: vec![],
        in_sync: 2,
        prune: false,
    };
    let text = render_pull_plan(&plan);
    assert_eq!(
        text,
        format!("\x1b[32m+\x1b[39m {:<24} {:<10} p/a.tql\nPlan: 1 to create, 2 in sync.\n", "a", "create")
    );
    let empty = PullPlan { actions: vec![], orphans: vec![], in_sync: 0, prune: false };
    assert_eq!(render_pull_plan(&empty), "No changes. The project matches the platform.\n");
}
