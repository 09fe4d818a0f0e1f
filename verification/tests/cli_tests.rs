use tzctl::cli::alert::parse_duration;
use tzctl::cli::destroy::destroy_actions;
use tzctl::cli::lifecycle::{state_change, StateCommand};
use tzctl::cli::list::{disconnected_hint, truncate_definition};
use tzctl::cli::plan::{exit_code, render};
use tzctl::cli::{confirmed, resolve_target, NodeConfigFormat};
use tzctl::config::{resolve, CliOverrides, Config, EnvOverrides};
use tzctl::error::Error;
use tzctl::model::{DesiredPipeline, DesiredState, LifecycleState, PipelineId, RemotePipeline};
use tzctl::reconcile::{reconcile, Action, Plan, ReconcileOpts};

#[test]
fn parses_durations() {
    assert_eq!(parse_duration("30s").unwrap(), 30);
    assert_eq!(parse_duration("5m").unwrap(), 300);
    assert_eq!(parse_duration("1h").unwrap(), 3600);
    assert_eq!(parse_duration("2d").unwrap(), 172800);
    assert_eq!(parse_duration("45").unwrap(), 45);
    assert!(parse_duration("0s").is_err());
    assert!(parse_duration("abc").is_err());
    assert!(parse_duration("").is_err());
}

#[test]
fn duration_error_names_the_input() {
    let e = parse_duration(" 5x ").unwrap_err();
    assert_eq!(e.message(), "configuration error: invalid duration: \" 5x \"\nhint: use a value like 30s, 5m, 1h, or 2d");
    assert_eq!(parse_duration(" 7 m ").unwrap(), 420);
}

#[test]
fn render_reports_in_sync() {
    let plan = Plan { actions: vec![], orphans: vec![], terminal: vec![], prune: false };
    assert!(render(&plan).contains("No changes"));
    assert!(!plan.has_changes());
    assert_eq!(exit_code(&plan), 0);
}

#[test]
fn render_lists_actions_and_summary() {
    let desired = vec![DesiredPipeline {
        name: "new".to_string(),
        definition: "version".to_string(),
        state: DesiredState::Paused,
        node: None,
    }];
    let actual = vec![RemotePipeline {
        id: PipelineId("id-old".to_string()),
        name: "old".to_string(),
        definition: "v".to_string(),
        state: LifecycleState::Running,
        error: None,
    }];
    let plan = reconcile(&desired, &actual, ReconcileOpts { prune: false });
    let text = render(&plan);
    let expected = format!(
        "\x1b[32m+\x1b[39m {:<24} {:<10} -> paused\n\x1b[31m-\x1b[39m {:<24} {:<10} (orphaned, needs --prune)\nPlan: 1 to create, 1 orphan.\n",
        "new", "create", "old", "delete"
    );
    assert_eq!(text, expected);
    assert_eq!(exit_code(&plan), 2);
}

#[test]
fn node_config_formats() {
    assert_eq!(NodeConfigFormat::Docker.as_wire(), "docker");
    assert_eq!(NodeConfigFormat::Tenzir.as_wire(), "tenzir");
    assert_eq!(NodeConfigFormat::TenzirNode.as_wire(), "tenzir-node");
}

#[test]
fn target_needs_workspace_then_node() {
    let config = Config::default();
    let resolved = resolve(&CliOverrides::default(), &EnvOverrides::default(), &config, None, None).unwrap();
    let e = resolve_target(&resolved).unwrap_err();
    assert!(matches!(&e.error, Error::Config(m) if m == "no workspace configured"));
    let cli = CliOverrides { workspace: Some("t-abcd1234".to_string()), ..Default::default() };
    let resolved = resolve(&cli, &EnvOverrides::default(), &config, None, None).unwrap();
    let e = resolve_target(&resolved).unwrap_err();
    assert!(matches!(&e.error, Error::Config(m) if m == "no node configured"));
    let cli = CliOverrides {
        workspace: Some("t-abcd1234".to_string()),
        node: Some("n-w2tjezz3".to_string()),
        ..Default::default()
    };
    let resolved = resolve(&cli, &EnvOverrides::default(), &config, None, None).unwrap();
    let (w, n) = resolve_target(&resolved).unwrap();
    assert_eq!(w.as_str(), "t-abcd1234");
    assert_eq!(n.as_str(), "n-w2tjezz3");
}

#[test]
fn confirmation_answers() {
    assert!(confirmed("y\n"));
    assert!(confirmed(" YES "));
    assert!(!confirmed(""));
    assert!(!confirmed("no"));
}

#[test]
fn disconnected_errors_get_a_hint() {
    let h = disconnected_hint(Error::NodeDisconnected);
    assert_eq!(h.hints.len(), 1);
    let h = disconnected_hint(Error::Other("x".to_string()));
    assert!(h.hints.is_empty());
}

#[test]
fn definitions_are_truncated() {
    assert_eq!(truncate_definition("a\n  b\tc"), "a b c");
    let long = "x".repeat(70);
    let t = truncate_definition(&long);
    assert_eq!(t.chars().count(), 60);
    assert!(t.ends_with('\u{2026}'));
}

#[test]
fn destroy_deletes_declared_pipelines_only() {
    let desired = vec![DesiredPipeline {
        name: "mine".to_string(),
        definition: "v".to_string(),
        state: DesiredState::Running,
        node: None,
    }];
    let mk = |id: &str, name: &str| RemotePipeline {
        id: PipelineId(id.to_string()),
        name: name.to_string(),
        definition: "v".to_string(),
        state: LifecycleState::Running,
        error: None,
    };
    let actual = vec![mk("1", "other"), mk("2", "mine")];
    let actions = destroy_actions(&desired, &actual);
    assert_eq!(actions.len(), 1);
    assert!(matches!(&actions[0], Action::Delete { remote, name } if remote.as_str() == "2" && name == "mine"));
}

#[test]
fn start_is_a_no_op_when_running() {
    let p = RemotePipeline {
        id: PipelineId("pid".to_string()),
        name: "p".to_string(),
        definition: "v".to_string(),
        state: LifecycleState::Running,
        error: None,
    };
    let (send, result) = state_change(StateCommand::Start, "p", &p);
    assert!(!send);
    assert_eq!(result.note.as_deref(), Some("already running"));
    let (send, result) = state_change(StateCommand::Stop, "p", &p);
    assert!(send);
    assert_eq!(result.action, "stop");
    assert!(result.note.is_none());
}

#[test]
fn duration_fits_guards_overflow() {
    assert!(tzctl::cli::alert::duration_fits("30s"));
    assert!(tzctl::cli::alert::duration_fits("abc"));
    assert!(tzctl::cli::alert::duration_fits("213503982334601d"));
    assert!(!tzctl::cli::alert::duration_fits("213503982334602d"));
    assert!(!tzctl::cli::alert::duration_fits("18446744073709551615m"));
}
