use tzctl::client::session::InvitationInfo;
use tzctl::model::{LifecycleState, Node, NodeId, PipelineId, RemotePipeline, TenantId, Workspace};
use tzctl::status::{diagnostic_line, status_text, Diagnostic, DiagnosticCounts, Severity, StatusRange};
use tzctl::apply::{report_text, ActionOutcome, ApplyReport, ReportStyle};
use tzctl::pull::{pull_report_text, PullReport};

fn invitation(id: &str, status: Option<&str>, role: Option<&str>, label: Option<&str>) -> InvitationInfo {
    InvitationInfo {
        invitation_id: id.to_string(),
        status: status.map(str::to_string),
        label: label.map(str::to_string),
        role: role.map(str::to_string),
    }
}

#[test]
fn empty_lists_have_a_note() {
    assert_eq!(tzctl::cli::workspace::render_table(&[]), "No workspaces available.");
    assert_eq!(tzctl::cli::node::render_table(&[]), "No nodes in this workspace.");
    assert_eq!(tzctl::cli::list::render_table(&[]), "No pipelines on this node.");
    assert_eq!(tzctl::cli::workspace::render_invitations(&[]), "No invitations.");
    assert_eq!(tzctl::cli::org::render_invitations(&[]), "No invitations.");
}

#[test]
fn workspaces_are_numbered_from_one() {
    let ws = vec![
        Workspace { tenant_id: TenantId("t-aaaa1111".to_string()), name: "prod".to_string() },
        Workspace { tenant_id: TenantId("t-bbbb2222".to_string()), name: "staging".to_string() },
    ];
    let text = tzctl::cli::workspace::render_table(&ws);
    let lines: Vec<&str> = text.lines().collect();
    assert_eq!(lines.len(), 3);
    assert!(lines[0].contains("\x1b[90m#\x1b[39m") && lines[0].contains("NAME"));
    assert!(lines[1].starts_with("1  prod"));
    assert!(lines[1].trim_end().ends_with("t-aaaa1111"));
    assert!(lines[2].starts_with("2  staging"));
}

#[test]
fn nodes_show_colored_status() {
    let nodes = vec![
        Node { node_id: NodeId("n-aaaa1111".to_string()), name: "edge".to_string(), connected: true, lifecycle_state: None },
        Node { node_id: NodeId("n-bbbb2222".to_string()), name: "core".to_string(), connected: false, lifecycle_state: None },
    ];
    let text = tzctl::cli::node::render_table(&nodes);
    let lines: Vec<&str> = text.lines().collect();
    assert_eq!(lines.len(), 3);
    assert!(lines[1].contains("n-aaaa1111") && lines[1].contains("\x1b[32mconnected\x1b[39m"));
    assert!(lines[2].contains("n-bbbb2222") && lines[2].contains("\x1b[31mdisconnected\x1b[39m"));
}

#[test]
fn invitation_tables_fill_missing_fields_with_nothing() {
    let invs = vec![invitation("i-1", Some("pending"), Some("admin"), None), invitation("i-2", None, None, Some("ops"))];
    let ws = tzctl::cli::workspace::render_invitations(&invs);
    let lines: Vec<&str> = ws.lines().collect();
    assert!(lines[0].contains("INVITATION ID"));
    assert!(!lines[0].contains("ROLE"));
    assert!(lines[1].starts_with("i-1") && lines[1].contains("pending"));
    assert!(lines[2].starts_with("i-2") && lines[2].trim_end().ends_with("ops"));
    let org = tzctl::cli::org::render_invitations(&invs);
    let lines: Vec<&str> = org.lines().collect();
    assert!(lines[0].contains("ROLE"));
    assert!(lines[1].contains("admin"));
}

#[test]
fn pipeline_table_holds_one_line_definitions() {
    let p = RemotePipeline {
        id: PipelineId("p1".to_string()),
        name: "alpha".to_string(),
        definition: "from_file \"/tmp/x\"\n  | where x > 1".to_string(),
        state: LifecycleState::Running,
        error: None,
    };
    let text = tzctl::cli::list::render_table(&[p]);
    assert!(text.contains("NAME") && text.contains("STATE") && text.contains("DEFINITION"));
    assert!(text.contains("alpha"));
    assert!(text.contains("running"));
    assert!(text.contains("from_file \"/tmp/x\" | where x > 1"));
    assert!(text.contains('│'));
}

#[test]
fn alert_durations_show_in_seconds() {
    let alerts = vec![
        tzctl::client::session::Alert {
            id: "a-1".to_string(),
            node_id: Some("n-aaaa1111".to_string()),
            duration_seconds: Some(300),
            webhook_url: Some("https://hook".to_string()),
        },
        tzctl::client::session::Alert { id: "a-2".to_string(), node_id: None, duration_seconds: None, webhook_url: None },
    ];
    let text = tzctl::cli::alert::render_table(&alerts);
    let lines: Vec<&str> = text.lines().collect();
    assert_eq!(lines.len(), 3);
    assert!(lines[1].starts_with("a-1") && lines[1].contains("300s") && lines[1].trim_end().ends_with("https://hook"));
    assert_eq!(lines[2].trim_end(), "a-2");
    assert_eq!(tzctl::cli::alert::render_table(&[]), "No alerts configured.");
}

fn diag(severity: Severity, message: Option<&str>, rendered: Option<&str>) -> Diagnostic {
    Diagnostic {
        timestamp: None,
        severity,
        message: message.map(str::to_string),
        rendered: rendered.map(str::to_string),
    }
}

#[test]
fn diagnostic_line_prefers_the_node_rendering() {
    let d = diag(Severity::Error, Some("boom"), Some("error: boom\n  --> <input>:1:1\n"));
    assert_eq!(diagnostic_line(&d), "error: boom\n  --> <input>:1:1");
}

#[test]
fn diagnostic_line_falls_back_to_a_styled_label() {
    let d = diag(Severity::Error, Some("boom"), Some("  \n"));
    assert_eq!(diagnostic_line(&d), "\u{1b}[1m\u{1b}[31merror\u{1b}[39m\u{1b}[0m: boom");
    let d = diag(Severity::Warning, None, None);
    assert_eq!(diagnostic_line(&d), "\u{1b}[1m\u{1b}[33mwarning\u{1b}[39m\u{1b}[0m: ");
    let d = diag(Severity::Note, Some("hi"), None);
    assert_eq!(diagnostic_line(&d), "note: hi");
}

#[test]
fn status_text_lists_state_diagnostics_and_activity() {
    let counts = DiagnosticCounts { error: 1, warning: 0, note: 2 };
    let recent = vec![Diagnostic {
        timestamp: Some("2024-01-01T00:00:00Z".to_string()),
        severity: Severity::Error,
        message: Some("bad".to_string()),
        rendered: None,
    }];
    let r = StatusRange::Hour.as_tql();
    let text = status_text("p", "id1", "running", Some("boom"), &counts, &recent, StatusRange::Hour, false, "no data", "no data");
    let expected = format!(
        "\u{1b}[1mp\u{1b}[0m (\u{1b}[2mid1\u{1b}[0m)\n  state:  running\n  error:  \u{1b}[31mboom\u{1b}[39m\n\ndiagnostics (last {r}): 1 errors, 0 warnings, 2 notes\n  2024-01-01T00:00:00Z     error    bad\n\nactivity (last {r}):\n  ingress: no data\n  egress:  no data"
    );
    assert_eq!(text, expected);
}

#[test]
fn status_text_without_activity_or_diagnostics() {
    let counts = DiagnosticCounts { error: 0, warning: 0, note: 0 };
    let text = status_text("p", "id1", "stopped", None, &counts, &[], StatusRange::Day, true, "", "");
    assert!(text.contains("  state:  stopped\n\ndiagnostics"));
    assert!(text.contains("notes\n  (none)\n"));
    assert!(text.ends_with("activity (last 1d):\n  (unavailable; node may not support pipeline::activity)"));
}

#[test]
fn apply_and_destroy_reports_print_each_outcome_and_totals() {
    let report = ApplyReport {
        succeeded: vec![ActionOutcome { kind: "create".to_string(), name: "a".to_string(), error: None }],
        failed: vec![
            ActionOutcome { kind: "set".to_string(), name: "b".to_string(), error: Some("boom".to_string()) },
            ActionOutcome { kind: "delete".to_string(), name: "c".to_string(), error: None },
        ],
    };
    let ok = "\u{1b}[1m\u{1b}[32m\u{2713}\u{1b}[39m\u{1b}[0m";
    let err = "\u{1b}[1m\u{1b}[31m\u{2717}\u{1b}[39m\u{1b}[0m";
    assert_eq!(
        report_text(ReportStyle::Apply, &report),
        format!("{ok} create a\n{err} set b: boom\n{err} delete c: unknown error\nApplied: 1 succeeded, 2 failed.\n")
    );
    assert_eq!(
        report_text(ReportStyle::Destroy, &report),
        format!("{ok} deleted a\n{err} b: boom\n{err} c: unknown error\nDestroyed: 1 succeeded, 2 failed.\n")
    );
}

#[test]
fn pull_report_prints_each_change_and_totals() {
    let mut report = PullReport::default();
    report.created.push("a".to_string());
    report.deleted.push("b".to_string());
    report.skipped.push("c".to_string());
    report.failed = 1;
    report.errors.push("cannot write x".to_string());
    let ok = "\u{1b}[1m\u{1b}[32m\u{2713}\u{1b}[39m\u{1b}[0m";
    let err = "\u{1b}[1m\u{1b}[31m\u{2717}\u{1b}[39m\u{1b}[0m";
    assert_eq!(
        pull_report_text(&report),
        format!(
            "{ok} created a\n{ok} deleted b\n\u{1b}[33m-\u{1b}[39m skipped c\n{err} cannot write x\nPulled: 1 created, 0 overwritten, 1 deleted, 1 skipped, 1 failed.\n"
        )
    );
}
