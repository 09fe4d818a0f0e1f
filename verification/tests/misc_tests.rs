use std::path::Path;

use tzctl::client::session::RawNode;
use tzctl::config::{validate_node, validate_workspace};
use tzctl::insights::{operator_depth, operator_id_segments, operator_profile_query, InstanceKey, OperatorIdSegment};
use tzctl::output::OutputMode;
use tzctl::paths::glob_base_dir;
use tzctl::status::{activity_query, diagnostics_query, Diagnostic, DiagnosticCounts, Severity, StatusRange};
use tzctl::symbols::{BULLET, ERR, OK, TRANSITION};

#[test]
fn glyphs_are_single_scalar_values() {
    for s in [OK, ERR, BULLET, TRANSITION] {
        assert_eq!(s.chars().count(), 1, "{s:?} must be a single scalar value");
    }
}

#[test]
fn glyphs_are_the_expected_code_points() {
    assert_eq!(OK, "\u{2713}");
    assert_eq!(ERR, "\u{2717}");
    assert_eq!(BULLET, "\u{2022}");
    assert_eq!(TRANSITION, "\u{2192}");
}

#[test]
fn output_mode_default_is_text() {
    assert_eq!(OutputMode::default(), OutputMode::Text);
}

#[test]
fn glob_base_dir_strips_wildcards() {
    let root = "/proj";
    assert_eq!(Path::new(&glob_base_dir(root, "pipelines/**/*.tql")), Path::new("/proj/pipelines"));
    assert_eq!(Path::new(&glob_base_dir(root, "*.tql")), Path::new("/proj"));
    assert_eq!(Path::new(&glob_base_dir(root, "a/b/c/*.tql")), Path::new("/proj/a/b/c"));
}

fn diag(severity: Severity) -> Diagnostic {
    Diagnostic { timestamp: None, severity, message: None, rendered: None }
}

#[test]
fn diagnostic_counts_tally() {
    let diags = vec![diag(Severity::Error), diag(Severity::Warning), diag(Severity::Error)];
    let counts = DiagnosticCounts::from_diagnostics(&diags);
    assert_eq!(counts.error, 2);
    assert_eq!(counts.warning, 1);
    assert_eq!(counts.note, 0);
}

#[test]
fn queries_embed_range_and_id() {
    let q = diagnostics_query("pid-1", StatusRange::Day, 20);
    assert!(q.contains("pipeline_id == \"pid-1\""));
    assert!(q.contains("now() - 1d"));
    assert!(q.contains("head 20"));
    let a = activity_query(StatusRange::Week);
    assert_eq!(a, "remote { pipeline::activity range=7d, interval=1h }");
}

#[test]
fn query_is_live_raw_stream() {
    let q = operator_profile_query("pid-1");
    assert!(q.contains("metrics \"operator_profile\", live=true"));
    assert!(q.contains("pipeline_id == \"pid-1\""));
    assert!(!q.contains("head"));
    assert!(!q.contains("summarize"));
    assert!(!q.contains("now()"));
    assert!(!q.contains("remote"));
}

#[test]
fn operator_profile_query_is_exact() {
    assert_eq!(
        operator_profile_query("abc"),
        "metrics \"operator_profile\", live=true\nwhere pipeline_id == \"abc\""
    );
}

#[test]
fn id_segments_parse_and_order() {
    assert_eq!(
        operator_id_segments("517/4"),
        vec![OperatorIdSegment { pipeline_id: 517, operator_id: 4, instance: None }]
    );
    assert_eq!(
        operator_id_segments("517/6-0/0-0/3"),
        vec![
            OperatorIdSegment { pipeline_id: 517, operator_id: 6, instance: None },
            OperatorIdSegment { pipeline_id: 0, operator_id: 0, instance: None },
            OperatorIdSegment { pipeline_id: 0, operator_id: 3, instance: None },
        ]
    );
    assert_eq!(
        operator_id_segments("168/4#broadcast/2"),
        vec![OperatorIdSegment {
            pipeline_id: 168,
            operator_id: 4,
            instance: Some(InstanceKey::Numeric(2)),
        }]
    );
    assert_eq!(
        operator_id_segments("168/25#gather/out"),
        vec![OperatorIdSegment {
            pipeline_id: 168,
            operator_id: 25,
            instance: Some(InstanceKey::Named("out".to_string())),
        }]
    );
    assert_eq!(operator_depth("517/4"), 0);
    assert_eq!(operator_depth("517/6-0/0-0/3"), 2);
    assert_eq!(operator_depth("168/4#broadcast/2"), 1);
    assert_eq!(operator_depth("168/25#gather/out"), 1);
    assert_eq!(operator_id_segments("bogus"), vec![]);
    assert_eq!(operator_depth("bogus"), 0);
    let mut ids = ["517/10", "517/2"];
    ids.sort_by_key(|id| operator_id_segments(id));
    assert_eq!(ids, ["517/2", "517/10"]);
    let mut ids = [
        "168/25#gather/out",
        "168/25#gather/31",
        "168/4#broadcast/2",
        "168/25#gather/2",
        "168/20#scatter/1",
    ];
    ids.sort_by_key(|id| operator_id_segments(id));
    assert_eq!(
        ids,
        [
            "168/4#broadcast/2",
            "168/20#scatter/1",
            "168/25#gather/2",
            "168/25#gather/31",
            "168/25#gather/out",
        ]
    );
}

#[test]
fn hash_without_slash_has_no_instance() {
    assert_eq!(
        operator_id_segments("1/2#gather"),
        vec![OperatorIdSegment { pipeline_id: 1, operator_id: 2, instance: None }]
    );
    assert_eq!(operator_depth("1/2#gather"), 0);
}

#[test]
fn raw_node_connection_inference() {
    let n = RawNode {
        node_id: "n-aaaa1111".to_string(),
        name: Some("edge".to_string()),
        lifecycle_state: Some("running".to_string()),
        connected: None,
    }
    .into_node();
    assert!(n.connected);

    let n = RawNode {
        node_id: "n-bbbb2222".to_string(),
        name: None,
        lifecycle_state: Some("disconnected".to_string()),
        connected: None,
    }
    .into_node();
    assert!(!n.connected);
    assert_eq!(n.name, "n-bbbb2222");

    let n = RawNode {
        node_id: "n-cccc3333".to_string(),
        name: None,
        lifecycle_state: Some("running".to_string()),
        connected: Some(false),
    }
    .into_node();
    assert!(!n.connected);
}

#[test]
fn node_state_match_ignores_case() {
    let n = RawNode {
        node_id: "n-dddd4444".to_string(),
        name: None,
        lifecycle_state: Some("ONLINE".to_string()),
        connected: None,
    }
    .into_node();
    assert!(n.connected);
    let n = RawNode { node_id: "n-eeee5555".to_string(), name: None, lifecycle_state: None, connected: None }.into_node();
    assert!(!n.connected);
}

#[test]
fn accepts_valid_ids() {
    assert!(validate_workspace("t-abcd1234").is_ok());
    assert!(validate_node("n-w2tjezz3").is_ok());
    assert!(validate_workspace("t-abcd123").is_err());
    assert!(validate_node("x-abcd1234").is_err());
    assert!(validate_workspace("t-ABCD1234").is_err());
}
