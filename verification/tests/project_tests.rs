use tzctl::cli::node::swap_image;
use tzctl::cli::{check_role, select_error, timestamp_of, UtcTime};
use tzctl::error::Error;
use tzctl::insights::{latest_indices, operator_id_segments, segment_order};
use tzctl::model::{DesiredState, LifecycleState, ResolveError};
use tzctl::project::frontmatter::{render, split, Frontmatter, Parsed};
use tzctl::project::{desired_from_file, load_project};
use tzctl::pull::{confirmation_prompt, Action as PullAction, PullReport};
use tzctl::status::Severity;

fn parsed(name: Option<&str>, state: Option<DesiredState>, definition: &str) -> Parsed {
    Parsed {
        frontmatter: Frontmatter { name: name.map(str::to_string), description: None, state, node: None },
        definition: definition.to_string(),
    }
}

fn parse_file(content: &str) -> Parsed {
    let s = split(content).unwrap();
    assert!(s.yaml.is_none(), "these fixtures carry no frontmatter block");
    Parsed { frontmatter: Frontmatter::default(), definition: s.definition }
}

#[test]
fn no_frontmatter_is_all_definition() {
    let s = split("from_file \"/tmp/x\"\n").unwrap();
    assert_eq!(s.yaml, None);
    assert_eq!(s.definition, "from_file \"/tmp/x\"");
}

#[test]
fn tolerates_leading_blank_lines() {
    let s = split("\n\n// ---\n// name: p\n// ---\nversion\n").unwrap();
    assert_eq!(s.yaml.as_deref(), Some("name: p"));
    assert_eq!(s.definition, "version");
}

#[test]
fn unclosed_block_errors() {
    let r = split("// ---\n// name: p\nversion\n");
    assert!(matches!(r, Err(Error::Config(_))));
}

#[test]
fn frontmatter_block_lines_lose_their_comment_prefix() {
    let src = "// ---\n// name: suricata-import\n// state: paused\n// ---\nfrom_file \"/tmp/eve.sock\"\n";
    let s = split(src).unwrap();
    assert_eq!(s.yaml.as_deref(), Some("name: suricata-import\nstate: paused"));
    assert_eq!(s.definition, "from_file \"/tmp/eve.sock\"");
}

#[test]
fn minimal_file_takes_its_name_from_the_stem() {
    let p = desired_from_file("pipelines/suricata-import.tql", parse_file("\nfrom_file \"/tmp/eve.sock\"\n")).unwrap();
    assert_eq!(p.name, "suricata-import");
    assert_eq!(p.definition, "from_file \"/tmp/eve.sock\"");
    assert_eq!(p.state, DesiredState::Running);
}

#[test]
fn frontmatter_name_and_state_override_the_file() {
    let p = desired_from_file("file.tql", parsed(Some("renamed"), Some(DesiredState::Paused), "version")).unwrap();
    assert_eq!(p.name, "renamed");
    assert_eq!(p.state, DesiredState::Paused);
}

#[test]
fn empty_definition_is_rejected() {
    let r = desired_from_file("empty.tql", parse_file("   \n"));
    assert!(matches!(r, Err(Error::Config(_))));
}

#[test]
fn project_default_state_applies_without_frontmatter() {
    let paths = vec!["p.tql".to_string()];
    let ps = load_project(Some("stopped"), &paths, vec![parsed(None, None, "version")]).unwrap();
    assert_eq!(ps[0].state, DesiredState::Stopped);
}

#[test]
fn project_keeps_file_order() {
    let paths = vec!["pipelines/a.tql".to_string(), "pipelines/sub/b.tql".to_string()];
    let ps = load_project(None, &paths, vec![parsed(None, None, "version"), parsed(None, None, "version")]).unwrap();
    let names: Vec<&str> = ps.iter().map(|p| p.name.as_str()).collect();
    assert_eq!(names, vec!["a", "b"]);
}

#[test]
fn project_duplicate_names_error() {
    let paths = vec!["pipelines/one.tql".to_string(), "pipelines/two.tql".to_string()];
    let r = load_project(
        None,
        &paths,
        vec![parsed(Some("dup"), None, "version"), parsed(Some("dup"), None, "version")],
    );
    match r {
        Err(Error::Config(m)) => {
            assert_eq!(m, "duplicate pipeline name \"dup\" in pipelines/one.tql and pipelines/two.tql")
        }
        other => panic!("unexpected {other:?}"),
    }
}

#[test]
fn project_invalid_default_state_errors() {
    let paths = vec!["p.tql".to_string()];
    let r = load_project(Some("Galloping"), &paths, vec![parsed(None, None, "version")]);
    match r {
        Err(Error::Config(m)) => assert_eq!(m, "invalid [defaults] state \"galloping\": expected running|paused|stopped"),
        other => panic!("unexpected {other:?}"),
    }
}

#[test]
fn swap_image_replaces_first_stock_image_only() {
    let compose = "services:\n  node:\n    image: tenzir/tenzir:v4\n  other:\n    image: tenzir/tenzir:v5";
    let out = swap_image(compose, "tenzir/tenzir:latest");
    assert_eq!(
        out,
        "services:\n  node:\n    image: tenzir/tenzir:latest\n  other:\n    image: tenzir/tenzir:v5"
    );
}

#[test]
fn swap_image_leaves_other_images() {
    let compose = "services:\n  db:\n    image: postgres:16";
    assert_eq!(swap_image(compose, "x"), compose);
}

#[test]
fn latest_indices_keep_last_sample_in_first_seen_order() {
    let ids = vec!["1".to_string(), "0".to_string(), "1".to_string()];
    assert_eq!(latest_indices(&ids), vec![2, 1]);
    assert_eq!(latest_indices(&Vec::new()), Vec::<usize>::new());
}

#[test]
fn segment_order_lists_operators_as_a_tree() {
    let ids = ["517/6-0/0", "517/4", "168/4#broadcast/2", "517/6", "168/4#broadcast/out", "168/4#broadcast/10"];
    let keys: Vec<_> = ids.iter().map(|id| operator_id_segments(id)).collect();
    assert_eq!(segment_order(&keys), vec![2, 5, 4, 1, 3, 0]);
    assert_eq!(segment_order(&Vec::new()), Vec::<usize>::new());
}

#[test]
fn segment_order_keeps_equal_ids_in_place() {
    let keys: Vec<_> = ["2/1", "1/1", "2/1"].iter().map(|id| operator_id_segments(id)).collect();
    assert_eq!(segment_order(&keys), vec![1, 0, 2]);
}

#[test]
fn timestamp_is_zero_padded() {
    let t = UtcTime { year: 2026, month: 7, day: 7, hour: 12, minute: 0, second: 5 };
    assert_eq!(timestamp_of(t), "20260707T120005Z");
}

#[test]
fn check_role_accepts_member_and_admin_only() {
    assert!(check_role("member").is_ok());
    assert!(check_role("admin").is_ok());
    let e = check_role("owner").unwrap_err();
    assert_eq!(e.error, Error::Config("invalid role \"owner\": must be 'member' or 'admin'".to_string()));
    assert!(e.hints.is_empty());
}

#[test]
fn select_error_explains_and_hints() {
    let e = select_error(&ResolveError::IndexOutOfRange { index: 5, len: 2 });
    assert_eq!(e.error, Error::Config("cannot select workspace: index 5 is out of range (1..=2)".to_string()));
    assert_eq!(e.hints, vec!["run `tz workspace list` to see available workspaces".to_string()]);
}

#[test]
fn resolve_error_messages() {
    assert_eq!(ResolveError::NotFound("x".to_string()).message(), "no match for \"x\"");
    let amb = ResolveError::Ambiguous { query: "p".to_string(), matches: vec!["a".to_string(), "b".to_string()] };
    assert_eq!(amb.message(), "\"p\" is ambiguous; matches: a, b");
}

#[test]
fn pull_report_records_and_skips() {
    let create = PullAction::Create { name: "a".to_string(), path: "a.tql".to_string(), content: "x".to_string() };
    let delete = PullAction::Delete { name: "b".to_string(), path: "b.tql".to_string() };
    assert!(confirmation_prompt(&create).is_none());
    assert!(confirmation_prompt(&delete).unwrap().ends_with(" Delete b.tql?"));
    let mut report = PullReport::default();
    report.record(&create, Ok(()));
    report.skip(&delete);
    assert_eq!(report.created, vec!["a".to_string()]);
    assert_eq!(report.skipped, vec!["b".to_string()]);
    assert_eq!(report.exit_code(), 0);
    report.record(&delete, Err("cannot delete b.tql: denied".to_string()));
    assert_eq!(report.failed, 1);
    assert_eq!(report.errors, vec!["cannot delete b.tql: denied".to_string()]);
    assert_eq!(report.exit_code(), 3);
}

#[test]
fn unknown_severity_is_tolerated() {
    assert_eq!(Severity::from_wire("fatal"), Severity::Unknown);
    assert_eq!(Severity::from_wire("warning"), Severity::Warning);
}

#[test]
fn lifecycle_state_serde_round_trip() {
    for wire in ["created", "running", "completed", "failed", "paused", "stopped", "weird"] {
        let state = LifecycleState::from(wire);
        assert_eq!(state.as_wire(), wire);
    }
}

#[test]
fn project_files_sort_by_components() {
    let paths = vec![
        "/p/b.tql".to_string(),
        "/p/a/z.tql".to_string(),
        "/p/a.tql".to_string(),
        "/p/a-b.tql".to_string(),
    ];
    assert_eq!(tzctl::paths::sorted_path_order(&paths), vec![1, 3, 2, 0]);
}

#[test]
fn paths_sort_by_component_kind_first() {
    let paths = vec!["-b".to_string(), "/a".to_string(), "a".to_string(), "../a".to_string(), "./a".to_string()];
    assert_eq!(tzctl::paths::sorted_path_order(&paths), vec![1, 4, 3, 0, 2]);
    let mut std_sorted: Vec<std::path::PathBuf> = paths.iter().map(std::path::PathBuf::from).collect();
    std_sorted.sort();
    let ours: Vec<std::path::PathBuf> =
        tzctl::paths::sorted_path_order(&paths).into_iter().map(|i| std::path::PathBuf::from(&paths[i])).collect();
    assert_eq!(ours, std_sorted);
}

#[test]
fn equal_paths_keep_their_order() {
    let paths = vec!["./x/./a.tql".to_string(), "x/a.tql".to_string(), "./x/a.tql".to_string()];
    assert_eq!(tzctl::paths::sorted_path_order(&paths), vec![0, 2, 1]);
}

#[test]
fn rendered_file_splits_back() {
    let fm = Frontmatter {
        name: Some("alpha".to_string()),
        description: None,
        state: Some(DesiredState::Paused),
        node: Some("n-abcd1234".to_string()),
    };
    let text = render(&fm, "  from_file \"/tmp/x\"\nwhere x > 1\n");
    let s = split(&text).unwrap();
    assert_eq!(s.yaml.as_deref(), Some("name: alpha\nstate: paused\nnode: n-abcd1234"));
    assert_eq!(s.definition, "from_file \"/tmp/x\"\nwhere x > 1");
    let bare = render(&Frontmatter::default(), "version\n\n");
    assert_eq!(bare, "version\n");
    let s = split(&bare).unwrap();
    assert_eq!(s.yaml, None);
    assert_eq!(s.definition, "version");
}
