use tzctl::client::pipelines::{CreateRequest, UpdateRequest};
use tzctl::client::query::{LaunchRequest, ServeRequest};
use tzctl::client::session::{count_pending, current_org_id, InvitationInfo, Organization, TenantInfo};
use tzctl::client::transport::{base_url, map_status_error, status_error, summarize_body, url, TargetApi};
use tzctl::client::{after_page, diagnostics_definition, proxy_suffix, remaining_events, resolve_pipeline, PageOutcome};
use tzctl::error::Error;
use tzctl::model::{DesiredPipeline, DesiredState, LifecycleState, NodeId, PipelineId, RemotePipeline, TenantId, TransitionAction};

#[test]
fn url_construction() {
    let base = base_url("https://api.test/base/");
    assert_eq!(url(&base, TargetApi::User, "switch-tenant"), "https://api.test/base/user/switch-tenant");
    assert_eq!(url(&base, TargetApi::Admin, "/foo"), "https://api.test/base/admin/foo");
}

#[test]
fn maps_410_to_disconnected() {
    let s = reqwest::StatusCode::GONE;
    let err = map_status_error(s.as_u16(), &s.to_string(), "pipeline/list", "");
    assert!(matches!(err, Error::NodeDisconnected));
}

#[test]
fn maps_401_to_auth() {
    let s = reqwest::StatusCode::UNAUTHORIZED;
    let err = map_status_error(s.as_u16(), &s.to_string(), "x", "{\"message\":\"nope\"}");
    match err {
        Error::Auth(msg) => {
            assert!(msg.contains("nope"));
            assert_eq!(msg, "platform returned HTTP 401 Unauthorized for x: nope");
        }
        other => panic!("expected Auth, got {other:?}"),
    }
}

#[test]
fn maps_other_to_platform() {
    let s = reqwest::StatusCode::INTERNAL_SERVER_ERROR;
    let err = map_status_error(s.as_u16(), &s.to_string(), "x", "boom");
    match err {
        Error::Platform(msg) => assert!(msg.contains("boom")),
        other => panic!("expected Platform, got {other:?}"),
    }
}

#[test]
fn body_summaries() {
    assert_eq!(summarize_body("  \n"), "");
    assert_eq!(summarize_body("{\"error\": \"bad\"}"), ": bad");
    assert_eq!(summarize_body(" a \n\n b "), ": a b");
    let long = "y".repeat(250);
    let s = summarize_body(&long);
    assert_eq!(s, format!(": {}\u{2026}", "y".repeat(200)));
    let split = format!("{}é{}", "y".repeat(199), "z".repeat(10));
    assert!(status_error(500, "500 Internal Server Error", "x", &split).is_none());
    assert!(status_error(500, "500 Internal Server Error", "x", "ok").is_some());
}

#[test]
fn update_action_body_is_minimal() {
    let r = UpdateRequest::action("abc", TransitionAction::Pause);
    assert_eq!(r.id, "abc");
    assert_eq!(r.action, Some("pause"));
    assert!(r.definition.is_none() && r.name.is_none());
}

#[test]
fn update_edit_body_sets_definition_and_name() {
    let p = DesiredPipeline { name: "p".to_string(), definition: "version".to_string(), state: DesiredState::Running, node: None };
    let r = UpdateRequest::edit("id1", &p);
    assert_eq!(r.id, "id1");
    assert_eq!(r.definition, Some("version"));
    assert_eq!(r.name, Some("p"));
    assert!(r.action.is_none());
    let c = CreateRequest::from_desired(&p);
    assert_eq!((c.name, c.definition, c.hidden), ("p", "version", false));
}

#[test]
fn launch_body_is_hidden_with_ttl_and_autostart() {
    let r = LaunchRequest::hidden_query("pid", "pid", "diagnostics");
    assert_eq!((r.id, r.serve_id, r.definition), ("pid", "pid", "diagnostics"));
    assert!(r.hidden);
    assert_eq!(r.ttl, "60s");
    assert!(r.autostart.created);
}

#[test]
fn serve_body_caps_max_events_and_omits_absent_token() {
    let r = ServeRequest::page("sid", 5000, None);
    assert_eq!(r.max_events, 1024);
    assert!(r.continuation_token.is_none());
    assert_eq!(r.schema, "never");
    let r = ServeRequest::page("sid", 10, Some("tok"));
    assert_eq!(r.max_events, 10);
    assert_eq!(r.continuation_token, Some("tok"));
}

#[test]
fn proxy_suffix_construction() {
    let s = proxy_suffix(&TenantId("t-abcd1234".to_string()), &NodeId("n-w2tjezz3".to_string()), "/pipeline/list");
    assert_eq!(s, "node-proxy/t-abcd1234/n-w2tjezz3/pipeline/list");
}

fn remote(id: &str, name: &str) -> RemotePipeline {
    RemotePipeline {
        id: PipelineId(id.to_string()),
        name: name.to_string(),
        definition: "v".to_string(),
        state: LifecycleState::Running,
        error: None,
    }
}

#[test]
fn resolve_pipeline_by_name() {
    let p = resolve_pipeline(vec![remote("1", "a"), remote("2", "b")], "b").unwrap();
    assert_eq!(p.id.as_str(), "2");
    match resolve_pipeline(vec![remote("1", "a")], "zz") {
        Err(Error::Platform(m)) => assert_eq!(m, "no pipeline named \"zz\" on the node"),
        other => panic!("unexpected {other:?}"),
    }
    match resolve_pipeline(vec![remote("1", "a"), remote("2", "a")], "a") {
        Err(Error::Platform(m)) => assert_eq!(m, "multiple pipelines named \"a\"; names must be unique"),
        other => panic!("unexpected {other:?}"),
    }
}

#[test]
fn run_query_paginates_and_stops() {
    assert!(matches!(after_page(Some("t".to_string()), None, true), PageOutcome::Next(t) if t == "t"));
    assert!(matches!(after_page(None, Some("running"), true), PageOutcome::Done));
    match after_page(None, Some("failed"), true) {
        PageOutcome::Failed(Error::Platform(m)) => assert_eq!(m, "the status query pipeline failed on the node"),
        other => panic!("unexpected {other:?}"),
    }
    assert_eq!(remaining_events(10, 4), 6);
    assert_eq!(remaining_events(10, 12), 0);
}

#[test]
fn companion_diagnostics_pipeline() {
    assert_eq!(
        diagnostics_definition("abc"),
        "remote { diagnostics live=true, retro=true | where pipeline_id == \"abc\" }"
    );
}

#[test]
fn workspaces_and_orgs() {
    let w = TenantInfo { tenant_id: "t-bbbb2222".to_string(), name: None }.into_workspace();
    assert_eq!(w.name, "t-bbbb2222");
    assert!(current_org_id(&vec![]).is_err());
    let orgs = vec![Organization { organization_id: "o1".to_string(), name: None }];
    assert_eq!(current_org_id(&orgs).unwrap(), "o1");
    let inv = |s: Option<&str>| InvitationInfo {
        invitation_id: "i".to_string(),
        status: s.map(|x| x.to_string()),
        label: None,
        role: None,
    };
    assert_eq!(count_pending(&vec![inv(Some("pending")), inv(None), inv(Some("accepted")), inv(Some("pending"))]), 2);
}
