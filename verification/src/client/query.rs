//! Request bodies for running short-lived, hidden TQL queries on a node.
//!
//! A pipeline is inspected by launching a bounded, hidden pipeline through
//! the node-proxy `pipeline/launch` endpoint and draining its results through
//! `serve`.

use vstd::prelude::*;

verus! {

/// The `autostart` block of a `pipeline/launch` request.
#[derive(Debug)]
pub struct Autostart {
    /// Start the pipeline immediately upon creation.
    pub created: bool,
}

/// The `pipeline/launch` request body for a hidden, short-lived query.
#[derive(Debug)]
pub struct LaunchRequest<'a> {
    /// The client-generated pipeline id.
    pub id: &'a str,
    /// The TQL definition to run.
    pub definition: &'a str,
    /// The id under which results are served (usually equal to `id`).
    pub serve_id: &'a str,
    /// Hide the pipeline from the UI and `pipeline/list` reconciliation.
    pub hidden: bool,
    /// A short time-to-live.
    pub ttl: &'a str,
    /// Start the pipeline as soon as it is created.
    pub autostart: Autostart,
}

impl<'a> LaunchRequest<'a> {
    /// A launch request for a bounded, hidden query with a 60 s TTL that
    /// starts as soon as it is created.
    pub fn hidden_query(id: &'a str, serve_id: &'a str, definition: &'a str) -> (r: Self)
        ensures
            r.id@ == id@,
            r.serve_id@ == serve_id@,
            r.definition@ == definition@,
            r.hidden,
            r.ttl@ == "60s"@,
            r.autostart.created,
    {
        LaunchRequest { id, definition, serve_id, hidden: true, ttl: "60s", autostart: Autostart { created: true } }
    }
}

/// The `pipeline/launch` response body (defensively typed).
#[derive(Debug)]
pub struct LaunchResponse {
    /// The launched pipeline id, when the definition is deployable.
    pub id: Option<String>,
}

/// The most events the node serves in one page.
pub const MAX_PAGE_EVENTS: usize = 1024;

/// The `serve` request body for draining a served pipeline.
#[derive(Debug)]
pub struct ServeRequest<'a> {
    /// The `serve_id` the pipeline was launched with.
    pub serve_id: &'a str,
    /// The maximum number of events to return in this page.
    pub max_events: usize,
    /// The continuation token from the previous page, if any.
    pub continuation_token: Option<&'a str>,
    /// Whether to include schema information (`"never"` here).
    pub schema: &'static str,
}

impl<'a> ServeRequest<'a> {
    /// A serve request for one page of up to `max_events` events, capped at
    /// the node's page limit.
    pub fn page(serve_id: &'a str, max_events: usize, continuation_token: Option<&'a str>) -> (r: Self)
        ensures
            r.serve_id@ == serve_id@,
            r.max_events == if max_events < MAX_PAGE_EVENTS { max_events } else { MAX_PAGE_EVENTS },
            r.continuation_token == continuation_token,
            r.schema@ == "never"@,
    {
        let capped = if max_events < MAX_PAGE_EVENTS { max_events } else { MAX_PAGE_EVENTS };
        ServeRequest { serve_id, max_events: capped, continuation_token, schema: "never" }
    }
}

/// The `pipeline/reset-ttl` request body.
#[derive(Debug)]
pub struct ResetTtlRequest<'a> {
    /// The pipelines whose time-to-live is refreshed.
    pub ids: Vec<&'a str>,
}

impl<'a> ResetTtlRequest<'a> {
    /// Refresh the time-to-live of one pipeline.
    pub fn one(id: &'a str) -> (r: Self)
        ensures
            r.ids@.len() == 1,
            r.ids@[0]@ == id@,
    {
        let mut ids: Vec<&'a str> = Vec::new();
        ids.push(id);
        ResetTtlRequest { ids }
    }
}

} // verus!
