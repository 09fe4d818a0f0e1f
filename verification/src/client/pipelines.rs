//! Request and response bodies of the node `pipeline/*` endpoints.

use vstd::prelude::*;
use crate::model::{transition_wire, DesiredPipeline, PipelineId, RemotePipeline, TransitionAction};

verus! {

/// The `pipeline/list` request body (serialized as an empty object).
#[derive(Debug)]
pub struct ListRequest {}

/// The `pipeline/list` response body.
#[derive(Debug)]
pub struct ListResponse {
    /// The pipelines currently known to the node.
    pub pipelines: Vec<RemotePipeline>,
}

/// The `pipeline/create` request body.
#[derive(Debug)]
pub struct CreateRequest<'a> {
    /// The user-assigned name.
    pub name: &'a str,
    /// The TQL definition.
    pub definition: &'a str,
    /// Whether the pipeline is hidden in the UI (always `false` here).
    pub hidden: bool,
}

impl<'a> CreateRequest<'a> {
    /// Build a create request from a desired pipeline: its name and
    /// definition, not hidden.
    pub fn from_desired(p: &'a DesiredPipeline) -> (r: Self)
        ensures
            r.name@ == p.name@,
            r.definition@ == p.definition@,
            !r.hidden,
    {
        CreateRequest { name: p.name.as_str(), definition: p.definition.as_str(), hidden: false }
    }
}

/// The `pipeline/create` response body.
#[derive(Debug)]
pub struct CreateResponse {
    /// The id of the newly-created pipeline.
    pub id: PipelineId,
}

/// The `pipeline/update` request body (only `id` is required).
#[derive(Debug)]
pub struct UpdateRequest<'a> {
    /// The id of the pipeline to update.
    pub id: &'a str,
    /// A new definition, for in-place edits.
    pub definition: Option<&'a str>,
    /// A new name, for in-place renames.
    pub name: Option<&'a str>,
    /// A run-state action (`start`/`pause`/`stop`).
    pub action: Option<&'static str>,
}

impl<'a> UpdateRequest<'a> {
    /// An update that only changes the run-state.
    pub fn action(id: &'a str, action: TransitionAction) -> (r: Self)
        ensures
            r.id@ == id@,
            r.definition is None,
            r.name is None,
            r.action matches Some(a) && a@ == transition_wire(action),
    {
        UpdateRequest { id, definition: None, name: None, action: Some(action.as_wire()) }
    }

    /// An in-place edit of `name`/`definition` (no state change).
    pub fn edit(id: &'a str, p: &'a DesiredPipeline) -> (r: Self)
        ensures
            r.id@ == id@,
            r.definition matches Some(d) && d@ == p.definition@,
            r.name matches Some(n) && n@ == p.name@,
            r.action is None,
    {
        UpdateRequest {
            id,
            definition: Some(p.definition.as_str()),
            name: Some(p.name.as_str()),
            action: None,
        }
    }
}

/// The `pipeline/delete` request body.
#[derive(Debug)]
pub struct DeleteRequest<'a> {
    /// The id of the pipeline to delete.
    pub id: &'a str,
}

} // verus!
