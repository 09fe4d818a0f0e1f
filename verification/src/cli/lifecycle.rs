//! The single-pipeline mutating commands: what `create`, `set`, `delete`,
//! `start` and `stop` decide and report.

use vstd::prelude::*;
use crate::ext::{debug_quoted, debug_str};
use crate::model::{lifecycle_wire, DesiredPipeline, DesiredState, LifecycleState, RemotePipeline, TransitionAction};
use crate::project::frontmatter::{desired_state_wire, desired_wire, opt_view};
use crate::text::{owned, push_str};

verus! {

/// The machine-readable result of a mutating command.
#[derive(Debug)]
pub struct ActionResult {
    /// The action performed (`create`, `set`, `delete`, `start`, …).
    pub action: String,
    /// The pipeline name.
    pub name: String,
    /// The pipeline id, when known.
    pub id: Option<String>,
    /// The resulting (or intended) state, when meaningful.
    pub state: Option<String>,
    /// A human-readable note (e.g. for no-ops).
    pub note: Option<String>,
}

/// The result of `tz pipeline create`: the new id and the desired state.
pub fn created(desired: &DesiredPipeline, id: &str) -> (r: ActionResult)
    ensures
        r.action@ == "create"@,
        r.name@ == desired.name@,
        opt_view(r.id) == Some(id@),
        opt_view(r.state) == Some(desired_wire(desired.state)),
        r.note is None,
{
    ActionResult {
        action: owned("create"),
        name: owned(desired.name.as_str()),
        id: Some(owned(id)),
        state: Some(owned(desired_state_wire(desired.state))),
        note: None,
    }
}

/// The result of `tz pipeline set`: an in-place update of `id`.
pub fn updated(desired: &DesiredPipeline, id: &str) -> (r: ActionResult)
    ensures
        r.action@ == "set"@,
        r.name@ == desired.name@,
        opt_view(r.id) == Some(id@),
        r.state is None,
        r.note is None,
{
    ActionResult { action: owned("set"), name: owned(desired.name.as_str()), id: Some(owned(id)), state: None, note: None }
}

/// The confirmation prompt of `tz pipeline delete`.
pub fn delete_prompt(name: &str, id: &str) -> (r: String)
    ensures
        r@ == "Delete pipeline "@ + debug_str(name@) + " ("@ + id@ + ")?"@,
{
    let mut s = owned("Delete pipeline ");
    let q = debug_quoted(name);
    push_str(&mut s, q.as_str());
    push_str(&mut s, " (");
    push_str(&mut s, id);
    push_str(&mut s, ")?");
    s
}

/// The result of `tz pipeline delete`, noting when the user aborted.
pub fn deleted(name: &str, id: &str, aborted: bool) -> (r: ActionResult)
    ensures
        r.action@ == "delete"@,
        r.name@ == name@,
        opt_view(r.id) == Some(id@),
        r.state is None,
        opt_view(r.note) == if aborted { Some("aborted"@) } else { None },
{
    ActionResult {
        action: owned("delete"),
        name: owned(name),
        id: Some(owned(id)),
        state: None,
        note: if aborted { Some(owned("aborted")) } else { None },
    }
}

/// A run-state command.
#[derive(Debug, Clone, Copy, PartialEq, Eq, Structural)]
pub enum StateCommand {
    /// `tz pipeline start`.
    Start,
    /// `tz pipeline stop`.
    Stop,
}

/// The transition a state command requests.
pub open spec fn command_action(c: StateCommand) -> TransitionAction {
    match c {
        StateCommand::Start => TransitionAction::Start,
        StateCommand::Stop => TransitionAction::Stop,
    }
}

/// The state a command aims for, as shown.
pub open spec fn target_label(c: StateCommand) -> Seq<char> {
    match c {
        StateCommand::Start => "running"@,
        StateCommand::Stop => "stopped"@,
    }
}

/// Whether the observed state already satisfies the command: running for
/// `start`; stopped or completed for `stop`.
pub open spec fn already_there(c: StateCommand, s: LifecycleState) -> bool {
    match c {
        StateCommand::Start => s is Running,
        StateCommand::Stop => s is Stopped || s is Completed,
    }
}

impl StateCommand {
    /// The transition this command requests.
    pub fn action(self) -> (r: TransitionAction)
        ensures
            r == command_action(self),
    {
        match self {
            StateCommand::Start => TransitionAction::Start,
            StateCommand::Stop => TransitionAction::Stop,
        }
    }

    /// The state this command aims for.
    pub fn target_label(self) -> (r: &'static str)
        ensures
            r@ == target_label(self),
    {
        match self {
            StateCommand::Start => "running",
            StateCommand::Stop => "stopped",
        }
    }

    /// Whether `state` already satisfies this command.
    pub fn already(self, state: &LifecycleState) -> (r: bool)
        ensures
            r == already_there(self, *state),
    {
        match self {
            StateCommand::Start => match state {
                LifecycleState::Running => true,
                _ => false,
            },
            StateCommand::Stop => match state {
                LifecycleState::Stopped | LifecycleState::Completed => true,
                _ => false,
            },
        }
    }
}

/// What a state command does to a resolved pipeline: whether a transition is
/// sent, and the result reported. A pipeline already in the target state is
/// left alone, with the note `already <state>`.
pub fn state_change(command: StateCommand, name: &str, remote: &RemotePipeline) -> (r: (bool, ActionResult))
    ensures
        r.0 == !already_there(command, remote.state),
        r.1.action@ == crate::model::transition_wire(command_action(command)),
        r.1.name@ == name@,
        opt_view(r.1.id) == Some(remote.id.0@),
        opt_view(r.1.state) == Some(target_label(command)),
        opt_view(r.1.note) == if already_there(command, remote.state) {
            Some("already "@ + target_label(command))
        } else {
            None
        },
{
    let already = command.already(&remote.state);
    let note = if already {
        let mut n = owned("already ");
        push_str(&mut n, command.target_label());
        Some(n)
    } else {
        None
    };
    let action = command.action();
    (!already, ActionResult {
        action: owned(action.as_wire()),
        name: owned(name),
        id: Some(owned(remote.id.as_str())),
        state: Some(owned(command.target_label())),
        note,
    })
}


/// A state command sends its transition exactly when the pipeline is not
/// already in the command's run-state: exactly when the reconciler would
/// owe it a transition toward that state, and then the very transition the
/// command sends. So `start` is a no-op only for a running pipeline, and
/// `stop` only for a stopped or completed one.
pub proof fn law_state_command_only_when_needed(c: StateCommand, s: LifecycleState)
    ensures
        already_there(c, s) <==> crate::model::satisfies(
            s,
            match c {
                StateCommand::Start => DesiredState::Running,
                StateCommand::Stop => DesiredState::Stopped,
            },
        ),
        !already_there(c, s) <==> crate::model::spec_transition_for(
            s,
            match c {
                StateCommand::Start => DesiredState::Running,
                StateCommand::Stop => DesiredState::Stopped,
            },
        ) == Some(command_action(c)),
        c == StateCommand::Start ==> (already_there(c, s) <==> s == LifecycleState::Running),
{
}

} // verus!
