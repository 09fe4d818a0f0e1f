//! Plan execution reports.
//!
//! Actions run in the reconciler's deterministic order (deletes → creates →
//! sets → transitions). Each action is isolated: a failure is recorded and the
//! run continues, so one bad pipeline never aborts the rest. The calls to the
//! platform are the caller's; each outcome is recorded here.

use vstd::prelude::*;
use crate::error::{error_message, Error};
use crate::project::frontmatter::opt_view;
use crate::reconcile::{action_kind, action_name, Action};
use crate::ext::{bold_fg_painted, green_bold, red_bold};
use crate::symbols::{ERR, OK};
use crate::text::{decimal, owned, push_str, usize_to_string};

verus! {

/// A single applied action's outcome, for reporting.
#[derive(Debug)]
pub struct ActionOutcome {
    /// The action kind (`create`/`set`/`delete`/`transition`).
    pub kind: String,
    /// The pipeline name.
    pub name: String,
    /// An error message when the action failed.
    pub error: Option<String>,
}

/// An outcome as plain text: kind, name and error message.
pub open spec fn outcome_view(o: ActionOutcome) -> (Seq<char>, Seq<char>, Option<Seq<char>>) {
    (o.kind@, o.name@, opt_view(o.error))
}

/// The outcome of running `a` with result `r`.
pub open spec fn outcome_of(a: Action, r: Result<(), Error>) -> (Seq<char>, Seq<char>, Option<Seq<char>>) {
    (action_kind(a), action_name(a), match r {
        Ok(_) => None,
        Err(e) => Some(error_message(e)),
    })
}

/// The aggregated result of executing a plan.
#[derive(Debug)]
pub struct ApplyReport {
    /// Actions that succeeded.
    pub succeeded: Vec<ActionOutcome>,
    /// Actions that failed, each with its error.
    pub failed: Vec<ActionOutcome>,
}

impl Default for ApplyReport {
    fn default() -> (r: Self)
        ensures
            r.succeeded@.len() == 0,
            r.failed@.len() == 0,
    {
        ApplyReport { succeeded: Vec::new(), failed: Vec::new() }
    }
}

/// The outcomes of the actions whose result is `Ok`, in order.
pub open spec fn succeeded_of(actions: Seq<Action>, results: Seq<Result<(), Error>>) -> Seq<(Seq<char>, Seq<char>, Option<Seq<char>>)>
    decreases actions.len(),
{
    if actions.len() == 0 {
        seq![]
    } else {
        let rest = succeeded_of(actions.drop_last(), results.take(actions.len() - 1));
        if results[actions.len() - 1] is Ok {
            rest.push(outcome_of(actions.last(), results[actions.len() - 1]))
        } else {
            rest
        }
    }
}

/// The outcomes of the actions whose result is `Err`, in order.
pub open spec fn failed_of(actions: Seq<Action>, results: Seq<Result<(), Error>>) -> Seq<(Seq<char>, Seq<char>, Option<Seq<char>>)>
    decreases actions.len(),
{
    if actions.len() == 0 {
        seq![]
    } else {
        let rest = failed_of(actions.drop_last(), results.take(actions.len() - 1));
        if results[actions.len() - 1] is Err {
            rest.push(outcome_of(actions.last(), results[actions.len() - 1]))
        } else {
            rest
        }
    }
}

impl ApplyReport {
    /// The succeeded outcomes as plain text.
    pub open spec fn succeeded_view(&self) -> Seq<(Seq<char>, Seq<char>, Option<Seq<char>>)> {
        self.succeeded@.map_values(|o: ActionOutcome| outcome_view(o))
    }

    /// The failed outcomes as plain text.
    pub open spec fn failed_view(&self) -> Seq<(Seq<char>, Seq<char>, Option<Seq<char>>)> {
        self.failed@.map_values(|o: ActionOutcome| outcome_view(o))
    }

    /// Whether any action failed (drives the `apply` exit code `3`).
    pub fn has_failures(&self) -> (r: bool)
        ensures
            r == (self.failed@.len() > 0),
    {
        !self.failed.is_empty()
    }

    /// Total number of actions attempted.
    pub fn attempted(&self) -> (n: usize)
        requires
            self.succeeded@.len() + self.failed@.len() <= usize::MAX,
        ensures
            n == self.succeeded@.len() + self.failed@.len(),
    {
        self.succeeded.len() + self.failed.len()
    }

    /// Record the result of running `action`: an `Ok` goes to `succeeded`, an
    /// error to `failed` with its message.
    pub fn record(&mut self, action: &Action, result: Result<(), Error>)
        ensures
            result is Ok ==> final(self).succeeded_view() == old(self).succeeded_view().push(outcome_of(*action, result))
                && final(self).failed_view() == old(self).failed_view(),
            result is Err ==> final(self).failed_view() == old(self).failed_view().push(outcome_of(*action, result))
                && final(self).succeeded_view() == old(self).succeeded_view(),
    {
        let error = match &result {
            Ok(_) => None,
            Err(e) => Some(e.message()),
        };
        let outcome = ActionOutcome { kind: owned(action.kind()), name: owned(action.name()), error };
        let ghost before = *self;
        if result.is_ok() {
            self.succeeded.push(outcome);
            proof {
                assert(self.succeeded_view() =~= before.succeeded_view().push(outcome_of(*action, result)));
                assert(self.failed_view() =~= before.failed_view());
            }
        } else {
            self.failed.push(outcome);
            proof {
                assert(self.failed_view() =~= before.failed_view().push(outcome_of(*action, result)));
                assert(self.succeeded_view() =~= before.succeeded_view());
            }
        }
    }
}

/// The report of running `actions` in order, where `results[i]` is what the
/// platform answered for `actions[i]`.
pub fn report_of(actions: &Vec<Action>, results: Vec<Result<(), Error>>) -> (r: ApplyReport)
    requires
        actions@.len() == results@.len(),
    ensures
        r.succeeded_view() == succeeded_of(actions@, results@),
        r.failed_view() == failed_of(actions@, results@),
        r.succeeded@.len() + r.failed@.len() == actions@.len(),
{
    let mut report = ApplyReport::default();
    let mut results = results;
    let ghost all = results@;
    let mut rev: Vec<Result<(), Error>> = Vec::new();
    // take the results in order
    while results.len() > 0
        invariant
            rev@.len() + results@.len() == all.len(),
            forall|k: int| 0 <= k < rev@.len() ==> #[trigger] rev@[k] == all[all.len() - 1 - k],
            results@ == all.take(results@.len() as int),
        decreases results.len(),
    {
        let x = results.pop().unwrap();
        rev.push(x);
    }
    let mut i: usize = 0;
    proof {
        assert(report.succeeded_view() =~= succeeded_of(actions@.take(0), all.take(0)));
        assert(report.failed_view() =~= failed_of(actions@.take(0), all.take(0)));
    }
    while i < actions.len()
        invariant
            actions@.len() == all.len(),
            i <= actions.len(),
            rev@.len() == all.len() - i,
            forall|k: int| 0 <= k < rev@.len() ==> #[trigger] rev@[k] == all[all.len() - 1 - k],
            report.succeeded_view() == succeeded_of(actions@.take(i as int), all.take(i as int)),
            report.failed_view() == failed_of(actions@.take(i as int), all.take(i as int)),
            report.succeeded@.len() + report.failed@.len() == i,
        decreases actions.len() - i,
    {
        let x = rev.pop().unwrap();
        proof {
            assert(x == all[i as int]);
            let a = actions@.take(i + 1);
            let rs = all.take(i + 1);
            assert(a.drop_last() =~= actions@.take(i as int));
            assert(rs.take(i as int) =~= all.take(i as int));
            assert(a.last() == actions@[i as int]);
            assert(rs[i as int] == all[i as int]);
        }
        report.record(&actions[i], x);
        i = i + 1;
    }
    proof {
        assert(actions@.take(actions@.len() as int) =~= actions@);
        assert(all.take(all.len() as int) =~= all);
    }
    report
}

// --- laws -------------------------------------------------------------------

/// Every action is attempted: each lands in exactly one of the two lists.
pub proof fn law_every_action_is_reported(actions: Seq<Action>, results: Seq<Result<(), Error>>)
    requires
        actions.len() == results.len(),
    ensures
        succeeded_of(actions, results).len() + failed_of(actions, results).len() == actions.len(),
    decreases actions.len(),
{
    if actions.len() > 0 {
        law_every_action_is_reported(actions.drop_last(), results.take(actions.len() - 1));
    }
}

/// A failure never stops the run: the report fails exactly when some result
/// is an error.
pub proof fn law_failures_are_isolated(actions: Seq<Action>, results: Seq<Result<(), Error>>)
    requires
        actions.len() == results.len(),
    ensures
        (failed_of(actions, results).len() > 0) == (exists|i: int| 0 <= i < results.len() && #[trigger] results[i] is Err),
    decreases actions.len(),
{
    if actions.len() > 0 {
        let n = actions.len() - 1;
        let rs = results.take(n);
        law_failures_are_isolated(actions.drop_last(), rs);
        if exists|i: int| 0 <= i < rs.len() && #[trigger] rs[i] is Err {
            let i = choose|i: int| 0 <= i < rs.len() && #[trigger] rs[i] is Err;
            assert(results[i] is Err);
        }
        if exists|i: int| 0 <= i < results.len() && #[trigger] results[i] is Err {
            let i = choose|i: int| 0 <= i < results.len() && #[trigger] results[i] is Err;
            if i < n {
                assert(rs[i] is Err);
            }
        }
    }
}


// --- the printed report ----------------------------------------------------------

/// How a report prints its outcomes.
#[derive(Debug, Clone, Copy, PartialEq, Eq, Structural)]
pub enum ReportStyle {
    /// `project apply`: outcomes with their kind.
    Apply,
    /// `project destroy`: deletions by name.
    Destroy,
}

/// A failure's message, or `unknown error`.
pub open spec fn error_or_unknown(e: Option<Seq<char>>) -> Seq<char> {
    match e {
        Some(m) => m,
        None => "unknown error"@,
    }
}

/// The printed line of one outcome: a bold green check for a success, a bold
/// red cross and the error for a failure.
pub open spec fn outcome_line(style: ReportStyle, ok: bool, o: (Seq<char>, Seq<char>, Option<Seq<char>>)) -> Seq<char> {
    match (style, ok) {
        (ReportStyle::Apply, true) => bold_fg_painted("32"@, OK@) + " "@ + o.0 + " "@ + o.1 + "\n"@,
        (ReportStyle::Apply, false) => bold_fg_painted("31"@, ERR@) + " "@ + o.0 + " "@ + o.1 + ": "@ + error_or_unknown(o.2) + "\n"@,
        (ReportStyle::Destroy, true) => bold_fg_painted("32"@, OK@) + " deleted "@ + o.1 + "\n"@,
        (ReportStyle::Destroy, false) => bold_fg_painted("31"@, ERR@) + " "@ + o.1 + ": "@ + error_or_unknown(o.2) + "\n"@,
    }
}

/// The printed lines of a list of outcomes, in order.
pub open spec fn outcome_lines(style: ReportStyle, ok: bool, os: Seq<(Seq<char>, Seq<char>, Option<Seq<char>>)>) -> Seq<char>
    decreases os.len(),
{
    if os.len() == 0 {
        seq![]
    } else {
        outcome_lines(style, ok, os.drop_last()) + outcome_line(style, ok, os.last())
    }
}

/// The printed report: the successes, the failures, then the totals.
pub open spec fn report_text_of(style: ReportStyle, r: ApplyReport) -> Seq<char> {
    outcome_lines(style, true, r.succeeded_view()) + outcome_lines(style, false, r.failed_view()) + match style {
        ReportStyle::Apply => "Applied: "@,
        ReportStyle::Destroy => "Destroyed: "@,
    } + decimal(r.succeeded@.len()) + " succeeded, "@ + decimal(r.failed@.len()) + " failed.\n"@
}

fn push_outcome_line(out: &mut String, style: ReportStyle, ok: bool, o: &ActionOutcome)
    ensures
        final(out)@ == old(out)@ + outcome_line(style, ok, outcome_view(*o)),
{
    let mark = if ok { green_bold(OK) } else { red_bold(ERR) };
    push_str(out, mark.as_str());
    match style {
        ReportStyle::Apply => {
            push_str(out, " ");
            push_str(out, o.kind.as_str());
            push_str(out, " ");
            push_str(out, o.name.as_str());
        },
        ReportStyle::Destroy => {
            if ok {
                push_str(out, " deleted ");
            } else {
                push_str(out, " ");
            }
            push_str(out, o.name.as_str());
        },
    }
    if !ok {
        push_str(out, ": ");
        match &o.error {
            Some(e) => push_str(out, e.as_str()),
            None => push_str(out, "unknown error"),
        }
    }
    push_str(out, "\n");
    proof {
        assert(out@ =~= old(out)@ + outcome_line(style, ok, outcome_view(*o)));
    }
}

fn push_outcome_lines(out: &mut String, style: ReportStyle, ok: bool, os: &Vec<ActionOutcome>)
    ensures
        final(out)@ == old(out)@ + outcome_lines(style, ok, os@.map_values(|o: ActionOutcome| outcome_view(o))),
{
    let ghost vs = os@.map_values(|o: ActionOutcome| outcome_view(o));
    let ghost start = out@;
    let mut i: usize = 0;
    while i < os.len()
        invariant
            i <= os.len(),
            vs == os@.map_values(|o: ActionOutcome| outcome_view(o)),
            out@ == start + outcome_lines(style, ok, vs.take(i as int)),
        decreases os.len() - i,
    {
        let ghost before = out@;
        push_outcome_line(out, style, ok, &os[i]);
        proof {
            let t = vs.take(i + 1);
            assert(t.drop_last() =~= vs.take(i as int));
            assert(t.last() == outcome_view(os@[i as int]));
            assert(out@ =~= before + outcome_line(style, ok, outcome_view(os@[i as int])));
        }
        i = i + 1;
    }
    proof {
        assert(vs.take(os.len() as int) =~= vs);
    }
}

/// The text printed for a report: each success, each failure with its
/// error, then the totals.
pub fn report_text(style: ReportStyle, report: &ApplyReport) -> (r: String)
    ensures
        r@ == report_text_of(style, *report),
{
    let mut out = String::new();
    push_outcome_lines(&mut out, style, true, &report.succeeded);
    push_outcome_lines(&mut out, style, false, &report.failed);
    match style {
        ReportStyle::Apply => push_str(&mut out, "Applied: "),
        ReportStyle::Destroy => push_str(&mut out, "Destroyed: "),
    }
    let s = usize_to_string(report.succeeded.len());
    push_str(&mut out, s.as_str());
    push_str(&mut out, " succeeded, ");
    let f = usize_to_string(report.failed.len());
    push_str(&mut out, f.as_str());
    push_str(&mut out, " failed.\n");
    proof {
        assert(out@ =~= report_text_of(style, *report));
    }
    out
}

} // verus!
