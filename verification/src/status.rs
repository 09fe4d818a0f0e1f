//! Types and helpers for `pipeline status`: diagnostics composed from
//! bounded, hidden TQL queries on a node.

use vstd::prelude::*;
use crate::ext::{bold, bold_fg_painted, dimmed, fg_painted, red, red_bold, styled, yellow_bold};
use crate::text::{decimal, owned, pad_right, push_padded_right, push_str, trim_end, trim_end_str, u64_to_string, usize_to_string};

verus! {

/// A time range for diagnostics and activity queries.
#[derive(Debug, Clone, Copy, PartialEq, Eq, Structural)]
pub enum StatusRange {
    /// The last hour, in 1-minute buckets.
    Hour,
    /// The last day, in 10-minute buckets.
    Day,
    /// The last week, in 1-hour buckets.
    Week,
    /// The last two weeks, in 2-hour buckets.
    Fortnight,
}

/// The TQL duration literal of a range.
pub open spec fn range_tql(r: StatusRange) -> Seq<char> {
    match r {
        StatusRange::Hour => "1h"@,
        StatusRange::Day => "1d"@,
        StatusRange::Week => "7d"@,
        StatusRange::Fortnight => "14d"@,
    }
}

/// The activity bucket interval literal of a range.
pub open spec fn range_interval(r: StatusRange) -> Seq<char> {
    match r {
        StatusRange::Hour => "1min"@,
        StatusRange::Day => "10min"@,
        StatusRange::Week => "1h"@,
        StatusRange::Fortnight => "2h"@,
    }
}

impl StatusRange {
    /// The TQL duration literal for this range (e.g. `1d`).
    pub fn as_tql(self) -> (r: &'static str)
        ensures
            r@ == range_tql(self),
    {
        match self {
            StatusRange::Hour => "1h",
            StatusRange::Day => "1d",
            StatusRange::Week => "7d",
            StatusRange::Fortnight => "14d",
        }
    }

    /// The `pipeline::activity` bucket interval literal for this range.
    pub fn interval(self) -> (r: &'static str)
        ensures
            r@ == range_interval(self),
    {
        match self {
            StatusRange::Hour => "1min",
            StatusRange::Day => "10min",
            StatusRange::Week => "1h",
            StatusRange::Fortnight => "2h",
        }
    }
}

/// The severity of a diagnostic message.
#[derive(Debug, Clone, Copy, PartialEq, Eq, Structural)]
pub enum Severity {
    /// An error; the pipeline may have failed.
    Error,
    /// A warning; the pipeline continues.
    Warning,
    /// An informational note.
    Note,
    /// An unrecognized severity.
    Unknown,
}

/// The lowercase label of a severity.
pub open spec fn severity_label(s: Severity) -> Seq<char> {
    match s {
        Severity::Error => "error"@,
        Severity::Warning => "warning"@,
        Severity::Note => "note"@,
        Severity::Unknown => "unknown"@,
    }
}

impl Severity {
    /// The lowercase label for this severity.
    pub fn label(self) -> (r: &'static str)
        ensures
            r@ == severity_label(self),
    {
        match self {
            Severity::Error => "error",
            Severity::Warning => "warning",
            Severity::Note => "note",
            Severity::Unknown => "unknown",
        }
    }

    /// The severity named by a wire string; unknown names give
    /// [`Severity::Unknown`].
    pub fn from_wire(s: &str) -> (r: Severity)
        ensures
            r == (if s@ == "error"@ {
                Severity::Error
            } else if s@ == "warning"@ {
                Severity::Warning
            } else if s@ == "note"@ {
                Severity::Note
            } else {
                Severity::Unknown
            }),
    {
        if crate::text::str_eq(s, "error") {
            Severity::Error
        } else if crate::text::str_eq(s, "warning") {
            Severity::Warning
        } else if crate::text::str_eq(s, "note") {
            Severity::Note
        } else {
            Severity::Unknown
        }
    }
}

/// A single diagnostic emitted by a pipeline.
#[derive(Debug, Clone, PartialEq, Eq)]
pub struct Diagnostic {
    /// The event timestamp (ISO-8601 string, as emitted by the node).
    pub timestamp: Option<String>,
    /// The severity.
    pub severity: Severity,
    /// The short diagnostic message.
    pub message: Option<String>,
    /// The fully rendered, human-readable diagnostic, if provided.
    pub rendered: Option<String>,
}

/// The best available text of a diagnostic: its message, else its rendering,
/// else empty.
pub open spec fn diagnostic_text(d: Diagnostic) -> Seq<char> {
    match d.message {
        Some(m) => m@,
        None => match d.rendered {
            Some(r) => r@,
            None => seq![],
        },
    }
}

impl Diagnostic {
    /// The best available human-readable text for this diagnostic.
    pub fn text(&self) -> (r: &str)
        ensures
            r@ == diagnostic_text(*self),
    {
        match &self.message {
            Some(m) => m.as_str(),
            None => match &self.rendered {
                Some(r) => r.as_str(),
                None => {
                    proof {
                        reveal_strlit("");
                    }
                    ""
                },
            },
        }
    }
}

/// The severity label as printed before a diagnostic's text: bold red for
/// errors, bold yellow for warnings, plain otherwise.
pub open spec fn styled_label(s: Severity) -> Seq<char> {
    match s {
        Severity::Error => bold_fg_painted("31"@, severity_label(s)),
        Severity::Warning => bold_fg_painted("33"@, severity_label(s)),
        _ => severity_label(s),
    }
}

/// The line printed for a diagnostic while a pipeline runs: the node's own
/// rendering without trailing whitespace, when that is not empty; else the
/// styled severity label, a colon and the diagnostic's text.
pub open spec fn diagnostic_line_of(d: Diagnostic) -> Seq<char> {
    if d.rendered is Some && trim_end(d.rendered->0@).len() > 0 {
        trim_end(d.rendered->0@)
    } else {
        styled_label(d.severity) + ": "@ + diagnostic_text(d)
    }
}

/// The line printed for a diagnostic while a pipeline runs.
pub fn diagnostic_line(d: &Diagnostic) -> (r: String)
    ensures
        r@ == diagnostic_line_of(*d),
{
    if let Some(rendered) = &d.rendered {
        let t = trim_end_str(rendered.as_str());
        if crate::text::chars_of(t.as_str()).len() > 0 {
            return t;
        }
    }
    let label = d.severity.label();
    let mut line = match d.severity {
        Severity::Error => red_bold(label),
        Severity::Warning => yellow_bold(label),
        _ => crate::text::owned(label),
    };
    push_str(&mut line, ": ");
    push_str(&mut line, d.text());
    proof {
        reveal_strlit(": ");
    }
    line
}

/// Per-severity diagnostic counts over the queried range.
#[derive(Debug, Clone, Copy, PartialEq, Eq, Structural)]
pub struct DiagnosticCounts {
    /// The number of errors.
    pub error: u64,
    /// The number of warnings.
    pub warning: u64,
    /// The number of notes.
    pub note: u64,
}

impl Default for DiagnosticCounts {
    fn default() -> (r: Self)
        ensures
            r == (DiagnosticCounts { error: 0, warning: 0, note: 0 }),
    {
        DiagnosticCounts { error: 0, warning: 0, note: 0 }
    }
}

/// The number of diagnostics in `ds` with severity `s`.
pub open spec fn count_severity(ds: Seq<Diagnostic>, s: Severity) -> nat
    decreases ds.len(),
{
    if ds.len() == 0 {
        0
    } else {
        count_severity(ds.drop_last(), s) + if ds.last().severity == s {
            1nat
        } else {
            0nat
        }
    }
}

proof fn lemma_count_severity_bound(ds: Seq<Diagnostic>, s: Severity)
    ensures
        count_severity(ds, s) <= ds.len(),
    decreases ds.len(),
{
    if ds.len() > 0 {
        lemma_count_severity_bound(ds.drop_last(), s);
    }
}

impl DiagnosticCounts {
    /// Tally counts from a slice of diagnostics; unknown severities are not
    /// counted.
    pub fn from_diagnostics(diagnostics: &[Diagnostic]) -> (c: Self)
        ensures
            c.error == count_severity(diagnostics@, Severity::Error),
            c.warning == count_severity(diagnostics@, Severity::Warning),
            c.note == count_severity(diagnostics@, Severity::Note),
    {
        let mut c = DiagnosticCounts { error: 0, warning: 0, note: 0 };
        let mut i: usize = 0;
        while i < diagnostics.len()
            invariant
                i <= diagnostics.len(),
                c.error == count_severity(diagnostics@.take(i as int), Severity::Error),
                c.warning == count_severity(diagnostics@.take(i as int), Severity::Warning),
                c.note == count_severity(diagnostics@.take(i as int), Severity::Note),
            decreases diagnostics.len() - i,
        {
            proof {
                let t = diagnostics@.take(i + 1);
                assert(t.drop_last() =~= diagnostics@.take(i as int));
                assert(t.last() == diagnostics@[i as int]);
                lemma_count_severity_bound(diagnostics@.take(i as int), Severity::Error);
                lemma_count_severity_bound(diagnostics@.take(i as int), Severity::Warning);
                lemma_count_severity_bound(diagnostics@.take(i as int), Severity::Note);
            }
            match diagnostics[i].severity {
                Severity::Error => c.error = c.error + 1,
                Severity::Warning => c.warning = c.warning + 1,
                Severity::Note => c.note = c.note + 1,
                Severity::Unknown => {},
            }
            i = i + 1;
        }
        proof {
            assert(diagnostics@.take(diagnostics.len() as int) =~= diagnostics@);
        }
        c
    }
}

/// The diagnostics query for a pipeline id, range, and row limit.
pub open spec fn spec_diagnostics_query(id: Seq<char>, range: StatusRange, limit: nat) -> Seq<char> {
    "remote {\n  diagnostics\n  where pipeline_id == \""@ + id + "\"\n  where timestamp > now() - "@
        + range_tql(range) + "\n  where not hidden\n  sort -timestamp\n  head "@ + decimal(limit)
        + "\n}"@
}

/// Build the diagnostics query for a pipeline id and range.
pub fn diagnostics_query(pipeline_id: &str, range: StatusRange, limit: usize) -> (r: String)
    ensures
        r@ == spec_diagnostics_query(pipeline_id@, range, limit as nat),
{
    let mut q = String::new();
    push_str(&mut q, "remote {\n  diagnostics\n  where pipeline_id == \"");
    push_str(&mut q, pipeline_id);
    push_str(&mut q, "\"\n  where timestamp > now() - ");
    push_str(&mut q, range.as_tql());
    push_str(&mut q, "\n  where not hidden\n  sort -timestamp\n  head ");
    let n = usize_to_string(limit);
    push_str(&mut q, n.as_str());
    push_str(&mut q, "\n}");
    q
}

/// The `pipeline::activity` query for a range.
pub open spec fn spec_activity_query(range: StatusRange) -> Seq<char> {
    "remote { pipeline::activity range="@ + range_tql(range) + ", interval="@ + range_interval(range)
        + " }"@
}

/// Build the `pipeline::activity` query for a range.
pub fn activity_query(range: StatusRange) -> (r: String)
    ensures
        r@ == spec_activity_query(range),
{
    let mut q = String::new();
    push_str(&mut q, "remote { pipeline::activity range=");
    push_str(&mut q, range.as_tql());
    push_str(&mut q, ", interval=");
    push_str(&mut q, range.interval());
    push_str(&mut q, " }");
    q
}


// --- the status report ----------------------------------------------------------

/// The timestamp of a diagnostic, or empty.
pub open spec fn timestamp_or_empty(d: Diagnostic) -> Seq<char> {
    match d.timestamp {
        Some(t) => t@,
        None => seq![],
    }
}

/// The report line of one recent diagnostic: its timestamp in a field of
/// 24, its severity label in a field of 8, and its text.
pub open spec fn recent_line(d: Diagnostic) -> Seq<char> {
    "  "@ + pad_right(timestamp_or_empty(d), 24) + " "@ + pad_right(severity_label(d.severity), 8) + " "@
        + diagnostic_text(d) + "\n"@
}

/// The report lines of the recent diagnostics, in order.
pub open spec fn recent_lines(ds: Seq<Diagnostic>) -> Seq<char>
    decreases ds.len(),
{
    if ds.len() == 0 {
        seq![]
    } else {
        recent_lines(ds.drop_last()) + recent_line(ds.last())
    }
}

/// The status report before its trailing whitespace is cut: the bold name
/// and dimmed id, the state, the error in red when there is one, the
/// diagnostic counts and recent diagnostics (or `(none)`), and the activity
/// lines (or a note that the node gave none).
pub open spec fn status_body(
    name: Seq<char>,
    id: Seq<char>,
    state: Seq<char>,
    error: Option<Seq<char>>,
    counts: DiagnosticCounts,
    recent: Seq<Diagnostic>,
    range: StatusRange,
    activity_failed: bool,
    ingress: Seq<char>,
    egress: Seq<char>,
) -> Seq<char> {
    styled("1"@, name) + " ("@ + styled("2"@, id) + ")\n"@ + "  state:  "@ + state + "\n"@ + match error {
        Some(e) => "  error:  "@ + fg_painted("31"@, e) + "\n"@,
        None => seq![],
    } + "\ndiagnostics (last "@ + range_tql(range) + "): "@ + decimal(counts.error as nat) + " errors, "@ + decimal(
        counts.warning as nat,
    ) + " warnings, "@ + decimal(counts.note as nat) + " notes\n"@ + if recent.len() == 0 {
        "  (none)\n"@
    } else {
        recent_lines(recent)
    } + "\nactivity (last "@ + range_tql(range) + "):\n"@ + if activity_failed {
        "  (unavailable; node may not support pipeline::activity)\n"@
    } else {
        "  ingress: "@ + ingress + "\n"@ + "  egress:  "@ + egress + "\n"@
    }
}

/// The `pipeline status` report as text; `ingress` and `egress` are the
/// rendered activity lines.
pub fn status_text(
    name: &str,
    id: &str,
    state: &str,
    error: Option<&str>,
    counts: &DiagnosticCounts,
    recent: &[Diagnostic],
    range: StatusRange,
    activity_failed: bool,
    ingress: &str,
    egress: &str,
) -> (r: String)
    ensures
        r@ == trim_end(
            status_body(
                name@,
                id@,
                state@,
                match error {
                    Some(e) => Some(e@),
                    None => None,
                },
                *counts,
                recent@,
                range,
                activity_failed,
                ingress@,
                egress@,
            ),
        ),
{
    let mut out = bold(name);
    push_str(&mut out, " (");
    let d = dimmed(id);
    push_str(&mut out, d.as_str());
    push_str(&mut out, ")\n");
    push_str(&mut out, "  state:  ");
    push_str(&mut out, state);
    push_str(&mut out, "\n");
    let ghost head = out@;
    if let Some(e) = error {
        push_str(&mut out, "  error:  ");
        let re = red(e);
        push_str(&mut out, re.as_str());
        push_str(&mut out, "\n");
    }
    let ghost with_error = out@;
    push_str(&mut out, "\ndiagnostics (last ");
    push_str(&mut out, range.as_tql());
    push_str(&mut out, "): ");
    let e = u64_to_string(counts.error);
    push_str(&mut out, e.as_str());
    push_str(&mut out, " errors, ");
    let w = u64_to_string(counts.warning);
    push_str(&mut out, w.as_str());
    push_str(&mut out, " warnings, ");
    let n = u64_to_string(counts.note);
    push_str(&mut out, n.as_str());
    push_str(&mut out, " notes\n");
    let ghost counted = out@;
    if recent.len() == 0 {
        push_str(&mut out, "  (none)\n");
    } else {
        let mut i: usize = 0;
        while i < recent.len()
            invariant
                i <= recent.len(),
                out@ == counted + recent_lines(recent@.take(i as int)),
            decreases recent.len() - i,
        {
            let ghost before = out@;
            let d = &recent[i];
            push_str(&mut out, "  ");
            let ts = match &d.timestamp {
                Some(t) => t.as_str(),
                None => {
                    proof {
                        reveal_strlit("");
                    }
                    ""
                },
            };
            push_padded_right(&mut out, ts, 24);
            push_str(&mut out, " ");
            push_padded_right(&mut out, d.severity.label(), 8);
            push_str(&mut out, " ");
            push_str(&mut out, d.text());
            push_str(&mut out, "\n");
            proof {
                let t = recent@.take(i + 1);
                assert(t.drop_last() =~= recent@.take(i as int));
                assert(t.last() == recent@[i as int]);
                assert(out@ =~= before + recent_line(recent@[i as int]));
            }
            i = i + 1;
        }
        proof {
            assert(recent@.take(recent.len() as int) =~= recent@);
        }
    }
    let ghost listed = out@;
    push_str(&mut out, "\nactivity (last ");
    push_str(&mut out, range.as_tql());
    push_str(&mut out, "):\n");
    if activity_failed {
        push_str(&mut out, "  (unavailable; node may not support pipeline::activity)\n");
    } else {
        push_str(&mut out, "  ingress: ");
        push_str(&mut out, ingress);
        push_str(&mut out, "\n");
        push_str(&mut out, "  egress:  ");
        push_str(&mut out, egress);
        push_str(&mut out, "\n");
    }
    proof {
        let err = match error {
            Some(x) => Some(x@),
            None => None,
        };
        assert(with_error =~= head + match err {
            Some(x) => "  error:  "@ + fg_painted("31"@, x) + "\n"@,
            None => Seq::<char>::empty(),
        });
        assert(out@ =~= status_body(name@, id@, state@, err, *counts, recent@, range, activity_failed, ingress@, egress@));
    }
    trim_end_str(out.as_str())
}

} // verus!
