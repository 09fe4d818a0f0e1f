//! `tz alert`: reading alert durations and the alert table.

use vstd::prelude::*;
use crate::cli::workspace::{or_empty, text_or_empty};
use crate::client::session::Alert;
use crate::error::{Error, HintedError};
use crate::table::{table_text, Align, Table};
use crate::ext::{debug_quoted, debug_str};
use crate::text::{chars_of, decimal, is_digit, owned, u64_to_string, parse_u64_chars, parses_u64, push_str, slice_chars, trim, trim_chars, u64_value};

verus! {

/// The seconds in one unit of a duration suffix, if `c` is one.
pub open spec fn unit_seconds(c: char) -> Option<nat> {
    if c == 's' {
        Some(1)
    } else if c == 'm' {
        Some(60)
    } else if c == 'h' {
        Some(3600)
    } else if c == 'd' {
        Some(86400)
    } else {
        None
    }
}

/// The number and unit of a trimmed duration: a suffix `s`/`m`/`h`/`d`, or
/// plain seconds when it ends in a digit.
pub open spec fn duration_parts(s: Seq<char>) -> Option<(Seq<char>, nat)> {
    if s.len() == 0 {
        None
    } else {
        match unit_seconds(s.last()) {
            Some(u) => Some((s.drop_last(), u)),
            None => if is_digit(s.last()) {
                Some((s, 1))
            } else {
                None
            },
        }
    }
}

/// The seconds a duration like `30s`, `5m`, `1h`, `2d` or `45` denotes; none
/// for anything else, including zero.
pub open spec fn duration_seconds(input: Seq<char>) -> Option<nat> {
    match duration_parts(trim(input)) {
        Some((value, unit)) => if parses_u64(trim(value)) && u64_value(trim(value)) != 0 {
            Some(u64_value(trim(value)) * unit)
        } else {
            None
        },
        None => None,
    }
}

/// The hint given for a malformed duration.
pub open spec fn duration_hint() -> Seq<char> {
    "use a value like 30s, 5m, 1h, or 2d"@
}

/// The count and the unit (in seconds) of a duration, when it has both and
/// the count is not zero.
fn duration_value(input: &str) -> (r: Option<(u64, u64)>)
    ensures
        match r {
            Some((n, u)) => u >= 1 && duration_seconds(input@) == Some((n * u) as nat),
            None => duration_seconds(input@) is None,
        },
{
    let s = trim_chars(&chars_of(input));
    let parts: Option<(Vec<char>, u64)> = if s.len() == 0 {
        None
    } else {
        let c = s[s.len() - 1];
        let unit: Option<u64> = if c == 's' {
            Some(1)
        } else if c == 'm' {
            Some(60)
        } else if c == 'h' {
            Some(3600)
        } else if c == 'd' {
            Some(86400)
        } else {
            None
        };
        match unit {
            Some(u) => {
                let v = slice_chars(&s, 0, s.len() - 1);
                proof {
                    assert(s@.subrange(0, s@.len() - 1) =~= s@.drop_last());
                }
                Some((v, u))
            },
            None => {
                if '0' <= c && c <= '9' {
                    Some((slice_chars(&s, 0, s.len()), 1))
                } else {
                    None
                }
            },
        }
    };
    proof {
        assert(s@.subrange(0, s@.len() as int) =~= s@);
    }
    match parts {
        Some((value, unit)) => {
            let tv = trim_chars(&value);
            match parse_u64_chars(&tv) {
                Some(n) => {
                    if n == 0 {
                        None
                    } else {
                        Some((n, unit))
                    }
                },
                None => None,
            }
        },
        None => None,
    }
}

/// Whether the seconds of a duration fit in a `u64` (trivially so when the
/// duration is malformed): what [`parse_duration`] requires.
pub fn duration_fits(input: &str) -> (r: bool)
    ensures
        r == (duration_seconds(input@) matches Some(n) ==> n <= u64::MAX),
{
    match duration_value(input) {
        Some((n, u)) => {
            let q = u64::MAX / u;
            proof {
                assert((n <= q) <==> (n * u <= u64::MAX)) by (nonlinear_arith)
                    requires
                        u >= 1,
                        q == u64::MAX / u,
                {
                    if n <= q {
                        assert(n * u <= q * u);
                        assert(q * u <= u64::MAX);
                    } else {
                        assert(n >= q + 1);
                        assert(n * u >= (q + 1) * u);
                        assert((q + 1) * u > u64::MAX);
                    }
                }
            }
            n <= q
        },
        None => true,
    }
}

/// Parse a human duration like `30s`, `5m`, `1h`, `2d`, or plain seconds,
/// into whole seconds.
pub fn parse_duration(input: &str) -> (r: Result<u64, HintedError>)
    requires
        duration_seconds(input@) matches Some(n) ==> n <= u64::MAX,
    ensures
        match duration_seconds(input@) {
            Some(n) => r == Ok::<u64, HintedError>(n as u64),
            None => r matches Err(e) && e.error matches Error::Config(m) && m@ == "invalid duration: "@ + debug_str(input@)
                && e.hints@.len() == 1 && e.hints@[0]@ == duration_hint(),
        },
{
    match duration_value(input) {
        Some((n, u)) => Ok(n * u),
        None => {
            let mut m = owned("invalid duration: ");
            let q = debug_quoted(input);
            push_str(&mut m, q.as_str());
            Err(HintedError::new(Error::Config(m)).with_hint("use a value like 30s, 5m, 1h, or 2d"))
        },
    }
}


/// The duration cell of an alert: its seconds and `s`, or nothing.
pub open spec fn duration_cell(d: Option<u64>) -> Seq<char> {
    match d {
        Some(n) => decimal(n as nat) + "s"@,
        None => seq![],
    }
}

/// The table row of an alert: id, node, duration and webhook.
pub open spec fn alert_row(a: Alert) -> Seq<Seq<char>> {
    seq![a.id@, or_empty(a.node_id), duration_cell(a.duration_seconds), or_empty(a.webhook_url)]
}

/// The text of `alert list`.
pub open spec fn alerts_text(alerts: Seq<Alert>) -> Seq<char> {
    if alerts.len() == 0 {
        "No alerts configured."@
    } else {
        table_text(
            seq!["ALERT ID"@, "NODE"@, "DURATION"@, "WEBHOOK URL"@],
            seq![Align::Left, Align::Left, Align::Left, Align::Left],
            alerts.map_values(|a: Alert| alert_row(a)),
        )
    }
}

/// Render the alerts as a table.
pub fn render_table(alerts: &[Alert]) -> (r: String)
    ensures
        r@ == alerts_text(alerts@),
{
    if alerts.len() == 0 {
        return owned("No alerts configured.");
    }
    let mut table = Table::new(&["ALERT ID", "NODE", "DURATION", "WEBHOOK URL"]);
    proof {
        reveal_strlit("ALERT ID");
        reveal_strlit("NODE");
        reveal_strlit("DURATION");
        reveal_strlit("WEBHOOK URL");
        assert(table.spec_aligns() =~= seq![Align::Left, Align::Left, Align::Left, Align::Left]);
        assert(table.spec_headers() =~= seq!["ALERT ID"@, "NODE"@, "DURATION"@, "WEBHOOK URL"@]);
    }
    let mut i: usize = 0;
    while i < alerts.len()
        invariant
            i <= alerts.len(),
            table.well_formed(),
            table.spec_headers() == seq!["ALERT ID"@, "NODE"@, "DURATION"@, "WEBHOOK URL"@],
            table.spec_aligns() == seq![Align::Left, Align::Left, Align::Left, Align::Left],
            table.spec_rows() == alerts@.take(i as int).map_values(|a: Alert| alert_row(a)),
        decreases alerts.len() - i,
    {
        let a = &alerts[i];
        let node = text_or_empty(&a.node_id);
        let url = text_or_empty(&a.webhook_url);
        let duration = match a.duration_seconds {
            Some(n) => {
                let mut d = u64_to_string(n);
                push_str(&mut d, "s");
                d
            },
            None => String::new(),
        };
        let cells = [a.id.as_str(), node.as_str(), duration.as_str(), url.as_str()];
        table.row(&cells);
        proof {
            reveal_strlit("s");
            assert(duration@ =~= duration_cell(a.duration_seconds));
            assert(cells@.map_values(|s: &str| s@) =~= alert_row(*a));
            assert(alerts@.take(i + 1).map_values(|a: Alert| alert_row(a)) =~= alerts@.take(i as int).map_values(
                |a: Alert| alert_row(a),
            ).push(alert_row(alerts@[i as int])));
        }
        i = i + 1;
    }
    proof {
        assert(alerts@.take(alerts.len() as int) =~= alerts@);
    }
    table.render()
}

} // verus!
