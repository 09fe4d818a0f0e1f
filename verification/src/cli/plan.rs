//! `tz project plan`: the rendering of a plan as a reviewable diff and the
//! exit code that gates CI.

use vstd::prelude::*;
use crate::ext::{fg_painted, green, red, yellow};
use crate::model::{lifecycle_wire, DesiredState};
use crate::project::frontmatter::{desired_state_wire, desired_wire};
use crate::reconcile::{count_rank, spec_has_changes, Action, Orphan, Plan, Terminal};
use crate::text::{decimal, join, join_strings, pad_right, push_char, push_padded_right, push_str, string_views, usize_to_string};

verus! {

/// Exit code emitted when the plan contains pending changes (CI gating).
pub const EXIT_CHANGES_PENDING: u8 = 2;

/// The exit code of `tz project plan`: `2` when changes are pending.
pub fn exit_code(plan: &Plan) -> (r: u8)
    ensures
        r == if spec_has_changes(plan.actions@, plan.orphans@) { EXIT_CHANGES_PENDING } else { 0 },
{
    if plan.has_changes() { EXIT_CHANGES_PENDING } else { 0 }
}

/// The start of a diff line: a colored marker, the name in 24 columns and the
/// kind in 10.
pub open spec fn line_head(marker: Seq<char>, name: Seq<char>, kind: Seq<char>) -> Seq<char> {
    marker + " "@ + pad_right(name, 24) + " "@ + pad_right(kind, 10)
}

/// The diff line of one action.
pub open spec fn action_line(a: Action) -> Seq<char> {
    match a {
        Action::Create(p) => line_head(fg_painted("32"@, "+"@), p.name@, "create"@) + " -> "@ + desired_wire(p.state),
        Action::SetDefinition { to, .. } => line_head(fg_painted("33"@, "~"@), to.name@, "set"@) + " definition changed"@,
        Action::Delete { name, .. } => line_head(fg_painted("31"@, "-"@), name@, "delete"@) + " (--prune)"@,
        Action::Transition { name, from, to, .. } => line_head(fg_painted("33"@, "\u{23f8}"@), name@, "transition"@)
            + " "@ + lifecycle_wire(from) + " -> "@ + desired_wire(to),
    }
}

/// Append the start of a diff line.
pub fn push_head(out: &mut String, marker: &str, name: &str, kind: &str)
    ensures
        final(out)@ == old(out)@ + line_head(marker@, name@, kind@),
{
    push_str(out, marker);
    push_str(out, " ");
    push_padded_right(out, name, 24);
    push_str(out, " ");
    push_padded_right(out, kind, 10);
}

/// Render a single action line.
pub fn render_action(action: &Action) -> (r: String)
    ensures
        r@ == action_line(*action),
{
    let mut out = String::new();
    match action {
        Action::Create(p) => {
            let m = green("+");
            push_head(&mut out, m.as_str(), p.name.as_str(), "create");
            push_str(&mut out, " -> ");
            push_str(&mut out, desired_state_wire(p.state));
        },
        Action::SetDefinition { to, .. } => {
            let m = yellow("~");
            push_head(&mut out, m.as_str(), to.name.as_str(), "set");
            push_str(&mut out, " definition changed");
        },
        Action::Delete { name, .. } => {
            let m = red("-");
            push_head(&mut out, m.as_str(), name.as_str(), "delete");
            push_str(&mut out, " (--prune)");
        },
        Action::Transition { name, from, to, .. } => {
            let m = yellow("\u{23f8}");
            push_head(&mut out, m.as_str(), name.as_str(), "transition");
            push_str(&mut out, " ");
            push_str(&mut out, from.as_wire());
            push_str(&mut out, " -> ");
            push_str(&mut out, desired_state_wire(*to));
        },
    }
    proof {
        assert(out@ =~= action_line(*action));
    }
    out
}

/// The diff lines of a sequence of actions, each ending in a newline.
pub open spec fn actions_text(s: Seq<Action>) -> Seq<char>
    decreases s.len(),
{
    if s.len() == 0 {
        seq![]
    } else {
        actions_text(s.drop_last()) + action_line(s.last()) + "\n"@
    }
}

/// The lines of orphans that would not be deleted without `--prune`.
pub open spec fn gated_text(s: Seq<Orphan>) -> Seq<char>
    decreases s.len(),
{
    if s.len() == 0 {
        seq![]
    } else {
        gated_text(s.drop_last()) + line_head(fg_painted("31"@, "-"@), s.last().name@, "delete"@)
            + " (orphaned, needs --prune)\n"@
    }
}

/// The lines of pipelines in terminal states, reported but not forced.
pub open spec fn terminal_text(s: Seq<Terminal>) -> Seq<char>
    decreases s.len(),
{
    if s.len() == 0 {
        seq![]
    } else {
        terminal_text(s.drop_last()) + line_head(fg_painted("33"@, "!"@), s.last().name@, "terminal"@) + " ("@
            + lifecycle_wire(s.last().state) + ", not forced)\n"@
    }
}

/// A count and its label, when the count is not zero.
pub open spec fn count_part(n: nat, label: Seq<char>) -> Seq<Seq<char>> {
    if n > 0 {
        seq![decimal(n) + label]
    } else {
        seq![]
    }
}

/// The parts of the summary line of a plan.
pub open spec fn summary_parts(actions: Seq<Action>, orphans: Seq<Orphan>, prune: bool) -> Seq<Seq<char>> {
    let parts = count_part(count_rank(actions, 1), " to create"@) + count_part(count_rank(actions, 2), " to set"@)
        + count_part(count_rank(actions, 3), " state change"@) + count_part(count_rank(actions, 0), " to delete"@)
        + if !prune { count_part(orphans.len(), " orphan"@) } else { seq![] };
    if parts.len() == 0 {
        seq!["no changes"@]
    } else {
        parts
    }
}

/// The summary line of a plan.
pub open spec fn summary_text(actions: Seq<Action>, orphans: Seq<Orphan>, prune: bool) -> Seq<char> {
    "Plan: "@ + join(summary_parts(actions, orphans, prune), ", "@) + "."@
}

/// Push `"{n}{label}"` onto `parts` when `n` is not zero.
pub fn push_count(parts: &mut Vec<String>, n: usize, label: &str)
    ensures
        string_views(final(parts)@) == string_views(old(parts)@) + count_part(n as nat, label@),
{
    let ghost before = string_views(parts@);
    if n > 0 {
        let mut s = usize_to_string(n);
        push_str(&mut s, label);
        parts.push(s);
        proof {
            assert(string_views(parts@) =~= before + count_part(n as nat, label@));
        }
    } else {
        proof {
            assert(string_views(parts@) =~= before + count_part(n as nat, label@));
        }
    }
}

/// Render the trailing summary line.
pub fn summary(plan: &Plan) -> (r: String)
    ensures
        r@ == summary_text(plan.actions@, plan.orphans@, plan.prune),
{
    let c = plan.counts();
    let mut parts: Vec<String> = Vec::new();
    push_count(&mut parts, c.create, " to create");
    push_count(&mut parts, c.set, " to set");
    push_count(&mut parts, c.transition, " state change");
    push_count(&mut parts, c.delete, " to delete");
    if !plan.prune {
        push_count(&mut parts, c.orphans, " orphan");
    }
    proof {
        assert(string_views(parts@) =~= count_part(count_rank(plan.actions@, 1), " to create"@) + count_part(
            count_rank(plan.actions@, 2),
            " to set"@,
        ) + count_part(count_rank(plan.actions@, 3), " state change"@) + count_part(count_rank(plan.actions@, 0), " to delete"@)
            + if !plan.prune { count_part(plan.orphans@.len(), " orphan"@) } else { seq![] });
    }
    if parts.len() == 0 {
        parts.push(crate::text::owned("no changes"));
        proof {
            assert(string_views(parts@) =~= seq!["no changes"@]);
        }
    }
    let mut out = crate::text::owned("Plan: ");
    let joined = join_strings(&parts, ", ");
    push_str(&mut out, joined.as_str());
    push_str(&mut out, ".");
    out
}

/// The whole rendering of a plan: the action lines, the gated orphans when
/// not pruning, the terminal pipelines, then either the in-sync message or
/// the summary line.
pub open spec fn plan_text(plan: Plan) -> Seq<char> {
    actions_text(plan.actions@) + (if !plan.prune { gated_text(plan.orphans@) } else { seq![] }) + terminal_text(
        plan.terminal@,
    ) + if !spec_has_changes(plan.actions@, plan.orphans@) && plan.terminal@.len() == 0 {
        "No changes. The node matches the project.\n"@
    } else {
        summary_text(plan.actions@, plan.orphans@, plan.prune) + "\n"@
    }
}

/// Render a plan as a stable, reviewable diff.
pub fn render(plan: &Plan) -> (r: String)
    ensures
        r@ == plan_text(*plan),
{
    let mut out = String::new();
    let mut i: usize = 0;
    while i < plan.actions.len()
        invariant
            i <= plan.actions.len(),
            out@ == actions_text(plan.actions@.take(i as int)),
        decreases plan.actions.len() - i,
    {
        proof {
            assert(plan.actions@.take(i + 1).drop_last() =~= plan.actions@.take(i as int));
        }
        let line = render_action(&plan.actions[i]);
        push_str(&mut out, line.as_str());
        push_str(&mut out, "\n");
        i = i + 1;
    }
    proof {
        assert(plan.actions@.take(plan.actions@.len() as int) =~= plan.actions@);
    }
    let ghost after_actions = out@;
    if !plan.prune {
        let mut j: usize = 0;
        while j < plan.orphans.len()
            invariant
                j <= plan.orphans.len(),
                out@ == after_actions + gated_text(plan.orphans@.take(j as int)),
            decreases plan.orphans.len() - j,
        {
            proof {
                assert(plan.orphans@.take(j + 1).drop_last() =~= plan.orphans@.take(j as int));
            }
            let m = red("-");
            push_head(&mut out, m.as_str(), plan.orphans[j].name.as_str(), "delete");
            push_str(&mut out, " (orphaned, needs --prune)\n");
            j = j + 1;
        }
        proof {
            assert(plan.orphans@.take(plan.orphans@.len() as int) =~= plan.orphans@);
        }
    }
    let ghost after_gated = out@;
    let mut k: usize = 0;
    while k < plan.terminal.len()
        invariant
            k <= plan.terminal.len(),
            out@ == after_gated + terminal_text(plan.terminal@.take(k as int)),
        decreases plan.terminal.len() - k,
    {
        proof {
            assert(plan.terminal@.take(k + 1).drop_last() =~= plan.terminal@.take(k as int));
        }
        let m = yellow("!");
        push_head(&mut out, m.as_str(), plan.terminal[k].name.as_str(), "terminal");
        push_str(&mut out, " (");
        push_str(&mut out, plan.terminal[k].state.as_wire());
        push_str(&mut out, ", not forced)\n");
        k = k + 1;
    }
    proof {
        assert(plan.terminal@.take(plan.terminal@.len() as int) =~= plan.terminal@);
    }
    if !plan.has_changes() && plan.terminal.len() == 0 {
        push_str(&mut out, "No changes. The node matches the project.\n");
        return out;
    }
    let s = summary(plan);
    push_str(&mut out, s.as_str());
    push_str(&mut out, "\n");
    out
}


/// The number of actions in `s` for which `pred` holds.
pub open spec fn count_where(s: Seq<Action>, pred: spec_fn(Action) -> bool) -> nat
    decreases s.len(),
{
    if s.len() == 0 {
        0
    } else {
        count_where(s.drop_last(), pred) + if pred(s.last()) {
            1nat
        } else {
            0nat
        }
    }
}

proof fn lemma_count_rank_kinds(s: Seq<Action>)
    ensures
        count_rank(s, 0) == count_where(s, |a: Action| a is Delete),
        count_rank(s, 1) == count_where(s, |a: Action| a is Create),
        count_rank(s, 2) == count_where(s, |a: Action| a is SetDefinition),
        count_rank(s, 3) == count_where(s, |a: Action| a is Transition),
    decreases s.len(),
{
    if s.len() > 0 {
        lemma_count_rank_kinds(s.drop_last());
    }
}

/// The summary line counts each kind of change under its own label: the
/// creates as "to create", the definition updates as "to set", the run-state
/// transitions as "state change", the deletes as "to delete", and, without
/// `--prune`, the orphans as "orphan"; a kind that does not occur is left
/// out, and a plan with none of them says "no changes".
pub proof fn law_summary_counts_each_kind(actions: Seq<Action>, orphans: Seq<Orphan>, prune: bool)
    ensures
        summary_parts(actions, orphans, prune) == ({
            let parts = count_part(count_where(actions, |a: Action| a is Create), " to create"@) + count_part(
                count_where(actions, |a: Action| a is SetDefinition),
                " to set"@,
            ) + count_part(count_where(actions, |a: Action| a is Transition), " state change"@) + count_part(
                count_where(actions, |a: Action| a is Delete),
                " to delete"@,
            ) + if !prune {
                count_part(orphans.len(), " orphan"@)
            } else {
                seq![]
            };
            if parts.len() == 0 {
                seq!["no changes"@]
            } else {
                parts
            }
        }),
{
    lemma_count_rank_kinds(actions);
}

} // verus!
