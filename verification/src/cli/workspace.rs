//! The tables of `workspace list` and `workspace list-invitations`.

use vstd::prelude::*;
use crate::client::session::InvitationInfo;
use crate::model::Workspace;
use crate::table::{table_text, Align, Table};
use crate::text::{decimal, owned, usize_to_string};

verus! {

/// An optional text, or nothing (`unwrap_or_default`).
pub open spec fn or_empty(o: Option<String>) -> Seq<char> {
    match o {
        Some(s) => s@,
        None => seq![],
    }
}

/// An optional text, or the empty string.
pub fn text_or_empty(o: &Option<String>) -> (r: String)
    ensures
        r@ == or_empty(*o),
{
    match o {
        Some(s) => owned(s.as_str()),
        None => String::new(),
    }
}

/// The table row of the `i`-th workspace: its 1-based number, name and id.
pub open spec fn workspace_row(i: int, w: Workspace) -> Seq<Seq<char>> {
    seq![decimal((i + 1) as nat), w.name@, w.tenant_id.0@]
}

/// The text of `workspace list`.
pub open spec fn workspaces_text(ws: Seq<Workspace>) -> Seq<char> {
    if ws.len() == 0 {
        "No workspaces available."@
    } else {
        table_text(
            seq!["#"@, "NAME"@, "WORKSPACE ID"@],
            seq![Align::Right, Align::Left, Align::Left],
            Seq::new(ws.len(), |i: int| workspace_row(i, ws[i])),
        )
    }
}

/// Render the workspaces as a numbered table.
pub fn render_table(workspaces: &[Workspace]) -> (r: String)
    ensures
        r@ == workspaces_text(workspaces@),
{
    if workspaces.len() == 0 {
        return owned("No workspaces available.");
    }
    let mut table = Table::new(&["#", "NAME", "WORKSPACE ID"]).align(0, Align::Right);
    proof {
        reveal_strlit("#");
        reveal_strlit("NAME");
        reveal_strlit("WORKSPACE ID");
        assert(table.spec_aligns() =~= seq![Align::Right, Align::Left, Align::Left]);
        assert(table.spec_headers() =~= seq!["#"@, "NAME"@, "WORKSPACE ID"@]);
    }
    let mut i: usize = 0;
    while i < workspaces.len()
        invariant
            i <= workspaces.len(),
            table.well_formed(),
            table.spec_headers() == seq!["#"@, "NAME"@, "WORKSPACE ID"@],
            table.spec_aligns() == seq![Align::Right, Align::Left, Align::Left],
            table.spec_rows() == Seq::new(i as nat, |k: int| workspace_row(k, workspaces@[k])),
        decreases workspaces.len() - i,
    {
        let n = usize_to_string(i + 1);
        let w = &workspaces[i];
        let cells = [n.as_str(), w.name.as_str(), w.tenant_id.0.as_str()];
        let ghost before = table.spec_rows();
        table.row(&cells);
        proof {
            assert(cells@.map_values(|s: &str| s@) =~= workspace_row(i as int, workspaces@[i as int]));
            assert(Seq::new((i + 1) as nat, |k: int| workspace_row(k, workspaces@[k])) =~= Seq::new(
                i as nat,
                |k: int| workspace_row(k, workspaces@[k]),
            ).push(workspace_row(i as int, workspaces@[i as int])));
        }
        i = i + 1;
    }
    table.render()
}

/// The table row of a workspace invitation: id, status and label.
pub open spec fn invitation_row(inv: InvitationInfo) -> Seq<Seq<char>> {
    seq![inv.invitation_id@, or_empty(inv.status), or_empty(inv.label)]
}

/// The text of `workspace list-invitations`.
pub open spec fn invitations_text(invs: Seq<InvitationInfo>) -> Seq<char> {
    if invs.len() == 0 {
        "No invitations."@
    } else {
        table_text(
            seq!["INVITATION ID"@, "STATUS"@, "LABEL"@],
            seq![Align::Left, Align::Left, Align::Left],
            invs.map_values(|inv: InvitationInfo| invitation_row(inv)),
        )
    }
}

/// Render workspace invitations as a table.
pub fn render_invitations(invitations: &[InvitationInfo]) -> (r: String)
    ensures
        r@ == invitations_text(invitations@),
{
    if invitations.len() == 0 {
        return owned("No invitations.");
    }
    let mut table = Table::new(&["INVITATION ID", "STATUS", "LABEL"]);
    proof {
        reveal_strlit("INVITATION ID");
        reveal_strlit("STATUS");
        reveal_strlit("LABEL");
        assert(table.spec_aligns() =~= seq![Align::Left, Align::Left, Align::Left]);
        assert(table.spec_headers() =~= seq!["INVITATION ID"@, "STATUS"@, "LABEL"@]);
    }
    let mut i: usize = 0;
    while i < invitations.len()
        invariant
            i <= invitations.len(),
            table.well_formed(),
            table.spec_headers() == seq!["INVITATION ID"@, "STATUS"@, "LABEL"@],
            table.spec_aligns() == seq![Align::Left, Align::Left, Align::Left],
            table.spec_rows() == invitations@.take(i as int).map_values(|inv: InvitationInfo| invitation_row(inv)),
        decreases invitations.len() - i,
    {
        let inv = &invitations[i];
        let status = text_or_empty(&inv.status);
        let label = text_or_empty(&inv.label);
        let cells = [inv.invitation_id.as_str(), status.as_str(), label.as_str()];
        table.row(&cells);
        proof {
            assert(cells@.map_values(|s: &str| s@) =~= invitation_row(*inv));
            assert(invitations@.take(i + 1).map_values(|inv: InvitationInfo| invitation_row(inv))
                =~= invitations@.take(i as int).map_values(|inv: InvitationInfo| invitation_row(inv)).push(
                invitation_row(invitations@[i as int]),
            ));
        }
        i = i + 1;
    }
    proof {
        assert(invitations@.take(invitations.len() as int) =~= invitations@);
    }
    table.render()
}

} // verus!
