//! The table of `org list-invitations`.

use vstd::prelude::*;
use crate::cli::workspace::{or_empty, text_or_empty};
use crate::client::session::InvitationInfo;
use crate::table::{table_text, Align, Table};
use crate::text::owned;

verus! {

/// The table row of an organization invitation: id, status, role and label.
pub open spec fn invitation_row(inv: InvitationInfo) -> Seq<Seq<char>> {
    seq![inv.invitation_id@, or_empty(inv.status), or_empty(inv.role), or_empty(inv.label)]
}

/// The text of `org list-invitations`.
pub open spec fn invitations_text(invs: Seq<InvitationInfo>) -> Seq<char> {
    if invs.len() == 0 {
        "No invitations."@
    } else {
        table_text(
            seq!["INVITATION ID"@, "STATUS"@, "ROLE"@, "LABEL"@],
            seq![Align::Left, Align::Left, Align::Left, Align::Left],
            invs.map_values(|inv: InvitationInfo| invitation_row(inv)),
        )
    }
}

/// Render organization invitations as a table.
pub fn render_invitations(invitations: &[InvitationInfo]) -> (r: String)
    ensures
        r@ == invitations_text(invitations@),
{
    if invitations.len() == 0 {
        return owned("No invitations.");
    }
    let mut table = Table::new(&["INVITATION ID", "STATUS", "ROLE", "LABEL"]);
    proof {
        reveal_strlit("INVITATION ID");
        reveal_strlit("STATUS");
        reveal_strlit("ROLE");
        reveal_strlit("LABEL");
        assert(table.spec_aligns() =~= seq![Align::Left, Align::Left, Align::Left, Align::Left]);
        assert(table.spec_headers() =~= seq!["INVITATION ID"@, "STATUS"@, "ROLE"@, "LABEL"@]);
    }
    let mut i: usize = 0;
    while i < invitations.len()
        invariant
            i <= invitations.len(),
            table.well_formed(),
            table.spec_headers() == seq!["INVITATION ID"@, "STATUS"@, "ROLE"@, "LABEL"@],
            table.spec_aligns() == seq![Align::Left, Align::Left, Align::Left, Align::Left],
            table.spec_rows() == invitations@.take(i as int).map_values(|inv: InvitationInfo| invitation_row(inv)),
        decreases invitations.len() - i,
    {
        let inv = &invitations[i];
        let status = text_or_empty(&inv.status);
        let role = text_or_empty(&inv.role);
        let label = text_or_empty(&inv.label);
        let cells = [inv.invitation_id.as_str(), status.as_str(), role.as_str(), label.as_str()];
        table.row(&cells);
        proof {
            assert(cells@.map_values(|s: &str| s@) =~= invitation_row(*inv));
            assert(invitations@.take(i + 1).map_values(|inv: InvitationInfo| invitation_row(inv))
                =~= invitations@.take(i as int).map_values(|inv: InvitationInfo| invitation_row(inv)).push(
                invitation_row(invitations@[i as int]),
            ));
        }
        i = i + 1;
    }
    proof {
        assert(invitations@.take(invitations.len() as int) =~= invitations@);
    }
    table.render()
}

} // verus!
