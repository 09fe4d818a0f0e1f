//! `tz pipeline list`: the hint for a disconnected node and the one-line
//! definitions shown in the table.

use vstd::prelude::*;
use crate::client::transport::collapse_ws;
use crate::error::{Error, HintedError};
use crate::ext::{render_utf8_full, utf8_full_table};
use crate::model::{lifecycle_wire, RemotePipeline};
use crate::text::{chars_of, owned, push_str, string_of_range, string_views};

verus! {

/// The maximum definition width shown in the text table.
pub const DEFINITION_WIDTH: usize = 60;

/// The hint given when the node is disconnected.
pub open spec fn disconnected_hint_text() -> Seq<char> {
    "the node is not connected to the platform; check that it is running"@
}

/// Wrap an error, adding a hint when the node is disconnected.
pub fn disconnected_hint(error: Error) -> (r: HintedError)
    ensures
        r.error == error,
        error is NodeDisconnected ==> r.hints@.len() == 1 && r.hints@[0]@ == disconnected_hint_text(),
        !(error is NodeDisconnected) ==> r.hints@.len() == 0,
{
    match error {
        Error::NodeDisconnected => HintedError::new(error).with_hint(
            "the node is not connected to the platform; check that it is running",
        ),
        other => HintedError::new(other),
    }
}

/// A definition on one line, clipped to 60 characters with `…`.
pub open spec fn one_line_definition(definition: Seq<char>) -> Seq<char> {
    let line = collapse_ws(definition);
    if line.len() > DEFINITION_WIDTH {
        line.take(DEFINITION_WIDTH - 1) + "\u{2026}"@
    } else {
        line
    }
}

/// Truncate a definition to a single, width-limited line.
pub fn truncate_definition(definition: &str) -> (r: String)
    ensures
        r@ == one_line_definition(definition@),
{
    let line = crate::client::transport::collapse_chars_of(definition);
    if line.len() > DEFINITION_WIDTH {
        let mut s = string_of_range(&line, 0, DEFINITION_WIDTH - 1);
        push_str(&mut s, "\u{2026}");
        proof {
            assert(line@.subrange(0, DEFINITION_WIDTH - 1) =~= line@.take(DEFINITION_WIDTH - 1));
        }
        s
    } else {
        crate::text::string_of(&line)
    }
}


/// The table row of a pipeline: its name, its state and its one-line
/// definition.
pub open spec fn pipeline_row(p: RemotePipeline) -> Seq<Seq<char>> {
    seq![p.name@, lifecycle_wire(p.state), one_line_definition(p.definition@)]
}

/// The text of `pipeline list`: a note when the node has no pipelines, else
/// the table of their rows.
pub open spec fn pipelines_text(pipelines: Seq<RemotePipeline>) -> Seq<char> {
    if pipelines.len() == 0 {
        "No pipelines on this node."@
    } else {
        utf8_full_table(
            seq!["NAME"@, "STATE"@, "DEFINITION"@],
            pipelines.map_values(|p: RemotePipeline| pipeline_row(p)),
        )
    }
}

/// Render the pipelines of a node as a table.
pub fn render_table(pipelines: &[RemotePipeline]) -> (r: String)
    ensures
        r@ == pipelines_text(pipelines@),
{
    if pipelines.len() == 0 {
        return owned("No pipelines on this node.");
    }
    let mut rows: Vec<Vec<String>> = Vec::new();
    let mut i: usize = 0;
    while i < pipelines.len()
        invariant
            i <= pipelines.len(),
            rows@.map_values(|row: Vec<String>| string_views(row@)) == pipelines@.take(i as int).map_values(
                |p: RemotePipeline| pipeline_row(p),
            ),
        decreases pipelines.len() - i,
    {
        let p = &pipelines[i];
        let mut row: Vec<String> = Vec::new();
        row.push(owned(p.name.as_str()));
        row.push(owned(p.state.as_wire()));
        row.push(truncate_definition(p.definition.as_str()));
        let ghost before = rows@.map_values(|row: Vec<String>| string_views(row@));
        rows.push(row);
        proof {
            assert(string_views(row@) =~= pipeline_row(*p));
            assert(rows@.map_values(|row: Vec<String>| string_views(row@)) =~= before.push(pipeline_row(*p)));
            assert(pipelines@.take(i + 1).map_values(|p: RemotePipeline| pipeline_row(p)) =~= pipelines@.take(
                i as int,
            ).map_values(|p: RemotePipeline| pipeline_row(p)).push(pipeline_row(pipelines@[i as int])));
        }
        i = i + 1;
    }
    proof {
        assert(pipelines@.take(pipelines.len() as int) =~= pipelines@);
    }
    let header = ["NAME", "STATE", "DEFINITION"];
    let r = render_utf8_full(&header, rows);
    proof {
        reveal_strlit("NAME");
        reveal_strlit("STATE");
        reveal_strlit("DEFINITION");
        assert(header@.map_values(|h: &str| h@) =~= seq!["NAME"@, "STATE"@, "DEFINITION"@]);
    }
    r
}

} // verus!
