//! `tz node`: the node table, and pointing a generated compose file at
//! another image.

use vstd::prelude::*;
use crate::ext::{fg_painted, green, red};
use crate::model::Node;
use crate::table::{table_text, Align, Table};
use crate::text::{decimal, owned, usize_to_string};
use crate::text::{
    char_views, chars_of, chars_start_with, join, lines, lines_of, push_char, push_str, slice_chars, starts_with,
    string_of, trim_bounds, trim_start,
};

verus! {

/// The leading whitespace of a line.
pub open spec fn indent_of(line: Seq<char>) -> Seq<char> {
    line.take(line.len() - trim_start(line).len())
}

/// Whether a line sets the stock Tenzir image: `image:` and then, after
/// optional whitespace, `tenzir/tenzir`.
pub open spec fn is_tenzir_image_line(line: Seq<char>) -> bool {
    let t = trim_start(line);
    starts_with(t, "image:"@) && starts_with(trim_start(t.skip(6)), "tenzir/tenzir"@)
}

/// The first line from `t` on that sets the stock image, if any.
pub open spec fn first_image_line(ls: Seq<Seq<char>>, t: int) -> Option<int>
    decreases ls.len() - t,
{
    if t < 0 || t >= ls.len() {
        None
    } else if is_tenzir_image_line(ls[t]) {
        Some(t)
    } else {
        first_image_line(ls, t + 1)
    }
}

/// The compose file with its first stock-image line replaced by
/// `image: <image>` at the same indentation, re-joined with `\n`.
pub open spec fn swapped_image(contents: Seq<char>, image: Seq<char>) -> Seq<char> {
    let ls = lines(contents);
    let out = match first_image_line(ls, 0) {
        Some(i) => ls.update(i, indent_of(ls[i]) + "image: "@ + image),
        None => ls,
    };
    join(out, "\n"@)
}

/// Whether a line sets the stock image.
fn image_line(line: &Vec<char>) -> (r: bool)
    ensures
        r == is_tenzir_image_line(line@),
{
    let (a, _b) = trim_bounds(line);
    let t = slice_chars(line, a, line.len());
    if !chars_start_with(&t, &chars_of("image:")) {
        return false;
    }
    proof {
        reveal_strlit("image:");
        assert(t@.len() >= 6);
    }
    let rest = slice_chars(&t, 6, t.len());
    let (c, _d) = trim_bounds(&rest);
    let r = slice_chars(&rest, c, rest.len());
    proof {
        assert(t@ == line@.subrange(a as int, line@.len() as int));
        assert(rest@ =~= t@.skip(6));
    }
    chars_start_with(&r, &chars_of("tenzir/tenzir"))
}

/// A found stock-image line lies in range and sets the stock image.
pub proof fn lemma_first_image_line(ls: Seq<Seq<char>>, t: int)
    ensures
        first_image_line(ls, t) matches Some(k) ==> 0 <= t <= k < ls.len() && is_tenzir_image_line(ls[k]),
    decreases ls.len() - t,
{
    if 0 <= t < ls.len() && !is_tenzir_image_line(ls[t]) {
        lemma_first_image_line(ls, t + 1);
    }
}

/// The first line that sets the stock image.
fn find_image_line(ls: &Vec<Vec<char>>) -> (r: Option<usize>)
    ensures
        r == (match first_image_line(char_views(ls@), 0) {
            Some(k) => Some(k as usize),
            None => None::<usize>,
        }),
{
    let ghost lv = char_views(ls@);
    let mut t: usize = 0;
    while t < ls.len()
        invariant
            t <= ls.len(),
            lv == char_views(ls@),
            first_image_line(lv, 0) == first_image_line(lv, t as int),
        decreases ls.len() - t,
    {
        if image_line(&ls[t]) {
            return Some(t);
        }
        t = t + 1;
    }
    None
}

/// Replace the first `image: tenzir/tenzir...` line of a compose file with a
/// custom `image`.
pub fn swap_image(contents: &str, image: &str) -> (r: String)
    ensures
        r@ == swapped_image(contents@, image@),
{
    let ls = lines_of(&chars_of(contents));
    let ghost lv = char_views(ls@);
    let found = find_image_line(&ls);
    proof {
        lemma_first_image_line(lv, 0);
    }
    let mut out = String::new();
    let mut i: usize = 0;
    let ghost target = match first_image_line(lv, 0) {
        Some(k) => lv.update(k, indent_of(lv[k]) + "image: "@ + image@),
        None => lv,
    };
    while i < ls.len()
        invariant
            i <= ls.len(),
            lv == char_views(ls@),
            target.len() == lv.len(),
            found == (match first_image_line(lv, 0) {
                Some(k) => Some(k as usize),
                None => None::<usize>,
            }),
            found matches Some(k) ==> k < ls.len(),
            first_image_line(lv, 0) matches Some(k) ==> 0 <= k < lv.len(),
            target == (match first_image_line(lv, 0) {
                Some(k) => lv.update(k, indent_of(lv[k]) + "image: "@ + image@),
                None => lv,
            }),
            out@ == join(target.take(i as int), "\n"@),
        decreases ls.len() - i,
    {
        proof {
            assert(target.take(i + 1).drop_last() =~= target.take(i as int));
        }
        if i > 0 {
            push_str(&mut out, "\n");
        }
        let ghost before = out@;
        if found == Some(i) {
            let (a, _b) = trim_bounds(&ls[i]);
            let indent = slice_chars(&ls[i], 0, a);
            let s = string_of(&indent);
            push_str(&mut out, s.as_str());
            push_str(&mut out, "image: ");
            push_str(&mut out, image);
            proof {
                let l = lv[i as int];
                assert(trim_start(l) == l.subrange(a as int, l.len() as int));
                assert(indent@ =~= indent_of(l));
                assert(target[i as int] == indent_of(l) + "image: "@ + image@);
                assert(out@ =~= before + target[i as int]);
            }
        } else {
            let s = string_of(&ls[i]);
            push_str(&mut out, s.as_str());
            proof {
                assert(target[i as int] == lv[i as int]);
            }
        }
        proof {
            if i == 0 {
                assert(target.take(1) =~= seq![target[0]]);
            }
        }
        i = i + 1;
    }
    proof {
        assert(target.take(ls.len() as int) =~= target);
    }
    out
}


/// The status cell of a node: `connected` in green or `disconnected` in red.
pub open spec fn status_cell(connected: bool) -> Seq<char> {
    if connected {
        fg_painted("32"@, "connected"@)
    } else {
        fg_painted("31"@, "disconnected"@)
    }
}

/// The table row of the `i`-th node: its 1-based number, name, id and status.
pub open spec fn node_row(i: int, n: Node) -> Seq<Seq<char>> {
    seq![decimal((i + 1) as nat), n.name@, n.node_id.0@, status_cell(n.connected)]
}

/// The text of `node list`.
pub open spec fn nodes_text(nodes: Seq<Node>) -> Seq<char> {
    if nodes.len() == 0 {
        "No nodes in this workspace."@
    } else {
        table_text(
            seq!["#"@, "NAME"@, "NODE ID"@, "STATUS"@],
            seq![Align::Right, Align::Left, Align::Left, Align::Left],
            Seq::new(nodes.len(), |i: int| node_row(i, nodes[i])),
        )
    }
}

/// Render the nodes of a workspace as a numbered table.
pub fn render_table(nodes: &[Node]) -> (r: String)
    ensures
        r@ == nodes_text(nodes@),
{
    if nodes.len() == 0 {
        return owned("No nodes in this workspace.");
    }
    let mut table = Table::new(&["#", "NAME", "NODE ID", "STATUS"]).align(0, Align::Right);
    proof {
        reveal_strlit("#");
        reveal_strlit("NAME");
        reveal_strlit("NODE ID");
        reveal_strlit("STATUS");
        assert(table.spec_aligns() =~= seq![Align::Right, Align::Left, Align::Left, Align::Left]);
        assert(table.spec_headers() =~= seq!["#"@, "NAME"@, "NODE ID"@, "STATUS"@]);
    }
    let mut i: usize = 0;
    while i < nodes.len()
        invariant
            i <= nodes.len(),
            table.well_formed(),
            table.spec_headers() == seq!["#"@, "NAME"@, "NODE ID"@, "STATUS"@],
            table.spec_aligns() == seq![Align::Right, Align::Left, Align::Left, Align::Left],
            table.spec_rows() == Seq::new(i as nat, |k: int| node_row(k, nodes@[k])),
        decreases nodes.len() - i,
    {
        let num = usize_to_string(i + 1);
        let n = &nodes[i];
        let status = if n.connected {
            green("connected")
        } else {
            red("disconnected")
        };
        let cells = [num.as_str(), n.name.as_str(), n.node_id.0.as_str(), status.as_str()];
        table.row(&cells);
        proof {
            reveal_strlit("connected");
            reveal_strlit("disconnected");
            assert(cells@.map_values(|s: &str| s@) =~= node_row(i as int, nodes@[i as int]));
            assert(Seq::new((i + 1) as nat, |k: int| node_row(k, nodes@[k])) =~= Seq::new(
                i as nat,
                |k: int| node_row(k, nodes@[k]),
            ).push(node_row(i as int, nodes@[i as int])));
        }
        i = i + 1;
    }
    table.render()
}

} // verus!
