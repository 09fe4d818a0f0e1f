//! A borderless, whitespace-aligned table printer.
//!
//! Columns are aligned purely with spaces. Widths are the visible width of the
//! widest cell, ignoring ANSI escape sequences so that colored cells still line
//! up. Headers are rendered in a muted gray.

use vstd::prelude::*;
use crate::ext::{bright_black, fg_painted};
use crate::text::{char_views, chars_of, lemma_next_of, next_of, push_char, push_str};

verus! {

/// Column alignment.
#[derive(Debug, Clone, Copy, PartialEq, Eq, Structural)]
pub enum Align {
    /// Left-align (the default).
    Left,
    /// Right-align (used for numeric columns).
    Right,
}

/// A borderless table with a header row and zero or more data rows.
#[derive(Debug, Clone)]
pub struct Table {
    headers: Vec<String>,
    aligns: Vec<Align>,
    rows: Vec<Vec<String>>,
}

/// The visible width of `s[i..]`: characters outside `ESC ... m` sequences.
pub open spec fn width_from(s: Seq<char>, i: int) -> nat
    decreases s.len() + 1 - i,
{
    if i < 0 || i >= s.len() {
        0
    } else if s[i] == '\x1b' {
        proof {
            lemma_next_of(s, 'm', i + 1);
        }
        width_from(s, next_of(s, 'm', i + 1) + 1)
    } else {
        1 + width_from(s, i + 1)
    }
}

/// The visible width of `s`.
pub open spec fn visible_width(s: Seq<char>) -> nat {
    width_from(s, 0)
}

proof fn lemma_next_of_at(t: Seq<char>, c: char, i: int, j: int)
    requires
        0 <= i <= j < t.len(),
        t[j] == c,
        forall|k: int| i <= k < j ==> t[k] != c,
    ensures
        next_of(t, c, i) == j,
    decreases j - i,
{
    if i < j {
        lemma_next_of_at(t, c, i + 1, j);
    }
}

proof fn lemma_width_plain(t: Seq<char>, i: int, j: int)
    requires
        0 <= i <= j <= t.len(),
        forall|k: int| i <= k < j ==> t[k] != '\x1b',
    ensures
        width_from(t, i) == (j - i) + width_from(t, j),
    decreases j - i,
{
    if i < j {
        lemma_width_plain(t, i + 1, j);
    }
}

/// Text without escape characters is as wide as it is long, and wrapping it
/// in a select-graphic-rendition sequence (`ESC [ n m`, `n` made of digits
/// and `;`) and a reset (`ESC [ 0 m`) keeps its width.
pub proof fn law_display_width_ignores_ansi(s: Seq<char>, n: Seq<char>)
    requires
        forall|i: int| 0 <= i < s.len() ==> s[i] != '\x1b',
        forall|i: int| 0 <= i < n.len() ==> ('0' <= #[trigger] n[i] <= '9' || n[i] == ';'),
    ensures
        visible_width(s) == s.len(),
        visible_width("\x1b["@ + n + "m"@ + s + "\x1b[0m"@) == visible_width(s),
{
    reveal_strlit("\x1b[");
    reveal_strlit("m");
    reveal_strlit("\x1b[0m");
    lemma_width_plain(s, 0, s.len() as int);
    let t = "\x1b["@ + n + "m"@ + s + "\x1b[0m"@;
    let e: int = n.len() as int + 3;
    let j0: int = e + s.len();
    assert(t.len() == j0 + 4);
    assert(t[0] == '\x1b');
    assert(t[e - 1] == 'm');
    assert forall|k: int| 1 <= k < e - 1 implies t[k] != 'm' by {
        if k >= 2 {
            assert(t[k] == n[k - 2]);
        }
    }
    lemma_next_of_at(t, 'm', 1, e - 1);
    assert forall|k: int| e <= k < j0 implies t[k] != '\x1b' by {
        assert(t[k] == s[k - e]);
    }
    lemma_width_plain(t, e, j0);
    assert(t[j0] == '\x1b');
    assert(t[j0 + 1] == '[' && t[j0 + 2] == '0' && t[j0 + 3] == 'm');
    lemma_next_of_at(t, 'm', j0 + 1, j0 + 3);
    assert(width_from(t, j0 + 4) == 0);
}

/// Compute the visible width of `s`, skipping ANSI SGR escape sequences.
///
/// Counts characters outside of `\x1b[ ... m` sequences; wide glyphs count
/// as one.
pub fn display_width(s: &str) -> (r: usize)
    ensures
        r == visible_width(s@),
{
    let v = chars_of(s);
    chars_width(&v)
}

fn chars_width(v: &Vec<char>) -> (r: usize)
    ensures
        r == visible_width(v@),
{
    let mut width: usize = 0;
    let mut i: usize = 0;
    while i < v.len()
        invariant
            i <= v.len(),
            width + width_from(v@, i as int) == visible_width(v@),
            width <= i,
        decreases v.len() - i,
    {
        if v[i] == '\x1b' {
            let k = crate::text::find_char(v, 'm', i + 1);
            if k >= v.len() {
                proof {
                    assert(width_from(v@, v.len() + 1) == 0);
                }
                i = v.len();
            } else {
                i = k + 1;
            }
        } else {
            width = width + 1;
            i = i + 1;
        }
    }
    width
}

/// The cell at column `i`, or empty.
pub open spec fn cell_at(cells: Seq<Seq<char>>, i: int) -> Seq<char> {
    if 0 <= i < cells.len() {
        cells[i]
    } else {
        seq![]
    }
}

/// The widest visible width in column `i` over the header and the first `n`
/// rows.
pub open spec fn column_width(headers: Seq<Seq<char>>, rows: Seq<Seq<Seq<char>>>, i: int, n: int) -> nat
    decreases n,
{
    if n <= 0 {
        visible_width(headers[i])
    } else {
        let w = column_width(headers, rows, i, n - 1);
        let c = if i < rows[n - 1].len() {
            visible_width(rows[n - 1][i])
        } else {
            0
        };
        if c > w {
            c
        } else {
            w
        }
    }
}

/// The widths of all columns.
pub open spec fn column_widths(headers: Seq<Seq<char>>, rows: Seq<Seq<Seq<char>>>) -> Seq<nat> {
    Seq::new(headers.len(), |i: int| column_width(headers, rows, i, rows.len() as int))
}

/// The last column `< cols` holding a nonempty cell, or 0.
pub open spec fn last_filled(cells: Seq<Seq<char>>, cols: int) -> int
    decreases cols,
{
    if cols <= 0 {
        0
    } else if cell_at(cells, cols - 1).len() > 0 {
        cols - 1
    } else {
        last_filled(cells, cols - 1)
    }
}

/// `n` spaces.
pub open spec fn spaces(n: nat) -> Seq<char> {
    Seq::new(n, |i: int| ' ')
}

/// The padding column `i` needs: its width minus the cell's visible width.
pub open spec fn cell_pad(cells: Seq<Seq<char>>, widths: Seq<nat>, i: int) -> nat {
    let width: nat = if 0 <= i < widths.len() {
        widths[i]
    } else {
        0
    };
    if width > visible_width(cell_at(cells, i)) {
        (width - visible_width(cell_at(cells, i))) as nat
    } else {
        0
    }
}

/// The alignment of column `i` (left past the last one).
pub open spec fn align_at(aligns: Seq<Align>, i: int) -> Align {
    if 0 <= i < aligns.len() {
        aligns[i]
    } else {
        Align::Left
    }
}

/// A cell's text, painted gray in the header row.
pub open spec fn styled_cell(cell: Seq<char>, header: bool) -> Seq<char> {
    if header {
        fg_painted("90"@, cell)
    } else {
        cell
    }
}

/// A padded cell: left-aligned cells are padded after (except in the last
/// printed column), right-aligned cells before.
pub open spec fn padded(styled: Seq<char>, pad: nat, align: Align, is_last: bool) -> Seq<char> {
    match align {
        Align::Left => styled + if is_last {
            seq![]
        } else {
            spaces(pad)
        },
        Align::Right => spaces(pad) + styled,
    }
}

/// The text of column `i` of a row whose last printed column is `last`.
pub open spec fn cell_text(
    cells: Seq<Seq<char>>,
    widths: Seq<nat>,
    aligns: Seq<Align>,
    header: bool,
    last: int,
    i: int,
) -> Seq<char> {
    (if i > 0 {
        "  "@
    } else {
        seq![]
    }) + padded(
        styled_cell(cell_at(cells, i), header),
        cell_pad(cells, widths, i),
        align_at(aligns, i),
        i == last,
    )
}

/// The text of columns `0..k` of a row.
pub open spec fn row_prefix(
    cells: Seq<Seq<char>>,
    widths: Seq<nat>,
    aligns: Seq<Align>,
    header: bool,
    last: int,
    k: int,
) -> Seq<char>
    decreases k,
{
    if k <= 0 {
        seq![]
    } else {
        row_prefix(cells, widths, aligns, header, last, k - 1) + cell_text(
            cells,
            widths,
            aligns,
            header,
            last,
            k - 1,
        )
    }
}

/// A rendered row: columns up to the last nonempty one, no trailing newline.
pub open spec fn row_text(cells: Seq<Seq<char>>, widths: Seq<nat>, aligns: Seq<Align>, header: bool) -> Seq<char> {
    let last = last_filled(cells, widths.len() as int);
    row_prefix(cells, widths, aligns, header, last, last + 1)
}

/// The rendered data rows `0..n`, each after a newline.
pub open spec fn rows_text(rows: Seq<Seq<Seq<char>>>, widths: Seq<nat>, aligns: Seq<Align>, n: int) -> Seq<char>
    decreases n,
{
    if n <= 0 {
        seq![]
    } else {
        rows_text(rows, widths, aligns, n - 1) + "\n"@ + row_text(rows[n - 1], widths, aligns, false)
    }
}

/// The full rendered table.
pub open spec fn table_text(headers: Seq<Seq<char>>, aligns: Seq<Align>, rows: Seq<Seq<Seq<char>>>) -> Seq<char> {
    let w = column_widths(headers, rows);
    row_text(headers, w, aligns, true) + rows_text(rows, w, aligns, rows.len() as int)
}

/// The views of rows of strings.
pub open spec fn row_views(rows: Seq<Vec<String>>) -> Seq<Seq<Seq<char>>> {
    rows.map_values(|r: Vec<String>| r@.map_values(|s: String| s@))
}

impl Table {
    /// The header cells.
    pub closed spec fn spec_headers(&self) -> Seq<Seq<char>> {
        self.headers@.map_values(|s: String| s@)
    }

    /// The column alignments.
    pub closed spec fn spec_aligns(&self) -> Seq<Align> {
        self.aligns@
    }

    /// The data rows.
    pub closed spec fn spec_rows(&self) -> Seq<Seq<Seq<char>>> {
        row_views(self.rows@)
    }

    /// Every column has an alignment.
    pub closed spec fn well_formed(&self) -> bool {
        self.aligns@.len() == self.headers@.len()
    }

    /// Create a table with the given column headers.
    ///
    /// All columns default to [`Align::Left`].
    pub fn new(headers: &[&str]) -> (t: Self)
        ensures
            t.well_formed(),
            t.spec_headers() == headers@.map_values(|s: &str| s@),
            t.spec_aligns() == Seq::new(headers@.len(), |i: int| Align::Left),
            t.spec_rows().len() == 0,
    {
        let mut hs: Vec<String> = Vec::new();
        let mut aligns: Vec<Align> = Vec::new();
        let mut i: usize = 0;
        while i < headers.len()
            invariant
                i <= headers.len(),
                hs@.map_values(|s: String| s@) =~= headers@.map_values(|s: &str| s@).take(i as int),
                aligns@ =~= Seq::new(i as nat, |k: int| Align::Left),
            decreases headers.len() - i,
        {
            let ghost before = hs@.map_values(|s: String| s@);
            hs.push(crate::text::owned(headers[i]));
            aligns.push(Align::Left);
            proof {
                assert(hs@.map_values(|s: String| s@) =~= before.push(headers@[i as int]@));
                assert(headers@.map_values(|s: &str| s@).take(i + 1) =~= headers@.map_values(|s: &str| s@).take(i as int).push(headers@[i as int]@));
            }
            i = i + 1;
        }
        proof {
            assert(headers@.map_values(|s: &str| s@).take(headers.len() as int) =~= headers@.map_values(
                |s: &str| s@,
            ));
        }
        let t = Table { headers: hs, aligns, rows: Vec::new() };
        proof {
            assert(row_views(t.rows@) =~= Seq::<Seq<Seq<char>>>::empty());
        }
        t
    }

    /// Set the alignment of a single column (ignored past the last column).
    pub fn align(self, col: usize, align: Align) -> (t: Self)
        requires
            self.well_formed(),
        ensures
            t.well_formed(),
            t.spec_headers() == self.spec_headers(),
            t.spec_rows() == self.spec_rows(),
            t.spec_aligns() == if col < self.spec_aligns().len() {
                self.spec_aligns().update(col as int, align)
            } else {
                self.spec_aligns()
            },
    {
        let mut t = self;
        if col < t.aligns.len() {
            t.aligns.set(col, align);
        }
        t
    }

    /// Append a data row.
    ///
    /// The number of cells should match the number of headers.
    pub fn row(&mut self, cells: &[&str])
        requires
            old(self).well_formed(),
        ensures
            final(self).well_formed(),
            final(self).spec_headers() == old(self).spec_headers(),
            final(self).spec_aligns() == old(self).spec_aligns(),
            final(self).spec_rows() == old(self).spec_rows().push(cells@.map_values(|s: &str| s@)),
    {
        let mut r: Vec<String> = Vec::new();
        let mut i: usize = 0;
        while i < cells.len()
            invariant
                i <= cells.len(),
                r@.map_values(|s: String| s@) =~= cells@.map_values(|s: &str| s@).take(i as int),
            decreases cells.len() - i,
        {
            let ghost before = r@.map_values(|s: String| s@);
            r.push(crate::text::owned(cells[i]));
            proof {
                assert(r@.map_values(|s: String| s@) =~= before.push(cells@[i as int]@));
                assert(cells@.map_values(|s: &str| s@).take(i + 1) =~= cells@.map_values(|s: &str| s@).take(i as int).push(cells@[i as int]@));
            }
            i = i + 1;
        }
        proof {
            assert(cells@.map_values(|s: &str| s@).take(cells.len() as int) =~= cells@.map_values(
                |s: &str| s@,
            ));
        }
        let ghost before = self.rows@;
        self.rows.push(r);
        proof {
            assert(row_views(self.rows@) =~= row_views(before).push(cells@.map_values(|s: &str| s@)));
        }
    }

    /// Render the table to a string without a trailing newline.
    pub fn render(&self) -> (r: String)
        requires
            self.well_formed(),
        ensures
            r@ == table_text(self.spec_headers(), self.spec_aligns(), self.spec_rows()),
    {
        let cols = self.headers.len();
        let ghost hv = self.spec_headers();
        let ghost rv = self.spec_rows();
        let mut widths: Vec<usize> = Vec::new();
        let mut c: usize = 0;
        while c < cols
            invariant
                c <= cols == self.headers.len(),
                hv == self.spec_headers(),
                rv == self.spec_rows(),
                widths.len() == c,
                forall|k: int| 0 <= k < c ==> widths@[k] as nat == column_width(hv, rv, k, rv.len() as int),
            decreases cols - c,
        {
            let mut w = display_width(self.headers[c].as_str());
            let mut n: usize = 0;
            while n < self.rows.len()
                invariant
                    c < cols == self.headers.len(),
                    n <= self.rows.len(),
                    hv == self.spec_headers(),
                    rv == self.spec_rows(),
                    rv.len() == self.rows.len(),
                    w as nat == column_width(hv, rv, c as int, n as int),
                decreases self.rows.len() - n,
            {
                proof {
                    assert(rv[n as int] == self.rows@[n as int]@.map_values(|s: String| s@));
                }
                if c < self.rows[n].len() {
                    let cw = display_width(self.rows[n][c].as_str());
                    if cw > w {
                        w = cw;
                    }
                }
                n = n + 1;
            }
            widths.push(w);
            c = c + 1;
        }
        let ghost wv = column_widths(hv, rv);
        proof {
            assert(widths@.map_values(|x: usize| x as nat) =~= wv);
        }
        let mut out = String::new();
        push_row(&mut out, &self.headers, &widths, &self.aligns, true);
        let mut n: usize = 0;
        while n < self.rows.len()
            invariant
                n <= self.rows.len(),
                hv == self.spec_headers(),
                rv == self.spec_rows(),
                rv.len() == self.rows.len(),
                widths@.map_values(|x: usize| x as nat) == wv,
                wv == column_widths(hv, rv),
                out@ == row_text(hv, wv, self.aligns@, true) + rows_text(rv, wv, self.aligns@, n as int),
            decreases self.rows.len() - n,
        {
            push_char(&mut out, '\n');
            proof {
                assert(rv[n as int] == self.rows@[n as int]@.map_values(|s: String| s@));
            }
            push_row(&mut out, &self.rows[n], &widths, &self.aligns, false);
            proof {
                reveal_strlit("\n");
                assert(out@ =~= row_text(hv, wv, self.aligns@, true) + rows_text(rv, wv, self.aligns@, n + 1));
            }
            n = n + 1;
        }
        out
    }
}

/// Append a single rendered row (no trailing newline) to `out`.
fn push_row(out: &mut String, cells: &Vec<String>, widths: &Vec<usize>, aligns: &Vec<Align>, header: bool)
    ensures
        final(out)@ == old(out)@ + row_text(
            cells@.map_values(|s: String| s@),
            widths@.map_values(|x: usize| x as nat),
            aligns@,
            header,
        ),
{
    let ghost cv = cells@.map_values(|s: String| s@);
    let ghost wv = widths@.map_values(|x: usize| x as nat);
    let cols = widths.len();
    let mut last: usize = cols;
    while last > 0 && !(last - 1 < cells.len() && !cells[last - 1].as_str().is_empty())
        invariant
            last <= cols == widths.len(),
            cv == cells@.map_values(|s: String| s@),
            last_filled(cv, cols as int) == last_filled(cv, last as int),
        decreases last,
    {
        proof {
            if last - 1 < cells.len() {
                assert(cv[last - 1] == cells@[last - 1]@);
            }
        }
        last = last - 1;
    }
    proof {
        if last > 0 {
            assert(cv[last - 1] == cells@[last - 1]@);
        }
    }
    let end: usize = if last > 0 {
        last
    } else {
        1
    };
    let last = end - 1;
    let ghost base = out@;
    let mut i: usize = 0;
    proof {
        assert(row_prefix(cv, wv, aligns@, header, last as int, 0) =~= Seq::<char>::empty());
        assert(out@ =~= base + row_prefix(cv, wv, aligns@, header, last as int, 0));
    }
    while i < end
        invariant
            i <= end,
            end == last + 1,
            cv == cells@.map_values(|s: String| s@),
            wv == widths@.map_values(|x: usize| x as nat),
            last == last_filled(cv, wv.len() as int),
            out@ == base + row_prefix(cv, wv, aligns@, header, last as int, i as int),
        decreases end - i,
    {
        push_cell(out, cells, widths, aligns, header, last, i);
        proof {
            assert(out@ =~= base + row_prefix(cv, wv, aligns@, header, last as int, i + 1));
        }
        i = i + 1;
    }
}

/// Append column `i` of a row whose last printed column is `last`.
fn push_cell(out: &mut String, cells: &Vec<String>, widths: &Vec<usize>, aligns: &Vec<Align>, header: bool, last: usize, i: usize)
    ensures
        final(out)@ == old(out)@ + cell_text(
            cells@.map_values(|s: String| s@),
            widths@.map_values(|x: usize| x as nat),
            aligns@,
            header,
            last as int,
            i as int,
        ),
{
    let ghost cv = cells@.map_values(|s: String| s@);
    let ghost wv = widths@.map_values(|x: usize| x as nat);
    if i > 0 {
        push_str(out, "  ");
    }
    let cell: &str = if i < cells.len() {
        cells[i].as_str()
    } else {
        ""
    };
    proof {
        if i < cells.len() {
            assert(cv[i as int] == cells@[i as int]@);
        }
        reveal_strlit("");
        assert(cell@ == cell_at(cv, i as int));
    }
    let width: usize = if i < widths.len() {
        widths[i]
    } else {
        0
    };
    let dw = display_width(cell);
    let pad: usize = if width > dw {
        width - dw
    } else {
        0
    };
    let align = if i < aligns.len() {
        aligns[i]
    } else {
        Align::Left
    };
    let styled = if header {
        bright_black(cell)
    } else {
        crate::text::owned(cell)
    };
    push_padded(out, styled.as_str(), pad, align, i == last);
}

/// Append a padded cell.
fn push_padded(out: &mut String, styled: &str, pad: usize, align: Align, is_last: bool)
    ensures
        final(out)@ == old(out)@ + padded(styled@, pad as nat, align, is_last),
{
    match align {
        Align::Left => {
            push_str(out, styled);
            if !is_last {
                push_spaces(out, pad);
            }
        },
        Align::Right => {
            push_spaces(out, pad);
            push_str(out, styled);
        },
    }
}

/// Append `n` spaces.
pub fn push_spaces(out: &mut String, n: usize)
    ensures
        final(out)@ == old(out)@ + spaces(n as nat),
{
    let ghost base = out@;
    let mut k: usize = 0;
    while k < n
        invariant
            k <= n,
            out@ =~= base + spaces(k as nat),
        decreases n - k,
    {
        push_char(out, ' ');
        k = k + 1;
    }
}

} // verus!
