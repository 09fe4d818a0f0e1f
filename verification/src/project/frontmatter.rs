//! The optional leading frontmatter block of `.tql` files.
//!
//! A frontmatter block is a leading region delimited by `// ---` lines, with
//! every line prefixed by `// `. The inner text is YAML; everything after the
//! closing delimiter is the pipeline definition.

use vstd::prelude::*;
use crate::error::Error;
use crate::model::DesiredState;
use crate::text::{
    char_views, chars_eq, chars_of, chars_start_with, decimal, has_crlf, is_ws, join, join_lines,
    lemma_join_lines_back, lemma_lines_cons, lemma_next_nl, lemma_trim_end_prefix, lemma_trim_trimmed, lines,
    lines_of, next_nl, push_char, push_str, slice_chars, starts_with, string_of, strip_cr, trim, trim_bounds,
    trim_chars, trim_end, trim_start, trimmed, usize_to_string,
};

verus! {

/// Parsed frontmatter metadata. All fields are optional.
#[derive(Debug, Clone, PartialEq, Eq)]
pub struct Frontmatter {
    /// Override the pipeline name (otherwise the file stem is used).
    pub name: Option<String>,
    /// Free-text description; never part of drift detection.
    pub description: Option<String>,
    /// Desired run-state (`running` | `paused` | `stopped`).
    pub state: Option<DesiredState>,
    /// Optional explicit target node id.
    pub node: Option<String>,
}

impl Default for Frontmatter {
    fn default() -> (r: Self)
        ensures
            r.name is None && r.description is None && r.state is None && r.node is None,
    {
        Frontmatter { name: None, description: None, state: None, node: None }
    }
}

/// The result of splitting a file into optional frontmatter + definition.
#[derive(Debug, Clone, PartialEq, Eq)]
pub struct Parsed {
    /// The parsed metadata, or default when no block is present.
    pub frontmatter: Frontmatter,
    /// The pipeline definition (everything after the block), trimmed.
    pub definition: String,
}

/// A file's contents split at its frontmatter block.
#[derive(Debug, Clone, PartialEq, Eq)]
pub struct Split {
    /// The YAML text of the block (comment prefixes removed), if there is one.
    pub yaml: Option<String>,
    /// The pipeline definition, trimmed.
    pub definition: String,
}

/// The frontmatter delimiter line.
pub const DELIM: &'static str = "// ---";

/// Whether a line is blank.
pub open spec fn is_blank(l: Seq<char>) -> bool {
    trim(l).len() == 0
}

/// Whether a line is a frontmatter delimiter.
pub open spec fn is_delim(l: Seq<char>) -> bool {
    trim(l) == DELIM@
}

/// The first position at or after `i` whose line satisfies `p`, or `ls.len()`.
pub open spec fn first_from(ls: Seq<Seq<char>>, i: int, p: spec_fn(Seq<char>) -> bool) -> int
    decreases ls.len() - i,
{
    if i >= ls.len() {
        ls.len() as int
    } else if p(ls[i]) {
        i
    } else {
        first_from(ls, i + 1, p)
    }
}

/// A frontmatter line without its leading `// ` (or `//`) comment prefix.
pub open spec fn strip_comment(l: Seq<char>) -> Seq<char> {
    let t = trim_start(l);
    if starts_with(t, "// "@) {
        t.skip("// "@.len() as int)
    } else if starts_with(t, "//"@) {
        t.skip("//"@.len() as int)
    } else {
        t
    }
}

/// The message for a block opened at (1-based) `line` that is never closed.
pub open spec fn unclosed_message(line: nat) -> Seq<char> {
    "frontmatter block opened at line "@ + decimal(line) + " is never closed with `// ---`"@
}

/// What [`split`] answers for `content`.
pub open spec fn split_ok(content: Seq<char>, r: Result<Split, Error>) -> bool {
    let ls = lines(content);
    let b = first_from(ls, 0, |l: Seq<char>| !is_blank(l));
    if b >= ls.len() || !is_delim(ls[b]) {
        r matches Ok(s) && s.yaml is None && s.definition@ == trim(content)
    } else {
        let e = first_from(ls, b + 1, |l: Seq<char>| is_delim(l));
        if e >= ls.len() {
            r matches Err(Error::Config(m)) && m@ == unclosed_message((b + 1) as nat)
        } else {
            r matches Ok(s) && s.yaml matches Some(y) && y@ == join(
                ls.subrange(b + 1, e).map_values(|l: Seq<char>| strip_comment(l)),
                seq!['\n'],
            ) && s.definition@ == trim(join(ls.subrange(e + 1, ls.len() as int), seq!['\n']))
        }
    }
}

proof fn lemma_first_from_step(ls: Seq<Seq<char>>, i: int, k: int, p: spec_fn(Seq<char>) -> bool)
    requires
        0 <= i <= k < ls.len(),
        first_from(ls, i, p) == first_from(ls, k, p),
        !p(ls[k]),
    ensures
        first_from(ls, i, p) == first_from(ls, k + 1, p),
{
}

/// Strip a leading `// ` (or `//`) comment prefix from a frontmatter line.
fn strip_comment_prefix(line: &Vec<char>) -> (r: Vec<char>)
    ensures
        r@ == strip_comment(line@),
{
    let (i, _j) = trim_bounds(line);
    let t = slice_chars(line, i, line.len());
    let p3 = chars_of("// ");
    let p2 = chars_of("//");
    if chars_start_with(&t, &p3) {
        slice_chars(&t, p3.len(), t.len())
    } else if chars_start_with(&t, &p2) {
        slice_chars(&t, p2.len(), t.len())
    } else {
        t
    }
}

/// Split a `.tql` file's contents into its frontmatter block and definition.
///
/// Leading blank lines are skipped; when the first other line is not the
/// `// ---` delimiter there is no block and the whole (trimmed) content is the
/// definition. An opened block must be closed by another delimiter line.
pub fn split(content: &str) -> (r: Result<Split, Error>)
    ensures
        split_ok(content@, r),
{
    let v = chars_of(content);
    let ls = lines_of(&v);
    let ghost gl = lines(content@);
    let n = ls.len();
    let delim = chars_of(DELIM);
    let ghost not_blank = |l: Seq<char>| !is_blank(l);
    let ghost delim_p = |l: Seq<char>| is_delim(l);

    let mut b: usize = 0;
    while b < n && trim_chars(&ls[b]).len() == 0
        invariant
            n == ls.len(),
            b <= n,
            char_views(ls@) == gl,
            not_blank == (|l: Seq<char>| !is_blank(l)),
            first_from(gl, 0, not_blank) == first_from(gl, b as int, not_blank),
        decreases n - b,
    {
        proof {
            assert(gl[b as int] == ls@[b as int]@);
            lemma_first_from_step(gl, 0, b as int, not_blank);
        }
        b = b + 1;
    }
    proof {
        if b < n {
            assert(gl[b as int] == ls@[b as int]@);
        }
    }
    if b >= n || !chars_eq(&trim_chars(&ls[b]), &delim) {
        return Ok(Split { yaml: None, definition: crate::text::trim_str(content) });
    }
    let mut e: usize = b + 1;
    while e < n && !chars_eq(&trim_chars(&ls[e]), &delim)
        invariant
            n == ls.len(),
            b < e <= n,
            char_views(ls@) == gl,
            delim@ == DELIM@,
            delim_p == (|l: Seq<char>| is_delim(l)),
            first_from(gl, b + 1, delim_p) == first_from(gl, e as int, delim_p),
        decreases n - e,
    {
        proof {
            assert(gl[e as int] == ls@[e as int]@);
            lemma_first_from_step(gl, b + 1, e as int, delim_p);
        }
        e = e + 1;
    }
    if e >= n {
        let mut m = String::new();
        push_str(&mut m, "frontmatter block opened at line ");
        let num = usize_to_string(b + 1);
        push_str(&mut m, num.as_str());
        push_str(&mut m, " is never closed with `// ---`");
        return Err(Error::Config(m));
    }
    proof {
        assert(gl[e as int] == ls@[e as int]@);
    }
    let mut stripped: Vec<Vec<char>> = Vec::new();
    let mut k = b + 1;
    while k < e
        invariant
            n == ls.len(),
            b < k <= e < n,
            char_views(ls@) == gl,
            char_views(stripped@) =~= gl.subrange(b + 1, k as int).map_values(
                |l: Seq<char>| strip_comment(l),
            ),
        decreases e - k,
    {
        let s = strip_comment_prefix(&ls[k]);
        let ghost before = char_views(stripped@);
        stripped.push(s);
        proof {
            assert(gl[k as int] == ls@[k as int]@);
            assert(char_views(stripped@) =~= before.push(strip_comment(gl[k as int])));
            assert(gl.subrange(b + 1, k + 1).map_values(|l: Seq<char>| strip_comment(l)) =~= gl.subrange(
                b + 1,
                k as int,
            ).map_values(|l: Seq<char>| strip_comment(l)).push(strip_comment(gl[k as int])));
        }
        k = k + 1;
    }
    let yaml_chars = join_lines(&stripped, 0, stripped.len());
    proof {
        assert(char_views(stripped@).subrange(0, stripped@.len() as int) =~= char_views(stripped@));
        assert(char_views(ls@).subrange(e + 1, n as int) =~= gl.subrange(e + 1, gl.len() as int));
    }
    let rest = join_lines(&ls, e + 1, n);
    let definition = trim_chars(&rest);
    Ok(Split { yaml: Some(string_of(&yaml_chars)), definition: string_of(&definition) })
}

/// The wire string of a desired state.
pub open spec fn desired_wire(s: DesiredState) -> Seq<char> {
    match s {
        DesiredState::Running => "running"@,
        DesiredState::Paused => "paused"@,
        DesiredState::Stopped => "stopped"@,
    }
}

/// The wire string of a desired state (`running`, `paused`, `stopped`).
pub fn desired_state_wire(s: DesiredState) -> (r: &'static str)
    ensures
        r@ == desired_wire(s),
{
    match s {
        DesiredState::Running => "running",
        DesiredState::Paused => "paused",
        DesiredState::Stopped => "stopped",
    }
}

/// The `// key: value` line for an optional field, or nothing.
pub open spec fn field_line(key: Seq<char>, value: Option<Seq<char>>) -> Seq<char> {
    match value {
        Some(v) => "// "@ + key + ": "@ + v + "\n"@,
        None => seq![],
    }
}

/// The view of an optional string.
pub open spec fn opt_view(o: Option<String>) -> Option<Seq<char>> {
    match o {
        Some(s) => Some(s@),
        None => None,
    }
}

/// The `.tql` text for a frontmatter and a definition: the block only when
/// some field is set, then the trimmed definition and a final newline.
pub open spec fn rendered(fm: Frontmatter, definition: Seq<char>) -> Seq<char> {
    let state = match fm.state {
        Some(s) => Some(desired_wire(s)),
        None => None,
    };
    if fm.name is None && fm.description is None && fm.state is None && fm.node is None {
        trim(definition) + "\n"@
    } else {
        "// ---\n"@ + field_line("name"@, opt_view(fm.name)) + field_line(
            "description"@,
            opt_view(fm.description),
        ) + field_line("state"@, state) + field_line("node"@, opt_view(fm.node)) + "// ---\n"@
            + trim(definition) + "\n"@
    }
}

/// Append the `// key: value` line for `value`, if present.
fn push_field(out: &mut String, key: &str, value: Option<&str>)
    ensures
        final(out)@ == old(out)@ + field_line(
            key@,
            match value {
                Some(v) => Some(v@),
                None => None,
            },
        ),
{
    match value {
        Some(v) => {
            push_str(out, "// ");
            push_str(out, key);
            push_str(out, ": ");
            push_str(out, v);
            push_str(out, "\n");
        },
        None => {},
    }
}

/// The optional string as an optional slice.
fn opt_str(o: &Option<String>) -> (r: Option<&str>)
    ensures
        match r {
            Some(v) => Some(v@),
            None => None,
        } == opt_view(*o),
{
    match o {
        Some(s) => Some(s.as_str()),
        None => None,
    }
}

/// Render a frontmatter block and a definition as `.tql` file contents.
///
/// A file without any field set has no block at all.
pub fn render(fm: &Frontmatter, definition: &str) -> (r: String)
    ensures
        r@ == rendered(*fm, definition@),
{
    let mut out = String::new();
    if fm.name.is_some() || fm.description.is_some() || fm.state.is_some() || fm.node.is_some() {
        push_str(&mut out, "// ---\n");
        push_field(&mut out, "name", opt_str(&fm.name));
        push_field(&mut out, "description", opt_str(&fm.description));
        let state = match fm.state {
            Some(s) => Some(desired_state_wire(s)),
            None => None,
        };
        push_field(&mut out, "state", state);
        push_field(&mut out, "node", opt_str(&fm.node));
        push_str(&mut out, "// ---\n");
    }
    let def = crate::text::trim_str(definition);
    push_str(&mut out, def.as_str());
    push_str(&mut out, "\n");
    proof {
        assert(out@ =~= rendered(*fm, definition@));
    }
    out
}


// --- reading back a rendered file -------------------------------------------------

/// Whether a value written on a `// key: value` line reads back unchanged: it
/// holds no line break and does not end in a carriage return.
pub open spec fn one_line(v: Option<Seq<char>>) -> bool {
    match v {
        Some(s) => (forall|k: int| 0 <= k < s.len() ==> #[trigger] s[k] != '\n') && (s.len() == 0 || s.last()
            != '\r'),
        None => true,
    }
}

/// Whether a frontmatter has no field set (it is then not written at all).
pub open spec fn is_bare(fm: Frontmatter) -> bool {
    fm.name is None && fm.description is None && fm.state is None && fm.node is None
}

/// The text of the `state` field.
pub open spec fn state_text(s: Option<DesiredState>) -> Option<Seq<char>> {
    match s {
        Some(d) => Some(desired_wire(d)),
        None => None,
    }
}

/// The `key: value` entry of a field, if it is set.
pub open spec fn field_entry(key: Seq<char>, value: Option<Seq<char>>) -> Seq<Seq<char>> {
    match value {
        Some(v) => seq![key + ": "@ + v],
        None => seq![],
    }
}

/// The YAML entries a frontmatter is written with, in order.
pub open spec fn field_entries(fm: Frontmatter) -> Seq<Seq<char>> {
    field_entry("name"@, opt_view(fm.name)) + field_entry("description"@, opt_view(fm.description))
        + field_entry("state"@, state_text(fm.state)) + field_entry("node"@, opt_view(fm.node))
}

/// Whether the first line of the trimmed definition is a block delimiter
/// (a file without frontmatter would then be read as opening a block).
pub open spec fn opens_block(definition: Seq<char>) -> bool {
    let t = trim(definition);
    is_delim(strip_cr(t.take(next_nl(t, 0))))
}

/// The comment line of a field, if it is set.
spec fn field_comment(key: Seq<char>, value: Option<Seq<char>>) -> Seq<Seq<char>> {
    match value {
        Some(v) => seq!["// "@ + key + ": "@ + v],
        None => seq![],
    }
}

/// A scan for the first line satisfying `p` stops at the first one that does.
proof fn lemma_first_from_at(ls: Seq<Seq<char>>, i: int, j: int, p: spec_fn(Seq<char>) -> bool)
    requires
        0 <= i <= j <= ls.len(),
        forall|k: int| i <= k < j ==> !p(#[trigger] ls[k]),
        j < ls.len() ==> p(ls[j]),
    ensures
        first_from(ls, i, p) == j,
    decreases j - i,
{
    if i < j {
        lemma_first_from_at(ls, i + 1, j, p);
    }
}

/// A field line: its lines, its entry, and that it is no delimiter.
proof fn lemma_field(key: Seq<char>, value: Option<Seq<char>>, rest: Seq<char>)
    requires
        one_line(value),
        key.len() > 0,
        key[0] != '-',
        forall|k: int| 0 <= k < key.len() ==> #[trigger] key[k] != '\n',
    ensures
        lines(field_line(key, value) + rest) == field_comment(key, value) + lines(rest),
        field_comment(key, value).map_values(|l: Seq<char>| strip_comment(l)) == field_entry(key, value),
        forall|k: int| 0 <= k < field_comment(key, value).len() ==> !is_delim(#[trigger] field_comment(key, value)[k]),
{
    reveal_strlit("// ");
    reveal_strlit(": ");
    reveal_strlit("\n");
    reveal_strlit("// ---");
    reveal_strlit("//");
    match value {
        Some(v) => {
            let l = "// "@ + key + ": "@ + v;
            assert forall|k: int| 0 <= k < l.len() implies #[trigger] l[k] != '\n' by {
                if k >= 3 + key.len() + 2 {
                    assert(l[k] == v[k - 3 - key.len() - 2]);
                } else if k >= 3 && k < 3 + key.len() {
                    assert(l[k] == key[k - 3]);
                }
            }
            assert(field_line(key, value) + rest =~= l + seq!['\n'] + rest);
            lemma_lines_cons(l, rest);
            if v.len() > 0 {
                assert(l.last() == v.last());
            } else {
                assert(l.last() == ' ');
            }
            assert(strip_cr(l) == l);
            assert(field_comment(key, value) =~= seq![l]);
            // strip_comment
            assert(!is_ws(l[0]));
            assert(trim_start(l) == l);
            assert(l.take(3) =~= "// "@);
            assert(starts_with(l, "// "@));
            assert(l.skip(3) =~= key + ": "@ + v);
            assert(seq![l].map_values(|x: Seq<char>| strip_comment(x)) =~= seq![key + ": "@ + v]);
            // not a delimiter
            lemma_trim_end_prefix(l);
            let m = trim_end(l).len();
            assert(l[3 + key.len() as int] == ':');
            assert(!is_ws(l[3 + key.len() as int]));
            assert(3 + key.len() < m);
            assert(trim(l) == trim_end(l));
            assert(trim(l)[3] == key[0]);
            assert("// ---"@[3] == '-');
            assert(trim(l) != "// ---"@);
        },
        None => {
            assert(field_line(key, value) + rest =~= rest);
            assert(field_comment(key, value).map_values(|x: Seq<char>| strip_comment(x)) =~= Seq::<Seq<char>>::empty());
        },
    }
}

/// The comment lines of all set fields, in order.
spec fn field_comments(fm: Frontmatter) -> Seq<Seq<char>> {
    field_comment("name"@, opt_view(fm.name)) + field_comment("description"@, opt_view(fm.description))
        + field_comment("state"@, state_text(fm.state)) + field_comment("node"@, opt_view(fm.node))
}

/// The text of the field lines of a frontmatter.
spec fn fields_text(fm: Frontmatter) -> Seq<char> {
    field_line("name"@, opt_view(fm.name)) + field_line("description"@, opt_view(fm.description)) + field_line(
        "state"@,
        state_text(fm.state),
    ) + field_line("node"@, opt_view(fm.node))
}

/// The state field is one line.
proof fn lemma_state_one_line(s: Option<DesiredState>)
    ensures
        one_line(state_text(s)),
{
    reveal_strlit("running");
    reveal_strlit("paused");
    reveal_strlit("stopped");
}

/// The field lines of a frontmatter, followed by any text.
#[verifier::rlimit(80)]
proof fn lemma_fields_lines(fm: Frontmatter, tail: Seq<char>)
    requires
        one_line(opt_view(fm.name)),
        one_line(opt_view(fm.description)),
        one_line(opt_view(fm.node)),
    ensures
        lines(fields_text(fm) + tail) == field_comments(fm) + lines(tail),
        field_comments(fm).map_values(|l: Seq<char>| strip_comment(l)) == field_entries(fm),
        forall|k: int| 0 <= k < field_comments(fm).len() ==> !is_delim(#[trigger] field_comments(fm)[k]),
{
    reveal_strlit("name");
    reveal_strlit("description");
    reveal_strlit("state");
    reveal_strlit("node");
    lemma_state_one_line(fm.state);
    let state = state_text(fm.state);
    let f4 = field_line("node"@, opt_view(fm.node));
    let f3 = field_line("state"@, state);
    let f2 = field_line("description"@, opt_view(fm.description));
    let f1 = field_line("name"@, opt_view(fm.name));
    lemma_field("node"@, opt_view(fm.node), tail);
    lemma_field("state"@, state, f4 + tail);
    lemma_field("description"@, opt_view(fm.description), f3 + (f4 + tail));
    lemma_field("name"@, opt_view(fm.name), f2 + (f3 + (f4 + tail)));
    assert(fields_text(fm) + tail =~= f1 + (f2 + (f3 + (f4 + tail))));
    let c1 = field_comment("name"@, opt_view(fm.name));
    let c2 = field_comment("description"@, opt_view(fm.description));
    let c3 = field_comment("state"@, state);
    let c4 = field_comment("node"@, opt_view(fm.node));
    let fields = c1 + c2 + c3 + c4;
    assert(field_comments(fm) == fields);
    assert(lines(fields_text(fm) + tail) =~= fields + lines(tail));
    assert forall|k: int| 0 <= k < fields.len() implies !is_delim(#[trigger] fields[k]) by {
        if k < c1.len() {
            assert(fields[k] == c1[k]);
        } else if k < c1.len() + c2.len() {
            assert(fields[k] == c2[k - c1.len()]);
        } else if k < c1.len() + c2.len() + c3.len() {
            assert(fields[k] == c3[k - c1.len() - c2.len()]);
        } else {
            assert(fields[k] == c4[k - c1.len() - c2.len() - c3.len()]);
        }
    }
    assert(fields.map_values(|l: Seq<char>| strip_comment(l)) =~= c1.map_values(|l: Seq<char>| strip_comment(l))
        + c2.map_values(|l: Seq<char>| strip_comment(l)) + c3.map_values(|l: Seq<char>| strip_comment(l))
        + c4.map_values(|l: Seq<char>| strip_comment(l)));
}

/// The lines of a file written with a block: the delimiter, the field lines,
/// the delimiter, then the lines of the definition.
#[verifier::rlimit(80)]
proof fn lemma_block_lines(fm: Frontmatter, definition: Seq<char>)
    requires
        one_line(opt_view(fm.name)),
        one_line(opt_view(fm.description)),
        one_line(opt_view(fm.node)),
        !is_bare(fm),
    ensures
        lines(rendered(fm, definition)) == seq!["// ---"@] + field_comments(fm) + seq!["// ---"@] + lines(
            trim(definition) + seq!['\n'],
        ),
        field_comments(fm).map_values(|l: Seq<char>| strip_comment(l)) == field_entries(fm),
        forall|k: int| 0 <= k < field_comments(fm).len() ==> !is_delim(#[trigger] field_comments(fm)[k]),
{
    reveal_strlit("\n");
    reveal_strlit("// ---\n");
    reveal_strlit("// ---");
    let t = trim(definition);
    let d = "// ---"@;
    assert(d =~= seq!['/', '/', ' ', '-', '-', '-']);
    assert forall|k: int| 0 <= k < d.len() implies #[trigger] d[k] != '\n' by {}
    let tail = "// ---\n"@ + t + "\n"@;
    assert(tail =~= d + seq!['\n'] + (t + seq!['\n']));
    lemma_lines_cons(d, t + seq!['\n']);
    assert(strip_cr(d) == d);
    lemma_fields_lines(fm, tail);
    let body = fields_text(fm) + tail;
    assert(rendered(fm, definition) == "// ---\n"@ + fields_text(fm) + "// ---\n"@ + t + "\n"@);
    assert(rendered(fm, definition) =~= d + seq!['\n'] + body);
    lemma_lines_cons(d, body);
}

/// What `split` reads from a file written with a block.
proof fn lemma_block_split(fm: Frontmatter, definition: Seq<char>, r: Result<Split, Error>)
    requires
        one_line(opt_view(fm.name)),
        one_line(opt_view(fm.description)),
        one_line(opt_view(fm.node)),
        !is_bare(fm),
        !has_crlf(trim(definition)),
        split_ok(rendered(fm, definition), r),
    ensures
        r matches Ok(s) && s.definition@ == trim(definition) && (s.yaml matches Some(y) && y@ == join(
            field_entries(fm),
            seq!['\n'],
        )),
{
    reveal_strlit("// ---");
    lemma_block_lines(fm, definition);
    let t = trim(definition);
    lemma_trim_trimmed(definition);
    lemma_trim_trimmed(t);
    let d = "// ---"@;
    assert(d =~= seq!['/', '/', ' ', '-', '-', '-']);
    let ls = lines(rendered(fm, definition));
    let fields = field_comments(fm);
    let after = lines(t + seq!['\n']);
    let nf = fields.len() as int;
    let not_blank = |l: Seq<char>| !is_blank(l);
    let delim_p = |l: Seq<char>| is_delim(l);
    assert(ls[0] == d);
    assert(trim_start(d) == d);
    assert(trim_end(d) == d);
    assert(!is_blank(ls[0]));
    lemma_first_from_at(ls, 0, 0, not_blank);
    assert(is_delim(ls[0]));
    assert forall|k: int| 1 <= k < 1 + nf implies !delim_p(#[trigger] ls[k]) by {
        assert(ls[k] == fields[k - 1]);
    }
    assert(ls[1 + nf] == d);
    lemma_first_from_at(ls, 1, 1 + nf, delim_p);
    assert(ls.subrange(1, 1 + nf) =~= fields);
    assert(ls.subrange(2 + nf, ls.len() as int) =~= after);
    assert(t.len() == 0 || t.last() != '\r') by {
        if t.len() > 0 {
            assert(!is_ws(t.last()));
        }
    }
    lemma_join_lines_back(t);
}

/// What `split` reads from a file written without a block.
proof fn lemma_bare_split(fm: Frontmatter, definition: Seq<char>, r: Result<Split, Error>)
    requires
        is_bare(fm),
        !opens_block(definition),
        split_ok(rendered(fm, definition), r),
    ensures
        r matches Ok(s) && s.definition@ == trim(definition) && s.yaml is None,
{
    reveal_strlit("\n");
    let t = trim(definition);
    lemma_trim_trimmed(definition);
    lemma_trim_trimmed(t);
    let content = rendered(fm, definition);
    assert(content =~= t + seq!['\n']);
    assert(trim(content) == t);
    let ls = lines(content);
    let not_blank = |l: Seq<char>| !is_blank(l);
    if t.len() == 0 {
        assert(content =~= Seq::<char>::empty() + seq!['\n'] + Seq::<char>::empty());
        lemma_lines_cons(Seq::<char>::empty(), Seq::<char>::empty());
        assert(lines(Seq::<char>::empty()) =~= Seq::<Seq<char>>::empty());
        assert(strip_cr(Seq::<char>::empty()) =~= Seq::<char>::empty());
        assert(ls =~= seq![Seq::<char>::empty()]);
        assert(trim_start(Seq::<char>::empty()) == Seq::<char>::empty());
        assert(is_blank(ls[0]));
        lemma_first_from_at(ls, 0, 1, not_blank);
    } else {
        lemma_next_nl(t, 0);
        let k = next_nl(t, 0);
        let a = t.take(k);
        assert(!is_ws(t[0]));
        assert(k >= 1) by {
            if k == 0 {
                assert(t[0] == '\n');
            }
        }
        assert forall|j: int| 0 <= j < a.len() implies #[trigger] a[j] != '\n' by {
            assert(a[j] == t[j]);
        }
        let rest = if k < t.len() {
            t.skip(k + 1) + seq!['\n']
        } else {
            Seq::<char>::empty()
        };
        assert(content =~= a + seq!['\n'] + rest);
        lemma_lines_cons(a, rest);
        let l0 = strip_cr(a);
        assert(ls[0] == l0);
        assert(l0.len() >= 1 && l0[0] == t[0]) by {
            if a.len() == 1 {
                assert(a.last() == t[0]);
            }
        }
        assert(trim_start(l0) == l0);
        lemma_trim_end_prefix(l0);
        assert(trim_end(l0).len() > 0);
        assert(!is_blank(ls[0]));
        lemma_first_from_at(ls, 0, 0, not_blank);
        assert(!is_delim(ls[0]));
    }
}

/// A file written for a frontmatter and a definition reads back as written:
/// the block (when any field is set) yields its `key: value` entries, and the
/// definition comes back trimmed.
///
/// Excluded are the inputs where the written text is read otherwise: a field
/// value spanning lines or ending in a carriage return, a definition with
/// `"\r\n"` line endings under a block (they come back as `"\n"`), and, with
/// no field set, a definition whose first line is itself a delimiter.
pub proof fn law_rendered_file_splits_back(fm: Frontmatter, definition: Seq<char>)
    requires
        one_line(opt_view(fm.name)),
        one_line(opt_view(fm.description)),
        one_line(opt_view(fm.node)),
        is_bare(fm) ==> !opens_block(definition),
        !is_bare(fm) ==> !has_crlf(trim(definition)),
    ensures
        forall|r: Result<Split, Error>|
            #[trigger] split_ok(rendered(fm, definition), r) ==> (r matches Ok(s) && s.definition@ == trim(definition)
                && match s.yaml {
                Some(y) => !is_bare(fm) && y@ == join(field_entries(fm), seq!['\n']),
                None => is_bare(fm),
            }),
{
    assert forall|r: Result<Split, Error>| #[trigger] split_ok(rendered(fm, definition), r) implies (r matches Ok(s)
        && s.definition@ == trim(definition) && match s.yaml {
        Some(y) => !is_bare(fm) && y@ == join(field_entries(fm), seq!['\n']),
        None => is_bare(fm),
    }) by {
        if is_bare(fm) {
            lemma_bare_split(fm, definition, r);
        } else {
            lemma_block_split(fm, definition, r);
        }
    }
}

} // verus!
