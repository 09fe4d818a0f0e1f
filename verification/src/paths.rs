//! Slash-separated paths, with the component rules of `std::path` on Unix.

use vstd::prelude::*;
use crate::text::{
    char_views, chars_eq, chars_lt, chars_of, insert_pos_by, law_stable_order_by_sorts, lex_lt, slice_chars, split_chars,
    split_on, stable_order_by, strict_order, string_of, string_views,
};

verus! {

/// Whether a path piece is skipped as a component (empty, or `.`).
pub open spec fn skipped(p: Seq<char>) -> bool {
    p.len() == 0 || p == seq!['.']
}

/// The pieces of `ps` that are real components, in order.
pub open spec fn keep_parts(ps: Seq<Seq<char>>) -> Seq<Seq<char>>
    decreases ps.len(),
{
    if ps.len() == 0 {
        seq![]
    } else if skipped(ps.last()) {
        keep_parts(ps.drop_last())
    } else {
        keep_parts(ps.drop_last()).push(ps.last())
    }
}

/// The components of a path (`Path::components`, as strings): a leading `/`
/// for absolute paths, a leading `.` kept only as the first component, empty
/// and `.` pieces dropped elsewhere.
pub open spec fn components(p: Seq<char>) -> Seq<Seq<char>> {
    let ps = split_on(p, '/');
    if p.len() > 0 && p[0] == '/' {
        seq![seq!['/']] + keep_parts(ps.drop_first())
    } else if ps[0] == seq!['.'] {
        seq![seq!['.']] + keep_parts(ps.drop_first())
    } else {
        keep_parts(ps)
    }
}

fn keep_parts_of(ps: &Vec<Vec<char>>, from: usize) -> (r: Vec<Vec<char>>)
    requires
        from <= ps.len(),
    ensures
        char_views(r@) == keep_parts(char_views(ps@).skip(from as int)),
{
    let mut r: Vec<Vec<char>> = Vec::new();
    let mut i = from;
    while i < ps.len()
        invariant
            from <= i <= ps.len(),
            char_views(r@) == keep_parts(char_views(ps@).subrange(from as int, i as int)),
        decreases ps.len() - i,
    {
        let ghost sub = char_views(ps@).subrange(from as int, i + 1);
        proof {
            assert(sub.drop_last() =~= char_views(ps@).subrange(from as int, i as int));
            assert(sub.last() == ps@[i as int]@);
        }
        let p = &ps[i];
        let dot = p.len() == 1 && p[0] == '.';
        proof {
            if dot {
                assert(p@ =~= seq!['.']);
            }
        }
        if !(p.len() == 0 || dot) {
            let ghost before = char_views(r@);
            r.push(slice_chars(p, 0, p.len()));
            proof {
                assert(p@.subrange(0, p@.len() as int) =~= p@);
                assert(char_views(r@) =~= before.push(p@));
            }
        }
        i = i + 1;
    }
    proof {
        assert(char_views(ps@).subrange(from as int, ps.len() as int) =~= char_views(ps@).skip(from as int));
    }
    r
}

/// The components of a path.
pub fn components_of(p: &Vec<char>) -> (r: Vec<Vec<char>>)
    ensures
        char_views(r@) == components(p@),
{
    let ps = split_chars(p, '/');
    proof {
        assert(char_views(ps@).skip(0) =~= char_views(ps@));
        assert(char_views(ps@).skip(1) =~= char_views(ps@).drop_first());
        assert(char_views(ps@)[0] == ps@[0]@);
    }
    if p.len() > 0 && p[0] == '/' {
        let mut r: Vec<Vec<char>> = Vec::new();
        let mut root: Vec<char> = Vec::new();
        root.push('/');
        r.push(root);
        let rest = keep_parts_of(&ps, 1);
        let ghost before = char_views(r@);
        let mut rest = rest;
        r.append(&mut rest);
        proof {
            assert(before =~= seq![seq!['/']]);
        }
        r
    } else if ps[0].len() == 1 && ps[0][0] == '.' {
        proof {
            assert(ps@[0]@ =~= seq!['.']);
        }
        let mut r: Vec<Vec<char>> = Vec::new();
        let mut cur: Vec<char> = Vec::new();
        cur.push('.');
        r.push(cur);
        let mut rest = keep_parts_of(&ps, 1);
        let ghost before = char_views(r@);
        r.append(&mut rest);
        proof {
            assert(before =~= seq![seq!['.']]);
        }
        r
    } else {
        proof {
            if ps@[0]@ == seq!['.'] {
                assert(ps@[0]@.len() == 1 && ps@[0]@[0] == '.');
            }
        }
        keep_parts_of(&ps, 0)
    }
}

/// `PathBuf::push` of one component: an absolute component replaces the
/// path; otherwise a `/` separates it from a nonempty path not already ending
/// in one.
pub open spec fn push_component(base: Seq<char>, c: Seq<char>) -> Seq<char> {
    if c.len() > 0 && c[0] == '/' {
        c
    } else if base.len() == 0 || base.last() == '/' {
        base + c
    } else {
        base + seq!['/'] + c
    }
}

/// Whether a glob component holds a wildcard (`*`, `?`, `[` or `{`).
pub open spec fn has_wildcard(c: Seq<char>) -> bool {
    c.contains('*') || c.contains('?') || c.contains('[') || c.contains('{')
}

/// `root` with the glob's leading wildcard-free components pushed on.
pub open spec fn base_dir_from(base: Seq<char>, comps: Seq<Seq<char>>) -> Seq<char>
    decreases comps.len(),
{
    if comps.len() == 0 || has_wildcard(comps[0]) {
        base
    } else {
        base_dir_from(push_component(base, comps[0]), comps.drop_first())
    }
}

/// The static directory prefix of a pipelines glob, under `root`.
pub open spec fn spec_glob_base_dir(root: Seq<char>, glob: Seq<char>) -> Seq<char> {
    base_dir_from(root, components(glob))
}

pub fn push_component_exec(base: &mut Vec<char>, c: &Vec<char>)
    ensures
        final(base)@ == push_component(old(base)@, c@),
{
    if c.len() > 0 && c[0] == '/' {
        *base = slice_chars(c, 0, c.len());
        proof {
            assert(c@.subrange(0, c@.len() as int) =~= c@);
        }
    } else {
        if !(base.len() == 0 || base[base.len() - 1] == '/') {
            base.push('/');
        }
        let ghost before = base@;
        let mut j: usize = 0;
        while j < c.len()
            invariant
                j <= c.len(),
                base@ == before + c@.take(j as int),
            decreases c.len() - j,
        {
            base.push(c[j]);
            proof {
                assert(c@.take(j + 1) =~= c@.take(j as int).push(c@[j as int]));
            }
            j = j + 1;
        }
        proof {
            assert(c@.take(c.len() as int) =~= c@);
        }
    }
}

/// The static directory prefix of a pipelines glob, relative to `root`.
///
/// Walks the glob's leading components until the first one containing a
/// wildcard, e.g. `pipelines/**/*.tql` gives `<root>/pipelines` and `*.tql`
/// gives `<root>` itself.
pub fn glob_base_dir(root: &str, glob: &str) -> (r: String)
    ensures
        r@ == spec_glob_base_dir(root@, glob@),
{
    let comps = components_of(&chars_of(glob));
    let mut base = chars_of(root);
    let mut i: usize = 0;
    proof {
        assert(char_views(comps@).skip(0) =~= char_views(comps@));
    }
    while i < comps.len()
        invariant
            i <= comps.len(),
            base_dir_from(base@, char_views(comps@).skip(i as int)) == spec_glob_base_dir(root@, glob@),
        decreases comps.len() - i,
    {
        let c = &comps[i];
        proof {
            let rest = char_views(comps@).skip(i as int);
            assert(rest[0] == c@);
            assert(rest.drop_first() =~= char_views(comps@).skip(i + 1));
        }
        if crate::text::has_char(c, '*') || crate::text::has_char(c, '?') || crate::text::has_char(c, '[')
            || crate::text::has_char(c, '{') {
            return string_of(&base);
        }
        push_component_exec(&mut base, c);
        i = i + 1;
    }
    proof {
        assert(char_views(comps@).skip(i as int).len() == 0);
    }
    string_of(&base)
}

/// The file name of a path: its last component, unless that is `..` or the
/// path has none (`Path::file_name`).
pub open spec fn file_name(p: Seq<char>) -> Option<Seq<char>> {
    let kept = keep_parts(split_on(p, '/'));
    if kept.len() == 0 || kept.last() == seq!['.', '.'] {
        None
    } else {
        Some(kept.last())
    }
}

/// The position of the last `.` in `s`, if any.
pub open spec fn last_dot(s: Seq<char>) -> Option<int>
    decreases s.len(),
{
    if s.len() == 0 {
        None
    } else if s.last() == '.' {
        Some(s.len() - 1)
    } else {
        last_dot(s.drop_last())
    }
}

/// The stem of a file name: everything before the last `.`, unless the only
/// `.` is the first character (`Path::file_stem`).
pub open spec fn stem_of(name: Seq<char>) -> Seq<char> {
    match last_dot(name) {
        Some(d) => if d == 0 {
            name
        } else {
            name.take(d)
        },
        None => name,
    }
}

/// The file stem of a path (`Path::file_stem`).
pub open spec fn file_stem(p: Seq<char>) -> Option<Seq<char>> {
    match file_name(p) {
        Some(n) => Some(stem_of(n)),
        None => None,
    }
}

/// The file stem of a path, if it has one.
pub fn path_file_stem(p: &str) -> (r: Option<String>)
    ensures
        match file_stem(p@) {
            Some(s) => r matches Some(x) && x@ == s,
            None => r is None,
        },
{
    let v = chars_of(p);
    let ps = split_chars(&v, '/');
    let kept = keep_parts_of(&ps, 0);
    proof {
        assert(char_views(ps@).skip(0) =~= char_views(ps@));
    }
    if kept.len() == 0 {
        return None;
    }
    let name = &kept[kept.len() - 1];
    proof {
        assert(char_views(kept@).last() == name@);
    }
    let mut dd: Vec<char> = Vec::new();
    dd.push('.');
    dd.push('.');
    proof {
        assert(dd@ =~= seq!['.', '.']);
    }
    if chars_eq(name, &dd) {
        return None;
    }
    let mut d = name.len();
    proof {
        assert(name@.take(name@.len() as int) =~= name@);
    }
    while d > 0 && name[d - 1] != '.'
        invariant
            d <= name.len(),
            last_dot(name@) == last_dot(name@.take(d as int)),
        decreases d,
    {
        proof {
            assert(name@.take(d as int).drop_last() =~= name@.take(d - 1));
        }
        d = d - 1;
    }
    proof {
        assert(name@.take(name@.len() as int) =~= name@);
        if d > 0 {
            assert(name@.take(d as int).last() == '.');
        } else {
            assert(name@.take(0) =~= Seq::<char>::empty());
        }
    }
    if d <= 1 {
        Some(string_of(name))
    } else {
        Some(crate::text::string_of_range(name, 0, d - 1))
    }
}


// --- ordering paths -------------------------------------------------------------

/// The rank of a component's kind in `Path` order: the root first, then `.`,
/// then `..`, then names (`std::path::Component`'s variant order).
pub open spec fn component_rank(c: Seq<char>) -> int {
    if c == seq!['/'] {
        0
    } else if c == seq!['.'] {
        1
    } else if c == seq!['.', '.'] {
        2
    } else {
        3
    }
}

/// Whether component `a` sorts before `b`: by kind, then names by text.
pub open spec fn component_lt(a: Seq<char>, b: Seq<char>) -> bool {
    component_rank(a) < component_rank(b) || (component_rank(a) == component_rank(b) && lex_lt(a, b))
}

/// Whether the component list `a` sorts before `b`: component by component,
/// a list that is a prefix of another first (`Path`'s `Ord`).
pub open spec fn components_lt(a: Seq<Seq<char>>, b: Seq<Seq<char>>) -> bool
    decreases a.len(),
{
    if b.len() == 0 {
        false
    } else if a.len() == 0 {
        true
    } else if a[0] == b[0] {
        components_lt(a.drop_first(), b.drop_first())
    } else {
        component_lt(a[0], b[0])
    }
}

/// Whether path `p` sorts before path `q`.
pub open spec fn path_lt(p: Seq<char>, q: Seq<char>) -> bool {
    components_lt(components(p), components(q))
}

/// Path order as a function value, on component lists.
pub open spec fn components_order() -> spec_fn(Seq<Seq<char>>, Seq<Seq<char>>) -> bool {
    |a: Seq<Seq<char>>, b: Seq<Seq<char>>| components_lt(a, b)
}

/// The component lists of a sequence of paths.
pub open spec fn path_components(paths: Seq<Seq<char>>) -> Seq<Seq<Seq<char>>> {
    paths.map_values(|p: Seq<char>| components(p))
}

proof fn lemma_component_lt(a: Seq<char>, b: Seq<char>, c: Seq<char>)
    ensures
        !component_lt(a, a),
        component_lt(a, b) && component_lt(b, c) ==> component_lt(a, c),
        a != b ==> component_lt(a, b) || component_lt(b, a),
        !(component_lt(a, b) && component_lt(b, a)),
{
    crate::text::lemma_lex_lt_irreflexive(a);
    crate::text::lemma_lex_lt_total(a, b);
    if lex_lt(a, b) && lex_lt(b, c) {
        crate::text::lemma_lex_lt_transitive(a, b, c);
    }
    if lex_lt(a, b) && lex_lt(b, a) {
        crate::text::lemma_lex_lt_transitive(a, b, a);
    }
}

proof fn lemma_components_lt_irreflexive(a: Seq<Seq<char>>)
    ensures
        !components_lt(a, a),
    decreases a.len(),
{
    if a.len() > 0 {
        lemma_components_lt_irreflexive(a.drop_first());
    }
}

proof fn lemma_components_lt_transitive(a: Seq<Seq<char>>, b: Seq<Seq<char>>, c: Seq<Seq<char>>)
    requires
        components_lt(a, b),
        components_lt(b, c),
    ensures
        components_lt(a, c),
    decreases a.len(),
{
    if a.len() > 0 {
        lemma_component_lt(a[0], b[0], c[0]);
        lemma_component_lt(a[0], c[0], b[0]);
        if a[0] == b[0] && b[0] == c[0] {
            lemma_components_lt_transitive(a.drop_first(), b.drop_first(), c.drop_first());
        }
    }
}

/// Path order is a strict order.
pub proof fn lemma_components_order_strict()
    ensures
        strict_order(components_order()),
{
    assert forall|a: Seq<Seq<char>>| !#[trigger] components_order()(a, a) by {
        lemma_components_lt_irreflexive(a);
    }
    assert forall|a: Seq<Seq<char>>, b: Seq<Seq<char>>, c: Seq<Seq<char>>|
        #[trigger] components_order()(a, b) && #[trigger] components_order()(b, c) implies components_order()(a, c) by {
        lemma_components_lt_transitive(a, b, c);
    }
}

fn component_rank_of(c: &Vec<char>) -> (r: u8)
    ensures
        r as int == component_rank(c@),
{
    if c.len() == 1 && c[0] == '/' {
        proof {
            assert(c@ =~= seq!['/']);
        }
        0
    } else if c.len() == 1 && c[0] == '.' {
        proof {
            assert(c@ =~= seq!['.']);
            assert(c@ != seq!['/']);
        }
        1
    } else if c.len() == 2 && c[0] == '.' && c[1] == '.' {
        proof {
            assert(c@ =~= seq!['.', '.']);
            assert(c@ != seq!['/'] && c@ != seq!['.']);
        }
        2
    } else {
        proof {
            assert(c@ != seq!['/'] && c@ != seq!['.'] && c@ != seq!['.', '.']) by {
                if c@ == seq!['/'] || c@ == seq!['.'] {
                    assert(c@.len() == 1);
                }
                if c@ == seq!['.', '.'] {
                    assert(c@.len() == 2);
                }
            }
        }
        3
    }
}

fn components_lt_exec(a: &Vec<Vec<char>>, b: &Vec<Vec<char>>) -> (r: bool)
    ensures
        r == components_lt(char_views(a@), char_views(b@)),
{
    let ghost av = char_views(a@);
    let ghost bv = char_views(b@);
    let mut i: usize = 0;
    proof {
        assert(av.skip(0) =~= av);
        assert(bv.skip(0) =~= bv);
    }
    while i < a.len() && i < b.len()
        invariant
            i <= a.len(),
            i <= b.len(),
            av == char_views(a@),
            bv == char_views(b@),
            components_lt(av, bv) == components_lt(av.skip(i as int), bv.skip(i as int)),
        decreases a.len() - i,
    {
        proof {
            assert(av.skip(i as int)[0] == a@[i as int]@);
            assert(bv.skip(i as int)[0] == b@[i as int]@);
            assert(av.skip(i as int).drop_first() =~= av.skip(i + 1));
            assert(bv.skip(i as int).drop_first() =~= bv.skip(i + 1));
        }
        if !chars_eq(&a[i], &b[i]) {
            let ra = component_rank_of(&a[i]);
            let rb = component_rank_of(&b[i]);
            return ra < rb || (ra == rb && chars_lt(&a[i], &b[i]));
        }
        i = i + 1;
    }
    proof {
        assert(av.skip(i as int).len() == a.len() - i);
        assert(bv.skip(i as int).len() == b.len() - i);
    }
    i < b.len()
}

/// The order to take `paths` in: ascending as `Path` orders them (component
/// by component: the root, then `.`, then `..`, then names by text), equal
/// paths in their original order.
pub fn sorted_path_order(paths: &Vec<String>) -> (r: Vec<usize>)
    ensures
        r@.map_values(|i: usize| i as int) == stable_order_by(
            path_components(string_views(paths@)),
            components_order(),
            paths.len() as int,
        ),
        r.len() == paths.len(),
        forall|k: int| 0 <= k < r.len() ==> #[trigger] r@[k] < paths.len(),
        forall|i: int, j: int| 0 <= i < j < r.len() ==> #[trigger] r@[i] != #[trigger] r@[j],
        forall|i: int, j: int|
            0 <= i < j < r.len() ==> !path_lt(paths@[#[trigger] r@[j] as int]@, paths@[#[trigger] r@[i] as int]@),
{
    let mut keys: Vec<Vec<Vec<char>>> = Vec::new();
    let mut i: usize = 0;
    while i < paths.len()
        invariant
            i <= paths.len(),
            keys.len() == i,
            forall|k: int| 0 <= k < i ==> char_views(#[trigger] keys@[k]@) == components(paths@[k]@),
        decreases paths.len() - i,
    {
        let c = components_of(&chars_of(paths[i].as_str()));
        keys.push(c);
        i = i + 1;
    }
    let ghost ks = path_components(string_views(paths@));
    let ghost lt = components_order();
    proof {
        assert forall|k: int| 0 <= k < keys.len() implies char_views(#[trigger] keys@[k]@) == ks[k] by {}
    }
    let mut r: Vec<usize> = Vec::new();
    let mut n: usize = 0;
    while n < keys.len()
        invariant
            n <= keys.len() == paths.len(),
            ks == path_components(string_views(paths@)),
            lt == components_order(),
            forall|k: int| 0 <= k < keys.len() ==> char_views(#[trigger] keys@[k]@) == ks[k],
            r@.map_values(|i: usize| i as int) == stable_order_by(ks, lt, n as int),
            r.len() == n,
            forall|k: int| 0 <= k < r.len() ==> #[trigger] r@[k] < n,
        decreases keys.len() - n,
    {
        let ghost o = stable_order_by(ks, lt, n as int);
        let mut p: usize = 0;
        while p < r.len() && !components_lt_exec(&keys[n], &keys[r[p]])
            invariant
                p <= r.len() == n,
                n < keys.len(),
                ks == path_components(string_views(paths@)),
                lt == components_order(),
                forall|k: int| 0 <= k < keys.len() ==> char_views(#[trigger] keys@[k]@) == ks[k],
                r@.map_values(|i: usize| i as int) == o,
                forall|k: int| 0 <= k < r.len() ==> #[trigger] r@[k] < n,
                insert_pos_by(o, ks, lt, ks[n as int], 0) == insert_pos_by(o, ks, lt, ks[n as int], p as int),
            decreases r.len() - p,
        {
            proof {
                assert(o[p as int] == r@[p as int] as int);
                assert(char_views(keys@[r@[p as int] as int]@) == ks[r@[p as int] as int]);
                assert(char_views(keys@[n as int]@) == ks[n as int]);
            }
            p = p + 1;
        }
        proof {
            if p < r.len() {
                assert(o[p as int] == r@[p as int] as int);
                assert(char_views(keys@[r@[p as int] as int]@) == ks[r@[p as int] as int]);
                assert(char_views(keys@[n as int]@) == ks[n as int]);
            }
        }
        let ghost before = r@;
        r.insert(p, n);
        proof {
            assert(r@.map_values(|i: usize| i as int) =~= o.insert(p as int, n as int));
            assert forall|k: int| 0 <= k < r.len() implies #[trigger] r@[k] < n + 1 by {
                if k < p {
                    assert(r@[k] == before[k]);
                } else if k > p {
                    assert(r@[k] == before[k - 1]);
                }
            }
        }
        n = n + 1;
    }
    proof {
        lemma_components_order_strict();
        law_stable_order_by_sorts(ks, lt, keys.len() as int);
        let o = stable_order_by(ks, lt, keys.len() as int);
        assert forall|k: int| 0 <= k < r.len() implies #[trigger] r@[k] as int == o[k] by {
            assert(r@.map_values(|i: usize| i as int)[k] == r@[k] as int);
        }
        assert forall|i: int, j: int| 0 <= i < j < r.len() implies #[trigger] r@[i] != #[trigger] r@[j] by {
            assert(r@[i] as int == o[i] && r@[j] as int == o[j]);
        }
        assert forall|i: int, j: int| 0 <= i < j < r.len() implies !path_lt(
            paths@[#[trigger] r@[j] as int]@,
            paths@[#[trigger] r@[i] as int]@,
        ) by {
            assert(r@[i] as int == o[i] && r@[j] as int == o[j]);
            assert(ks[o[i]] == components(paths@[o[i]]@) && ks[o[j]] == components(paths@[o[j]]@));
        }
    }
    r
}

} // verus!
