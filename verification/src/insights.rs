//! Per-operator insights: the live `operator_profile` query and the
//! structure of operator ids.
//!
//! The metrics themselves are floating-point rates and stay with the caller;
//! this module composes the query and orders and indents operators by their
//! ids.

use vstd::prelude::*;
use crate::text::{
    char_views, chars_lt, chars_of, find_char, law_stable_order_by_sorts, lemma_lex_lt_irreflexive,
    lemma_lex_lt_total, lemma_lex_lt_transitive, lex_lt, next_of, owned, parse_u64_chars, parses_u64, push_str,
    slice_chars, split_chars, split_on, stable_order_by, strict_order, string_of, u64_value,
};

verus! {

/// The live query streaming the raw `operator_profile` rows of a pipeline.
pub open spec fn operator_profile_query_of(pipeline_id: Seq<char>) -> Seq<char> {
    "metrics \"operator_profile\", live=true\nwhere pipeline_id == \""@ + pipeline_id + "\""@
}

/// The query streaming raw `operator_profile` rows (one per operator per
/// one-second tick) for `pipeline_id`. It does not summarize: aggregation on
/// a live, unbounded stream never flushes, so the caller bounds the stream by
/// time.
pub fn operator_profile_query(pipeline_id: &str) -> (r: String)
    ensures
        r@ == operator_profile_query_of(pipeline_id@),
{
    let mut s = owned("metrics \"operator_profile\", live=true\nwhere pipeline_id == \"");
    push_str(&mut s, pipeline_id);
    push_str(&mut s, "\"");
    s
}

/// An instance key within a scatter / gather / broadcast operator.
///
/// Numeric instances sort before named ones (e.g. `"out"` sorts last).
#[derive(Debug, Clone, PartialEq, Eq, PartialOrd, Ord)]
pub enum InstanceKey {
    /// A numbered instance.
    Numeric(u64),
    /// A named instance.
    Named(String),
}

/// One parsed segment of an operator id.
///
/// Supports two id formats:
/// - `{pipeline}/{operator}` pairs separated by `-` (sub-pipeline nesting)
/// - `{pipeline}/{operator}#{name}/{instance}` (scatter / gather / broadcast)
///
/// Segments order by pipeline, then operator, then instance.
#[derive(Debug, Clone, PartialEq, Eq, PartialOrd, Ord)]
pub struct OperatorIdSegment {
    /// The (sub-)pipeline number.
    pub pipeline_id: u64,
    /// The operator number within it.
    pub operator_id: u64,
    /// Present when the id carries a `#name/instance` suffix.
    pub instance: Option<InstanceKey>,
}

/// `s` split at its first `c` (`str::split_once`).
pub open spec fn split_once(s: Seq<char>, c: char) -> Option<(Seq<char>, Seq<char>)> {
    let i = next_of(s, c, 0);
    if i < s.len() {
        Some((s.take(i), s.skip(i + 1)))
    } else {
        None
    }
}

/// The part of a piece before its `#` suffix, if any.
pub open spec fn piece_base(piece: Seq<char>) -> Seq<char> {
    match split_once(piece, '#') {
        Some((b, _)) => b,
        None => piece,
    }
}

/// Whether an id piece parses: its base is `{pipeline}/{operator}` with two
/// `u64` numbers.
pub open spec fn piece_parses(piece: Seq<char>) -> bool {
    match split_once(piece_base(piece), '/') {
        Some((p, o)) => parses_u64(p) && parses_u64(o),
        None => false,
    }
}

/// Whether `seg` is what a parseable piece denotes: its two numbers, and the
/// instance after `#name/` (a number when it parses as one, else the text),
/// or none without a `#` suffix holding a `/`.
pub open spec fn segment_of_piece(seg: OperatorIdSegment, piece: Seq<char>) -> bool {
    &&& split_once(piece_base(piece), '/') matches Some((p, o))
    &&& seg.pipeline_id == u64_value(p)
    &&& seg.operator_id == u64_value(o)
    &&& match split_once(piece, '#') {
        Some((_, inst_part)) => match split_once(inst_part, '/') {
            Some((_, inst)) => if parses_u64(inst) {
                seg.instance == Some(InstanceKey::Numeric(u64_value(inst) as u64))
            } else {
                seg.instance matches Some(InstanceKey::Named(n)) && n@ == inst
            },
            None => seg.instance is None,
        },
        None => seg.instance is None,
    }
}

/// The pieces of an id that parse, in order.
pub open spec fn parsed_pieces(pieces: Seq<Seq<char>>) -> Seq<Seq<char>>
    decreases pieces.len(),
{
    if pieces.len() == 0 {
        seq![]
    } else if piece_parses(pieces.last()) {
        parsed_pieces(pieces.drop_last()).push(pieces.last())
    } else {
        parsed_pieces(pieces.drop_last())
    }
}

/// The positions of `v` before and after its first `c`, if it holds one.
fn split_once_chars(v: &Vec<char>, c: char) -> (r: Option<(Vec<char>, Vec<char>)>)
    ensures
        match split_once(v@, c) {
            Some((a, b)) => r matches Some((x, y)) && x@ == a && y@ == b,
            None => r is None,
        },
{
    let i = find_char(v, c, 0);
    if i < v.len() {
        let a = slice_chars(v, 0, i);
        let b = slice_chars(v, i + 1, v.len());
        proof {
            assert(v@.subrange(0, i as int) =~= v@.take(i as int));
            assert(v@.subrange(i + 1, v@.len() as int) =~= v@.skip(i + 1));
        }
        Some((a, b))
    } else {
        None
    }
}

/// The segment a piece denotes, if it parses.
fn parse_piece(piece: &Vec<char>) -> (r: Option<OperatorIdSegment>)
    ensures
        r is Some == piece_parses(piece@),
        r matches Some(seg) ==> segment_of_piece(seg, piece@),
{
    let (base, instance) = match split_once_chars(piece, '#') {
        Some((base, inst_part)) => {
            let key = match split_once_chars(&inst_part, '/') {
                Some((_name, inst)) => match parse_u64_chars(&inst) {
                    Some(n) => Some(InstanceKey::Numeric(n)),
                    None => Some(InstanceKey::Named(string_of(&inst))),
                },
                None => None,
            };
            (base, key)
        },
        None => (slice_chars(piece, 0, piece.len()), None),
    };
    proof {
        assert(piece@.subrange(0, piece@.len() as int) =~= piece@);
    }
    match split_once_chars(&base, '/') {
        Some((p, o)) => match (parse_u64_chars(&p), parse_u64_chars(&o)) {
            (Some(pipeline_id), Some(operator_id)) => Some(OperatorIdSegment { pipeline_id, operator_id, instance }),
            _ => None,
        },
        None => None,
    }
}

/// Parse an operator id into its ordered segments.
///
/// - `517/6-0/0-0/3`: dash-separated `pipeline/operator` pairs used for
///   sub-pipeline nesting; each pair becomes one segment.
/// - `168/4#broadcast/2`: a `pipeline/operator` base with a `#name/instance`
///   suffix used by scatter / gather / broadcast operators; the suffix becomes
///   the `instance` field.
///
/// Pieces that do not parse are skipped, so an unparseable id yields no
/// segments (it sorts first, at depth 0).
pub fn operator_id_segments(id: &str) -> (r: Vec<OperatorIdSegment>)
    ensures
        r@.len() == parsed_pieces(split_on(id@, '-')).len(),
        forall|k: int| 0 <= k < r@.len() ==> segment_of_piece(#[trigger] r@[k], parsed_pieces(split_on(id@, '-'))[k]),
{
    let pieces = split_chars(&chars_of(id), '-');
    let ghost ps = split_on(id@, '-');
    let mut out: Vec<OperatorIdSegment> = Vec::new();
    let mut i: usize = 0;
    while i < pieces.len()
        invariant
            i <= pieces.len(),
            char_views(pieces@) == ps,
            out@.len() == parsed_pieces(ps.take(i as int)).len(),
            forall|k: int| 0 <= k < out@.len() ==> segment_of_piece(#[trigger] out@[k], parsed_pieces(ps.take(i as int))[k]),
        decreases pieces.len() - i,
    {
        proof {
            assert(ps.take(i + 1).drop_last() =~= ps.take(i as int));
            assert(ps.take(i + 1).last() == pieces@[i as int]@);
        }
        match parse_piece(&pieces[i]) {
            Some(seg) => {
                out.push(seg);
            },
            None => {},
        }
        i = i + 1;
    }
    proof {
        assert(ps.take(pieces.len() as int) =~= ps);
    }
    out
}

/// Whether a piece carries a `#name/instance` suffix.
pub open spec fn piece_has_instance(piece: Seq<char>) -> bool {
    split_once(piece, '#') matches Some((_, inst_part)) && split_once(inst_part, '/') is Some
}

/// The nesting depth denoted by the parseable pieces of an id: one level per
/// piece after the first, and one more when the last carries an instance.
pub open spec fn depth_of(pieces: Seq<Seq<char>>) -> int {
    (if pieces.len() == 0 { 0 } else { pieces.len() - 1 }) + (if pieces.len() > 0 && piece_has_instance(pieces.last()) {
        1int
    } else {
        0int
    })
}

/// The nesting depth of an operator id (0 for top-level operators).
///
/// Sub-pipeline nesting adds one level per extra `pipeline/operator` pair; a
/// `#name/instance` suffix on the last segment adds one more, since each
/// instance is a child of its parent operator.
pub fn operator_depth(id: &str) -> (d: usize)
    ensures
        d == depth_of(parsed_pieces(split_on(id@, '-'))),
{
    let segs = operator_id_segments(id);
    let base = if segs.len() == 0 { 0 } else { segs.len() - 1 };
    let instance_depth: usize = if segs.len() > 0 && segs[segs.len() - 1].instance.is_some() { 1 } else { 0 };
    proof {
        let pp = parsed_pieces(split_on(id@, '-'));
        if segs.len() > 0 {
            let k = segs@.len() - 1;
            assert(segment_of_piece(segs@[k], pp[k]));
        }
    }
    base + instance_depth
}


// --- operator order -----------------------------------------------------------

/// Whether instance key `a` sorts before `b`: numbers by value, numbers
/// before names, names by text.
pub open spec fn key_lt(a: InstanceKey, b: InstanceKey) -> bool {
    match (a, b) {
        (InstanceKey::Numeric(x), InstanceKey::Numeric(y)) => x < y,
        (InstanceKey::Numeric(_), InstanceKey::Named(_)) => true,
        (InstanceKey::Named(_), InstanceKey::Numeric(_)) => false,
        (InstanceKey::Named(x), InstanceKey::Named(y)) => lex_lt(x@, y@),
    }
}

/// Whether instance `a` sorts before `b`: no instance first.
pub open spec fn instance_lt(a: Option<InstanceKey>, b: Option<InstanceKey>) -> bool {
    match (a, b) {
        (None, Some(_)) => true,
        (Some(x), Some(y)) => key_lt(x, y),
        _ => false,
    }
}

/// Whether segment `a` sorts before `b`: by pipeline, then operator, then
/// instance.
pub open spec fn seg_lt(a: OperatorIdSegment, b: OperatorIdSegment) -> bool {
    a.pipeline_id < b.pipeline_id || (a.pipeline_id == b.pipeline_id && (a.operator_id < b.operator_id || (
    a.operator_id == b.operator_id && instance_lt(a.instance, b.instance))))
}

/// Whether the segment lists `a` sorts before `b`: segment by segment, a
/// list that is a prefix of another first.
pub open spec fn segs_lt(a: Seq<OperatorIdSegment>, b: Seq<OperatorIdSegment>) -> bool
    decreases a.len(),
{
    if b.len() == 0 {
        false
    } else if a.len() == 0 {
        true
    } else if seg_lt(a[0], b[0]) {
        true
    } else if seg_lt(b[0], a[0]) {
        false
    } else {
        segs_lt(a.drop_first(), b.drop_first())
    }
}

/// Segment order as a function value.
pub open spec fn segs_order() -> spec_fn(Seq<OperatorIdSegment>, Seq<OperatorIdSegment>) -> bool {
    |a: Seq<OperatorIdSegment>, b: Seq<OperatorIdSegment>| segs_lt(a, b)
}

/// Segments that neither sorts before the other.
spec fn seg_eqv(a: OperatorIdSegment, b: OperatorIdSegment) -> bool {
    !seg_lt(a, b) && !seg_lt(b, a)
}

proof fn lemma_seg_lt_strict(a: OperatorIdSegment, b: OperatorIdSegment, c: OperatorIdSegment)
    ensures
        !seg_lt(a, a),
        seg_lt(a, b) && seg_lt(b, c) ==> seg_lt(a, c),
        seg_eqv(a, b) && seg_lt(b, c) ==> seg_lt(a, c),
        seg_lt(a, b) && seg_eqv(b, c) ==> seg_lt(a, c),
        seg_eqv(a, b) && seg_eqv(b, c) ==> seg_eqv(a, c),
{
    if let Some(InstanceKey::Named(x)) = a.instance {
        lemma_lex_lt_irreflexive(x@);
    }
    match (a.instance, b.instance, c.instance) {
        (Some(InstanceKey::Named(x)), Some(InstanceKey::Named(y)), Some(InstanceKey::Named(z))) => {
            lemma_lex_lt_total(x@, y@);
            lemma_lex_lt_total(y@, z@);
            lemma_lex_lt_total(x@, z@);
            if lex_lt(x@, y@) && lex_lt(y@, z@) {
                lemma_lex_lt_transitive(x@, y@, z@);
            }
            if lex_lt(z@, y@) && lex_lt(y@, x@) {
                lemma_lex_lt_transitive(z@, y@, x@);
            }
            if lex_lt(x@, z@) && lex_lt(z@, y@) {
                lemma_lex_lt_transitive(x@, z@, y@);
            }
            if lex_lt(y@, x@) && lex_lt(x@, z@) {
                lemma_lex_lt_transitive(y@, x@, z@);
            }
            if lex_lt(z@, x@) && lex_lt(x@, y@) {
                lemma_lex_lt_transitive(z@, x@, y@);
            }
            if lex_lt(y@, z@) && lex_lt(z@, x@) {
                lemma_lex_lt_transitive(y@, z@, x@);
            }
        },
        (Some(InstanceKey::Named(x)), Some(InstanceKey::Named(y)), _) => {
            lemma_lex_lt_total(x@, y@);
        },
        (_, Some(InstanceKey::Named(y)), Some(InstanceKey::Named(z))) => {
            lemma_lex_lt_total(y@, z@);
        },
        (Some(InstanceKey::Named(x)), _, Some(InstanceKey::Named(z))) => {
            lemma_lex_lt_total(x@, z@);
        },
        _ => {},
    }
}

proof fn lemma_segs_lt_irreflexive(a: Seq<OperatorIdSegment>)
    ensures
        !segs_lt(a, a),
    decreases a.len(),
{
    if a.len() > 0 {
        lemma_seg_lt_strict(a[0], a[0], a[0]);
        lemma_segs_lt_irreflexive(a.drop_first());
    }
}

proof fn lemma_segs_lt_transitive(a: Seq<OperatorIdSegment>, b: Seq<OperatorIdSegment>, c: Seq<OperatorIdSegment>)
    requires
        segs_lt(a, b),
        segs_lt(b, c),
    ensures
        segs_lt(a, c),
    decreases a.len(),
{
    if a.len() > 0 {
        lemma_seg_lt_strict(a[0], b[0], c[0]);
        if seg_eqv(a[0], b[0]) && seg_eqv(b[0], c[0]) {
            lemma_segs_lt_transitive(a.drop_first(), b.drop_first(), c.drop_first());
        }
    }
}

/// Segment order is a strict order.
pub proof fn lemma_segs_order_strict()
    ensures
        strict_order(segs_order()),
{
    assert forall|a: Seq<OperatorIdSegment>| !#[trigger] segs_order()(a, a) by {
        lemma_segs_lt_irreflexive(a);
    }
    assert forall|a: Seq<OperatorIdSegment>, b: Seq<OperatorIdSegment>, c: Seq<OperatorIdSegment>|
        #[trigger] segs_order()(a, b) && #[trigger] segs_order()(b, c) implies segs_order()(a, c) by {
        lemma_segs_lt_transitive(a, b, c);
    }
}

/// Whether instance `a` sorts before `b`.
fn instance_lt_exec(a: &Option<InstanceKey>, b: &Option<InstanceKey>) -> (r: bool)
    ensures
        r == instance_lt(*a, *b),
{
    match (a, b) {
        (None, Some(_)) => true,
        (Some(x), Some(y)) => match (x, y) {
            (InstanceKey::Numeric(p), InstanceKey::Numeric(q)) => *p < *q,
            (InstanceKey::Numeric(_), InstanceKey::Named(_)) => true,
            (InstanceKey::Named(_), InstanceKey::Numeric(_)) => false,
            (InstanceKey::Named(p), InstanceKey::Named(q)) => chars_lt(&chars_of(p.as_str()), &chars_of(q.as_str())),
        },
        _ => false,
    }
}

/// Whether segment `a` sorts before `b`.
fn seg_lt_exec(a: &OperatorIdSegment, b: &OperatorIdSegment) -> (r: bool)
    ensures
        r == seg_lt(*a, *b),
{
    a.pipeline_id < b.pipeline_id || (a.pipeline_id == b.pipeline_id && (a.operator_id < b.operator_id || (
    a.operator_id == b.operator_id && instance_lt_exec(&a.instance, &b.instance))))
}

/// Whether the segment list `a` sorts before `b`.
fn segs_lt_exec(a: &Vec<OperatorIdSegment>, b: &Vec<OperatorIdSegment>) -> (r: bool)
    ensures
        r == segs_lt(a@, b@),
{
    let mut i: usize = 0;
    proof {
        assert(a@.skip(0) =~= a@);
        assert(b@.skip(0) =~= b@);
    }
    while i < a.len() && i < b.len()
        invariant
            i <= a.len(),
            i <= b.len(),
            segs_lt(a@, b@) == segs_lt(a@.skip(i as int), b@.skip(i as int)),
        decreases a.len() - i,
    {
        proof {
            assert(a@.skip(i as int)[0] == a@[i as int]);
            assert(b@.skip(i as int)[0] == b@[i as int]);
            assert(a@.skip(i as int).drop_first() =~= a@.skip(i + 1));
            assert(b@.skip(i as int).drop_first() =~= b@.skip(i + 1));
        }
        if seg_lt_exec(&a[i], &b[i]) {
            return true;
        }
        if seg_lt_exec(&b[i], &a[i]) {
            return false;
        }
        i = i + 1;
    }
    proof {
        assert(a@.skip(i as int).len() == a.len() - i);
        assert(b@.skip(i as int).len() == b.len() - i);
    }
    i < b.len()
}

/// The views of a list of segment lists.
pub open spec fn segment_views(keys: Seq<Vec<OperatorIdSegment>>) -> Seq<Seq<OperatorIdSegment>> {
    keys.map_values(|k: Vec<OperatorIdSegment>| k@)
}

/// The order to list operators in, given the segments of their ids: a
/// pipeline tree, each operator after the operators that sort before it by
/// [`segs_lt`], operators with the same segments in their original order.
pub fn segment_order(keys: &Vec<Vec<OperatorIdSegment>>) -> (r: Vec<usize>)
    ensures
        r@.map_values(|i: usize| i as int) == stable_order_by(segment_views(keys@), segs_order(), keys.len() as int),
        r.len() == keys.len(),
        forall|k: int| 0 <= k < r.len() ==> #[trigger] r@[k] < keys.len(),
        forall|i: int, j: int| 0 <= i < j < r.len() ==> #[trigger] r@[i] != #[trigger] r@[j],
        forall|i: int, j: int|
            0 <= i < j < r.len() ==> !segs_lt(keys@[#[trigger] r@[j] as int]@, keys@[#[trigger] r@[i] as int]@),
{
    let ghost ks = segment_views(keys@);
    let ghost lt = segs_order();
    let mut r: Vec<usize> = Vec::new();
    let mut n: usize = 0;
    while n < keys.len()
        invariant
            n <= keys.len(),
            ks == segment_views(keys@),
            lt == segs_order(),
            r@.map_values(|i: usize| i as int) == stable_order_by(ks, lt, n as int),
            r.len() == n,
            forall|k: int| 0 <= k < r.len() ==> #[trigger] r@[k] < n,
        decreases keys.len() - n,
    {
        let ghost o = stable_order_by(ks, lt, n as int);
        let mut p: usize = 0;
        while p < r.len() && !segs_lt_exec(&keys[n], &keys[r[p]])
            invariant
                p <= r.len() == n,
                n < keys.len(),
                ks == segment_views(keys@),
                lt == segs_order(),
                r@.map_values(|i: usize| i as int) == o,
                forall|k: int| 0 <= k < r.len() ==> #[trigger] r@[k] < n,
                crate::text::insert_pos_by(o, ks, lt, ks[n as int], 0) == crate::text::insert_pos_by(
                    o,
                    ks,
                    lt,
                    ks[n as int],
                    p as int,
                ),
            decreases r.len() - p,
        {
            proof {
                assert(o[p as int] == r@[p as int] as int);
            }
            p = p + 1;
        }
        proof {
            if p < r.len() {
                assert(o[p as int] == r@[p as int] as int);
            }
        }
        let ghost before = r@;
        r.insert(p, n);
        proof {
            assert(r@.map_values(|i: usize| i as int) =~= o.insert(p as int, n as int));
            assert forall|k: int| 0 <= k < r.len() implies #[trigger] r@[k] < n + 1 by {
                if k < p {
                    assert(r@[k] == before[k]);
                } else if k > p {
                    assert(r@[k] == before[k - 1]);
                }
            }
        }
        n = n + 1;
    }
    proof {
        lemma_segs_order_strict();
        law_stable_order_by_sorts(ks, lt, keys.len() as int);
        let o = stable_order_by(ks, lt, keys.len() as int);
        assert forall|k: int| 0 <= k < r.len() implies #[trigger] r@[k] as int == o[k] by {
            assert(r@.map_values(|i: usize| i as int)[k] == r@[k] as int);
        }
        assert forall|i: int, j: int| 0 <= i < j < r.len() implies #[trigger] r@[i] != #[trigger] r@[j] by {
            assert(r@[i] as int == o[i] && r@[j] as int == o[j]);
        }
        assert forall|i: int, j: int| 0 <= i < j < r.len() implies !segs_lt(
            keys@[#[trigger] r@[j] as int]@,
            keys@[#[trigger] r@[i] as int]@,
        ) by {
            assert(r@[i] as int == o[i] && r@[j] as int == o[j]);
            assert(ks[o[i]] == keys@[o[i]]@ && ks[o[j]] == keys@[o[j]]@);
        }
    }
    r
}

// --- latest samples -------------------------------------------------------------

/// The first slot from `t` on whose sample belongs to operator `id`, or -1.
pub open spec fn slot_of(ids: Seq<Seq<char>>, slots: Seq<int>, id: Seq<char>, t: int) -> int
    decreases slots.len() - t,
{
    if t < 0 || t >= slots.len() {
        -1
    } else if ids[slots[t]] == id {
        t
    } else {
        slot_of(ids, slots, id, t + 1)
    }
}

/// For samples with operator ids `ids` (in arrival order), the position of
/// each operator's most recent sample, operators in first-seen order: a
/// sample replaces its operator's earlier one, or opens a new slot.
pub open spec fn latest_of(ids: Seq<Seq<char>>) -> Seq<int>
    decreases ids.len(),
{
    if ids.len() == 0 {
        seq![]
    } else {
        let prev = latest_of(ids.drop_last());
        let k = ids.len() - 1;
        let t = slot_of(ids, prev, ids[k], 0);
        if t >= 0 {
            prev.update(t, k)
        } else {
            prev.push(k)
        }
    }
}

/// A found slot is in range and holds the operator.
pub proof fn lemma_slot_of(ids: Seq<Seq<char>>, slots: Seq<int>, id: Seq<char>, t: int)
    requires
        0 <= t,
    ensures
        slot_of(ids, slots, id, t) >= 0 ==> t <= slot_of(ids, slots, id, t) < slots.len()
            && ids[slots[slot_of(ids, slots, id, t)]] == id,
        slot_of(ids, slots, id, t) < 0 ==> forall|j: int| t <= j < slots.len() ==> ids[#[trigger] slots[j]] != id,
    decreases slots.len() - t,
{
    if t < slots.len() && ids[slots[t]] != id {
        lemma_slot_of(ids, slots, id, t + 1);
    }
}

/// Slots only look at samples before `n`: the slot search agrees on a
/// prefix of the ids that covers them.
pub proof fn lemma_slot_of_prefix(ids: Seq<Seq<char>>, slots: Seq<int>, id: Seq<char>, t: int, n: int)
    requires
        0 <= t,
        n <= ids.len(),
        forall|j: int| 0 <= j < slots.len() ==> 0 <= #[trigger] slots[j] < n,
    ensures
        slot_of(ids.take(n), slots, id, t) == slot_of(ids, slots, id, t),
    decreases slots.len() - t,
{
    if t < slots.len() {
        assert(ids.take(n)[slots[t]] == ids[slots[t]]);
        lemma_slot_of_prefix(ids, slots, id, t + 1, n);
    }
}

/// The slots of [`latest_of`] point at earlier samples.
pub proof fn lemma_latest_of_bounds(ids: Seq<Seq<char>>)
    ensures
        forall|j: int| 0 <= j < latest_of(ids).len() ==> 0 <= #[trigger] latest_of(ids)[j] < ids.len(),
    decreases ids.len(),
{
    if ids.len() > 0 {
        let prev = latest_of(ids.drop_last());
        lemma_latest_of_bounds(ids.drop_last());
        lemma_slot_of(ids, prev, ids[ids.len() - 1], 0);
    }
}

/// The position of the first sample of operator `x` from `i` on, or the
/// number of samples.
pub open spec fn index_from(ids: Seq<Seq<char>>, x: Seq<char>, i: int) -> int
    decreases ids.len() - i,
{
    if i < 0 || i >= ids.len() {
        ids.len() as int
    } else if ids[i] == x {
        i
    } else {
        index_from(ids, x, i + 1)
    }
}

/// The position of the first sample of operator `x`.
pub open spec fn first_index(ids: Seq<Seq<char>>, x: Seq<char>) -> int {
    index_from(ids, x, 0)
}

/// What `index_from` finds.
proof fn lemma_index_from(ids: Seq<Seq<char>>, x: Seq<char>, i: int)
    requires
        0 <= i <= ids.len(),
    ensures
        i <= index_from(ids, x, i) <= ids.len(),
        forall|m: int| i <= m < index_from(ids, x, i) ==> #[trigger] ids[m] != x,
        index_from(ids, x, i) < ids.len() ==> ids[index_from(ids, x, i)] == x,
    decreases ids.len() - i,
{
    if i < ids.len() && ids[i] != x {
        lemma_index_from(ids, x, i + 1);
    }
}

/// The first sample of an operator is at `k` when it is there and not before.
proof fn lemma_first_index_at(ids: Seq<Seq<char>>, x: Seq<char>, k: int)
    requires
        0 <= k < ids.len(),
        ids[k] == x,
    ensures
        first_index(ids, x) <= k,
        (forall|m: int| 0 <= m < k ==> #[trigger] ids[m] != x) ==> first_index(ids, x) == k,
{
    lemma_index_from(ids, x, 0);
}

/// The slots point at samples before `n`.
#[verifier::opaque]
pub open spec fn slots_in_range(l: Seq<int>, n: int) -> bool {
    forall|j: int| 0 <= j < l.len() ==> 0 <= #[trigger] l[j] < n
}

/// No two slots hold samples of the same operator.
#[verifier::opaque]
pub open spec fn slots_distinct(ids: Seq<Seq<char>>, l: Seq<int>) -> bool {
    forall|i: int, j: int| 0 <= i < j < l.len() ==> ids[#[trigger] l[i]] != ids[#[trigger] l[j]]
}

/// Every operator among the first `n` samples has a slot.
#[verifier::opaque]
pub open spec fn slots_cover(ids: Seq<Seq<char>>, l: Seq<int>, n: int) -> bool {
    forall|k: int| 0 <= k < n ==> #[trigger] slot_of(ids, l, ids[k], 0) >= 0
}

/// Each slot holds its operator's last sample among the first `n`.
#[verifier::opaque]
pub open spec fn slots_hold_last(ids: Seq<Seq<char>>, l: Seq<int>, n: int) -> bool {
    forall|j: int, k: int| 0 <= j < l.len() && #[trigger] l[j] < k < n ==> #[trigger] ids[k] != ids[l[j]]
}

/// Slots come in the order their operators were first seen.
#[verifier::opaque]
pub open spec fn slots_first_seen(ids: Seq<Seq<char>>, l: Seq<int>) -> bool {
    forall|i: int, j: int|
        0 <= i < j < l.len() ==> first_index(ids, ids[#[trigger] l[i]]) < first_index(ids, ids[#[trigger] l[j]])
}

/// The properties of the slots of the first `n` samples.
pub open spec fn latest_props(ids: Seq<Seq<char>>, l: Seq<int>, n: int) -> bool {
    &&& slots_in_range(l, n)
    &&& slots_distinct(ids, l)
    &&& slots_cover(ids, l, n)
    &&& slots_hold_last(ids, l, n)
    &&& slots_first_seen(ids, l)
}

/// An operator held by some slot is found by `slot_of`.
proof fn lemma_slot_found(ids: Seq<Seq<char>>, l: Seq<int>, x: Seq<char>, j: int)
    requires
        0 <= j < l.len(),
        ids[l[j]] == x,
    ensures
        slot_of(ids, l, x, 0) >= 0,
{
    lemma_slot_of(ids, l, x, 0);
}

/// The properties carry over from a prefix of the ids to the whole.
proof fn lemma_props_prefix(ids: Seq<Seq<char>>, l: Seq<int>, n: int)
    requires
        0 <= n <= ids.len(),
        latest_props(ids.take(n), l, n),
    ensures
        latest_props(ids, l, n),
{
    let p = ids.take(n);
    reveal(slots_in_range);
    reveal(slots_distinct);
    reveal(slots_cover);
    reveal(slots_hold_last);
    reveal(slots_first_seen);
    assert forall|k: int| 0 <= k < n implies #[trigger] ids[k] == p[k] by {}
    assert forall|j: int| 0 <= j < l.len() implies ids[#[trigger] l[j]] == p[l[j]] by {}
    assert forall|k: int| 0 <= k < n implies #[trigger] slot_of(ids, l, ids[k], 0) >= 0 by {
        assert(slot_of(p, l, p[k], 0) >= 0);
        lemma_slot_of(p, l, p[k], 0);
        let t = slot_of(p, l, p[k], 0);
        lemma_slot_found(ids, l, ids[k], t);
    }
    assert forall|i: int, j: int| 0 <= i < j < l.len() implies first_index(ids, ids[#[trigger] l[i]]) < first_index(
        ids,
        ids[#[trigger] l[j]],
    ) by {
        let xi = ids[l[i]];
        let xj = ids[l[j]];
        assert(first_index(p, xi) < first_index(p, xj));
        lemma_index_from(p, xi, 0);
        lemma_index_from(p, xj, 0);
        lemma_index_from(ids, xi, 0);
        lemma_index_from(ids, xj, 0);
        lemma_first_index_at(p, xi, l[i]);
        lemma_first_index_at(p, xj, l[j]);
        lemma_first_index_at(ids, xi, first_index(p, xi));
        lemma_first_index_at(ids, xj, first_index(p, xj));
    }
}

/// A sample of an operator with a slot moves that slot to it.
proof fn lemma_props_update(ids: Seq<Seq<char>>, prev: Seq<int>, n: int, t: int)
    requires
        1 <= n <= ids.len(),
        latest_props(ids, prev, n - 1),
        0 <= t < prev.len(),
        ids[prev[t]] == ids[n - 1],
    ensures
        latest_props(ids, prev.update(t, n - 1), n),
{
    reveal(slots_in_range);
    reveal(slots_distinct);
    reveal(slots_cover);
    reveal(slots_hold_last);
    reveal(slots_first_seen);
    let l = prev.update(t, n - 1);
    assert forall|j: int| 0 <= j < l.len() implies ids[#[trigger] l[j]] == ids[prev[j]] by {}
    assert forall|i: int, j: int| 0 <= i < j < l.len() implies ids[#[trigger] l[i]] != ids[#[trigger] l[j]] by {
        assert(ids[l[i]] == ids[prev[i]] && ids[l[j]] == ids[prev[j]]);
    }
    assert forall|k: int| 0 <= k < n implies #[trigger] slot_of(ids, l, ids[k], 0) >= 0 by {
        if k == n - 1 {
            lemma_slot_found(ids, l, ids[k], t);
        } else {
            assert(slot_of(ids, prev, ids[k], 0) >= 0);
            lemma_slot_of(ids, prev, ids[k], 0);
            let j = slot_of(ids, prev, ids[k], 0);
            assert(ids[l[j]] == ids[k]);
            lemma_slot_found(ids, l, ids[k], j);
        }
    }
    assert forall|j: int, k: int| 0 <= j < l.len() && #[trigger] l[j] < k < n implies #[trigger] ids[k] != ids[l[j]] by {
        if j != t {
            assert(l[j] == prev[j]);
            if k == n - 1 {
                if t < j {
                    assert(ids[prev[t]] != ids[prev[j]]);
                } else {
                    assert(ids[prev[j]] != ids[prev[t]]);
                }
            }
        }
    }
    assert forall|i: int, j: int| 0 <= i < j < l.len() implies first_index(ids, ids[#[trigger] l[i]]) < first_index(
        ids,
        ids[#[trigger] l[j]],
    ) by {
        assert(ids[l[i]] == ids[prev[i]] && ids[l[j]] == ids[prev[j]]);
    }
}

/// A sample of an operator without a slot opens a new last slot.
proof fn lemma_props_push(ids: Seq<Seq<char>>, prev: Seq<int>, n: int)
    requires
        1 <= n <= ids.len(),
        latest_props(ids, prev, n - 1),
        forall|j: int| 0 <= j < prev.len() ==> ids[#[trigger] prev[j]] != ids[n - 1],
    ensures
        latest_props(ids, prev.push(n - 1), n),
{
    reveal(slots_in_range);
    reveal(slots_distinct);
    reveal(slots_cover);
    reveal(slots_hold_last);
    reveal(slots_first_seen);
    let l = prev.push(n - 1);
    let x = ids[n - 1];
    let last = prev.len() as int;
    assert forall|j: int| 0 <= j < prev.len() implies #[trigger] l[j] == prev[j] by {}
    assert(l[last] == n - 1);
    assert forall|k: int| 0 <= k < n - 1 implies #[trigger] ids[k] != x by {
        assert(slot_of(ids, prev, ids[k], 0) >= 0);
        lemma_slot_of(ids, prev, ids[k], 0);
        let j = slot_of(ids, prev, ids[k], 0);
        assert(ids[prev[j]] != x);
    }
    assert forall|i: int, j: int| 0 <= i < j < l.len() implies ids[#[trigger] l[i]] != ids[#[trigger] l[j]] by {
        if j < last {
            assert(ids[prev[i]] != ids[prev[j]]);
        } else {
            assert(ids[prev[i]] != x);
        }
    }
    assert forall|k: int| 0 <= k < n implies #[trigger] slot_of(ids, l, ids[k], 0) >= 0 by {
        if k == n - 1 {
            lemma_slot_found(ids, l, ids[k], last);
        } else {
            assert(slot_of(ids, prev, ids[k], 0) >= 0);
            lemma_slot_of(ids, prev, ids[k], 0);
            let j = slot_of(ids, prev, ids[k], 0);
            assert(ids[l[j]] == ids[k]);
            lemma_slot_found(ids, l, ids[k], j);
        }
    }
    assert forall|j: int, k: int| 0 <= j < l.len() && #[trigger] l[j] < k < n implies #[trigger] ids[k] != ids[l[j]] by {
        if j < last {
            if k == n - 1 {
                assert(ids[prev[j]] != x);
            } else {
                assert(ids[k] != ids[prev[j]]);
            }
        }
    }
    lemma_first_index_at(ids, x, n - 1);
    assert(first_index(ids, x) == n - 1);
    assert forall|i: int, j: int| 0 <= i < j < l.len() implies first_index(ids, ids[#[trigger] l[i]]) < first_index(
        ids,
        ids[#[trigger] l[j]],
    ) by {
        if j < last {
            assert(first_index(ids, ids[prev[i]]) < first_index(ids, ids[prev[j]]));
        } else {
            lemma_first_index_at(ids, ids[prev[i]], prev[i]);
        }
    }
}

/// The slots `latest_of` keeps have all the properties.
proof fn lemma_latest_props(ids: Seq<Seq<char>>)
    ensures
        latest_props(ids, latest_of(ids), ids.len() as int),
    decreases ids.len(),
{
    if ids.len() == 0 {
        reveal(slots_in_range);
        reveal(slots_distinct);
        reveal(slots_cover);
        reveal(slots_hold_last);
        reveal(slots_first_seen);
        assert(latest_of(ids) =~= Seq::<int>::empty());
    } else {
        let n = ids.len() as int;
        let pre = ids.drop_last();
        lemma_latest_props(pre);
        assert(pre =~= ids.take(n - 1));
        lemma_props_prefix(ids, latest_of(pre), n - 1);
        let prev = latest_of(pre);
        let x = ids[n - 1];
        lemma_slot_of(ids, prev, x, 0);
        let t = slot_of(ids, prev, x, 0);
        if t >= 0 {
            lemma_props_update(ids, prev, n, t);
        } else {
            lemma_props_push(ids, prev, n);
        }
    }
}

/// Keeping the latest sample per operator keeps one slot per operator seen,
/// each holding that operator's last sample, with operators in the order
/// they were first seen.
pub proof fn law_latest_keeps_last_sample(ids: Seq<Seq<char>>)
    ensures
        forall|j: int| 0 <= j < latest_of(ids).len() ==> 0 <= #[trigger] latest_of(ids)[j] < ids.len(),
        forall|i: int, j: int|
            0 <= i < j < latest_of(ids).len() ==> ids[#[trigger] latest_of(ids)[i]] != ids[#[trigger] latest_of(
                ids,
            )[j]],
        forall|k: int|
            #![trigger ids[k]]
            0 <= k < ids.len() ==> exists|j: int|
                #![trigger latest_of(ids)[j]]
                0 <= j < latest_of(ids).len() && ids[latest_of(ids)[j]] == ids[k],
        forall|j: int, k: int|
            0 <= j < latest_of(ids).len() && #[trigger] latest_of(ids)[j] < k < ids.len() ==> #[trigger] ids[k]
                != ids[latest_of(ids)[j]],
        forall|i: int, j: int|
            0 <= i < j < latest_of(ids).len() ==> first_index(ids, ids[#[trigger] latest_of(ids)[i]]) < first_index(
                ids,
                ids[#[trigger] latest_of(ids)[j]],
            ),
{
    lemma_latest_props(ids);
    reveal(slots_in_range);
    reveal(slots_distinct);
    reveal(slots_hold_last);
    reveal(slots_first_seen);
    let l = latest_of(ids);
    assert forall|k: int| #![trigger ids[k]] 0 <= k < ids.len() implies exists|j: int|
        #![trigger l[j]]
        0 <= j < l.len() && ids[l[j]] == ids[k] by {
        reveal(slots_cover);
        assert(slot_of(ids, l, ids[k], 0) >= 0);
        lemma_slot_of(ids, l, ids[k], 0);
        let j = slot_of(ids, l, ids[k], 0);
        assert(ids[l[j]] == ids[k]);
    }
}

/// The slot of `out` holding a sample of the operator of sample `i`.
fn find_slot(ids: &Vec<String>, out: &Vec<usize>, i: usize) -> (r: Option<usize>)
    requires
        i < ids@.len(),
        forall|j: int| 0 <= j < out@.len() ==> #[trigger] out@[j] < ids@.len(),
    ensures
        ({
            let vs = crate::text::string_views(ids@);
            let slots = out@.map_values(|x: usize| x as int);
            match r {
                Some(t) => t as int == slot_of(vs, slots, vs[i as int], 0),
                None => slot_of(vs, slots, vs[i as int], 0) == -1,
            }
        }),
{
    let ghost vs = crate::text::string_views(ids@);
    let ghost slots = out@.map_values(|x: usize| x as int);
    let mut t: usize = 0;
    while t < out.len()
        invariant
            t <= out.len(),
            i < ids@.len(),
            vs == crate::text::string_views(ids@),
            slots == out@.map_values(|x: usize| x as int),
            forall|j: int| 0 <= j < out@.len() ==> #[trigger] out@[j] < ids@.len(),
            slot_of(vs, slots, vs[i as int], 0) == slot_of(vs, slots, vs[i as int], t as int),
        decreases out.len() - t,
    {
        if crate::text::str_eq(ids[out[t]].as_str(), ids[i].as_str()) {
            return Some(t);
        }
        t = t + 1;
    }
    None
}

/// The positions of each operator's most recent sample, in first-seen
/// operator order.
pub fn latest_indices(ids: &Vec<String>) -> (r: Vec<usize>)
    ensures
        r@.len() == latest_of(crate::text::string_views(ids@)).len(),
        forall|j: int| 0 <= j < r@.len() ==> #[trigger] r@[j] as int == latest_of(crate::text::string_views(ids@))[j],
{
    let ghost vs = crate::text::string_views(ids@);
    let mut out: Vec<usize> = Vec::new();
    let mut i: usize = 0;
    while i < ids.len()
        invariant
            i <= ids.len(),
            vs == crate::text::string_views(ids@),
            out@.len() == latest_of(vs.take(i as int)).len(),
            forall|j: int| 0 <= j < out@.len() ==> #[trigger] out@[j] as int == latest_of(vs.take(i as int))[j],
            forall|j: int| 0 <= j < out@.len() ==> #[trigger] out@[j] < i,
        decreases ids.len() - i,
    {
        let ghost prev = latest_of(vs.take(i as int));
        let ghost pre = vs.take(i + 1);
        proof {
            assert(pre.drop_last() =~= vs.take(i as int));
            assert(pre[i as int] == vs[i as int]);
            assert(prev =~= out@.map_values(|x: usize| x as int));
            lemma_slot_of_prefix(vs, prev, vs[i as int], 0, i + 1);
            lemma_latest_of_bounds(vs.take(i as int));
            assert forall|j: int| 0 <= j < prev.len() implies 0 <= #[trigger] prev[j] < i + 1 by {}
            lemma_slot_of_prefix(vs, prev, vs[i as int], 0, i + 1);
            lemma_slot_of(pre, prev, vs[i as int], 0);
        }
        let slot = find_slot(ids, &out, i);
        match slot {
            Some(t) => {
                out.set(t, i);
            },
            None => {
                out.push(i);
            },
        }
        proof {
            assert(latest_of(pre) == (if slot_of(pre, prev, pre[i as int], 0) >= 0 {
                prev.update(slot_of(pre, prev, pre[i as int], 0), i as int)
            } else {
                prev.push(i as int)
            }));
        }
        i = i + 1;
    }
    proof {
        assert(vs.take(ids@.len() as int) =~= vs);
    }
    out
}

} // verus!
