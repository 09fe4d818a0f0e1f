//! Character-level string helpers with contracts over `Seq<char>`.
//!
//! Strings are taken apart into `Vec<char>` (whose view is the string's view),
//! worked on with verified loops, and put back together with [`string_of`].

use vstd::prelude::*;

verus! {

/// The characters of `s`, in order.
pub fn chars_of(s: &str) -> (v: Vec<char>)
    ensures
        v@ == s@,
{
    let mut v: Vec<char> = Vec::new();
    for c in it: s.chars()
        invariant
            v@ == it.seq().take(it.index() as int),
    {
        v.push(c);
    }
    v
}

/// Append one character to a string (`String::push`).
#[verifier::external_body]
pub(crate) fn push_char(s: &mut String, c: char)
    ensures
        final(s)@ == old(s)@.push(c),
{
    s.push(c);
}

/// Append a string slice to a string (`String::push_str`).
#[verifier::external_body]
pub(crate) fn push_str(s: &mut String, t: &str)
    ensures
        final(s)@ == old(s)@ + t@,
{
    s.push_str(t);
}

/// A string holding exactly the characters of `v[from..to]`.
pub fn string_of_range(v: &Vec<char>, from: usize, to: usize) -> (s: String)
    requires
        from <= to <= v.len(),
    ensures
        s@ == v@.subrange(from as int, to as int),
{
    let mut s = String::new();
    let mut i = from;
    while i < to
        invariant
            from <= i <= to <= v.len(),
            s@ == v@.subrange(from as int, i as int),
        decreases to - i,
    {
        push_char(&mut s, v[i]);
        proof {
            assert(v@.subrange(from as int, i + 1) =~= v@.subrange(from as int, i as int).push(v@[i as int]));
        }
        i = i + 1;
    }
    s
}

/// A string holding exactly the characters of `v`.
pub fn string_of(v: &Vec<char>) -> (s: String)
    ensures
        s@ == v@,
{
    let s = string_of_range(v, 0, v.len());
    proof {
        assert(v@.subrange(0, v@.len() as int) =~= v@);
    }
    s
}

/// An owned copy of a string slice.
pub fn owned(s: &str) -> (r: String)
    ensures
        r@ == s@,
{
    s.to_owned()
}

/// Whether two string slices hold the same characters.
pub fn str_eq(a: &str, b: &str) -> (r: bool)
    ensures
        r == (a@ == b@),
{
    let x = a.to_owned();
    let y = b.to_owned();
    x == y
}

/// Whether two character vectors are equal.
pub fn chars_eq(a: &Vec<char>, b: &Vec<char>) -> (r: bool)
    ensures
        r == (a@ == b@),
{
    if a.len() != b.len() {
        return false;
    }
    let mut i: usize = 0;
    while i < a.len()
        invariant
            a.len() == b.len(),
            i <= a.len(),
            forall|k: int| 0 <= k < i ==> a@[k] == b@[k],
        decreases a.len() - i,
    {
        if a[i] != b[i] {
            return false;
        }
        i = i + 1;
    }
    proof {
        assert(a@ =~= b@);
    }
    true
}

/// A copy of a string (`String::clone`, with its contents kept).
pub fn copy_string(s: &String) -> (r: String)
    ensures
        r == *s,
{
    s.clone()
}

/// A copy of an optional string.
pub fn copy_opt_string(s: &Option<String>) -> (r: Option<String>)
    ensures
        r == *s,
{
    match s {
        Some(x) => Some(x.clone()),
        None => None,
    }
}

// --- whitespace -------------------------------------------------------------

/// Unicode `White_Space`, the set that `char::is_whitespace` tests.
pub open spec fn is_ws(c: char) -> bool {
    let u = c as u32;
    (9 <= u <= 13) || u == 32 || u == 0x85 || u == 0xA0 || u == 0x1680 || (0x2000 <= u
        <= 0x200A) || u == 0x2028 || u == 0x2029 || u == 0x202F || u == 0x205F || u == 0x3000
}

/// Whether `c` is whitespace (`char::is_whitespace`).
pub fn is_whitespace(c: char) -> (r: bool)
    ensures
        r == is_ws(c),
{
    let u = c as u32;
    (9 <= u && u <= 13) || u == 32 || u == 0x85 || u == 0xA0 || u == 0x1680 || (0x2000 <= u && u
        <= 0x200A) || u == 0x2028 || u == 0x2029 || u == 0x202F || u == 0x205F || u == 0x3000
}

/// `s` without leading whitespace.
pub open spec fn trim_start(s: Seq<char>) -> Seq<char>
    decreases s.len(),
{
    if s.len() > 0 && is_ws(s[0]) {
        trim_start(s.drop_first())
    } else {
        s
    }
}

/// `s` without trailing whitespace.
pub open spec fn trim_end(s: Seq<char>) -> Seq<char>
    decreases s.len(),
{
    if s.len() > 0 && is_ws(s.last()) {
        trim_end(s.drop_last())
    } else {
        s
    }
}

/// `s` without leading or trailing whitespace (`str::trim`).
pub open spec fn trim(s: Seq<char>) -> Seq<char> {
    trim_end(trim_start(s))
}

/// Whether every character of `s` is whitespace.
pub open spec fn all_ws(s: Seq<char>) -> bool {
    forall|i: int| 0 <= i < s.len() ==> is_ws(#[trigger] s[i])
}

proof fn lemma_trim_start_skip(s: Seq<char>, i: int)
    requires
        0 <= i <= s.len(),
        forall|k: int| 0 <= k < i ==> is_ws(#[trigger] s[k]),
    ensures
        trim_start(s) == trim_start(s.subrange(i, s.len() as int)),
    decreases i,
{
    if i > 0 {
        assert(s.drop_first() =~= s.subrange(1, s.len() as int));
        lemma_trim_start_skip(s.drop_first(), i - 1);
        assert(s.drop_first().subrange(i - 1, s.drop_first().len() as int) =~= s.subrange(
            i,
            s.len() as int,
        ));
    } else {
        assert(s.subrange(0, s.len() as int) =~= s);
    }
}

proof fn lemma_trim_end_cut(s: Seq<char>, j: int)
    requires
        0 <= j <= s.len(),
        forall|k: int| j <= k < s.len() ==> is_ws(#[trigger] s[k]),
    ensures
        trim_end(s) == trim_end(s.subrange(0, j)),
    decreases s.len() - j,
{
    if j < s.len() {
        assert(s.drop_last() =~= s.subrange(0, s.len() - 1));
        lemma_trim_end_cut(s.drop_last(), j);
        assert(s.drop_last().subrange(0, j) =~= s.subrange(0, j));
    } else {
        assert(s.subrange(0, j) =~= s);
    }
}

/// The bounds `(i, j)` such that `trim(v) == v[i..j]`.
pub fn trim_bounds(v: &Vec<char>) -> (r: (usize, usize))
    ensures
        r.0 <= r.1 <= v.len(),
        trim(v@) == v@.subrange(r.0 as int, r.1 as int),
        trim_start(v@) == v@.subrange(r.0 as int, v.len() as int),
        trim_end(v@) == v@.subrange(0, r.1 as int) || r.0 == r.1,
        forall|k: int| 0 <= k < r.0 ==> is_ws(#[trigger] v@[k]),
        r.0 < r.1 ==> !is_ws(v@[r.0 as int]) && !is_ws(v@[r.1 - 1]),
{
    let n = v.len();
    let mut i: usize = 0;
    while i < n && is_whitespace(v[i])
        invariant
            i <= n == v.len(),
            forall|k: int| 0 <= k < i ==> is_ws(#[trigger] v@[k]),
        decreases n - i,
    {
        i = i + 1;
    }
    proof {
        lemma_trim_start_skip(v@, i as int);
    }
    let ghost t = v@.subrange(i as int, n as int);
    let mut j: usize = n;
    while j > i && is_whitespace(v[j - 1])
        invariant
            i <= j <= n == v.len(),
            forall|k: int| j <= k < n ==> is_ws(#[trigger] v@[k]),
        decreases j - i,
    {
        j = j - 1;
    }
    proof {
        if i < n {
            assert(!is_ws(t[0]));
            assert(trim_start(t) == t);
        } else {
            assert(t.len() == 0);
        }
        assert(trim_start(v@) == t);
        assert forall|k: int| (j - i) <= k < t.len() implies is_ws(#[trigger] t[k]) by {
            assert(t[k] == v@[k + i]);
        }
        lemma_trim_end_cut(t, j - i);
        assert(t.subrange(0, j - i) =~= v@.subrange(i as int, j as int));
        let u = v@.subrange(i as int, j as int);
        if j > i {
            assert(u.last() == v@[j - 1]);
        } else {
            assert(u.len() == 0);
        }
        lemma_trim_end_cut(v@, j as int);
        if j > i {
            assert(v@.subrange(0, j as int).last() == v@[j - 1]);
        }
    }
    (i, j)
}

/// `s` with leading and trailing whitespace removed (`str::trim`).
pub fn trim_chars(v: &Vec<char>) -> (r: Vec<char>)
    ensures
        r@ == trim(v@),
{
    let (i, j) = trim_bounds(v);
    let mut r: Vec<char> = Vec::new();
    let mut k = i;
    while k < j
        invariant
            i <= k <= j <= v.len(),
            r@ == v@.subrange(i as int, k as int),
        decreases j - k,
    {
        r.push(v[k]);
        proof {
            assert(v@.subrange(i as int, k + 1) =~= v@.subrange(i as int, k as int).push(v@[k as int]));
        }
        k = k + 1;
    }
    r
}

/// `s.trim().to_string()`.
pub fn trim_str(s: &str) -> (r: String)
    ensures
        r@ == trim(s@),
{
    let v = chars_of(s);
    let (i, j) = trim_bounds(&v);
    string_of_range(&v, i, j)
}


/// `s.trim_end().to_string()`.
pub fn trim_end_str(s: &str) -> (r: String)
    ensures
        r@ == trim_end(s@),
{
    let v = chars_of(s);
    let n = v.len();
    let mut j: usize = n;
    while j > 0 && is_whitespace(v[j - 1])
        invariant
            j <= n == v.len(),
            forall|k: int| j <= k < n ==> is_ws(#[trigger] v@[k]),
        decreases j,
    {
        j = j - 1;
    }
    proof {
        lemma_trim_end_cut(v@, j as int);
        let u = v@.subrange(0, j as int);
        if j > 0 {
            assert(u.last() == v@[j - 1]);
        }
    }
    string_of_range(&v, 0, j)
}

// --- ASCII case and digits ---------------------------------------------------

/// `c.to_ascii_lowercase()`.
pub open spec fn lower(c: char) -> char {
    if 'A' <= c <= 'Z' {
        ((c as u32) + 32) as char
    } else {
        c
    }
}

/// `s.to_ascii_lowercase()` as a sequence.
pub open spec fn lower_seq(s: Seq<char>) -> Seq<char> {
    s.map_values(|c: char| lower(c))
}

/// `c.to_ascii_lowercase()`.
pub fn lower_char(c: char) -> (r: char)
    ensures
        r == lower(c),
{
    if 'A' <= c && c <= 'Z' {
        let u = (c as u32) + 32;
        proof {
            assert(0x61 <= u <= 0x7a);
        }
        (u as u8) as char
    } else {
        c
    }
}

/// `s.to_ascii_lowercase()`, as characters.
pub fn lower_chars(s: &str) -> (r: Vec<char>)
    ensures
        r@ == lower_seq(s@),
{
    let v = chars_of(s);
    let mut r: Vec<char> = Vec::new();
    let mut i: usize = 0;
    while i < v.len()
        invariant
            i <= v.len(),
            v@ == s@,
            r@ =~= lower_seq(v@.take(i as int)),
        decreases v.len() - i,
    {
        r.push(lower_char(v[i]));
        proof {
            assert(v@.take(i + 1) =~= v@.take(i as int).push(v@[i as int]));
        }
        i = i + 1;
    }
    proof {
        assert(v@.take(v.len() as int) =~= v@);
    }
    r
}

/// Whether `c` is an ASCII decimal digit.
pub open spec fn is_digit(c: char) -> bool {
    '0' <= c <= '9'
}

/// The value of an ASCII digit.
pub open spec fn digit_value(c: char) -> nat {
    ((c as u32) - ('0' as u32)) as nat
}

/// The value of a string of decimal digits.
pub open spec fn digits_value(s: Seq<char>) -> nat
    decreases s.len(),
{
    if s.len() == 0 {
        0
    } else {
        digits_value(s.drop_last()) * 10 + digit_value(s.last())
    }
}

/// Whether `s` is a nonempty run of ASCII digits.
pub open spec fn all_digits(s: Seq<char>) -> bool {
    s.len() > 0 && forall|i: int| 0 <= i < s.len() ==> is_digit(#[trigger] s[i])
}

/// The digits that `u64::from_str` reads: an optional leading `+` is skipped.
pub open spec fn unsigned_body(s: Seq<char>) -> Seq<char> {
    if s.len() > 0 && s[0] == '+' {
        s.drop_first()
    } else {
        s
    }
}

/// What `s.parse::<u64>()` accepts: an optional `+`, then at least one digit,
/// with a value that fits in 64 bits.
pub open spec fn parses_u64(s: Seq<char>) -> bool {
    all_digits(unsigned_body(s)) && digits_value(unsigned_body(s)) <= u64::MAX
}

/// The value `s.parse::<u64>()` yields when it succeeds.
pub open spec fn u64_value(s: Seq<char>) -> nat {
    digits_value(unsigned_body(s))
}

/// `s.parse::<u64>().ok()`, on characters.
pub fn parse_u64_chars(s: &Vec<char>) -> (r: Option<u64>)
    ensures
        r is Some <==> parses_u64(s@),
        r matches Some(n) ==> n == u64_value(s@),
{
    let mut i: usize = 0;
    if s.len() > 0 && s[0] == '+' {
        i = 1;
    }
    let ghost body = unsigned_body(s@);
    proof {
        assert(body =~= s@.subrange(i as int, s.len() as int));
    }
    if i >= s.len() {
        return None;
    }
    let start = i;
    let mut acc: u64 = 0;
    while i < s.len()
        invariant
            start <= i <= s.len(),
            start < s.len(),
            body =~= s@.subrange(start as int, s.len() as int),
            body == unsigned_body(s@),
            forall|k: int| start <= k < i ==> is_digit(#[trigger] s@[k]),
            acc == digits_value(s@.subrange(start as int, i as int)),
        decreases s.len() - i,
    {
        let c = s[i];
        if !('0' <= c && c <= '9') {
            proof {
                assert(body[(i - start) as int] == s@[i as int]);
                assert(!is_digit(s@[i as int]));
                assert(!is_digit(body[(i - start) as int]));
                assert(!all_digits(body));
            }
            return None;
        }
        let d = (c as u32 - '0' as u32) as u64;
        proof {
            let p = s@.subrange(start as int, i + 1);
            assert(p.drop_last() =~= s@.subrange(start as int, i as int));
            assert(p.last() == c);
        }
        if acc > (u64::MAX - d) / 10 {
            proof {
                let p = s@.subrange(start as int, i + 1);
                assert(p =~= body.take((i + 1 - start) as int));
                assert(acc * 10 + d > u64::MAX) by (nonlinear_arith)
                    requires acc > (u64::MAX - d) / 10, d <= 9;
                if all_digits(body) {
                    lemma_digits_prefix_mono(body, (i + 1 - start) as int);
                }
            }
            return None;
        }
        acc = acc * 10 + d;
        i = i + 1;
    }
    proof {
        assert(s@.subrange(start as int, s.len() as int) =~= body);
    }
    Some(acc)
}

/// A prefix of a digit string never has a larger value than the whole.
pub proof fn lemma_digits_prefix_mono(s: Seq<char>, k: int)
    requires
        0 <= k <= s.len(),
        forall|i: int| 0 <= i < s.len() ==> is_digit(#[trigger] s[i]),
    ensures
        digits_value(s.take(k)) <= digits_value(s),
    decreases s.len() - k,
{
    if k < s.len() {
        assert(s.drop_last().take(k) =~= s.take(k));
        lemma_digits_prefix_mono(s.drop_last(), k);
        assert(digits_value(s) == digits_value(s.drop_last()) * 10 + digit_value(s.last()));
    } else {
        assert(s.take(k) =~= s);
    }
}

/// `s.parse::<u64>().ok()`.
pub fn parse_u64(s: &str) -> (r: Option<u64>)
    ensures
        r is Some <==> parses_u64(s@),
        r matches Some(n) ==> n == u64_value(s@),
{
    let v = chars_of(s);
    parse_u64_chars(&v)
}

/// The decimal rendering of `n` (`n.to_string()`).
pub open spec fn decimal(n: nat) -> Seq<char>
    decreases n,
{
    if n < 10 {
        seq![digit_char(n)]
    } else {
        decimal(n / 10).push(digit_char(n % 10))
    }
}

/// The ASCII digit for `d < 10`.
pub open spec fn digit_char(d: nat) -> char {
    (('0' as u32) + d) as char
}

/// `n.to_string()` for a `u64`.
pub fn u64_to_string(n: u64) -> (s: String)
    ensures
        s@ == decimal(n as nat),
    decreases n,
{
    let d = (n % 10) as u32;
    let c = (('0' as u32 + d) as u8) as char;
    if n < 10 {
        let mut s = String::new();
        push_char(&mut s, c);
        proof {
            assert(s@ =~= seq![digit_char(n as nat)]);
        }
        s
    } else {
        let mut s = u64_to_string(n / 10);
        push_char(&mut s, c);
        s
    }
}

/// `n.to_string()` for a `usize`.
pub fn usize_to_string(n: usize) -> (s: String)
    ensures
        s@ == decimal(n as nat),
{
    u64_to_string(n as u64)
}

// --- lines and joins ----------------------------------------------------------

/// The position of the first `'\n'` at or after `i`, or `s.len()`.
pub open spec fn next_nl(s: Seq<char>, i: int) -> int
    decreases s.len() - i,
{
    if i >= s.len() {
        s.len() as int
    } else if s[i] == '\n' {
        i
    } else {
        next_nl(s, i + 1)
    }
}

/// `s` without one trailing carriage return.
pub open spec fn strip_cr(s: Seq<char>) -> Seq<char> {
    if s.len() > 0 && s.last() == '\r' {
        s.drop_last()
    } else {
        s
    }
}

/// The lines of `s` from position `i` on, as `str::lines` yields them: split
/// at `'\n'`, a `'\r'` right before a `'\n'` dropped, no empty last line after
/// a final line ending.
pub open spec fn lines_from(s: Seq<char>, i: int) -> Seq<Seq<char>>
    decreases s.len() - i,
{
    if i < 0 || i >= s.len() {
        seq![]
    } else {
        let k = next_nl(s, i);
        if k >= s.len() {
            seq![s.subrange(i, s.len() as int)]
        } else {
            proof {
                lemma_next_nl(s, i);
            }
            seq![strip_cr(s.subrange(i, k))] + lines_from(s, k + 1)
        }
    }
}

/// The lines of `s` (`str::lines`).
pub open spec fn lines(s: Seq<char>) -> Seq<Seq<char>> {
    lines_from(s, 0)
}

pub proof fn lemma_next_nl(s: Seq<char>, i: int)
    requires
        0 <= i <= s.len(),
    ensures
        i <= next_nl(s, i) <= s.len(),
        forall|k: int| i <= k < next_nl(s, i) ==> s[k] != '\n',
        next_nl(s, i) < s.len() ==> s[next_nl(s, i)] == '\n',
    decreases s.len() - i,
{
    if i < s.len() && s[i] != '\n' {
        lemma_next_nl(s, i + 1);
    }
}

/// Whether `s` has no surrounding whitespace.
pub open spec fn trimmed(s: Seq<char>) -> bool {
    s.len() == 0 || (!is_ws(s[0]) && !is_ws(s.last()))
}

/// `trim_end(s)` is a prefix of `s` that ends in a non-whitespace character
/// (or is empty), followed in `s` only by whitespace.
pub proof fn lemma_trim_end_prefix(s: Seq<char>)
    ensures
        trim_end(s) == s.take(trim_end(s).len() as int),
        trim_end(s).len() <= s.len(),
        trim_end(s).len() == 0 || !is_ws(trim_end(s).last()),
        forall|k: int| trim_end(s).len() <= k < s.len() ==> is_ws(#[trigger] s[k]),
    decreases s.len(),
{
    if s.len() > 0 && is_ws(s.last()) {
        lemma_trim_end_prefix(s.drop_last());
        assert(s.drop_last().take(trim_end(s).len() as int) =~= s.take(trim_end(s).len() as int));
        assert forall|k: int| trim_end(s).len() <= k < s.len() implies is_ws(#[trigger] s[k]) by {
            if k < s.len() - 1 {
                assert(s.drop_last()[k] == s[k]);
            }
        }
    } else {
        assert(s.take(s.len() as int) =~= s);
    }
}

/// `trim_start(s)` is empty or starts with a non-whitespace character.
pub proof fn lemma_trim_start_shape(s: Seq<char>)
    ensures
        trim_start(s).len() == 0 || !is_ws(trim_start(s)[0]),
    decreases s.len(),
{
    if s.len() > 0 && is_ws(s[0]) {
        lemma_trim_start_shape(s.drop_first());
    }
}

/// A trimmed text has no surrounding whitespace, and trimming leaves it and
/// it followed by a line ending alike unchanged.
pub proof fn lemma_trim_trimmed(s: Seq<char>)
    ensures
        trimmed(trim(s)),
        trimmed(s) ==> trim(s) == s,
        trimmed(s) ==> trim(s + seq!['\n']) == s,
{
    let a = trim_start(s);
    lemma_trim_start_shape(s);
    lemma_trim_end_prefix(a);
    let b = trim_end(a);
    if b.len() > 0 {
        assert(b[0] == a[0]);
    }
    if trimmed(s) {
        if s.len() > 0 {
            assert(trim_start(s) == s);
            assert(trim_end(s) == s);
            let t = s + seq!['\n'];
            assert(!is_ws(t[0]));
            assert(trim_start(t) == t);
            assert(t.drop_last() =~= s);
            assert(is_ws(t.last()));
            assert(trim_end(t) == trim_end(s));
        } else {
            let t = s + seq!['\n'];
            assert(t.drop_first() =~= Seq::<char>::empty());
            assert(trim_start(t) == trim_start(t.drop_first()));
        }
    }
}

/// `next_nl` looks only at the text after its start.
proof fn lemma_next_nl_shift(p: Seq<char>, s: Seq<char>, i: int)
    requires
        0 <= i <= s.len(),
    ensures
        next_nl(p + s, p.len() + i) == p.len() + next_nl(s, i),
    decreases s.len() - i,
{
    if i < s.len() {
        assert((p + s)[p.len() + i] == s[i]);
        if s[i] != '\n' {
            lemma_next_nl_shift(p, s, i + 1);
        }
    }
}

/// The lines after a prefix are the lines of the rest.
proof fn lemma_lines_from_shift(p: Seq<char>, s: Seq<char>, i: int)
    requires
        0 <= i,
    ensures
        lines_from(p + s, p.len() + i) == lines_from(s, i),
    decreases s.len() - i,
{
    let t = p + s;
    if i < s.len() {
        lemma_next_nl_shift(p, s, i);
        lemma_next_nl(s, i);
        let k = next_nl(s, i);
        if k >= s.len() {
            assert(t.subrange(p.len() + i, t.len() as int) =~= s.subrange(i, s.len() as int));
        } else {
            assert(t.subrange(p.len() + i, p.len() + k) =~= s.subrange(i, k));
            lemma_lines_from_shift(p, s, k + 1);
        }
    }
}

/// A line ended by `'\n'` is the first line of a text, the rest its lines.
pub proof fn lemma_lines_cons(l: Seq<char>, rest: Seq<char>)
    requires
        forall|k: int| 0 <= k < l.len() ==> #[trigger] l[k] != '\n',
    ensures
        lines(l + seq!['\n'] + rest) == seq![strip_cr(l)] + lines(rest),
{
    let s = l + seq!['\n'] + rest;
    lemma_next_nl(s, 0);
    let k = next_nl(s, 0);
    assert(s[l.len() as int] == '\n');
    if k < l.len() {
        assert(s[k] == l[k]);
    }
    assert(k == l.len());
    assert(s.subrange(0, k) =~= l);
    assert(s =~= (l + seq!['\n']) + rest);
    lemma_lines_from_shift(l + seq!['\n'], rest, 0);
}

/// Joining a line in front of nonempty lines puts the separator between.
pub proof fn lemma_join_cons(a: Seq<char>, r: Seq<Seq<char>>, sep: Seq<char>)
    requires
        r.len() >= 1,
    ensures
        join(seq![a] + r, sep) == a + sep + join(r, sep),
    decreases r.len(),
{
    let x = seq![a] + r;
    assert(x.len() >= 2);
    assert(join(x, sep) == join(x.drop_last(), sep) + sep + x.last());
    if r.len() == 1 {
        assert(x.drop_last() =~= seq![a]);
        assert(x.last() == r[0]);
        assert(join(seq![a], sep) == a);
        assert(join(r, sep) == r[0]);
        assert(join(x, sep) =~= a + sep + join(r, sep));
    } else {
        assert(x.drop_last() =~= seq![a] + r.drop_last());
        lemma_join_cons(a, r.drop_last(), sep);
        assert(x.last() == r.last());
        assert(join(r, sep) == join(r.drop_last(), sep) + sep + r.last());
        assert(join(x, sep) =~= a + sep + join(r, sep));
    }
}

/// Whether `s` holds a `"\r\n"` line ending.
pub open spec fn has_crlf(s: Seq<char>) -> bool {
    exists|k: int| 0 <= k < s.len() - 1 && #[trigger] s[k] == '\r' && s[k + 1] == '\n'
}

/// The lines of a text ended by `'\n'`, joined back, give the text: nothing
/// but `"\r\n"` line endings is lost.
pub proof fn lemma_join_lines_back(t: Seq<char>)
    requires
        !has_crlf(t),
        t.len() == 0 || t.last() != '\r',
    ensures
        lines(t + seq!['\n']).len() >= 1,
        join(lines(t + seq!['\n']), seq!['\n']) == t,
    decreases t.len(),
{
    lemma_next_nl(t, 0);
    let k = next_nl(t, 0);
    if k >= t.len() {
        lemma_lines_cons(t, seq![]);
        assert(t + seq!['\n'] =~= t + seq!['\n'] + Seq::<char>::empty());
        assert(lines(Seq::<char>::empty()) =~= Seq::<Seq<char>>::empty());
        assert(strip_cr(t) == t);
    } else {
        let a = t.take(k);
        let b = t.skip(k + 1);
        assert forall|j: int| 0 <= j < a.len() implies #[trigger] a[j] != '\n' by {
            assert(a[j] == t[j]);
        }
        assert(t + seq!['\n'] =~= a + seq!['\n'] + (b + seq!['\n']));
        lemma_lines_cons(a, b + seq!['\n']);
        if a.len() > 0 {
            assert(a.last() == t[k - 1]);
            assert(t[k] == '\n');
            if t[k - 1] == '\r' {
                assert(has_crlf(t));
            }
        }
        assert(strip_cr(a) == a);
        assert(!has_crlf(b)) by {
            if has_crlf(b) {
                let j = choose|j: int| 0 <= j < b.len() - 1 && #[trigger] b[j] == '\r' && b[j + 1] == '\n';
                assert(t[k + 1 + j] == '\r' && t[k + 2 + j] == '\n');
            }
        }
        if b.len() > 0 {
            assert(b.last() == t.last());
        }
        lemma_join_lines_back(b);
        lemma_join_cons(a, lines(b + seq!['\n']), seq!['\n']);
        assert(a + seq!['\n'] + b =~= t);
    }
}

/// The views of a vector of character vectors.
pub open spec fn char_views(v: Seq<Vec<char>>) -> Seq<Seq<char>> {
    v.map_values(|x: Vec<char>| x@)
}

/// The characters `v[from..to]`.
pub fn slice_chars(v: &Vec<char>, from: usize, to: usize) -> (r: Vec<char>)
    requires
        from <= to <= v.len(),
    ensures
        r@ == v@.subrange(from as int, to as int),
{
    let mut r: Vec<char> = Vec::new();
    let mut k = from;
    while k < to
        invariant
            from <= k <= to <= v.len(),
            r@ == v@.subrange(from as int, k as int),
        decreases to - k,
    {
        r.push(v[k]);
        proof {
            assert(v@.subrange(from as int, k + 1) =~= v@.subrange(from as int, k as int).push(v@[k as int]));
        }
        k = k + 1;
    }
    r
}

/// The lines of `v` (`str::lines`).
pub fn lines_of(v: &Vec<char>) -> (r: Vec<Vec<char>>)
    ensures
        char_views(r@) == lines(v@),
{
    let mut r: Vec<Vec<char>> = Vec::new();
    let mut i: usize = 0;
    let n = v.len();
    while i < n
        invariant
            n == v.len(),
            i <= n,
            char_views(r@) + lines_from(v@, i as int) == lines(v@),
        decreases n - i,
    {
        let mut k = i;
        while k < n && v[k] != '\n'
            invariant
                i <= k <= n == v.len(),
                next_nl(v@, i as int) == next_nl(v@, k as int),
            decreases n - k,
        {
            k = k + 1;
        }
        let ghost before = char_views(r@);
        if k >= n {
            let line = slice_chars(v, i, n);
            r.push(line);
            proof {
                assert(char_views(r@) =~= before.push(v@.subrange(i as int, n as int)));
                assert(lines_from(v@, n as int) =~= Seq::<Seq<char>>::empty());
                assert(lines_from(v@, i as int) =~= seq![v@.subrange(i as int, n as int)]);
            }
            i = n;
        } else {
            let mut end = k;
            if end > i && v[end - 1] == '\r' {
                end = end - 1;
            }
            let line = slice_chars(v, i, end);
            r.push(line);
            proof {
                assert(strip_cr(v@.subrange(i as int, k as int)) =~= v@.subrange(i as int, end as int));
                assert(char_views(r@) =~= before.push(v@.subrange(i as int, end as int)));
                assert(lines_from(v@, i as int) =~= seq![v@.subrange(i as int, end as int)] + lines_from(v@, k + 1));
            }
            i = k + 1;
        }
    }
    proof {
        assert(lines_from(v@, i as int) =~= Seq::<Seq<char>>::empty());
        assert(char_views(r@) + Seq::<Seq<char>>::empty() =~= char_views(r@));
    }
    r
}

/// The pieces of `ls` joined with `sep` between neighbours (`join`).
pub open spec fn join(ls: Seq<Seq<char>>, sep: Seq<char>) -> Seq<char>
    decreases ls.len(),
{
    if ls.len() == 0 {
        seq![]
    } else if ls.len() == 1 {
        ls[0]
    } else {
        join(ls.drop_last(), sep) + sep + ls.last()
    }
}

/// `ls[from..to].join("\n")`, as characters.
pub fn join_lines(ls: &Vec<Vec<char>>, from: usize, to: usize) -> (r: Vec<char>)
    requires
        from <= to <= ls.len(),
    ensures
        r@ == join(char_views(ls@).subrange(from as int, to as int), seq!['\n']),
{
    let mut r: Vec<char> = Vec::new();
    let mut k = from;
    while k < to
        invariant
            from <= k <= to <= ls.len(),
            r@ == join(char_views(ls@).subrange(from as int, k as int), seq!['\n']),
        decreases to - k,
    {
        let ghost sub = char_views(ls@).subrange(from as int, k + 1);
        proof {
            assert(sub.drop_last() =~= char_views(ls@).subrange(from as int, k as int));
            assert(sub.last() == ls@[k as int]@);
        }
        if k > from {
            r.push('\n');
        }
        let line = &ls[k];
        let mut j: usize = 0;
        let ghost base = r@;
        while j < line.len()
            invariant
                j <= line.len(),
                r@ == base + line@.take(j as int),
            decreases line.len() - j,
        {
            r.push(line[j]);
            proof {
                assert(line@.take(j + 1) =~= line@.take(j as int).push(line@[j as int]));
            }
            j = j + 1;
        }
        proof {
            assert(line@.take(line.len() as int) =~= line@);
            if k == from {
                assert(sub.len() == 1);
                assert(r@ =~= sub[0]);
            } else {
                assert(r@ =~= join(sub.drop_last(), seq!['\n']) + seq!['\n'] + sub.last());
            }
        }
        k = k + 1;
    }
    r
}

/// Whether `s` begins with `p`.
pub open spec fn starts_with(s: Seq<char>, p: Seq<char>) -> bool {
    p.len() <= s.len() && s.take(p.len() as int) == p
}

/// Whether `v` begins with `p`.
pub fn chars_start_with(v: &Vec<char>, p: &Vec<char>) -> (r: bool)
    ensures
        r == starts_with(v@, p@),
{
    if p.len() > v.len() {
        return false;
    }
    let mut i: usize = 0;
    while i < p.len()
        invariant
            p.len() <= v.len(),
            i <= p.len(),
            forall|k: int| 0 <= k < i ==> v@[k] == p@[k],
        decreases p.len() - i,
    {
        if v[i] != p[i] {
            proof {
                assert(v@.take(p.len() as int)[i as int] != p@[i as int]);
            }
            return false;
        }
        i = i + 1;
    }
    proof {
        assert(v@.take(p.len() as int) =~= p@);
    }
    true
}

// --- splitting on a character ----------------------------------------------

/// The position of the first `c` at or after `i`, or `s.len()`.
pub open spec fn next_of(s: Seq<char>, c: char, i: int) -> int
    decreases s.len() - i,
{
    if i >= s.len() {
        s.len() as int
    } else if s[i] == c {
        i
    } else {
        next_of(s, c, i + 1)
    }
}

/// What `next_of` answers.
pub proof fn lemma_next_of(s: Seq<char>, c: char, i: int)
    requires
        0 <= i <= s.len(),
    ensures
        i <= next_of(s, c, i) <= s.len(),
        forall|k: int| i <= k < next_of(s, c, i) ==> s[k] != c,
        next_of(s, c, i) < s.len() ==> s[next_of(s, c, i)] == c,
    decreases s.len() - i,
{
    if i < s.len() && s[i] != c {
        lemma_next_of(s, c, i + 1);
    }
}

/// The pieces of `s[i..]` between occurrences of `c` (`str::split`).
pub open spec fn split_from(s: Seq<char>, c: char, i: int) -> Seq<Seq<char>>
    decreases s.len() - i,
{
    if i < 0 || i > s.len() {
        seq![]
    } else {
        let k = next_of(s, c, i);
        if k >= s.len() {
            seq![s.subrange(i, s.len() as int)]
        } else {
            proof {
                lemma_next_of(s, c, i);
            }
            seq![s.subrange(i, k)] + split_from(s, c, k + 1)
        }
    }
}

/// The pieces of `s` between occurrences of `c` (`str::split`); never empty.
pub open spec fn split_on(s: Seq<char>, c: char) -> Seq<Seq<char>> {
    split_from(s, c, 0)
}

/// The position of the first `c` in `v` at or after `i`.
pub fn find_char(v: &Vec<char>, c: char, i: usize) -> (k: usize)
    requires
        i <= v.len(),
    ensures
        k == next_of(v@, c, i as int),
        i <= k <= v.len(),
        forall|j: int| i <= j < k ==> v@[j] != c,
        k < v.len() ==> v@[k as int] == c,
{
    proof {
        lemma_next_of(v@, c, i as int);
    }
    let mut k = i;
    while k < v.len() && v[k] != c
        invariant
            i <= k <= v.len(),
            next_of(v@, c, i as int) == next_of(v@, c, k as int),
        decreases v.len() - k,
    {
        k = k + 1;
    }
    k
}

/// The pieces of `v` between occurrences of `c` (`str::split`).
pub fn split_chars(v: &Vec<char>, c: char) -> (r: Vec<Vec<char>>)
    ensures
        char_views(r@) == split_on(v@, c),
        r.len() >= 1,
{
    let mut r: Vec<Vec<char>> = Vec::new();
    let mut i: usize = 0;
    let n = v.len();
    loop
        invariant
            n == v.len(),
            i <= n,
            char_views(r@) + split_from(v@, c, i as int) == split_on(v@, c),
        decreases n - i,
    {
        let k = find_char(v, c, i);
        let piece = slice_chars(v, i, k);
        let ghost before = char_views(r@);
        r.push(piece);
        proof {
            assert(char_views(r@) =~= before.push(v@.subrange(i as int, k as int)));
        }
        if k >= n {
            proof {
                assert(split_from(v@, c, i as int) =~= seq![v@.subrange(i as int, n as int)]);
                assert(char_views(r@) =~= split_on(v@, c));
            }
            return r;
        }
        proof {
            assert(split_from(v@, c, i as int) =~= seq![v@.subrange(i as int, k as int)] + split_from(v@, c, k + 1));
            assert(char_views(r@) + split_from(v@, c, k + 1) =~= split_on(v@, c));
        }
        i = k + 1;
    }
}

/// Whether `s` contains `c`.
pub fn has_char(v: &Vec<char>, c: char) -> (r: bool)
    ensures
        r == v@.contains(c),
{
    let k = find_char(v, c, 0);
    proof {
        if k >= v.len() {
            assert forall|j: int| 0 <= j < v@.len() implies v@[j] != c by {}
        } else {
            assert(v@[k as int] == c);
        }
    }
    k < v.len()
}

// --- ordering ------------------------------------------------------------------

/// Whether `a` sorts strictly before `b` (`str` ordering: lexicographic by
/// character code, a proper prefix first).
pub open spec fn lex_lt(a: Seq<char>, b: Seq<char>) -> bool
    decreases a.len(),
{
    if b.len() == 0 {
        false
    } else if a.len() == 0 {
        true
    } else if a[0] < b[0] {
        true
    } else if a[0] > b[0] {
        false
    } else {
        lex_lt(a.drop_first(), b.drop_first())
    }
}

/// Whether `a` sorts strictly before `b`.
pub fn chars_lt(a: &Vec<char>, b: &Vec<char>) -> (r: bool)
    ensures
        r == lex_lt(a@, b@),
{
    let mut i: usize = 0;
    proof {
        assert(a@.skip(0) =~= a@);
        assert(b@.skip(0) =~= b@);
    }
    while i < a.len() && i < b.len() && a[i] == b[i]
        invariant
            i <= a.len(),
            i <= b.len(),
            lex_lt(a@, b@) == lex_lt(a@.skip(i as int), b@.skip(i as int)),
        decreases a.len() - i,
    {
        proof {
            assert(a@.skip(i as int).drop_first() =~= a@.skip(i + 1));
            assert(b@.skip(i as int).drop_first() =~= b@.skip(i + 1));
        }
        i = i + 1;
    }
    proof {
        if i < a.len() {
            assert(a@.skip(i as int)[0] == a@[i as int]);
        }
        if i < b.len() {
            assert(b@.skip(i as int)[0] == b@[i as int]);
        }
        assert(a@.skip(i as int).len() == a.len() - i);
        assert(b@.skip(i as int).len() == b.len() - i);
    }
    if i >= b.len() {
        false
    } else if i >= a.len() {
        true
    } else {
        a[i] < b[i]
    }
}

/// The first position `p >= from` in `order` whose key sorts after `k`, or
/// `order.len()`.
pub open spec fn insert_pos(order: Seq<int>, keys: Seq<Seq<char>>, k: Seq<char>, from: int) -> int
    decreases order.len() - from,
{
    if from >= order.len() {
        order.len() as int
    } else if lex_lt(k, keys[order[from]]) {
        from
    } else {
        insert_pos(order, keys, k, from + 1)
    }
}

/// The stable sorting order of the first `n` keys: each key goes after every
/// earlier key that does not sort after it (insertion sort).
pub open spec fn stable_order(keys: Seq<Seq<char>>, n: int) -> Seq<int>
    decreases n,
{
    if n <= 0 {
        seq![]
    } else {
        let o = stable_order(keys, n - 1);
        o.insert(insert_pos(o, keys, keys[n - 1], 0), n - 1)
    }
}

proof fn lemma_insert_pos(order: Seq<int>, keys: Seq<Seq<char>>, k: Seq<char>, from: int)
    requires
        0 <= from <= order.len(),
    ensures
        from <= insert_pos(order, keys, k, from) <= order.len(),
    decreases order.len() - from,
{
    if from < order.len() && !lex_lt(k, keys[order[from]]) {
        lemma_insert_pos(order, keys, k, from + 1);
    }
}

/// The stable order's indices are a permutation of `0..n`.
pub proof fn lemma_stable_order(keys: Seq<Seq<char>>, n: int)
    requires
        0 <= n,
    ensures
        stable_order(keys, n).len() == n,
        forall|k: int| 0 <= k < n ==> 0 <= #[trigger] stable_order(keys, n)[k] < n,
    decreases n,
{
    if n > 0 {
        lemma_stable_order(keys, n - 1);
        let o = stable_order(keys, n - 1);
        lemma_insert_pos(o, keys, keys[n - 1], 0);
        let p = insert_pos(o, keys, keys[n - 1], 0);
        assert forall|k: int| 0 <= k < n implies 0 <= #[trigger] stable_order(keys, n)[k] < n by {
            if k < p {
                assert(stable_order(keys, n)[k] == o[k]);
            } else if k > p {
                assert(stable_order(keys, n)[k] == o[k - 1]);
            }
        }
    }
}

/// `lex_lt` is transitive.
pub proof fn lemma_lex_lt_transitive(a: Seq<char>, b: Seq<char>, c: Seq<char>)
    requires
        lex_lt(a, b),
        lex_lt(b, c),
    ensures
        lex_lt(a, c),
    decreases a.len(),
{
    if a.len() > 0 && b.len() > 0 && c.len() > 0 && a[0] == b[0] && b[0] == c[0] {
        lemma_lex_lt_transitive(a.drop_first(), b.drop_first(), c.drop_first());
    }
}

/// `lex_lt` is irreflexive.
pub proof fn lemma_lex_lt_irreflexive(a: Seq<char>)
    ensures
        !lex_lt(a, a),
    decreases a.len(),
{
    if a.len() > 0 {
        lemma_lex_lt_irreflexive(a.drop_first());
    }
}

/// What `insert_pos` finds: no key before it sorts after `k`, and the key at
/// it (if any) does.
proof fn lemma_insert_pos_bounds(order: Seq<int>, keys: Seq<Seq<char>>, k: Seq<char>, from: int)
    requires
        0 <= from <= order.len(),
    ensures
        forall|q: int| from <= q < insert_pos(order, keys, k, from) ==> !lex_lt(k, #[trigger] keys[order[q]]),
        insert_pos(order, keys, k, from) < order.len() ==> lex_lt(k, keys[order[insert_pos(order, keys, k, from)]]),
    decreases order.len() - from,
{
    if from < order.len() && !lex_lt(k, keys[order[from]]) {
        lemma_insert_pos_bounds(order, keys, k, from + 1);
    }
}

/// Every position `0..n` occurs in the stable order: sorting loses nothing.
pub proof fn lemma_stable_order_covers(keys: Seq<Seq<char>>, n: int, m: int)
    requires
        0 <= m < n,
    ensures
        exists|k: int| 0 <= k < n && #[trigger] stable_order(keys, n)[k] == m,
    decreases n,
{
    lemma_stable_order(keys, n - 1);
    let o = stable_order(keys, n - 1);
    lemma_insert_pos(o, keys, keys[n - 1], 0);
    let p = insert_pos(o, keys, keys[n - 1], 0);
    let s = stable_order(keys, n);
    if m == n - 1 {
        assert(s[p] == m);
    } else {
        lemma_stable_order_covers(keys, n - 1, m);
        let k = choose|k: int| 0 <= k < n - 1 && #[trigger] o[k] == m;
        if k < p {
            assert(s[k] == m);
        } else {
            assert(s[k + 1] == m);
        }
    }
}

/// The stable order lists every position below `n` exactly once, with keys
/// in ascending order and equal keys in their original order: insertion sort
/// sorts, stably.
pub proof fn law_stable_order_sorts(keys: Seq<Seq<char>>, n: int)
    requires
        0 <= n <= keys.len(),
    ensures
        stable_order(keys, n).len() == n,
        forall|k: int| 0 <= k < n ==> 0 <= #[trigger] stable_order(keys, n)[k] < n,
        forall|i: int, j: int|
            0 <= i < j < n ==> #[trigger] stable_order(keys, n)[i] != #[trigger] stable_order(keys, n)[j],
        forall|i: int, j: int|
            0 <= i < j < n ==> !lex_lt(keys[#[trigger] stable_order(keys, n)[j]], keys[#[trigger] stable_order(keys, n)[i]]),
        forall|i: int, j: int|
            0 <= i < j < n && keys[#[trigger] stable_order(keys, n)[i]] == keys[#[trigger] stable_order(keys, n)[j]]
                ==> stable_order(keys, n)[i] < stable_order(keys, n)[j],
    decreases n,
{
    lemma_stable_order(keys, n);
    if n > 0 {
        law_stable_order_sorts(keys, n - 1);
        let o = stable_order(keys, n - 1);
        let k = keys[n - 1];
        lemma_insert_pos(o, keys, k, 0);
        lemma_insert_pos_bounds(o, keys, k, 0);
        let p = insert_pos(o, keys, k, 0);
        let s = stable_order(keys, n);
        assert(s == o.insert(p, n - 1));
        assert forall|q: int| 0 <= q < n implies #[trigger] s[q] == if q < p {
            o[q]
        } else if q == p {
            n - 1
        } else {
            o[q - 1]
        } by {}
        // Keys after the insertion point sort after `k` (so none equals it).
        assert forall|q: int| p <= q < n - 1 implies !lex_lt(#[trigger] keys[o[q]], k) && keys[o[q]] != k by {
            if q > p {
                if lex_lt(keys[o[q]], k) {
                    lemma_lex_lt_transitive(keys[o[q]], k, keys[o[p]]);
                }
            } else {
                lemma_lex_lt_irreflexive(k);
                if lex_lt(keys[o[q]], k) {
                    lemma_lex_lt_transitive(k, keys[o[q]], k);
                }
            }
            if keys[o[q]] == k {
                if q > p {
                    assert(!lex_lt(keys[o[q]], keys[o[p]]));
                }
                lemma_lex_lt_irreflexive(k);
            }
        }
        assert forall|i: int, j: int| 0 <= i < j < n implies #[trigger] s[i] != #[trigger] s[j] by {}
        assert forall|i: int, j: int| 0 <= i < j < n implies !lex_lt(keys[#[trigger] s[j]], keys[#[trigger] s[i]]) by {
            if i < p && j < p {
                assert(s[i] == o[i] && s[j] == o[j]);
            } else if i < p && j == p {
                assert(s[i] == o[i]);
            } else if i < p {
                assert(s[i] == o[i] && s[j] == o[j - 1]);
            } else if i == p {
                assert(s[j] == o[j - 1]);
            } else {
                assert(s[i] == o[i - 1] && s[j] == o[j - 1]);
            }
        }
        assert forall|i: int, j: int|
            0 <= i < j < n && keys[#[trigger] s[i]] == keys[#[trigger] s[j]] implies s[i] < s[j] by {
            if i < p && j < p {
                assert(s[i] == o[i] && s[j] == o[j]);
            } else if i < p && j == p {
                assert(s[i] == o[i]);
            } else if i < p {
                assert(s[i] == o[i] && s[j] == o[j - 1]);
            } else if i == p {
                assert(s[j] == o[j - 1]);
            } else {
                assert(s[i] == o[i - 1] && s[j] == o[j - 1]);
            }
        }
    }
}

/// `lex_lt` orders any two different texts.
pub proof fn lemma_lex_lt_total(a: Seq<char>, b: Seq<char>)
    ensures
        a == b || lex_lt(a, b) || lex_lt(b, a),
    decreases a.len(),
{
    if a.len() > 0 && b.len() > 0 && a[0] == b[0] {
        lemma_lex_lt_total(a.drop_first(), b.drop_first());
        if a.drop_first() == b.drop_first() {
            assert(a =~= seq![a[0]] + a.drop_first());
            assert(b =~= seq![b[0]] + b.drop_first());
        }
    } else if a.len() == 0 && b.len() == 0 {
        assert(a =~= b);
    }
}

// --- stable sorting by any strict order -------------------------------------------

/// Whether `lt` is a strict order: irreflexive and transitive.
pub open spec fn strict_order<K>(lt: spec_fn(K, K) -> bool) -> bool {
    &&& forall|a: K| !#[trigger] lt(a, a)
    &&& forall|a: K, b: K, c: K| #[trigger] lt(a, b) && #[trigger] lt(b, c) ==> lt(a, c)
}

/// The first position `p >= from` in `order` whose key `lt`-follows `k`, or
/// `order.len()`.
pub open spec fn insert_pos_by<K>(order: Seq<int>, keys: Seq<K>, lt: spec_fn(K, K) -> bool, k: K, from: int) -> int
    decreases order.len() - from,
{
    if from >= order.len() {
        order.len() as int
    } else if lt(k, keys[order[from]]) {
        from
    } else {
        insert_pos_by(order, keys, lt, k, from + 1)
    }
}

/// The stable sorting order of the first `n` keys by `lt` (insertion sort).
pub open spec fn stable_order_by<K>(keys: Seq<K>, lt: spec_fn(K, K) -> bool, n: int) -> Seq<int>
    decreases n,
{
    if n <= 0 {
        seq![]
    } else {
        let o = stable_order_by(keys, lt, n - 1);
        o.insert(insert_pos_by(o, keys, lt, keys[n - 1], 0), n - 1)
    }
}

proof fn lemma_insert_pos_by<K>(order: Seq<int>, keys: Seq<K>, lt: spec_fn(K, K) -> bool, k: K, from: int)
    requires
        0 <= from <= order.len(),
    ensures
        from <= insert_pos_by(order, keys, lt, k, from) <= order.len(),
        forall|q: int| from <= q < insert_pos_by(order, keys, lt, k, from) ==> !lt(k, #[trigger] keys[order[q]]),
        insert_pos_by(order, keys, lt, k, from) < order.len() ==> lt(k, keys[order[insert_pos_by(order, keys, lt, k, from)]]),
    decreases order.len() - from,
{
    if from < order.len() && !lt(k, keys[order[from]]) {
        lemma_insert_pos_by(order, keys, lt, k, from + 1);
    }
}

/// Stable sorting by a strict order lists every position below `n` exactly
/// once, no key before a key it `lt`-follows, and keys that are the same in
/// their original order.
pub proof fn law_stable_order_by_sorts<K>(keys: Seq<K>, lt: spec_fn(K, K) -> bool, n: int)
    requires
        strict_order(lt),
        0 <= n <= keys.len(),
    ensures
        stable_order_by(keys, lt, n).len() == n,
        forall|k: int| 0 <= k < n ==> 0 <= #[trigger] stable_order_by(keys, lt, n)[k] < n,
        forall|i: int, j: int|
            0 <= i < j < n ==> #[trigger] stable_order_by(keys, lt, n)[i] != #[trigger] stable_order_by(keys, lt, n)[j],
        forall|i: int, j: int|
            0 <= i < j < n ==> !lt(keys[#[trigger] stable_order_by(keys, lt, n)[j]], keys[#[trigger] stable_order_by(keys, lt, n)[i]]),
        forall|i: int, j: int|
            0 <= i < j < n && keys[#[trigger] stable_order_by(keys, lt, n)[i]] == keys[#[trigger] stable_order_by(keys, lt, n)[j]]
                ==> stable_order_by(keys, lt, n)[i] < stable_order_by(keys, lt, n)[j],
    decreases n,
{
    if n > 0 {
        law_stable_order_by_sorts(keys, lt, n - 1);
        let o = stable_order_by(keys, lt, n - 1);
        let k = keys[n - 1];
        lemma_insert_pos_by(o, keys, lt, k, 0);
        let p = insert_pos_by(o, keys, lt, k, 0);
        let s = stable_order_by(keys, lt, n);
        assert(s == o.insert(p, n - 1));
        assert forall|q: int| 0 <= q < n implies #[trigger] s[q] == if q < p {
            o[q]
        } else if q == p {
            n - 1
        } else {
            o[q - 1]
        } by {}
        assert(!lt(k, k));
        assert forall|q: int| p <= q < n - 1 implies !lt(#[trigger] keys[o[q]], k) && keys[o[q]] != k by {
            assert(lt(k, keys[o[p]]));
            if q > p {
                assert(!lt(keys[o[q]], keys[o[p]]));
                if lt(keys[o[q]], k) {
                    assert(lt(keys[o[q]], keys[o[p]]));
                }
            } else if lt(keys[o[q]], k) {
                assert(lt(k, k));
            }
        }
        assert forall|i: int, j: int| 0 <= i < j < n implies #[trigger] s[i] != #[trigger] s[j] by {}
        assert forall|i: int, j: int| 0 <= i < j < n implies !lt(keys[#[trigger] s[j]], keys[#[trigger] s[i]]) by {
            if i < p && j < p {
                assert(s[i] == o[i] && s[j] == o[j]);
            } else if i < p && j == p {
                assert(s[i] == o[i]);
            } else if i < p {
                assert(s[i] == o[i] && s[j] == o[j - 1]);
            } else if i == p {
                assert(s[j] == o[j - 1]);
            } else {
                assert(s[i] == o[i - 1] && s[j] == o[j - 1]);
            }
        }
        assert forall|i: int, j: int| 0 <= i < j < n && keys[#[trigger] s[i]] == keys[#[trigger] s[j]] implies s[i] < s[j] by {
            if i < p && j < p {
                assert(s[i] == o[i] && s[j] == o[j]);
            } else if i < p && j == p {
                assert(s[i] == o[i]);
            } else if i < p {
                assert(s[i] == o[i] && s[j] == o[j - 1]);
            } else if i == p {
                assert(s[j] == o[j - 1]);
            } else {
                assert(s[i] == o[i - 1] && s[j] == o[j - 1]);
            }
        }
    }
}

/// The stable sorting order of `keys`: positions listed so that their keys
/// are in ascending order, ties kept in their original order.
pub fn sorted_order(keys: &Vec<Vec<char>>) -> (r: Vec<usize>)
    ensures
        r@.map_values(|i: usize| i as int) == stable_order(char_views(keys@), keys.len() as int),
        forall|k: int| 0 <= k < r.len() ==> #[trigger] r@[k] < keys.len(),
        r.len() == keys.len(),
{
    let ghost ks = char_views(keys@);
    let mut r: Vec<usize> = Vec::new();
    let mut n: usize = 0;
    while n < keys.len()
        invariant
            n <= keys.len(),
            ks == char_views(keys@),
            r@.map_values(|i: usize| i as int) == stable_order(ks, n as int),
            r.len() == n,
            forall|k: int| 0 <= k < r.len() ==> #[trigger] r@[k] < n,
        decreases keys.len() - n,
    {
        let ghost o = stable_order(ks, n as int);
        let mut p: usize = 0;
        while p < r.len() && !chars_lt(&keys[n], &keys[r[p]])
            invariant
                p <= r.len() == n,
                n < keys.len(),
                ks == char_views(keys@),
                r@.map_values(|i: usize| i as int) == o,
                forall|k: int| 0 <= k < r.len() ==> #[trigger] r@[k] < n,
                insert_pos(o, ks, ks[n as int], 0) == insert_pos(o, ks, ks[n as int], p as int),
            decreases r.len() - p,
        {
            proof {
                assert(o[p as int] == r@[p as int] as int);
            }
            p = p + 1;
        }
        proof {
            if p < r.len() {
                assert(o[p as int] == r@[p as int] as int);
            }
        }
        let ghost before = r@;
        r.insert(p, n);
        proof {
            assert(r@.map_values(|i: usize| i as int) =~= o.insert(p as int, n as int));
            assert forall|k: int| 0 <= k < r.len() implies #[trigger] r@[k] < n + 1 by {
                if k < p {
                    assert(r@[k] == before[k]);
                } else if k > p {
                    assert(r@[k] == before[k - 1]);
                }
            }
        }
        n = n + 1;
    }
    r
}

/// The views of a sequence of strings.
pub open spec fn string_views(v: Seq<String>) -> Seq<Seq<char>> {
    v.map_values(|s: String| s@)
}

/// The strings of `parts` joined by `sep`.
pub fn join_strings(parts: &Vec<String>, sep: &str) -> (r: String)
    ensures
        r@ == join(string_views(parts@), sep@),
{
    let mut out = String::new();
    let mut i: usize = 0;
    while i < parts.len()
        invariant
            i <= parts.len(),
            out@ == join(string_views(parts@).take(i as int), sep@),
        decreases parts.len() - i,
    {
        proof {
            let t = string_views(parts@).take(i + 1);
            assert(t.drop_last() =~= string_views(parts@).take(i as int));
            assert(t.last() == parts@[i as int]@);
        }
        if i > 0 {
            push_str(&mut out, sep);
        } else {
            proof {
                assert(string_views(parts@).take(1) =~= seq![parts@[0]@]);
            }
        }
        push_str(&mut out, parts[i].as_str());
        i = i + 1;
    }
    proof {
        assert(string_views(parts@).take(parts@.len() as int) =~= string_views(parts@));
    }
    out
}

/// `s` padded with spaces on the right to at least `w` characters (the
/// `{:<w}` format).
pub open spec fn pad_right(s: Seq<char>, w: nat) -> Seq<char> {
    if s.len() >= w {
        s
    } else {
        s + Seq::new((w - s.len()) as nat, |i: int| ' ')
    }
}

/// Append `s` left-aligned in a field of `w` characters.
pub fn push_padded_right(out: &mut String, s: &str, w: usize)
    ensures
        final(out)@ == old(out)@ + pad_right(s@, w as nat),
{
    let n = chars_of(s).len();
    push_str(out, s);
    if n < w {
        let ghost base = out@;
        let mut k: usize = 0;
        while k < w - n
            invariant
                n < w,
                k <= w - n,
                out@ =~= base + Seq::new(k as nat, |i: int| ' '),
            decreases w - n - k,
        {
            push_char(out, ' ');
            k = k + 1;
        }
        proof {
            assert(out@ =~= old(out)@ + pad_right(s@, w as nat));
        }
    }
}
} // verus!
