//! Addressing of the three platform target APIs and the mapping of HTTP
//! failures to typed errors. Sending the requests is the caller's part.

use vstd::prelude::*;
use super::{trim_start_char, trim_start_matches};
use crate::auth::oidc::trim_end_char;
use crate::error::Error;
use crate::text::{chars_of, is_whitespace, is_ws, owned, push_char, push_str, string_of, string_of_range, trim, trim_str};

verus! {

/// The three platform target APIs, each with a distinct path and auth header.
#[derive(Debug, Clone, Copy, PartialEq, Eq, Structural)]
pub enum TargetApi {
    /// `{base}/user/<suffix>`, authorized with `X-Tenzir-UserKey`.
    User,
    /// `{base}/user/<suffix>`, no auth header (`id_token` travels in the body).
    UserPublic,
    /// `{base}/admin/<suffix>`, authorized with `X-Tenzir-AdminKey`.
    Admin,
}

/// The path segment of a target API.
pub open spec fn segment_of(t: TargetApi) -> Seq<char> {
    match t {
        TargetApi::User | TargetApi::UserPublic => "user"@,
        TargetApi::Admin => "admin"@,
    }
}

impl TargetApi {
    /// The path segment under the base URL for this API.
    pub fn segment(self) -> (r: &'static str)
        ensures
            r@ == segment_of(self),
    {
        match self {
            TargetApi::User | TargetApi::UserPublic => "user",
            TargetApi::Admin => "admin",
        }
    }
}

/// A base URL without its trailing slashes.
pub fn base_url(base: &str) -> (r: String)
    ensures
        r@ == trim_end_char(base@, '/'),
{
    let v = chars_of(base);
    let mut n = v.len();
    proof {
        assert(v@.take(n as int) =~= v@);
    }
    while n > 0 && v[n - 1] == '/'
        invariant
            n <= v.len(),
            v@ == base@,
            trim_end_char(v@.take(n as int), '/') == trim_end_char(base@, '/'),
        decreases n,
    {
        proof {
            assert(v@.take(n as int).drop_last() =~= v@.take(n - 1));
        }
        n = n - 1;
    }
    proof {
        assert(v@.subrange(0, n as int) =~= v@.take(n as int));
    }
    string_of_range(&v, 0, n)
}

/// The full URL of an endpoint of a target API.
pub open spec fn url_of(base: Seq<char>, target: TargetApi, suffix: Seq<char>) -> Seq<char> {
    base + "/"@ + segment_of(target) + "/"@ + trim_start_char(suffix, '/')
}

/// Build the full URL for a target API and suffix under `base` (a base URL
/// as given by [`base_url`]).
pub fn url(base: &str, target: TargetApi, suffix: &str) -> (r: String)
    ensures
        r@ == url_of(base@, target, suffix@),
{
    let mut s = owned(base);
    push_str(&mut s, "/");
    push_str(&mut s, target.segment());
    push_str(&mut s, "/");
    let t = trim_start_matches(suffix, '/');
    push_str(&mut s, t.as_str());
    s
}

// --- error bodies ------------------------------------------------------------

/// The string value of the top-level field `key` of `body` read as a JSON
/// object, if `body` is JSON with such a string field.
pub uninterp spec fn json_string_field(body: Seq<char>, key: Seq<char>) -> Option<Seq<char>>;

/// `serde_json::from_str::<Value>(body)` and `.get(key)` / `.as_str()` on the
/// result.
///
/// Trusted: the outcome equals `json_string_field(body@, key@)`, a name for
/// what `serde_json` reads out of this text.
#[verifier::external_body]
fn json_field(body: &str, key: &str) -> (r: Option<String>)
    ensures
        match r {
            Some(s) => json_string_field(body@, key@) == Some(s@),
            None => json_string_field(body@, key@) is None,
        },
{
    serde_json::from_str::<serde_json::Value>(body).ok().and_then(|v| v.get(key).and_then(|f| f.as_str()).map(|s| s.to_string()))
}

/// The first of the `message`, `error` and `detail` string fields of a JSON
/// error body.
pub open spec fn json_detail(body: Seq<char>) -> Option<Seq<char>> {
    match json_string_field(body, "message"@) {
        Some(s) => Some(s),
        None => match json_string_field(body, "error"@) {
            Some(s) => Some(s),
            None => json_string_field(body, "detail"@),
        },
    }
}

/// The first `message`/`error`/`detail` string field of a JSON body.
fn json_detail_of(body: &str) -> (r: Option<String>)
    ensures
        match r {
            Some(s) => json_detail(body@) == Some(s@),
            None => json_detail(body@) is None,
        },
{
    match json_field(body, "message") {
        Some(s) => Some(s),
        None => match json_field(body, "error") {
            Some(s) => Some(s),
            None => json_field(body, "detail"),
        },
    }
}

/// `s` with its whitespace runs collapsed to single spaces and no leading or
/// trailing whitespace (`split_whitespace` joined by `" "`).
pub open spec fn collapse_ws(s: Seq<char>) -> Seq<char>
    decreases s.len(),
{
    if s.len() == 0 {
        seq![]
    } else {
        let rest = collapse_ws(s.drop_last());
        if is_ws(s.last()) {
            rest
        } else if s.len() >= 2 && is_ws(s[s.len() - 2]) && rest.len() > 0 {
            rest + seq![' ', s.last()]
        } else {
            rest.push(s.last())
        }
    }
}

/// The number of bytes UTF-8 uses for `c`.
pub open spec fn utf8_width(c: char) -> nat {
    let u = c as u32;
    if u < 0x80 {
        1
    } else if u < 0x800 {
        2
    } else if u < 0x10000 {
        3
    } else {
        4
    }
}

/// The number of bytes UTF-8 uses for `s`.
pub open spec fn byte_len(s: Seq<char>) -> nat
    decreases s.len(),
{
    if s.len() == 0 {
        0
    } else {
        byte_len(s.drop_last()) + utf8_width(s.last())
    }
}

/// Longer prefixes take more bytes.
proof fn lemma_byte_len_prefix(s: Seq<char>, i: int, j: int)
    requires
        0 <= i <= j <= s.len(),
    ensures
        byte_len(s.take(i)) + (j - i) <= byte_len(s.take(j)),
    decreases j - i,
{
    if i < j {
        lemma_byte_len_prefix(s, i, j - 1);
        assert(s.take(j).drop_last() =~= s.take(j - 1));
    }
}

/// How many bytes of an error body a summary keeps.
pub const SUMMARY_BYTES: usize = 200;

/// Whether `s` has a prefix of exactly `n` bytes (cutting it there does not
/// split a character).
pub open spec fn has_byte_prefix(s: Seq<char>, n: nat) -> bool {
    exists|k: int| 0 <= k <= s.len() && #[trigger] byte_len(s.take(k)) == n
}

/// The prefix of `s` of exactly `n` bytes.
pub open spec fn byte_prefix(s: Seq<char>, n: nat) -> Seq<char> {
    s.take(choose|k: int| 0 <= k <= s.len() && #[trigger] byte_len(s.take(k)) == n)
}

/// The one-line summary of an error body: nothing for a blank body; else
/// `": "` and the JSON `message`/`error`/`detail` field when there is one;
/// else `": "` and the body on one line, clipped to 200 bytes with `…`.
pub open spec fn body_summary(body: Seq<char>) -> Seq<char> {
    let t = trim(body);
    if t.len() == 0 {
        seq![]
    } else {
        match json_detail(t) {
            Some(d) => ": "@ + d,
            None => {
                let line = collapse_ws(t);
                if byte_len(line) > SUMMARY_BYTES {
                    ": "@ + byte_prefix(line, SUMMARY_BYTES as nat) + "\u{2026}"@
                } else {
                    ": "@ + line
                }
            },
        }
    }
}

/// Whether summarizing `body` stays within character boundaries: clipping a
/// long one-line body at 200 bytes must not split a character.
pub open spec fn summary_clips_cleanly(body: Seq<char>) -> bool {
    let t = trim(body);
    t.len() > 0 && json_detail(t) is None && byte_len(collapse_ws(t)) > SUMMARY_BYTES
        ==> has_byte_prefix(collapse_ws(t), SUMMARY_BYTES as nat)
}

/// The characters of `v` with whitespace runs collapsed.
fn collapse_chars(v: &Vec<char>) -> (r: Vec<char>)
    ensures
        r@ == collapse_ws(v@),
{
    let mut out: Vec<char> = Vec::new();
    let mut i: usize = 0;
    while i < v.len()
        invariant
            i <= v.len(),
            out@ == collapse_ws(v@.take(i as int)),
        decreases v.len() - i,
    {
        let ghost t = v@.take(i + 1);
        proof {
            assert(t.drop_last() =~= v@.take(i as int));
            assert(t.last() == v@[i as int]);
            if i >= 1 {
                assert(t[t.len() - 2] == v@[i - 1]);
            }
        }
        let c = v[i];
        if !is_whitespace(c) {
            if i >= 1 && is_whitespace(v[i - 1]) && out.len() > 0 {
                out.push(' ');
                out.push(c);
                proof {
                    assert(out@ =~= collapse_ws(v@.take(i as int)) + seq![' ', c]);
                }
            } else {
                out.push(c);
            }
        }
        i = i + 1;
    }
    proof {
        assert(v@.take(v@.len() as int) =~= v@);
    }
    out
}

/// The characters of `s` with whitespace runs collapsed.
pub fn collapse_chars_of(s: &str) -> (r: Vec<char>)
    ensures
        r@ == collapse_ws(s@),
{
    collapse_chars(&chars_of(s))
}

/// The UTF-8 width of a character.
fn char_width(c: char) -> (w: usize)
    ensures
        w == utf8_width(c),
{
    let u = c as u32;
    if u < 0x80 {
        1
    } else if u < 0x800 {
        2
    } else if u < 0x10000 {
        3
    } else {
        4
    }
}

/// The number of characters of `v` that make up its first `n` bytes.
fn byte_prefix_len(v: &Vec<char>, n: usize) -> (k: usize)
    requires
        has_byte_prefix(v@, n as nat),
    ensures
        k <= v.len(),
        byte_len(v@.take(k as int)) == n,
{
    let ghost target = choose|k: int| 0 <= k <= v@.len() && #[trigger] byte_len(v@.take(k)) == n;
    let mut k: usize = 0;
    let mut used: usize = 0;
    proof {
        assert(v@.take(0) =~= Seq::<char>::empty());
    }
    while used < n
        invariant
            k <= v.len(),
            0 <= target <= v@.len(),
            byte_len(v@.take(target)) == n,
            used == byte_len(v@.take(k as int)),
            used <= n,
            k <= target,
        decreases n - used,
    {
        proof {
            if k == target {
                assert(false);
            }
            lemma_byte_len_prefix(v@, k + 1, target);
            assert(v@.take(k + 1).drop_last() =~= v@.take(k as int));
        }
        used = used + char_width(v[k]);
        k = k + 1;
    }
    proof {
        if k < target {
            lemma_byte_len_prefix(v@, k + 1, target);
            assert(v@.take(k + 1).drop_last() =~= v@.take(k as int));
        }
    }
    k
}

/// The number of UTF-8 bytes of `v`, capped just above `cap`.
fn byte_len_exceeds(v: &Vec<char>, cap: usize) -> (r: bool)
    requires
        cap < usize::MAX - 4,
    ensures
        r == (byte_len(v@) > cap),
{
    let mut used: usize = 0;
    let mut i: usize = 0;
    while i < v.len()
        invariant
            i <= v.len(),
            cap < usize::MAX - 4,
            used == byte_len(v@.take(i as int)),
            used <= cap,
        decreases v.len() - i,
    {
        proof {
            assert(v@.take(i + 1).drop_last() =~= v@.take(i as int));
        }
        used = used + char_width(v[i]);
        i = i + 1;
        if used > cap {
            proof {
                lemma_byte_len_prefix(v@, i as int, v@.len() as int);
                assert(v@.take(v@.len() as int) =~= v@);
            }
            return true;
        }
    }
    proof {
        assert(v@.take(v@.len() as int) =~= v@);
    }
    false
}

/// Produce a compact `: <message>` suffix from a (possibly JSON) error body.
pub fn summarize_body(body: &str) -> (r: String)
    requires
        summary_clips_cleanly(body@),
    ensures
        r@ == body_summary(body@),
{
    let trimmed = trim_str(body);
    if trimmed.as_str().is_empty() {
        return String::new();
    }
    match json_detail_of(trimmed.as_str()) {
        Some(d) => {
            let mut s = owned(": ");
            push_str(&mut s, d.as_str());
            return s;
        },
        None => {},
    }
    let line = collapse_chars(&chars_of(trimmed.as_str()));
    let mut s = owned(": ");
    if byte_len_exceeds(&line, SUMMARY_BYTES) {
        let k = byte_prefix_len(&line, SUMMARY_BYTES);
        proof {
            let kk = choose|kk: int| 0 <= kk <= line@.len() && #[trigger] byte_len(line@.take(kk)) == SUMMARY_BYTES;
            if kk < k {
                lemma_byte_len_prefix(line@, kk + 1, k as int);
                assert(line@.take(kk + 1).drop_last() =~= line@.take(kk));
            } else if kk > k {
                lemma_byte_len_prefix(line@, k + 1, kk);
                assert(line@.take(k + 1).drop_last() =~= line@.take(k as int));
            }
            assert(line@.subrange(0, k as int) =~= byte_prefix(line@, SUMMARY_BYTES as nat));
        }
        let head = string_of_range(&line, 0, k);
        push_str(&mut s, head.as_str());
        push_str(&mut s, "\u{2026}");
    } else {
        let l = string_of(&line);
        push_str(&mut s, l.as_str());
    }
    s
}

/// Whether [`summarize_body`] can summarize `body` (its clipping would not
/// split a character). Computes the same JSON reading the summary uses.
pub fn can_summarize(body: &str) -> (r: bool)
    ensures
        r == summary_clips_cleanly(body@),
{
    let trimmed = trim_str(body);
    if trimmed.as_str().is_empty() {
        return true;
    }
    if json_detail_of(trimmed.as_str()).is_some() {
        return true;
    }
    let line = collapse_chars(&chars_of(trimmed.as_str()));
    if !byte_len_exceeds(&line, SUMMARY_BYTES) {
        return true;
    }
    let mut used: usize = 0;
    let mut k: usize = 0;
    while k < line.len() && used < SUMMARY_BYTES
        invariant
            k <= line.len(),
            used == byte_len(line@.take(k as int)),
            forall|j: int| 0 <= j < k ==> #[trigger] byte_len(line@.take(j)) < SUMMARY_BYTES,
            used <= SUMMARY_BYTES + 4,
        decreases line.len() - k,
    {
        proof {
            assert(line@.take(k + 1).drop_last() =~= line@.take(k as int));
        }
        used = used + char_width(line[k]);
        k = k + 1;
    }
    let exact = used == SUMMARY_BYTES;
    proof {
        if !exact {
            assert forall|j: int| 0 <= j <= line@.len() implies #[trigger] byte_len(line@.take(j)) != SUMMARY_BYTES by {
                if j < k {
                } else if j > k {
                    lemma_byte_len_prefix(line@, k as int, j);
                } else {
                }
                if j == k && k == line.len() {
                    assert(line@.take(k as int) =~= line@);
                }
            }
        }
    }
    exact
}

/// The message of a failed request.
pub open spec fn status_message(status_text: Seq<char>, suffix: Seq<char>, body: Seq<char>) -> Seq<char> {
    "platform returned HTTP "@ + status_text + " for "@ + suffix + body_summary(body)
}

/// The typed error for a non-success HTTP status: `410` means the node is
/// disconnected, `401`/`403` an authentication failure, anything else a
/// platform failure. `status_text` is the status as displayed (code and
/// reason, e.g. `401 Unauthorized`).
pub fn map_status_error(status: u16, status_text: &str, suffix: &str, body: &str) -> (r: Error)
    requires
        summary_clips_cleanly(body@),
    ensures
        status == 410 ==> r is NodeDisconnected,
        (status == 401 || status == 403) ==> (r matches Error::Auth(m) && m@ == status_message(status_text@, suffix@, body@)),
        status != 410 && status != 401 && status != 403 ==> (r matches Error::Platform(m) && m@ == status_message(
            status_text@,
            suffix@,
            body@,
        )),
{
    let detail = summarize_body(body);
    let mut m = owned("platform returned HTTP ");
    push_str(&mut m, status_text);
    push_str(&mut m, " for ");
    push_str(&mut m, suffix);
    push_str(&mut m, detail.as_str());
    if status == 410 {
        Error::NodeDisconnected
    } else if status == 401 || status == 403 {
        Error::Auth(m)
    } else {
        Error::Platform(m)
    }
}

/// [`map_status_error`] where the body's summary can be formed; `None` when
/// clipping the body would split a character.
pub fn status_error(status: u16, status_text: &str, suffix: &str, body: &str) -> (r: Option<Error>)
    ensures
        summary_clips_cleanly(body@) ==> (r matches Some(e) && (status == 410 ==> e is NodeDisconnected) && ((status == 401
            || status == 403) ==> (e matches Error::Auth(m) && m@ == status_message(status_text@, suffix@, body@))) && (status
            != 410 && status != 401 && status != 403 ==> (e matches Error::Platform(m) && m@ == status_message(
            status_text@,
            suffix@,
            body@,
        )))),
        !summary_clips_cleanly(body@) ==> r is None,
{
    if can_summarize(body) {
        Some(map_status_error(status, status_text, suffix, body))
    } else {
        None
    }
}

} // verus!
