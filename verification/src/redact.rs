//! Removing the API key from text that may echo a request URL back: a
//! `Bugzilla_api_key=` parameter keeps its name and loses its value.

use vstd::prelude::*;

use crate::text::chars_of;

verus! {

/// The query parameter that carries the API key, with its `=`.
pub open spec fn key_marker() -> Seq<char> {
    seq!['B', 'u', 'g', 'z', 'i', 'l', 'l', 'a', '_', 'a', 'p', 'i', '_', 'k', 'e', 'y', '=']
}

/// What stands in place of a removed key.
pub open spec fn redacted_text() -> Seq<char> {
    seq!['[', 'R', 'E', 'D', 'A', 'C', 'T', 'E', 'D', ']']
}

/// The characters a key value in a query string runs over: ASCII letters and
/// digits, the unreserved marks `-_.~`, and `%` of percent-encoding.
pub open spec fn is_key_char(c: char) -> bool {
    ('0' <= c && c <= '9') || ('a' <= c && c <= 'z') || ('A' <= c && c <= 'Z') || c == '-' || c == '_'
        || c == '.' || c == '~' || c == '%'
}

/// Whether the key parameter's name stands in `s` at `i`.
pub open spec fn marker_at(s: Seq<char>, i: int) -> bool {
    0 <= i && i + 17 <= s.len() && s.subrange(i, i + 17) == key_marker()
}

/// Where the key value that starts at `p` ends.
pub open spec fn key_end(s: Seq<char>, p: int) -> int
    decreases s.len() - p,
{
    if 0 <= p < s.len() && is_key_char(s[p]) {
        key_end(s, p + 1)
    } else {
        p
    }
}

pub proof fn lemma_key_end(s: Seq<char>, p: int)
    requires
        0 <= p <= s.len(),
    ensures
        p <= key_end(s, p) <= s.len(),
    decreases s.len() - p,
{
    if p < s.len() && is_key_char(s[p]) {
        lemma_key_end(s, p + 1);
    }
}

/// `s` from `i` on with every key value after the key parameter's name
/// replaced by `[REDACTED]`.
pub open spec fn redact_from(s: Seq<char>, i: int) -> Seq<char>
    decreases s.len() - i,
{
    if i < 0 || i >= s.len() {
        Seq::empty()
    } else if marker_at(s, i) {
        proof {
            lemma_key_end(s, i + 17);
        }
        key_marker() + redacted_text() + redact_from(s, key_end(s, i + 17))
    } else {
        seq![s[i]] + redact_from(s, i + 1)
    }
}

/// `s` with every API key given as a `Bugzilla_api_key=` parameter removed.
pub open spec fn redact(s: Seq<char>) -> Seq<char> {
    redact_from(s, 0)
}

/// Where a cut at `e` of `s` goes so that it splits no key parameter
/// (looking from `i` on): back to the start of the parameter it would
/// split, else `e` itself.
pub open spec fn key_cut_from(s: Seq<char>, i: int, e: int) -> int
    decreases s.len() - i,
{
    if i < 0 || i >= e || i >= s.len() {
        e
    } else if marker_at(s, i) {
        proof {
            lemma_key_end(s, i + 17);
        }
        if e < key_end(s, i + 17) {
            i
        } else {
            key_cut_from(s, key_end(s, i + 17), e)
        }
    } else {
        key_cut_from(s, i + 1, e)
    }
}

/// Where a cut at `e` of `s` goes so that it splits no key parameter.
pub open spec fn key_cut(s: Seq<char>, e: int) -> int {
    key_cut_from(s, 0, e)
}

/// A key cut never moves forward.
pub proof fn lemma_key_cut_from(s: Seq<char>, i: int, e: int)
    requires
        0 <= i,
        0 <= e,
    ensures
        0 <= key_cut_from(s, i, e) <= e,
    decreases s.len() - i,
{
    if !(i >= e || i >= s.len()) {
        if marker_at(s, i) {
            lemma_key_end(s, i + 17);
            if e >= key_end(s, i + 17) {
                lemma_key_cut_from(s, key_end(s, i + 17), e);
            }
        } else {
            lemma_key_cut_from(s, i + 1, e);
        }
    }
}

/// Whether the key parameter's name stands in `c` at `i`.
fn marker_at_exec(c: &Vec<char>, i: usize) -> (r: bool)
    ensures
        r == marker_at(c@, i as int),
{
    let marker: Vec<char> = vec!['B', 'u', 'g', 'z', 'i', 'l', 'l', 'a', '_', 'a', 'p', 'i', '_', 'k', 'e', 'y', '='];
    assert(marker@ =~= key_marker());
    if i > c.len() || c.len() - i < 17 {
        return false;
    }
    let mut j: usize = 0;
    let n = c.len();
    while j < 17
        invariant
            j <= 17,
            n == c@.len(),
            i + 17 <= c@.len(),
            marker@ == key_marker(),
            forall|k: int| 0 <= k < j ==> c@[i + k] == marker@[k],
        decreases 17 - j,
    {
        if c[i + j] != marker[j] {
            assert(c@.subrange(i as int, i + 17)[j as int] != key_marker()[j as int]);
            return false;
        }
        j = j + 1;
    }
    assert(c@.subrange(i as int, i + 17) =~= key_marker());
    true
}

/// Where the key value that starts at `p` ends.
fn key_end_exec(c: &Vec<char>, p: usize) -> (r: usize)
    requires
        p <= c@.len(),
    ensures
        r == key_end(c@, p as int),
        p <= r <= c@.len(),
{
    let mut q = p;
    while q < c.len()
        invariant
            p <= q <= c@.len(),
            key_end(c@, p as int) == key_end(c@, q as int),
        decreases c@.len() - q,
    {
        let ch = c[q];
        let key = ('0' <= ch && ch <= '9') || ('a' <= ch && ch <= 'z') || ('A' <= ch && ch <= 'Z') || ch == '-'
            || ch == '_' || ch == '.' || ch == '~' || ch == '%';
        if !key {
            return q;
        }
        q = q + 1;
    }
    q
}

/// The text with the value of every `Bugzilla_api_key=` parameter replaced
/// by `[REDACTED]`.
pub fn redact_api_key(text: &str) -> (r: String)
    ensures
        r@ == redact(text@),
{
    let c = chars_of(text);
    let mut out = String::new();
    let mut i: usize = 0;
    proof {
        assert(out@ + redact_from(c@, 0) =~= redact_from(c@, 0));
    }
    while i < c.len()
        invariant
            i <= c@.len(),
            c@ == text@,
            redact(text@) == out@ + redact_from(c@, i as int),
        decreases c@.len() - i,
    {
        if marker_at_exec(&c, i) {
            let end = key_end_exec(&c, i + 17);
            let ghost before = out@;
            out.append("Bugzilla_api_key=[REDACTED]");
            proof {
                reveal_strlit("Bugzilla_api_key=[REDACTED]");
                assert("Bugzilla_api_key=[REDACTED]"@ =~= key_marker() + redacted_text());
                assert(before + (key_marker() + redacted_text() + redact_from(c@, end as int)) =~= out@
                    + redact_from(c@, end as int));
            }
            i = end;
        } else {
            let ghost before = out@;
            let piece = text.substring_char(i, i + 1);
            out.append(piece);
            proof {
                assert(piece@ =~= seq![c@[i as int]]);
                assert(before + (seq![c@[i as int]] + redact_from(c@, i + 1)) =~= out@ + redact_from(
                    c@,
                    i + 1,
                ));
            }
            i = i + 1;
        }
    }
    assert(out@ + redact_from(c@, i as int) =~= out@);
    out
}

/// The cut at `e` moved back so that it splits no key parameter.
pub fn safe_key_cut(c: &Vec<char>, e: usize) -> (r: usize)
    requires
        e <= c@.len(),
    ensures
        r == key_cut(c@, e as int),
        r <= e,
{
    proof {
        lemma_key_cut_from(c@, 0, e as int);
    }
    let mut i: usize = 0;
    let n = c.len();
    while i < e
        invariant
            n == c@.len(),
            i <= c@.len(),
            e <= c@.len(),
            key_cut(c@, e as int) == key_cut_from(c@, i as int, e as int),
        decreases c@.len() - i,
    {
        if marker_at_exec(c, i) {
            let end = key_end_exec(c, i + 17);
            if e < end {
                return i;
            }
            i = end;
        } else {
            i = i + 1;
        }
    }
    e
}

} // verus!
