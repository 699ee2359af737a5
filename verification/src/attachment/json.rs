//! The JSON side of attachment extraction: a scanner that checks the shape of
//! the document, rejects duplicate members, and streams the string value of
//! every `data` member through the base64 decoder.

use vstd::prelude::*;

use super::codec::{decode_json_string, json_string_spec};
use super::{copy_range, Decoder, Reader};
use crate::error::{invalid, BzrError};

verus! {

/// ASCII whitespace as `u8::is_ascii_whitespace` defines it.
pub open spec fn is_ws(b: u8) -> bool {
    b == 32u8 || b == 9u8 || b == 10u8 || b == 12u8 || b == 13u8
}

pub fn is_ascii_whitespace(b: u8) -> (r: bool)
    ensures
        r == is_ws(b),
{
    b == 32u8 || b == 9u8 || b == 10u8 || b == 12u8 || b == 13u8
}

/// The first position from `p` on that does not hold whitespace.
pub open spec fn ws_end(s: Seq<u8>, p: int) -> int
    decreases s.len() - p,
{
    if 0 <= p < s.len() && is_ws(s[p]) {
        ws_end(s, p + 1)
    } else {
        p
    }
}

/// The bytes that end a bare scalar: whitespace, `,`, `]` and `}`.
pub open spec fn ends_scalar(b: u8) -> bool {
    is_ws(b) || b == 44u8 || b == 93u8 || b == 125u8
}

/// The end of the bare scalar (number, literal) that starts at `p`.
pub open spec fn scalar_end(s: Seq<u8>, p: int) -> int
    decreases s.len() - p,
{
    if 0 <= p < s.len() && !ends_scalar(s[p]) {
        scalar_end(s, p + 1)
    } else {
        p
    }
}

/// Where the string whose text begins at `p` ends (past its closing quote):
/// a backslash escapes the byte after it.
pub open spec fn string_close(s: Seq<u8>, p: int) -> Option<int>
    decreases s.len() - p,
{
    if p < 0 || p >= s.len() {
        None
    } else if s[p] == 34u8 {
        Some(p + 1)
    } else if s[p] == 92u8 {
        if p + 1 >= s.len() {
            None
        } else {
            string_close(s, p + 2)
        }
    } else {
        string_close(s, p + 1)
    }
}

/// The string that starts with the quote at `p`: where it ends and what it
/// decodes to, when it is a valid JSON string.
pub open spec fn scan_string(s: Seq<u8>, p: int) -> Option<(int, Seq<u8>)> {
    if 0 <= p < s.len() && s[p] == 34u8 {
        match string_close(s, p + 1) {
            Some(e) => match json_string_spec(s.subrange(p, e)) {
                Some(v) => Some((e, v)),
                None => None,
            },
            None => None,
        }
    } else {
        None
    }
}

/// Where the string that starts with the quote at `p` ends, when it scans.
pub open spec fn string_end(s: Seq<u8>, p: int) -> int {
    match scan_string(s, p) {
        Some((e, _)) => e,
        None => p,
    }
}

/// The escape whose letter is at `x` inside payload text: where the text
/// goes on, when the escape is valid (`\u` takes four more bytes).
pub open spec fn escape_step(s: Seq<u8>, x: int) -> Option<int> {
    if x < 0 || x >= s.len() {
        None
    } else if s[x] == 117u8 {
        if x + 5 > s.len() {
            None
        } else if json_string_spec(seq![34u8, 92u8] + s.subrange(x, x + 5) + seq![34u8]) is None {
            None
        } else {
            Some(x + 5)
        }
    } else if json_string_spec(seq![34u8, 92u8, s[x], 34u8]) is None {
        None
    } else {
        Some(x + 1)
    }
}

/// Where payload text that begins at `p` ends (past its closing quote): no
/// raw control bytes, and only valid escapes.
pub open spec fn payload_close(s: Seq<u8>, p: int) -> Option<int>
    decreases s.len() - p,
{
    if p < 0 || p >= s.len() {
        None
    } else if s[p] == 34u8 {
        Some(p + 1)
    } else if s[p] == 92u8 {
        match escape_step(s, p + 1) {
            Some(n) => if n > p {
                payload_close(s, n)
            } else {
                None
            },
            None => None,
        }
    } else if s[p] < 32u8 {
        None
    } else {
        payload_close(s, p + 1)
    }
}

/// The escape whose letter is at `x`, written as a JSON string of its own.
pub open spec fn escape_token(s: Seq<u8>, x: int) -> Seq<u8> {
    if s[x] == 117u8 {
        seq![34u8, 92u8] + s.subrange(x, x + 5) + seq![34u8]
    } else {
        seq![34u8, 92u8, s[x], 34u8]
    }
}

/// The bytes the escape whose letter is at `x` stands for.
pub open spec fn escape_text(s: Seq<u8>, x: int) -> Seq<u8> {
    match json_string_spec(escape_token(s, x)) {
        Some(v) => v,
        None => Seq::empty(),
    }
}

/// The characters that payload text from `p` up to its closing quote stands
/// for, escapes resolved.
pub open spec fn payload_text(s: Seq<u8>, p: int) -> Seq<u8>
    decreases s.len() - p,
{
    if p < 0 || p >= s.len() || s[p] == 34u8 || s[p] < 32u8 {
        Seq::empty()
    } else if s[p] == 92u8 {
        match escape_step(s, p + 1) {
            Some(n) => if n > p {
                escape_text(s, p + 1) + payload_text(s, n)
            } else {
                Seq::empty()
            },
            None => Seq::empty(),
        }
    } else {
        seq![s[p]] + payload_text(s, p + 1)
    }
}

/// What the payload whose text begins at `p` decodes to: the decoder's state
/// at its end, and the bytes it emitted.
pub open spec fn payload_decoding(s: Seq<u8>, p: int) -> (Seq<u8>, bool, Option<Seq<char>>, Seq<u8>) {
    super::decode_run(Seq::empty(), false, None, payload_text(s, p))
}

/// The error a finished payload's span records: the decoder's error, or a
/// dangling quartet.
pub open spec fn payload_error(pending: Seq<u8>, error: Option<Seq<char>>) -> Option<Seq<char>> {
    if pending.len() != 0 && error is None {
        Some("incomplete base64 quartet"@)
    } else {
        error
    }
}

/// The span of a payload whose opening quote is at `start`: it lies within
/// `out`, holds the bytes the payload decodes to, and records its error.
pub open spec fn payload_span(s: Seq<u8>, out: Seq<u8>, span: super::Span, start: int) -> bool {
    let (p, pd, e, o) = payload_decoding(s, start + 1);
    &&& span.offset + span.length <= out.len()
    &&& out.subrange(span.offset as int, span.offset + span.length) == o
    &&& super::opt_text(span.error) == payload_error(p, e)
}

/// From output `out0` and spans `spans0` to `out` and `spans`: both only
/// grew, and the new spans are those of the payloads opening at `starts`, in
/// order.
pub open spec fn payloads_decoded(
    s: Seq<u8>,
    out0: Seq<u8>,
    spans0: Seq<super::Span>,
    out: Seq<u8>,
    spans: Seq<super::Span>,
    starts: Seq<int>,
) -> bool {
    &&& spans.len() == spans0.len() + starts.len()
    &&& spans.take(spans0.len() as int) == spans0
    &&& out0.len() <= out.len()
    &&& out.take(out0.len() as int) == out0
    &&& forall|k: int|
        0 <= k < starts.len() ==> #[trigger] payload_span(s, out, spans[spans0.len() + k], starts[k])
}

/// Nothing decoded is nothing changed.
pub proof fn lemma_payloads_none(s: Seq<u8>, out: Seq<u8>, spans: Seq<super::Span>)
    ensures
        payloads_decoded(s, out, spans, out, spans, Seq::empty()),
{
    assert(spans.take(spans.len() as int) =~= spans);
    assert(out.take(out.len() as int) =~= out);
}

/// Two runs of decoding, one after the other, are one run.
pub proof fn lemma_payloads_chain(
    s: Seq<u8>,
    out0: Seq<u8>,
    spans0: Seq<super::Span>,
    out1: Seq<u8>,
    spans1: Seq<super::Span>,
    out2: Seq<u8>,
    spans2: Seq<super::Span>,
    a: Seq<int>,
    b: Seq<int>,
)
    requires
        payloads_decoded(s, out0, spans0, out1, spans1, a),
        payloads_decoded(s, out1, spans1, out2, spans2, b),
    ensures
        payloads_decoded(s, out0, spans0, out2, spans2, a + b),
{
    let n0 = spans0.len() as int;
    let n1 = spans1.len() as int;
    assert(spans2.take(n0) =~= spans0) by {
        assert forall|i: int| 0 <= i < n0 implies spans2[i] == spans0[i] by {
            assert(spans2.take(n1)[i] == spans1[i]);
            assert(spans1.take(n0)[i] == spans0[i]);
        }
    }
    assert(out2.take(out0.len() as int) =~= out0) by {
        assert forall|i: int| 0 <= i < out0.len() implies out2[i] == out0[i] by {
            assert(out2.take(out1.len() as int)[i] == out1[i]);
            assert(out1.take(out0.len() as int)[i] == out0[i]);
        }
    }
    assert forall|k: int| 0 <= k < (a + b).len() implies #[trigger] payload_span(
        s,
        out2,
        spans2[n0 + k],
        (a + b)[k],
    ) by {
        if k < a.len() {
            assert(payload_span(s, out1, spans1[n0 + k], a[k]));
            assert(spans2.take(n1)[n0 + k] == spans1[n0 + k]);
            let sp = spans1[n0 + k];
            assert(out2.subrange(sp.offset as int, sp.offset + sp.length) =~= out1.subrange(
                sp.offset as int,
                sp.offset + sp.length,
            )) by {
                assert forall|i: int| sp.offset <= i < sp.offset + sp.length implies out2[i] == out1[i] by {
                    assert(out2.take(out1.len() as int)[i] == out1[i]);
                }
            }
        } else {
            let j = k - a.len();
            assert(payload_span(s, out2, spans2[n1 + j], b[j]));
            assert(n1 + j == n0 + k);
        }
    }
}

/// Whether the payloads opening at `starts` lie in order between `from` and
/// `to`, each closed before the next begins.
#[verifier::opaque]
pub open spec fn laid_out(s: Seq<u8>, from: int, to: int, starts: Seq<int>) -> bool
    decreases starts.len(),
{
    if starts.len() == 0 {
        0 <= from <= to <= s.len()
    } else {
        let d = starts[0];
        &&& 0 <= from <= d
        &&& payload_close(s, d + 1) matches Some(c) && d < c && laid_out(s, c, to, starts.drop_first())
    }
}

/// What the body retains of `s[from..to]` when the payloads opening at
/// `starts` are streamed: everything but their text, each replaced by the
/// marker of its span (numbered from `n`) between its quotes.
#[verifier::opaque]
pub open spec fn kept_from(s: Seq<u8>, from: int, to: int, starts: Seq<int>, n: nat) -> Seq<u8>
    decreases starts.len(),
{
    if starts.len() == 0 {
        s.subrange(from, to)
    } else {
        let d = starts[0];
        let c = match payload_close(s, d + 1) {
            Some(c) => c,
            None => d + 1,
        };
        s.subrange(from, d) + seq![34u8] + super::marker_for(n) + seq![34u8] + kept_from(
            s,
            c,
            to,
            starts.drop_first(),
            n + 1,
        )
    }
}

/// Plain bytes are retained as they stand.
pub proof fn lemma_kept_plain(s: Seq<u8>, a: int, b: int, n: nat)
    requires
        0 <= a <= b <= s.len(),
    ensures
        laid_out(s, a, b, Seq::empty()),
        kept_from(s, a, b, Seq::empty(), n) == s.subrange(a, b),
{
    reveal(laid_out);
    reveal(kept_from);
}

/// Retaining `s[a..b]` and then `s[b..c]` retains `s[a..c]`.
pub proof fn lemma_kept_chain(s: Seq<u8>, a: int, b: int, c: int, x: Seq<int>, y: Seq<int>, n: nat)
    requires
        laid_out(s, a, b, x),
        laid_out(s, b, c, y),
    ensures
        laid_out(s, a, c, x + y),
        kept_from(s, a, b, x, n) + kept_from(s, b, c, y, n + x.len()) == kept_from(s, a, c, x + y, n),
    decreases x.len(),
{
    reveal(laid_out);
    reveal(kept_from);
    if x.len() == 0 {
        assert(x + y =~= y);
        if y.len() == 0 {
            assert(s.subrange(a, b) + s.subrange(b, c) =~= s.subrange(a, c));
        } else {
            let d = y[0];
            assert(s.subrange(a, b) + s.subrange(b, d) =~= s.subrange(a, d));
            let m = super::marker_for(n);
            let k = match payload_close(s, d + 1) {
                Some(e) => e,
                None => d + 1,
            };
            let rest = kept_from(s, k, c, y.drop_first(), n + 1);
            assert(s.subrange(a, b) + (s.subrange(b, d) + seq![34u8] + m + seq![34u8] + rest) =~= s.subrange(
                a,
                d,
            ) + seq![34u8] + m + seq![34u8] + rest);
        }
    } else {
        let d = x[0];
        let k = payload_close(s, d + 1)->0;
        lemma_kept_chain(s, k, b, c, x.drop_first(), y, n + 1);
        assert((x + y).drop_first() =~= x.drop_first() + y);
        assert((x + y)[0] == d);
        let m = super::marker_for(n);
        let r1 = kept_from(s, k, b, x.drop_first(), n + 1);
        let r2 = kept_from(s, b, c, y, n + x.len());
        assert(n + 1 + x.drop_first().len() == n + x.len());
        assert(s.subrange(a, d) + seq![34u8] + m + seq![34u8] + r1 + r2 =~= s.subrange(a, d) + seq![34u8] + m
            + seq![34u8] + (r1 + r2));
    }
}

/// A body that grew from `body0` at `p0` to `body1` at `p1` and then to
/// `body2` at `p2` grew by what `s[p0..p2]` retains.
pub proof fn lemma_kept_step(
    s: Seq<u8>,
    n: nat,
    p0: int,
    p1: int,
    p2: int,
    x: Seq<int>,
    y: Seq<int>,
    body0: Seq<u8>,
    body1: Seq<u8>,
    body2: Seq<u8>,
)
    requires
        laid_out(s, p0, p1, x),
        body1 == body0 + kept_from(s, p0, p1, x, n),
        laid_out(s, p1, p2, y),
        body2 == body1 + kept_from(s, p1, p2, y, n + x.len()),
    ensures
        laid_out(s, p0, p2, x + y),
        body2 == body0 + kept_from(s, p0, p2, x + y, n),
{
    lemma_kept_chain(s, p0, p1, p2, x, y, n);
    assert(body0 + kept_from(s, p0, p1, x, n) + kept_from(s, p1, p2, y, n + x.len()) =~= body0 + (kept_from(
        s,
        p0,
        p1,
        x,
        n,
    ) + kept_from(s, p1, p2, y, n + x.len())));
}

/// Bytes retained over `s[a..b]` and then over `s[b..c]` are those of
/// `s[a..c]`.
pub proof fn lemma_body_grow(s: Seq<u8>, a: int, b: int, c: int, body0: Seq<u8>, body1: Seq<u8>, body2: Seq<u8>)
    requires
        0 <= a <= b <= c <= s.len(),
        body1 == body0 + s.subrange(a, b),
        body2 == body1 + s.subrange(b, c),
    ensures
        body2 == body0 + s.subrange(a, c),
{
    assert(body0 + s.subrange(a, b) + s.subrange(b, c) =~= body0 + s.subrange(a, c));
}

/// A body retained up to `p1` that then keeps the plain bytes `s[p1..p2]`
/// is retained up to `p2`.
pub proof fn lemma_kept_extend(
    s: Seq<u8>,
    n: nat,
    p0: int,
    p1: int,
    p2: int,
    x: Seq<int>,
    body0: Seq<u8>,
    body1: Seq<u8>,
    body2: Seq<u8>,
)
    requires
        laid_out(s, p0, p1, x),
        body1 == body0 + kept_from(s, p0, p1, x, n),
        0 <= p1 <= p2 <= s.len(),
        body2 == body1 + s.subrange(p1, p2),
    ensures
        laid_out(s, p0, p2, x),
        body2 == body0 + kept_from(s, p0, p2, x, n),
{
    lemma_kept_plain(s, p1, p2, n + x.len());
    lemma_kept_step(s, n, p0, p1, p2, x, Seq::empty(), body0, body1, body2);
    assert(x + Seq::<int>::empty() =~= x);
}

/// Plain bytes `s[p0..p1]` retained before what `s[p1..p2]` retains are
/// retained with it.
pub proof fn lemma_kept_after_plain(
    s: Seq<u8>,
    n: nat,
    p0: int,
    p1: int,
    p2: int,
    x: Seq<int>,
    body0: Seq<u8>,
    body1: Seq<u8>,
    body2: Seq<u8>,
)
    requires
        0 <= p0 <= p1,
        body1 == body0 + s.subrange(p0, p1),
        laid_out(s, p1, p2, x),
        body2 == body1 + kept_from(s, p1, p2, x, n),
    ensures
        laid_out(s, p0, p2, x),
        body2 == body0 + kept_from(s, p0, p2, x, n),
{
    reveal(laid_out);
    lemma_laid_out_bounds(s, p1, p2, x);
    lemma_kept_plain(s, p0, p1, n);
    lemma_kept_step(s, n, p0, p1, p2, Seq::empty(), x, body0, body1, body2);
    assert(Seq::<int>::empty() + x =~= x);
}

/// Laid-out payloads stay within the input.
pub proof fn lemma_laid_out_bounds(s: Seq<u8>, from: int, to: int, starts: Seq<int>)
    requires
        laid_out(s, from, to, starts),
    ensures
        0 <= from <= to <= s.len(),
    decreases starts.len(),
{
    reveal(laid_out);
    if starts.len() > 0 {
        let c = payload_close(s, starts[0] + 1)->0;
        lemma_laid_out_bounds(s, c, to, starts.drop_first());
    }
}

/// Where the payloads inside the JSON value at or after `p` open, in order
/// (their opening quotes).
pub open spec fn value_payloads(s: Seq<u8>, p: int, depth: int) -> Seq<int>
    decreases 128 - depth, s.len() - p, 2int,
{
    if depth >= 128 || p < 0 || p > s.len() {
        Seq::empty()
    } else {
        let q = ws_end(s, p);
        if q < p || q >= s.len() {
            Seq::empty()
        } else if s[q] == 123u8 {
            object_payloads(s, q, depth)
        } else if s[q] == 91u8 {
            array_payloads(s, q, depth)
        } else {
            Seq::empty()
        }
    }
}

/// Where the payloads inside the object whose `{` is at `q` open.
pub open spec fn object_payloads(s: Seq<u8>, q: int, depth: int) -> Seq<int>
    decreases 128 - depth, s.len() - q, 1int,
{
    if depth >= 128 || q < 0 || q >= s.len() {
        Seq::empty()
    } else {
        let r = ws_end(s, q + 1);
        if r <= q || r > s.len() || (r < s.len() && s[r] == 125u8) {
            Seq::empty()
        } else {
            members_payloads(s, r, depth, Seq::empty())
        }
    }
}

/// Where the payloads inside the members from `p` on open: a string-valued
/// `data` member is one, other values are searched.
pub open spec fn members_payloads(s: Seq<u8>, p: int, depth: int, keys: Seq<Seq<u8>>) -> Seq<int>
    decreases 128 - depth, s.len() - p, 0int,
{
    if depth >= 128 || p < 0 || p > s.len() {
        Seq::empty()
    } else {
        let a = ws_end(s, p);
        match scan_string(s, a) {
            None => Seq::empty(),
            Some((b, key)) => if keys.contains(key) {
                Seq::empty()
            } else {
                let c = ws_end(s, b);
                if c < 0 || c >= s.len() || s[c] != 58u8 {
                    Seq::empty()
                } else {
                    let d = ws_end(s, c + 1);
                    let is_payload = key == data_key() && 0 <= d < s.len() && s[d] == 34u8;
                    let here = if is_payload {
                        seq![d]
                    } else {
                        value_payloads(s, d, depth + 1)
                    };
                    let e = if is_payload {
                        payload_close(s, d + 1)
                    } else {
                        scan_value(s, d, depth + 1)
                    };
                    match e {
                        None => Seq::empty(),
                        Some(e) => {
                            let f = ws_end(s, e);
                            if f < 0 || f >= s.len() {
                                Seq::empty()
                            } else if s[f] == 125u8 {
                                here
                            } else if s[f] == 44u8 && p < f + 1 <= s.len() {
                                here + members_payloads(s, f + 1, depth, keys.push(key))
                            } else {
                                Seq::empty()
                            }
                        },
                    }
                }
            },
        }
    }
}

/// Where the payloads inside the array whose `[` is at `q` open.
pub open spec fn array_payloads(s: Seq<u8>, q: int, depth: int) -> Seq<int>
    decreases 128 - depth, s.len() - q, 1int,
{
    if depth >= 128 || q < 0 || q >= s.len() {
        Seq::empty()
    } else {
        let r = ws_end(s, q + 1);
        if r <= q || r > s.len() || (r < s.len() && s[r] == 93u8) {
            Seq::empty()
        } else {
            elements_payloads(s, r, depth)
        }
    }
}

/// Where the payloads inside the elements from `p` on open.
pub open spec fn elements_payloads(s: Seq<u8>, p: int, depth: int) -> Seq<int>
    decreases 128 - depth, s.len() - p, 0int,
{
    if depth >= 128 || p < 0 || p > s.len() {
        Seq::empty()
    } else {
        let here = value_payloads(s, p, depth + 1);
        match scan_value(s, p, depth + 1) {
            None => Seq::empty(),
            Some(e) => {
                let f = ws_end(s, e);
                if f < 0 || f >= s.len() {
                    Seq::empty()
                } else if s[f] == 93u8 {
                    here
                } else if s[f] == 44u8 && p < f + 1 <= s.len() {
                    here + elements_payloads(s, f + 1, depth)
                } else {
                    Seq::empty()
                }
            },
        }
    }
}

/// Where the payloads of a JSON attachment document open, in document order.
pub open spec fn document_payloads(s: Seq<u8>) -> Seq<int> {
    value_payloads(s, 0, 0)
}

/// The body retained of a whole JSON response: all of it, with the text of
/// each payload replaced by the marker of its span.
pub open spec fn document_body(s: Seq<u8>) -> Seq<u8> {
    kept_from(s, 0, s.len() as int, document_payloads(s), 0)
}

/// The body of a whole JSON document is what its value retains, then the
/// whitespace after it.
pub proof fn lemma_document_body(s: Seq<u8>)
    requires
        json_document(s),
    ensures
        laid_out(s, 0, scan_value(s, 0, 0)->0, document_payloads(s)),
        document_body(s).len() == kept_from(s, 0, scan_value(s, 0, 0)->0, document_payloads(s), 0).len() + (
        s.len() - scan_value(s, 0, 0)->0),
{
    let e = scan_value(s, 0, 0)->0;
    let x = document_payloads(s);
    lemma_value_laid(s, 0, 0);
    lemma_laid_out_bounds(s, 0, e, x);
    lemma_kept_plain(s, e, s.len() as int, x.len());
    lemma_kept_len(s, 0, e, s.len() as int, x, Seq::empty(), 0);
    assert(x + Seq::<int>::empty() =~= x);
}

/// Each payload laid out over `s[from..to]` leaves the marker of its span,
/// between quotes, in what that stretch retains.
pub proof fn lemma_kept_holds_markers(s: Seq<u8>, from: int, to: int, starts: Seq<int>, n: nat, k: int)
    requires
        laid_out(s, from, to, starts),
        0 <= k < starts.len(),
    ensures
        exists|i: int|
            0 <= i && i + super::marker_for(n + k as nat).len() + 2 <= kept_from(s, from, to, starts, n).len()
                && #[trigger] kept_from(s, from, to, starts, n).subrange(
                i,
                i + super::marker_for(n + k as nat).len() + 2,
            ) == seq![34u8] + super::marker_for(n + k as nat) + seq![34u8],
    decreases starts.len(),
{
    reveal(laid_out);
    reveal(kept_from);
    let d = starts[0];
    let c = payload_close(s, d + 1)->0;
    let rest = kept_from(s, c, to, starts.drop_first(), n + 1);
    let head = s.subrange(from, d) + seq![34u8] + super::marker_for(n) + seq![34u8];
    let all = kept_from(s, from, to, starts, n);
    assert(all == head + rest);
    if k == 0 {
        let i = d - from;
        let m = super::marker_for(n + k as nat);
        assert(n + k as nat == n);
        assert(m == super::marker_for(n));
        assert(i + m.len() + 2 <= all.len());
        assert(all.subrange(i, i + m.len() + 2) =~= seq![34u8] + m + seq![34u8]);
        assert(kept_from(s, from, to, starts, n).subrange(i, i + m.len() + 2) == seq![34u8] + m + seq![34u8]);
    } else {
        lemma_kept_holds_markers(s, c, to, starts.drop_first(), n + 1, k - 1);
        let m = super::marker_for(n + k as nat);
        assert((n + 1) + (k - 1) as nat == n + k as nat);
        let j = choose|j: int|
            0 <= j && j + m.len() + 2 <= rest.len() && #[trigger] rest.subrange(j, j + m.len() + 2) == seq![34u8]
                + m + seq![34u8];
        let i = head.len() + j;
        assert(all.subrange(i, i + m.len() + 2) =~= rest.subrange(j, j + m.len() + 2));
        assert(kept_from(s, from, to, starts, n).subrange(i, i + m.len() + 2) == seq![34u8] + m + seq![34u8]);
    }
}

/// What the extraction of a JSON response keeps for each payload: its
/// retained body holds, between quotes where the payload stood, the marker
/// of the payload's span; that marker selects the span; and the span holds
/// what the payload's text decodes to.
pub proof fn lemma_json_marker_selects(s: Seq<u8>, data: Seq<u8>, spans: Seq<super::Span>, k: int)
    requires
        json_document(s),
        document_spans(s, data, spans),
        super::markers_decode(spans.len()),
        0 <= k < spans.len(),
        k <= usize::MAX,
    ensures
        super::selected_index(Some(super::marker_for(k as nat))) == Some(k as nat),
        payload_span(s, data, spans[k], document_payloads(s)[k]),
        exists|i: int|
            0 <= i && i + super::marker_for(k as nat).len() + 2 <= document_body(s).len()
                && #[trigger] document_body(s).subrange(i, i + super::marker_for(k as nat).len() + 2)
                == seq![34u8] + super::marker_for(k as nat) + seq![34u8],
{
    let kn = k as nat;
    assert(super::base64_decode_spec(super::marker_for(kn)) == Some(super::marker_text(kn)));
    super::lemma_marker_names_its_span(kn);
    let e = scan_value(s, 0, 0)->0;
    let x = document_payloads(s);
    lemma_document_body(s);
    lemma_laid_out_bounds(s, 0, e, x);
    lemma_kept_plain(s, e, s.len() as int, 0);
    lemma_laid_chain(s, 0, e, s.len() as int, x, Seq::empty());
    assert(x + Seq::<int>::empty() =~= x);
    lemma_kept_holds_markers(s, 0, s.len() as int, x, 0, k);
    assert(0 + kn == kn);
}

/// The spans of a whole JSON document: one per payload, in document order,
/// each holding what its payload decodes to.
pub open spec fn document_spans(s: Seq<u8>, data: Seq<u8>, spans: Seq<super::Span>) -> bool {
    &&& spans.len() == document_payloads(s).len()
    &&& forall|k: int|
        0 <= k < spans.len() ==> #[trigger] payload_span(s, data, spans[k], document_payloads(s)[k])
}

/// A document read from its start decodes into its document spans.
pub proof fn lemma_document_spans(s: Seq<u8>, data: Seq<u8>, spans: Seq<super::Span>)
    requires
        payloads_decoded(s, Seq::empty(), Seq::empty(), data, spans, document_payloads(s)),
    ensures
        document_spans(s, data, spans),
{
    let starts = document_payloads(s);
    assert forall|k: int| 0 <= k < spans.len() implies #[trigger] payload_span(
        s,
        data,
        spans[k],
        starts[k],
    ) by {
        assert(payload_span(s, data, spans[0 + k], starts[k]));
    }
}

/// The key that streams its string value as a payload.
pub open spec fn data_key() -> Seq<u8> {
    seq![100u8, 97u8, 116u8, 97u8]
}

/// Where the JSON value at or after `p` (leading whitespace skipped) ends,
/// at nesting `depth`: objects with distinct member names, arrays, valid
/// strings, and bare scalars running to whitespace or a delimiter.
pub open spec fn scan_value(s: Seq<u8>, p: int, depth: int) -> Option<int>
    decreases 128 - depth, s.len() - p, 2int,
{
    if depth >= 128 || p < 0 || p > s.len() {
        None
    } else {
        let q = ws_end(s, p);
        if q < p || q >= s.len() {
            None
        } else if s[q] == 123u8 {
            scan_object(s, q, depth)
        } else if s[q] == 91u8 {
            scan_array(s, q, depth)
        } else if s[q] == 34u8 {
            match scan_string(s, q) {
                Some((e, _)) => Some(e),
                None => None,
            }
        } else {
            let e = scalar_end(s, q);
            if e == q {
                None
            } else {
                Some(e)
            }
        }
    }
}

/// Where the object whose `{` is at `q` ends.
pub open spec fn scan_object(s: Seq<u8>, q: int, depth: int) -> Option<int>
    decreases 128 - depth, s.len() - q, 1int,
{
    if depth >= 128 || q < 0 || q >= s.len() {
        None
    } else {
        let r = ws_end(s, q + 1);
        if r <= q || r > s.len() {
            None
        } else if r < s.len() && s[r] == 125u8 {
            Some(r + 1)
        } else {
            scan_members(s, r, depth, Seq::empty())
        }
    }
}

/// Where the members from `p` on end, given the names already seen.
pub open spec fn scan_members(s: Seq<u8>, p: int, depth: int, keys: Seq<Seq<u8>>) -> Option<int>
    decreases 128 - depth, s.len() - p, 0int,
{
    if depth >= 128 || p < 0 || p > s.len() {
        None
    } else {
        let a = ws_end(s, p);
        match scan_string(s, a) {
            None => None,
            Some((b, key)) => if keys.contains(key) {
                None
            } else {
                let c = ws_end(s, b);
                if c < 0 || c >= s.len() || s[c] != 58u8 {
                    None
                } else {
                    let d = ws_end(s, c + 1);
                    let e = if key == data_key() && 0 <= d < s.len() && s[d] == 34u8 {
                        payload_close(s, d + 1)
                    } else {
                        scan_value(s, d, depth + 1)
                    };
                    match e {
                        None => None,
                        Some(e) => {
                            let f = ws_end(s, e);
                            if f < 0 || f >= s.len() {
                                None
                            } else if s[f] == 125u8 {
                                Some(f + 1)
                            } else if s[f] == 44u8 && p < f + 1 <= s.len() {
                                scan_members(s, f + 1, depth, keys.push(key))
                            } else {
                                None
                            }
                        },
                    }
                }
            },
        }
    }
}

/// Whether the members from `p` on repeat a member name before they go
/// wrong in any other way.
pub open spec fn members_dup(s: Seq<u8>, p: int, depth: int, keys: Seq<Seq<u8>>) -> bool
    decreases s.len() - p,
{
    if depth >= 128 || p < 0 || p > s.len() {
        false
    } else {
        let a = ws_end(s, p);
        match scan_string(s, a) {
            None => false,
            Some((b, key)) => if keys.contains(key) {
                true
            } else {
                let c = ws_end(s, b);
                if c < 0 || c >= s.len() || s[c] != 58u8 {
                    false
                } else {
                    let d = ws_end(s, c + 1);
                    let e = if key == data_key() && 0 <= d < s.len() && s[d] == 34u8 {
                        payload_close(s, d + 1)
                    } else {
                        scan_value(s, d, depth + 1)
                    };
                    match e {
                        None => false,
                        Some(e) => {
                            let f = ws_end(s, e);
                            if f < 0 || f >= s.len() {
                                false
                            } else if s[f] == 44u8 && p < f + 1 <= s.len() {
                                members_dup(s, f + 1, depth, keys.push(key))
                            } else {
                                false
                            }
                        },
                    }
                }
            },
        }
    }
}

/// The names of members read so far, as values.
pub open spec fn key_views(keys: Seq<Vec<u8>>) -> Seq<Seq<u8>> {
    keys.map_values(|k: Vec<u8>| k@)
}

/// The name of the member at or after `p`.
pub open spec fn member_key(s: Seq<u8>, p: int) -> Seq<u8> {
    match scan_string(s, ws_end(s, p)) {
        Some((_, key)) => key,
        None => Seq::empty(),
    }
}

/// Whether the member at or after `p` repeats one of `keys`.
pub open spec fn member_dup_here(s: Seq<u8>, p: int, keys: Seq<Seq<u8>>) -> bool {
    scan_string(s, ws_end(s, p)) is Some && keys.contains(member_key(s, p))
}

/// Where the payloads inside the member at or after `p` open: its value
/// when it is a string-valued `data` member, else those inside its value.
pub open spec fn member_payloads(s: Seq<u8>, p: int, depth: int) -> Seq<int> {
    match scan_string(s, ws_end(s, p)) {
        None => Seq::empty(),
        Some((b, key)) => {
            let c = ws_end(s, b);
            let d = ws_end(s, c + 1);
            if key == data_key() && 0 <= d < s.len() && s[d] == 34u8 {
                seq![d]
            } else {
                value_payloads(s, d, depth + 1)
            }
        },
    }
}

/// A refusal that a repeated member name owes: the repeat itself, unless
/// the retained body ran out of room first.
pub open spec fn dup_error(e: BzrError) -> bool {
    e is ResponseTooLarge || (e matches BzrError::DataIntegrity(m) && m@ == "duplicate attachment JSON member"@)
}

/// Whether the object whose `{` is at `q` repeats a member name before it
/// goes wrong in any other way.
pub open spec fn object_dup(s: Seq<u8>, q: int, depth: int) -> bool {
    if depth >= 128 || q < 0 || q >= s.len() {
        false
    } else {
        let r = ws_end(s, q + 1);
        if r <= q || r > s.len() || (r < s.len() && s[r] == 125u8) {
            false
        } else {
            members_dup(s, r, depth, Seq::empty())
        }
    }
}

/// Whether the value at or after `p` is an object that repeats a member name
/// before it goes wrong in any other way.
pub open spec fn value_dup(s: Seq<u8>, p: int, depth: int) -> bool {
    if depth >= 128 || p < 0 || p > s.len() {
        false
    } else {
        let q = ws_end(s, p);
        p <= q < s.len() && s[q] == 123u8 && object_dup(s, q, depth)
    }
}

/// The refusal of a repeated member name, unless the retained body ran out
/// of room first.
pub open spec fn dup_refusal(r: Result<(), BzrError>) -> bool {
    r matches Err(e) && (e is ResponseTooLarge || (e matches BzrError::DataIntegrity(m) && m@
        == "duplicate attachment JSON member"@))
}

/// Where the array whose `[` is at `q` ends.
pub open spec fn scan_array(s: Seq<u8>, q: int, depth: int) -> Option<int>
    decreases 128 - depth, s.len() - q, 1int,
{
    if depth >= 128 || q < 0 || q >= s.len() {
        None
    } else {
        let r = ws_end(s, q + 1);
        if r <= q || r > s.len() {
            None
        } else if r < s.len() && s[r] == 93u8 {
            Some(r + 1)
        } else {
            scan_elements(s, r, depth)
        }
    }
}

/// Where the elements from `p` on end.
pub open spec fn scan_elements(s: Seq<u8>, p: int, depth: int) -> Option<int>
    decreases 128 - depth, s.len() - p, 0int,
{
    if depth >= 128 || p < 0 || p > s.len() {
        None
    } else {
        match scan_value(s, p, depth + 1) {
            None => None,
            Some(e) => {
                let f = ws_end(s, e);
                if f < 0 || f >= s.len() {
                    None
                } else if s[f] == 93u8 {
                    Some(f + 1)
                } else if s[f] == 44u8 && p < f + 1 <= s.len() {
                    scan_elements(s, f + 1, depth)
                } else {
                    None
                }
            },
        }
    }
}

/// Whether `s` is an attachment JSON document: one value, then nothing but
/// whitespace.
pub open spec fn json_document(s: Seq<u8>) -> bool {
    match scan_value(s, 0, 0) {
        Some(e) => ws_end(s, e) == s.len(),
        None => false,
    }
}

pub proof fn lemma_ws_end(s: Seq<u8>, p: int)
    requires
        0 <= p <= s.len(),
    ensures
        p <= ws_end(s, p) <= s.len(),
        ws_end(s, p) < s.len() ==> !is_ws(s[ws_end(s, p)]),
    decreases s.len() - p,
{
    if p < s.len() && is_ws(s[p]) {
        lemma_ws_end(s, p + 1);
    }
}

/// A string that closes closes past where its text begins, within the input.
pub proof fn lemma_string_close_bounds(s: Seq<u8>, p: int)
    requires
        string_close(s, p) is Some,
    ensures
        p < string_close(s, p)->0 <= s.len(),
    decreases s.len() - p,
{
    if s[p] != 34u8 {
        if s[p] == 92u8 {
            lemma_string_close_bounds(s, p + 2);
        } else {
            lemma_string_close_bounds(s, p + 1);
        }
    }
}

/// A payload that closes closes past where its text begins, within the
/// input.
pub proof fn lemma_payload_close_bounds(s: Seq<u8>, p: int)
    requires
        payload_close(s, p) is Some,
    ensures
        p < payload_close(s, p)->0 <= s.len(),
    decreases s.len() - p,
{
    if s[p] != 34u8 {
        if s[p] == 92u8 {
            let n = escape_step(s, p + 1)->0;
            lemma_payload_close_bounds(s, n);
        } else {
            lemma_payload_close_bounds(s, p + 1);
        }
    }
}

/// A bare scalar ends within the input, not before it starts.
pub proof fn lemma_scalar_end(s: Seq<u8>, p: int)
    requires
        0 <= p <= s.len(),
    ensures
        p <= scalar_end(s, p) <= s.len(),
    decreases s.len() - p,
{
    if p < s.len() && !ends_scalar(s[p]) {
        lemma_scalar_end(s, p + 1);
    }
}

/// Payloads laid out over `s[a..b]` and then over `s[b..c]` are laid out
/// over `s[a..c]`.
pub proof fn lemma_laid_chain(s: Seq<u8>, a: int, b: int, c: int, x: Seq<int>, y: Seq<int>)
    requires
        laid_out(s, a, b, x),
        laid_out(s, b, c, y),
    ensures
        laid_out(s, a, c, x + y),
{
    lemma_kept_chain(s, a, b, c, x, y, 0);
}

/// The payload that opens at `d` and closes at `e` is laid out over
/// `s[d..e]`.
pub proof fn lemma_laid_payload(s: Seq<u8>, d: int)
    requires
        0 <= d,
        payload_close(s, d + 1) is Some,
    ensures
        laid_out(s, d, payload_close(s, d + 1)->0, seq![d]),
{
    reveal(laid_out);
    lemma_payload_close_bounds(s, d + 1);
    let e = payload_close(s, d + 1)->0;
    assert(seq![d].drop_first() =~= Seq::<int>::empty());
    assert(laid_out(s, e, e, Seq::empty()));
}

/// A JSON value that scans lays its payloads out in order over its bytes.
pub proof fn lemma_value_laid(s: Seq<u8>, p: int, depth: int)
    requires
        scan_value(s, p, depth) is Some,
    ensures
        laid_out(s, p, scan_value(s, p, depth)->0, value_payloads(s, p, depth)),
    decreases 128 - depth, s.len() - p, 2int,
{
    let q = ws_end(s, p);
    lemma_ws_end(s, p);
    lemma_kept_plain(s, p, q, 0);
    let e = scan_value(s, p, depth)->0;
    if s[q] == 123u8 {
        lemma_object_laid(s, q, depth);
        lemma_laid_chain(s, p, q, e, Seq::empty(), object_payloads(s, q, depth));
        assert(Seq::<int>::empty() + object_payloads(s, q, depth) =~= object_payloads(s, q, depth));
    } else if s[q] == 91u8 {
        lemma_array_laid(s, q, depth);
        lemma_laid_chain(s, p, q, e, Seq::empty(), array_payloads(s, q, depth));
        assert(Seq::<int>::empty() + array_payloads(s, q, depth) =~= array_payloads(s, q, depth));
    } else if s[q] == 34u8 {
        lemma_string_close_bounds(s, q + 1);
        lemma_kept_plain(s, p, e, 0);
    } else {
        lemma_scalar_end(s, q);
        lemma_kept_plain(s, p, e, 0);
    }
}

/// An object that scans lays its payloads out in order over its bytes.
pub proof fn lemma_object_laid(s: Seq<u8>, q: int, depth: int)
    requires
        scan_object(s, q, depth) is Some,
    ensures
        laid_out(s, q, scan_object(s, q, depth)->0, object_payloads(s, q, depth)),
    decreases 128 - depth, s.len() - q, 1int,
{
    let r = ws_end(s, q + 1);
    lemma_ws_end(s, q + 1);
    let e = scan_object(s, q, depth)->0;
    if r < s.len() && s[r] == 125u8 {
        lemma_kept_plain(s, q, e, 0);
    } else {
        lemma_kept_plain(s, q, r, 0);
        lemma_members_laid(s, r, depth, Seq::empty());
        lemma_laid_chain(s, q, r, e, Seq::empty(), members_payloads(s, r, depth, Seq::empty()));
        assert(Seq::<int>::empty() + members_payloads(s, r, depth, Seq::empty()) =~= members_payloads(
            s,
            r,
            depth,
            Seq::empty(),
        ));
    }
}

/// Members that scan lay their payloads out in order over their bytes.
pub proof fn lemma_members_laid(s: Seq<u8>, p: int, depth: int, keys: Seq<Seq<u8>>)
    requires
        scan_members(s, p, depth, keys) is Some,
    ensures
        laid_out(s, p, scan_members(s, p, depth, keys)->0, members_payloads(s, p, depth, keys)),
    decreases 128 - depth, s.len() - p, 0int,
{
    let a = ws_end(s, p);
    lemma_ws_end(s, p);
    let (b, key) = scan_string(s, a)->0;
    lemma_string_close_bounds(s, a + 1);
    let c = ws_end(s, b);
    lemma_ws_end(s, b);
    let d = ws_end(s, c + 1);
    lemma_ws_end(s, c + 1);
    let is_payload = key == data_key() && 0 <= d < s.len() && s[d] == 34u8;
    let here = if is_payload {
        seq![d]
    } else {
        value_payloads(s, d, depth + 1)
    };
    let e = if is_payload {
        payload_close(s, d + 1)->0
    } else {
        scan_value(s, d, depth + 1)->0
    };
    if is_payload {
        lemma_laid_payload(s, d);
    } else {
        lemma_value_laid(s, d, depth + 1);
    }
    lemma_laid_out_bounds(s, d, e, here);
    let f = ws_end(s, e);
    lemma_ws_end(s, e);
    lemma_kept_plain(s, p, d, 0);
    lemma_kept_plain(s, e, f + 1, 0);
    lemma_laid_chain(s, p, d, e, Seq::empty(), here);
    lemma_laid_chain(s, p, e, f + 1, Seq::empty() + here, Seq::empty());
    assert(Seq::<int>::empty() + here + Seq::<int>::empty() =~= here);
    if s[f] != 125u8 {
        lemma_members_laid(s, f + 1, depth, keys.push(key));
        lemma_laid_chain(
            s,
            p,
            f + 1,
            scan_members(s, p, depth, keys)->0,
            here,
            members_payloads(s, f + 1, depth, keys.push(key)),
        );
    }
}

/// An array that scans lays its payloads out in order over its bytes.
pub proof fn lemma_array_laid(s: Seq<u8>, q: int, depth: int)
    requires
        scan_array(s, q, depth) is Some,
    ensures
        laid_out(s, q, scan_array(s, q, depth)->0, array_payloads(s, q, depth)),
    decreases 128 - depth, s.len() - q, 1int,
{
    let r = ws_end(s, q + 1);
    lemma_ws_end(s, q + 1);
    let e = scan_array(s, q, depth)->0;
    if r < s.len() && s[r] == 93u8 {
        lemma_kept_plain(s, q, e, 0);
    } else {
        lemma_kept_plain(s, q, r, 0);
        lemma_elements_laid(s, r, depth);
        lemma_laid_chain(s, q, r, e, Seq::empty(), elements_payloads(s, r, depth));
        assert(Seq::<int>::empty() + elements_payloads(s, r, depth) =~= elements_payloads(s, r, depth));
    }
}

/// Elements that scan lay their payloads out in order over their bytes.
pub proof fn lemma_elements_laid(s: Seq<u8>, p: int, depth: int)
    requires
        scan_elements(s, p, depth) is Some,
    ensures
        laid_out(s, p, scan_elements(s, p, depth)->0, elements_payloads(s, p, depth)),
    decreases 128 - depth, s.len() - p, 0int,
{
    let here = value_payloads(s, p, depth + 1);
    let e = scan_value(s, p, depth + 1)->0;
    lemma_value_laid(s, p, depth + 1);
    lemma_laid_out_bounds(s, p, e, here);
    let f = ws_end(s, e);
    lemma_ws_end(s, e);
    lemma_kept_plain(s, e, f + 1, 0);
    lemma_laid_chain(s, p, e, f + 1, here, Seq::empty());
    assert(here + Seq::<int>::empty() =~= here);
    if s[f] != 93u8 {
        lemma_elements_laid(s, f + 1, depth);
        lemma_laid_chain(s, p, f + 1, scan_elements(s, p, depth)->0, here, elements_payloads(s, f + 1, depth));
    }
}

/// What two laid-out stretches retain, one after the other, is as long as
/// what they retain together.
pub proof fn lemma_kept_len(s: Seq<u8>, a: int, b: int, c: int, x: Seq<int>, y: Seq<int>, n: nat)
    requires
        laid_out(s, a, b, x),
        laid_out(s, b, c, y),
    ensures
        kept_from(s, a, c, x + y, n).len() == kept_from(s, a, b, x, n).len() + kept_from(
            s,
            b,
            c,
            y,
            n + x.len(),
        ).len(),
{
    lemma_kept_chain(s, a, b, c, x, y, n);
}

/// A payload retains its quotes around its marker.
pub proof fn lemma_kept_payload(s: Seq<u8>, d: int, n: nat)
    requires
        0 <= d,
        payload_close(s, d + 1) is Some,
    ensures
        kept_from(s, d, payload_close(s, d + 1)->0, seq![d], n).len() == 2 + super::marker_for(n).len(),
{
    reveal(kept_from);
    lemma_payload_close_bounds(s, d + 1);
    let e = payload_close(s, d + 1)->0;
    assert(seq![d].drop_first() =~= Seq::<int>::empty());
    assert(kept_from(s, e, e, Seq::empty(), n + 1) =~= Seq::<u8>::empty());
}

/// What a scanned value retains: the whitespace before it, then what the
/// value itself retains.
pub proof fn lemma_value_kept(s: Seq<u8>, p: int, depth: int, n: nat)
    requires
        scan_value(s, p, depth) is Some,
    ensures
        ({
            let (q, e, x) = (ws_end(s, p), scan_value(s, p, depth)->0, value_payloads(s, p, depth));
            &&& p <= q < e
            &&& laid_out(s, q, e, x)
            &&& kept_from(s, p, e, x, n).len() == (q - p) + kept_from(s, q, e, x, n).len()
            &&& (x.len() == 0 ==> kept_from(s, q, e, x, n).len() == e - q)
        }),
{
    let q = ws_end(s, p);
    lemma_ws_end(s, p);
    let e = scan_value(s, p, depth)->0;
    let x = value_payloads(s, p, depth);
    lemma_kept_plain(s, p, q, n);
    if s[q] == 123u8 {
        lemma_object_laid(s, q, depth);
        lemma_object_kept(s, q, depth, n);
        lemma_laid_out_bounds(s, q, e, x);
    } else if s[q] == 91u8 {
        lemma_array_laid(s, q, depth);
        lemma_array_kept(s, q, depth, n);
        lemma_laid_out_bounds(s, q, e, x);
    } else if s[q] == 34u8 {
        lemma_string_close_bounds(s, q + 1);
        lemma_kept_plain(s, q, e, n);
    } else {
        lemma_scalar_end(s, q);
        lemma_kept_plain(s, q, e, n);
    }
    if x.len() == 0 {
        lemma_kept_plain(s, q, e, n);
    }
    lemma_kept_len(s, p, q, e, Seq::empty(), x, n);
    assert(Seq::<int>::empty() + x =~= x);
}

/// What a scanned object retains: its bytes up to its first member, then
/// what its members retain; an empty object retains itself.
pub proof fn lemma_object_kept(s: Seq<u8>, q: int, depth: int, n: nat)
    requires
        scan_object(s, q, depth) is Some,
    ensures
        ({
            let (r, e) = (ws_end(s, q + 1), scan_object(s, q, depth)->0);
            &&& q < r <= e
            &&& if r < s.len() && s[r] == 125u8 {
                &&& e == r + 1
                &&& kept_from(s, q, e, object_payloads(s, q, depth), n).len() == e - q
            } else {
                &&& laid_out(s, r, e, members_payloads(s, r, depth, Seq::empty()))
                &&& kept_from(s, q, e, object_payloads(s, q, depth), n).len() == (r - q) + kept_from(
                    s,
                    r,
                    e,
                    members_payloads(s, r, depth, Seq::empty()),
                    n,
                ).len()
            }
        }),
{
    let r = ws_end(s, q + 1);
    lemma_ws_end(s, q + 1);
    let e = scan_object(s, q, depth)->0;
    if r < s.len() && s[r] == 125u8 {
        lemma_kept_plain(s, q, e, n);
    } else {
        let x = members_payloads(s, r, depth, Seq::empty());
        lemma_members_laid(s, r, depth, Seq::empty());
        lemma_laid_out_bounds(s, r, e, x);
        lemma_kept_plain(s, q, r, n);
        lemma_kept_len(s, q, r, e, Seq::empty(), x, n);
        assert(Seq::<int>::empty() + x =~= x);
    }
}

/// What a scanned array retains: its bytes up to its first element, then
/// what its elements retain; an empty array retains itself.
pub proof fn lemma_array_kept(s: Seq<u8>, q: int, depth: int, n: nat)
    requires
        scan_array(s, q, depth) is Some,
    ensures
        ({
            let (r, e) = (ws_end(s, q + 1), scan_array(s, q, depth)->0);
            &&& q < r <= e
            &&& if r < s.len() && s[r] == 93u8 {
                &&& e == r + 1
                &&& kept_from(s, q, e, array_payloads(s, q, depth), n).len() == e - q
            } else {
                &&& laid_out(s, r, e, elements_payloads(s, r, depth))
                &&& kept_from(s, q, e, array_payloads(s, q, depth), n).len() == (r - q) + kept_from(
                    s,
                    r,
                    e,
                    elements_payloads(s, r, depth),
                    n,
                ).len()
            }
        }),
{
    let r = ws_end(s, q + 1);
    lemma_ws_end(s, q + 1);
    let e = scan_array(s, q, depth)->0;
    if r < s.len() && s[r] == 93u8 {
        lemma_kept_plain(s, q, e, n);
    } else {
        let x = elements_payloads(s, r, depth);
        lemma_elements_laid(s, r, depth);
        lemma_laid_out_bounds(s, r, e, x);
        lemma_kept_plain(s, q, r, n);
        lemma_kept_len(s, q, r, e, Seq::empty(), x, n);
        assert(Seq::<int>::empty() + x =~= x);
    }
}

/// What scanned members retain is at least what the first of them retains:
/// its bytes up to its value, what its value retains, and the bytes up to
/// and with the `,` or `}` after it.
pub proof fn lemma_member_kept(s: Seq<u8>, p: int, depth: int, keys: Seq<Seq<u8>>, n: nat)
    requires
        scan_members(s, p, depth, keys) is Some,
    ensures
        ({
            let a = ws_end(s, p);
            let b = match scan_string(s, a) {
                Some((b, _)) => b,
                None => a,
            };
            let c = ws_end(s, b);
            let d = ws_end(s, c + 1);
            let here = member_payloads(s, p, depth);
            let is_payload = member_key(s, p) == data_key() && 0 <= d < s.len() && s[d] == 34u8;
            let e = if is_payload {
                payload_close(s, d + 1)->0
            } else {
                scan_value(s, d, depth + 1)->0
            };
            let f = ws_end(s, e);
            &&& p <= a < b <= c < c + 1 <= d <= e <= f < s.len()
            &&& laid_out(s, d, e, here)
            &&& kept_from(s, p, scan_members(s, p, depth, keys)->0, members_payloads(s, p, depth, keys), n).len()
                >= (d - p) + kept_from(s, d, e, here, n).len() + (f + 1 - e)
        }),
{
    let a = ws_end(s, p);
    lemma_ws_end(s, p);
    let (b, key) = scan_string(s, a)->0;
    lemma_string_close_bounds(s, a + 1);
    let c = ws_end(s, b);
    lemma_ws_end(s, b);
    let d = ws_end(s, c + 1);
    lemma_ws_end(s, c + 1);
    let is_payload = key == data_key() && 0 <= d < s.len() && s[d] == 34u8;
    let here = member_payloads(s, p, depth);
    let e = if is_payload {
        payload_close(s, d + 1)->0
    } else {
        scan_value(s, d, depth + 1)->0
    };
    if is_payload {
        lemma_laid_payload(s, d);
    } else {
        lemma_value_laid(s, d, depth + 1);
    }
    lemma_laid_out_bounds(s, d, e, here);
    let f = ws_end(s, e);
    lemma_ws_end(s, e);
    let eo = scan_members(s, p, depth, keys)->0;
    lemma_kept_plain(s, p, d, n);
    lemma_kept_plain(s, e, f + 1, n + here.len());
    lemma_kept_len(s, p, d, e, Seq::empty(), here, n);
    lemma_laid_chain(s, p, d, e, Seq::empty(), here);
    assert(Seq::<int>::empty() + here =~= here);
    lemma_kept_len(s, p, e, f + 1, here, Seq::empty(), n);
    lemma_laid_chain(s, p, e, f + 1, here, Seq::empty());
    assert(here + Seq::<int>::empty() =~= here);
    if s[f] != 125u8 {
        let rest = members_payloads(s, f + 1, depth, keys.push(key));
        lemma_members_laid(s, f + 1, depth, keys.push(key));
        lemma_kept_len(s, p, f + 1, eo, here, rest, n);
    }
}

/// What scanned elements retain is at least what the first of them
/// retains, with the bytes up to and with the `,` or `]` after it.
pub proof fn lemma_element_kept(s: Seq<u8>, p: int, depth: int, n: nat)
    requires
        scan_elements(s, p, depth) is Some,
    ensures
        ({
            let here = value_payloads(s, p, depth + 1);
            let e = scan_value(s, p, depth + 1)->0;
            let f = ws_end(s, e);
            &&& p <= e <= f < s.len()
            &&& laid_out(s, p, e, here)
            &&& kept_from(s, p, scan_elements(s, p, depth)->0, elements_payloads(s, p, depth), n).len()
                >= kept_from(s, p, e, here, n).len() + (f + 1 - e)
        }),
{
    let here = value_payloads(s, p, depth + 1);
    let e = scan_value(s, p, depth + 1)->0;
    lemma_value_laid(s, p, depth + 1);
    lemma_laid_out_bounds(s, p, e, here);
    let f = ws_end(s, e);
    lemma_ws_end(s, e);
    let eo = scan_elements(s, p, depth)->0;
    lemma_kept_plain(s, e, f + 1, n + here.len());
    lemma_kept_len(s, p, e, f + 1, here, Seq::empty(), n);
    lemma_laid_chain(s, p, e, f + 1, here, Seq::empty());
    assert(here + Seq::<int>::empty() =~= here);
    if s[f] != 93u8 {
        let rest = elements_payloads(s, f + 1, depth);
        lemma_elements_laid(s, f + 1, depth);
        lemma_kept_len(s, p, f + 1, eo, here, rest, n);
    }
}

/// Appending to a sequence appends to what lies past any point within it.
pub proof fn lemma_skip_append(a: Seq<u8>, b: Seq<u8>, k: int)
    requires
        0 <= k <= a.len(),
    ensures
        (a + b).skip(k) == a.skip(k) + b,
        (a + b).take(k) == a.take(k),
{
    assert((a + b).skip(k) =~= a.skip(k) + b);
    assert((a + b).take(k) =~= a.take(k));
}

/// Whether `a` and `b` hold the same bytes.
pub fn bytes_eq(a: &[u8], b: &[u8]) -> (r: bool)
    ensures
        r == (a@ == b@),
{
    if a.len() != b.len() {
        return false;
    }
    let mut i: usize = 0;
    while i < a.len()
        invariant
            i <= a@.len() == b@.len(),
            forall|j: int| 0 <= j < i ==> a@[j] == b@[j],
        decreases a@.len() - i,
    {
        if a[i] != b[i] {
            return false;
        }
        i = i + 1;
    }
    assert(a@ =~= b@);
    true
}

/// Whether some member of `keys` holds the bytes of `key`.
pub fn contains_key(keys: &Vec<Vec<u8>>, key: &[u8]) -> (r: bool)
    ensures
        r == exists|i: int| 0 <= i < keys@.len() && #[trigger] keys@[i]@ == key@,
{
    let mut i: usize = 0;
    while i < keys.len()
        invariant
            i <= keys@.len(),
            forall|j: int| 0 <= j < i ==> #[trigger] keys@[j]@ != key@,
        decreases keys@.len() - i,
    {
        if bytes_eq(keys[i].as_slice(), key) {
            return true;
        }
        i = i + 1;
    }
    false
}

impl Reader {
    /// What every scanning step keeps: the reader's invariant and progress
    /// only forward.
    pub open spec fn step_ok(&self, old: &Reader) -> bool {
        &&& self.inv()
        &&& self.advanced_from(old)
    }

    /// This reader is `old` later on, having decoded the payloads that open
    /// at `starts` and nothing else.
    pub open spec fn decoded_from(&self, old: &Reader, starts: Seq<int>) -> bool {
        payloads_decoded(self.input@, old.output@, old.spans@, self.output@, self.spans@, starts)
    }

    /// This reader is `old` later on, its body grown by what the input
    /// between their positions retains with the payloads opening at
    /// `starts` streamed.
    pub open spec fn kept_since(&self, old: &Reader, starts: Seq<int>) -> bool {
        &&& laid_out(old.input@, old.position as int, self.position as int, starts)
        &&& self.body@ == old.body@ + kept_from(
            old.input@,
            old.position as int,
            self.position as int,
            starts,
            old.spans@.len(),
        )
    }

    /// Skips (and retains) ASCII whitespace.
    pub fn json_whitespace(&mut self) -> (r: Result<(), BzrError>)
        requires
            old(self).inv(),
            old(self).settled(),
        ensures
            final(self).step_ok(old(self)),
            r is Ok ==> final(self).settled(),
            r is Ok ==> final(self).next_byte() is None || !is_ws(final(self).next_byte()->0),
            r is Ok ==> final(self).position == ws_end(old(self).input@, old(self).position as int),
            r matches Err(e) ==> e is ResponseTooLarge,
            r is Ok ==> final(self).body@ == old(self).body@ + old(self).input@.subrange(
                old(self).position as int,
                final(self).position as int,
            ),
            r is Err ==> old(self).body@.len() + (ws_end(old(self).input@, old(self).position as int)
                - old(self).position) > old(self).limit,
            final(self).same_sink(old(self)),
    {
        loop
            invariant
                self.step_ok(old(self)),
                self.same_sink(old(self)),
                self.settled(),
                ws_end(self.input@, old(self).position as int) == ws_end(self.input@, self.position as int),
                self.body@ == old(self).body@ + self.input@.subrange(
                    old(self).position as int,
                    self.position as int,
                ),
            decreases self.input@.len() - self.position,
        {
            match self.peek() {
                Some(b) => {
                    if !is_ascii_whitespace(b) {
                        return Ok(());
                    }
                },
                None => return Ok(()),
            }
            let ghost x = self.position as int;
            match self.take() {
                Ok(_) => {
                    assert(self.input@.subrange(old(self).position as int, x + 1) =~= self.input@.subrange(
                        old(self).position as int,
                        x,
                    ).push(self.input@[x]));
                },
                Err(e) => {
                    proof {
                        lemma_ws_end(self.input@, x + 1);
                    }
                    return Err(e);
                },
            }
        }
    }

    /// Scans one JSON value at nesting `depth`.
    #[verifier::rlimit(80)]
    #[verifier::spinoff_prover]
    pub fn json_value(&mut self, depth: usize) -> (r: Result<(), BzrError>)
        requires
            old(self).inv(),
            old(self).settled(),
            depth <= 128,
        ensures
            final(self).step_ok(old(self)),
            r is Ok ==> final(self).settled(),
            r is Ok ==> final(self).position > old(self).position,
            depth >= 128 ==> r is Err,
            r is Ok ==> scan_value(old(self).input@, old(self).position as int, depth as int) == Some(
                final(self).position as int,
            ),
            r matches Err(e) ==> e is ResponseTooLarge || scan_value(
                old(self).input@,
                old(self).position as int,
                depth as int,
            ) is None,
            r is Ok ==> final(self).decoded_from(
                old(self),
                value_payloads(old(self).input@, old(self).position as int, depth as int),
            ),
            value_dup(old(self).input@, old(self).position as int, depth as int) ==> dup_refusal(r),
            r is Ok ==> final(self).kept_since(
                old(self),
                value_payloads(old(self).input@, old(self).position as int, depth as int),
            ),
            r matches Err(e) ==> (e is ResponseTooLarge && scan_value(
                old(self).input@,
                old(self).position as int,
                depth as int,
            ) is Some ==> old(self).body@.len() + kept_from(
                old(self).input@,
                old(self).position as int,
                scan_value(old(self).input@, old(self).position as int, depth as int)->0,
                value_payloads(old(self).input@, old(self).position as int, depth as int),
                old(self).spans@.len(),
            ).len() > old(self).limit),
        decreases 128 - depth, 2int,
    {
        let ghost s = self.input@;
        let ghost p0 = self.position as int;
        if depth >= 128 {
            return Err(invalid("attachment JSON nesting exceeds 128 levels"));
        }
        proof {
            if scan_value(s, p0, depth as int) is Some {
                lemma_value_kept(s, p0, depth as int, self.spans@.len());
            }
        }
        match self.json_whitespace() {
            Ok(()) => {},
            Err(e) => return Err(e),
        }
        let ghost q = self.position as int;
        let ghost body0 = old(self).body@;
        let ghost body_q = self.body@;
        let ghost n = self.spans@.len();
        proof {
            lemma_ws_end(s, p0);
            lemma_kept_plain(s, p0, q, n);
        }
        match self.peek() {
            Some(b) => {
                if b == 123u8 {
                    let r = self.json_object(depth);
                    proof {
                        if scan_value(s, p0, depth as int) is Some {
                            assert(value_payloads(s, p0, depth as int) == object_payloads(s, q, depth as int));
                            assert(scan_value(s, p0, depth as int) == scan_object(s, q, depth as int));
                        }
                        if r is Ok {
                            lemma_kept_after_plain(s, n, p0, q, self.position as int, object_payloads(s, q, depth as int), body0, body_q, self.body@);
                        }
                    }
                    r
                } else if b == 91u8 {
                    let r = self.json_array(depth);
                    proof {
                        if scan_value(s, p0, depth as int) is Some {
                            assert(value_payloads(s, p0, depth as int) == array_payloads(s, q, depth as int));
                            assert(scan_value(s, p0, depth as int) == scan_array(s, q, depth as int));
                        }
                        if r is Ok {
                            lemma_kept_after_plain(s, n, p0, q, self.position as int, array_payloads(s, q, depth as int), body0, body_q, self.body@);
                        }
                    }
                    r
                } else if b == 34u8 {
                    match self.json_string() {
                        Ok(_) => {
                            proof {
                                lemma_payloads_none(s, self.output@, self.spans@);
                                lemma_body_grow(s, p0, q, self.position as int, body0, body_q, self.body@);
                                lemma_kept_plain(s, p0, self.position as int, n);
                            }
                            Ok(())
                        },
                        Err(e) => {
                            proof {
                                if scan_value(s, p0, depth as int) is Some {
                                    assert(value_payloads(s, p0, depth as int) =~= Seq::<int>::empty());
                                    assert(string_end(s, q) == scan_value(s, p0, depth as int)->0);
                                }
                            }
                            Err(e)
                        },
                    }
                } else {
                    let start = self.position;
                    loop
                        invariant
                            self.step_ok(old(self)),
                            self.same_sink(old(self)),
                            self.settled(),
                            start <= self.position,
                            start == q,
                            s == self.input@,
                            scalar_end(s, q) == scalar_end(s, self.position as int),
                            self.body@ == body_q + s.subrange(q, self.position as int),
                            body_q.len() == old(self).body@.len() + (q - p0),
                            n == old(self).spans@.len(),
                            p0 == old(self).position,
                            scan_value(s, p0, depth as int) is Some ==> scan_value(s, p0, depth as int)->0
                                == scalar_end(s, q) && kept_from(
                                s,
                                p0,
                                scalar_end(s, q),
                                value_payloads(s, p0, depth as int),
                                n,
                            ).len() == (q - p0) + (scalar_end(s, q) - q),
                        ensures
                            self.step_ok(old(self)),
                            self.same_sink(old(self)),
                            self.settled(),
                            start <= self.position,
                            self.position == scalar_end(s, q),
                            self.body@ == body_q + s.subrange(q, self.position as int),
                        decreases self.input@.len() - self.position,
                    {
                        match self.peek() {
                            Some(c) => {
                                if is_ascii_whitespace(c) || c == 44u8 || c == 93u8 || c == 125u8 {
                                    break;
                                }
                            },
                            None => break,
                        }
                        let ghost x = self.position as int;
                        match self.take() {
                            Ok(_) => {
                                assert(s.subrange(q, x + 1) =~= s.subrange(q, x).push(s[x]));
                            },
                            Err(e) => {
                                proof {
                                    assert(!ends_scalar(s[x]));
                                    assert(scalar_end(s, x) == scalar_end(s, x + 1));
                                    lemma_scalar_end(s, x + 1);
                                }
                                return Err(e);
                            },
                        }
                    }
                    if self.position == start {
                        return Err(invalid("expected attachment JSON value"));
                    }
                    proof {
                        lemma_payloads_none(s, self.output@, self.spans@);
                        lemma_body_grow(s, p0, q, self.position as int, body0, body_q, self.body@);
                        lemma_kept_plain(s, p0, self.position as int, n);
                    }
                    Ok(())
                }
            },
            None => Err(invalid("truncated attachment JSON")),
        }
    }

    /// Scans a JSON object whose `{` is next, streaming a string-valued
    /// `data` member as a payload and refusing duplicate members.
    #[verifier::rlimit(100)]
    #[verifier::spinoff_prover]
    pub fn json_object(&mut self, depth: usize) -> (r: Result<(), BzrError>)
        requires
            old(self).inv(),
            old(self).settled(),
            depth < 128,
            old(self).next_byte() == Some(123u8),
        ensures
            final(self).step_ok(old(self)),
            r is Ok ==> final(self).settled(),
            r is Ok ==> final(self).position > old(self).position,
            r is Ok ==> scan_object(old(self).input@, old(self).position as int, depth as int) == Some(
                final(self).position as int,
            ),
            r matches Err(e) ==> e is ResponseTooLarge || scan_object(
                old(self).input@,
                old(self).position as int,
                depth as int,
            ) is None,
            r is Ok ==> final(self).decoded_from(
                old(self),
                object_payloads(old(self).input@, old(self).position as int, depth as int),
            ),
            object_dup(old(self).input@, old(self).position as int, depth as int) ==> dup_refusal(r),
            r is Ok ==> final(self).kept_since(
                old(self),
                object_payloads(old(self).input@, old(self).position as int, depth as int),
            ),
            r matches Err(e) ==> (e is ResponseTooLarge && scan_object(
                old(self).input@,
                old(self).position as int,
                depth as int,
            ) is Some ==> old(self).body@.len() + kept_from(
                old(self).input@,
                old(self).position as int,
                scan_object(old(self).input@, old(self).position as int, depth as int)->0,
                object_payloads(old(self).input@, old(self).position as int, depth as int),
                old(self).spans@.len(),
            ).len() > old(self).limit),
        decreases 128 - depth, 1int,
    {
        let ghost s = self.input@;
        let ghost q0 = self.position as int;
        let ghost n0 = self.spans@.len();
        proof {
            if scan_object(s, q0, depth as int) is Some {
                lemma_object_kept(s, q0, depth as int, n0);
            }
        }
        match self.take() {
            Ok(_) => {},
            Err(e) => return Err(e),
        }
        let ghost body1 = self.body@;
        assert(body1 =~= old(self).body@ + s.subrange(q0, q0 + 1));
        match self.json_whitespace() {
            Ok(()) => {},
            Err(e) => return Err(e),
        }
        proof {
            lemma_ws_end(s, q0 + 1);
            lemma_body_grow(s, q0, q0 + 1, self.position as int, old(self).body@, body1, self.body@);
            lemma_kept_plain(s, q0, self.position as int, n0);
        }
        let mut keys: Vec<Vec<u8>> = Vec::new();
        proof {
            lemma_payloads_none(s, self.output@, self.spans@);
        }
        if self.peek() == Some(125u8) {
            let ghost r0 = self.position as int;
            let ghost body_r = self.body@;
            return match self.take() {
                Ok(_) => {
                    proof {
                        assert(self.body@ =~= body_r + s.subrange(r0, r0 + 1));
                        lemma_kept_extend(s, n0, q0, r0, r0 + 1, Seq::empty(), old(self).body@, body_r, self.body@);
                    }
                    Ok(())
                },
                Err(e) => Err(e),
            };
        }
        assert(key_views(keys@) =~= Seq::<Seq<u8>>::empty());
        let ghost mut acc: Seq<int> = Seq::empty();
        assert(acc + members_payloads(s, self.position as int, depth as int, Seq::empty()) =~= members_payloads(
            s,
            self.position as int,
            depth as int,
            Seq::empty(),
        ));
        loop
            invariant
                self.decoded_from(old(self), acc),
                self.kept_since(old(self), acc),
                n0 == old(self).spans@.len(),
                object_payloads(s, q0, depth as int) == acc + members_payloads(
                    s,
                    self.position as int,
                    depth as int,
                    key_views(keys@),
                ),
                self.step_ok(old(self)),
                self.settled(),
                self.position > old(self).position,
                depth < 128,
                s == self.input@,
                q0 == old(self).position,
                scan_object(s, q0, depth as int) == scan_members(
                    s,
                    self.position as int,
                    depth as int,
                    key_views(keys@),
                ),
                object_dup(s, q0, depth as int) == members_dup(
                    s,
                    self.position as int,
                    depth as int,
                    key_views(keys@),
                ),
            decreases self.input@.len() - self.position,
        {
            let ghost p = self.position as int;
            let ghost out_p = self.output@;
            let ghost spans_p = self.spans@;
            let ghost body_p = self.body@;
            let ghost here = member_payloads(s, p, depth as int);
            proof {
                if scan_object(s, q0, depth as int) is Some {
                    let kv = key_views(keys@);
                    let eo = scan_members(s, p, depth as int, kv)->0;
                    lemma_members_laid(s, p, depth as int, kv);
                    lemma_kept_len(s, q0, p, eo, acc, members_payloads(s, p, depth as int, kv), n0);
                }
            }
            let closed = match self.json_member(depth, &mut keys) {
                Ok(c) => c,
                Err(e) => return Err(e),
            };
            proof {
                lemma_payloads_chain(
                    s,
                    old(self).output@,
                    old(self).spans@,
                    out_p,
                    spans_p,
                    self.output@,
                    self.spans@,
                    acc,
                    here,
                );
                lemma_kept_step(s, n0, q0, p, self.position as int, acc, here, old(self).body@, body_p, self.body@);
            }
            if closed {
                return Ok(());
            }
            proof {
                let rest = members_payloads(s, self.position as int, depth as int, key_views(keys@));
                assert(acc + (here + rest) =~= (acc + here) + rest);
                acc = acc + here;
            }
        }
    }

    /// Scans one member of an object: its name (refused when it repeats an
    /// earlier one), the colon, its value (a string-valued `data` member
    /// streamed as a payload) and the `,` or `}` after it. Gives whether the
    /// member closed the object.
    #[verifier::rlimit(60)]
    pub fn json_member(&mut self, depth: usize, keys: &mut Vec<Vec<u8>>) -> (r: Result<bool, BzrError>)
        requires
            old(self).inv(),
            old(self).settled(),
            depth < 128,
        ensures
            final(self).step_ok(old(self)),
            r is Ok ==> final(self).settled(),
            r is Ok ==> final(self).position > old(self).position,
            r is Ok ==> final(self).decoded_from(
                old(self),
                member_payloads(old(self).input@, old(self).position as int, depth as int),
            ),
            r is Ok ==> final(self).kept_since(
                old(self),
                member_payloads(old(self).input@, old(self).position as int, depth as int),
            ),
            r matches Ok(true) ==> ({
                let (s, p, kv) = (old(self).input@, old(self).position as int, key_views(old(keys)@));
                &&& scan_members(s, p, depth as int, kv) == Some(final(self).position as int)
                &&& members_payloads(s, p, depth as int, kv) == member_payloads(s, p, depth as int)
                &&& !members_dup(s, p, depth as int, kv)
            }),
            r matches Ok(false) ==> ({
                let (s, p, kv) = (old(self).input@, old(self).position as int, key_views(old(keys)@));
                let (f, kf) = (final(self).position as int, key_views(final(keys)@));
                &&& kf == kv.push(member_key(s, p))
                &&& scan_members(s, p, depth as int, kv) == scan_members(s, f, depth as int, kf)
                &&& members_payloads(s, p, depth as int, kv) == member_payloads(s, p, depth as int)
                    + members_payloads(s, f, depth as int, kf)
                &&& members_dup(s, p, depth as int, kv) == members_dup(s, f, depth as int, kf)
            }),
            r matches Err(e) ==> e is ResponseTooLarge || scan_members(
                old(self).input@,
                old(self).position as int,
                depth as int,
                key_views(old(keys)@),
            ) is None,
            member_dup_here(old(self).input@, old(self).position as int, key_views(old(keys)@)) ==> (r matches Err(
                e,
            ) && dup_error(e)),
            r matches Err(e) && !(e is ResponseTooLarge) && !member_dup_here(
                old(self).input@,
                old(self).position as int,
                key_views(old(keys)@),
            ) ==> !members_dup(old(self).input@, old(self).position as int, depth as int, key_views(old(keys)@)),
            r matches Err(e) ==> (e is ResponseTooLarge && scan_members(
                old(self).input@,
                old(self).position as int,
                depth as int,
                key_views(old(keys)@),
            ) is Some ==> old(self).body@.len() + kept_from(
                old(self).input@,
                old(self).position as int,
                scan_members(old(self).input@, old(self).position as int, depth as int, key_views(old(keys)@))->0,
                members_payloads(old(self).input@, old(self).position as int, depth as int, key_views(old(keys)@)),
                old(self).spans@.len(),
            ).len() > old(self).limit),
        decreases 128 - depth, 0int,
    {
        let ghost s = self.input@;
        let ghost p = self.position as int;
        let ghost kv = key_views(keys@);
        let ghost n = self.spans@.len();
        proof {
            if scan_members(s, p, depth as int, kv) is Some {
                lemma_member_kept(s, p, depth as int, kv, n);
            }
        }
        match self.json_whitespace() {
            Ok(()) => {},
            Err(e) => return Err(e),
        }
        proof {
            lemma_ws_end(s, p);
        }
        let ghost a = self.position as int;
        let ghost body_a = self.body@;
        let key = match self.json_string() {
            Ok(k) => k,
            Err(e) => return Err(e),
        };
        let ghost b = self.position as int;
        let ghost body_b = self.body@;
        let dup = contains_key(keys, key.as_slice());
        proof {
            if dup {
                let i = choose|i: int| 0 <= i < keys@.len() && #[trigger] keys@[i]@ == key@;
                assert(kv[i] == key@);
                assert(kv.contains(key@));
            } else {
                assert forall|i: int| 0 <= i < kv.len() implies kv[i] != key@ by {
                    assert(kv[i] == keys@[i]@);
                }
            }
        }
        if dup {
            return Err(invalid("duplicate attachment JSON member"));
        }
        let is_data = bytes_eq(key.as_slice(), &[100u8, 97u8, 116u8, 97u8]);
        proof {
            assert([100u8, 97u8, 116u8, 97u8]@ =~= data_key());
        }
        let ghost key_view = key@;
        keys.push(key);
        assert(key_views(keys@) =~= kv.push(key_view));
        match self.json_whitespace() {
            Ok(()) => {},
            Err(e) => return Err(e),
        }
        let ghost c = self.position as int;
        proof {
            lemma_ws_end(s, b);
        }
        let ghost body_c = self.body@;
        match self.required(true) {
            Ok(ch) => {
                if ch != 58u8 {
                    return Err(invalid("expected JSON member colon"));
                }
            },
            Err(e) => return Err(e),
        }
        let ghost body_c1 = self.body@;
        match self.json_whitespace() {
            Ok(()) => {},
            Err(e) => return Err(e),
        }
        let ghost d = self.position as int;
        proof {
            lemma_ws_end(s, c + 1);
        }
        assert(self.body@ == old(self).body@ + s.subrange(p, d)) by {
            lemma_body_grow(s, p, a, b, old(self).body@, body_a, body_b);
            lemma_body_grow(s, p, b, c, old(self).body@, body_b, body_c);
            assert(body_c1 =~= body_c + s.subrange(c, c + 1));
            lemma_body_grow(s, p, c, c + 1, old(self).body@, body_c, body_c1);
            lemma_body_grow(s, p, c + 1, d, old(self).body@, body_c1, self.body@);
        }
        let ghost body_d = self.body@;
        let ghost here = member_payloads(s, p, depth as int);
        if is_data && self.peek() == Some(34u8) {
            proof {
                if payload_close(s, d + 1) is Some {
                    lemma_kept_payload(s, d, n);
                }
            }
            match self.json_payload() {
                Ok(()) => {},
                Err(e) => return Err(e),
            }
        } else {
            match self.json_value(depth + 1) {
                Ok(()) => {},
                Err(e) => return Err(e),
            }
        }
        assert(self.kept_since(old(self), here)) by {
            lemma_kept_after_plain(s, n, p, d, self.position as int, here, old(self).body@, body_d, self.body@);
        }
        let ghost e = self.position as int;
        let ghost body_e = self.body@;
        match self.json_whitespace() {
            Ok(()) => {},
            Err(e) => return Err(e),
        }
        let ghost f = self.position as int;
        let ghost body_f = self.body@;
        proof {
            lemma_ws_end(s, e);
        }
        match self.required(true) {
            Ok(ch) => {
                assert(self.kept_since(old(self), here)) by {
                    assert(self.body@ =~= body_f + s.subrange(f, f + 1));
                    lemma_body_grow(s, e, f, f + 1, body_e, body_f, self.body@);
                    lemma_kept_extend(s, n, p, e, f + 1, here, old(self).body@, body_e, self.body@);
                }
                if ch == 125u8 {
                    proof {
                        assert(members_payloads(s, p, depth as int, kv) == here);
                    }
                    return Ok(true);
                } else if ch != 44u8 {
                    return Err(invalid("expected attachment JSON object delimiter"));
                }
            },
            Err(e) => return Err(e),
        }
        proof {
            assert(members_payloads(s, p, depth as int, kv) == here + members_payloads(
                s,
                self.position as int,
                depth as int,
                kv.push(key_view),
            ));
        }
        Ok(false)
    }

    /// Scans a JSON array whose `[` is next.
    #[verifier::rlimit(100)]
    #[verifier::spinoff_prover]
    pub fn json_array(&mut self, depth: usize) -> (r: Result<(), BzrError>)
        requires
            old(self).inv(),
            old(self).settled(),
            depth < 128,
            old(self).next_byte() == Some(91u8),
        ensures
            final(self).step_ok(old(self)),
            r is Ok ==> final(self).settled(),
            r is Ok ==> final(self).position > old(self).position,
            r is Ok ==> scan_array(old(self).input@, old(self).position as int, depth as int) == Some(
                final(self).position as int,
            ),
            r matches Err(e) ==> e is ResponseTooLarge || scan_array(
                old(self).input@,
                old(self).position as int,
                depth as int,
            ) is None,
            r is Ok ==> final(self).decoded_from(
                old(self),
                array_payloads(old(self).input@, old(self).position as int, depth as int),
            ),
            r is Ok ==> final(self).kept_since(
                old(self),
                array_payloads(old(self).input@, old(self).position as int, depth as int),
            ),
            r matches Err(e) ==> (e is ResponseTooLarge && scan_array(
                old(self).input@,
                old(self).position as int,
                depth as int,
            ) is Some ==> old(self).body@.len() + kept_from(
                old(self).input@,
                old(self).position as int,
                scan_array(old(self).input@, old(self).position as int, depth as int)->0,
                array_payloads(old(self).input@, old(self).position as int, depth as int),
                old(self).spans@.len(),
            ).len() > old(self).limit),
        decreases 128 - depth, 1int,
    {
        let ghost s = self.input@;
        let ghost q0 = self.position as int;
        let ghost n0 = self.spans@.len();
        proof {
            if scan_array(s, q0, depth as int) is Some {
                lemma_array_kept(s, q0, depth as int, n0);
            }
        }
        match self.take() {
            Ok(_) => {},
            Err(e) => return Err(e),
        }
        let ghost body1 = self.body@;
        assert(body1 =~= old(self).body@ + s.subrange(q0, q0 + 1));
        match self.json_whitespace() {
            Ok(()) => {},
            Err(e) => return Err(e),
        }
        proof {
            lemma_ws_end(s, q0 + 1);
            lemma_body_grow(s, q0, q0 + 1, self.position as int, old(self).body@, body1, self.body@);
            lemma_kept_plain(s, q0, self.position as int, n0);
        }
        proof {
            lemma_payloads_none(s, self.output@, self.spans@);
        }
        if self.peek() == Some(93u8) {
            let ghost r0 = self.position as int;
            let ghost body_r = self.body@;
            return match self.take() {
                Ok(_) => {
                    proof {
                        assert(self.body@ =~= body_r + s.subrange(r0, r0 + 1));
                        lemma_kept_extend(s, n0, q0, r0, r0 + 1, Seq::empty(), old(self).body@, body_r, self.body@);
                    }
                    Ok(())
                },
                Err(e) => Err(e),
            };
        }
        let ghost mut acc: Seq<int> = Seq::empty();
        assert(acc + elements_payloads(s, self.position as int, depth as int) =~= elements_payloads(
            s,
            self.position as int,
            depth as int,
        ));
        loop
            invariant
                self.decoded_from(old(self), acc),
                self.kept_since(old(self), acc),
                n0 == old(self).spans@.len(),
                array_payloads(s, q0, depth as int) == acc + elements_payloads(
                    s,
                    self.position as int,
                    depth as int,
                ),
                self.step_ok(old(self)),
                self.settled(),
                self.position > old(self).position,
                depth < 128,
                s == self.input@,
                q0 == old(self).position,
                scan_array(s, q0, depth as int) == scan_elements(s, self.position as int, depth as int),
            decreases self.input@.len() - self.position,
        {
            let ghost p = self.position as int;
            let ghost out_p = self.output@;
            let ghost spans_p = self.spans@;
            let ghost here = value_payloads(s, p, depth + 1);
            let ghost body_p = self.body@;
            proof {
                if scan_array(s, q0, depth as int) is Some {
                    let eo = scan_elements(s, p, depth as int)->0;
                    lemma_element_kept(s, p, depth as int, self.spans@.len());
                    lemma_elements_laid(s, p, depth as int);
                    lemma_kept_len(s, q0, p, eo, acc, elements_payloads(s, p, depth as int), n0);
                }
            }
            match self.json_value(depth + 1) {
                Ok(()) => {},
                Err(e) => return Err(e),
            }
            proof {
                lemma_kept_step(s, n0, q0, p, self.position as int, acc, here, old(self).body@, body_p, self.body@);
                lemma_payloads_chain(
                    s,
                    old(self).output@,
                    old(self).spans@,
                    out_p,
                    spans_p,
                    self.output@,
                    self.spans@,
                    acc,
                    here,
                );
            }
            let ghost e = self.position as int;
            let ghost body_e = self.body@;
            match self.json_whitespace() {
                Ok(()) => {},
                Err(e) => return Err(e),
            }
            proof {
                lemma_ws_end(s, e);
            }
            let ghost f = self.position as int;
            let ghost body_f = self.body@;
            match self.required(true) {
                Ok(c) => {
                    proof {
                        assert(self.body@ =~= body_f + s.subrange(f, f + 1));
                        lemma_body_grow(s, e, f, f + 1, body_e, body_f, self.body@);
                        lemma_kept_extend(s, n0, q0, e, f + 1, acc + here, old(self).body@, body_e, self.body@);
                    }
                    if c == 93u8 {
                        proof {
                            assert(elements_payloads(s, p, depth as int) == here);
                        }
                        return Ok(());
                    } else if c != 44u8 {
                        return Err(invalid("expected attachment JSON array delimiter"));
                    }
                },
                Err(e) => return Err(e),
            }
            proof {
                let rest = elements_payloads(s, self.position as int, depth as int);
                assert(elements_payloads(s, p, depth as int) == here + rest);
                assert(acc + (here + rest) =~= (acc + here) + rest);
                acc = acc + here;
            }
            assert(self.position > p);
        }
    }

    /// Scans (and retains) a JSON string and gives its decoded bytes.
    pub fn json_string(&mut self) -> (r: Result<Vec<u8>, BzrError>)
        requires
            old(self).inv(),
            old(self).settled(),
        ensures
            final(self).step_ok(old(self)),
            r is Ok ==> final(self).settled(),
            r is Ok ==> final(self).position > old(self).position,
            old(self).next_byte() != Some(34u8) ==> r is Err,
            r matches Ok(v) ==> scan_string(old(self).input@, old(self).position as int) == Some(
                (final(self).position as int, v@),
            ),
            r matches Err(e) ==> e is ResponseTooLarge || scan_string(
                old(self).input@,
                old(self).position as int,
            ) is None,
            r is Ok ==> final(self).body@ == old(self).body@ + old(self).input@.subrange(
                old(self).position as int,
                final(self).position as int,
            ),
            r matches Err(e) ==> (e is ResponseTooLarge && scan_string(old(self).input@, old(self).position as int)
                is Some ==> old(self).body@.len() + (string_end(old(self).input@, old(self).position as int)
                - old(self).position) > old(self).limit),
            final(self).same_sink(old(self)),
    {
        let ghost s = self.input@;
        let ghost p0 = self.position as int;
        proof {
            if scan_string(s, p0) is Some {
                lemma_string_close_bounds(s, p0 + 1);
            }
        }
        let start = self.body.len();
        match self.required(true) {
            Ok(c) => {
                if c != 34u8 {
                    return Err(invalid("expected JSON string"));
                }
            },
            Err(e) => return Err(e),
        }
        assert(s.subrange(p0, p0 + 1) =~= seq![34u8]);
        loop
            invariant_except_break
                string_close(s, p0 + 1) == string_close(s, self.position as int),
            invariant
                self.step_ok(old(self)),
                self.same_sink(old(self)),
                self.settled(),
                self.position > old(self).position,
                start <= self.body@.len(),
                s == self.input@,
                p0 == old(self).position,
                0 <= p0 < s.len(),
                s[p0] == 34u8,
                self.body@.subrange(start as int, self.body@.len() as int) == s.subrange(
                    p0,
                    self.position as int,
                ),
                self.body@ == old(self).body@ + s.subrange(p0, self.position as int),
            ensures
                self.body@ == old(self).body@ + s.subrange(p0, self.position as int),
                self.step_ok(old(self)),
                self.same_sink(old(self)),
                self.settled(),
                self.position > old(self).position,
                start <= self.body@.len(),
                string_close(s, p0 + 1) == Some(self.position as int),
                self.body@.subrange(start as int, self.body@.len() as int) == s.subrange(
                    p0,
                    self.position as int,
                ),
            decreases self.input@.len() - self.position,
        {
            let ghost x = self.position as int;
            let ghost body_before = self.body@;
            proof {
                if string_close(s, x) is Some {
                    lemma_string_close_bounds(s, x);
                    if x + 2 <= s.len() && string_close(s, x + 2) is Some {
                        lemma_string_close_bounds(s, x + 2);
                    }
                }
            }
            match self.required(true) {
                Ok(c) => {
                    assert(self.body@.subrange(start as int, self.body@.len() as int) =~= s.subrange(
                        p0,
                        self.position as int,
                    )) by {
                        assert(s.subrange(p0, x + 1) =~= s.subrange(p0, x).push(c));
                        assert(self.body@ == body_before.push(c));
                        assert(body_before.subrange(start as int, body_before.len() as int) == s.subrange(p0, x));
                    }
                    assert(self.body@ =~= old(self).body@ + s.subrange(p0, self.position as int)) by {
                        assert(s.subrange(p0, x + 1) =~= s.subrange(p0, x).push(c));
                    }
                    if c == 34u8 {
                        break;
                    } else if c == 92u8 {
                        let ghost body_mid = self.body@;
                        match self.required(true) {
                            Ok(d) => {
                                assert(s.subrange(p0, x + 2) =~= s.subrange(p0, x + 1).push(d));
                                assert(self.body@.subrange(start as int, self.body@.len() as int)
                                    =~= s.subrange(p0, self.position as int));
                                assert(self.body@ =~= old(self).body@ + s.subrange(p0, self.position as int));
                            },
                            Err(e) => return Err(e),
                        }
                    }
                },
                Err(e) => return Err(e),
            }
        }
        let token = copy_range(&self.body, start, self.body.len());
        match decode_json_string(token.as_slice()) {
            Some(v) => Ok(v),
            None => Err(invalid("invalid attachment JSON string")),
        }
    }

    /// Decodes one escape sequence of payload text (its backslash already
    /// consumed) and feeds the characters it stands for to `decoder`.
    pub fn json_escape(&mut self, decoder: &mut Decoder, offset: u64) -> (r: Result<(), BzrError>)
        requires
            old(self).inv(),
            super::spans_end(old(self).spans@) == offset,
            offset <= old(self).output@.len(),
            old(decoder).inv(),
            old(self).output@.len() + old(decoder).pending@.len() + 1 <= old(self).position,
        ensures
            final(self).inv(),
            final(self).advanced_from(old(self)),
            final(self).spans@ == old(self).spans@,
            final(decoder).inv(),
            final(self).output@.len() + final(decoder).pending@.len() <= final(self).position,
            r is Ok ==> final(self).position > old(self).position,
            r is Ok ==> escape_step(old(self).input@, old(self).position as int) == Some(
                final(self).position as int,
            ),
            r is Err ==> escape_step(old(self).input@, old(self).position as int) is None,
            final(self).body@ == old(self).body@,
            r is Ok ==> ({
                let (p, pd, e, o) = super::decode_run(
                    old(decoder).pending@,
                    old(decoder).padded,
                    old(decoder).error_view(),
                    escape_text(old(self).input@, old(self).position as int),
                );
                &&& final(decoder).pending@ == p
                &&& final(decoder).padded == pd
                &&& final(decoder).error_view() == e
                &&& final(self).output@ == old(self).output@ + o
            }),
    {
        let ghost s = self.input@;
        let ghost x = self.position as int;
        let escaped = match self.required(false) {
            Ok(e) => e,
            Err(e) => return Err(e),
        };
        let mut token: Vec<u8> = Vec::new();
        token.push(34u8);
        token.push(92u8);
        token.push(escaped);
        let mut consumed: usize = 2;
        if escaped == 117u8 {
            let mut k: usize = 0;
            while k < 4
                invariant
                    self.inv(),
                    self.advanced_from(old(self)),
                    self.spans@ == old(self).spans@,
                    self.position > old(self).position,
                    decoder.inv(),
                    self.body@ == old(self).body@,
                    self.output@ == old(self).output@,
                    decoder == old(decoder),
                    k <= 4,
                    token@.len() == 3 + k,
                    consumed == 2 + k,
                    self.output@.len() + decoder.pending@.len() + consumed <= self.position,
                    s == self.input@,
                    x == old(self).position,
                    0 <= x < s.len(),
                    s[x] == 117u8,
                    self.position == x + 1 + k,
                    x + 1 + k <= s.len(),
                    token@ == seq![34u8, 92u8] + s.subrange(x, x + 1 + k),
                decreases 4 - k,
            {
                let ghost before = token@;
                match self.required(false) {
                    Ok(h) => {
                        token.push(h);
                        assert(s.subrange(x, x + 2 + k) =~= s.subrange(x, x + 1 + k).push(h));
                        assert(token@ =~= seq![34u8, 92u8] + s.subrange(x, x + 2 + k));
                    },
                    Err(e) => return Err(e),
                }
                k = k + 1;
                consumed = consumed + 1;
            }
            token.push(34u8);
            assert(token@ =~= seq![34u8, 92u8] + s.subrange(x, x + 5) + seq![34u8]);
        } else {
            token.push(34u8);
            assert(token@ =~= seq![34u8, 92u8, s[x], 34u8]);
        }
        assert(token@.len() == consumed + 2);
        let decoded = match decode_json_string(token.as_slice()) {
            Some(d) => d,
            None => return Err(invalid("invalid JSON escape in attachment data")),
        };
        let ghost after = self.position;
        proof {
            assert(escape_step(s, x) == Some(after as int));
            assert(token@ == escape_token(s, x));
            assert(decoded@ == escape_text(s, x));
        }
        let mut j: usize = 0;
        while j < decoded.len()
            invariant
                ({
                    let (p, pd, e, o) = super::decode_run(
                        old(decoder).pending@,
                        old(decoder).padded,
                        old(decoder).error_view(),
                        decoded@.take(j as int),
                    );
                    &&& decoder.pending@ == p
                    &&& decoder.padded == pd
                    &&& decoder.error_view() == e
                    &&& self.output@ == old(self).output@ + o
                }),
                decoded@ == escape_text(s, x),
                x == old(self).position,
                self.body@ == old(self).body@,
                self.position == after,
                self.input@ == s,
                self.inv(),
                self.advanced_from(old(self)),
                self.spans@ == old(self).spans@,
                self.position > old(self).position,
                decoder.inv(),
                j <= decoded@.len(),
                self.output@.len() + decoder.pending@.len() + (decoded@.len() - j) <= self.position,
            decreases decoded@.len() - j,
        {
            let ghost before_out = self.output@;
            let ghost (p0, pd0, e0, o0) = super::decode_run(
                old(decoder).pending@,
                old(decoder).padded,
                old(decoder).error_view(),
                decoded@.take(j as int),
            );
            proof {
                assert(decoded@.take(j + 1) =~= decoded@.take(j as int) + seq![decoded@[j as int]]);
                super::lemma_decode_run_concat(
                    old(decoder).pending@,
                    old(decoder).padded,
                    old(decoder).error_view(),
                    decoded@.take(j as int),
                    seq![decoded@[j as int]],
                );
                super::lemma_decode_run_one(p0, pd0, e0, decoded@[j as int]);
            }
            decoder.push(decoded[j], self);
            proof {
                let (p1, pd1, e1, o1) = super::decode_step(p0, pd0, e0, decoded@[j as int]);
                assert(self.output@ == before_out + o1);
                assert(before_out == old(self).output@ + o0);
                assert(old(self).output@ + o0 + o1 =~= old(self).output@ + (o0 + o1));
            }
            j = j + 1;
        }
        assert(decoded@.take(j as int) =~= decoded@);
        Ok(())
    }

    /// Streams a JSON string whose `"` is next as a payload: its decoded
    /// characters go through a fresh base64 decoder, its span is recorded, and
    /// the body keeps the quotes around the span's marker.
    #[verifier::rlimit(100)]
    #[verifier::spinoff_prover]
    pub fn json_payload(&mut self) -> (r: Result<(), BzrError>)
        requires
            old(self).inv(),
            old(self).settled(),
            old(self).next_byte() == Some(34u8),
        ensures
            final(self).step_ok(old(self)),
            r is Ok ==> final(self).settled(),
            r is Ok ==> final(self).position > old(self).position,
            r is Ok ==> final(self).spans@.len() == old(self).spans@.len() + 1,
            r is Ok ==> payload_close(old(self).input@, old(self).position + 1) == Some(
                final(self).position as int,
            ),
            r matches Err(e) ==> e is ResponseTooLarge || payload_close(
                old(self).input@,
                old(self).position + 1,
            ) is None,
            r is Ok ==> ({
                let (p, pd, e, o) = payload_decoding(old(self).input@, old(self).position + 1);
                let n = old(self).spans@.len();
                &&& final(self).output@ == old(self).output@ + o
                &&& final(self).spans@.take(n as int) == old(self).spans@
                &&& final(self).spans@[n as int].offset == old(self).output@.len()
                &&& final(self).spans@[n as int].length == o.len()
                &&& super::opt_text(final(self).spans@[n as int].error) == payload_error(p, e)
                &&& final(self).body@ == old(self).body@ + seq![34u8] + super::marker_for(n as nat)
                    + seq![34u8]
            }),
            r is Ok ==> final(self).decoded_from(old(self), seq![old(self).position as int]),
            r is Ok ==> final(self).kept_since(old(self), seq![old(self).position as int]),
            r matches Err(e) ==> (e is ResponseTooLarge && payload_close(old(self).input@, old(self).position + 1)
                is Some ==> old(self).body@.len() + 2 + super::marker_for(old(self).spans@.len() as nat).len()
                > old(self).limit),
    {
        let ghost s = self.input@;
        let ghost q = self.position as int;
        let ghost total = payload_decoding(s, q + 1);
        match self.take() {
            Ok(_) => {},
            Err(e) => return Err(e),
        }
        let ghost opened = self.body@;
        let offset = self.output.len() as u64;
        let mut decoder = Decoder::new();
        assert(self.output@.skip(offset as int) + total.3 =~= total.3);
        assert(decoder.pending@ =~= Seq::<u8>::empty());
        assert(self.position == q + 1);
        loop
            invariant_except_break
                payload_close(s, q + 1) == payload_close(s, self.position as int),
                ({
                    let (p, pd, e, o) = super::decode_run(
                        decoder.pending@,
                        decoder.padded,
                        decoder.error_view(),
                        payload_text(s, self.position as int),
                    );
                    &&& p == total.0
                    &&& pd == total.1
                    &&& e == total.2
                    &&& self.output@.skip(offset as int) + o == total.3
                }),
            invariant
                total == payload_decoding(s, q + 1),
                opened == old(self).body@.push(34u8),
                self.body@ == opened,
                offset == old(self).output@.len(),
                self.output@.take(offset as int) == old(self).output@,
                self.inv(),
                self.advanced_from(old(self)),
                self.spans@ == old(self).spans@,
                super::spans_end(self.spans@) == offset,
                offset <= self.output@.len(),
                self.position > old(self).position,
                decoder.inv(),
                self.output@.len() + decoder.pending@.len() <= self.position,
                s == self.input@,
                q == old(self).position,
            ensures
                self.inv(),
                self.advanced_from(old(self)),
                self.spans@ == old(self).spans@,
                super::spans_end(self.spans@) == offset,
                offset <= self.output@.len(),
                self.position > old(self).position,
                decoder.inv(),
                self.output@.len() + decoder.pending@.len() <= self.position,
                payload_close(s, q + 1) == Some(self.position as int),
                decoder.pending@ == total.0,
                decoder.error_view() == total.2,
                self.output@.skip(offset as int) == total.3,
            decreases self.input@.len() - self.position,
        {
            let ghost x = self.position as int;
            let ghost out0 = self.output@;
            let ghost (p0, pd0, e0) = (decoder.pending@, decoder.padded, decoder.error_view());
            let c = match self.required(false) {
                Ok(c) => c,
                Err(e) => return Err(e),
            };
            if c == 34u8 {
                proof {
                    assert(payload_text(s, x) =~= Seq::<u8>::empty());
                    assert(self.output@.skip(offset as int) + Seq::<u8>::empty() =~= self.output@.skip(
                        offset as int,
                    ));
                }
                break;
            } else if c == 92u8 {
                match self.json_escape(&mut decoder, offset) {
                    Ok(()) => {},
                    Err(e) => return Err(e),
                }
                proof {
                    let n = self.position as int;
                    let esc = escape_text(s, x + 1);
                    assert(payload_text(s, x) == esc + payload_text(s, n));
                    super::lemma_decode_run_concat(p0, pd0, e0, esc, payload_text(s, n));
                    let (p1, pd1, e1, o1) = super::decode_run(p0, pd0, e0, esc);
                    assert(self.output@ == out0 + o1);
                    lemma_skip_append(out0, o1, offset as int);
                }
            } else if c < 32u8 {
                return Err(invalid("unescaped control in attachment JSON data"));
            } else {
                proof {
                    assert(payload_text(s, x) == seq![c] + payload_text(s, x + 1));
                    super::lemma_decode_run_concat(p0, pd0, e0, seq![c], payload_text(s, x + 1));
                    super::lemma_decode_run_one(p0, pd0, e0, c);
                }
                decoder.push(c, self);
                proof {
                    let (p1, pd1, e1, o1) = super::decode_step(p0, pd0, e0, c);
                    lemma_skip_append(out0, o1, offset as int);
                }
            }
        }
        let ghost n = self.spans@.len();
        let ghost out = self.output@;
        match self.finish_payload(decoder, offset) {
            Ok(()) => {},
            Err(e) => return Err(e),
        }
        proof {
            assert(out =~= old(self).output@ + total.3) by {
                assert(out =~= out.take(offset as int) + out.skip(offset as int));
            }
        }
        match self.retain(&[34u8]) {
            Ok(()) => {
                proof {
                    assert([34u8]@ =~= seq![34u8]);
                    assert(opened =~= old(self).body@ + seq![34u8]);
                    assert(self.spans@[n as int] == self.spans@.last());
                    assert(self.output@.subrange(offset as int, self.output@.len() as int) =~= total.3);
                    assert(self.output@.take(offset as int) =~= old(self).output@);
                    let starts = seq![q];
                    assert(payload_span(s, self.output@, self.spans@[n as int + 0], starts[0]));
                    let c = self.position as int;
                    assert(laid_out(s, q, c, starts) && self.body@ =~= old(self).body@ + kept_from(
                        s,
                        q,
                        c,
                        starts,
                        n,
                    )) by {
                        reveal(laid_out);
                        reveal(kept_from);
                        assert(starts.drop_first() =~= Seq::<int>::empty());
                        assert(laid_out(s, c, c, Seq::empty()));
                        assert(kept_from(s, c, c, Seq::empty(), n + 1) =~= Seq::<u8>::empty());
                        assert(s.subrange(q, q) =~= Seq::<u8>::empty());
                    }
                }
                Ok(())
            },
            Err(e) => Err(e),
        }
    }
}

} // verus!
