//! Extraction of attachment payloads from a Bugzilla response body.
//!
//! The response is read once. Everything but the base64 payloads of the
//! attachments is retained, within a byte budget, as the metadata body; each
//! payload is decoded into a separate output buffer and replaced in the body by
//! a marker that names its span of that buffer.

pub mod codec;
pub mod json;
pub mod rpc;
pub mod xml;

use vstd::prelude::*;

use crate::error::{invalid, BzrError};
use self::codec::{base64_decode_spec, base64_encode_spec, decode_base64, base64_quartet_spec, decode_quartet, encode_base64};

verus! {

/// The two response encodings an attachment body can come in.
#[derive(Debug)]
pub enum Protocol {
    Json,
    Xml,
}

/// Where one decoded payload lies in the output buffer, and why it could not
/// be decoded when it could not.
#[derive(Debug)]
pub struct Span {
    pub offset: u64,
    pub length: u64,
    pub error: Option<String>,
}

/// The end of the last span: where the next one begins.
pub open spec fn spans_end(spans: Seq<Span>) -> nat {
    if spans.len() == 0 {
        0
    } else {
        (spans.last().offset + spans.last().length) as nat
    }
}

/// Spans follow each other without gap or overlap from offset zero.
pub open spec fn spans_contiguous(spans: Seq<Span>) -> bool {
    &&& spans.len() > 0 ==> spans[0].offset == 0
    &&& forall|i: int|
        #![trigger spans[i]]
        0 < i < spans.len() ==> spans[i].offset == spans[i - 1].offset + spans[i - 1].length
}

/// The bytes "bzr-payload-" that open every decoded marker.
pub open spec fn marker_prefix() -> Seq<u8> {
    seq![98u8, 122, 114, 45, 112, 97, 121, 108, 111, 97, 100, 45]
}

/// The ASCII decimal digits of `n`, most significant first, without leading zeros.
pub open spec fn decimal_bytes(n: nat) -> Seq<u8>
    decreases n,
{
    if n < 10 {
        seq![(48 + n) as u8]
    } else {
        decimal_bytes(n / 10).push((48 + n % 10) as u8)
    }
}

/// The text a marker decodes to: "bzr-payload-" and the span's index.
pub open spec fn marker_text(index: nat) -> Seq<u8> {
    marker_prefix() + decimal_bytes(index)
}

/// The marker that stands in the body for the payload of span `index`.
pub open spec fn marker_for(index: nat) -> Seq<u8> {
    base64_encode_spec(marker_text(index))
}

/// The markers of the first `count` spans decode back to their texts.
pub open spec fn markers_decode(count: nat) -> bool {
    forall|i: nat| i < count ==> #[trigger] base64_decode_spec(marker_for(i)) == Some(marker_text(i))
}

pub open spec fn is_byte_digit(b: u8) -> bool {
    48 <= b && b <= 57
}

/// The number that a sequence of ASCII decimal digits denotes.
pub open spec fn byte_decimal_value(s: Seq<u8>) -> nat
    decreases s.len(),
{
    if s.len() == 0 {
        0
    } else {
        byte_decimal_value(s.drop_last()) * 10 + (s.last() - 48) as nat
    }
}

/// The digits of an unsigned number without its optional leading `+`.
pub open spec fn usize_digits(s: Seq<u8>) -> Seq<u8> {
    if s.len() > 0 && s[0] == 43u8 {
        s.drop_first()
    } else {
        s
    }
}

/// What `str::parse::<usize>` gives for ASCII text: an optional `+`, then one
/// or more decimal digits whose value fits in `usize`.
pub open spec fn parse_usize_bytes(s: Seq<u8>) -> Option<nat> {
    let d = usize_digits(s);
    if d.len() > 0 && (forall|i: int| 0 <= i < d.len() ==> #[trigger] is_byte_digit(d[i]))
        && byte_decimal_value(d) <= usize::MAX {
        Some(byte_decimal_value(d))
    } else {
        None
    }
}

/// The span index that a decoded marker names, if it names one.
pub open spec fn marker_index(text: Seq<u8>) -> Option<nat> {
    if text.len() >= 12 && text.take(12) == marker_prefix() {
        parse_usize_bytes(text.skip(12))
    } else {
        None
    }
}

/// The text of an optional message.
pub open spec fn opt_text(e: Option<String>) -> Option<Seq<char>> {
    match e {
        Some(m) => Some(m@),
        None => None,
    }
}

/// The state of a reader part-way through a response.
pub struct Reader {
    pub input: Vec<u8>,
    pub position: usize,
    pub body: Vec<u8>,
    pub limit: u64,
    pub output: Vec<u8>,
    pub spans: Vec<Span>,
}

impl Reader {
    /// Position within the input, retained body within budget, output within
    /// the range of `u64`, and spans contiguous up to at most the output's end.
    pub open spec fn inv(&self) -> bool {
        &&& self.position <= self.input@.len()
        &&& self.body@.len() <= self.limit
        &&& self.output@.len() <= self.position
        &&& spans_contiguous(self.spans@)
        &&& spans_end(self.spans@) <= self.output@.len()
        &&& markers_decode(self.spans@.len())
    }

    /// No payload is open: the spans cover the output exactly.
    pub open spec fn settled(&self) -> bool {
        spans_end(self.spans@) == self.output@.len()
    }

    /// The byte at the reading position, if any is left.
    pub open spec fn next_byte(&self) -> Option<u8> {
        if self.position < self.input@.len() {
            Some(self.input@[self.position as int])
        } else {
            None
        }
    }

    /// What stays the same when a step only moves through the input.
    pub open spec fn same_sink(&self, other: &Reader) -> bool {
        &&& self.input@ == other.input@
        &&& self.limit == other.limit
        &&& self.output@ == other.output@
        &&& self.spans@ == other.spans@
    }

    /// This reader is `other` later on: same input and limit, not behind it,
    /// with no less output and no fewer spans.
    pub open spec fn advanced_from(&self, other: &Reader) -> bool {
        &&& self.input@ == other.input@
        &&& self.limit == other.limit
        &&& other.position <= self.position
        &&& other.output@.len() <= self.output@.len()
        &&& other.spans@.len() <= self.spans@.len()
    }

    /// A reader at the start of `input` with nothing retained or decoded.
    pub fn new(input: Vec<u8>, limit: u64) -> (r: Reader)
        ensures
            r.inv(),
            r.settled(),
            r.input@ == input@,
            r.position == 0,
            r.limit == limit,
            r.body@.len() == 0,
            r.output@.len() == 0,
            r.spans@.len() == 0,
    {
        Reader { input, position: 0, body: Vec::new(), limit, output: Vec::new(), spans: Vec::new() }
    }

    /// The next byte without consuming it.
    pub fn peek(&self) -> (r: Option<u8>)
        requires
            self.inv(),
        ensures
            r == self.next_byte(),
    {
        if self.position < self.input.len() {
            Some(self.input[self.position])
        } else {
            None
        }
    }

    /// The next byte, consumed without being retained.
    pub fn raw(&mut self) -> (r: Option<u8>)
        requires
            old(self).inv(),
        ensures
            final(self).inv(),
            r == old(self).next_byte(),
            final(self).position == old(self).position + if r is Some { 1int } else { 0 },
            final(self).body@ == old(self).body@,
            final(self).same_sink(old(self)),
    {
        if self.position < self.input.len() {
            let b = self.input[self.position];
            self.position = self.position + 1;
            Some(b)
        } else {
            None
        }
    }

    /// Appends `bytes` to the retained body, refusing when the body would
    /// outgrow its budget.
    pub fn retain(&mut self, bytes: &[u8]) -> (r: Result<(), BzrError>)
        requires
            old(self).inv(),
        ensures
            final(self).inv(),
            final(self).position == old(self).position,
            final(self).same_sink(old(self)),
            r is Ok <==> old(self).body@.len() + bytes@.len() <= old(self).limit,
            r is Ok ==> final(self).body@ == old(self).body@ + bytes@,
            r is Err ==> final(self).body@ == old(self).body@,
            r matches Err(e) ==> e is ResponseTooLarge,
    {
        if bytes.len() as u64 > self.limit || self.body.len() as u64 > self.limit - bytes.len() as u64 {
            return Err(BzrError::ResponseTooLarge {
                operation: String::from_str("attachment response metadata"),
                limit_bytes: self.limit,
                status: None,
            });
        }
        let mut i: usize = 0;
        while i < bytes.len()
            invariant
                0 <= i <= bytes@.len(),
                self.body@ == old(self).body@ + bytes@.take(i as int),
                old(self).body@.len() + bytes@.len() <= self.limit,
                self.position == old(self).position,
                self.same_sink(old(self)),
            decreases bytes@.len() - i,
        {
            self.body.push(bytes[i]);
            i = i + 1;
            assert(bytes@.take(i as int) =~= bytes@.take(i - 1).push(bytes@[i - 1]));
        }
        assert(bytes@.take(i as int) =~= bytes@);
        Ok(())
    }

    /// The next byte, consumed and retained.
    pub fn take(&mut self) -> (r: Result<Option<u8>, BzrError>)
        requires
            old(self).inv(),
        ensures
            final(self).inv(),
            final(self).same_sink(old(self)),
            r matches Ok(b) ==> b == old(self).next_byte(),
            r matches Ok(b) ==> final(self).position == old(self).position + if b is Some { 1int } else { 0 },
            r matches Ok(Some(b)) ==> final(self).body@ == old(self).body@.push(b),
            r matches Ok(None) ==> final(self).body@ == old(self).body@,
            r is Err ==> old(self).next_byte() is Some && old(self).body@.len() + 1 > old(self).limit,
            r is Err ==> final(self).position <= old(self).position + 1,
            r matches Err(e) ==> e is ResponseTooLarge,
            final(self).position >= old(self).position,
    {
        let byte = self.raw();
        match byte {
            Some(b) => {
                let one = [b];
                match self.retain(&one) {
                    Ok(()) => {
                        assert(one@ =~= seq![b]);
                        Ok(Some(b))
                    },
                    Err(e) => Err(e),
                }
            },
            None => Ok(None),
        }
    }

    /// The next byte, consumed (and retained when `keep`); the end of the
    /// input here is a truncated response.
    pub fn required(&mut self, keep: bool) -> (r: Result<u8, BzrError>)
        requires
            old(self).inv(),
        ensures
            final(self).inv(),
            final(self).same_sink(old(self)),
            old(self).next_byte() is None ==> r is Err,
            r matches Ok(b) ==> old(self).next_byte() == Some(b),
            r is Ok ==> final(self).position == old(self).position + 1,
            r matches Ok(b) ==> final(self).body@ == if keep {
                old(self).body@.push(b)
            } else {
                old(self).body@
            },
            final(self).position <= old(self).position + 1,
            final(self).position >= old(self).position,
            final(self).body@.len() <= old(self).body@.len() + 1,
            !keep ==> final(self).body@ == old(self).body@,
            r matches Err(e) ==> e is ResponseTooLarge || old(self).next_byte() is None,
            !keep ==> (r is Err <==> old(self).next_byte() is None),
            r is Err ==> old(self).next_byte() is None || (keep && old(self).body@.len() + 1 > old(self).limit),
    {
        let byte = if keep {
            match self.take() {
                Ok(b) => b,
                Err(e) => return Err(e),
            }
        } else {
            self.raw()
        };
        match byte {
            Some(b) => Ok(b),
            None => Err(invalid("truncated attachment response")),
        }
    }

    /// Closes the payload that began at `offset`: records its span (with the
    /// decoder's error, or a dangling-quartet error) and retains its marker.
    pub fn finish_payload(&mut self, decoder: Decoder, offset: u64) -> (r: Result<(), BzrError>)
        requires
            old(self).inv(),
            spans_end(old(self).spans@) == offset,
            offset <= old(self).output@.len(),
        ensures
            final(self).inv(),
            final(self).position == old(self).position,
            final(self).input@ == old(self).input@,
            final(self).limit == old(self).limit,
            final(self).output@ == old(self).output@,
            r is Err ==> final(self).spans@ == old(self).spans@,
            r is Err <==> old(self).body@.len() + marker_for(old(self).spans@.len() as nat).len() > old(self).limit,
            r matches Err(e) ==> e is ResponseTooLarge,
            r is Ok ==> {
                &&& final(self).settled()
                &&& base64_decode_spec(marker_for(old(self).spans@.len() as nat)) == Some(
                    marker_text(old(self).spans@.len() as nat),
                )
                &&& final(self).spans@.len() == old(self).spans@.len() + 1
                &&& final(self).spans@.take(old(self).spans@.len() as int) == old(self).spans@
                &&& final(self).spans@.last().offset == offset
                &&& final(self).spans@.last().length == old(self).output@.len() - offset
                &&& opt_text(final(self).spans@.last().error) == if decoder.pending@.len() != 0
                    && decoder.error is None {
                    Some("incomplete base64 quartet"@)
                } else {
                    decoder.error_view()
                }
                &&& final(self).body@ == old(self).body@ + marker_for(old(self).spans@.len() as nat)
            },
    {
        let mut error = decoder.error;
        if decoder.pending.len() != 0 && error.is_none() {
            error = Some(String::from_str("incomplete base64 quartet"));
        }
        let text = marker_text_bytes(self.spans.len());
        let marker = encode_base64(text.as_slice());
        match self.retain(marker.as_slice()) {
            Ok(()) => {},
            Err(e) => return Err(e),
        }
        let length = self.output.len() as u64 - offset;
        let ghost before = self.spans@;
        assert(markers_decode((before.len() + 1) as nat)) by {
            assert forall|i: nat| i < before.len() + 1 implies #[trigger] base64_decode_spec(
                marker_for(i),
            ) == Some(marker_text(i)) by {
                if i < before.len() {
                    assert(markers_decode(before.len() as nat));
                }
            }
        }
        let span = Span { offset, length, error };
        proof {
            lemma_push_span(before, span);
        }
        self.spans.push(span);
        assert(self.spans@.take(before.len() as int) =~= before);
        Ok(())
    }
}

/// Appending a span that starts where the others end keeps them contiguous.
pub proof fn lemma_push_span(spans: Seq<Span>, span: Span)
    requires
        spans_contiguous(spans),
        span.offset == spans_end(spans),
    ensures
        spans_contiguous(spans.push(span)),
        spans_end(spans.push(span)) == span.offset + span.length,
{
    let s = spans.push(span);
    assert forall|i: int| #![trigger s[i]] 0 < i < s.len() implies s[i].offset == s[i - 1].offset
        + s[i - 1].length by {
        if i < spans.len() {
            assert(s[i] == spans[i] && s[i - 1] == spans[i - 1]);
        }
    }
}

/// "bzr-payload-" followed by the decimal digits of `index`.
pub fn marker_text_bytes(index: usize) -> (r: Vec<u8>)
    ensures
        r@ == marker_text(index as nat),
{
    let mut r: Vec<u8> = Vec::new();
    r.push(98u8);
    r.push(122u8);
    r.push(114u8);
    r.push(45u8);
    r.push(112u8);
    r.push(97u8);
    r.push(121u8);
    r.push(108u8);
    r.push(111u8);
    r.push(97u8);
    r.push(100u8);
    r.push(45u8);
    assert(r@ =~= marker_prefix());
    let digits = decimal_digits(index as u64);
    let ghost prefix = r@;
    let mut i: usize = 0;
    while i < digits.len()
        invariant
            i <= digits@.len(),
            prefix == marker_prefix(),
            r@ == prefix + digits@.take(i as int),
        decreases digits@.len() - i,
    {
        r.push(digits[i]);
        i = i + 1;
        assert(digits@.take(i as int) =~= digits@.take(i - 1).push(digits@[i - 1]));
    }
    assert(digits@.take(i as int) =~= digits@);
    r
}

/// The ASCII decimal digits of `n`.
pub fn decimal_digits(n: u64) -> (r: Vec<u8>)
    ensures
        r@ == decimal_bytes(n as nat),
    decreases n,
{
    if n < 10 {
        let mut r: Vec<u8> = Vec::new();
        r.push((48 + n) as u8);
        assert(r@ =~= seq![(48 + n) as u8]);
        r
    } else {
        let mut r = decimal_digits(n / 10);
        r.push((48 + n % 10) as u8);
        r
    }
}

/// The state of the base64 decoder for one payload: the pending part of the
/// current quartet, whether padding has been seen, and the first error.
pub struct Decoder {
    pub pending: Vec<u8>,
    pub padded: bool,
    pub error: Option<String>,
}

/// One step of the decoder on `byte`: its pending quartet, padding flag and
/// error afterwards, and the bytes it emits.
pub open spec fn decode_step(pending: Seq<u8>, padded: bool, error: Option<Seq<char>>, byte: u8)
    -> (Seq<u8>, bool, Option<Seq<char>>, Seq<u8>)
{
    if error is Some {
        (pending, padded, error, Seq::empty())
    } else if padded {
        (pending, padded, Some("data after base64 padding"@), Seq::empty())
    } else {
        let q = pending.push(byte);
        if q.len() < 4 {
            (q, padded, error, Seq::empty())
        } else {
            match base64_quartet_spec(q) {
                Ok(v) => (Seq::empty(), q.contains(61u8), error, v),
                Err(e) => (Seq::empty(), padded, Some(e), Seq::empty()),
            }
        }
    }
}

/// The decoder run over `bytes` from the given state: its state afterwards
/// and everything it emitted, in order.
pub open spec fn decode_run(pending: Seq<u8>, padded: bool, error: Option<Seq<char>>, bytes: Seq<u8>)
    -> (Seq<u8>, bool, Option<Seq<char>>, Seq<u8>)
    decreases bytes.len(),
{
    if bytes.len() == 0 {
        (pending, padded, error, Seq::empty())
    } else {
        let (p, pd, e, o) = decode_step(pending, padded, error, bytes[0]);
        let (p2, pd2, e2, o2) = decode_run(p, pd, e, bytes.drop_first());
        (p2, pd2, e2, o + o2)
    }
}

/// Running the decoder over `a + b` is running it over `a`, then over `b`
/// from where `a` left it.
pub proof fn lemma_decode_run_concat(
    pending: Seq<u8>,
    padded: bool,
    error: Option<Seq<char>>,
    a: Seq<u8>,
    b: Seq<u8>,
)
    ensures
        ({
            let (p1, pd1, e1, o1) = decode_run(pending, padded, error, a);
            let (p2, pd2, e2, o2) = decode_run(p1, pd1, e1, b);
            decode_run(pending, padded, error, a + b) == (p2, pd2, e2, o1 + o2)
        }),
    decreases a.len(),
{
    if a.len() == 0 {
        assert(a + b =~= b);
        let (p2, pd2, e2, o2) = decode_run(pending, padded, error, b);
        assert(Seq::<u8>::empty() + o2 =~= o2);
    } else {
        let (p, pd, e, o) = decode_step(pending, padded, error, a[0]);
        assert((a + b).drop_first() =~= a.drop_first() + b);
        assert((a + b)[0] == a[0]);
        lemma_decode_run_concat(p, pd, e, a.drop_first(), b);
        let (p1, pd1, e1, o1) = decode_run(p, pd, e, a.drop_first());
        let (p2, pd2, e2, o2) = decode_run(p1, pd1, e1, b);
        assert(o + (o1 + o2) =~= (o + o1) + o2);
    }
}

/// Two runs of the decoder, one after the other, are one run.
pub proof fn lemma_ran_chain(
    d0: Decoder,
    out0: Seq<u8>,
    d1: Decoder,
    out1: Seq<u8>,
    d2: Decoder,
    out2: Seq<u8>,
    a: Seq<u8>,
    b: Seq<u8>,
)
    requires
        d1.ran(out1, &d0, out0, a),
        d2.ran(out2, &d1, out1, b),
    ensures
        d2.ran(out2, &d0, out0, a + b),
{
    lemma_decode_run_concat(d0.pending@, d0.padded, d0.error_view(), a, b);
    let (p1, pd1, e1, o1) = decode_run(d0.pending@, d0.padded, d0.error_view(), a);
    let (p2, pd2, e2, o2) = decode_run(p1, pd1, e1, b);
    assert(out0 + o1 + o2 =~= out0 + (o1 + o2));
}

/// A decoder has run over nothing from where it stands.
pub proof fn lemma_ran_none(d: Decoder, out: Seq<u8>)
    ensures
        d.ran(out, &d, out, Seq::empty()),
{
    assert(out + Seq::<u8>::empty() =~= out);
}

/// A fresh decoder's run over `text` from output `out0`: what lies past
/// `out0` is what the run emitted.
pub proof fn lemma_ran_output(d0: Decoder, out0: Seq<u8>, d: Decoder, out: Seq<u8>, text: Seq<u8>, k: int)
    requires
        d.ran(out, &d0, out0, text),
        k == out0.len(),
    ensures
        out.take(k) == out0,
        out.skip(k) == decode_run(d0.pending@, d0.padded, d0.error_view(), text).3,
{
    let (p, pd, e, o) = decode_run(d0.pending@, d0.padded, d0.error_view(), text);
    assert(out.take(k) =~= out0);
    assert(out.skip(k) =~= o);
}

/// Running the decoder over one byte is one step.
pub proof fn lemma_decode_run_one(pending: Seq<u8>, padded: bool, error: Option<Seq<char>>, c: u8)
    ensures
        decode_run(pending, padded, error, seq![c]) == decode_step(pending, padded, error, c),
{
    let (p, pd, e, o) = decode_step(pending, padded, error, c);
    assert(seq![c][0] == c);
    assert(seq![c].drop_first() =~= Seq::<u8>::empty());
    assert(decode_run(p, pd, e, Seq::<u8>::empty()) == (p, pd, e, Seq::<u8>::empty()));
    assert(o + Seq::<u8>::empty() =~= o);
}

/// `bytes` with its ASCII whitespace left out.
pub open spec fn non_ws(bytes: Seq<u8>) -> Seq<u8>
    decreases bytes.len(),
{
    if bytes.len() == 0 {
        Seq::empty()
    } else if json::is_ws(bytes.last()) {
        non_ws(bytes.drop_last())
    } else {
        non_ws(bytes.drop_last()).push(bytes.last())
    }
}

/// What one text byte gives the decoder: nothing if it is whitespace.
pub open spec fn text_byte(b: u8) -> Seq<u8> {
    if json::is_ws(b) {
        Seq::empty()
    } else {
        seq![b]
    }
}

pub proof fn lemma_non_ws_push(t: Seq<u8>, b: u8)
    ensures
        non_ws(t.push(b)) == non_ws(t) + text_byte(b),
{
    assert(t.push(b).drop_last() =~= t);
    assert(non_ws(t) + Seq::<u8>::empty() =~= non_ws(t));
    assert(non_ws(t) + seq![b] =~= non_ws(t).push(b));
}

impl Decoder {
    pub open spec fn inv(&self) -> bool {
        self.pending@.len() < 4
    }

    pub open spec fn error_view(&self) -> Option<Seq<char>> {
        opt_text(self.error)
    }

    /// This decoder, with output `out`, is `from` with output `out0` run over
    /// `text`.
    pub open spec fn ran(&self, out: Seq<u8>, from: &Decoder, out0: Seq<u8>, text: Seq<u8>) -> bool {
        let (p, pd, e, o) = decode_run(from.pending@, from.padded, from.error_view(), text);
        &&& self.pending@ == p
        &&& self.padded == pd
        &&& self.error_view() == e
        &&& out == out0 + o
    }

    /// Feeds one byte of payload text: whitespace is skipped.
    pub fn push_text(&mut self, byte: u8, reader: &mut Reader)
        requires
            old(self).inv(),
            old(reader).inv(),
            old(reader).output@.len() + old(self).pending@.len() + 1 <= old(reader).position,
        ensures
            final(self).inv(),
            final(reader).inv(),
            final(reader).output@.len() + final(self).pending@.len() <= final(reader).position,
            final(reader).output@.len() + final(self).pending@.len() <= old(reader).output@.len()
                + old(self).pending@.len() + 1,
            final(reader).position == old(reader).position,
            final(reader).input@ == old(reader).input@,
            final(reader).limit == old(reader).limit,
            final(reader).body@ == old(reader).body@,
            final(reader).spans@ == old(reader).spans@,
            final(self).ran(final(reader).output@, old(self), old(reader).output@, text_byte(byte)),
    {
        if json::is_ascii_whitespace(byte) {
            assert(decode_run(self.pending@, self.padded, self.error_view(), Seq::empty()) == (
                self.pending@,
                self.padded,
                self.error_view(),
                Seq::<u8>::empty(),
            ));
            assert(reader.output@ + Seq::<u8>::empty() =~= reader.output@);
        } else {
            proof {
                lemma_decode_run_one(self.pending@, self.padded, self.error_view(), byte);
            }
            self.push(byte, reader);
        }
    }

    /// A decoder with nothing pending, no padding seen and no error.
    pub fn new() -> (d: Decoder)
        ensures
            d.inv(),
            d.pending@.len() == 0,
            !d.padded,
            d.error is None,
    {
        Decoder { pending: Vec::new(), padded: false, error: None }
    }

    /// Feeds one payload byte; completed quartets are decoded into the
    /// reader's output.
    pub fn push(&mut self, byte: u8, reader: &mut Reader)
        requires
            old(self).inv(),
            old(reader).inv(),
            old(reader).output@.len() + old(self).pending@.len() + 1 <= old(reader).position,
        ensures
            final(self).inv(),
            final(reader).inv(),
            final(reader).output@.len() + final(self).pending@.len() <= final(reader).position,
            final(reader).output@.len() + final(self).pending@.len() <= old(reader).output@.len()
                + old(self).pending@.len() + 1,
            final(reader).position == old(reader).position,
            final(reader).input@ == old(reader).input@,
            final(reader).limit == old(reader).limit,
            final(reader).body@ == old(reader).body@,
            final(reader).spans@ == old(reader).spans@,
            ({
                let (p, pad, err, out) = decode_step(old(self).pending@, old(self).padded,
                    old(self).error_view(), byte);
                &&& final(self).pending@ == p
                &&& final(self).padded == pad
                &&& final(self).error_view() == err
                &&& final(reader).output@ == old(reader).output@ + out
            }),
    {
        if self.error.is_some() {
            return;
        }
        if self.padded {
            self.error = Some(String::from_str("data after base64 padding"));
            return;
        }
        self.pending.push(byte);
        if self.pending.len() == 4 {
            match decode_quartet(self.pending.as_slice()) {
                Ok(decoded) => {
                    let mut i: usize = 0;
                    while i < decoded.len()
                        invariant
                            i <= decoded@.len() <= 3,
                            reader.output@ == old(reader).output@ + decoded@.take(i as int),
                            reader.position == old(reader).position,
                            reader.input@ == old(reader).input@,
                            reader.limit == old(reader).limit,
                            reader.body@ == old(reader).body@,
                            reader.spans@ == old(reader).spans@,
                            old(reader).inv(),
                            old(reader).output@.len() + 4 <= old(reader).position,
                        decreases decoded@.len() - i,
                    {
                        reader.output.push(decoded[i]);
                        i = i + 1;
                        assert(decoded@.take(i as int) =~= decoded@.take(i - 1).push(decoded@[i - 1]));
                    }
                    assert(decoded@.take(i as int) =~= decoded@);
                    let padded = contains_byte(self.pending.as_slice(), 61u8);
                    self.padded = padded;
                },
                Err(e) => {
                    self.error = Some(e);
                },
            }
            self.pending = Vec::new();
        }
    }
}

/// Whether `byte` occurs in `bytes`.
pub fn contains_byte(bytes: &[u8], byte: u8) -> (r: bool)
    ensures
        r == bytes@.contains(byte),
{
    let mut i: usize = 0;
    while i < bytes.len()
        invariant
            i <= bytes@.len(),
            forall|j: int| 0 <= j < i ==> bytes@[j] != byte,
        decreases bytes@.len() - i,
    {
        if bytes[i] == byte {
            assert(bytes@[i as int] == byte);
            return true;
        }
        i = i + 1;
    }
    false
}

} // verus!

verus! {

/// What extraction leaves: the retained metadata body, the decoded payload
/// bytes, and the span of those bytes that each payload marker names.
#[derive(Debug)]
pub struct Extracted {
    pub body: String,
    pub data: Vec<u8>,
    pub spans: Vec<Span>,
}

/// The span index that `marker`, as it stands in the body, names.
pub open spec fn selected_index(marker: Option<Seq<u8>>) -> Option<nat> {
    match marker {
        Some(m) => match base64_decode_spec(m) {
            Some(t) => marker_index(t),
            None => None,
        },
        None => None,
    }
}

/// The characters of the decimal digits of `n`.
pub open spec fn decimal_chars(n: nat) -> Seq<char> {
    decimal_bytes(n).map_values(|b: u8| b as char)
}

impl Extracted {
    /// Spans tile the decoded bytes and every span's marker decodes back.
    pub open spec fn wf(&self) -> bool {
        &&& spans_contiguous(self.spans@)
        &&& spans_end(self.spans@) == self.data@.len()
        &&& self.data@.len() <= u64::MAX
        &&& markers_decode(self.spans@.len())
    }

    /// The decoded bytes of span `i`.
    pub open spec fn span_bytes(&self, i: int) -> Seq<u8> {
        self.data@.subrange(
            self.spans@[i].offset as int,
            self.spans@[i].offset + self.spans@[i].length,
        )
    }

    /// The decoded bytes of the attachment whose body marker is `marker`.
    pub fn select(&self, marker: Option<&[u8]>, attachment_id: u64) -> (r: Result<Vec<u8>, BzrError>)
        requires
            self.wf(),
        ensures
            ({
                let m = match marker {
                    Some(m) => Some(m@),
                    None => None,
                };
                match selected_index(m) {
                    Some(i) if i < self.spans@.len() => match self.spans@[i as int].error {
                        None => r matches Ok(v) && v@ == self.span_bytes(i as int),
                        Some(e) => r matches Err(BzrError::DataIntegrity(msg)) && msg@
                            == "failed to decode attachment #"@ + decimal_chars(attachment_id as nat)
                            + ": "@ + e@,
                    },
                    _ => r matches Err(BzrError::DataIntegrity(msg)) && msg@
                        == "attachment has no streamed data"@,
                }
            }),
    {
        let ghost m = match marker {
            Some(m) => Some(m@),
            None => None::<Seq<u8>>,
        };
        let index = match marker {
            Some(mk) => match decode_base64(mk) {
                Some(text) => parse_marker(&text),
                None => None,
            },
            None => None,
        };
        let index = match index {
            Some(i) if i < self.spans.len() => i,
            _ => return Err(invalid("attachment has no streamed data")),
        };
        let span = &self.spans[index];
        match &span.error {
            Some(e) => {
                let mut msg = String::from_str("failed to decode attachment #");
                let digits = decimal_string(attachment_id);
                msg.append(digits.as_str());
                msg.append(": ");
                msg.append(e.as_str());
                proof {
                    reveal_strlit(": ");
                }
                return Err(BzrError::DataIntegrity(msg));
            },
            None => {},
        }
        proof {
            lemma_span_within(self.spans@, index as int);
        }
        assert(*span == self.spans@[index as int]);
        assert(span.offset + span.length <= self.data@.len());
        let data_len = self.data.len();
        assert(span.offset + span.length <= data_len);
        let start = span.offset as usize;
        let end = (span.offset + span.length) as usize;
        assert(start == span.offset && end == span.offset + span.length);
        Ok(copy_range(&self.data, start, end))
    }
}

/// A copy of `data[start..end]`.
pub fn copy_range(data: &Vec<u8>, start: usize, end: usize) -> (out: Vec<u8>)
    requires
        start <= end <= data@.len(),
    ensures
        out@ == data@.subrange(start as int, end as int),
{
    let mut out: Vec<u8> = Vec::new();
    let mut i = start;
    while i < end
        invariant
            start <= i <= end <= data@.len(),
            out@ == data@.subrange(start as int, i as int),
        decreases end - i,
    {
        out.push(data[i]);
        i = i + 1;
        assert(data@.subrange(start as int, i as int) =~= data@.subrange(start as int, i - 1).push(
            data@[i - 1],
        ));
    }
    out
}

/// Every span of contiguous spans lies within their end.
pub proof fn lemma_span_within(spans: Seq<Span>, i: int)
    requires
        spans_contiguous(spans),
        0 <= i < spans.len(),
    ensures
        spans[i].offset + spans[i].length <= spans_end(spans),
    decreases spans.len() - i,
{
    if i + 1 < spans.len() {
        assert(spans[i + 1].offset == spans[i].offset + spans[i].length);
        lemma_span_within(spans, i + 1);
    }
}

/// The span index named by a decoded marker text.
pub fn parse_marker(text: &Vec<u8>) -> (r: Option<usize>)
    ensures
        match r {
            Some(i) => marker_index(text@) == Some(i as nat),
            None => marker_index(text@) is None,
        },
{
    let prefix = marker_text_bytes_prefix();
    if text.len() < 12 {
        return None;
    }
    let mut k: usize = 0;
    while k < 12
        invariant
            k <= 12 <= text@.len(),
            prefix@ == marker_prefix(),
            forall|j: int| 0 <= j < k ==> text@[j] == prefix@[j],
        decreases 12 - k,
    {
        if text[k] != prefix[k] {
            assert(text@.take(12)[k as int] != marker_prefix()[k as int]);
            return None;
        }
        k = k + 1;
    }
    assert(text@.take(12) =~= marker_prefix());
    let ghost s = text@.skip(12);
    let mut start: usize = 12;
    if text.len() > 12 && text[12] == 43u8 {
        start = 13;
    }
    let ghost d = text@.subrange(start as int, text@.len() as int);
    assert(d =~= usize_digits(s));
    assert(marker_index(text@) == parse_usize_bytes(s));
    if start == text.len() {
        return None;
    }
    let mut value: u64 = 0;
    let max = usize::MAX as u64;
    let mut i = start;
    while i < text.len()
        invariant
            start <= i <= text@.len(),
            start < text@.len(),
            d == text@.subrange(start as int, text@.len() as int),
            d == usize_digits(s),
            marker_index(text@) == parse_usize_bytes(s),
            forall|j: int| 0 <= j < i - start ==> #[trigger] is_byte_digit(d[j]),
            value == byte_decimal_value(d.take(i - start)),
            value <= max,
            max == usize::MAX,
        decreases text@.len() - i,
    {
        let b = text[i];
        if !(48u8 <= b && b <= 57u8) {
            assert(!is_byte_digit(d[i - start]));
            assert(!(forall|j: int| 0 <= j < d.len() ==> #[trigger] is_byte_digit(d[j])));
            assert(parse_usize_bytes(s) is None);
            return None;
        }
        let digit = (b - 48u8) as u64;
        assert(d.take(i - start + 1).drop_last() =~= d.take(i - start));
        assert(d.take(i - start + 1).last() == b);
        assert(byte_decimal_value(d.take(i - start + 1)) == value * 10 + digit);
        if digit > max || value > (max - digit) / 10 {
            proof {
                lemma_byte_value_monotone(d, i - start + 1);
                if digit <= max {
                    assert(value * 10 + digit > max) by (nonlinear_arith)
                        requires value > (max - digit) / 10, digit <= max;
                }
                assert(byte_decimal_value(d) > usize::MAX);
                assert(parse_usize_bytes(s) is None);
            }
            return None;
        }
        assert(value * 10 + digit <= max) by (nonlinear_arith)
            requires value <= (max - digit) / 10, digit <= max;
        value = value * 10 + digit;
        i = i + 1;
    }
    assert(d.take(d.len() as int) =~= d);
    Some(value as usize)
}

pub proof fn lemma_byte_value_monotone(s: Seq<u8>, i: int)
    requires
        0 <= i <= s.len(),
    ensures
        byte_decimal_value(s.take(i)) <= byte_decimal_value(s),
    decreases s.len() - i,
{
    if i < s.len() {
        assert(s.take(i + 1).drop_last() =~= s.take(i));
        lemma_byte_value_monotone(s, i + 1);
    } else {
        assert(s.take(i) =~= s);
    }
}

/// The bytes "bzr-payload-".
fn marker_text_bytes_prefix() -> (r: Vec<u8>)
    ensures
        r@ == marker_prefix(),
{
    let r: Vec<u8> = vec![98u8, 122, 114, 45, 112, 97, 121, 108, 111, 97, 100, 45];
    assert(r@ =~= marker_prefix());
    r
}

/// The decimal digits of `n` as text.
pub fn decimal_string(n: u64) -> (s: String)
    ensures
        s@ == decimal_chars(n as nat),
{
    let digits = decimal_digits(n);
    proof {
        lemma_decimal_bytes_are_digits(n as nat);
    }
    let mut s = String::new();
    let mut i: usize = 0;
    while i < digits.len()
        invariant
            i <= digits@.len(),
            digits@ == decimal_bytes(n as nat),
            forall|j: int| 0 <= j < digits@.len() ==> 48 <= #[trigger] digits@[j] <= 57,
            s@ == digits@.take(i as int).map_values(|b: u8| b as char),
        decreases digits@.len() - i,
    {
        let d = digits[i];
        let piece = digit_str(d);
        s.append(piece);
        i = i + 1;
        assert(digits@.take(i as int).map_values(|b: u8| b as char) =~= digits@.take(i - 1).map_values(
            |b: u8| b as char,
        ).push(d as char));
    }
    assert(digits@.take(i as int) =~= digits@);
    s
}

pub proof fn lemma_decimal_bytes_are_digits(n: nat)
    ensures
        forall|j: int| 0 <= j < decimal_bytes(n).len() ==> 48 <= #[trigger] decimal_bytes(n)[j] <= 57,
        decimal_bytes(n).len() > 0,
        byte_decimal_value(decimal_bytes(n)) == n,
    decreases n,
{
    if n >= 10 {
        lemma_decimal_bytes_are_digits(n / 10);
        let last = (48 + n % 10) as u8;
        assert(last as nat == 48 + n % 10);
        assert(decimal_bytes(n) == decimal_bytes(n / 10).push(last));
        assert(decimal_bytes(n).drop_last() =~= decimal_bytes(n / 10));
        assert(decimal_bytes(n).last() == last);
        assert(n == (n / 10) * 10 + n % 10);
        assert(byte_decimal_value(decimal_bytes(n)) == byte_decimal_value(decimal_bytes(n / 10)) * 10
            + (last - 48) as nat);
    } else {
        let b = (48 + n) as u8;
        assert(b as nat == 48 + n);
        assert(decimal_bytes(n) == seq![b]);
        assert(decimal_bytes(n).drop_last() =~= Seq::<u8>::empty());
        assert(byte_decimal_value(Seq::<u8>::empty()) == 0);
        assert(byte_decimal_value(decimal_bytes(n)) == byte_decimal_value(Seq::<u8>::empty()) * 10
            + (b - 48) as nat);
    }
}

/// The one-character text of an ASCII digit.
fn digit_str(d: u8) -> (s: &'static str)
    requires
        48 <= d <= 57,
    ensures
        s@ == seq![d as char],
{
    proof {
        reveal_strlit("0");
        reveal_strlit("1");
        reveal_strlit("2");
        reveal_strlit("3");
        reveal_strlit("4");
        reveal_strlit("5");
        reveal_strlit("6");
        reveal_strlit("7");
        reveal_strlit("8");
        reveal_strlit("9");
    }
    if d == 48 { "0" } else if d == 49 { "1" } else if d == 50 { "2" } else if d == 51 { "3" }
    else if d == 52 { "4" } else if d == 53 { "5" } else if d == 54 { "6" } else if d == 55 { "7" }
    else if d == 56 { "8" } else { "9" }
}

/// A span's marker, decoded, names that span: what the body says of a
/// payload leads back to the payload's own bytes.
pub proof fn lemma_marker_names_its_span(index: nat)
    requires
        index <= usize::MAX,
    ensures
        marker_index(marker_text(index)) == Some(index),
{
    lemma_decimal_bytes_are_digits(index);
    let t = marker_text(index);
    assert(t.take(12) =~= marker_prefix());
    assert(t.skip(12) =~= decimal_bytes(index));
}

} // verus!

verus! {

/// `String::from_utf8`: a string exactly when the bytes are valid UTF-8,
/// holding the characters they encode.
#[verifier::external_body]
pub(crate) fn utf8_string(bytes: Vec<u8>) -> (r: Option<String>)
    ensures
        r is Some <==> vstd::utf8::valid_utf8(bytes@),
        r matches Some(s) ==> s@ == vstd::utf8::decode_utf8(bytes@),
{
    String::from_utf8(bytes).ok()
}

/// Integrity failures while extracting are reported as failures to read the
/// response in its protocol.
pub fn protocol_error(e: BzrError, xml: bool) -> (r: BzrError)
    ensures
        match e {
            BzrError::DataIntegrity(m) => if xml {
                r matches BzrError::XmlRpc(n) && n@ == m@
            } else {
                r matches BzrError::Deserialize(n) && n@ == m@
            },
            _ => r == e,
        },
{
    match e {
        BzrError::DataIntegrity(m) => if xml {
            BzrError::XmlRpc(m)
        } else {
            BzrError::Deserialize(m)
        },
        other => other,
    }
}

/// The refusal of a JSON response whose retained body is not UTF-8.
pub open spec fn not_utf8_refusal(e: BzrError) -> bool {
    e matches BzrError::Deserialize(m) && m@ == "attachment response is not valid UTF-8"@
}

/// Reads a whole attachment response: the document, then nothing but
/// whitespace. Succeeds with the retained body (valid UTF-8, within `limit`
/// bytes), the decoded payload bytes and their spans: one span for each
/// payload, in the order of the document, holding what the payload's text
/// decodes to and recording its decoding error.
#[verifier::rlimit(40)]
pub fn extract(input: Vec<u8>, protocol: Protocol, limit: u64) -> (r: Result<Extracted, BzrError>)
    ensures
        r matches Ok(e) ==> e.wf() && vstd::utf8::encode_utf8(e.body@).len() <= limit,
        r matches Ok(e) ==> e.data@.len() <= input@.len(),
        r matches Err(e) ==> !(e is DataIntegrity),
        input@.len() == 0 ==> r is Err,
        protocol is Json && r is Ok ==> json::json_document(input@),
        protocol is Json ==> (r matches Ok(e) ==> json::document_spans(input@, e.data@, e.spans@)),
        protocol is Xml ==> (r matches Ok(e) ==> xml::xml_extracted(input@, limit, e.data@, e.spans@)),
        protocol is Xml ==> (r is Ok <==> (rpc::xml_outcome(input@, limit, 0, Seq::empty(), 0) matches rpc::DocEnd::Accepted(
            b,
        ) && vstd::utf8::valid_utf8(b))),
        protocol is Xml ==> (r matches Ok(e) ==> rpc::xml_outcome(input@, limit, 0, Seq::empty(), 0)
            == rpc::DocEnd::Accepted(vstd::utf8::encode_utf8(e.body@))),
        protocol is Xml && rpc::xml_outcome(input@, limit, 0, Seq::empty(), 0) is Truncated ==> (r matches Err(
            BzrError::XmlRpc(m),
        ) && m@ == "truncated attachment XML response"@),
        protocol is Json && json::value_dup(input@, 0, 0) ==> (r matches Err(e) && (e is ResponseTooLarge || (
        e matches BzrError::Deserialize(m) && m@ == "duplicate attachment JSON member"@))),
        protocol is Json && json::json_document(input@) ==> (r matches Err(e) ==> (e is ResponseTooLarge
            || not_utf8_refusal(e))),
        protocol is Json ==> (r matches Ok(e) ==> vstd::utf8::encode_utf8(e.body@) == json::document_body(
            input@,
        )),
        protocol is Json && json::json_document(input@) ==> (r is Ok <==> json::document_body(input@).len()
            <= limit && vstd::utf8::valid_utf8(json::document_body(input@))),
        protocol is Json && json::json_document(input@) ==> ((r matches Err(e) && e is ResponseTooLarge)
            <==> json::document_body(input@).len() > limit),
{
    let xml = match protocol {
        Protocol::Json => false,
        Protocol::Xml => true,
    };
    let ghost original = input@;
    let mut reader = Reader::new(input, limit);
    let ghost out0 = reader.output@;
    let ghost spans0 = reader.spans@;
    assert(out0 =~= Seq::<u8>::empty());
    assert(spans0 =~= Seq::<Span>::empty());
    assert(reader.body@ =~= Seq::<u8>::empty());
    assert(rpc::xml_outcome(original, limit, 0, Seq::empty(), 0) == rpc::xml_outcome(
        reader.input@,
        reader.limit,
        reader.position as int,
        reader.body@,
        reader.spans@.len() as nat,
    ));
    let scanned = match protocol {
        Protocol::Json => reader.json_value(0),
        Protocol::Xml => reader.xml_document(),
    };
    match scanned {
        Ok(()) => {},
        Err(e) => {
            proof {
                if protocol is Json && json::json_document(original) {
                    json::lemma_document_body(original);
                }
            }
            return Err(protocol_error(e, xml));
        },
    }
    assert(reader.limit == limit);
    assert(protocol is Json ==> json::laid_out(original, 0, reader.position as int, json::document_payloads(original))
        && reader.body@ == Seq::<u8>::empty() + json::kept_from(
        original,
        0,
        reader.position as int,
        json::document_payloads(original),
        0,
    ));
    let ghost end = reader.position as int;
    proof {
        if protocol is Json && json::json_document(original) {
            json::lemma_document_body(original);
        }
    }
    let ghost out_end = reader.output@;
    let ghost spans_end = reader.spans@;
    let ghost scanned_body = reader.body@;
    let ghost mut xml_payloads: Seq<xml::XmlPayload> = Seq::empty();
    proof {
        if protocol is Xml {
            xml_payloads = choose|w: Seq<xml::XmlPayload>|
                #[trigger] xml::xml_payloads_decoded(original, limit, out0, spans0, out_end, spans_end, w);
            xml::lemma_xml_document_spans(original, limit, out_end, spans_end, xml_payloads);
        }
    }
    assert(protocol is Json ==> json::payloads_decoded(
        original,
        Seq::empty(),
        Seq::empty(),
        out_end,
        spans_end,
        json::document_payloads(original),
    ));
    loop
        invariant
            reader.inv(),
            reader.settled(),
            reader.limit == limit,
            reader.input@ == original,
            json::ws_end(original, end) == json::ws_end(original, reader.position as int),
            xml == (protocol is Xml),
            protocol is Json ==> json::scan_value(original, 0, 0) == Some(end),
            original == input@,
            reader.output@ == out_end,
            reader.spans@ == spans_end,
            xml ==> reader.position == reader.input@.len() && reader.body@ == scanned_body,
            protocol is Json ==> !json::value_dup(original, 0, 0),
            0 <= end <= reader.position,
            !xml ==> reader.body@ == scanned_body + original.subrange(end, reader.position as int),
            !xml && json::json_document(original) ==> json::document_body(original).len() == scanned_body.len() + (
            original.len() - end),
        ensures
            reader.position == original.len(),
            !xml ==> reader.body@ == scanned_body + original.subrange(end, reader.position as int),
            reader.output@ == out_end,
            reader.spans@ == spans_end,
            xml ==> reader.body@ == scanned_body,
            reader.inv(),
            reader.settled(),
            reader.limit == limit,
            reader.input@ == original,
            json::ws_end(original, end) == original.len(),
        decreases reader.input@.len() - reader.position,
    {
        let ghost x = reader.position as int;
        match reader.take() {
            Ok(Some(b)) => {
                assert(x < original.len() && original[x] == b);
                assert(original.subrange(end, x + 1) =~= original.subrange(end, x).push(b));
                if !json::is_ascii_whitespace(b) {
                    proof {
                        let x = reader.position - 1;
                        assert(original[x] == b);
                        assert(json::ws_end(original, x) == x);
                    }
                    return Err(protocol_error(invalid("trailing content after attachment response"), xml));
                }
            },
            Ok(None) => break,
            Err(e) => return Err(protocol_error(e, xml)),
        }
    }
    proof {
        if !xml {
            json::lemma_kept_extend(
                original,
                0,
                0,
                end,
                original.len() as int,
                json::document_payloads(original),
                Seq::empty(),
                scanned_body,
                reader.body@,
            );
            assert(reader.body@ =~= json::document_body(original));
        }
    }
    let Reader { input: _, position: _, body, limit: _, output, spans } = reader;
    let ghost body_bytes = body@;
    let body = match utf8_string(body) {
        Some(s) => s,
        None => {
            let e = protocol_error(invalid("attachment response is not valid UTF-8"), xml);
            return Err(e);
        },
    };
    proof {
        vstd::utf8::decode_utf8_encode_utf8(body_bytes);
    }
    let done = Extracted { body, data: output, spans };
    proof {
        if protocol is Json {
            json::lemma_document_spans(original, done.data@, done.spans@);
        } else {
            assert(xml::xml_document_spans(original, limit, done.data@, done.spans@, xml_payloads));
        }
    }
    Ok(done)
}

} // verus!
