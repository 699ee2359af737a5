//! Classification of response bodies: Bugzilla error envelopes that arrive
//! with HTTP 200, error statuses, and the strict single-bug lookup that
//! backs bug adjacency.

use vstd::prelude::*;

use crate::error::BzrError;
use crate::json::{find_member, member, JsonList, JsonMembers, JsonNumber, JsonValue};
use crate::text::{chars_of, parse_i64, parse_i64_spec, utf8_len, utf8_prefix_chars};
use crate::redact::{redact, redact_api_key};

verus! {

/// A Bugzilla error envelope: `{"error": true, "code": ..., "message": ...}`.
pub struct ErrorEnvelope {
    pub error: bool,
    pub code: i64,
    pub message: Option<String>,
}

/// The `error` member of an envelope: absent is `false`, a boolean is itself,
/// anything else does not read.
pub open spec fn envelope_error(v: Option<JsonValue>) -> Option<bool> {
    match v {
        None => Some(false),
        Some(JsonValue::Bool(b)) => Some(b),
        _ => None,
    }
}

/// The `code` member: absent is `-1`; an integer in the range of `i64`, or a
/// string that parses as one, is that number; anything else does not read.
pub open spec fn envelope_code(v: Option<JsonValue>) -> Option<int> {
    match v {
        None => Some(-1),
        Some(JsonValue::Number(JsonNumber::Unsigned(u))) => if u <= i64::MAX {
            Some(u as int)
        } else {
            None
        },
        Some(JsonValue::Number(JsonNumber::Negative(i))) => Some(i as int),
        Some(JsonValue::Str(s)) => parse_i64_spec(s@),
        _ => None,
    }
}

/// The `message` member: absent or null is no message, a string is itself,
/// anything else does not read.
pub open spec fn envelope_message(v: Option<JsonValue>) -> Option<Option<Seq<char>>> {
    match v {
        None => Some(None),
        Some(JsonValue::Null) => Some(None),
        Some(JsonValue::Str(s)) => Some(Some(s@)),
        _ => None,
    }
}

/// The envelope an object reads as, if it reads as one.
pub open spec fn read_envelope(v: JsonValue) -> Option<(bool, int, Option<Seq<char>>)> {
    match v {
        JsonValue::Object(m) => {
            let e = envelope_error(member(*m, "error"@));
            let c = envelope_code(member(*m, "code"@));
            let msg = envelope_message(member(*m, "message"@));
            if e is Some && c is Some && msg is Some {
                Some((e->0, c->0, msg->0))
            } else {
                None
            }
        },
        _ => None,
    }
}

pub open spec fn envelope_view(e: ErrorEnvelope) -> (bool, int, Option<Seq<char>>) {
    (e.error, e.code as int, match e.message {
        Some(m) => Some(m@),
        None => None,
    })
}

fn copy_string(s: &String) -> (r: String)
    ensures
        r@ == s@,
{
    String::from_str(s.as_str())
}

/// Reads an error envelope from a JSON value.
pub fn decode_error_envelope(v: &JsonValue) -> (r: Option<ErrorEnvelope>)
    ensures
        match r {
            Some(e) => read_envelope(*v) == Some(envelope_view(e)),
            None => read_envelope(*v) is None,
        },
{
    let m = match v {
        JsonValue::Object(m) => m,
        _ => return None,
    };
    let error = match find_member(m, "error") {
        None => false,
        Some(JsonValue::Bool(b)) => *b,
        Some(_) => return None,
    };
    let code = match find_member(m, "code") {
        None => -1i64,
        Some(JsonValue::Number(JsonNumber::Unsigned(u))) => {
            if *u <= 0x7fff_ffff_ffff_ffffu64 {
                *u as i64
            } else {
                return None;
            }
        },
        Some(JsonValue::Number(JsonNumber::Negative(i))) => *i,
        Some(JsonValue::Str(s)) => match parse_i64(s.as_str()) {
            Some(c) => c,
            None => return None,
        },
        Some(_) => return None,
    };
    let message = match find_member(m, "message") {
        None => None,
        Some(JsonValue::Null) => None,
        Some(JsonValue::Str(s)) => Some(copy_string(s)),
        Some(_) => return None,
    };
    Some(ErrorEnvelope { error, code, message })
}

/// Whether a data member's value carries a result: null, an empty array and
/// an empty object are placeholders; any other value counts.
pub open spec fn carries_data(v: JsonValue) -> bool {
    match v {
        JsonValue::Null => false,
        JsonValue::Array(l) => *l is Cons,
        JsonValue::Object(m) => *m is Cons,
        _ => true,
    }
}

pub fn value_carries_data(v: &JsonValue) -> (r: bool)
    ensures
        r == carries_data(*v),
{
    match v {
        JsonValue::Null => false,
        JsonValue::Array(l) => match &**l {
            JsonList::Nil => false,
            _ => true,
        },
        JsonValue::Object(m) => match &**m {
            JsonMembers::Nil => false,
            _ => true,
        },
        _ => true,
    }
}

/// The response keys that can hold real data beside an error.
pub open spec fn data_key(i: int) -> Seq<char> {
    if i == 0 { "bugs"@ }
    else if i == 1 { "comments"@ }
    else if i == 2 { "attachments"@ }
    else if i == 3 { "products"@ }
    else if i == 4 { "groups"@ }
    else if i == 5 { "users"@ }
    else if i == 6 { "fields"@ }
    else if i == 7 { "extensions"@ }
    else if i == 8 { "classifications"@ }
    else { "ids"@ }
}

fn data_key_str(i: usize) -> (s: &'static str)
    requires
        i < 10,
    ensures
        s@ == data_key(i as int),
{
    if i == 0 { "bugs" }
    else if i == 1 { "comments" }
    else if i == 2 { "attachments" }
    else if i == 3 { "products" }
    else if i == 4 { "groups" }
    else if i == 5 { "users" }
    else if i == 6 { "fields" }
    else if i == 7 { "extensions" }
    else if i == 8 { "classifications" }
    else { "ids" }
}

/// Whether the object's `i`-th data key holds a value that carries data.
pub open spec fn key_carries_data(m: JsonMembers, i: int) -> bool {
    match member(m, data_key(i)) {
        Some(v) => carries_data(v),
        None => false,
    }
}

/// Whether some data key of the object holds a value that carries data.
pub open spec fn spec_has_data_fields(m: JsonMembers) -> bool {
    exists|i: int| 0 <= i < 10 && #[trigger] key_carries_data(m, i)
}

pub fn has_data_fields(m: &JsonMembers) -> (r: bool)
    ensures
        r == spec_has_data_fields(*m),
{
    let mut i: usize = 0;
    while i < 10
        invariant
            i <= 10,
            forall|k: int| 0 <= k < i ==> !#[trigger] key_carries_data(*m, k),
        decreases 10 - i,
    {
        match find_member(m, data_key_str(i)) {
            Some(v) => {
                if value_carries_data(v) {
                    assert(key_carries_data(*m, i as int));
                    return true;
                }
            },
            None => {},
        }
        i = i + 1;
    }
    false
}

/// What a response that arrived with HTTP 200 means: an object whose `error`
/// is `true` is an API error, unless a data key beside it carries a result;
/// an error object that does not read as an envelope cannot be understood.
pub open spec fn check_200_spec(v: JsonValue) -> Option<Option<(int, Seq<char>)>> {
    match v {
        JsonValue::Object(m) => if member(*m, "error"@) != Some(JsonValue::Bool(true)) {
            Some(None)
        } else {
            match read_envelope(v) {
                None => None,
                Some((_, code, msg)) => if spec_has_data_fields(*m) {
                    Some(None)
                } else {
                    Some(Some((code, match msg {
                        Some(t) => t,
                        None => "unknown API error"@,
                    })))
                },
            }
        },
        _ => Some(None),
    }
}

/// A response with `error: true` is still a result when one of its data
/// keys holds content: a non-empty object, a non-empty array, or a string,
/// number or boolean. It is then never reported as an API error.
pub proof fn lemma_data_beside_error_is_kept(m: JsonMembers, i: int)
    requires
        0 <= i < 10,
        member(m, data_key(i)) matches Some(v) && match v {
            JsonValue::Object(o) => *o is Cons,
            JsonValue::Array(l) => *l is Cons,
            JsonValue::Str(_) => true,
            JsonValue::Number(_) => true,
            JsonValue::Bool(_) => true,
            JsonValue::Null => false,
        },
    ensures
        !(check_200_spec(JsonValue::Object(Box::new(m))) matches Some(Some(_))),
{
    assert(key_carries_data(m, i));
}

/// A response with `error: true` whose envelope reads and whose data keys
/// hold at most placeholders (absent, `null`, `[]` or `{}`) is the API error
/// it states.
pub proof fn lemma_placeholders_keep_the_error(m: JsonMembers)
    requires
        member(m, "error"@) == Some(JsonValue::Bool(true)),
        read_envelope(JsonValue::Object(Box::new(m))) is Some,
        forall|i: int|
            0 <= i < 10 ==> match #[trigger] member(m, data_key(i)) {
                None => true,
                Some(JsonValue::Null) => true,
                Some(JsonValue::Array(l)) => *l is Nil,
                Some(JsonValue::Object(o)) => *o is Nil,
                Some(_) => false,
            },
    ensures
        read_envelope(JsonValue::Object(Box::new(m))) matches Some((_, c, _)) && check_200_spec(
            JsonValue::Object(Box::new(m)),
        ) matches Some(Some((code, _))) && code == c,
{
    assert forall|i: int| 0 <= i < 10 implies !#[trigger] key_carries_data(m, i) by {
        assert(match member(m, data_key(i)) {
            None => true,
            Some(JsonValue::Null) => true,
            Some(JsonValue::Array(l)) => *l is Nil,
            Some(JsonValue::Object(o)) => *o is Nil,
            Some(_) => false,
        });
    }
}

/// Detects a Bugzilla error that arrived with HTTP 200.
pub fn check_bugzilla_200_error(value: &JsonValue) -> (r: Result<(), BzrError>)
    ensures
        match check_200_spec(*value) {
            Some(None) => r is Ok,
            Some(Some((code, msg))) => r matches Err(BzrError::Api { code: c, message: m }) && c == code
                && m@ == msg,
            None => r matches Err(e) && e is Deserialize,
        },
{
    let m = match value {
        JsonValue::Object(m) => m,
        _ => return Ok(()),
    };
    let is_error = match find_member(m, "error") {
        Some(JsonValue::Bool(b)) => *b,
        _ => false,
    };
    if !is_error {
        return Ok(());
    }
    let envelope = match decode_error_envelope(value) {
        Some(e) => e,
        None => return Err(BzrError::Deserialize(String::from_str(
            "failed to deserialize Bugzilla error response: the error envelope does not match its schema",
        ))),
    };
    if !has_data_fields(m) {
        let message = match envelope.message {
            Some(msg) => msg,
            None => String::from_str("unknown API error"),
        };
        return Err(BzrError::Api { code: envelope.code, message });
    }
    Ok(())
}

/// The Bugzilla error code a body carries: `Some` only for an error envelope
/// (`error: true`) whose code is not the `-1` that stands for a missing one.
pub fn bugzilla_error_code(body: Option<&JsonValue>) -> (r: Option<i64>)
    ensures
        r == match body {
            Some(v) => match read_envelope(*v) {
                Some((true, code, _)) => if code != -1 {
                    Some(code as i64)
                } else {
                    None::<i64>
                },
                _ => None::<i64>,
            },
            None => None::<i64>,
        },
{
    match body {
        Some(v) => match decode_error_envelope(v) {
            Some(e) => if e.error && e.code != -1 {
                Some(e.code)
            } else {
                None
            },
            None => None,
        },
        None => None,
    }
}

/// The error an HTTP error status stands for: a Bugzilla envelope with
/// `error: true` in the body is an API error (its message, or the status
/// text); anything else is the bare status with a preview of the body.
pub fn error_from_status_body(status: u16, status_text: &str, body: Option<&JsonValue>, preview: String) -> (r: BzrError)
    ensures
        match body {
            Some(v) => match read_envelope(*v) {
                Some((true, code, msg)) => r matches BzrError::Api { code: c, message: m } && c == code
                    && m@ == match msg {
                        Some(t) => t,
                        None => status_text@,
                    },
                _ => r matches BzrError::HttpStatus { status: s, body: b } && s == status && b@ == preview@,
            },
            None => r matches BzrError::HttpStatus { status: s, body: b } && s == status && b@ == preview@,
        },
{
    match body {
        Some(v) => match decode_error_envelope(v) {
            Some(e) => if e.error {
                let message = match e.message {
                    Some(m) => m,
                    None => String::from_str(status_text),
                };
                return BzrError::Api { code: e.code, message };
            },
            None => {},
        },
        None => {},
    }
    BzrError::HttpStatus { status, body: preview }
}

} // verus!

verus! {

/// The most bytes of a body that an error message quotes.
pub const DIAGNOSTIC_BODY_PREVIEW_MAX_BYTES: usize = 512;

/// Whether the first `k` characters of `s` are the longest prefix that fits
/// in `max` bytes of UTF-8.
pub open spec fn longest_fit(s: Seq<char>, k: int, max: nat) -> bool {
    &&& 0 <= k <= s.len()
    &&& utf8_len(s.take(k)) <= max
    &&& k < s.len() ==> utf8_len(s.take(k + 1)) > max
}

/// Whether `r` is the diagnostic preview of `s`: `s` itself when it fits the
/// budget, else its longest fitting prefix followed by an ellipsis.
pub open spec fn is_preview(s: Seq<char>, r: Seq<char>) -> bool {
    exists|k: int| #[trigger] longest_fit(s, k, DIAGNOSTIC_BODY_PREVIEW_MAX_BYTES as nat) && r == if k
        == s.len() {
        s
    } else {
        s.take(k) + "…"@
    }
}

/// A body bounded for an error message: cut on a character boundary to
/// `DIAGNOSTIC_BODY_PREVIEW_MAX_BYTES` bytes, with `…` when something was cut.
pub fn diagnostic_body_preview(body: &str) -> (r: String)
    ensures
        is_preview(body@, r@),
{
    let c = chars_of(body);
    let k = utf8_prefix_chars(&c, DIAGNOSTIC_BODY_PREVIEW_MAX_BYTES);
    assert(longest_fit(body@, k as int, DIAGNOSTIC_BODY_PREVIEW_MAX_BYTES as nat));
    if k == c.len() {
        let r = String::from_str(body);
        assert(r@ == body@);
        r
    } else {
        let mut r = String::from_str(body.substring_char(0, k));
        r.append("…");
        assert(r@ =~= body@.take(k as int) + "…"@);
        r
    }
}

/// A newline, tab or carriage return becomes a space.
pub open spec fn one_line(c: char) -> char {
    if c == '\n' || c == '\t' || c == '\r' {
        ' '
    } else {
        c
    }
}

/// Formats a body for a deserialization error: the diagnostic preview, kept
/// on one line, with every `Bugzilla_api_key=` value redacted (error pages
/// echo the request URL, which can carry the key).
pub fn format_body_preview(body: &str) -> (r: String)
    ensures
        exists|p: Seq<char>| #[trigger] is_preview(body@, p) && r@ == redact(p.map_values(|c: char| one_line(c))),
{
    let preview = diagnostic_body_preview(body);
    let p = chars_of(preview.as_str());
    let mut r = String::new();
    let mut i: usize = 0;
    while i < p.len()
        invariant
            i <= p@.len(),
            p@ == preview@,
            r@ == p@.take(i as int).map_values(|c: char| one_line(c)),
        decreases p@.len() - i,
    {
        let c = p[i];
        if c == '\n' || c == '\t' || c == '\r' {
            r.append(" ");
            proof {
                reveal_strlit(" ");
            }
        } else {
            let piece = preview.as_str().substring_char(i, i + 1);
            assert(piece@ =~= seq![c]);
            r.append(piece);
        }
        assert(p@.take(i + 1).map_values(|c: char| one_line(c)) =~= p@.take(i as int).map_values(
            |c: char| one_line(c),
        ).push(one_line(c)));
        i = i + 1;
    }
    assert(p@.take(p@.len() as int) =~= p@);
    redact_api_key(r.as_str())
}

} // verus!

verus! {

/// Whether a value is an object with a member named `key`.
pub open spec fn has_key(v: JsonValue, key: Seq<char>) -> bool {
    match v {
        JsonValue::Object(m) => member(*m, key) is Some,
        _ => false,
    }
}

/// The positions among the first `n` candidate keys whose presence in `v`
/// is `present`, in order.
pub open spec fn positions_where(keys: Seq<String>, v: JsonValue, present: bool, n: int) -> Seq<usize>
    decreases n,
{
    if n <= 0 {
        Seq::empty()
    } else if has_key(v, keys[n - 1]@) == present {
        positions_where(keys, v, present, n - 1).push((n - 1) as usize)
    } else {
        positions_where(keys, v, present, n - 1)
    }
}

/// The order in which envelope candidates are tried: those whose key the
/// value has first, then the others, each group in the given order.
pub open spec fn envelope_order_spec(keys: Seq<String>, v: JsonValue) -> Seq<usize> {
    positions_where(keys, v, true, keys.len() as int) + positions_where(
        keys,
        v,
        false,
        keys.len() as int,
    )
}

fn value_has_key(v: &JsonValue, key: &str) -> (r: bool)
    ensures
        r == has_key(*v, key@),
{
    match v {
        JsonValue::Object(m) => find_member(m, key).is_some(),
        _ => false,
    }
}

/// Orders envelope candidates, by their keys, for trying.
pub fn envelope_order(keys: &Vec<String>, value: &JsonValue) -> (r: Vec<usize>)
    ensures
        r@ == envelope_order_spec(keys@, *value),
{
    let mut first: Vec<usize> = Vec::new();
    let mut rest: Vec<usize> = Vec::new();
    let mut i: usize = 0;
    while i < keys.len()
        invariant
            i <= keys@.len(),
            first@ == positions_where(keys@, *value, true, i as int),
            rest@ == positions_where(keys@, *value, false, i as int),
        decreases keys@.len() - i,
    {
        if value_has_key(value, keys[i].as_str()) {
            first.push(i);
        } else {
            rest.push(i);
        }
        i = i + 1;
    }
    let mut r = first;
    let mut tail = rest;
    r.append(&mut tail);
    r
}

/// How far a trial of envelope candidates has come: the candidates in the
/// order they are tried, how many have failed, and the error of the first
/// that failed.
pub struct EnvelopeTrial {
    pub order: Vec<usize>,
    pub tried: usize,
    pub first_error: Option<String>,
}

/// What a trial of envelope candidates does next.
#[derive(Clone, Copy, Debug, PartialEq, Eq, Structural)]
pub enum EnvelopeStep {
    /// Try the candidate at this position among the keys.
    Try(usize),
    /// Every candidate failed: report the first error.
    Exhausted,
}

impl EnvelopeTrial {
    /// A trial of the candidates named by `keys` on `value`: first those
    /// whose key the value has, then the others, each group in key order.
    pub fn new(keys: &Vec<String>, value: &JsonValue) -> (r: EnvelopeTrial)
        ensures
            r.order@ == envelope_order_spec(keys@, *value),
            r.tried == 0,
            r.first_error is None,
    {
        EnvelopeTrial { order: envelope_order(keys, value), tried: 0, first_error: None }
    }

    /// The next candidate to try, or that none is left.
    pub fn next_step(&self) -> (r: EnvelopeStep)
        ensures
            r == if self.tried < self.order@.len() {
                EnvelopeStep::Try(self.order@[self.tried as int])
            } else {
                EnvelopeStep::Exhausted
            },
    {
        if self.tried < self.order.len() {
            EnvelopeStep::Try(self.order[self.tried])
        } else {
            EnvelopeStep::Exhausted
        }
    }

    /// The candidate just tried failed with `error`: the trial moves on,
    /// keeping the first error seen. (A candidate that succeeds ends the
    /// trial with its value.)
    pub fn on_failure(&mut self, error: String)
        requires
            old(self).tried < old(self).order@.len(),
        ensures
            final(self).order@ == old(self).order@,
            final(self).tried == old(self).tried + 1,
            final(self).first_error == match old(self).first_error {
                Some(e) => Some(e),
                None => Some(error),
            },
    {
        let n = self.order.len();
        assert(self.tried < n);
        self.tried = self.tried + 1;
        if self.first_error.is_none() {
            self.first_error = Some(error);
        }
    }
}

/// The candidate keys joined with `, `.
pub open spec fn keys_text(keys: Seq<String>) -> Seq<char> {
    crate::text::join(keys.map_values(|k: String| k@), ", "@)
}

fn join_keys(keys: &Vec<String>) -> (r: String)
    ensures
        r@ == keys_text(keys@),
{
    let mut r = String::new();
    let mut i: usize = 0;
    let ghost pieces = keys@.map_values(|k: String| k@);
    while i < keys.len()
        invariant
            i <= keys@.len(),
            pieces == keys@.map_values(|k: String| k@),
            r@ == crate::text::join(pieces.take(i as int), ", "@),
        decreases keys@.len() - i,
    {
        proof {
            assert(pieces.take(i + 1).drop_last() =~= pieces.take(i as int));
        }
        if i > 0 {
            r.append(", ");
        } else {
            assert(pieces.take(0) =~= Seq::<Seq<char>>::empty());
        }
        r.append(keys[i].as_str());
        proof {
            if i == 0 {
                assert(pieces.take(1) =~= seq![keys@[0]@]);
            }
        }
        i = i + 1;
    }
    assert(pieces.take(keys@.len() as int) =~= pieces);
    r
}

/// The number of characters a preview reports: the body's, at most
/// `DIAGNOSTIC_BODY_PREVIEW_MAX_BYTES`.
pub open spec fn preview_count(body: Seq<char>) -> nat {
    if body.len() <= DIAGNOSTIC_BODY_PREVIEW_MAX_BYTES {
        body.len()
    } else {
        DIAGNOSTIC_BODY_PREVIEW_MAX_BYTES as nat
    }
}

/// The message of an answer that matched no envelope: the candidates tried,
/// the first candidate's error (or that there was none), and a one-line
/// preview of the body.
pub fn no_matching_envelope_error(keys: &Vec<String>, first_error: Option<String>, body: &str) -> (e: BzrError)
    ensures
        e matches BzrError::Deserialize(m) && exists|p: Seq<char>| #[trigger] is_preview(body@, p) && m@
            == "no matching envelope (tried envelopes: "@ + keys_text(keys@) + "): "@ + match first_error {
            Some(t) => t@,
            None => "no candidates provided"@,
        } + "\nbody preview ("@ + crate::attachment::decimal_chars(preview_count(body@))
            + " chars): "@ + redact(p.map_values(|c: char| one_line(c))),
{
    let mut m = String::from_str("no matching envelope (tried envelopes: ");
    let list = join_keys(keys);
    m.append(list.as_str());
    m.append("): ");
    match first_error {
        Some(t) => m.append(t.as_str()),
        None => m.append("no candidates provided"),
    }
    m.append("\nbody preview (");
    let n = body.unicode_len();
    let count: usize = if n <= DIAGNOSTIC_BODY_PREVIEW_MAX_BYTES { n } else { DIAGNOSTIC_BODY_PREVIEW_MAX_BYTES };
    let shown = crate::attachment::decimal_string(count as u64);
    m.append(shown.as_str());
    m.append(" chars): ");
    let preview = format_body_preview(body);
    m.append(preview.as_str());
    BzrError::Deserialize(m)
}

/// The message of a body that is not JSON, or that does not deserialize:
/// what failed, where, the parser's complaint, and a one-line preview.
pub fn body_error(what: &str, url: &str, error: &str, body: &str) -> (e: BzrError)
    ensures
        e matches BzrError::Deserialize(m) && exists|p: Seq<char>| #[trigger] is_preview(body@, p) && m@
            == what@ + " response from "@ + url@ + ": "@ + error@ + "\nbody preview ("@
            + crate::attachment::decimal_chars(preview_count(body@)) + " chars): "@ + redact(p.map_values(
            |c: char| one_line(c),
        )),
{
    let mut m = String::from_str(what);
    m.append(" response from ");
    m.append(url);
    m.append(": ");
    m.append(error);
    m.append("\nbody preview (");
    let n = body.unicode_len();
    let count: usize = if n <= DIAGNOSTIC_BODY_PREVIEW_MAX_BYTES { n } else { DIAGNOSTIC_BODY_PREVIEW_MAX_BYTES };
    let shown = crate::attachment::decimal_string(count as u64);
    m.append(shown.as_str());
    m.append(" chars): ");
    let preview = format_body_preview(body);
    m.append(preview.as_str());
    BzrError::Deserialize(m)
}

} // verus!
