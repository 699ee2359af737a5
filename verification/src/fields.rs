//! Bug field names: the short aliases users type, and the status workflow a
//! field description carries.

use vstd::prelude::*;

use crate::error::BzrError;
use crate::text::{chars_of, eq_ignore_ascii_case, range_eq_ignore_ascii_case};
use crate::types::{FieldValue, StatusTransitionSummary};

verus! {

/// The Bugzilla field a short name stands for, ignoring ASCII case; `None`
/// for names that are not aliases.
pub open spec fn field_alias(name: Seq<char>) -> Option<Seq<char>> {
    if eq_ignore_ascii_case(name, seq!['s', 't', 'a', 't', 'u', 's']) {
        Some("bug_status"@)
    } else if eq_ignore_ascii_case(name, seq!['s', 'e', 'v', 'e', 'r', 'i', 't', 'y']) {
        Some("bug_severity"@)
    } else if eq_ignore_ascii_case(name, seq!['i', 'd']) {
        Some("bug_id"@)
    } else if eq_ignore_ascii_case(name, seq!['t', 'y', 'p', 'e']) {
        Some("bug_type"@)
    } else if eq_ignore_ascii_case(name, seq!['g', 'r', 'o', 'u', 'p']) {
        Some("bug_group"@)
    } else if eq_ignore_ascii_case(name, seq!['f', 'i', 'l', 'e', '_', 'l', 'o', 'c']) {
        Some("bug_file_loc"@)
    } else {
        None
    }
}

/// The Bugzilla field name for `name`: the field an alias stands for, or the
/// name itself.
pub fn resolve_field_alias<'a>(name: &'a str) -> (r: std::borrow::Cow<'a, str>)
    ensures
        r@ == match field_alias(name@) {
            Some(f) => f,
            None => name@,
        },
{
    let c = chars_of(name);
    let n = c.len();
    assert(c@.subrange(0, n as int) =~= c@);
    if range_eq_ignore_ascii_case(&c, 0, n, &vec!['s', 't', 'a', 't', 'u', 's']) {
        std::borrow::Cow::Borrowed("bug_status")
    } else if range_eq_ignore_ascii_case(&c, 0, n, &vec!['s', 'e', 'v', 'e', 'r', 'i', 't', 'y']) {
        std::borrow::Cow::Borrowed("bug_severity")
    } else if range_eq_ignore_ascii_case(&c, 0, n, &vec!['i', 'd']) {
        std::borrow::Cow::Borrowed("bug_id")
    } else if range_eq_ignore_ascii_case(&c, 0, n, &vec!['t', 'y', 'p', 'e']) {
        std::borrow::Cow::Borrowed("bug_type")
    } else if range_eq_ignore_ascii_case(&c, 0, n, &vec!['g', 'r', 'o', 'u', 'p']) {
        std::borrow::Cow::Borrowed("bug_group")
    } else if range_eq_ignore_ascii_case(&c, 0, n, &vec!['f', 'i', 'l', 'e', '_', 'l', 'o', 'c']) {
        std::borrow::Cow::Borrowed("bug_file_loc")
    } else {
        proof {
            assert(c@.subrange(0, n as int) =~= c@);
        }
        std::borrow::Cow::Borrowed(name)
    }
}

/// Whether a field value describes a real status with a transition list.
pub open spec fn has_transitions(v: FieldValue) -> bool {
    &&& v.name matches Some(n) && n@.len() > 0
    &&& v.can_change_to is Some
}

/// The statuses with transitions, in order.
pub open spec fn transition_sources(vs: Seq<FieldValue>) -> Seq<FieldValue>
    decreases vs.len(),
{
    if vs.len() == 0 {
        Seq::empty()
    } else if has_transitions(vs.last()) {
        transition_sources(vs.drop_last()).push(vs.last())
    } else {
        transition_sources(vs.drop_last())
    }
}

/// The summary of one status: its name and the names it can change to.
pub open spec fn summary_of(s: StatusTransitionSummary, v: FieldValue) -> bool {
    &&& v.name matches Some(n) && s.from@ == n@
    &&& v.can_change_to matches Some(ts) && s.can_change_to@.len() == ts@.len() && forall|k: int|
        0 <= k < ts@.len() ==> #[trigger] s.can_change_to@[k]@ == ts@[k].name@
}

/// The transition summaries of a status field: one per status with a name
/// and a `can_change_to` list, skipping the nameless pseudo-entry.
pub fn status_transitions(values: Vec<FieldValue>) -> (r: Vec<StatusTransitionSummary>)
    ensures
        r@.len() == transition_sources(values@).len(),
        forall|i: int| 0 <= i < r@.len() ==> summary_of(#[trigger] r@[i], transition_sources(values@)[i]),
{
    let mut out: Vec<StatusTransitionSummary> = Vec::new();
    let mut i: usize = 0;
    while i < values.len()
        invariant
            i <= values@.len(),
            out@.len() == transition_sources(values@.take(i as int)).len(),
            forall|k: int| 0 <= k < out@.len() ==> summary_of(#[trigger] out@[k], transition_sources(
                values@.take(i as int),
            )[k]),
        decreases values@.len() - i,
    {
        let v = &values[i];
        assert(values@.take(i + 1).drop_last() =~= values@.take(i as int));
        let keep = match (&v.name, &v.can_change_to) {
            (Some(n), Some(_)) => n.as_str().unicode_len() > 0,
            _ => false,
        };
        if keep {
            let from = match &v.name {
                Some(n) => String::from_str(n.as_str()),
                None => String::new(),
            };
            let mut targets: Vec<String> = Vec::new();
            match &v.can_change_to {
                Some(ts) => {
                    let mut k: usize = 0;
                    while k < ts.len()
                        invariant
                            k <= ts@.len(),
                            targets@.len() == k,
                            forall|j: int| 0 <= j < k ==> #[trigger] targets@[j]@ == ts@[j].name@,
                        decreases ts@.len() - k,
                    {
                        targets.push(String::from_str(ts[k].name.as_str()));
                        k = k + 1;
                    }
                },
                None => {},
            }
            let summary = StatusTransitionSummary { from, can_change_to: targets };
            assert(summary_of(summary, values@[i as int]));
            out.push(summary);
        }
        i = i + 1;
    }
    assert(values@.take(values@.len() as int) =~= values@);
    out
}

} // verus!

verus! {

/// Whether a byte is an ASCII letter or digit.
pub open spec fn ascii_alphanumeric(b: u8) -> bool {
    (48 <= b <= 57) || (65 <= b <= 90) || (97 <= b <= 122)
}

/// An upper-case hexadecimal digit.
pub open spec fn hex_digit(n: int) -> char {
    if n < 10 {
        (48 + n) as char
    } else {
        (55 + n) as char
    }
}

/// How one byte is written in a path segment: an ASCII letter or digit as
/// itself, any other byte as `%` and two upper-case hexadecimal digits.
pub open spec fn percent_byte(b: u8) -> Seq<char> {
    if ascii_alphanumeric(b) {
        seq![b as char]
    } else {
        seq!['%', hex_digit(b as int / 16), hex_digit(b as int % 16)]
    }
}

/// The bytes written byte by byte.
pub open spec fn percent_encoded(bytes: Seq<u8>) -> Seq<char>
    decreases bytes.len(),
{
    if bytes.len() == 0 {
        Seq::empty()
    } else {
        percent_encoded(bytes.drop_last()) + percent_byte(bytes.last())
    }
}

/// `percent_encoding::utf8_percent_encode` with `NON_ALPHANUMERIC`: every
/// byte of the text's UTF-8 other than an ASCII letter or digit becomes `%`
/// and two upper-case hexadecimal digits.
#[verifier::external_body]
pub(crate) fn encode_path(segment: &str) -> (r: String)
    ensures
        r@ == percent_encoded(vstd::utf8::encode_utf8(segment@)),
{
    percent_encoding::utf8_percent_encode(segment, percent_encoding::NON_ALPHANUMERIC).to_string()
}

/// The REST path of a field's legal values: the field name with its alias
/// resolved, encoded as one path segment. An empty name, `.` or `..` would
/// not name a field and is refused.
pub fn field_values_path(field_name: &str) -> (r: Result<String, BzrError>)
    ensures
        ({
            let resolved = match field_alias(field_name@) {
                Some(canonical) => canonical,
                None => field_name@,
            };
            if resolved == Seq::<char>::empty() || resolved == seq!['.'] || resolved == seq!['.', '.'] {
                r matches Err(BzrError::InputValidation { message, field: Some(f), value: Some(v) }) && message@
                    == "field name must not be empty, '.', or '..'"@ && f@ == "field"@ && v@ == field_name@
            } else {
                r matches Ok(p) && p@ == "field/bug/"@ + percent_encoded(vstd::utf8::encode_utf8(resolved))
            }
        }),
{
    let resolved = resolve_field_alias(field_name);
    let text: &str = match &resolved {
        std::borrow::Cow::Borrowed(b) => b,
        std::borrow::Cow::Owned(o) => o.as_str(),
    };
    let c = crate::text::chars_of(text);
    let n = c.len();
    let bad = n == 0 || (n == 1 && c[0] == '.') || (n == 2 && c[0] == '.' && c[1] == '.');
    proof {
        if n == 1 {
            assert(c@ =~= seq![c@[0]]);
        }
        if n == 2 {
            assert(c@ =~= seq![c@[0], c@[1]]);
        }
    }
    let ghost resolved_view = match field_alias(field_name@) {
        Some(canonical) => canonical,
        None => field_name@,
    };
    assert(text@ == resolved_view);
    if bad {
        assert(resolved_view == Seq::<char>::empty() || resolved_view == seq!['.'] || resolved_view == seq!['.', '.']);
        let e = BzrError::InputValidation {
            message: String::from_str("field name must not be empty, '.', or '..'"),
            field: Some(String::from_str("field")),
            value: Some(String::from_str(field_name)),
        };
        return Err(e);
    }
    let mut p = String::from_str("field/bug/");
    let encoded = encode_path(text);
    p.append(encoded.as_str());
    Ok(p)
}

} // verus!

verus! {

/// A bug field as `field/bug` describes it.
pub struct FieldDefinition {
    pub name: String,
    pub field_type: u64,
    pub is_custom: bool,
    pub values: Vec<FieldValue>,
}

/// The legal values of the field an answer describes: the first field's, or
/// not found when the server described none.
pub fn field_values_of(fields: Vec<FieldDefinition>, field_name: &str) -> (r: Result<Vec<FieldValue>, BzrError>)
    ensures
        fields@.len() > 0 ==> r == Ok::<Vec<FieldValue>, BzrError>(fields@[0].values),
        fields@.len() == 0 ==> (r matches Err(BzrError::NotFound { resource, id }) && resource@
            == "field"@ && id@ == field_name@),
{
    let mut fields = fields;
    if fields.len() == 0 {
        return Err(BzrError::NotFound { resource: String::from_str("field"), id: String::from_str(field_name) });
    }
    let first = fields.remove(0);
    Ok(first.values)
}

} // verus!
