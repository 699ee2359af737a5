//! Readings of response members whose rules are the project's own: product
//! IDs that arrive as numbers or decimal strings, the comment envelope of one
//! bug, and how a list of IDs is split into requests.

use vstd::prelude::*;

use crate::attachment::decimal_string;
use crate::json::{find_member, member, JsonList, JsonMembers, JsonNumber, JsonValue};
use crate::text::{chars_of, parse_digits, parse_unsigned};

verus! {

/// What a product ID reads as: a positive integer, or a decimal string (an
/// optional `+`, then digits) for a positive value that fits in a `u64`.
pub open spec fn product_id_of(v: JsonValue) -> Option<u64> {
    match v {
        JsonValue::Number(JsonNumber::Unsigned(u)) => if u > 0 {
            Some(u)
        } else {
            None
        },
        JsonValue::Str(s) => match parse_unsigned(s@, u64::MAX as nat) {
            Some(n) => if n > 0 {
                Some(n as u64)
            } else {
                None
            },
            None => None,
        },
        _ => None,
    }
}

/// The complaint about a value that is a number or string but no positive
/// product ID.
pub open spec fn product_id_complaint() -> Seq<char> {
    "expected a positive integer product ID"@
}

/// How serde_json names a value of a kind a visitor does not accept.
pub open spec fn unexpected_kind(v: JsonValue) -> Seq<char> {
    match v {
        JsonValue::Null => "null"@,
        JsonValue::Bool(true) => "boolean `true`"@,
        JsonValue::Bool(false) => "boolean `false`"@,
        JsonValue::Number(JsonNumber::Float(t)) => "floating point `"@ + t@ + "`"@,
        JsonValue::Array(_) => "sequence"@,
        _ => "map"@,
    }
}

/// The complaint about a value that is neither an integer nor a string.
pub open spec fn product_id_kind_complaint(v: JsonValue) -> Seq<char> {
    "invalid type: "@ + unexpected_kind(v) + ", expected a positive integer or decimal numeric string product ID"@
}

/// The complaint about a value of the kind named `kind`.
fn kind_complaint(kind: &str) -> (m: String)
    ensures
        m@ == "invalid type: "@ + kind@ + ", expected a positive integer or decimal numeric string product ID"@,
{
    let mut m = String::from_str("invalid type: ");
    m.append(kind);
    m.append(", expected a positive integer or decimal numeric string product ID");
    m
}

/// Reads one product ID, with the complaints serde_json words for it.
pub fn product_id(v: &JsonValue) -> (r: Result<u64, String>)
    ensures
        match product_id_of(*v) {
            Some(id) => r == Ok::<u64, String>(id),
            None => r matches Err(m) && m@ == match v {
                JsonValue::Number(JsonNumber::Float(_)) => product_id_kind_complaint(*v),
                JsonValue::Number(_) => product_id_complaint(),
                JsonValue::Str(_) => product_id_complaint(),
                _ => product_id_kind_complaint(*v),
            },
        },
{
    match v {
        JsonValue::Number(JsonNumber::Unsigned(u)) => if *u > 0 {
            Ok(*u)
        } else {
            Err(String::from_str("expected a positive integer product ID"))
        },
        JsonValue::Number(JsonNumber::Float(t)) => {
            let mut kind = String::from_str("floating point `");
            kind.append(t.as_str());
            kind.append("`");
            Err(kind_complaint(kind.as_str()))
        },
        JsonValue::Number(_) => Err(String::from_str("expected a positive integer product ID")),
        JsonValue::Str(s) => {
            let c = chars_of(s.as_str());
            let n = c.len();
            let mut from: usize = 0;
            if n > 0 && c[0] == '+' {
                from = 1;
                assert(c@.subrange(1, n as int) =~= s@.drop_first());
            } else {
                assert(c@.subrange(0, n as int) =~= s@);
            }
            match parse_digits(&c, from, n, u64::MAX) {
                Some(id) => if id > 0 {
                    Ok(id)
                } else {
                    Err(String::from_str("expected a positive integer product ID"))
                },
                None => Err(String::from_str("expected a positive integer product ID")),
            }
        },
        JsonValue::Null => Err(kind_complaint("null")),
        JsonValue::Bool(true) => Err(kind_complaint("boolean `true`")),
        JsonValue::Bool(false) => Err(kind_complaint("boolean `false`")),
        JsonValue::Array(_) => Err(kind_complaint("sequence")),
        JsonValue::Object(_) => Err(kind_complaint("map")),
    }
}

/// The product IDs of an array, when every element reads as one.
pub open spec fn product_ids_of(l: JsonList) -> Option<Seq<u64>>
    decreases l,
{
    match l {
        JsonList::Nil => Some(Seq::empty()),
        JsonList::Cons(v, rest) => match (product_id_of(v), product_ids_of(*rest)) {
            (Some(id), Some(t)) => Some(seq![id] + t),
            _ => None,
        },
    }
}

fn read_product_ids(l: &JsonList) -> (r: Option<Vec<u64>>)
    ensures
        match product_ids_of(*l) {
            Some(t) => r matches Some(v) && v@ == t,
            None => r is None,
        },
    decreases l,
{
    match l {
        JsonList::Nil => Some(Vec::new()),
        JsonList::Cons(v, rest) => {
            let first = product_id(v);
            match (first, read_product_ids(rest)) {
                (Ok(id), Some(mut t)) => {
                    let ghost before = t@;
                    t.insert(0, id);
                    assert(t@ =~= seq![id] + before);
                    Some(t)
                },
                _ => None,
            }
        },
    }
}

/// Reads the `ids` of an accessible-products answer: an array of product
/// IDs; `None` when it is not one.
pub fn product_ids(v: &JsonValue) -> (r: Option<Vec<u64>>)
    ensures
        match v {
            JsonValue::Array(l) => match product_ids_of(**l) {
                Some(t) => r matches Some(x) && x@ == t,
                None => r is None,
            },
            _ => r is None,
        },
{
    match v {
        JsonValue::Array(l) => read_product_ids(l),
        _ => None,
    }
}

/// The IDs in order, split into requests of at most `size`.
pub open spec fn flatten(chunks: Seq<Vec<u64>>) -> Seq<u64>
    decreases chunks.len(),
{
    if chunks.len() == 0 {
        Seq::empty()
    } else {
        flatten(chunks.drop_last()) + chunks.last()@
    }
}

/// Splits IDs into consecutive chunks of `size`, the last one possibly
/// shorter: joined, the chunks are the IDs; none is empty or longer than
/// `size`; an empty list gives no chunk.
pub fn id_chunks(ids: &Vec<u64>, size: usize) -> (r: Vec<Vec<u64>>)
    requires
        size > 0,
    ensures
        flatten(r@) == ids@,
        forall|i: int| 0 <= i < r@.len() ==> 0 < #[trigger] r@[i]@.len() <= size,
        forall|i: int| 0 <= i < r@.len() - 1 ==> #[trigger] r@[i]@.len() == size,
{
    let mut r: Vec<Vec<u64>> = Vec::new();
    let mut i: usize = 0;
    while i < ids.len()
        invariant
            i <= ids@.len(),
            size > 0,
            flatten(r@) == ids@.take(i as int),
            forall|k: int| 0 <= k < r@.len() ==> 0 < #[trigger] r@[k]@.len() <= size,
            forall|k: int| 0 <= k < r@.len() - 1 ==> #[trigger] r@[k]@.len() == size,
            r@.len() > 0 ==> r@.last()@.len() == size || i == ids@.len(),
        decreases ids@.len() - i,
    {
        let end = if ids.len() - i > size { i + size } else { ids.len() };
        let mut chunk: Vec<u64> = Vec::new();
        let mut j = i;
        while j < end
            invariant
                i <= j <= end <= ids@.len(),
                chunk@ == ids@.subrange(i as int, j as int),
            decreases end - j,
        {
            chunk.push(ids[j]);
            j = j + 1;
        }
        let ghost old_r = r@;
        r.push(chunk);
        proof {
            assert(r@.drop_last() =~= old_r);
            assert(ids@.take(end as int) =~= ids@.take(i as int) + ids@.subrange(i as int, end as int));
            assert forall|k: int| 0 <= k < r@.len() - 1 implies #[trigger] r@[k]@.len() == size by {
                if k < old_r.len() - 1 {
                    assert(r@[k] == old_r[k]);
                } else {
                    assert(r@[k] == old_r[k]);
                }
            }
        }
        i = end;
    }
    proof {
        assert(ids@.take(ids@.len() as int) =~= ids@);
    }
    r
}

/// Where one bug's comments are in a comments answer.
#[derive(Debug)]
pub enum CommentsSource {
    /// No `bugs` member: only the flat `comments` envelope can hold them.
    Flat,
    /// The `bugs` entry keyed by the bug's ID.
    Entry,
    /// An empty `bugs` map: the flat envelope may still hold them, and the
    /// bug was not found when it does not.
    FlatOrNotFound,
    /// A `bugs` map keyed for other bugs only: the bug was not found.
    NotFound,
    /// A `bugs` member that is not an object.
    Malformed,
}

/// Where a bug's comments are: the entry keyed by its ID, never another
/// bug's entry.
pub open spec fn comments_source_of(v: JsonValue, key: Seq<char>) -> CommentsSource {
    let bugs = match v {
        JsonValue::Object(m) => member(*m, "bugs"@),
        _ => None,
    };
    match bugs {
        None => CommentsSource::Flat,
        Some(JsonValue::Object(m)) => if member(*m, key) is Some {
            CommentsSource::Entry
        } else if *m is Nil {
            CommentsSource::FlatOrNotFound
        } else {
            CommentsSource::NotFound
        },
        Some(_) => CommentsSource::Malformed,
    }
}

/// Decides where bug `bug_id`'s comments are in a comments answer.
pub fn comments_source(value: &JsonValue, bug_id: u64) -> (r: CommentsSource)
    ensures
        r == comments_source_of(*value, crate::attachment::decimal_chars(bug_id as nat)),
{
    let bugs = match value {
        JsonValue::Object(m) => find_member(m, "bugs"),
        _ => None,
    };
    match bugs {
        None => CommentsSource::Flat,
        Some(JsonValue::Object(m)) => {
            let key = decimal_string(bug_id);
            if find_member(m, key.as_str()).is_some() {
                CommentsSource::Entry
            } else {
                match &**m {
                    JsonMembers::Nil => CommentsSource::FlatOrNotFound,
                    _ => CommentsSource::NotFound,
                }
            }
        },
        Some(_) => CommentsSource::Malformed,
    }
}

/// `maxattachmentsize` is in kilobytes; the limit is in bytes, saturating.
pub fn attachment_limit_bytes(kib: u64) -> (r: u64)
    ensures
        r == if kib * 1024 <= u64::MAX {
            (kib * 1024) as u64
        } else {
            u64::MAX
        },
{
    match kib.checked_mul(1024) {
        Some(v) => v,
        None => u64::MAX,
    }
}

} // verus!
