//! The strict single-bug lookup behind bug adjacency: a `Bug.get` answer
//! must hold exactly one bug or one fault, in a closed schema, for exactly
//! the bug that was asked for.

use vstd::prelude::*;

use crate::attachment::{decimal_chars, decimal_string};
use crate::error::{is_integrity_error, BzrError};
use crate::json::{find_member, member, JsonList, JsonMembers, JsonNumber, JsonValue};
use crate::search::pairs_view;
use crate::text::{all_digits, chars_of, decimal_value, parse_digits, parse_i64, parse_i64_spec, str_eq};

verus! {

/// A bug as the strict lookup reports it.
#[derive(Debug)]
pub struct BugAdjacencyBug {
    pub id: u64,
    pub summary: Option<String>,
    pub status: Option<String>,
    pub resolution: Option<String>,
    pub product: Option<String>,
    pub version: Option<Vec<String>>,
    pub assigned_to: Option<String>,
    pub last_change_time: Option<String>,
    pub target_milestone: Option<String>,
    pub blocks: Vec<u64>,
    pub depends_on: Vec<u64>,
}

/// Why the strict lookup found no bug.
#[derive(Clone, Copy, Debug, PartialEq, Eq, Structural)]
pub enum BugAdjacencyError {
    /// No bug has the requested alias.
    NotFoundAlias,
    /// No bug has the requested ID.
    NotFoundId,
    /// The bug exists but this account may not see it.
    Inaccessible,
}

/// The number a request names when it is a bug ID: one or more ASCII digits
/// whose value fits in an `i64`. Anything else is an alias.
pub open spec fn adjacency_numeric(s: Seq<char>) -> Option<int> {
    if s.len() > 0 && all_digits(s) && decimal_value(s) <= i64::MAX {
        Some(decimal_value(s) as int)
    } else {
        None
    }
}

/// Reads a request as a bug ID, if it is one.
pub fn parse_adjacency_numeric(requested: &str) -> (r: Option<i64>)
    ensures
        match adjacency_numeric(requested@) {
            Some(n) => r == Some(n as i64),
            None => r is None,
        },
{
    let c = chars_of(requested);
    assert(c@.subrange(0, c@.len() as int) =~= c@);
    match parse_digits(&c, 0, c.len(), 0x7fff_ffff_ffff_ffffu64) {
        Some(v) => Some(v as i64),
        None => None,
    }
}

/// The text of an integer.
pub open spec fn int_chars(v: int) -> Seq<char> {
    if v < 0 {
        "-"@ + decimal_chars((-v) as nat)
    } else {
        decimal_chars(v as nat)
    }
}

pub fn i64_string(v: i64) -> (s: String)
    ensures
        s@ == int_chars(v as int),
{
    if v < 0 {
        let magnitude: u64 = ((-(v + 1)) as u64) + 1;
        let mut s = String::from_str("-");
        let digits = decimal_string(magnitude);
        s.append(digits.as_str());
        s
    } else {
        decimal_string(v as u64)
    }
}

fn push_all(s: &mut String, parts: &[&str])
    ensures
        final(s)@ == old(s)@ + joined(parts@),
{
    let mut i: usize = 0;
    while i < parts.len()
        invariant
            i <= parts@.len(),
            s@ == old(s)@ + joined(parts@.take(i as int)),
        decreases parts@.len() - i,
    {
        assert(parts@.take(i + 1).drop_last() =~= parts@.take(i as int));
        s.append(parts[i]);
        i = i + 1;
    }
    assert(parts@.take(parts@.len() as int) =~= parts@);
}

/// The pieces one after the other.
pub open spec fn joined(parts: Seq<&str>) -> Seq<char>
    decreases parts.len(),
{
    if parts.len() == 0 {
        Seq::empty()
    } else {
        joined(parts.drop_last()) + parts.last()@
    }
}

fn integrity(parts: &[&str]) -> (e: BzrError)
    ensures
        e matches BzrError::DataIntegrity(m) && m@ == joined(parts@),
{
    let mut s = String::new();
    push_all(&mut s, parts);
    BzrError::DataIntegrity(s)
}

/// The message of a fault code that does not fit the request.
pub open spec fn uncorrelated_message(code: int, requested: Seq<char>) -> Seq<char> {
    "strict Bug.get returned uncorrelated fault code "@ + int_chars(code) + " for '"@ + requested
        + "'"@
}

/// What a fault or resource-error code means for the request: 100 is a
/// missing alias, 101 a missing ID, 102 an inaccessible bug; any other code,
/// or 100 for an ID or 101 for an alias, does not fit.
pub open spec fn adjacency_error_of(code: int, requested: Seq<char>) -> Option<BugAdjacencyError> {
    let numeric = adjacency_numeric(requested) is Some;
    if code == 100 && !numeric {
        Some(BugAdjacencyError::NotFoundAlias)
    } else if code == 101 && numeric {
        Some(BugAdjacencyError::NotFoundId)
    } else if code == 102 {
        Some(BugAdjacencyError::Inaccessible)
    } else {
        None
    }
}

/// How fault codes classify: 102 (the bug exists but may not be seen) is
/// inaccessible for every request, whether by ID or by alias, so two
/// requests never differ on it; 100 is a missing alias only for a request
/// that is not a bug ID, 101 a missing ID only for one that is; and no
/// other code classifies.
pub proof fn lemma_fault_classification(code: int, requested: Seq<char>, other: Seq<char>)
    ensures
        adjacency_error_of(102, requested) == Some(BugAdjacencyError::Inaccessible),
        adjacency_error_of(102, requested) == adjacency_error_of(102, other),
        adjacency_error_of(code, requested) == Some(BugAdjacencyError::NotFoundAlias) ==> code == 100
            && adjacency_numeric(requested) is None,
        adjacency_error_of(code, requested) == Some(BugAdjacencyError::NotFoundId) ==> code == 101
            && adjacency_numeric(requested) is Some,
        adjacency_error_of(code, requested) is Some ==> code == 100 || code == 101 || code == 102,
{
}

/// Classifies a fault code against the request.
pub fn strict_adjacency_error(code: i64, requested: &str) -> (r: Result<BugAdjacencyError, BzrError>)
    ensures
        match adjacency_error_of(code as int, requested@) {
            Some(e) => r == Ok::<BugAdjacencyError, BzrError>(e),
            None => is_integrity_error(r, uncorrelated_message(code as int, requested@)),
        },
{
    let numeric = parse_adjacency_numeric(requested).is_some();
    if code == 100 && !numeric {
        Ok(BugAdjacencyError::NotFoundAlias)
    } else if code == 101 && numeric {
        Ok(BugAdjacencyError::NotFoundId)
    } else if code == 102 {
        Ok(BugAdjacencyError::Inaccessible)
    } else {
        let c = i64_string(code);
        let e = integrity(
            &["strict Bug.get returned uncorrelated fault code ", c.as_str(), " for '", requested, "'"],
        );
        proof {
            reveal_with_fuel(joined, 6);
        }
        Err(e)
    }
}

/// Whether a bug ID fits the request: a numeric request must name exactly it.
pub open spec fn identity_fits(id: u64, requested: Seq<char>) -> bool {
    match adjacency_numeric(requested) {
        Some(n) => id == n,
        None => true,
    }
}

/// Checks that a returned bug ID is the one a numeric request asked for.
pub fn validate_strict_identity(id: u64, requested: &str, kind: &str) -> (r: Result<(), BzrError>)
    ensures
        identity_fits(id, requested@) ==> r is Ok,
        !identity_fits(id, requested@) ==> is_integrity_error(
            r,
            "strict Bug.get "@ + kind@ + " ID "@ + decimal_chars(id as nat)
                + " does not match requested '"@ + requested@ + "'"@,
        ),
{
    match parse_adjacency_numeric(requested) {
        Some(n) => {
            if id != n as u64 {
                let t = decimal_string(id);
                let e = integrity(
                    &["strict Bug.get ", kind, " ID ", t.as_str(), " does not match requested '", requested, "'"],
                );
                proof {
                    reveal_with_fuel(joined, 8);
                }
                return Err(e);
            }
            Ok(())
        },
        None => Ok(()),
    }
}

/// Checks that an ID fits in the signed 64-bit range.
pub fn validate_strict_id(id: u64, field: &str) -> (r: Result<(), BzrError>)
    ensures
        id <= i64::MAX ==> r is Ok,
        id > i64::MAX ==> is_integrity_error(
            r,
            "strict Bug.get "@ + field@ + " exceeds the signed 64-bit range"@,
        ),
{
    if id > 0x7fff_ffff_ffff_ffffu64 {
        let e = integrity(&["strict Bug.get ", field, " exceeds the signed 64-bit range"]);
        proof {
            reveal_with_fuel(joined, 4);
        }
        return Err(e);
    }
    Ok(())
}

/// Checks that every ID fits in the signed 64-bit range.
pub fn validate_strict_ids(ids: &[u64], field: &str) -> (r: Result<(), BzrError>)
    ensures
        (forall|i: int| 0 <= i < ids@.len() ==> ids@[i] <= i64::MAX) ==> r is Ok,
        !(forall|i: int| 0 <= i < ids@.len() ==> ids@[i] <= i64::MAX) ==> is_integrity_error(
            r,
            "strict Bug.get "@ + field@ + " exceeds the signed 64-bit range"@,
        ),
{
    let mut i: usize = 0;
    while i < ids.len()
        invariant
            i <= ids@.len(),
            forall|j: int| 0 <= j < i ==> ids@[j] <= i64::MAX,
        decreases ids@.len() - i,
    {
        match validate_strict_id(ids[i], field) {
            Ok(()) => {},
            Err(e) => return Err(e),
        }
        i = i + 1;
    }
    Ok(())
}

/// The number a fault's `id` member stands for: an integer in the `i64`
/// range, or a string that parses as one.
pub open spec fn fault_id_number(v: JsonValue) -> Option<int> {
    match v {
        JsonValue::Number(JsonNumber::Unsigned(u)) => if u <= i64::MAX {
            Some(u as int)
        } else {
            None
        },
        JsonValue::Number(JsonNumber::Negative(i)) => Some(i as int),
        JsonValue::Str(s) => parse_i64_spec(s@),
        _ => None,
    }
}

/// Whether a fault's identity fits the request: for a numeric request its
/// number, for an alias its text.
pub open spec fn fault_identity_fits(v: JsonValue, requested: Seq<char>) -> bool {
    match adjacency_numeric(requested) {
        Some(n) => fault_id_number(v) == Some(n),
        None => v matches JsonValue::Str(s) && s@ == requested,
    }
}

/// Checks a fault's identity against the request.
pub fn validate_strict_fault_identity(identity: &JsonValue, requested: &str) -> (r: Result<(), BzrError>)
    ensures
        fault_identity_fits(*identity, requested@) ==> r is Ok,
        !fault_identity_fits(*identity, requested@) ==> is_integrity_error(
            r,
            "strict Bug.get fault identity does not match requested '"@ + requested@ + "'"@,
        ),
{
    let fits = match parse_adjacency_numeric(requested) {
        Some(n) => {
            let observed: Option<i64> = match identity {
                JsonValue::Number(JsonNumber::Unsigned(u)) => if *u <= 0x7fff_ffff_ffff_ffffu64 {
                    Some(*u as i64)
                } else {
                    None
                },
                JsonValue::Number(JsonNumber::Negative(i)) => Some(*i),
                JsonValue::Str(s) => parse_i64(s.as_str()),
                _ => None,
            };
            match observed {
                Some(o) => o == n,
                None => false,
            }
        },
        None => match identity {
            JsonValue::Str(s) => str_eq(s.as_str(), requested),
            _ => false,
        },
    };
    if fits {
        Ok(())
    } else {
        let e = integrity(&["strict Bug.get fault identity does not match requested '", requested, "'"]);
        proof {
            reveal_with_fuel(joined, 4);
        }
        Err(e)
    }
}

} // verus!

verus! {

/// Whether a sequence rises strictly.
pub open spec fn strictly_increasing(s: Seq<u64>) -> bool {
    forall|i: int, j: int| 0 <= i < j < s.len() ==> s[i] < s[j]
}

/// The values of `v`, sorted, each once.
pub fn sorted_unique(v: &Vec<u64>) -> (r: Vec<u64>)
    ensures
        strictly_increasing(r@),
        forall|x: u64| r@.contains(x) <==> v@.contains(x),
{
    let mut r: Vec<u64> = Vec::new();
    let mut i: usize = 0;
    while i < v.len()
        invariant
            i <= v@.len(),
            strictly_increasing(r@),
            forall|x: u64| r@.contains(x) <==> v@.take(i as int).contains(x),
        decreases v@.len() - i,
    {
        let x = v[i];
        let mut p: usize = 0;
        while p < r.len() && r[p] < x
            invariant
                p <= r@.len(),
                forall|k: int| 0 <= k < p ==> r@[k] < x,
            decreases r@.len() - p,
        {
            p = p + 1;
        }
        let ghost old_r = r@;
        let ghost pre = v@.take(i as int);
        let ghost post = v@.take(i + 1);
        proof {
            assert(post =~= pre.push(x));
        }
        if p < r.len() && r[p] == x {
            proof {
                assert forall|y: u64| r@.contains(y) <==> post.contains(y) by {
                    if y == x {
                        assert(r@[p as int] == x);
                        assert(post[i as int] == x);
                    } else {
                        if post.contains(y) {
                            let k = choose|k: int| 0 <= k < post.len() && post[k] == y;
                            assert(pre[k] == y);
                        }
                        if pre.contains(y) {
                            let k = choose|k: int| 0 <= k < pre.len() && pre[k] == y;
                            assert(post[k] == y);
                        }
                    }
                }
            }
        } else {
            r.insert(p, x);
            proof {
                assert(r@ == old_r.insert(p as int, x));
                assert forall|a: int, b: int| 0 <= a < b < r@.len() implies r@[a] < r@[b] by {
                    if b < p {
                    } else if a < p && b == p {
                    } else if a < p {
                        assert(old_r[b - 1] > old_r[a] || old_r[b - 1] == old_r[b - 1]);
                        assert(p < old_r.len() ==> old_r[p as int] >= x);
                        assert(old_r[p as int] <= old_r[b - 1] || b - 1 == p);
                    } else if a == p {
                        assert(old_r[p as int] >= x);
                        assert(old_r[p as int] != x);
                        assert(old_r[p as int] <= old_r[b - 1]);
                    } else {
                        assert(old_r[a - 1] < old_r[b - 1]);
                    }
                }
                assert forall|y: u64| r@.contains(y) <==> post.contains(y) by {
                    if r@.contains(y) {
                        let k = choose|k: int| 0 <= k < r@.len() && r@[k] == y;
                        if k == p {
                            assert(post[i as int] == x);
                        } else if k < p {
                            assert(old_r[k] == y);
                            assert(old_r.contains(y));
                            assert(pre.contains(y));
                            let m = choose|m: int| 0 <= m < pre.len() && pre[m] == y;
                            assert(post[m] == y);
                        } else {
                            assert(old_r[k - 1] == y);
                            assert(old_r.contains(y));
                            assert(pre.contains(y));
                            let m = choose|m: int| 0 <= m < pre.len() && pre[m] == y;
                            assert(post[m] == y);
                        }
                    }
                    if post.contains(y) {
                        let m = choose|m: int| 0 <= m < post.len() && post[m] == y;
                        if m == i {
                            assert(r@[p as int] == x);
                        } else {
                            assert(pre[m] == y);
                            assert(old_r.contains(y));
                            let k = choose|k: int| 0 <= k < old_r.len() && old_r[k] == y;
                            if k < p {
                                assert(r@[k] == y);
                            } else {
                                assert(r@[k + 1] == y);
                            }
                        }
                    }
                }
            }
        }
        i = i + 1;
    }
    proof {
        assert(v@.take(v@.len() as int) =~= v@);
    }
    r
}

} // verus!

verus! {

/// The elements of a JSON array.
pub open spec fn items(l: JsonList) -> Seq<JsonValue>
    decreases l,
{
    match l {
        JsonList::Nil => Seq::empty(),
        JsonList::Cons(v, rest) => seq![v] + items(*rest),
    }
}

/// The closed schemas of the strict lookup.
#[derive(Clone, Copy, Debug, PartialEq, Eq, Structural)]
pub enum Schema {
    Envelope,
    Bug,
    Fault,
    ResourceError,
}

/// The members a schema admits.
pub open spec fn schema_key(which: Schema, k: Seq<char>) -> bool {
    match which {
        Schema::Envelope => k == "bugs"@ || k == "faults"@,
        Schema::Bug => k == "id"@ || k == "summary"@ || k == "status"@ || k == "resolution"@
            || k == "product"@ || k == "version"@ || k == "assigned_to"@
            || k == "assigned_to_detail"@ || k == "last_change_time"@ || k
            == "target_milestone"@ || k == "blocks"@ || k == "depends_on"@,
        Schema::Fault => k == "id"@ || k == "faultCode"@ || k == "faultString"@,
        Schema::ResourceError => k == "error"@ || k == "code"@ || k == "message"@ || k
            == "documentation"@,
    }
}

fn is_schema_key(which: Schema, k: &str) -> (r: bool)
    ensures
        r == schema_key(which, k@),
{
    match which {
        Schema::Envelope => str_eq(k, "bugs") || str_eq(k, "faults"),
        Schema::Bug => str_eq(k, "id") || str_eq(k, "summary") || str_eq(k, "status") || str_eq(
            k,
            "resolution",
        ) || str_eq(k, "product") || str_eq(k, "version") || str_eq(k, "assigned_to") || str_eq(
            k,
            "assigned_to_detail",
        ) || str_eq(k, "last_change_time") || str_eq(k, "target_milestone") || str_eq(k, "blocks")
            || str_eq(k, "depends_on"),
        Schema::Fault => str_eq(k, "id") || str_eq(k, "faultCode") || str_eq(k, "faultString"),
        Schema::ResourceError => str_eq(k, "error") || str_eq(k, "code") || str_eq(k, "message")
            || str_eq(k, "documentation"),
    }
}

/// Whether every member of an object is one its schema admits.
pub open spec fn keys_admitted(m: JsonMembers, which: Schema) -> bool
    decreases m,
{
    match m {
        JsonMembers::Nil => true,
        JsonMembers::Cons(k, _, rest) => schema_key(which, k@) && keys_admitted(*rest, which),
    }
}

fn check_keys(m: &JsonMembers, which: Schema) -> (r: bool)
    ensures
        r == keys_admitted(*m, which),
    decreases m,
{
    match m {
        JsonMembers::Nil => true,
        JsonMembers::Cons(k, _, rest) => is_schema_key(which, k.as_str()) && check_keys(rest, which),
    }
}

/// A detail string: absent, null and empty are no detail; another string is
/// itself; any other value does not read.
pub open spec fn detail(v: Option<JsonValue>) -> Option<Option<Seq<char>>> {
    match v {
        None => Some(None),
        Some(JsonValue::Null) => Some(None),
        Some(JsonValue::Str(s)) => if s@.len() == 0 {
            Some(None)
        } else {
            Some(Some(s@))
        },
        _ => None,
    }
}

pub open spec fn opt_chars(o: Option<String>) -> Option<Seq<char>> {
    match o {
        Some(s) => Some(s@),
        None => None,
    }
}

fn read_detail(v: Option<&JsonValue>) -> (r: Option<Option<String>>)
    ensures
        match detail(
            match v {
                Some(x) => Some(*x),
                None => None,
            },
        ) {
            Some(d) => r matches Some(o) && opt_chars(o) == d,
            None => r is None,
        },
{
    match v {
        None => Some(None),
        Some(JsonValue::Null) => Some(None),
        Some(JsonValue::Str(s)) => if s.unicode_len() == 0 {
            Some(None)
        } else {
            Some(Some(String::from_str(s.as_str())))
        },
        Some(_) => None,
    }
}

/// The strings of an array, when every element is one.
pub open spec fn strings_of(l: JsonList) -> Option<Seq<Seq<char>>>
    decreases l,
{
    match l {
        JsonList::Nil => Some(Seq::empty()),
        JsonList::Cons(JsonValue::Str(s), rest) => match strings_of(*rest) {
            Some(t) => Some(seq![s@] + t),
            None => None,
        },
        _ => None,
    }
}

pub open spec fn strings_view(v: Vec<String>) -> Seq<Seq<char>> {
    v@.map_values(|s: String| s@)
}

fn read_strings(l: &JsonList) -> (r: Option<Vec<String>>)
    ensures
        match strings_of(*l) {
            Some(t) => r matches Some(v) && strings_view(v) == t,
            None => r is None,
        },
    decreases l,
{
    match l {
        JsonList::Nil => Some(Vec::new()),
        JsonList::Cons(JsonValue::Str(s), rest) => match read_strings(rest) {
            Some(mut v) => {
                let ghost before = v@;
                v.insert(0, String::from_str(s.as_str()));
                assert(strings_view(v) =~= seq![s@] + before.map_values(|x: String| x@));
                Some(v)
            },
            None => None,
        },
        _ => None,
    }
}

/// A version list: absent, null and the empty string are none; a string is
/// a list of one; an array of strings is itself; anything else does not read.
pub open spec fn string_list(v: Option<JsonValue>) -> Option<Option<Seq<Seq<char>>>> {
    match v {
        None => Some(None),
        Some(JsonValue::Null) => Some(None),
        Some(JsonValue::Str(s)) => if s@.len() == 0 {
            Some(None)
        } else {
            Some(Some(seq![s@]))
        },
        Some(JsonValue::Array(l)) => match strings_of(*l) {
            Some(t) => Some(Some(t)),
            None => None,
        },
        _ => None,
    }
}

pub open spec fn opt_strings(o: Option<Vec<String>>) -> Option<Seq<Seq<char>>> {
    match o {
        Some(v) => Some(strings_view(v)),
        None => None,
    }
}

fn read_string_list(v: Option<&JsonValue>) -> (r: Option<Option<Vec<String>>>)
    ensures
        match string_list(
            match v {
                Some(x) => Some(*x),
                None => None,
            },
        ) {
            Some(d) => r matches Some(o) && opt_strings(o) == d,
            None => r is None,
        },
{
    match v {
        None => Some(None),
        Some(JsonValue::Null) => Some(None),
        Some(JsonValue::Str(s)) => if s.unicode_len() == 0 {
            Some(None)
        } else {
            let mut one: Vec<String> = Vec::new();
            one.push(String::from_str(s.as_str()));
            assert(strings_view(one) =~= seq![s@]);
            Some(Some(one))
        },
        Some(JsonValue::Array(l)) => match read_strings(l) {
            Some(t) => Some(Some(t)),
            None => None,
        },
        Some(_) => None,
    }
}

/// The IDs of an array, when every element is a non-negative integer.
pub open spec fn ids_of(l: JsonList) -> Option<Seq<u64>>
    decreases l,
{
    match l {
        JsonList::Nil => Some(Seq::empty()),
        JsonList::Cons(JsonValue::Number(JsonNumber::Unsigned(u)), rest) => match ids_of(*rest) {
            Some(t) => Some(seq![u] + t),
            None => None,
        },
        _ => None,
    }
}

/// A required ID list.
pub open spec fn id_list(v: Option<JsonValue>) -> Option<Seq<u64>> {
    match v {
        Some(JsonValue::Array(l)) => ids_of(*l),
        _ => None,
    }
}

fn read_ids(l: &JsonList) -> (r: Option<Vec<u64>>)
    ensures
        match ids_of(*l) {
            Some(t) => r matches Some(v) && v@ == t,
            None => r is None,
        },
    decreases l,
{
    match l {
        JsonList::Nil => Some(Vec::new()),
        JsonList::Cons(JsonValue::Number(JsonNumber::Unsigned(u)), rest) => match read_ids(rest) {
            Some(mut v) => {
                let ghost before = v@;
                v.insert(0, *u);
                assert(v@ =~= seq![*u] + before);
                Some(v)
            },
            None => None,
        },
        _ => None,
    }
}

fn read_id_list(v: Option<&JsonValue>) -> (r: Option<Vec<u64>>)
    ensures
        match id_list(
            match v {
                Some(x) => Some(*x),
                None => None,
            },
        ) {
            Some(t) => r matches Some(w) && w@ == t,
            None => r is None,
        },
{
    match v {
        Some(JsonValue::Array(l)) => read_ids(l),
        _ => None,
    }
}

/// Whether an optional member that must be an object when present is one.
pub open spec fn object_if_present(v: Option<JsonValue>) -> bool {
    v is None || v matches Some(JsonValue::Object(_))
}

/// Whether an optional member that must be a string when present is one.
pub open spec fn string_if_present(v: Option<JsonValue>) -> bool {
    v is None || v matches Some(JsonValue::Str(_))
}

/// The non-negative integer a member holds.
pub open spec fn unsigned_member(v: Option<JsonValue>) -> Option<u64> {
    match v {
        Some(JsonValue::Number(JsonNumber::Unsigned(u))) => Some(u),
        _ => None,
    }
}

/// Whether an object reads as a bug of the strict schema.
pub open spec fn bug_reads(m: JsonMembers) -> bool {
    &&& keys_admitted(m, Schema::Bug)
    &&& unsigned_member(member(m, "id"@)) is Some
    &&& detail(member(m, "summary"@)) is Some
    &&& detail(member(m, "status"@)) is Some
    &&& detail(member(m, "resolution"@)) is Some
    &&& detail(member(m, "product"@)) is Some
    &&& string_list(member(m, "version"@)) is Some
    &&& detail(member(m, "assigned_to"@)) is Some
    &&& object_if_present(member(m, "assigned_to_detail"@))
    &&& detail(member(m, "last_change_time"@)) is Some
    &&& detail(member(m, "target_milestone"@)) is Some
    &&& id_list(member(m, "blocks"@)) is Some
    &&& id_list(member(m, "depends_on"@)) is Some
}

/// A bug as its object in the strict schema holds it.
pub struct StrictAdjacencyBug {
    pub id: u64,
    pub summary: Option<String>,
    pub status: Option<String>,
    pub resolution: Option<String>,
    pub product: Option<String>,
    pub version: Option<Vec<String>>,
    pub assigned_to: Option<String>,
    pub last_change_time: Option<String>,
    pub target_milestone: Option<String>,
    pub blocks: Vec<u64>,
    pub depends_on: Vec<u64>,
}

/// Whether a record holds what the object holds.
pub open spec fn bug_record(m: JsonMembers, b: StrictAdjacencyBug) -> bool {
    &&& unsigned_member(member(m, "id"@)) == Some(b.id)
    &&& detail(member(m, "summary"@)) == Some(opt_chars(b.summary))
    &&& detail(member(m, "status"@)) == Some(opt_chars(b.status))
    &&& detail(member(m, "resolution"@)) == Some(opt_chars(b.resolution))
    &&& detail(member(m, "product"@)) == Some(opt_chars(b.product))
    &&& string_list(member(m, "version"@)) == Some(opt_strings(b.version))
    &&& detail(member(m, "assigned_to"@)) == Some(opt_chars(b.assigned_to))
    &&& detail(member(m, "last_change_time"@)) == Some(opt_chars(b.last_change_time))
    &&& detail(member(m, "target_milestone"@)) == Some(opt_chars(b.target_milestone))
    &&& id_list(member(m, "blocks"@)) == Some(b.blocks@)
    &&& id_list(member(m, "depends_on"@)) == Some(b.depends_on@)
}

/// Reads a bug object in the strict schema.
pub fn read_strict_bug(m: &JsonMembers) -> (r: Option<StrictAdjacencyBug>)
    ensures
        r is Some <==> bug_reads(*m),
        r matches Some(b) ==> bug_record(*m, b),
{
    if !check_keys(m, Schema::Bug) {
        return None;
    }
    let id = match find_member(m, "id") {
        Some(JsonValue::Number(JsonNumber::Unsigned(u))) => *u,
        _ => return None,
    };
    let summary = match read_detail(find_member(m, "summary")) {
        Some(d) => d,
        None => return None,
    };
    let status = match read_detail(find_member(m, "status")) {
        Some(d) => d,
        None => return None,
    };
    let resolution = match read_detail(find_member(m, "resolution")) {
        Some(d) => d,
        None => return None,
    };
    let product = match read_detail(find_member(m, "product")) {
        Some(d) => d,
        None => return None,
    };
    let version = match read_string_list(find_member(m, "version")) {
        Some(d) => d,
        None => return None,
    };
    let assigned_to = match read_detail(find_member(m, "assigned_to")) {
        Some(d) => d,
        None => return None,
    };
    match find_member(m, "assigned_to_detail") {
        None => {},
        Some(JsonValue::Object(_)) => {},
        Some(_) => return None,
    }
    let last_change_time = match read_detail(find_member(m, "last_change_time")) {
        Some(d) => d,
        None => return None,
    };
    let target_milestone = match read_detail(find_member(m, "target_milestone")) {
        Some(d) => d,
        None => return None,
    };
    let blocks = match read_id_list(find_member(m, "blocks")) {
        Some(d) => d,
        None => return None,
    };
    let depends_on = match read_id_list(find_member(m, "depends_on")) {
        Some(d) => d,
        None => return None,
    };
    Some(StrictAdjacencyBug {
        id,
        summary,
        status,
        resolution,
        product,
        version,
        assigned_to,
        last_change_time,
        target_milestone,
        blocks,
        depends_on,
    })
}

} // verus!

verus! {

/// Whether a bug record became a public bug: the same ID and details, and
/// each ID list sorted with every ID once.
pub open spec fn public_of(b: StrictAdjacencyBug, p: BugAdjacencyBug) -> bool {
    &&& p.id == b.id
    &&& opt_chars(p.summary) == opt_chars(b.summary)
    &&& opt_chars(p.status) == opt_chars(b.status)
    &&& opt_chars(p.resolution) == opt_chars(b.resolution)
    &&& opt_chars(p.product) == opt_chars(b.product)
    &&& opt_strings(p.version) == opt_strings(b.version)
    &&& opt_chars(p.assigned_to) == opt_chars(b.assigned_to)
    &&& opt_chars(p.last_change_time) == opt_chars(b.last_change_time)
    &&& opt_chars(p.target_milestone) == opt_chars(b.target_milestone)
    &&& strictly_increasing(p.blocks@)
    &&& (forall|x: u64| p.blocks@.contains(x) <==> b.blocks@.contains(x))
    &&& strictly_increasing(p.depends_on@)
    &&& (forall|x: u64| p.depends_on@.contains(x) <==> b.depends_on@.contains(x))
}

/// Whether every ID fits in the signed 64-bit range.
pub open spec fn all_signed(ids: Seq<u64>) -> bool {
    forall|i: int| 0 <= i < ids.len() ==> ids[i] <= i64::MAX
}

/// Why a bug record cannot be reported for the request, if it cannot: its
/// ID is not the one asked for, or an ID is out of the signed range.
pub open spec fn bug_refusal(id: u64, blocks: Seq<u64>, depends_on: Seq<u64>, requested: Seq<char>) -> Option<Seq<char>> {
    if !identity_fits(id, requested) {
        Some(
            "strict Bug.get bug ID "@ + decimal_chars(id as nat) + " does not match requested '"@
                + requested + "'"@,
        )
    } else if id > i64::MAX {
        Some("strict Bug.get bug ID exceeds the signed 64-bit range"@)
    } else if !all_signed(blocks) {
        Some("strict Bug.get blocks exceeds the signed 64-bit range"@)
    } else if !all_signed(depends_on) {
        Some("strict Bug.get depends_on exceeds the signed 64-bit range"@)
    } else {
        None
    }
}

fn copy_opt(o: &Option<String>) -> (r: Option<String>)
    ensures
        opt_chars(r) == opt_chars(*o),
{
    match o {
        Some(s) => Some(String::from_str(s.as_str())),
        None => None,
    }
}

fn copy_strings(v: &Vec<String>) -> (r: Vec<String>)
    ensures
        strings_view(r) == strings_view(*v),
{
    let mut r: Vec<String> = Vec::new();
    let mut i: usize = 0;
    while i < v.len()
        invariant
            i <= v@.len(),
            r@.len() == i,
            forall|j: int| 0 <= j < i ==> #[trigger] r@[j]@ == v@[j]@,
        decreases v@.len() - i,
    {
        r.push(String::from_str(v[i].as_str()));
        i = i + 1;
    }
    assert(strings_view(r) =~= strings_view(*v));
    r
}

fn copy_opt_strings(o: &Option<Vec<String>>) -> (r: Option<Vec<String>>)
    ensures
        opt_strings(r) == opt_strings(*o),
{
    match o {
        Some(v) => Some(copy_strings(v)),
        None => None,
    }
}

/// Turns a bug record into the public bug, after checking its identity and
/// the range of its IDs; the ID lists come out sorted without repeats.
pub fn strict_bug_to_public(wire: &StrictAdjacencyBug, requested: &str) -> (r: Result<BugAdjacencyBug, BzrError>)
    ensures
        match bug_refusal(wire.id, wire.blocks@, wire.depends_on@, requested@) {
            Some(msg) => is_integrity_error(r, msg),
            None => r matches Ok(p) && public_of(*wire, p),
        },
{
    proof {
        reveal_strlit("bug");
        reveal_strlit("bug ID");
        reveal_strlit("blocks");
        reveal_strlit("depends_on");
        reveal_strlit("strict Bug.get ");
        reveal_strlit(" ID ");
        reveal_strlit(" exceeds the signed 64-bit range");
        reveal_strlit("strict Bug.get bug ID ");
        reveal_strlit("strict Bug.get bug ID exceeds the signed 64-bit range");
        reveal_strlit("strict Bug.get blocks exceeds the signed 64-bit range");
        reveal_strlit("strict Bug.get depends_on exceeds the signed 64-bit range");
    }
    match validate_strict_identity(wire.id, requested, "bug") {
        Ok(()) => {},
        Err(e) => {
            assert("strict Bug.get "@ + "bug"@ + " ID "@ =~= "strict Bug.get bug ID "@);
            return Err(e);
        },
    }
    match validate_strict_id(wire.id, "bug ID") {
        Ok(()) => {},
        Err(e) => {
            assert("strict Bug.get "@ + "bug ID"@ + " exceeds the signed 64-bit range"@
                =~= "strict Bug.get bug ID exceeds the signed 64-bit range"@);
            return Err(e);
        },
    }
    match validate_strict_ids(wire.blocks.as_slice(), "blocks") {
        Ok(()) => {},
        Err(e) => {
            assert("strict Bug.get "@ + "blocks"@ + " exceeds the signed 64-bit range"@
                =~= "strict Bug.get blocks exceeds the signed 64-bit range"@);
            return Err(e);
        },
    }
    match validate_strict_ids(wire.depends_on.as_slice(), "depends_on") {
        Ok(()) => {},
        Err(e) => {
            assert("strict Bug.get "@ + "depends_on"@ + " exceeds the signed 64-bit range"@
                =~= "strict Bug.get depends_on exceeds the signed 64-bit range"@);
            return Err(e);
        },
    }
    Ok(BugAdjacencyBug {
        id: wire.id,
        summary: copy_opt(&wire.summary),
        status: copy_opt(&wire.status),
        resolution: copy_opt(&wire.resolution),
        product: copy_opt(&wire.product),
        version: copy_opt_strings(&wire.version),
        assigned_to: copy_opt(&wire.assigned_to),
        last_change_time: copy_opt(&wire.last_change_time),
        target_milestone: copy_opt(&wire.target_milestone),
        blocks: sorted_unique(&wire.blocks),
        depends_on: sorted_unique(&wire.depends_on),
    })
}

/// A fault of the strict schema: the identity it names and its code.
pub struct StrictAdjacencyFault<'a> {
    pub id: &'a JsonValue,
    pub code: i64,
}

/// The message of a fault whose identity does not fit the request.
pub open spec fn fault_identity_message(requested: Seq<char>) -> Seq<char> {
    "strict Bug.get fault identity does not match requested '"@ + requested + "'"@
}

/// Turns a fault into the reason no bug was found, after checking that it
/// names the request.
pub fn strict_fault_to_public(fault: &StrictAdjacencyFault, requested: &str) -> (r: Result<BugAdjacencyError, BzrError>)
    ensures
        !fault_identity_fits(*fault.id, requested@) ==> is_integrity_error(
            r,
            fault_identity_message(requested@),
        ),
        fault_identity_fits(*fault.id, requested@) ==> match adjacency_error_of(
            fault.code as int,
            requested@,
        ) {
            Some(e) => r == Ok::<BugAdjacencyError, BzrError>(e),
            None => is_integrity_error(r, uncorrelated_message(fault.code as int, requested@)),
        },
{
    match validate_strict_fault_identity(fault.id, requested) {
        Ok(()) => {},
        Err(e) => return Err(e),
    }
    strict_adjacency_error(fault.code, requested)
}

} // verus!

verus! {

/// The `i64` a member holds.
pub open spec fn i64_member(v: Option<JsonValue>) -> Option<int> {
    match v {
        Some(JsonValue::Number(JsonNumber::Unsigned(u))) => if u <= i64::MAX {
            Some(u as int)
        } else {
            None
        },
        Some(JsonValue::Number(JsonNumber::Negative(i))) => Some(i as int),
        _ => None,
    }
}

/// Whether an object reads as a fault of the strict schema.
pub open spec fn fault_reads(m: JsonMembers) -> bool {
    &&& keys_admitted(m, Schema::Fault)
    &&& member(m, "id"@) is Some
    &&& i64_member(member(m, "faultCode"@)) is Some
    &&& string_if_present(member(m, "faultString"@))
}

/// Reads a fault object in the strict schema.
pub fn read_strict_fault<'a>(m: &'a JsonMembers) -> (r: Option<StrictAdjacencyFault<'a>>)
    ensures
        r is Some <==> fault_reads(*m),
        r matches Some(f) ==> member(*m, "id"@) == Some(*f.id) && i64_member(
            member(*m, "faultCode"@),
        ) == Some(f.code as int),
{
    if !check_keys(m, Schema::Fault) {
        return None;
    }
    let id = match find_member(m, "id") {
        Some(v) => v,
        None => return None,
    };
    let code: i64 = match find_member(m, "faultCode") {
        Some(JsonValue::Number(JsonNumber::Unsigned(u))) => if *u <= 0x7fff_ffff_ffff_ffffu64 {
            *u as i64
        } else {
            return None;
        },
        Some(JsonValue::Number(JsonNumber::Negative(i))) => *i,
        _ => return None,
    };
    match find_member(m, "faultString") {
        None => {},
        Some(JsonValue::Str(_)) => {},
        Some(_) => return None,
    }
    Some(StrictAdjacencyFault { id, code })
}

/// Whether every element is an object that reads in the given schema.
pub open spec fn elements_read(s: Seq<JsonValue>, which: Schema) -> bool {
    forall|i: int| 0 <= i < s.len() ==> #[trigger] element_reads(s[i], which)
}

pub open spec fn element_reads(v: JsonValue, which: Schema) -> bool {
    match v {
        JsonValue::Object(m) => if which == Schema::Bug {
            bug_reads(*m)
        } else {
            fault_reads(*m)
        },
        _ => false,
    }
}

fn check_elements(l: &JsonList, which: Schema) -> (r: bool)
    requires
        which == Schema::Bug || which == Schema::Fault,
    ensures
        r == elements_read(items(*l), which),
    decreases l,
{
    match l {
        JsonList::Nil => true,
        JsonList::Cons(v, rest) => {
            let here = match v {
                JsonValue::Object(m) => if which == Schema::Bug {
                    read_strict_bug(m).is_some()
                } else {
                    read_strict_fault(m).is_some()
                },
                _ => false,
            };
            let others = check_elements(rest, which);
            proof {
                let s = items(*l);
                assert(s[0] == *v);
                assert forall|i: int| 0 <= i < items(**rest).len() implies s[i + 1] == items(**rest)[i] by {}
                if here && others {
                    assert forall|i: int| 0 <= i < s.len() implies #[trigger] element_reads(s[i], which) by {
                        if i > 0 {
                            assert(s[i] == items(**rest)[i - 1]);
                        }
                    }
                }
                if !others {
                    let i = choose|i: int| 0 <= i < items(**rest).len() && !#[trigger] element_reads(items(**rest)[i], which);
                    assert(!element_reads(s[i + 1], which));
                }
                if !here {
                    assert(!element_reads(s[0], which));
                }
            }
            here && others
        },
    }
}

/// An array member that defaults to empty when absent.
pub open spec fn array_or_empty(v: Option<JsonValue>) -> Option<Seq<JsonValue>> {
    match v {
        None => Some(Seq::empty()),
        Some(JsonValue::Array(l)) => Some(items(*l)),
        _ => None,
    }
}

/// The bug and fault elements of an envelope, when it reads as one: an
/// object with no members but `bugs` and `faults`, each an array (empty when
/// absent) of objects that read in their schema.
pub open spec fn envelope_parts(v: JsonValue) -> Option<(Seq<JsonValue>, Seq<JsonValue>)> {
    match v {
        JsonValue::Object(m) => {
            let bugs = array_or_empty(member(*m, "bugs"@));
            let faults = array_or_empty(member(*m, "faults"@));
            if keys_admitted(*m, Schema::Envelope) && bugs is Some && faults is Some
                && elements_read(bugs->0, Schema::Bug) && elements_read(faults->0, Schema::Fault) {
                Some((bugs->0, faults->0))
            } else {
                None
            }
        },
        _ => None,
    }
}

/// How many elements a list has: none, one, or more.
fn list_shape(l: &JsonList) -> (r: u8)
    ensures
        r == if items(*l).len() == 0 {
            0u8
        } else if items(*l).len() == 1 {
            1u8
        } else {
            2u8
        },
{
    proof {
        reveal_with_fuel(items, 3);
    }
    match l {
        JsonList::Nil => 0,
        JsonList::Cons(_, rest) => match &**rest {
            JsonList::Nil => 1,
            JsonList::Cons(_, more) => {
                assert(items(*l).len() == 2 + items(**more).len());
                2
            },
        },
    }
}

fn array_member_of<'a>(m: &'a JsonMembers, key: &str) -> (r: Option<Option<&'a JsonList>>)
    ensures
        match array_or_empty(member(*m, key@)) {
            Some(s) => r matches Some(o) && match o {
                Some(l) => items(*l) == s,
                None => s.len() == 0,
            },
            None => r is None,
        },
{
    match find_member(m, key) {
        None => Some(None),
        Some(JsonValue::Array(l)) => Some(Some(&**l)),
        Some(_) => None,
    }
}

/// The message of an envelope that does not read.
pub open spec fn envelope_message(requested: Seq<char>) -> Seq<char> {
    "invalid strict Bug.get response for '"@ + requested
        + "': the body does not match the strict Bug.get schema"@
}

/// The message of an envelope without exactly one bug or fault.
pub open spec fn count_message(requested: Seq<char>) -> Seq<char> {
    "strict Bug.get for '"@ + requested + "' must return exactly one bug or fault"@
}

/// Whether a public bug reports the bug object: its ID and details as read,
/// each ID list sorted with every ID once.
pub open spec fn public_from_json(m: JsonMembers, p: BugAdjacencyBug) -> bool {
    &&& unsigned_member(member(m, "id"@)) == Some(p.id)
    &&& detail(member(m, "summary"@)) == Some(opt_chars(p.summary))
    &&& detail(member(m, "status"@)) == Some(opt_chars(p.status))
    &&& detail(member(m, "resolution"@)) == Some(opt_chars(p.resolution))
    &&& detail(member(m, "product"@)) == Some(opt_chars(p.product))
    &&& string_list(member(m, "version"@)) == Some(opt_strings(p.version))
    &&& detail(member(m, "assigned_to"@)) == Some(opt_chars(p.assigned_to))
    &&& detail(member(m, "last_change_time"@)) == Some(opt_chars(p.last_change_time))
    &&& detail(member(m, "target_milestone"@)) == Some(opt_chars(p.target_milestone))
    &&& strictly_increasing(p.blocks@)
    &&& (forall|x: u64| p.blocks@.contains(x) <==> id_list(member(m, "blocks"@))->0.contains(x))
    &&& strictly_increasing(p.depends_on@)
    &&& (forall|x: u64| p.depends_on@.contains(x) <==> id_list(member(m, "depends_on"@))->0.contains(
        x,
    ))
}

/// What the strict lookup answers for one bug object.
pub open spec fn bug_answer(m: JsonMembers, requested: Seq<char>, r: Result<Result<BugAdjacencyBug, BugAdjacencyError>, BzrError>) -> bool {
    match bug_refusal(
        unsigned_member(member(m, "id"@))->0,
        id_list(member(m, "blocks"@))->0,
        id_list(member(m, "depends_on"@))->0,
        requested,
    ) {
        Some(msg) => is_integrity_error(r, msg),
        None => r matches Ok(Ok(p)) && public_from_json(m, p),
    }
}

/// What the strict lookup answers for one fault object.
pub open spec fn fault_answer(m: JsonMembers, requested: Seq<char>, r: Result<Result<BugAdjacencyBug, BugAdjacencyError>, BzrError>) -> bool {
    let id = member(m, "id"@)->0;
    let code = i64_member(member(m, "faultCode"@))->0;
    if !fault_identity_fits(id, requested) {
        is_integrity_error(r, fault_identity_message(requested))
    } else {
        match adjacency_error_of(code, requested) {
            Some(e) => r == Ok::<Result<BugAdjacencyBug, BugAdjacencyError>, BzrError>(Err(e)),
            None => is_integrity_error(r, uncorrelated_message(code, requested)),
        }
    }
}

/// The members of an object value.
pub open spec fn members_of(v: JsonValue) -> JsonMembers {
    match v {
        JsonValue::Object(m) => *m,
        _ => JsonMembers::Nil,
    }
}

/// Reads a successful strict `Bug.get` answer: a closed envelope holding
/// exactly one bug (reported when it is the one asked for) or exactly one
/// fault (reported as the reason no bug was found).
pub fn strict_adjacency_response(value: &JsonValue, requested: &str) -> (r: Result<Result<BugAdjacencyBug, BugAdjacencyError>, BzrError>)
    ensures
        match envelope_parts(*value) {
            None => is_integrity_error(r, envelope_message(requested@)),
            Some((bugs, faults)) => if bugs.len() == 1 && faults.len() == 0 {
                bug_answer(members_of(bugs[0]), requested@, r)
            } else if bugs.len() == 0 && faults.len() == 1 {
                fault_answer(members_of(faults[0]), requested@, r)
            } else {
                is_integrity_error(r, count_message(requested@))
            },
        },
{
    let bad = integrity(&["invalid strict Bug.get response for '", requested, "': the body does not match the strict Bug.get schema"]);
    proof {
        reveal_with_fuel(joined, 4);
    }
    let m = match value {
        JsonValue::Object(m) => &**m,
        _ => return Err(bad),
    };
    if !check_keys(m, Schema::Envelope) {
        return Err(bad);
    }
    let bugs = match array_member_of(m, "bugs") {
        Some(b) => b,
        None => return Err(bad),
    };
    let faults = match array_member_of(m, "faults") {
        Some(f) => f,
        None => return Err(bad),
    };
    let bugs_ok = match bugs {
        Some(l) => check_elements(l, Schema::Bug),
        None => true,
    };
    let faults_ok = match faults {
        Some(l) => check_elements(l, Schema::Fault),
        None => true,
    };
    if !bugs_ok || !faults_ok {
        return Err(bad);
    }
    let nb = match bugs {
        Some(l) => list_shape(l),
        None => 0,
    };
    let nf = match faults {
        Some(l) => list_shape(l),
        None => 0,
    };
    if nb == 1 && nf == 0 {
        match bugs {
            Some(JsonList::Cons(JsonValue::Object(bm), _)) => {
                let ghost s = array_or_empty(member(*m, "bugs"@))->0;
                assert(element_reads(s[0], Schema::Bug));
                match read_strict_bug(bm) {
                    Some(wire) => match strict_bug_to_public(&wire, requested) {
                        Ok(p) => Ok(Ok(p)),
                        Err(e) => Err(e),
                    },
                    None => Err(bad),
                }
            },
            _ => {
                let ghost s = array_or_empty(member(*m, "bugs"@))->0;
                assert(element_reads(s[0], Schema::Bug));
                Err(bad)
            },
        }
    } else if nb == 0 && nf == 1 {
        match faults {
            Some(JsonList::Cons(JsonValue::Object(fm), _)) => {
                let ghost s = array_or_empty(member(*m, "faults"@))->0;
                assert(element_reads(s[0], Schema::Fault));
                match read_strict_fault(fm) {
                    Some(f) => match strict_fault_to_public(&f, requested) {
                        Ok(e) => Ok(Err(e)),
                        Err(e) => Err(e),
                    },
                    None => Err(bad),
                }
            },
            _ => {
                let ghost s = array_or_empty(member(*m, "faults"@))->0;
                assert(element_reads(s[0], Schema::Fault));
                Err(bad)
            },
        }
    } else {
        let e = integrity(&["strict Bug.get for '", requested, "' must return exactly one bug or fault"]);
        Err(e)
    }
}

} // verus!

verus! {

/// The code of a strict resource error: the integer 100, 101 or 102, or
/// exactly that decimal text.
pub open spec fn strict_code(v: Option<JsonValue>) -> Option<int> {
    match v {
        Some(JsonValue::Number(JsonNumber::Unsigned(u))) => if 100 <= u <= 102 {
            Some(u as int)
        } else {
            None
        },
        Some(JsonValue::Str(s)) => if s@ == "100"@ {
            Some(100)
        } else if s@ == "101"@ {
            Some(101)
        } else if s@ == "102"@ {
            Some(102)
        } else {
            None
        },
        _ => None,
    }
}

fn read_strict_code(v: Option<&JsonValue>) -> (r: Option<i64>)
    ensures
        match strict_code(
            match v {
                Some(x) => Some(*x),
                None => None,
            },
        ) {
            Some(c) => r == Some(c as i64),
            None => r is None,
        },
{
    match v {
        Some(JsonValue::Number(JsonNumber::Unsigned(u))) => if 100 <= *u && *u <= 102 {
            Some(*u as i64)
        } else {
            None
        },
        Some(JsonValue::Str(s)) => if str_eq(s.as_str(), "100") {
            Some(100)
        } else if str_eq(s.as_str(), "101") {
            Some(101)
        } else if str_eq(s.as_str(), "102") {
            Some(102)
        } else {
            None
        },
        _ => None,
    }
}

/// The `error` flag and code of a resource error, when the body reads as
/// one: an object with no members but `error` (a boolean), `code` (strict),
/// and optionally `message` and `documentation` (strings).
pub open spec fn resource_parts(v: JsonValue) -> Option<(bool, int)> {
    match v {
        JsonValue::Object(m) => {
            let code = strict_code(member(*m, "code"@));
            if keys_admitted(*m, Schema::ResourceError) && (member(*m, "error"@) matches Some(
                JsonValue::Bool(_),
            )) && code is Some && string_if_present(member(*m, "message"@)) && string_if_present(
                member(*m, "documentation"@),
            ) {
                Some((member(*m, "error"@)->0->Bool_0, code->0))
            } else {
                None
            }
        },
        _ => None,
    }
}

/// The message of a resource error that does not read.
pub open spec fn resource_message(requested: Seq<char>) -> Seq<char> {
    "invalid strict Bug.get resource error for '"@ + requested
        + "': the body does not match the strict Bug.get schema"@
}

/// The message of a resource answer that is not an error.
pub open spec fn not_error_message(requested: Seq<char>) -> Seq<char> {
    "strict Bug.get resource response for '"@ + requested + "' is not an error"@
}

/// Reads a client-error answer of the strict lookup: a closed resource error
/// whose code tells why no bug was found.
pub fn parse_strict_adjacency_resource_error(value: &JsonValue, requested: &str) -> (r: Result<Result<BugAdjacencyBug, BugAdjacencyError>, BzrError>)
    ensures
        match resource_parts(*value) {
            None => is_integrity_error(r, resource_message(requested@)),
            Some((false, _)) => is_integrity_error(r, not_error_message(requested@)),
            Some((true, code)) => match adjacency_error_of(code, requested@) {
                Some(e) => r == Ok::<Result<BugAdjacencyBug, BugAdjacencyError>, BzrError>(Err(e)),
                None => is_integrity_error(r, uncorrelated_message(code, requested@)),
            },
        },
{
    proof {
        reveal_with_fuel(joined, 4);
    }
    let m = match value {
        JsonValue::Object(m) => &**m,
        _ => return Err(integrity(&["invalid strict Bug.get resource error for '", requested, "': the body does not match the strict Bug.get schema"])),
    };
    let error = match find_member(m, "error") {
        Some(JsonValue::Bool(b)) => Some(*b),
        _ => None,
    };
    let code = read_strict_code(find_member(m, "code"));
    let message_ok = match find_member(m, "message") {
        None => true,
        Some(JsonValue::Str(_)) => true,
        Some(_) => false,
    };
    let documentation_ok = match find_member(m, "documentation") {
        None => true,
        Some(JsonValue::Str(_)) => true,
        Some(_) => false,
    };
    let keys_ok = check_keys(m, Schema::ResourceError);
    match (error, code) {
        (Some(error), Some(code)) => {
            if !keys_ok || !message_ok || !documentation_ok {
                return Err(integrity(&["invalid strict Bug.get resource error for '", requested, "': the body does not match the strict Bug.get schema"]));
            }
            if !error {
                return Err(integrity(&["strict Bug.get resource response for '", requested, "' is not an error"]));
            }
            match strict_adjacency_error(code, requested) {
                Ok(e) => Ok(Err(e)),
                Err(e) => Err(e),
            }
        },
        _ => Err(integrity(&["invalid strict Bug.get resource error for '", requested, "': the body does not match the strict Bug.get schema"])),
    }
}

/// The fields the strict lookup asks for.
pub open spec fn adjacency_fields() -> Seq<char> {
    "id,summary,status,resolution,product,version,assigned_to,last_change_time,target_milestone,blocks,depends_on"@
}

/// The query of the strict lookup of `requested`: the ID or alias as given,
/// the fields it reads, and permissive mode, so that a fault for an
/// inaccessible or unknown bug comes back in the answer.
pub fn adjacency_query(requested: &str) -> (r: Vec<(String, String)>)
    ensures
        pairs_view(r@) == seq![
            ("ids"@, requested@),
            ("include_fields"@, adjacency_fields()),
            ("permissive"@, "1"@),
        ],
{
    let mut r: Vec<(String, String)> = Vec::new();
    r.push((String::from_str("ids"), String::from_str(requested)));
    r.push((
        String::from_str("include_fields"),
        String::from_str(
            "id,summary,status,resolution,product,version,assigned_to,last_change_time,target_milestone,blocks,depends_on",
        ),
    ));
    r.push((String::from_str("permissive"), String::from_str("1")));
    assert(pairs_view(r@) =~= seq![
        ("ids"@, requested@),
        ("include_fields"@, adjacency_fields()),
        ("permissive"@, "1"@),
    ]);
    r
}

/// What the strict lookup reports for an answer: a status, the body text,
/// and the body parsed as JSON (or the parser's complaint). A 2xx is read
/// as a `Bug.get` answer and a 4xx as a resource error; any other status is
/// an HTTP error quoting a preview of the body.
pub fn strict_adjacency_outcome(
    status: u16,
    body: &str,
    parsed: &Result<JsonValue, String>,
    requested: &str,
) -> (r: Result<Result<BugAdjacencyBug, BugAdjacencyError>, BzrError>)
    ensures
        200 <= status <= 299 ==> match parsed {
            Err(e) => is_integrity_error(
                r,
                "invalid strict Bug.get response for '"@ + requested@ + "': "@ + e@,
            ),
            Ok(v) => match envelope_parts(*v) {
                None => is_integrity_error(r, envelope_message(requested@)),
                Some((bugs, faults)) => if bugs.len() == 1 && faults.len() == 0 {
                    bug_answer(members_of(bugs[0]), requested@, r)
                } else if bugs.len() == 0 && faults.len() == 1 {
                    fault_answer(members_of(faults[0]), requested@, r)
                } else {
                    is_integrity_error(r, count_message(requested@))
                },
            },
        },
        400 <= status <= 499 ==> match parsed {
            Err(e) => is_integrity_error(
                r,
                "invalid strict Bug.get resource error for '"@ + requested@ + "': "@ + e@,
            ),
            Ok(v) => match resource_parts(*v) {
                None => is_integrity_error(r, resource_message(requested@)),
                Some((false, _)) => is_integrity_error(r, not_error_message(requested@)),
                Some((true, code)) => match adjacency_error_of(code, requested@) {
                    Some(e) => r == Ok::<Result<BugAdjacencyBug, BugAdjacencyError>, BzrError>(
                        Err(e),
                    ),
                    None => is_integrity_error(r, uncorrelated_message(code, requested@)),
                },
            },
        },
        !(200 <= status <= 299) && !(400 <= status <= 499) ==> (r matches Err(
            BzrError::HttpStatus { status: s, body: b },
        ) && s == status && crate::response::is_preview(body@, b@)),
{
    proof {
        reveal_with_fuel(joined, 5);
    }
    if 200 <= status && status <= 299 {
        match parsed {
            Err(e) => Err(integrity(&["invalid strict Bug.get response for '", requested, "': ", e.as_str()])),
            Ok(v) => strict_adjacency_response(v, requested),
        }
    } else if 400 <= status && status <= 499 {
        match parsed {
            Err(e) => Err(integrity(&["invalid strict Bug.get resource error for '", requested, "': ", e.as_str()])),
            Ok(v) => parse_strict_adjacency_resource_error(v, requested),
        }
    } else {
        Err(BzrError::HttpStatus { status, body: crate::response::diagnostic_body_preview(body) })
    }
}

} // verus!
