//! A JSON document as plain values: what the library inspects of the
//! responses a server sends.

use vstd::prelude::*;

verus! {

/// A JSON number as serde_json keeps it: a non-negative integer, a negative
/// integer, or any other number by its text.
#[derive(Debug)]
pub enum JsonNumber {
    Unsigned(u64),
    Negative(i64),
    Float(String),
}

/// A JSON value. Arrays and objects are lists; object members keep the
/// order of the map they were read into, so each name stands once. Equality
/// (`json_eq`) does not depend on the order of members.
#[derive(Debug)]
pub enum JsonValue {
    Null,
    Bool(bool),
    Number(JsonNumber),
    Str(String),
    Array(Box<JsonList>),
    Object(Box<JsonMembers>),
}

#[derive(Debug)]
pub enum JsonList {
    Nil,
    Cons(JsonValue, Box<JsonList>),
}

#[derive(Debug)]
pub enum JsonMembers {
    Nil,
    Cons(String, JsonValue, Box<JsonMembers>),
}

pub open spec fn number_eq(a: JsonNumber, b: JsonNumber) -> bool {
    match (a, b) {
        (JsonNumber::Unsigned(x), JsonNumber::Unsigned(y)) => x == y,
        (JsonNumber::Negative(x), JsonNumber::Negative(y)) => x == y,
        (JsonNumber::Float(x), JsonNumber::Float(y)) => x@ == y@,
        _ => false,
    }
}

/// Equality of JSON values, as `serde_json` has it: same kind, same scalar,
/// same elements in the same order, and objects equal as maps (as many
/// members, and each member of one named in the other with an equal value;
/// the order of members does not matter).
pub open spec fn json_eq(a: JsonValue, b: JsonValue) -> bool
    decreases a,
{
    match (a, b) {
        (JsonValue::Null, JsonValue::Null) => true,
        (JsonValue::Bool(x), JsonValue::Bool(y)) => x == y,
        (JsonValue::Number(x), JsonValue::Number(y)) => number_eq(x, y),
        (JsonValue::Str(x), JsonValue::Str(y)) => x@ == y@,
        (JsonValue::Array(x), JsonValue::Array(y)) => list_eq(*x, *y),
        (JsonValue::Object(x), JsonValue::Object(y)) => same_count(*x, *y) && members_within(*x, *y),
        _ => false,
    }
}

pub open spec fn list_eq(a: JsonList, b: JsonList) -> bool
    decreases a,
{
    match (a, b) {
        (JsonList::Nil, JsonList::Nil) => true,
        (JsonList::Cons(x, xs), JsonList::Cons(y, ys)) => json_eq(x, y) && list_eq(*xs, *ys),
        _ => false,
    }
}

/// Whether two objects list as many members.
pub open spec fn same_count(a: JsonMembers, b: JsonMembers) -> bool
    decreases a,
{
    match (a, b) {
        (JsonMembers::Nil, JsonMembers::Nil) => true,
        (JsonMembers::Cons(_, _, xs), JsonMembers::Cons(_, _, ys)) => same_count(*xs, *ys),
        _ => false,
    }
}

/// Whether every member of `a` is, by its name, a member of `b` with an
/// equal value.
pub open spec fn members_within(a: JsonMembers, b: JsonMembers) -> bool
    decreases a,
{
    match a {
        JsonMembers::Nil => true,
        JsonMembers::Cons(k, x, rest) => match member(b, k@) {
            Some(y) => json_eq(x, y) && members_within(*rest, b),
            None => false,
        },
    }
}

/// Equality of objects as maps.
pub open spec fn members_eq(a: JsonMembers, b: JsonMembers) -> bool {
    same_count(a, b) && members_within(a, b)
}

pub fn number_equal(a: &JsonNumber, b: &JsonNumber) -> (r: bool)
    ensures
        r == number_eq(*a, *b),
{
    match (a, b) {
        (JsonNumber::Unsigned(x), JsonNumber::Unsigned(y)) => *x == *y,
        (JsonNumber::Negative(x), JsonNumber::Negative(y)) => *x == *y,
        (JsonNumber::Float(x), JsonNumber::Float(y)) => *x == *y,
        _ => false,
    }
}

/// Whether two JSON values are equal.
pub fn json_equal(a: &JsonValue, b: &JsonValue) -> (r: bool)
    ensures
        r == json_eq(*a, *b),
    decreases a,
{
    match (a, b) {
        (JsonValue::Null, JsonValue::Null) => true,
        (JsonValue::Bool(x), JsonValue::Bool(y)) => *x == *y,
        (JsonValue::Number(x), JsonValue::Number(y)) => number_equal(x, y),
        (JsonValue::Str(x), JsonValue::Str(y)) => *x == *y,
        (JsonValue::Array(x), JsonValue::Array(y)) => list_equal(x, y),
        (JsonValue::Object(x), JsonValue::Object(y)) => same_count_exec(x, y) && members_within_exec(x, y),
        _ => false,
    }
}

pub fn list_equal(a: &JsonList, b: &JsonList) -> (r: bool)
    ensures
        r == list_eq(*a, *b),
    decreases a,
{
    match (a, b) {
        (JsonList::Nil, JsonList::Nil) => true,
        (JsonList::Cons(x, xs), JsonList::Cons(y, ys)) => json_equal(x, y) && list_equal(xs, ys),
        _ => false,
    }
}

/// Whether two objects list as many members.
pub fn same_count_exec(a: &JsonMembers, b: &JsonMembers) -> (r: bool)
    ensures
        r == same_count(*a, *b),
    decreases a,
{
    match (a, b) {
        (JsonMembers::Nil, JsonMembers::Nil) => true,
        (JsonMembers::Cons(_, _, xs), JsonMembers::Cons(_, _, ys)) => same_count_exec(xs, ys),
        _ => false,
    }
}

/// Whether every member of `a` is, by its name, a member of `b` with an
/// equal value.
pub fn members_within_exec(a: &JsonMembers, b: &JsonMembers) -> (r: bool)
    ensures
        r == members_within(*a, *b),
    decreases a,
{
    match a {
        JsonMembers::Nil => true,
        JsonMembers::Cons(k, x, rest) => match find_member(b, k.as_str()) {
            Some(y) => json_equal(x, y) && members_within_exec(rest, b),
            None => false,
        },
    }
}

/// Whether two objects are equal as maps.
pub fn members_equal(a: &JsonMembers, b: &JsonMembers) -> (r: bool)
    ensures
        r == members_eq(*a, *b),
{
    same_count_exec(a, b) && members_within_exec(a, b)
}

/// The value of the first member named `key`.
pub open spec fn member(m: JsonMembers, key: Seq<char>) -> Option<JsonValue>
    decreases m,
{
    match m {
        JsonMembers::Nil => None,
        JsonMembers::Cons(k, v, rest) => if k@ == key {
            Some(v)
        } else {
            member(*rest, key)
        },
    }
}

/// The value of member `key` of `v`, when `v` is an object that has one.
pub open spec fn get(v: JsonValue, key: Seq<char>) -> Option<JsonValue> {
    match v {
        JsonValue::Object(m) => member(*m, key),
        _ => None,
    }
}

pub fn find_member<'a>(m: &'a JsonMembers, key: &str) -> (r: Option<&'a JsonValue>)
    ensures
        match r {
            Some(v) => member(*m, key@) == Some(*v),
            None => member(*m, key@) is None,
        },
    decreases m,
{
    match m {
        JsonMembers::Nil => None,
        JsonMembers::Cons(k, v, rest) => {
            if crate::text::str_eq(k.as_str(), key) {
                Some(v)
            } else {
                find_member(rest, key)
            }
        },
    }
}

/// The value of member `key` of `v`, when `v` is an object that has one.
pub fn get_member<'a>(v: &'a JsonValue, key: &str) -> (r: Option<&'a JsonValue>)
    ensures
        match r {
            Some(x) => get(*v, key@) == Some(*x),
            None => get(*v, key@) is None,
        },
{
    match v {
        JsonValue::Object(m) => find_member(m, key),
        _ => None,
    }
}

} // verus!
