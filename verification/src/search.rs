//! Bug search: the search parameters, the field lists that guarantee a bug's
//! `id` comes back, and the query string a REST search sends.

use vstd::prelude::*;

use crate::attachment::{decimal_chars, decimal_string};
use crate::error::BzrError;
use crate::text::{
    chars_of, eq_ignore_ascii_case, find_from, parse_u32_range, parse_unsigned, join, lemma_find_from_bounds, range_eq_ignore_ascii_case,
    split, split_from, trim, trim_bounds, trim_end, trim_start,
};

verus! {

/// Whether a field-list token names `id`, ignoring surrounding whitespace and
/// ASCII case.
pub open spec fn is_id_token(t: Seq<char>) -> bool {
    eq_ignore_ascii_case(trim(t), seq!['i', 'd'])
}

/// Whether a comma-separated field list names `id`.
pub open spec fn names_id(list: Seq<char>) -> bool {
    exists|i: int| 0 <= i < split(list, ',').len() && #[trigger] is_id_token(split(list, ',')[i])
}

/// The tokens that do not name `id`, in order.
pub open spec fn without_id(ts: Seq<Seq<char>>) -> Seq<Seq<char>>
    decreases ts.len(),
{
    if ts.len() == 0 {
        Seq::empty()
    } else if is_id_token(ts.last()) {
        without_id(ts.drop_last())
    } else {
        without_id(ts.drop_last()).push(ts.last())
    }
}

/// What an wanted list becomes: unchanged when it names `id`, else with `id`
/// put first.
pub open spec fn forced_include(list: Seq<char>) -> Seq<char> {
    if names_id(list) {
        list
    } else {
        "id,"@ + list
    }
}

/// What an unwanted list becomes: unchanged when it does not name `id`, else
/// without its `id` tokens, and gone when nothing is left.
pub open spec fn forced_exclude(list: Seq<char>) -> Option<Seq<char>> {
    if !names_id(list) {
        Some(list)
    } else if without_id(split(list, ',')).len() == 0 {
        None
    } else {
        Some(join(without_id(split(list, ',')), ","@))
    }
}

pub open spec fn opt_chars(s: Option<String>) -> Option<Seq<char>> {
    match s {
        Some(x) => Some(x@),
        None => None,
    }
}

proof fn lemma_split_step(s: Seq<char>, from: int)
    requires
        0 <= from <= s.len(),
    ensures
        find_from(s, from, ',') < s.len() ==> split_from(s, from, ',') == seq![
            s.subrange(from, find_from(s, from, ','))
        ] + split_from(s, find_from(s, from, ',') + 1, ','),
        find_from(s, from, ',') >= s.len() ==> split_from(s, from, ',') == seq![
            s.subrange(from, s.len() as int)
        ],
{
}

/// The index of the next `,` at or after `from`, or the length.
fn next_comma(s: &Vec<char>, from: usize) -> (r: usize)
    requires
        from <= s@.len(),
    ensures
        r == find_from(s@, from as int, ','),
        from <= r <= s@.len(),
{
    proof {
        lemma_find_from_bounds(s@, from as int, ',');
    }
    let mut i = from;
    while i < s.len() && s[i] != ','
        invariant
            from <= i <= s@.len(),
            find_from(s@, from as int, ',') == find_from(s@, i as int, ','),
        decreases s@.len() - i,
    {
        i = i + 1;
    }
    i
}

/// Whether the comma-separated list in `s` names `id`.
fn list_names_id(s: &Vec<char>) -> (r: bool)
    ensures
        r == names_id(s@),
{
    let id: Vec<char> = vec!['i', 'd'];
    let ghost all = split(s@, ',');
    let ghost mut done: Seq<Seq<char>> = Seq::empty();
    let mut i: usize = 0;
    loop
        invariant
            i <= s@.len(),
            id@ == seq!['i', 'd'],
            all == split(s@, ','),
            done + split_from(s@, i as int, ',') == all,
            forall|k: int| 0 <= k < done.len() ==> !#[trigger] is_id_token(done[k]),
        decreases s@.len() - i,
    {
        let end = next_comma(s, i);
        proof {
            lemma_split_step(s@, i as int);
        }
        let (a, b) = trim_bounds(s, i, end);
        if range_eq_ignore_ascii_case(s, a, b, &id) {
            assert(all[done.len() as int] == s@.subrange(i as int, end as int));
            assert(is_id_token(all[done.len() as int]));
            return true;
        }
        proof {
            done = done.push(s@.subrange(i as int, end as int));
        }
        if end == s.len() {
            assert(done =~= all);
            return false;
        }
        i = end + 1;
    }
}

/// Whether no character of `s` is a comma.
pub open spec fn comma_free(s: Seq<char>) -> bool {
    forall|k: int| 0 <= k < s.len() ==> #[trigger] s[k] != ','
}

/// A comma-free stretch from `i` on holds no comma to find.
proof fn lemma_find_none(s: Seq<char>, i: int)
    requires
        0 <= i <= s.len(),
        forall|k: int| i <= k < s.len() ==> #[trigger] s[k] != ',',
    ensures
        find_from(s, i, ',') == s.len(),
    decreases s.len() - i,
{
    if i < s.len() {
        lemma_find_none(s, i + 1);
    }
}

/// Searching `x`, a comma, then more for a comma from inside `x` stops where
/// the search of `x` alone does, or at the added comma.
proof fn lemma_find_concat(x: Seq<char>, y: Seq<char>, i: int)
    requires
        0 <= i <= x.len(),
    ensures
        find_from(x + seq![','] + y, i, ',') == if find_from(x, i, ',') < x.len() {
            find_from(x, i, ',')
        } else {
            x.len() as int
        },
    decreases x.len() - i,
{
    let s = x + seq![','] + y;
    assert(s[x.len() as int] == ',');
    if i < x.len() {
        assert(s[i] == x[i]);
        if x[i] != ',' {
            lemma_find_concat(x, y, i + 1);
        }
    }
}

/// Splitting `x`, a comma and a comma-free `y` gives the pieces of `x`,
/// then `y`.
proof fn lemma_split_append(x: Seq<char>, y: Seq<char>, i: int)
    requires
        0 <= i <= x.len(),
        comma_free(y),
    ensures
        split_from(x + seq![','] + y, i, ',') == split_from(x, i, ',') + seq![y],
    decreases x.len() - i,
{
    let s = x + seq![','] + y;
    lemma_find_concat(x, y, i);
    lemma_find_from_bounds(x, i, ',');
    let e = find_from(x, i, ',');
    if e < x.len() {
        lemma_split_append(x, y, e + 1);
        assert(s.subrange(i, e) =~= x.subrange(i, e));
        assert(split_from(x, i, ',') == seq![x.subrange(i, e)] + split_from(x, e + 1, ','));
        assert(seq![x.subrange(i, e)] + (split_from(x, e + 1, ',') + seq![y]) =~= seq![x.subrange(i, e)]
            + split_from(x, e + 1, ',') + seq![y]);
    } else {
        let n = x.len() as int;
        assert forall|k: int| n + 1 <= k < s.len() implies #[trigger] s[k] != ',' by {
            assert(s[k] == y[k - n - 1]);
        }
        lemma_find_none(s, n + 1);
        assert(s.subrange(n + 1, s.len() as int) =~= y);
        assert(split_from(s, n + 1, ',') == seq![y]);
        assert(s.subrange(i, n) =~= x.subrange(i, n));
        assert(split_from(x, i, ',') == seq![x.subrange(i, n)]);
        assert(seq![x.subrange(i, n)] + seq![y] =~= seq![x.subrange(i, n), y]);
    }
}

/// Comma-free pieces joined by commas split back into themselves.
proof fn lemma_split_join(ts: Seq<Seq<char>>)
    requires
        ts.len() > 0,
        forall|k: int| 0 <= k < ts.len() ==> comma_free(#[trigger] ts[k]),
    ensures
        split(join(ts, ","@), ',') == ts,
    decreases ts.len(),
{
    reveal_strlit(",");
    if ts.len() == 1 {
        let t = ts[0];
        assert(comma_free(t));
        lemma_find_none(t, 0);
        assert(t.subrange(0, t.len() as int) =~= t);
        assert(split(t, ',') =~= ts);
    } else {
        let rest = ts.drop_last();
        assert forall|k: int| 0 <= k < rest.len() implies comma_free(#[trigger] rest[k]) by {
            assert(rest[k] == ts[k]);
        }
        lemma_split_join(rest);
        assert(comma_free(ts.last()));
        lemma_split_append(join(rest, ","@), ts.last(), 0);
        assert(join(ts, ","@) == join(rest, ","@) + seq![','] + ts.last());
        assert(rest + seq![ts.last()] =~= ts);
    }
}

/// The pieces of a split hold no comma.
proof fn lemma_split_free(s: Seq<char>, i: int)
    requires
        0 <= i <= s.len(),
    ensures
        forall|k: int| 0 <= k < split_from(s, i, ',').len() ==> comma_free(#[trigger] split_from(s, i, ',')[k]),
    decreases s.len() - i,
{
    lemma_find_from_bounds(s, i, ',');
    let e = find_from(s, i, ',');
    if e < s.len() {
        lemma_split_free(s, e + 1);
        let ps = split_from(s, i, ',');
        assert forall|k: int| 0 <= k < ps.len() implies comma_free(#[trigger] ps[k]) by {
            if k == 0 {
                assert(ps[0] == s.subrange(i, e));
            } else {
                assert(ps[k] == split_from(s, e + 1, ',')[k - 1]);
            }
        }
    } else {
        assert(split_from(s, i, ',')[0] == s.subrange(i, s.len() as int));
    }
}

/// What is left without `id` tokens names no `id` and comes from the tokens.
proof fn lemma_without_id(ts: Seq<Seq<char>>)
    ensures
        forall|k: int| 0 <= k < without_id(ts).len() ==> !is_id_token(#[trigger] without_id(ts)[k]),
        forall|k: int| 0 <= k < without_id(ts).len() ==> ts.contains(#[trigger] without_id(ts)[k]),
    decreases ts.len(),
{
    if ts.len() > 0 {
        let rest = ts.drop_last();
        lemma_without_id(rest);
        let w = without_id(ts);
        assert forall|k: int| 0 <= k < w.len() implies ts.contains(#[trigger] w[k]) by {
            if k < without_id(rest).len() {
                let j = choose|j: int| 0 <= j < rest.len() && rest[j] == without_id(rest)[k];
                assert(ts[j] == rest[j]);
            } else {
                assert(w[k] == ts.last());
                assert(ts[ts.len() - 1] == ts.last());
            }
        }
    }
}

/// Forcing `id` into a wanted list a second time changes nothing: once
/// forced, the list names `id`.
pub proof fn lemma_forced_include_idempotent(list: Seq<char>)
    ensures
        names_id(forced_include(list)),
        forced_include(forced_include(list)) == forced_include(list),
{
    if !names_id(list) {
        reveal_strlit("id,");
        let s = "id,"@ + list;
        assert(s[0] == 'i' && s[1] == 'd' && s[2] == ',');
        assert(find_from(s, 2, ',') == 2);
        assert(find_from(s, 1, ',') == 2);
        assert(find_from(s, 0, ',') == 2);
        lemma_find_from_bounds(s, 0, ',');
        assert(split(s, ',')[0] == s.subrange(0, 2));
        let t = s.subrange(0, 2);
        assert(t =~= seq!['i', 'd']);
        assert(trim_start(t) == t);
        assert(trim_end(t) == t);
        assert(is_id_token(split(s, ',')[0]));
        assert(names_id(s));
    }
}

/// Forcing `id` out of an unwanted list a second time changes nothing:
/// what is left names no `id`.
pub proof fn lemma_forced_exclude_idempotent(list: Seq<char>)
    ensures
        forced_exclude(list) matches Some(l2) ==> !names_id(l2),
        forced_exclude(list) matches Some(l2) ==> forced_exclude(l2) == Some(l2),
{
    if names_id(list) {
        let ts = split(list, ',');
        let w = without_id(ts);
        if w.len() > 0 {
            lemma_split_free(list, 0);
            lemma_without_id(ts);
            assert forall|k: int| 0 <= k < w.len() implies comma_free(#[trigger] w[k]) by {
                assert(ts.contains(w[k]));
                let j = choose|j: int| 0 <= j < ts.len() && ts[j] == w[k];
                assert(comma_free(ts[j]));
            }
            lemma_split_join(w);
            let j = join(w, ","@);
            assert(!names_id(j)) by {
                if names_id(j) {
                    let i = choose|i: int| 0 <= i < split(j, ',').len() && #[trigger] is_id_token(split(j, ',')[i]);
                    assert(split(j, ',')[i] == w[i]);
                    assert(!is_id_token(w[i]));
                }
            }
        }
    }
}

/// Makes sure a search fetches `id`: an wanted list gains `id` first when
/// it lacks it, and an unwanted list loses every `id` token (and disappears
/// when nothing is left).
pub fn force_id_fields(wanted: Option<&str>, unwanted: Option<&str>) -> (r: (Option<String>, Option<String>))
    ensures
        opt_chars(r.0) == match wanted {
            Some(l) => Some(forced_include(l@)),
            None => None::<Seq<char>>,
        },
        opt_chars(r.1) == match unwanted {
            Some(l) => forced_exclude(l@),
            None => None::<Seq<char>>,
        },
{
    let inc = match wanted {
        Some(list) => {
            let chars = chars_of(list);
            if list_names_id(&chars) {
                Some(String::from_str(list))
            } else {
                let mut s = String::from_str("id,");
                s.append(list);
                Some(s)
            }
        },
        None => None,
    };
    let exc = match unwanted {
        Some(list) => {
            let chars = chars_of(list);
            if !list_names_id(&chars) {
                Some(String::from_str(list))
            } else {
                strip_id_tokens(list, &chars)
            }
        },
        None => None,
    };
    (inc, exc)
}

/// The list in `list` without its `id` tokens, joined by commas; `None` when
/// no token is left.
fn strip_id_tokens(list: &str, s: &Vec<char>) -> (r: Option<String>)
    requires
        s@ == list@,
    ensures
        opt_chars(r) == if without_id(split(list@, ',')).len() == 0 {
            None::<Seq<char>>
        } else {
            Some(join(without_id(split(list@, ',')), ","@))
        },
{
    let id: Vec<char> = vec!['i', 'd'];
    let ghost all = split(s@, ',');
    let ghost mut done: Seq<Seq<char>> = Seq::empty();
    let mut out = String::new();
    let mut kept: bool = false;
    let mut i: usize = 0;
    loop
        invariant
            i <= s@.len(),
            s@ == list@,
            id@ == seq!['i', 'd'],
            all == split(s@, ','),
            done + split_from(s@, i as int, ',') == all,
            kept == (without_id(done).len() > 0),
            out@ == join(without_id(done), ","@),
        decreases s@.len() - i,
    {
        let end = next_comma(s, i);
        proof {
            lemma_split_step(s@, i as int);
        }
        let ghost t = s@.subrange(i as int, end as int);
        let (a, b) = trim_bounds(s, i, end);
        let is_id = range_eq_ignore_ascii_case(s, a, b, &id);
        proof {
            assert(done.push(t).drop_last() =~= done);
        }
        if !is_id {
            if kept {
                out.append(",");
            }
            out.append(list.substring_char(i, end));
            kept = true;
            proof {
                let w = without_id(done);
                assert(without_id(done.push(t)) == w.push(t));
                if w.len() > 0 {
                    assert(w.push(t).drop_last() =~= w);
                } else {
                    assert(join(w.push(t), ","@) == w.push(t)[0]);
                }
            }
        }
        proof {
            done = done.push(t);
        }
        if end == s.len() {
            assert(done =~= all);
            if !kept {
                return None;
            }
            return Some(out);
        }
        i = end + 1;
    }
}

} // verus!

verus! {

/// Filters and options of a bug search. Each multi-value filter holds the
/// values to match (any of them); a value starting with `!` excludes.
pub struct SearchParams {
    pub product: Vec<String>,
    pub component: Vec<String>,
    pub status: Vec<String>,
    pub assigned_to: Vec<String>,
    pub creator: Vec<String>,
    pub priority: Vec<String>,
    pub severity: Vec<String>,
    pub whiteboard: Vec<String>,
    pub target_milestone: Vec<String>,
    pub version: Vec<String>,
    pub op_sys: Vec<String>,
    pub platform: Vec<String>,
    pub resolution: Vec<String>,
    pub qa_contact: Vec<String>,
    pub url: Vec<String>,
    pub cc: Option<String>,
    pub alias: Option<String>,
    pub id: Vec<u64>,
    pub limit: Option<u32>,
    pub offset: Option<u32>,
    pub summary: Option<String>,
    pub quicksearch: Option<String>,
    pub include_fields: Option<String>,
    pub exclude_fields: Option<String>,
    pub creation_time: Option<String>,
    pub last_change_time: Option<String>,
    pub order: Option<String>,
    /// Query parameters imported verbatim, such as boolean charts from a URL.
    pub raw_params: Vec<(String, String)>,
}

/// The number of multi-value filters.
pub const FILTER_COUNT: usize = 15;

/// The query key of multi-value filter `i`.
pub open spec fn filter_key(i: int) -> Seq<char> {
    if i == 0 { "product"@ }
    else if i == 1 { "component"@ }
    else if i == 2 { "status"@ }
    else if i == 3 { "assigned_to"@ }
    else if i == 4 { "creator"@ }
    else if i == 5 { "priority"@ }
    else if i == 6 { "severity"@ }
    else if i == 7 { "whiteboard"@ }
    else if i == 8 { "target_milestone"@ }
    else if i == 9 { "version"@ }
    else if i == 10 { "op_sys"@ }
    else if i == 11 { "platform"@ }
    else if i == 12 { "resolution"@ }
    else if i == 13 { "qa_contact"@ }
    else { "url"@ }
}

/// The Bugzilla field that boolean charts name for multi-value filter `i`.
pub open spec fn filter_field(i: int) -> Seq<char> {
    if i == 0 { "product"@ }
    else if i == 1 { "component"@ }
    else if i == 2 { "bug_status"@ }
    else if i == 3 { "assigned_to"@ }
    else if i == 4 { "reporter"@ }
    else if i == 5 { "priority"@ }
    else if i == 6 { "bug_severity"@ }
    else if i == 7 { "status_whiteboard"@ }
    else if i == 8 { "target_milestone"@ }
    else if i == 9 { "version"@ }
    else if i == 10 { "op_sys"@ }
    else if i == 11 { "rep_platform"@ }
    else if i == 12 { "resolution"@ }
    else if i == 13 { "qa_contact"@ }
    else { "bug_file_loc"@ }
}

/// Whether filter `i` matches by substring, so that its negation is
/// `notsubstring` rather than `notequals`.
pub open spec fn filter_is_substring(i: int) -> bool {
    i == 3 || i == 4 || i == 7 || i == 13 || i == 14
}

pub open spec fn negation_operator(i: int) -> Seq<char> {
    if filter_is_substring(i) { "notsubstring"@ } else { "notequals"@ }
}

pub fn filter_key_str(i: usize) -> (s: &'static str)
    requires
        i < FILTER_COUNT,
    ensures
        s@ == filter_key(i as int),
{
    if i == 0 { "product" }
    else if i == 1 { "component" }
    else if i == 2 { "status" }
    else if i == 3 { "assigned_to" }
    else if i == 4 { "creator" }
    else if i == 5 { "priority" }
    else if i == 6 { "severity" }
    else if i == 7 { "whiteboard" }
    else if i == 8 { "target_milestone" }
    else if i == 9 { "version" }
    else if i == 10 { "op_sys" }
    else if i == 11 { "platform" }
    else if i == 12 { "resolution" }
    else if i == 13 { "qa_contact" }
    else { "url" }
}

pub fn filter_field_str(i: usize) -> (s: &'static str)
    requires
        i < FILTER_COUNT,
    ensures
        s@ == filter_field(i as int),
{
    if i == 0 { "product" }
    else if i == 1 { "component" }
    else if i == 2 { "bug_status" }
    else if i == 3 { "assigned_to" }
    else if i == 4 { "reporter" }
    else if i == 5 { "priority" }
    else if i == 6 { "bug_severity" }
    else if i == 7 { "status_whiteboard" }
    else if i == 8 { "target_milestone" }
    else if i == 9 { "version" }
    else if i == 10 { "op_sys" }
    else if i == 11 { "rep_platform" }
    else if i == 12 { "resolution" }
    else if i == 13 { "qa_contact" }
    else { "bug_file_loc" }
}

pub fn negation_operator_str(i: usize) -> (s: &'static str)
    requires
        i < FILTER_COUNT,
    ensures
        s@ == negation_operator(i as int),
{
    if i == 3 || i == 4 || i == 7 || i == 13 || i == 14 { "notsubstring" } else { "notequals" }
}

/// The text of each value.
pub open spec fn texts(v: Seq<String>) -> Seq<Seq<char>> {
    v.map_values(|s: String| s@)
}

/// Whether a filter value excludes rather than matches.
pub open spec fn is_negated(v: Seq<char>) -> bool {
    v.len() > 0 && v[0] == '!'
}

impl SearchParams {
    /// The values of multi-value filter `i`.
    pub open spec fn filter_values(&self, i: int) -> Seq<Seq<char>> {
        texts(
            if i == 0 { self.product@ }
            else if i == 1 { self.component@ }
            else if i == 2 { self.status@ }
            else if i == 3 { self.assigned_to@ }
            else if i == 4 { self.creator@ }
            else if i == 5 { self.priority@ }
            else if i == 6 { self.severity@ }
            else if i == 7 { self.whiteboard@ }
            else if i == 8 { self.target_milestone@ }
            else if i == 9 { self.version@ }
            else if i == 10 { self.op_sys@ }
            else if i == 11 { self.platform@ }
            else if i == 12 { self.resolution@ }
            else if i == 13 { self.qa_contact@ }
            else { self.url@ },
        )
    }

    /// The values of multi-value filter `i`.
    pub fn get_field(&self, i: usize) -> (v: &Vec<String>)
        requires
            i < FILTER_COUNT,
        ensures
            texts(v@) == self.filter_values(i as int),
    {
        if i == 0 { &self.product }
        else if i == 1 { &self.component }
        else if i == 2 { &self.status }
        else if i == 3 { &self.assigned_to }
        else if i == 4 { &self.creator }
        else if i == 5 { &self.priority }
        else if i == 6 { &self.severity }
        else if i == 7 { &self.whiteboard }
        else if i == 8 { &self.target_milestone }
        else if i == 9 { &self.version }
        else if i == 10 { &self.op_sys }
        else if i == 11 { &self.platform }
        else if i == 12 { &self.resolution }
        else if i == 13 { &self.qa_contact }
        else { &self.url }
    }

    /// Whether some multi-value filter holds a negated value.
    pub open spec fn spec_has_negated_filters(&self) -> bool {
        exists|i: int, j: int| 0 <= i < FILTER_COUNT && 0 <= j < self.filter_values(i).len()
            && #[trigger] is_negated(self.filter_values(i)[j])
    }
}

/// Whether a string starts with `!`.
pub fn starts_with_bang(s: &String) -> (r: bool)
    ensures
        r == is_negated(s@),
{
    let t = s.as_str();
    if t.unicode_len() == 0 {
        return false;
    }
    t.get_char(0) == '!'
}

/// Whether any multi-value filter holds a negated value.
pub fn has_negated_filters(params: &SearchParams) -> (r: bool)
    ensures
        r == params.spec_has_negated_filters(),
{
    let mut i: usize = 0;
    while i < FILTER_COUNT
        invariant
            i <= FILTER_COUNT,
            forall|a: int, b: int| 0 <= a < i && 0 <= b < params.filter_values(a).len()
                ==> !#[trigger] is_negated(params.filter_values(a)[b]),
        decreases FILTER_COUNT - i,
    {
        let values = params.get_field(i);
        let mut j: usize = 0;
        while j < values.len()
            invariant
                i < FILTER_COUNT,
                j <= values@.len(),
                texts(values@) == params.filter_values(i as int),
                forall|a: int, b: int| 0 <= a < i && 0 <= b < params.filter_values(a).len()
                    ==> !#[trigger] is_negated(params.filter_values(a)[b]),
                forall|b: int| 0 <= b < j ==> !#[trigger] is_negated(params.filter_values(i as int)[b]),
            decreases values@.len() - j,
        {
            if starts_with_bang(&values[j]) {
                assert(params.filter_values(i as int)[j as int] == values@[j as int]@);
                assert(is_negated(params.filter_values(i as int)[j as int]));
                return true;
            }
            assert(params.filter_values(i as int)[j as int] == values@[j as int]@);
            j = j + 1;
        }
        i = i + 1;
    }
    false
}

} // verus!

verus! {

/// Whether a raw parameter key names a boolean chart column: `f`, `o` or `v`
/// followed by a positive `u32`.
pub open spec fn is_chart_key(k: Seq<char>) -> bool {
    &&& k.len() >= 2
    &&& (k[0] == 'f' || k[0] == 'o' || k[0] == 'v')
    &&& parse_unsigned(k.drop_first(), u32::MAX as nat) matches Some(n) && n >= 1
}

/// Whether the raw parameters hold a boolean chart column.
pub fn has_raw_boolean_chart_params(params: &SearchParams) -> (r: bool)
    ensures
        r == exists|i: int| 0 <= i < params.raw_params@.len() && #[trigger] is_chart_key(
            params.raw_params@[i].0@,
        ),
{
    let mut i: usize = 0;
    while i < params.raw_params.len()
        invariant
            i <= params.raw_params@.len(),
            forall|a: int| 0 <= a < i ==> !#[trigger] is_chart_key(params.raw_params@[a].0@),
        decreases params.raw_params@.len() - i,
    {
        let k = chars_of(params.raw_params[i].0.as_str());
        if k.len() >= 2 && (k[0] == 'f' || k[0] == 'o' || k[0] == 'v') {
            assert(k@.subrange(1, k@.len() as int) =~= k@.drop_first());
            match parse_u32_range(&k, 1, k.len()) {
                Some(n) => {
                    if n >= 1 {
                        assert(is_chart_key(params.raw_params@[i as int].0@));
                        return true;
                    }
                },
                None => {},
            }
        }
        i = i + 1;
    }
    false
}

impl SearchParams {
    /// Whether any filter other than free text is set.
    pub open spec fn spec_has_structured_filters(&self) -> bool {
        ||| exists|i: int| 0 <= i < FILTER_COUNT && #[trigger] self.filter_values(i).len() > 0
        ||| self.cc is Some
        ||| self.alias is Some
        ||| self.id@.len() > 0
        ||| self.creation_time is Some
        ||| self.last_change_time is Some
        ||| self.raw_params@.len() > 0
    }

    /// Whether any filter at all is set, free text included.
    pub open spec fn spec_has_filters(&self) -> bool {
        ||| self.spec_has_structured_filters()
        ||| self.summary is Some
        ||| self.quicksearch is Some
    }

    /// Whether any filter other than free text (summary, quicksearch) is set.
    pub fn has_structured_filters(&self) -> (r: bool)
        ensures
            r == self.spec_has_structured_filters(),
    {
        let mut i: usize = 0;
        while i < FILTER_COUNT
            invariant
                i <= FILTER_COUNT,
                forall|a: int| 0 <= a < i ==> #[trigger] self.filter_values(a).len() == 0,
            decreases FILTER_COUNT - i,
        {
            if self.get_field(i).len() > 0 {
                assert(self.filter_values(i as int).len() > 0);
                return true;
            }
            i = i + 1;
        }
        self.cc.is_some() || self.alias.is_some() || self.id.len() > 0 || self.creation_time.is_some()
            || self.last_change_time.is_some() || self.raw_params.len() > 0
    }

    /// Whether any filter is set.
    pub fn has_filters(&self) -> (r: bool)
        ensures
            r == self.spec_has_filters(),
    {
        self.has_structured_filters() || self.summary.is_some() || self.quicksearch.is_some()
    }
}

impl Default for SearchParams {
    /// No filters and no options.
    fn default() -> (p: SearchParams)
        ensures
            !p.spec_has_filters(),
            p.include_fields is None,
            p.exclude_fields is None,
            p.limit is None,
            p.offset is None,
            p.order is None,
    {
        SearchParams {
            product: Vec::new(),
            component: Vec::new(),
            status: Vec::new(),
            assigned_to: Vec::new(),
            creator: Vec::new(),
            priority: Vec::new(),
            severity: Vec::new(),
            whiteboard: Vec::new(),
            target_milestone: Vec::new(),
            version: Vec::new(),
            op_sys: Vec::new(),
            platform: Vec::new(),
            resolution: Vec::new(),
            qa_contact: Vec::new(),
            url: Vec::new(),
            cc: None,
            alias: None,
            id: Vec::new(),
            limit: None,
            offset: None,
            summary: None,
            quicksearch: None,
            include_fields: None,
            exclude_fields: None,
            creation_time: None,
            last_change_time: None,
            order: None,
            raw_params: Vec::new(),
        }
    }
}

} // verus!

verus! {

/// The fields a REST search asks for when the caller names none.
pub open spec fn default_bug_fields() -> Seq<char> {
    "id,summary,status,resolution,dupe_of,product,component,version,assigned_to,priority,severity,creation_time,last_change_time,creator,url,whiteboard,keywords,blocks,depends_on,cc,op_sys,rep_platform,deadline,target_milestone,flags"@
}

pub fn default_bug_fields_str() -> (s: &'static str)
    ensures
        s@ == default_bug_fields(),
{
    "id,summary,status,resolution,dupe_of,product,component,version,assigned_to,priority,severity,creation_time,last_change_time,creator,url,whiteboard,keywords,blocks,depends_on,cc,op_sys,rep_platform,deadline,target_milestone,flags"
}

pub type QueryPair = (Seq<char>, Seq<char>);

/// The text of each query pair.
pub open spec fn pairs_view(v: Seq<(String, String)>) -> Seq<QueryPair> {
    v.map_values(|p: (String, String)| (p.0@, p.1@))
}

/// The values that match rather than exclude.
pub open spec fn positive_values(vs: Seq<Seq<char>>) -> Seq<Seq<char>>
    decreases vs.len(),
{
    if vs.len() == 0 {
        Seq::empty()
    } else if is_negated(vs.last()) {
        positive_values(vs.drop_last())
    } else {
        positive_values(vs.drop_last()).push(vs.last())
    }
}

/// The excluded values, without their `!`.
pub open spec fn negated_values(vs: Seq<Seq<char>>) -> Seq<Seq<char>>
    decreases vs.len(),
{
    if vs.len() == 0 {
        Seq::empty()
    } else if is_negated(vs.last()) {
        negated_values(vs.drop_last()).push(vs.last().drop_first())
    } else {
        negated_values(vs.drop_last())
    }
}

/// One pair for each value, all under `key`.
pub open spec fn keyed(key: Seq<char>, vs: Seq<Seq<char>>) -> Seq<QueryPair> {
    vs.map_values(|v: Seq<char>| (key, v))
}

/// The repeated pairs of the matching values of the first `n` filters.
pub open spec fn positive_pairs(p: SearchParams, n: int) -> Seq<QueryPair>
    decreases n,
{
    if n <= 0 {
        Seq::empty()
    } else {
        positive_pairs(p, n - 1) + keyed(filter_key(n - 1), positive_values(p.filter_values(n - 1)))
    }
}

/// The excluded values of the first `n` filters, each with its filter.
pub open spec fn negations(p: SearchParams, n: int) -> Seq<(int, Seq<char>)>
    decreases n,
{
    if n <= 0 {
        Seq::empty()
    } else {
        negations(p, n - 1) + negated_values(p.filter_values(n - 1)).map_values(
            |v: Seq<char>| (n - 1, v),
        )
    }
}

/// The boolean chart columns `fN`, `oN`, `vN` for each exclusion, numbered
/// from one.
pub open spec fn chart_pairs(entries: Seq<(int, Seq<char>)>) -> Seq<QueryPair>
    decreases entries.len(),
{
    if entries.len() == 0 {
        Seq::empty()
    } else {
        let n = decimal_chars(entries.len());
        let e = entries.last();
        chart_pairs(entries.drop_last()) + seq![
            ("f"@ + n, filter_field(e.0)),
            ("o"@ + n, negation_operator(e.0)),
            ("v"@ + n, e.1),
        ]
    }
}

pub open spec fn opt_pair(key: Seq<char>, v: Option<String>) -> Seq<QueryPair> {
    match v {
        Some(s) => seq![(key, s@)],
        None => Seq::empty(),
    }
}

pub open spec fn opt_num_pair(key: Seq<char>, v: Option<u32>) -> Seq<QueryPair> {
    match v {
        Some(n) => seq![(key, decimal_chars(n as nat))],
        None => Seq::empty(),
    }
}

/// The single-valued options, in their fixed order.
pub open spec fn option_pairs(p: SearchParams) -> Seq<QueryPair> {
    opt_pair("cc"@, p.cc) + opt_pair("alias"@, p.alias) + opt_pair("summary"@, p.summary)
        + opt_pair("quicksearch"@, p.quicksearch) + opt_pair("include_fields"@, p.include_fields)
        + opt_pair("exclude_fields"@, p.exclude_fields) + opt_pair("creation_time"@, p.creation_time)
        + opt_pair("last_change_time"@, p.last_change_time) + opt_pair("order"@, p.order)
        + opt_num_pair("limit"@, p.limit) + opt_num_pair("offset"@, p.offset)
}

pub open spec fn id_pairs(ids: Seq<u64>) -> Seq<QueryPair> {
    ids.map_values(|x: u64| ("id"@, decimal_chars(x as nat)))
}

/// The query of a REST bug search, in order: matching values, exclusions as
/// boolean charts, options, ids, raw parameters, and the default field list
/// when none was asked for.
pub open spec fn search_query_spec(p: SearchParams) -> Seq<QueryPair> {
    positive_pairs(p, FILTER_COUNT as int) + chart_pairs(negations(p, FILTER_COUNT as int))
        + option_pairs(p) + id_pairs(p.id@) + pairs_view(p.raw_params@) + if p.include_fields is None {
        seq![("include_fields"@, default_bug_fields())]
    } else {
        Seq::empty()
    }
}

/// Whether any raw parameter names a boolean chart column.
pub open spec fn spec_has_raw_chart(p: SearchParams) -> bool {
    exists|i: int| 0 <= i < p.raw_params@.len() && #[trigger] is_chart_key(p.raw_params@[i].0@)
}

fn push_pair(out: &mut Vec<(String, String)>, key: String, value: String)
    ensures
        pairs_view(final(out)@) == pairs_view(old(out)@).push((key@, value@)),
{
    out.push((key, value));
    assert(pairs_view(out@) =~= pairs_view(old(out)@).push((key@, value@)));
}

fn clone_string(s: &String) -> (r: String)
    ensures
        r@ == s@,
{
    String::from_str(s.as_str())
}

fn push_opt(out: &mut Vec<(String, String)>, key: &str, v: &Option<String>)
    ensures
        pairs_view(final(out)@) == pairs_view(old(out)@) + opt_pair(key@, *v),
{
    match v {
        Some(s) => {
            push_pair(out, String::from_str(key), clone_string(s));
        },
        None => {
            assert(pairs_view(out@) =~= pairs_view(old(out)@) + opt_pair(key@, *v));
        },
    }
}

fn push_opt_num(out: &mut Vec<(String, String)>, key: &str, v: Option<u32>)
    ensures
        pairs_view(final(out)@) == pairs_view(old(out)@) + opt_num_pair(key@, v),
{
    match v {
        Some(n) => {
            push_pair(out, String::from_str(key), decimal_string(n as u64));
        },
        None => {
            assert(pairs_view(out@) =~= pairs_view(old(out)@) + opt_num_pair(key@, v));
        },
    }
}

/// The text after a leading `!`.
fn strip_bang(s: &String) -> (r: String)
    requires
        is_negated(s@),
    ensures
        r@ == s@.drop_first(),
{
    let t = s.as_str();
    let n = t.unicode_len();
    let rest = t.substring_char(1, n);
    assert(rest@ =~= s@.drop_first());
    String::from_str(rest)
}

proof fn lemma_keyed_push(key: Seq<char>, vs: Seq<Seq<char>>, v: Seq<char>)
    ensures
        keyed(key, vs.push(v)) == keyed(key, vs).push((key, v)),
{
    assert(keyed(key, vs.push(v)) =~= keyed(key, vs).push((key, v)));
}

/// Appends the matching values of the multi-value filters as repeated pairs
/// (for example `status=NEW&status=ASSIGNED`).
pub fn append_multi_value_params(out: &mut Vec<(String, String)>, params: &SearchParams)
    ensures
        pairs_view(final(out)@) == pairs_view(old(out)@) + positive_pairs(*params, FILTER_COUNT as int),
{
    let ghost start = pairs_view(out@);
    let mut i: usize = 0;
    while i < FILTER_COUNT
        invariant
            i <= FILTER_COUNT,
            pairs_view(out@) == start + positive_pairs(*params, i as int),
        decreases FILTER_COUNT - i,
    {
        let values = params.get_field(i);
        let ghost vs = params.filter_values(i as int);
        let ghost before = pairs_view(out@);
        let mut j: usize = 0;
        while j < values.len()
            invariant
                i < FILTER_COUNT,
                j <= values@.len(),
                texts(values@) == vs,
                vs == params.filter_values(i as int),
                pairs_view(out@) == before + keyed(filter_key(i as int), positive_values(vs.take(j as int))),
            decreases values@.len() - j,
        {
            let v = &values[j];
            assert(vs.take(j + 1).drop_last() =~= vs.take(j as int));
            assert(vs.take(j + 1).last() == v@);
            if !starts_with_bang(v) {
                push_pair(out, String::from_str(filter_key_str(i)), clone_string(v));
                proof {
                    lemma_keyed_push(filter_key(i as int), positive_values(vs.take(j as int)), v@);
                }
            }
            j = j + 1;
        }
        assert(vs.take(values@.len() as int) =~= vs);
        i = i + 1;
    }
}

/// Appends each excluded value as a boolean chart triple `fN`, `oN`, `vN`
/// (field, negating operator, value), numbered from one across all filters.
pub fn append_negated_params(out: &mut Vec<(String, String)>, params: &SearchParams)
    requires
        negations(*params, FILTER_COUNT as int).len() < u32::MAX,
    ensures
        pairs_view(final(out)@) == pairs_view(old(out)@) + chart_pairs(negations(*params, FILTER_COUNT as int)),
{
    let ghost pos = pairs_view(out@);
    let mut idx: u32 = 1;
    let mut i: usize = 0;
    while i < FILTER_COUNT
        invariant
            i <= FILTER_COUNT,
            negations(*params, FILTER_COUNT as int).len() < u32::MAX,
            idx == negations(*params, i as int).len() + 1,
            pairs_view(out@) == pos + chart_pairs(negations(*params, i as int)),
        decreases FILTER_COUNT - i,
    {
        let values = params.get_field(i);
        let ghost vs = params.filter_values(i as int);
        let ghost base = negations(*params, i as int);
        proof {
            lemma_negations_monotone(*params, i as int + 1, FILTER_COUNT as int);
        }
        let mut j: usize = 0;
        while j < values.len()
            invariant
                i < FILTER_COUNT,
                j <= values@.len(),
                texts(values@) == vs,
                vs == params.filter_values(i as int),
                base == negations(*params, i as int),
                negations(*params, i as int + 1).len() < u32::MAX,
                negations(*params, i as int + 1) == base + negated_values(vs).map_values(
                    |v: Seq<char>| (i as int, v),
                ),
                idx == base.len() + negated_values(vs.take(j as int)).len() + 1,
                pairs_view(out@) == pos + chart_pairs(base + negated_values(vs.take(j as int)).map_values(
                    |v: Seq<char>| (i as int, v),
                )),
            decreases values@.len() - j,
        {
            let v = &values[j];
            assert(vs.take(j + 1).drop_last() =~= vs.take(j as int));
            assert(vs.take(j + 1).last() == v@);
            if starts_with_bang(v) {
                let ghost entries = base + negated_values(vs.take(j as int)).map_values(
                    |w: Seq<char>| (i as int, w),
                );
                let ghost next = base + negated_values(vs.take(j + 1)).map_values(
                    |w: Seq<char>| (i as int, w),
                );
                assert(next =~= entries.push((i as int, v@.drop_first())));
                proof {
                    lemma_negated_prefix_len(vs, j as int + 1);
                }
                let n = decimal_string(idx as u64);
                let mut fk = String::from_str("f");
                fk.append(n.as_str());
                let mut ok = String::from_str("o");
                ok.append(n.as_str());
                let mut vk = String::from_str("v");
                vk.append(n.as_str());
                push_pair(out, fk, String::from_str(filter_field_str(i)));
                push_pair(out, ok, String::from_str(negation_operator_str(i)));
                push_pair(out, vk, strip_bang(v));
                assert(next.drop_last() =~= entries);
                idx = idx + 1;
            }
            j = j + 1;
        }
        assert(vs.take(values@.len() as int) =~= vs);
        i = i + 1;
    }
}

/// Appends the single-valued options and the numeric limit and offset.
pub fn append_option_params(out: &mut Vec<(String, String)>, params: &SearchParams)
    ensures
        pairs_view(final(out)@) == pairs_view(old(out)@) + option_pairs(*params),
{
    let ghost b0 = pairs_view(out@);
    push_opt(out, "cc", &params.cc);
    let ghost b1 = pairs_view(out@);
    push_opt(out, "alias", &params.alias);
    let ghost b2 = pairs_view(out@);
    push_opt(out, "summary", &params.summary);
    let ghost b3 = pairs_view(out@);
    push_opt(out, "quicksearch", &params.quicksearch);
    let ghost b4 = pairs_view(out@);
    push_opt(out, "include_fields", &params.include_fields);
    let ghost b5 = pairs_view(out@);
    push_opt(out, "exclude_fields", &params.exclude_fields);
    let ghost b6 = pairs_view(out@);
    push_opt(out, "creation_time", &params.creation_time);
    let ghost b7 = pairs_view(out@);
    push_opt(out, "last_change_time", &params.last_change_time);
    let ghost b8 = pairs_view(out@);
    push_opt(out, "order", &params.order);
    let ghost b9 = pairs_view(out@);
    push_opt_num(out, "limit", params.limit);
    let ghost b10 = pairs_view(out@);
    push_opt_num(out, "offset", params.offset);
    proof {
        let p = *params;
        let o1 = opt_pair("cc"@, p.cc);
        let o2 = o1 + opt_pair("alias"@, p.alias);
        let o3 = o2 + opt_pair("summary"@, p.summary);
        let o4 = o3 + opt_pair("quicksearch"@, p.quicksearch);
        let o5 = o4 + opt_pair("include_fields"@, p.include_fields);
        let o6 = o5 + opt_pair("exclude_fields"@, p.exclude_fields);
        let o7 = o6 + opt_pair("creation_time"@, p.creation_time);
        let o8 = o7 + opt_pair("last_change_time"@, p.last_change_time);
        let o9 = o8 + opt_pair("order"@, p.order);
        let o10 = o9 + opt_num_pair("limit"@, p.limit);
        let o11 = o10 + opt_num_pair("offset"@, p.offset);
        assert(b1 =~= b0 + o1);
        assert(b2 =~= b0 + o2);
        assert(b3 =~= b0 + o3);
        assert(b4 =~= b0 + o4);
        assert(b5 =~= b0 + o5);
        assert(b6 =~= b0 + o6);
        assert(b7 =~= b0 + o7);
        assert(b8 =~= b0 + o8);
        assert(b9 =~= b0 + o9);
        assert(b10 =~= b0 + o10);
        assert(pairs_view(out@) =~= b0 + o11);
    }
}

/// Appends one `id` pair per requested bug id.
pub fn append_id_params(out: &mut Vec<(String, String)>, ids: &Vec<u64>)
    ensures
        pairs_view(final(out)@) == pairs_view(old(out)@) + id_pairs(ids@),
{
    let ghost before_ids = pairs_view(out@);
    let mut k: usize = 0;
    while k < ids.len()
        invariant
            k <= ids@.len(),
            pairs_view(out@) == before_ids + id_pairs(ids@.take(k as int)),
        decreases ids@.len() - k,
    {
        push_pair(out, String::from_str("id"), decimal_string(ids[k]));
        assert(id_pairs(ids@.take(k + 1)) =~= id_pairs(ids@.take(k as int)).push(
            ("id"@, decimal_chars(ids@[k as int] as nat)),
        ));
        k = k + 1;
    }
    assert(ids@.take(ids@.len() as int) =~= ids@);
}

/// Appends raw key-value parameters verbatim.
pub fn append_raw_params(out: &mut Vec<(String, String)>, raw: &Vec<(String, String)>)
    ensures
        pairs_view(final(out)@) == pairs_view(old(out)@) + pairs_view(raw@),
{
    let ghost before_raw = pairs_view(out@);
    let mut k: usize = 0;
    while k < raw.len()
        invariant
            k <= raw@.len(),
            pairs_view(out@) == before_raw + pairs_view(raw@.take(k as int)),
        decreases raw@.len() - k,
    {
        let (a, b) = &raw[k];
        push_pair(out, clone_string(a), clone_string(b));
        assert(pairs_view(raw@.take(k + 1)) =~= pairs_view(raw@.take(k as int)).push((a@, b@)));
        k = k + 1;
    }
    assert(raw@.take(raw@.len() as int) =~= raw@);
}

/// Why negated filters and boolean charts imported from a URL cannot go
/// together.
pub open spec fn chart_collision_message() -> Seq<char> {
    "cannot combine negated filters (e.g. --status '!CLOSED') with a URL-imported query containing boolean chart parameters; the chart indices would collide"@
}

/// The query pairs of a REST bug search. Exclusions and imported boolean
/// charts cannot be combined: their column numbers would collide.
pub fn search_query(params: &SearchParams) -> (r: Result<Vec<(String, String)>, BzrError>)
    requires
        negations(*params, FILTER_COUNT as int).len() < u32::MAX,
    ensures
        match r {
            Ok(v) => !(params.spec_has_negated_filters() && spec_has_raw_chart(*params))
                && pairs_view(v@) == search_query_spec(*params),
            Err(e) => params.spec_has_negated_filters() && spec_has_raw_chart(*params)
                && (e matches BzrError::InputValidation { message, field: None, value: None } && message@
                == chart_collision_message()),
        },
{
    if has_negated_filters(params) && has_raw_boolean_chart_params(params) {
        return Err(BzrError::InputValidation {
            message: String::from_str(
                "cannot combine negated filters (e.g. --status '!CLOSED') with a URL-imported query containing boolean chart parameters; the chart indices would collide",
            ),
            field: None,
            value: None,
        });
    }
    let mut out: Vec<(String, String)> = Vec::new();
    assert(pairs_view(out@) =~= Seq::<QueryPair>::empty());
    append_multi_value_params(&mut out, params);
    append_negated_params(&mut out, params);
    append_option_params(&mut out, params);
    append_id_params(&mut out, &params.id);
    append_raw_params(&mut out, &params.raw_params);
    let ghost before_default = pairs_view(out@);
    if params.include_fields.is_none() {
        push_pair(&mut out, String::from_str("include_fields"), String::from_str(default_bug_fields_str()));
    }
    assert(pairs_view(out@) =~= search_query_spec(*params));
    Ok(out)
}

proof fn lemma_negations_monotone(p: SearchParams, a: int, b: int)
    requires
        0 <= a <= b,
    ensures
        negations(p, a).len() <= negations(p, b).len(),
    decreases b - a,
{
    if a < b {
        lemma_negations_monotone(p, a, b - 1);
    }
}

proof fn lemma_negated_prefix_len(vs: Seq<Seq<char>>, j: int)
    requires
        0 <= j <= vs.len(),
    ensures
        negated_values(vs.take(j)).len() <= negated_values(vs).len(),
    decreases vs.len() - j,
{
    if j < vs.len() {
        lemma_negated_prefix_len(vs, j + 1);
        assert(vs.take(j + 1).drop_last() =~= vs.take(j));
    } else {
        assert(vs.take(j) =~= vs);
    }
}

} // verus!

verus! {

/// The text a failed direct lookup adds when the search fallback found
/// nothing either.
pub open spec fn fallback_note(id: Seq<char>) -> Seq<char> {
    " (direct lookup failed; the search fallback returned no row for bug "@ + id
        + " accessible to this account)"@
}

/// Re-surfaces the error that forced the search fallback, noting that the
/// fallback came back empty; an API error keeps its code, so routing on it
/// still works, and any other error passes through unchanged.
pub fn annotate_search_fallback(original: BzrError, id: &str) -> (r: BzrError)
    ensures
        match original {
            BzrError::Api { code, message } => r matches BzrError::Api { code: c, message: m } && c
                == code && m@ == message@ + fallback_note(id@),
            other => r == other,
        },
{
    match original {
        BzrError::Api { code, message } => {
            let mut m = message;
            m.append(" (direct lookup failed; the search fallback returned no row for bug ");
            m.append(id);
            m.append(" accessible to this account)");
            BzrError::Api { code, message: m }
        },
        other => other,
    }
}

/// The role filters (assignee, creator, QA contact) among the multi-value
/// filters, and the flags that set them.
pub open spec fn role_filter(r: int) -> int {
    if r == 0 {
        3
    } else if r == 1 {
        4
    } else {
        13
    }
}

pub open spec fn role_flag(r: int) -> Seq<char> {
    if r == 0 {
        "--assignee"@
    } else if r == 1 {
        "--creator"@
    } else {
        "--qa-contact"@
    }
}

fn role_flag_str(r: usize) -> (s: &'static str)
    requires
        r < 3,
    ensures
        s@ == role_flag(r as int),
{
    if r == 0 {
        "--assignee"
    } else if r == 1 {
        "--creator"
    } else {
        "--qa-contact"
    }
}

/// A negation with nothing to match after its `!`.
pub open spec fn empty_negation(v: Seq<char>) -> bool {
    is_negated(v) && trim(v.drop_first()).len() == 0
}

/// The first role filter value that negates nothing: role by role, value by
/// value.
pub open spec fn first_empty_negation(p: SearchParams) -> Option<(int, int)> {
    if exists|j: int| 0 <= j < p.filter_values(3).len() && #[trigger] empty_negation(p.filter_values(3)[j]) {
        Some((0, choose|j: int| 0 <= j < p.filter_values(3).len() && empty_negation(p.filter_values(3)[j]) && forall|k: int| 0 <= k < j ==> !#[trigger] empty_negation(p.filter_values(3)[k])))
    } else if exists|j: int| 0 <= j < p.filter_values(4).len() && #[trigger] empty_negation(p.filter_values(4)[j]) {
        Some((1, choose|j: int| 0 <= j < p.filter_values(4).len() && empty_negation(p.filter_values(4)[j]) && forall|k: int| 0 <= k < j ==> !#[trigger] empty_negation(p.filter_values(4)[k])))
    } else if exists|j: int| 0 <= j < p.filter_values(13).len() && #[trigger] empty_negation(p.filter_values(13)[j]) {
        Some((2, choose|j: int| 0 <= j < p.filter_values(13).len() && empty_negation(p.filter_values(13)[j]) && forall|k: int| 0 <= k < j ==> !#[trigger] empty_negation(p.filter_values(13)[k])))
    } else {
        None
    }
}

fn is_empty_negation(v: &String) -> (r: bool)
    ensures
        r == empty_negation(v@),
{
    let c = chars_of(v.as_str());
    if c.len() == 0 || c[0] != '!' {
        return false;
    }
    let (a, b) = trim_bounds(&c, 1, c.len());
    assert(c@.subrange(1, c@.len() as int) =~= v@.drop_first());
    a == b
}

/// Refuses a role filter negation with nothing after its `!`: it would
/// exclude no one.
pub fn validate_role_negations(params: &SearchParams) -> (r: Result<(), BzrError>)
    ensures
        match first_empty_negation(*params) {
            None => r is Ok,
            Some((role, j)) => r matches Err(BzrError::InputValidation { message: m, field: None, value: None })
                && m@ == role_flag(role)
                + " negation '"@ + params.filter_values(role_filter(role))[j] + "' must contain a role substring after '!'"@,
        },
{
    let mut role: usize = 0;
    while role < 3
        invariant
            role <= 3,
            forall|r: int, j: int| 0 <= r < role && 0 <= j < params.filter_values(role_filter(r)).len()
                ==> !#[trigger] empty_negation(params.filter_values(role_filter(r))[j]),
        decreases 3 - role,
    {
        let field: usize = if role == 0 {
            3
        } else if role == 1 {
            4
        } else {
            13
        };
        let values = params.get_field(field);
        let mut j: usize = 0;
        while j < values.len()
            invariant
                j <= values@.len(),
                role < 3,
                field == role_filter(role as int),
                texts(values@) == params.filter_values(field as int),
                forall|k: int| 0 <= k < j ==> !#[trigger] empty_negation(params.filter_values(field as int)[k]),
                forall|r: int, jj: int| 0 <= r < role && 0 <= jj < params.filter_values(role_filter(r)).len()
                    ==> !#[trigger] empty_negation(params.filter_values(role_filter(r))[jj]),
            decreases values@.len() - j,
        {
            if is_empty_negation(&values[j]) {
                let mut m = String::from_str(role_flag_str(role));
                m.append(" negation '");
                m.append(values[j].as_str());
                m.append("' must contain a role substring after '!'");
                proof {
                    assert(params.filter_values(field as int)[j as int] == values@[j as int]@);
                    assert(empty_negation(params.filter_values(field as int)[j as int]));
                }
                return Err(BzrError::InputValidation { message: m, field: None, value: None });
            }
            j = j + 1;
        }
        role = role + 1;
    }
    proof {
        assert(role_filter(0) == 3 && role_filter(1) == 4 && role_filter(2) == 13);
        assert forall|j: int| 0 <= j < params.filter_values(3).len() implies !empty_negation(params.filter_values(3)[j]) by {
            assert(!empty_negation(params.filter_values(role_filter(0))[j]));
        }
        assert forall|j: int| 0 <= j < params.filter_values(4).len() implies !empty_negation(params.filter_values(4)[j]) by {
            assert(!empty_negation(params.filter_values(role_filter(1))[j]));
        }
        assert forall|j: int| 0 <= j < params.filter_values(13).len() implies !empty_negation(params.filter_values(13)[j]) by {
            assert(!empty_negation(params.filter_values(role_filter(2))[j]));
        }
    }
    Ok(())
}

/// Every exclusion names one of the filters.
proof fn lemma_negations_in_range(p: SearchParams, n: int, k: int)
    requires
        0 <= k < negations(p, n).len(),
    ensures
        0 <= negations(p, n)[k].0 < n,
    decreases n,
{
    if n > 0 {
        let prev = negations(p, n - 1);
        let here = negated_values(p.filter_values(n - 1)).map_values(|v: Seq<char>| (n - 1, v));
        assert(negations(p, n) == prev + here);
        if k < prev.len() {
            lemma_negations_in_range(p, n - 1, k);
        } else {
            assert(negations(p, n)[k] == here[k - prev.len()]);
        }
    }
}

/// The boolean-chart columns of exclusion `k` stand at positions `3k`,
/// `3k + 1` and `3k + 2`, numbered `k + 1`.
proof fn lemma_chart_pairs_at(entries: Seq<(int, Seq<char>)>, k: int)
    requires
        0 <= k < entries.len(),
    ensures
        chart_pairs(entries).len() == 3 * entries.len(),
        chart_pairs(entries)[3 * k] == ("f"@ + decimal_chars((k + 1) as nat), filter_field(entries[k].0)),
        chart_pairs(entries)[3 * k + 1] == ("o"@ + decimal_chars((k + 1) as nat), negation_operator(
            entries[k].0,
        )),
        chart_pairs(entries)[3 * k + 2] == ("v"@ + decimal_chars((k + 1) as nat), entries[k].1),
    decreases entries.len(),
{
    let prev = entries.drop_last();
    lemma_chart_pairs_len(prev);
    if k < entries.len() - 1 {
        lemma_chart_pairs_at(prev, k);
        assert(prev[k] == entries[k]);
    }
}

proof fn lemma_chart_pairs_len(entries: Seq<(int, Seq<char>)>)
    ensures
        chart_pairs(entries).len() == 3 * entries.len(),
    decreases entries.len(),
{
    if entries.len() > 0 {
        lemma_chart_pairs_len(entries.drop_last());
    }
}

/// A negated value of a filter that matches by substring (assigned_to,
/// creator, whiteboard, qa_contact and url: filters 3, 4, 7, 13 and 14) is
/// excluded with `notsubstring`; a negated value of any other filter with
/// `notequals`. Exclusion `k` of the query takes the chart columns
/// `f{k+1}`, `o{k+1}`, `v{k+1}` right after the matching values, naming the
/// filter's field, this operator and the value without its `!`.
pub proof fn lemma_negated_filter_operator(p: SearchParams, k: int)
    requires
        0 <= k < negations(p, FILTER_COUNT as int).len(),
    ensures
        ({
            let e = negations(p, FILTER_COUNT as int)[k];
            let q = search_query_spec(p);
            let at = positive_pairs(p, FILTER_COUNT as int).len() + 3 * k;
            let n = decimal_chars((k + 1) as nat);
            &&& 0 <= e.0 < FILTER_COUNT
            &&& q[at] == ("f"@ + n, filter_field(e.0))
            &&& q[at + 1] == ("o"@ + n, if e.0 == 3 || e.0 == 4 || e.0 == 7 || e.0 == 13 || e.0 == 14 {
                "notsubstring"@
            } else {
                "notequals"@
            })
            &&& q[at + 2] == ("v"@ + n, e.1)
        }),
{
    let entries = negations(p, FILTER_COUNT as int);
    lemma_negations_in_range(p, FILTER_COUNT as int, k);
    lemma_chart_pairs_at(entries, k);
    let a = positive_pairs(p, FILTER_COUNT as int);
    let b = chart_pairs(entries);
    let rest = option_pairs(p) + id_pairs(p.id@) + pairs_view(p.raw_params@) + if p.include_fields is None {
        seq![("include_fields"@, default_bug_fields())]
    } else {
        Seq::empty()
    };
    assert(search_query_spec(p) =~= (a + b) + rest);
    let at = a.len() + 3 * k;
    assert((a + b)[at] == b[3 * k]);
    assert((a + b)[at + 1] == b[3 * k + 1]);
    assert((a + b)[at + 2] == b[3 * k + 2]);
}

} // verus!
