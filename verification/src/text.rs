//! Character- and digit-level helpers shared by the rest of the library.

use vstd::prelude::*;

verus! {

/// Copies the characters of a string slice into a vector.
pub fn chars_of(s: &str) -> (v: Vec<char>)
    ensures
        v@ == s@,
{
    let mut v: Vec<char> = Vec::new();
    for c in it: s.chars()
        invariant
            v@ == it.seq().take(it.index() as int),
    {
        v.push(c);
    }
    v
}

pub open spec fn is_digit(c: char) -> bool {
    '0' <= c && c <= '9'
}

pub open spec fn digit_value(c: char) -> nat {
    (c as u32 - '0' as u32) as nat
}

pub open spec fn all_digits(s: Seq<char>) -> bool {
    forall|i: int| 0 <= i < s.len() ==> #[trigger] is_digit(s[i])
}

/// The number that a sequence of decimal digits denotes.
pub open spec fn decimal_value(s: Seq<char>) -> nat
    decreases s.len(),
{
    if s.len() == 0 {
        0
    } else {
        decimal_value(s.drop_last()) * 10 + digit_value(s.last())
    }
}

/// The digits of an unsigned number without its optional leading `+`.
pub open spec fn unsigned_digits(s: Seq<char>) -> Seq<char> {
    if s.len() > 0 && s[0] == '+' {
        s.drop_first()
    } else {
        s
    }
}

/// What `str::parse` gives for an unsigned integer type whose largest value is
/// `max`: an optional `+`, then one or more decimal digits whose value fits.
pub open spec fn parse_unsigned(s: Seq<char>, max: nat) -> Option<nat> {
    let d = unsigned_digits(s);
    if d.len() > 0 && all_digits(d) && decimal_value(d) <= max {
        Some(decimal_value(d))
    } else {
        None
    }
}

/// What `str::parse::<i64>` gives: an optional sign, then one or more decimal
/// digits whose signed value lies in the range of `i64`.
pub open spec fn parse_i64_spec(s: Seq<char>) -> Option<int> {
    if s.len() > 0 && s[0] == '-' {
        let d = s.drop_first();
        if d.len() > 0 && all_digits(d) && decimal_value(d) <= 0x8000_0000_0000_0000 {
            Some(-(decimal_value(d) as int))
        } else {
            None
        }
    } else {
        match parse_unsigned(s, 0x7fff_ffff_ffff_ffff) {
            Some(v) => Some(v as int),
            None => None,
        }
    }
}

pub proof fn lemma_decimal_value_take_step(s: Seq<char>, i: int)
    requires
        0 <= i < s.len(),
    ensures
        decimal_value(s.take(i + 1)) == decimal_value(s.take(i)) * 10 + digit_value(s[i]),
{
    assert(s.take(i + 1).drop_last() =~= s.take(i));
}

pub proof fn lemma_decimal_value_monotone(s: Seq<char>, i: int)
    requires
        0 <= i <= s.len(),
    ensures
        decimal_value(s.take(i)) <= decimal_value(s),
    decreases s.len() - i,
{
    if i < s.len() {
        lemma_decimal_value_take_step(s, i);
        lemma_decimal_value_monotone(s, i + 1);
    } else {
        assert(s.take(i) =~= s);
    }
}

/// Parses the decimal digits `chars[start..end]`, answering `None` when the
/// range is empty, holds a non-digit, or denotes a value above `max`.
pub fn parse_digits(chars: &Vec<char>, start: usize, end: usize, max: u64) -> (r: Option<u64>)
    requires
        start <= end <= chars@.len(),
    ensures
        ({
            let d = chars@.subrange(start as int, end as int);
            r == if d.len() > 0 && all_digits(d) && decimal_value(d) <= max {
                Some(decimal_value(d) as u64)
            } else {
                None::<u64>
            }
        }),
{
    let ghost d = chars@.subrange(start as int, end as int);
    if start == end {
        return None;
    }
    let mut value: u64 = 0;
    let mut i: usize = start;
    while i < end
        invariant
            start <= i <= end <= chars@.len(),
            d == chars@.subrange(start as int, end as int),
            all_digits(d.take(i - start)),
            value == decimal_value(d.take(i - start)),
            value <= max,
        decreases end - i,
    {
        let c = chars[i];
        if !('0' <= c && c <= '9') {
            assert(!is_digit(d[i - start]));
            return None;
        }
        proof {
            lemma_decimal_value_take_step(d, i - start);
            assert(d.take(i - start + 1) =~= d.take(i - start).push(c));
        }
        let digit = (c as u32 - '0' as u32) as u64;
        if digit > max || value > (max - digit) / 10 {
            proof {
                lemma_decimal_value_monotone(d, i - start + 1);
                if digit <= max {
                    assert(value * 10 + digit > max) by (nonlinear_arith)
                        requires value > (max - digit) / 10, digit <= max;
                }
            }
            return None;
        }
        assert(value * 10 + digit <= max) by (nonlinear_arith)
            requires value <= (max - digit) / 10, digit <= max;
        value = value * 10 + digit;
        i = i + 1;
    }
    assert(d.take(end - start) =~= d);
    Some(value)
}

/// `str::parse::<u32>` on `chars[start..end]`.
pub fn parse_u32_range(chars: &Vec<char>, start: usize, end: usize) -> (r: Option<u32>)
    requires
        start <= end <= chars@.len(),
    ensures
        ({
            let p = parse_unsigned(chars@.subrange(start as int, end as int), u32::MAX as nat);
            &&& r is Some <==> p is Some
            &&& r matches Some(v) ==> p == Some(v as nat)
        }),
{
    let ghost s = chars@.subrange(start as int, end as int);
    let mut from = start;
    if start < end && chars[start] == '+' {
        from = start + 1;
        assert(chars@.subrange(from as int, end as int) =~= s.drop_first());
    } else {
        assert(chars@.subrange(from as int, end as int) =~= s);
    }
    match parse_digits(chars, from, end, u32::MAX as u64) {
        Some(v) => Some(v as u32),
        None => None,
    }
}

} // verus!

verus! {

/// Whether `c` has the Unicode `White_Space` property, as `char::is_whitespace`
/// documents it.
pub open spec fn is_white_space(c: char) -> bool {
    ('\t' <= c && c <= '\r') || c == ' ' || c == '\u{85}' || c == '\u{A0}' || c == '\u{1680}'
        || ('\u{2000}' <= c && c <= '\u{200A}') || c == '\u{2028}' || c == '\u{2029}'
        || c == '\u{202F}' || c == '\u{205F}' || c == '\u{3000}'
}

pub fn white_space(c: char) -> (r: bool)
    ensures
        r == is_white_space(c),
{
    ('\t' <= c && c <= '\r') || c == ' ' || c == '\u{85}' || c == '\u{A0}' || c == '\u{1680}'
        || ('\u{2000}' <= c && c <= '\u{200A}') || c == '\u{2028}' || c == '\u{2029}'
        || c == '\u{202F}' || c == '\u{205F}' || c == '\u{3000}'
}

/// `s` without leading whitespace.
pub open spec fn trim_start(s: Seq<char>) -> Seq<char>
    decreases s.len(),
{
    if s.len() > 0 && is_white_space(s[0]) {
        trim_start(s.drop_first())
    } else {
        s
    }
}

/// `s` without trailing whitespace.
pub open spec fn trim_end(s: Seq<char>) -> Seq<char>
    decreases s.len(),
{
    if s.len() > 0 && is_white_space(s.last()) {
        trim_end(s.drop_last())
    } else {
        s
    }
}

/// `s` without leading or trailing whitespace, as `str::trim` gives it.
pub open spec fn trim(s: Seq<char>) -> Seq<char> {
    trim_end(trim_start(s))
}

/// The ASCII lower-case form of a character; others stay as they are.
pub open spec fn ascii_lower(c: char) -> char {
    if 'A' <= c && c <= 'Z' {
        ((c as u8) + 32) as char
    } else {
        c
    }
}

pub fn to_ascii_lower(c: char) -> (r: char)
    ensures
        r == ascii_lower(c),
{
    if 'A' <= c && c <= 'Z' {
        ((c as u8) + 32) as char
    } else {
        c
    }
}

/// Equality up to ASCII case, as `str::eq_ignore_ascii_case` gives it.
pub open spec fn eq_ignore_ascii_case(a: Seq<char>, b: Seq<char>) -> bool {
    a.len() == b.len() && forall|i: int| 0 <= i < a.len() ==> ascii_lower(#[trigger] a[i])
        == ascii_lower(b[i])
}

/// The first index at or after `from` that holds `c`, or `s.len()`.
pub open spec fn find_from(s: Seq<char>, from: int, c: char) -> int
    decreases s.len() - from,
{
    if from >= s.len() {
        s.len() as int
    } else if s[from] == c {
        from
    } else {
        find_from(s, from + 1, c)
    }
}

/// The pieces of `s[from..]` between occurrences of `sep`, as `str::split`
/// gives them for a one-character separator.
pub open spec fn split_from(s: Seq<char>, from: int, sep: char) -> Seq<Seq<char>>
    decreases s.len() - from,
{
    let end = find_from(s, from, sep);
    if from < 0 || from > s.len() {
        Seq::empty()
    } else if end >= s.len() {
        seq![s.subrange(from, s.len() as int)]
    } else {
        proof {
            lemma_find_from_bounds(s, from, sep);
        }
        seq![s.subrange(from, end)] + split_from(s, end + 1, sep)
    }
}

/// `str::split` on a one-character separator.
pub open spec fn split(s: Seq<char>, sep: char) -> Seq<Seq<char>> {
    split_from(s, 0, sep)
}

/// The pieces joined with `sep` between them, as `[&str]::join` gives it.
pub open spec fn join(pieces: Seq<Seq<char>>, sep: Seq<char>) -> Seq<char>
    decreases pieces.len(),
{
    if pieces.len() == 0 {
        Seq::empty()
    } else if pieces.len() == 1 {
        pieces[0]
    } else {
        join(pieces.drop_last(), sep) + sep + pieces.last()
    }
}

pub proof fn lemma_find_from_bounds(s: Seq<char>, from: int, c: char)
    requires
        0 <= from,
    ensures
        from <= find_from(s, from, c) || from > s.len(),
        find_from(s, from, c) <= s.len() || from > s.len(),
        find_from(s, from, c) < s.len() ==> s[find_from(s, from, c)] == c,
        forall|k: int| from <= k < find_from(s, from, c) && k < s.len() ==> s[k] != c,
    decreases s.len() - from,
{
    if from < s.len() && s[from] != c {
        lemma_find_from_bounds(s, from + 1, c);
    }
}

/// The start and end of `s[from..to]` once surrounding whitespace is trimmed.
pub fn trim_bounds(s: &Vec<char>, from: usize, to: usize) -> (r: (usize, usize))
    requires
        from <= to <= s@.len(),
    ensures
        from <= r.0 <= r.1 <= to,
        s@.subrange(r.0 as int, r.1 as int) == trim(s@.subrange(from as int, to as int)),
{
    let mut a = from;
    while a < to && white_space(s[a])
        invariant
            from <= a <= to <= s@.len(),
            trim_start(s@.subrange(from as int, to as int)) == trim_start(s@.subrange(a as int, to as int)),
        decreases to - a,
    {
        assert(s@.subrange(a as int, to as int).drop_first() =~= s@.subrange(a + 1, to as int));
        a = a + 1;
    }
    assert(trim_start(s@.subrange(a as int, to as int)) == s@.subrange(a as int, to as int));
    let mut b = to;
    while b > a && white_space(s[b - 1])
        invariant
            a <= b <= to <= s@.len(),
            trim_end(s@.subrange(a as int, to as int)) == trim_end(s@.subrange(a as int, b as int)),
        decreases b - a,
    {
        assert(s@.subrange(a as int, b as int).drop_last() =~= s@.subrange(a as int, b - 1));
        b = b - 1;
    }
    assert(trim_end(s@.subrange(a as int, b as int)) == s@.subrange(a as int, b as int));
    (a, b)
}

/// Whether `s[from..to]` is `word` up to ASCII case.
pub fn range_eq_ignore_ascii_case(s: &Vec<char>, from: usize, to: usize, word: &Vec<char>) -> (r: bool)
    requires
        from <= to <= s@.len(),
    ensures
        r == eq_ignore_ascii_case(s@.subrange(from as int, to as int), word@),
{
    let ghost t = s@.subrange(from as int, to as int);
    if to - from != word.len() {
        return false;
    }
    let mut i: usize = 0;
    while i < word.len()
        invariant
            i <= word@.len() == to - from,
            from <= to <= s@.len(),
            t == s@.subrange(from as int, to as int),
            forall|j: int| 0 <= j < i ==> ascii_lower(#[trigger] t[j]) == ascii_lower(word@[j]),
        decreases word@.len() - i,
    {
        if to_ascii_lower(s[from + i]) != to_ascii_lower(word[i]) {
            assert(ascii_lower(t[i as int]) != ascii_lower(word@[i as int]));
            return false;
        }
        i = i + 1;
    }
    true
}

} // verus!

verus! {

/// `str::parse::<i64>`.
pub fn parse_i64(s: &str) -> (r: Option<i64>)
    ensures
        match r {
            Some(v) => parse_i64_spec(s@) == Some(v as int),
            None => parse_i64_spec(s@) is None,
        },
{
    let c = chars_of(s);
    let n = c.len();
    if n > 0 && c[0] == '-' {
        assert(c@.subrange(1, n as int) =~= s@.drop_first());
        match parse_digits(&c, 1, n, 0x8000_0000_0000_0000u64) {
            Some(v) => {
                if v == 0x8000_0000_0000_0000u64 {
                    Some(i64::MIN)
                } else {
                    Some(-(v as i64))
                }
            },
            None => None,
        }
    } else {
        let mut from: usize = 0;
        if n > 0 && c[0] == '+' {
            from = 1;
            assert(c@.subrange(1, n as int) =~= s@.drop_first());
        } else {
            assert(c@.subrange(0, n as int) =~= s@);
        }
        match parse_digits(&c, from, n, 0x7fff_ffff_ffff_ffffu64) {
            Some(v) => Some(v as i64),
            None => None,
        }
    }
}

} // verus!

verus! {

/// Whether two string slices hold the same characters.
pub fn str_eq(a: &str, b: &str) -> (r: bool)
    ensures
        r == (a@ == b@),
{
    let x = chars_of(a);
    let y = chars_of(b);
    if x.len() != y.len() {
        return false;
    }
    let mut i: usize = 0;
    while i < x.len()
        invariant
            i <= x@.len() == y@.len(),
            x@ == a@,
            y@ == b@,
            forall|j: int| 0 <= j < i ==> x@[j] == y@[j],
        decreases x@.len() - i,
    {
        if x[i] != y[i] {
            assert(x@[i as int] != y@[i as int]);
            return false;
        }
        i = i + 1;
    }
    assert(x@ =~= y@);
    true
}

} // verus!

verus! {

/// The index of the first `c` at or after `from` in `s`, or the length.
pub fn find_char(s: &Vec<char>, from: usize, c: char) -> (r: usize)
    requires
        from <= s@.len(),
    ensures
        r == find_from(s@, from as int, c),
        from <= r <= s@.len(),
{
    proof {
        lemma_find_from_bounds(s@, from as int, c);
    }
    let mut i = from;
    while i < s.len() && s[i] != c
        invariant
            from <= i <= s@.len(),
            find_from(s@, from as int, c) == find_from(s@, i as int, c),
        decreases s@.len() - i,
    {
        i = i + 1;
    }
    i
}

/// The number of bytes that `c` takes in UTF-8.
pub open spec fn char_width(c: char) -> nat {
    if (c as u32) < 0x80 {
        1
    } else if (c as u32) < 0x800 {
        2
    } else if (c as u32) < 0x10000 {
        3
    } else {
        4
    }
}

/// The number of bytes that `s` takes in UTF-8.
pub open spec fn utf8_len(s: Seq<char>) -> nat {
    vstd::utf8::encode_utf8(s).len()
}

pub proof fn lemma_encode_scalar_len(c: char)
    ensures
        vstd::utf8::encode_scalar(c as u32).len() == char_width(c),
{
    vstd::utf8::char_is_scalar(c);
}

pub proof fn lemma_utf8_len_push(s: Seq<char>, c: char)
    ensures
        utf8_len(s.push(c)) == utf8_len(s) + char_width(c),
    decreases s.len(),
{
    lemma_encode_scalar_len(c);
    if s.len() == 0 {
        assert(s.push(c).drop_first() =~= Seq::<char>::empty());
        assert(vstd::utf8::encode_utf8(Seq::<char>::empty()) =~= Seq::<u8>::empty());
    } else {
        lemma_encode_scalar_len(s[0]);
        assert(s.push(c).drop_first() =~= s.drop_first().push(c));
        lemma_utf8_len_push(s.drop_first(), c);
    }
}

pub proof fn lemma_utf8_len_take_step(s: Seq<char>, k: int)
    requires
        0 <= k < s.len(),
    ensures
        utf8_len(s.take(k + 1)) == utf8_len(s.take(k)) + char_width(s[k]),
{
    assert(s.take(k + 1) =~= s.take(k).push(s[k]));
    lemma_utf8_len_push(s.take(k), s[k]);
}

/// The number of bytes that `c` takes in UTF-8.
pub fn width_of(c: char) -> (w: usize)
    ensures
        w == char_width(c),
{
    let v = c as u32;
    if v < 0x80 {
        1
    } else if v < 0x800 {
        2
    } else if v < 0x10000 {
        3
    } else {
        4
    }
}

/// The number of leading characters of `s` that fit in `max` bytes of UTF-8:
/// the longest prefix that does not outgrow the budget.
pub fn utf8_prefix_chars(s: &Vec<char>, max: usize) -> (k: usize)
    ensures
        k <= s@.len(),
        utf8_len(s@.take(k as int)) <= max,
        k < s@.len() ==> utf8_len(s@.take(k + 1)) > max,
{
    let mut k: usize = 0;
    let mut used: usize = 0;
    assert(s@.take(0) =~= Seq::<char>::empty());
    assert(vstd::utf8::encode_utf8(Seq::<char>::empty()) =~= Seq::<u8>::empty());
    while k < s.len()
        invariant
            k <= s@.len(),
            used == utf8_len(s@.take(k as int)),
            used <= max,
        decreases s@.len() - k,
    {
        let w = width_of(s[k]);
        proof {
            lemma_utf8_len_take_step(s@, k as int);
        }
        if w > max - used {
            return k;
        }
        used = used + w;
        k = k + 1;
    }
    k
}

} // verus!

verus! {

/// The first two pieces of `str::split` on a one-character separator: the
/// text before the first `sep`, and, when there is one, the text between it
/// and the next.
pub proof fn lemma_split_first_two(s: Seq<char>, sep: char)
    ensures
        split(s, sep).len() >= 1,
        split(s, sep)[0] == s.subrange(0, find_from(s, 0, sep)),
        find_from(s, 0, sep) >= s.len() ==> split(s, sep).len() == 1,
        find_from(s, 0, sep) < s.len() ==> split(s, sep).len() >= 2 && split(s, sep)[1]
            == s.subrange(find_from(s, 0, sep) + 1, find_from(s, find_from(s, 0, sep) + 1, sep)),
{
    lemma_find_from_bounds(s, 0, sep);
    let e = find_from(s, 0, sep);
    if e < s.len() {
        lemma_find_from_bounds(s, e + 1, sep);
        let rest = split_from(s, e + 1, sep);
        assert(rest.len() >= 1);
        assert(rest[0] == s.subrange(e + 1, find_from(s, e + 1, sep)));
    }
}

} // verus!
