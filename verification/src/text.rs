//! Character-level helpers shared by the rest of the crate.
//!
//! Strings are modelled by their view, a `Seq<char>`. The executable helpers
//! work on `Vec<char>` so that indexing is constant time.

use vstd::prelude::*;

verus! {

/// Characters that carry the Unicode `White_Space` property.
pub open spec fn is_whitespace(c: char) -> bool {
    let n = c as u32;
    ||| 0x09 <= n <= 0x0D
    ||| n == 0x20
    ||| n == 0x85
    ||| n == 0xA0
    ||| n == 0x1680
    ||| 0x2000 <= n <= 0x200A
    ||| n == 0x2028
    ||| n == 0x2029
    ||| n == 0x202F
    ||| n == 0x205F
    ||| n == 0x3000
}

pub open spec fn is_ascii_alphabetic(c: char) -> bool {
    ('a' <= c <= 'z') || ('A' <= c <= 'Z')
}

pub open spec fn is_ascii_digit(c: char) -> bool {
    '0' <= c <= '9'
}

pub open spec fn is_ascii_alphanumeric(c: char) -> bool {
    is_ascii_alphabetic(c) || is_ascii_digit(c)
}

/// The lower-case form of an ASCII capital; every other character is itself.
pub open spec fn ascii_lower(c: char) -> char {
    if 'A' <= c <= 'Z' {
        ((c as u8) + 32) as u8 as char
    } else {
        c
    }
}

/// `s` with every ASCII capital replaced by its lower-case form.
pub open spec fn ascii_lowercase(s: Seq<char>) -> Seq<char> {
    Seq::new(s.len(), |i: int| ascii_lower(s[i]))
}

/// `s` without its leading white space.
pub open spec fn trim_start(s: Seq<char>) -> Seq<char>
    decreases s.len(),
{
    if s.len() > 0 && is_whitespace(s[0]) {
        trim_start(s.drop_first())
    } else {
        s
    }
}

/// `s` without its trailing white space.
pub open spec fn trim_end(s: Seq<char>) -> Seq<char>
    decreases s.len(),
{
    if s.len() > 0 && is_whitespace(s.last()) {
        trim_end(s.drop_last())
    } else {
        s
    }
}

/// `s` without leading and trailing white space.
pub open spec fn trim(s: Seq<char>) -> Seq<char> {
    trim_end(trim_start(s))
}

/// Whether `needle` occurs in `hay` as a contiguous run.
pub open spec fn contains_run(hay: Seq<char>, needle: Seq<char>) -> bool {
    exists|i: int| 0 <= i <= hay.len() - needle.len() && #[trigger] hay.subrange(i, i + needle.len()) == needle
}

pub fn char_is_whitespace(c: char) -> (r: bool)
    ensures
        r == is_whitespace(c),
{
    let n: u32 = c as u32;
    (0x09 <= n && n <= 0x0D) || n == 0x20 || n == 0x85 || n == 0xA0 || n == 0x1680 || (0x2000 <= n
        && n <= 0x200A) || n == 0x2028 || n == 0x2029 || n == 0x202F || n == 0x205F || n == 0x3000
}

pub fn char_is_ascii_alphabetic(c: char) -> (r: bool)
    ensures
        r == is_ascii_alphabetic(c),
{
    ('a' <= c && c <= 'z') || ('A' <= c && c <= 'Z')
}

pub fn char_is_ascii_alphanumeric(c: char) -> (r: bool)
    ensures
        r == is_ascii_alphanumeric(c),
{
    ('a' <= c && c <= 'z') || ('A' <= c && c <= 'Z') || ('0' <= c && c <= '9')
}

pub fn char_to_ascii_lower(c: char) -> (r: char)
    ensures
        r == ascii_lower(c),
{
    if 'A' <= c && c <= 'Z' {
        let b: u8 = c as u8;
        (b + 32) as char
    } else {
        c
    }
}

/// The characters of `s`, in order.
pub fn chars_of(s: &str) -> (v: Vec<char>)
    ensures
        v@ == s@,
{
    let mut v: Vec<char> = Vec::new();
    for c in it: s.chars()
        invariant
            v@ == it.seq().take(it.index()),
            it.seq() == s@,
    {
        v.push(c);
    }
    v
}

/// `std::string::String::push`: the character is appended and nothing else
/// changes.
pub assume_specification[ String::push ](s: &mut String, ch: char)
    ensures
        final(s)@ == old(s)@.push(ch),
;

/// The characters `v[lo..hi]` as a string.
pub(crate) fn string_from_range(v: &Vec<char>, lo: usize, hi: usize) -> (s: String)
    requires
        lo <= hi <= v.len(),
    ensures
        s@ == v@.subrange(lo as int, hi as int),
{
    let mut s = String::new();
    let mut i: usize = lo;
    while i < hi
        invariant
            lo <= i <= hi <= v.len(),
            s@ == v@.subrange(lo as int, i as int),
        decreases hi - i,
    {
        s.push(v[i]);
        i += 1;
        assert(v@.subrange(lo as int, i as int) == v@.subrange(lo as int, i - 1).push(v@[i - 1]));
    }
    s
}

/// All of `v` as a string.
pub fn string_from_chars(v: &Vec<char>) -> (s: String)
    ensures
        s@ == v@,
{
    let s = string_from_range(v, 0, v.len());
    assert(v@.subrange(0, v.len() as int) == v@);
    s
}

/// The bounds of `v` without its leading and trailing white space.
pub fn trim_bounds(v: &Vec<char>) -> (bounds: (usize, usize))
    ensures
        bounds.0 <= bounds.1 <= v.len(),
        v@.subrange(bounds.0 as int, bounds.1 as int) == trim(v@),
{
    let mut lo: usize = 0;
    assert(v@.skip(0) == v@);
    while lo < v.len() && char_is_whitespace(v[lo])
        invariant
            lo <= v.len(),
            trim_start(v@) == trim_start(v@.skip(lo as int)),
        decreases v.len() - lo,
    {
        assert(v@.skip(lo as int).drop_first() == v@.skip(lo + 1));
        lo += 1;
    }
    assert(trim_start(v@) == v@.skip(lo as int));
    let mut hi: usize = v.len();
    assert(v@.skip(lo as int) == v@.subrange(lo as int, hi as int));
    while lo < hi && char_is_whitespace(v[hi - 1])
        invariant
            lo <= hi <= v.len(),
            trim(v@) == trim_end(v@.subrange(lo as int, hi as int)),
        decreases hi - lo,
    {
        assert(v@.subrange(lo as int, hi as int).drop_last() == v@.subrange(lo as int, hi - 1));
        hi -= 1;
    }
    (lo, hi)
}

/// `s` without leading and trailing white space.
pub fn trimmed(s: &str) -> (out: String)
    ensures
        out@ == trim(s@),
{
    let v = chars_of(s);
    let (lo, hi) = trim_bounds(&v);
    string_from_range(&v, lo, hi)
}

/// Whether `s` holds nothing but white space.
pub fn is_blank(s: &str) -> (r: bool)
    ensures
        r == (trim(s@).len() == 0),
{
    let v = chars_of(s);
    let (lo, hi) = trim_bounds(&v);
    lo == hi
}

/// `s` with every ASCII capital in lower case.
pub fn to_ascii_lowercase(v: &Vec<char>) -> (out: Vec<char>)
    ensures
        out@ == ascii_lowercase(v@),
{
    let mut out: Vec<char> = Vec::new();
    let mut i: usize = 0;
    while i < v.len()
        invariant
            i <= v.len(),
            out@.len() == i,
            forall|k: int| 0 <= k < i ==> out@[k] == ascii_lower(#[trigger] v@[k]),
        decreases v.len() - i,
    {
        out.push(char_to_ascii_lower(v[i]));
        i += 1;
    }
    assert(out@ =~= ascii_lowercase(v@));
    out
}

/// `s` with every ASCII capital in lower case.
pub fn lowercase_text(s: &str) -> (out: String)
    ensures
        out@ == ascii_lowercase(s@),
{
    let lower = to_ascii_lowercase(&chars_of(s));
    string_from_chars(&lower)
}

/// `s`, trimmed and with every ASCII capital in lower case.
pub fn trimmed_lowercase(s: &str) -> (out: String)
    ensures
        out@ == ascii_lowercase(trim(s@)),
{
    let v = chars_of(s);
    let (lo, hi) = trim_bounds(&v);
    let lower = to_ascii_lowercase(&v);
    let out = string_from_range(&lower, lo, hi);
    assert(out@ =~= ascii_lowercase(trim(s@)));
    out
}

/// Whether `needle` occurs in `hay` at place `i` and nowhere before.
pub open spec fn is_first_match(hay: Seq<char>, needle: Seq<char>, i: int) -> bool {
    &&& 0 <= i <= hay.len() - needle.len()
    &&& hay.subrange(i, i + needle.len()) == needle
    &&& forall|k: int| 0 <= k < i ==> #[trigger] hay.subrange(k, k + needle.len()) != needle
}

/// The place of the first occurrence of `needle` in `hay`, if there is one.
pub open spec fn first_match(hay: Seq<char>, needle: Seq<char>) -> Option<int> {
    if exists|i: int| is_first_match(hay, needle, i) {
        Some(choose|i: int| is_first_match(hay, needle, i))
    } else {
        None
    }
}

/// Whether `s` ends with `suffix`.
pub open spec fn ends_with(s: Seq<char>, suffix: Seq<char>) -> bool {
    s.len() >= suffix.len() && s.subrange(s.len() - suffix.len(), s.len() as int) == suffix
}

/// There is only one first occurrence.
pub proof fn lemma_first_match_unique(hay: Seq<char>, needle: Seq<char>, i: int, j: int)
    requires
        is_first_match(hay, needle, i),
        is_first_match(hay, needle, j),
    ensures
        i == j,
{
    if i < j {
        assert(hay.subrange(i, i + needle.len()) != needle);
    }
    if j < i {
        assert(hay.subrange(j, j + needle.len()) != needle);
    }
}

/// The place of the first occurrence of `needle` in `hay[from..]`, counted
/// from `from`, if there is one.
pub(crate) fn find_chars(hay: &Vec<char>, from: usize, needle: &Vec<char>) -> (found: Option<usize>)
    requires
        from <= hay.len(),
    ensures
        match found {
            Some(i) => first_match(hay@.skip(from as int), needle@) == Some(i as int) && from + i
                + needle.len() <= hay.len(),
            None => first_match(hay@.skip(from as int), needle@) is None,
        },
{
    let ghost rest = hay@.skip(from as int);
    if needle.len() > hay.len() - from {
        assert forall|i: int| !is_first_match(rest, needle@, i) by {}
        return None;
    }
    let last: usize = hay.len() - from - needle.len();
    let mut i: usize = 0;
    loop
        invariant
            from <= hay.len(),
            needle.len() <= hay.len() - from,
            last == hay.len() - from - needle.len(),
            i <= last,
            rest == hay@.skip(from as int),
            forall|k: int| 0 <= k < i ==> #[trigger] rest.subrange(k, k + needle.len()) != needle@,
        decreases last - i,
    {
        let matches = range_equals(hay, from + i, from + i + needle.len(), needle);
        assert(rest.subrange(i as int, i + needle.len()) =~= hay@.subrange(
            from + i,
            from + i + needle.len(),
        ));
        if matches {
            proof {
                assert(is_first_match(rest, needle@, i as int));
                let chosen = choose|c: int| is_first_match(rest, needle@, c);
                lemma_first_match_unique(rest, needle@, i as int, chosen);
            }
            return Some(i);
        }
        if i == last {
            assert forall|c: int| !is_first_match(rest, needle@, c) by {
                if 0 <= c <= rest.len() - needle.len() {
                    assert(rest.subrange(c, c + needle.len()) != needle@);
                }
            }
            return None;
        }
        i += 1;
    }
}

/// Whether `v` ends with the characters of `suffix`.
pub fn ends_with_chars(v: &Vec<char>, suffix: &str) -> (r: bool)
    ensures
        r == ends_with(v@, suffix@),
{
    let s = chars_of(suffix);
    if s.len() > v.len() {
        return false;
    }
    range_equals(v, v.len() - s.len(), v.len(), &s)
}

/// The mathematical form of an optional owned text.
pub open spec fn owned_view(text: Option<String>) -> Option<Seq<char>> {
    match text {
        Some(text) => Some(text@),
        None => None,
    }
}

/// The mathematical form of an optional text.
pub open spec fn text_view(text: Option<&str>) -> Option<Seq<char>> {
    match text {
        Some(text) => Some(text@),
        None => None,
    }
}

/// The trimmed value, unless there is none or it is blank.
pub open spec fn present_text(value: Option<Seq<char>>) -> Option<Seq<char>> {
    match value {
        Some(text) => if trim(text).len() > 0 {
            Some(trim(text))
        } else {
            None
        },
        None => None,
    }
}

/// The trimmed value, unless there is none or it is blank.
pub fn trimmed_if_present(value: Option<&str>) -> (present: Option<String>)
    ensures
        owned_view(present) == present_text(text_view(value)),
{
    match value {
        Some(text) => {
            let v = chars_of(text);
            let (lo, hi) = trim_bounds(&v);
            if lo < hi {
                Some(string_from_range(&v, lo, hi))
            } else {
                None
            }
        },
        None => None,
    }
}

/// `value` if it has at most `max_len` characters, and otherwise its first
/// `max_len` characters followed by `mark`.
pub open spec fn truncated(value: Seq<char>, max_len: nat, mark: Seq<char>) -> Seq<char> {
    if value.len() <= max_len {
        value
    } else {
        value.take(max_len as int) + mark
    }
}

/// The value of a run of decimal digits.
pub open spec fn decimal_value(digits: Seq<char>) -> nat
    decreases digits.len(),
{
    if digits.len() == 0 {
        0
    } else {
        (decimal_value(digits.drop_last()) * 10 + (digits.last() as u32 - 0x30)) as nat
    }
}

/// Whether every character is a decimal digit.
pub open spec fn all_digits(digits: Seq<char>) -> bool {
    forall|i: int| 0 <= i < digits.len() ==> is_ascii_digit(#[trigger] digits[i])
}

/// The number that `s` writes: decimal digits, at least one, with or without
/// a plus sign in front, and a value that a `u64` holds.
pub open spec fn parsed_u64(s: Seq<char>) -> Option<u64> {
    let digits = if s.len() > 0 && s[0] == '+' {
        s.skip(1)
    } else {
        s
    };
    if digits.len() > 0 && all_digits(digits) && decimal_value(digits) <= u64::MAX {
        Some(decimal_value(digits) as u64)
    } else {
        None
    }
}

/// The value of a run of digits is at least the value of any front part.
pub proof fn lemma_decimal_value_grows(digits: Seq<char>, i: int)
    requires
        all_digits(digits),
        0 <= i <= digits.len(),
    ensures
        decimal_value(digits.take(i)) <= decimal_value(digits),
    decreases digits.len() - i,
{
    if i < digits.len() {
        lemma_decimal_value_grows(digits, i + 1);
        assert(digits.take(i + 1).drop_last() =~= digits.take(i));
        assert(is_ascii_digit(digits[i]));
        assert(digits.take(i + 1).last() == digits[i]);
    } else {
        assert(digits.take(i) =~= digits);
    }
}

/// The number that `s` writes, if it writes one.
pub fn parse_u64(s: &str) -> (parsed: Option<u64>)
    ensures
        parsed == parsed_u64(s@),
{
    let v = chars_of(s);
    let start: usize = if v.len() > 0 && v[0] == '+' {
        1
    } else {
        0
    };
    if start == v.len() {
        return None;
    }
    let ghost digits = v@.skip(start as int);
    assert(v@.skip(0) =~= v@);
    let mut value: u64 = 0;
    let mut i: usize = start;
    assert(digits.take(0) =~= Seq::<char>::empty());
    while i < v.len()
        invariant
            start <= i <= v.len(),
            start < v.len(),
            v@ == s@,
            start == if v@.len() > 0 && v@[0] == '+' {
                1int
            } else {
                0int
            },
            digits == v@.skip(start as int),
            v@.skip(0) == v@,
            all_digits(digits.take(i - start)),
            value == decimal_value(digits.take(i - start)),
        decreases v.len() - i,
    {
        let c = v[i];
        let ghost front = digits.take(i - start);
        let ghost grown = digits.take(i - start + 1);
        proof {
            assert(grown.drop_last() =~= front);
            assert(grown.last() == c);
        }
        if !('0' <= c && c <= '9') {
            assert(!is_ascii_digit(digits[i - start]));
            return None;
        }
        let digit: u64 = (c as u32 - 0x30) as u64;
        if value > (u64::MAX - digit) / 10 {
            proof {
                assert forall|k: int| 0 <= k < grown.len() implies is_ascii_digit(
                    #[trigger] grown[k],
                ) by {
                    if k < front.len() {
                        assert(grown[k] == front[k]);
                    }
                }
                if all_digits(digits) {
                    lemma_decimal_value_grows(digits, i - start + 1);
                }
            }
            return None;
        }
        value = value * 10 + digit;
        proof {
            assert forall|k: int| 0 <= k < grown.len() implies is_ascii_digit(#[trigger] grown[k]) by {
                if k < front.len() {
                    assert(grown[k] == front[k]);
                }
            }
        }
        i += 1;
    }
    assert(digits.take(i - start) =~= digits);
    Some(value)
}

/// Whether `a[lo..hi]` and `b` hold the same characters.
pub(crate) fn range_equals(a: &Vec<char>, lo: usize, hi: usize, b: &Vec<char>) -> (r: bool)
    requires
        lo <= hi <= a.len(),
    ensures
        r == (a@.subrange(lo as int, hi as int) == b@),
{
    if hi - lo != b.len() {
        return false;
    }
    let mut i: usize = 0;
    while i < b.len()
        invariant
            lo <= hi <= a.len(),
            hi - lo == b.len(),
            i <= b.len(),
            forall|k: int| 0 <= k < i ==> a@[lo + k] == #[trigger] b@[k],
        decreases b.len() - i,
    {
        if a[lo + i] != b[i] {
            assert(a@.subrange(lo as int, hi as int)[i as int] != b@[i as int]);
            return false;
        }
        i += 1;
    }
    assert(a@.subrange(lo as int, hi as int) =~= b@);
    true
}

/// Whether two strings hold the same characters.
pub fn same_text(a: &str, b: &str) -> (r: bool)
    ensures
        r == (a@ == b@),
{
    let x = chars_of(a);
    let y = chars_of(b);
    let r = range_equals(&x, 0, x.len(), &y);
    assert(x@.subrange(0, x.len() as int) == x@);
    r
}

/// Whether `needle` occurs in `hay`.
pub fn contains_chars(hay: &Vec<char>, needle: &Vec<char>) -> (r: bool)
    ensures
        r == contains_run(hay@, needle@),
{
    if needle.len() > hay.len() {
        return false;
    }
    let last: usize = hay.len() - needle.len();
    let mut i: usize = 0;
    loop
        invariant
            needle.len() <= hay.len(),
            last == hay.len() - needle.len(),
            i <= last,
            forall|k: int| 0 <= k < i ==> #[trigger] hay@.subrange(k, k + needle.len()) != needle@,
        decreases last - i,
    {
        if range_equals(hay, i, i + needle.len(), needle) {
            return true;
        }
        if i == last {
            return false;
        }
        i += 1;
    }
}

} // verus!
