//! Validation of ISO-style language tags such as `en`, `pt-BR` or `zh-Hans`.

use vstd::prelude::*;
use crate::text::{
    ascii_lowercase, char_is_ascii_alphabetic, char_is_ascii_alphanumeric, chars_of,
    is_ascii_alphabetic, is_ascii_alphanumeric, string_from_range, to_ascii_lowercase, trim,
    trim_bounds, trim_end, trim_start,
};

verus! {

/// The index of the first `c` in `s`, or the length of `s` where there is none.
pub open spec fn first_index_of(s: Seq<char>, c: char) -> int
    decreases s.len(),
{
    if s.len() == 0 || s[0] == c {
        0
    } else {
        1 + first_index_of(s.drop_first(), c)
    }
}

/// The pieces of `s` between occurrences of `sep`. There is always at least
/// one piece; a piece is empty where two separators touch or one stands at an
/// end.
pub open spec fn split_on(s: Seq<char>, sep: char) -> Seq<Seq<char>>
    decreases s.len(),
{
    let i = first_index_of(s, sep);
    if 0 <= i < s.len() {
        seq![s.take(i)] + split_on(s.skip(i + 1), sep)
    } else {
        seq![s]
    }
}

/// A primary subtag: two or three ASCII letters.
pub open spec fn is_primary_subtag(s: Seq<char>) -> bool {
    &&& 2 <= s.len() <= 3
    &&& forall|i: int| 0 <= i < s.len() ==> is_ascii_alphabetic(#[trigger] s[i])
}

/// A subtag after the first: two to eight ASCII letters or digits.
pub open spec fn is_extension_subtag(s: Seq<char>) -> bool {
    &&& 2 <= s.len() <= 8
    &&& forall|i: int| 0 <= i < s.len() ==> is_ascii_alphanumeric(#[trigger] s[i])
}

/// Whether every piece from `from` on is an extension subtag.
pub open spec fn extensions_valid(parts: Seq<Seq<char>>, from: int) -> bool {
    forall|k: int| from <= k < parts.len() ==> is_extension_subtag(#[trigger] parts[k])
}

/// Whether `tag`, taken as it stands, is a primary subtag followed by any
/// number of extension subtags, each introduced by a hyphen.
pub open spec fn is_language_tag(tag: Seq<char>) -> bool {
    let parts = split_on(tag, '-');
    is_primary_subtag(parts[0]) && extensions_valid(parts, 1)
}

/// The subtags joined by hyphens behind `primary`.
pub open spec fn join_subtags(primary: Seq<char>, subtags: Seq<Seq<char>>) -> Seq<char>
    decreases subtags.len(),
{
    if subtags.len() == 0 {
        primary
    } else {
        primary + seq!['-'] + join_subtags(subtags[0], subtags.drop_first())
    }
}

pub open spec fn has_no_hyphen(s: Seq<char>) -> bool {
    forall|i: int| 0 <= i < s.len() ==> #[trigger] s[i] != '-'
}

pub proof fn lemma_first_index_of(s: Seq<char>, c: char, j: int)
    requires
        0 <= j <= s.len(),
        forall|k: int| 0 <= k < j ==> s[k] != c,
        j == s.len() || s[j] == c,
    ensures
        first_index_of(s, c) == j,
    decreases s.len(),
{
    if j > 0 {
        let rest = s.drop_first();
        assert forall|k: int| 0 <= k < j - 1 implies rest[k] != c by {
            assert(rest[k] == s[k + 1]);
        }
        lemma_first_index_of(rest, c, j - 1);
    }
}

/// Splitting a tag that was joined from hyphen-free pieces gives the pieces
/// back.
pub proof fn lemma_split_of_join(primary: Seq<char>, subtags: Seq<Seq<char>>)
    requires
        has_no_hyphen(primary),
        forall|k: int| 0 <= k < subtags.len() ==> has_no_hyphen(#[trigger] subtags[k]),
    ensures
        split_on(join_subtags(primary, subtags), '-') == seq![primary] + subtags,
    decreases subtags.len(),
{
    let joined = join_subtags(primary, subtags);
    if subtags.len() == 0 {
        lemma_first_index_of(joined, '-', joined.len() as int);
        assert(seq![primary] + subtags =~= seq![primary]);
    } else {
        let tail = join_subtags(subtags[0], subtags.drop_first());
        assert(joined == primary + seq!['-'] + tail);
        let n = primary.len() as int;
        assert forall|k: int| 0 <= k < n implies joined[k] != '-' by {
            assert(joined[k] == primary[k]);
        }
        assert(joined[n] == '-');
        lemma_first_index_of(joined, '-', n);
        assert(joined.take(n) =~= primary);
        assert(joined.skip(n + 1) =~= tail);
        assert forall|k: int| 0 <= k < subtags.drop_first().len() implies has_no_hyphen(
            #[trigger] subtags.drop_first()[k],
        ) by {
            assert(subtags.drop_first()[k] == subtags[k + 1]);
        }
        lemma_split_of_join(subtags[0], subtags.drop_first());
        assert(seq![primary] + (seq![subtags[0]] + subtags.drop_first()) =~= seq![primary]
            + subtags);
    }
}

/// A tag joined from pieces is valid exactly when the first piece is a
/// primary subtag and every other piece is an extension subtag.
pub proof fn lemma_tag_validity_by_subtags(primary: Seq<char>, subtags: Seq<Seq<char>>)
    requires
        has_no_hyphen(primary),
        forall|k: int| 0 <= k < subtags.len() ==> has_no_hyphen(#[trigger] subtags[k]),
    ensures
        is_language_tag(join_subtags(primary, subtags)) <==> (is_primary_subtag(primary)
            && forall|k: int|
            0 <= k < subtags.len() ==> is_extension_subtag(#[trigger] subtags[k])),
{
    lemma_split_of_join(primary, subtags);
    let parts = seq![primary] + subtags;
    assert(parts[0] == primary);
    assert forall|k: int| 0 <= k < subtags.len() implies parts[k + 1] == subtags[k] by {}
    if is_primary_subtag(primary) && (forall|k: int|
        0 <= k < subtags.len() ==> is_extension_subtag(#[trigger] subtags[k])) {
        assert forall|k: int| 1 <= k < parts.len() implies is_extension_subtag(
            #[trigger] parts[k],
        ) by {
            assert(parts[k] == subtags[k - 1]);
        }
    }
    if is_language_tag(join_subtags(primary, subtags)) {
        assert forall|k: int| 0 <= k < subtags.len() implies is_extension_subtag(
            #[trigger] subtags[k],
        ) by {
            assert(parts[k + 1] == subtags[k]);
        }
    }
}

/// A joined tag starts as its first piece starts and ends as its last piece
/// ends.
pub proof fn lemma_ends_of_join(primary: Seq<char>, subtags: Seq<Seq<char>>)
    requires
        primary.len() > 0,
        forall|k: int| 0 <= k < subtags.len() ==> (#[trigger] subtags[k]).len() > 0,
    ensures
        join_subtags(primary, subtags).len() > 0,
        join_subtags(primary, subtags)[0] == primary[0],
        join_subtags(primary, subtags).last() == if subtags.len() == 0 {
            primary.last()
        } else {
            subtags.last().last()
        },
    decreases subtags.len(),
{
    if subtags.len() > 0 {
        let rest = subtags.drop_first();
        assert forall|k: int| 0 <= k < rest.len() implies (#[trigger] rest[k]).len() > 0 by {
            assert(rest[k] == subtags[k + 1]);
        }
        lemma_ends_of_join(subtags[0], rest);
        if rest.len() > 0 {
            assert(rest.last() == subtags.last());
        }
    }
}

/// Valid subtags make a supported code. A primary subtag of two or three
/// letters, followed by any number of subtags of two to eight letters or
/// digits, each behind a hyphen, is a code that needs no trimming and is a
/// language tag.
pub proof fn lemma_valid_subtags_make_supported_code(
    primary: Seq<char>,
    subtags: Seq<Seq<char>>,
)
    requires
        is_primary_subtag(primary),
        forall|k: int| 0 <= k < subtags.len() ==> is_extension_subtag(#[trigger] subtags[k]),
    ensures
        trim(join_subtags(primary, subtags)) == join_subtags(primary, subtags),
        is_language_tag(trim(join_subtags(primary, subtags))),
{
    let joined = join_subtags(primary, subtags);
    lemma_ends_of_join(primary, subtags);
    assert(is_ascii_alphabetic(primary[0]));
    if subtags.len() == 0 {
        assert(is_ascii_alphabetic(primary.last()));
    } else {
        assert(is_ascii_alphanumeric(subtags.last().last()));
    }
    assert(trim_start(joined) == joined);
    assert(trim_end(joined) == joined);
    assert forall|i: int| 0 <= i < primary.len() implies #[trigger] primary[i] != '-' by {
        assert(is_ascii_alphabetic(primary[i]));
    }
    assert forall|k: int| 0 <= k < subtags.len() implies has_no_hyphen(#[trigger] subtags[k]) by {
        assert forall|i: int| 0 <= i < subtags[k].len() implies #[trigger] subtags[k][i] != '-' by {
            assert(is_ascii_alphanumeric(subtags[k][i]));
        }
    }
    lemma_tag_validity_by_subtags(primary, subtags);
}

fn is_alphabetic_run(v: &Vec<char>, lo: usize, hi: usize) -> (r: bool)
    requires
        lo <= hi <= v.len(),
    ensures
        r == forall|k: int| lo <= k < hi ==> is_ascii_alphabetic(#[trigger] v@[k]),
{
    let mut i: usize = lo;
    while i < hi
        invariant
            lo <= i <= hi <= v.len(),
            forall|k: int| lo <= k < i ==> is_ascii_alphabetic(#[trigger] v@[k]),
        decreases hi - i,
    {
        if !char_is_ascii_alphabetic(v[i]) {
            return false;
        }
        i += 1;
    }
    true
}

fn is_alphanumeric_run(v: &Vec<char>, lo: usize, hi: usize) -> (r: bool)
    requires
        lo <= hi <= v.len(),
    ensures
        r == forall|k: int| lo <= k < hi ==> is_ascii_alphanumeric(#[trigger] v@[k]),
{
    let mut i: usize = lo;
    while i < hi
        invariant
            lo <= i <= hi <= v.len(),
            forall|k: int| lo <= k < i ==> is_ascii_alphanumeric(#[trigger] v@[k]),
        decreases hi - i,
    {
        if !char_is_ascii_alphanumeric(v[i]) {
            return false;
        }
        i += 1;
    }
    true
}

/// Whether the piece `v[lo..hi]` is acceptable in its position.
fn subtag_is_valid(v: &Vec<char>, lo: usize, hi: usize, primary: bool) -> (r: bool)
    requires
        lo <= hi <= v.len(),
    ensures
        r == if primary {
            is_primary_subtag(v@.subrange(lo as int, hi as int))
        } else {
            is_extension_subtag(v@.subrange(lo as int, hi as int))
        },
{
    let len: usize = hi - lo;
    let piece = Ghost(v@.subrange(lo as int, hi as int));
    if primary {
        let r = (len == 2 || len == 3) && is_alphabetic_run(v, lo, hi);
        proof {
            if r {
                assert forall|i: int| 0 <= i < piece@.len() implies is_ascii_alphabetic(
                    #[trigger] piece@[i],
                ) by {
                    assert(piece@[i] == v@[lo + i]);
                }
            } else if 2 <= len <= 3 {
                let k = choose|k: int| lo <= k < hi && !is_ascii_alphabetic(#[trigger] v@[k]);
                assert(piece@[k - lo] == v@[k]);
            }
        }
        r
    } else {
        let r = 2 <= len && len <= 8 && is_alphanumeric_run(v, lo, hi);
        proof {
            if r {
                assert forall|i: int| 0 <= i < piece@.len() implies is_ascii_alphanumeric(
                    #[trigger] piece@[i],
                ) by {
                    assert(piece@[i] == v@[lo + i]);
                }
            } else if 2 <= len <= 8 {
                let k = choose|k: int| lo <= k < hi && !is_ascii_alphanumeric(#[trigger] v@[k]);
                assert(piece@[k - lo] == v@[k]);
            }
        }
        r
    }
}

/// Whether the pieces are acceptable, the first one as a primary subtag if
/// `primary` says so.
pub open spec fn pieces_valid(parts: Seq<Seq<char>>, primary: bool) -> bool {
    &&& if primary {
        is_primary_subtag(parts[0])
    } else {
        is_extension_subtag(parts[0])
    }
    &&& extensions_valid(parts, 1)
}

/// Whether `code`, once trimmed, is a valid language tag.
pub fn is_supported_language_code(code: &str) -> (r: bool)
    ensures
        r == is_language_tag(trim(code@)),
{
    let v = chars_of(code);
    let (lo, hi) = trim_bounds(&v);
    let mut start: usize = lo;
    let mut primary = true;
    let mut i: usize = lo;
    loop
        invariant
            lo <= start <= i <= hi <= v.len(),
            v@.subrange(lo as int, hi as int) == trim(code@),
            forall|k: int| start <= k < i ==> v@[k] != '-',
            is_language_tag(trim(code@)) == pieces_valid(
                split_on(v@.subrange(start as int, hi as int), '-'),
                primary,
            ),
        decreases hi - i,
    {
        if i == hi || v[i] == '-' {
            let ok = subtag_is_valid(&v, start, i, primary);
            let ghost rest = v@.subrange(start as int, hi as int);
            proof {
                assert forall|k: int| 0 <= k < i - start implies rest[k] != '-' by {
                    assert(rest[k] == v@[start + k]);
                }
                lemma_first_index_of(rest, '-', i - start);
                assert(rest.take(i - start) == v@.subrange(start as int, i as int));
            }
            if i == hi {
                assert(split_on(rest, '-') == seq![rest]);
                return ok;
            }
            let ghost tail = v@.subrange(i + 1, hi as int);
            proof {
                assert(rest.skip(i - start + 1) == tail);
                let parts = split_on(rest, '-');
                let later = split_on(tail, '-');
                assert(parts == seq![rest.take(i - start)] + later);
                assert(later.len() >= 1);
                assert(parts[0] == rest.take(i - start));
                if pieces_valid(parts, primary) {
                    assert(later[0] == parts[1]);
                    assert forall|k: int| 1 <= k < later.len() implies is_extension_subtag(
                        #[trigger] later[k],
                    ) by {
                        assert(later[k] == parts[k + 1]);
                    }
                }
                if ok && pieces_valid(later, false) {
                    assert forall|k: int| 1 <= k < parts.len() implies is_extension_subtag(
                        #[trigger] parts[k],
                    ) by {
                        assert(parts[k] == later[k - 1]);
                    }
                }
            }
            if !ok {
                return false;
            }
            start = i + 1;
            primary = false;
        }
        i += 1;
    }
}

/// The trimmed, lower-cased code, where it is a valid language tag.
pub fn normalize_language_code(code: &str) -> (out: Option<String>)
    ensures
        match out {
            Some(s) => is_language_tag(trim(code@)) && s@ == ascii_lowercase(trim(code@)),
            None => !is_language_tag(trim(code@)),
        },
{
    if !is_supported_language_code(code) {
        return None;
    }
    let v = chars_of(code);
    let (lo, hi) = trim_bounds(&v);
    let lower = to_ascii_lowercase(&v);
    let out = string_from_range(&lower, lo, hi);
    assert(out@ =~= ascii_lowercase(trim(code@)));
    Some(out)
}

} // verus!
