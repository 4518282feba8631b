//! Character-level helpers shared by the parsers of this crate.
use vstd::prelude::*;

verus! {

/// The characters that carry the Unicode `White_Space` property, the set that
/// `str::trim` and `char::is_whitespace` remove and recognise.
pub open spec fn is_white_space(c: char) -> bool {
    ||| ('\u{9}' <= c && c <= '\u{d}')
    ||| c == ' '
    ||| c == '\u{85}'
    ||| c == '\u{a0}'
    ||| c == '\u{1680}'
    ||| ('\u{2000}' <= c && c <= '\u{200a}')
    ||| c == '\u{2028}'
    ||| c == '\u{2029}'
    ||| c == '\u{202f}'
    ||| c == '\u{205f}'
    ||| c == '\u{3000}'
}

/// Decides `is_white_space`.
pub fn is_whitespace(c: char) -> (r: bool)
    ensures
        r == is_white_space(c),
{
    ('\u{9}' <= c && c <= '\u{d}') || c == ' ' || c == '\u{85}' || c == '\u{a0}' || c == '\u{1680}'
        || ('\u{2000}' <= c && c <= '\u{200a}') || c == '\u{2028}' || c == '\u{2029}'
        || c == '\u{202f}' || c == '\u{205f}' || c == '\u{3000}'
}

/// The characters of a string, in order.
pub fn chars_of(s: &str) -> (r: Vec<char>)
    ensures
        r@ == s@,
{
    let mut r: Vec<char> = Vec::new();
    for c in it: s.chars()
        invariant
            r@ == it.seq().take(it.index() as int),
            it.seq() == s@,
    {
        r.push(c);
    }
    r
}


/// `s` without its leading white space.
pub open spec fn trim_start(s: Seq<char>) -> Seq<char>
    decreases s.len(),
{
    if s.len() > 0 && is_white_space(s[0]) {
        trim_start(s.drop_first())
    } else {
        s
    }
}

/// `s` without its trailing white space.
pub open spec fn trim_end(s: Seq<char>) -> Seq<char>
    decreases s.len(),
{
    if s.len() > 0 && is_white_space(s.last()) {
        trim_end(s.drop_last())
    } else {
        s
    }
}

/// `s` without its leading and trailing white space: what `str::trim` returns.
pub open spec fn trim(s: Seq<char>) -> Seq<char> {
    trim_end(trim_start(s))
}

/// What is left of `s` once its leading white space is removed does not
/// start with white space.
pub proof fn lemma_trim_start_clean(s: Seq<char>)
    ensures
        trim_start(s).len() == 0 || !is_white_space(trim_start(s)[0]),
    decreases s.len(),
{
    if s.len() > 0 && is_white_space(s[0]) {
        lemma_trim_start_clean(s.drop_first());
    }
}

/// What is left of `s` once its trailing white space is removed is a prefix
/// of `s` that does not end with white space.
pub proof fn lemma_trim_end_prefix(s: Seq<char>)
    ensures
        trim_end(s).len() <= s.len(),
        trim_end(s) == s.take(trim_end(s).len() as int),
        trim_end(s).len() == 0 || !is_white_space(trim_end(s).last()),
    decreases s.len(),
{
    if s.len() > 0 && is_white_space(s.last()) {
        lemma_trim_end_prefix(s.drop_last());
        assert(s.drop_last().take(trim_end(s).len() as int) =~= s.take(trim_end(s).len() as int));
    } else {
        assert(s.take(s.len() as int) =~= s);
    }
}

/// A text that neither starts nor ends with white space is its own trim.
pub proof fn lemma_trim_unchanged(s: Seq<char>)
    requires
        s.len() > 0,
        !is_white_space(s[0]),
        !is_white_space(s.last()),
    ensures
        trim(s) == s,
{
}

/// `char_pos` of a character that does not occur is the length.
pub proof fn lemma_char_pos_absent(s: Seq<char>, c: char)
    requires
        forall|i: int| 0 <= i < s.len() ==> s[i] != c,
    ensures
        char_pos(s, c) == s.len(),
    decreases s.len(),
{
    if s.len() > 0 {
        assert forall|i: int| 0 <= i < s.drop_first().len() implies s.drop_first()[i] != c by {
            assert(s.drop_first()[i] == s[i + 1]);
        }
        lemma_char_pos_absent(s.drop_first(), c);
    }
}

/// `char_pos` is the position of the first occurrence.
pub proof fn lemma_char_pos_at(s: Seq<char>, c: char, k: int)
    requires
        0 <= k < s.len(),
        s[k] == c,
        forall|i: int| 0 <= i < k ==> s[i] != c,
    ensures
        char_pos(s, c) == k,
    decreases k,
{
    if k > 0 {
        assert forall|i: int| 0 <= i < k - 1 implies s.drop_first()[i] != c by {
            assert(s.drop_first()[i] == s[i + 1]);
        }
        lemma_char_pos_at(s.drop_first(), c, k - 1);
    }
}

/// `segment_len` of a text without `?` or `#` is its length.
pub proof fn lemma_segment_len_absent(s: Seq<char>)
    requires
        forall|i: int| 0 <= i < s.len() ==> !is_segment_end(#[trigger] s[i]),
    ensures
        segment_len(s) == s.len(),
    decreases s.len(),
{
    if s.len() > 0 {
        assert forall|i: int| 0 <= i < s.drop_first().len() implies !is_segment_end(#[trigger] s.drop_first()[i]) by {
            assert(s.drop_first()[i] == s[i + 1]);
        }
        lemma_segment_len_absent(s.drop_first());
    }
}

/// `segment_len` is the position of the first `?` or `#`.
pub proof fn lemma_segment_len_at(s: Seq<char>, k: int)
    requires
        0 <= k < s.len(),
        is_segment_end(s[k]),
        forall|i: int| 0 <= i < k ==> !is_segment_end(#[trigger] s[i]),
    ensures
        segment_len(s) == k,
    decreases k,
{
    if k > 0 {
        assert forall|i: int| 0 <= i < k - 1 implies !is_segment_end(#[trigger] s.drop_first()[i]) by {
            assert(s.drop_first()[i] == s[i + 1]);
        }
        lemma_segment_len_at(s.drop_first(), k - 1);
    }
}

/// Trimming a trimmed text changes nothing.
pub proof fn law_trim_idempotent(s: Seq<char>)
    ensures
        trim(trim(s)) == trim(s),
{
    let a = trim_start(s);
    let b = trim_end(a);
    lemma_trim_start_clean(s);
    lemma_trim_end_prefix(a);
    if b.len() > 0 {
        assert(b[0] == a[0]);
    }
    assert(trim_start(b) == b);
    lemma_trim_end_prefix(b);
    assert(trim_end(b) == b);
}

/// Finds the part of `s[lo..hi]` that is left once white space is removed
/// from both ends, as the bounds `(a, b)` of that part within `s`.
pub fn trim_bounds(s: &Vec<char>, lo: usize, hi: usize) -> (r: (usize, usize))
    requires
        lo <= hi <= s.len(),
    ensures
        lo <= r.0 <= r.1 <= hi,
        s@.subrange(r.0 as int, r.1 as int) == trim(s@.subrange(lo as int, hi as int)),
{
    let mut a = lo;
    while a < hi && is_whitespace(s[a])
        invariant
            lo <= a <= hi <= s.len(),
            trim_start(s@.subrange(lo as int, hi as int)) == trim_start(
                s@.subrange(a as int, hi as int),
            ),
        decreases hi - a,
    {
        assert(s@.subrange(a as int, hi as int).drop_first() =~= s@.subrange(
            a + 1,
            hi as int,
        ));
        a = a + 1;
    }
    let mut b = hi;
    while b > a && is_whitespace(s[b - 1])
        invariant
            lo <= a <= b <= hi <= s.len(),
            trim_start(s@.subrange(lo as int, hi as int)) == s@.subrange(a as int, hi as int),
            trim_end(s@.subrange(a as int, hi as int)) == trim_end(
                s@.subrange(a as int, b as int),
            ),
        decreases b - a,
    {
        assert(s@.subrange(a as int, b as int).drop_last() =~= s@.subrange(
            a as int,
            b - 1,
        ));
        b = b - 1;
    }
    (a, b)
}

/// The characters at which an identifier segment of a link ends.
pub open spec fn is_segment_end(c: char) -> bool {
    c == '?' || c == '#'
}

/// The number of characters of `s` before the first `?` or `#` (the length
/// of `s` when it holds neither): the first piece of a split on those two.
pub open spec fn segment_len(s: Seq<char>) -> nat
    decreases s.len(),
{
    if s.len() == 0 || is_segment_end(s[0]) {
        0
    } else {
        1 + segment_len(s.drop_first())
    }
}

/// The number of characters of `s` before the first `c` (the length of `s`
/// when it holds none).
pub open spec fn char_pos(s: Seq<char>, c: char) -> nat
    decreases s.len(),
{
    if s.len() == 0 || s[0] == c {
        0
    } else {
        1 + char_pos(s.drop_first(), c)
    }
}

/// `char_pos` counts characters of `s` and stops at an occurrence of `c`.
pub proof fn lemma_char_pos(s: Seq<char>, c: char)
    ensures
        char_pos(s, c) <= s.len(),
        char_pos(s, c) < s.len() ==> s[char_pos(s, c) as int] == c,
        forall|j: int| 0 <= j < char_pos(s, c) ==> s[j] != c,
    decreases s.len(),
{
    if s.len() > 0 && s[0] != c {
        lemma_char_pos(s.drop_first(), c);
        assert forall|j: int| 0 <= j < char_pos(s, c) implies s[j] != c by {
            if j > 0 {
                assert(s[j] == s.drop_first()[j - 1]);
            }
        }
    }
}

/// The position of the first `?` or `#` in `s[lo..hi]`, or `hi`.
pub fn find_segment_end(s: &Vec<char>, lo: usize, hi: usize) -> (r: usize)
    requires
        lo <= hi <= s.len(),
    ensures
        lo <= r <= hi,
        r - lo == segment_len(s@.subrange(lo as int, hi as int)),
{
    let mut i = lo;
    while i < hi && !(s[i] == '?' || s[i] == '#')
        invariant
            lo <= i <= hi <= s.len(),
            segment_len(s@.subrange(lo as int, hi as int)) == (i - lo) + segment_len(
                s@.subrange(i as int, hi as int),
            ),
        decreases hi - i,
    {
        assert(s@.subrange(i as int, hi as int).drop_first() =~= s@.subrange(i + 1, hi as int));
        i = i + 1;
    }
    i
}

/// The position of the first `c` in `s[lo..hi]`, or `hi`.
pub fn find_char(s: &Vec<char>, lo: usize, hi: usize, c: char) -> (r: usize)
    requires
        lo <= hi <= s.len(),
    ensures
        lo <= r <= hi,
        r - lo == char_pos(s@.subrange(lo as int, hi as int), c),
{
    let mut i = lo;
    while i < hi && s[i] != c
        invariant
            lo <= i <= hi <= s.len(),
            char_pos(s@.subrange(lo as int, hi as int), c) == (i - lo) + char_pos(
                s@.subrange(i as int, hi as int),
                c,
            ),
        decreases hi - i,
    {
        assert(s@.subrange(i as int, hi as int).drop_first() =~= s@.subrange(i + 1, hi as int));
        i = i + 1;
    }
    i
}

/// Whether `s[lo..hi]` begins with `p`.
pub fn starts_with_at(s: &Vec<char>, lo: usize, hi: usize, p: &Vec<char>) -> (r: bool)
    requires
        lo <= hi <= s.len(),
    ensures
        r == p@.is_prefix_of(s@.subrange(lo as int, hi as int)),
{
    if p.len() > hi - lo {
        return false;
    }
    let mut i: usize = 0;
    while i < p.len()
        invariant
            p.len() <= hi - lo,
            lo <= hi <= s.len(),
            i <= p.len(),
            forall|j: int| 0 <= j < i ==> p@[j] == s@[lo + j],
        decreases p.len() - i,
    {
        if p[i] != s[lo + i] {
            assert(p@[i as int] != s@.subrange(lo as int, hi as int).subrange(0, p.len() as int)[i as int]);
            return false;
        }
        i = i + 1;
    }
    assert(p@ =~= s@.subrange(lo as int, hi as int).subrange(0, p.len() as int));
    true
}

/// Whether `s[lo..hi]` is exactly `p`.
pub fn equals_at(s: &Vec<char>, lo: usize, hi: usize, p: &Vec<char>) -> (r: bool)
    requires
        lo <= hi <= s.len(),
    ensures
        r == (s@.subrange(lo as int, hi as int) == p@),
{
    if p.len() != hi - lo {
        return false;
    }
    let r = starts_with_at(s, lo, hi, p);
    proof {
        if r {
            assert(s@.subrange(lo as int, hi as int) =~= s@.subrange(lo as int, hi as int).subrange(0, p.len() as int));
        }
    }
    r
}


/// Whether `s` begins with `p`.
pub fn str_starts_with(s: &str, p: &str) -> (r: bool)
    ensures
        r == p@.is_prefix_of(s@),
{
    let c = chars_of(s);
    let r = starts_with_at(&c, 0, c.len(), &chars_of(p));
    assert(c@.subrange(0, c.len() as int) =~= s@);
    r
}

/// `a` followed by `b`.
pub fn concat(a: &str, b: &str) -> (r: String)
    ensures
        r@ == a@ + b@,
{
    let mut r = a.to_owned();
    r.append(b);
    r
}

/// The position of the first occurrence of `p` in `s`, if any.
pub open spec fn find_seq(s: Seq<char>, p: Seq<char>) -> Option<nat>
    decreases s.len(),
{
    if p.is_prefix_of(s) {
        Some(0)
    } else if s.len() == 0 {
        None
    } else {
        match find_seq(s.drop_first(), p) {
            Some(i) => Some(i + 1),
            None => None,
        }
    }
}

/// An occurrence found by `find_seq` is one, and it lies within `s`.
pub proof fn lemma_find_seq(s: Seq<char>, p: Seq<char>)
    ensures
        find_seq(s, p) matches Some(i) ==> i + p.len() <= s.len() && p.is_prefix_of(s.skip(i as int)),
    decreases s.len(),
{
    if !p.is_prefix_of(s) && s.len() > 0 {
        lemma_find_seq(s.drop_first(), p);
        if let Some(i) = find_seq(s.drop_first(), p) {
            assert(s.skip(i + 1int) =~= s.drop_first().skip(i as int));
        }
    } else if p.is_prefix_of(s) {
        assert(s.skip(0) =~= s);
    }
}

/// The position of the first occurrence of `p` in `s[lo..hi]`, counted from
/// `lo`, if any.
pub fn find_at(s: &Vec<char>, lo: usize, hi: usize, p: &Vec<char>) -> (r: Option<usize>)
    requires
        lo <= hi <= s.len(),
    ensures
        match r {
            Some(i) => find_seq(s@.subrange(lo as int, hi as int), p@) == Some(i as nat),
            None => find_seq(s@.subrange(lo as int, hi as int), p@) is None,
        },
{
    let mut i = lo;
    assert(s@.subrange(lo as int, hi as int) =~= s@.subrange(lo as int, hi as int).skip(0));
    loop
        invariant
            lo <= i <= hi <= s.len(),
            find_seq(s@.subrange(lo as int, hi as int), p@) == match find_seq(s@.subrange(i as int, hi as int), p@) {
                Some(j) => Some(j + (i - lo) as nat),
                None => None,
            },
        decreases hi - i,
    {
        if starts_with_at(s, i, hi, p) {
            return Some(i - lo);
        }
        if i == hi {
            return None;
        }
        assert(s@.subrange(i as int, hi as int).drop_first() =~= s@.subrange(i + 1, hi as int));
        i = i + 1;
    }
}

/// Whether `p` occurs in `s`.
pub fn str_contains(s: &str, p: &str) -> (r: bool)
    ensures
        r == find_seq(s@, p@) is Some,
{
    let c = chars_of(s);
    assert(c@.subrange(0, c.len() as int) =~= s@);
    find_at(&c, 0, c.len(), &chars_of(p)).is_some()
}

/// The lower-case form that `str::to_lowercase` gives a text.
pub uninterp spec fn unicode_lowercase(s: Seq<char>) -> Seq<char>;

/// Calls `str::to_lowercase`. Claimed: the result is `unicode_lowercase` of the
/// argument (a function of the text alone); nothing more is stated of it.
#[verifier::external_body]
pub(crate) fn to_lowercase(s: &str) -> (r: String)
    ensures
        r@ == unicode_lowercase(s@),
{
    s.to_lowercase()
}

} // verus!
