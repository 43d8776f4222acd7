//! Character-sequence utilities: searching, trimming, and substring tests.

use vstd::prelude::*;

verus! {

/// The whitespace characters stripped from the ends of a worklog entry field.
pub open spec fn is_space_char(c: char) -> bool {
    c == ' ' || c == '\t' || c == '\n' || c == '\r'
}

/// Whether `c` occurs in `s`.
pub open spec fn has_ch(s: Seq<char>, c: char) -> bool {
    exists|i: int| 0 <= i < s.len() && s[i] == c
}

/// `i` is the index of the first occurrence of `c` in `s`.
pub open spec fn is_first_ix(s: Seq<char>, c: char, i: int) -> bool {
    0 <= i < s.len() && s[i] == c && (forall|j: int| 0 <= j < i ==> s[j] != c)
}

/// The index of the first occurrence of `c` in `s`; meaningful only when
/// `has_ch(s, c)` holds.
pub open spec fn first_ix(s: Seq<char>, c: char) -> int {
    choose|i: int| is_first_ix(s, c, i)
}

/// A first occurrence pins `first_ix` down.
pub proof fn lemma_first_ix(s: Seq<char>, c: char, i: int)
    requires
        is_first_ix(s, c, i),
    ensures
        has_ch(s, c),
        first_ix(s, c) == i,
{
    let j = first_ix(s, c);
    assert(is_first_ix(s, c, j));
    if j < i {
        assert(s[j] != c);
    }
    if i < j {
        assert(s[i] != c);
    }
}

/// `i` is the index of the last occurrence of `c` in `s`.
pub open spec fn is_last_ix(s: Seq<char>, c: char, i: int) -> bool {
    0 <= i < s.len() && s[i] == c && (forall|j: int| i < j < s.len() ==> s[j] != c)
}

/// The index of the last occurrence of `c` in `s`; meaningful only when
/// `has_ch(s, c)` holds.
pub open spec fn last_ix(s: Seq<char>, c: char) -> int {
    choose|i: int| is_last_ix(s, c, i)
}

/// A last occurrence pins `last_ix` down.
pub proof fn lemma_last_ix(s: Seq<char>, c: char, i: int)
    requires
        is_last_ix(s, c, i),
    ensures
        has_ch(s, c),
        last_ix(s, c) == i,
{
    let j = last_ix(s, c);
    assert(is_last_ix(s, c, j));
    if j < i {
        assert(s[i] != c);
    }
    if i < j {
        assert(s[j] != c);
    }
}

/// The last occurrence of `c` in `v`, if any.
pub fn find_char_last(v: &Vec<char>, c: char) -> (r: Option<usize>)
    ensures
        match r {
            Some(i) => is_last_ix(v@, c, i as int),
            None => !has_ch(v@, c),
        },
{
    let n = v.len();
    let mut i: usize = n;
    while i > 0
        invariant
            i <= n,
            n == v@.len(),
            forall|j: int| i <= j < n ==> v@[j] != c,
        decreases i,
    {
        i = i - 1;
        if v[i] == c {
            return Some(i);
        }
    }
    None
}

/// Characters of a string, as a vector.
pub fn chars_of(s: &str) -> (r: Vec<char>)
    ensures
        r@ == s@,
{
    let n = s.unicode_len();
    let mut r: Vec<char> = Vec::new();
    let mut i: usize = 0;
    while i < n
        invariant
            i <= n,
            n == s@.len(),
            r@ == s@.take(i as int),
        decreases n - i,
    {
        r.push(s.get_char(i));
        proof {
            assert(s@.take(i as int).push(s@[i as int]) =~= s@.take(i as int + 1));
        }
        i = i + 1;
    }
    proof {
        assert(s@.take(n as int) =~= s@);
    }
    r
}

/// The first occurrence of `c` in `v` at or after `from`, if any.
pub fn find_char_from(v: &Vec<char>, from: usize, c: char) -> (r: Option<usize>)
    requires
        from <= v@.len(),
    ensures
        match r {
            Some(i) => from <= i < v@.len() && v@[i as int] == c && (forall|j: int|
                from <= j < i ==> v@[j] != c),
            None => forall|j: int| from <= j < v@.len() ==> v@[j] != c,
        },
{
    let n = v.len();
    let mut i: usize = from;
    while i < n
        invariant
            from <= i <= n,
            n == v@.len(),
            forall|j: int| from <= j < i ==> v@[j] != c,
        decreases n - i,
    {
        if v[i] == c {
            return Some(i);
        }
        i = i + 1;
    }
    None
}

/// The characters of `v` from `lo` (inclusive) to `hi` (exclusive).
pub fn copy_range(v: &Vec<char>, lo: usize, hi: usize) -> (r: Vec<char>)
    requires
        lo <= hi <= v@.len(),
    ensures
        r@ == v@.subrange(lo as int, hi as int),
{
    let mut r: Vec<char> = Vec::new();
    let mut i: usize = lo;
    while i < hi
        invariant
            lo <= i <= hi <= v@.len(),
            r@ == v@.subrange(lo as int, i as int),
        decreases hi - i,
    {
        r.push(v[i]);
        proof {
            assert(v@.subrange(lo as int, i as int).push(v@[i as int]) =~= v@.subrange(
                lo as int, i as int + 1));
        }
        i = i + 1;
    }
    r
}

/// `s` with leading whitespace removed.
pub open spec fn spec_trim_front(s: Seq<char>) -> Seq<char>
    decreases s.len(),
{
    if s.len() > 0 && is_space_char(s[0]) {
        spec_trim_front(s.drop_first())
    } else {
        s
    }
}

/// `s` with trailing whitespace removed.
pub open spec fn spec_trim_back(s: Seq<char>) -> Seq<char>
    decreases s.len(),
{
    if s.len() > 0 && is_space_char(s.last()) {
        spec_trim_back(s.drop_last())
    } else {
        s
    }
}

/// `s` with whitespace removed from both ends.
pub open spec fn spec_trim(s: Seq<char>) -> Seq<char> {
    spec_trim_back(spec_trim_front(s))
}

fn is_space(c: char) -> (r: bool)
    ensures
        r == is_space_char(c),
{
    c == ' ' || c == '\t' || c == '\n' || c == '\r'
}

/// `v` with whitespace removed from both ends.
pub fn trim_chars(v: &Vec<char>) -> (r: Vec<char>)
    ensures
        r@ == spec_trim(v@),
{
    let n = v.len();
    let mut i: usize = 0;
    proof {
        assert(v@.skip(0) =~= v@);
    }
    while i < n && is_space(v[i])
        invariant
            i <= n,
            n == v@.len(),
            spec_trim_front(v@) == spec_trim_front(v@.skip(i as int)),
        decreases n - i,
    {
        proof {
            assert(v@.skip(i as int).drop_first() =~= v@.skip(i as int + 1));
        }
        i = i + 1;
    }
    let ghost front: Seq<char> = v@.skip(i as int);
    proof {
        assert(spec_trim_front(v@) == front);
    }
    let mut j: usize = n;
    while j > i && is_space(v[j - 1])
        invariant
            i <= j <= n,
            n == v@.len(),
            spec_trim_back(front) == spec_trim_back(v@.subrange(i as int, j as int)),
            front == v@.skip(i as int),
        decreases j,
    {
        proof {
            assert(v@.subrange(i as int, j as int).drop_last() =~= v@.subrange(
                i as int, j as int - 1));
        }
        j = j - 1;
    }
    proof {
        assert(spec_trim_back(v@.subrange(i as int, j as int)) == v@.subrange(
            i as int, j as int));
    }
    copy_range(v, i, j)
}

/// `pat` occurs in `s` starting at position `i`.
pub open spec fn matches_at(s: Seq<char>, pat: Seq<char>, i: int) -> bool {
    0 <= i && i + pat.len() <= s.len() && s.subrange(i, i + pat.len()) =~= pat
}

/// `pat` occurs somewhere in `s`; the empty pattern occurs everywhere.
pub open spec fn contains_seq(s: Seq<char>, pat: Seq<char>) -> bool {
    exists|i: int| matches_at(s, pat, i)
}

/// Whether the string `s` contains the string `pat` as a contiguous run of
/// characters.
pub fn contains_str(s: &str, pat: &str) -> (r: bool)
    ensures
        r == contains_seq(s@, pat@),
{
    let sv = chars_of(s);
    let pv = chars_of(pat);
    contains_chars(&sv, &pv)
}

fn matches_chars_at(v: &Vec<char>, pat: &Vec<char>, i: usize) -> (r: bool)
    requires
        i + pat@.len() <= v@.len(),
    ensures
        r == matches_at(v@, pat@, i as int),
{
    let m = pat.len();
    let n = v.len();
    let mut k: usize = 0;
    while k < m
        invariant
            k <= m,
            m == pat@.len(),
            n == v@.len(),
            i + m <= n,
            forall|j: int| 0 <= j < k ==> v@[i + j] == pat@[j],
        decreases m - k,
    {
        if v[i + k] != pat[k] {
            assert(v@.subrange(i as int, i + m) =~= pat@ ==> v@[i + k] == pat@[k as int]);
            return false;
        }
        k = k + 1;
    }
    proof {
        assert(v@.subrange(i as int, i + m as int) =~= pat@);
    }
    true
}

/// `i` is the first position at or after `from` where `pat` occurs in `s`.
pub open spec fn is_first_match_from(s: Seq<char>, pat: Seq<char>, from: int, i: int) -> bool {
    from <= i && matches_at(s, pat, i) && (forall|j: int| from <= j < i ==> !matches_at(s, pat, j))
}

/// `pat` occurs in `s` at or after `from`.
pub open spec fn has_match_from(s: Seq<char>, pat: Seq<char>, from: int) -> bool {
    exists|i: int| from <= i && matches_at(s, pat, i)
}

/// The first position at or after `from` where `pat` occurs in `s`;
/// meaningful only when `has_match_from` holds.
pub open spec fn first_match_from(s: Seq<char>, pat: Seq<char>, from: int) -> int {
    choose|i: int| is_first_match_from(s, pat, from, i)
}

/// A first match pins `first_match_from` down.
pub proof fn lemma_first_match_from(s: Seq<char>, pat: Seq<char>, from: int, i: int)
    requires
        is_first_match_from(s, pat, from, i),
    ensures
        has_match_from(s, pat, from),
        first_match_from(s, pat, from) == i,
{
    let j = first_match_from(s, pat, from);
    assert(is_first_match_from(s, pat, from, j));
    if j < i {
        assert(!matches_at(s, pat, j));
    }
    if i < j {
        assert(!matches_at(s, pat, i));
    }
}

/// The first occurrence of `pat` in `v` at or after `from`, if any.
pub fn find_sub_from(v: &Vec<char>, pat: &Vec<char>, from: usize) -> (r: Option<usize>)
    requires
        from <= v@.len(),
    ensures
        match r {
            Some(i) => is_first_match_from(v@, pat@, from as int, i as int),
            None => forall|j: int| from <= j ==> !matches_at(v@, pat@, j),
        },
{
    let n = v.len();
    let m = pat.len();
    if m > n || from > n - m {
        proof {
            assert forall|j: int| from <= j implies !matches_at(v@, pat@, j) by {}
        }
        return None;
    }
    let mut i: usize = from;
    while i <= n - m
        invariant
            m <= n,
            from <= i <= n - m + 1,
            n == v@.len(),
            m == pat@.len(),
            forall|j: int| from <= j < i ==> !matches_at(v@, pat@, j),
        decreases n - i,
    {
        if matches_chars_at(v, pat, i) {
            return Some(i);
        }
        i = i + 1;
    }
    None
}

fn contains_chars(v: &Vec<char>, pat: &Vec<char>) -> (r: bool)
    ensures
        r == contains_seq(v@, pat@),
{
    let n = v.len();
    let m = pat.len();
    if m > n {
        return false;
    }
    let mut i: usize = 0;
    while i <= n - m
        invariant
            m <= n,
            n == v@.len(),
            m == pat@.len(),
            i <= n - m + 1,
            forall|j: int| 0 <= j < i ==> !matches_at(v@, pat@, j),
        decreases n - i,
    {
        if matches_chars_at(v, pat, i) {
            return true;
        }
        i = i + 1;
    }
    false
}

} // verus!
