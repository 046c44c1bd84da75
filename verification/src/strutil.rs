//! Verified string helpers: equality, substring search, and trimming,
//! specified over `Seq<char>` views.

use vstd::prelude::*;
use vstd::string::StrSliceExecFns;

verus! {

/// Whether `needle` occurs in `hay` starting at position `i`.
pub open spec fn matches_at(hay: Seq<char>, needle: Seq<char>, i: int) -> bool {
    &&& 0 <= i
    &&& i + needle.len() <= hay.len()
    &&& hay.subrange(i, i + needle.len() as int) == needle
}

/// Whether `needle` occurs anywhere in `hay`.
pub open spec fn spec_contains_sub(hay: Seq<char>, needle: Seq<char>) -> bool {
    exists|i: int| matches_at(hay, needle, i)
}

/// Character-for-character string equality.
pub fn str_eq(a: &str, b: &str) -> (r: bool)
    ensures
        r == (a@ == b@),
{
    let alen: usize = a.unicode_len();
    let blen: usize = b.unicode_len();
    if alen != blen {
        assert(a@ != b@);
        return false;
    }
    let mut i: usize = 0;
    while i < alen
        invariant
            alen == a@.len(),
            alen == b@.len(),
            0 <= i <= alen,
            forall|k: int| 0 <= k < i ==> a@[k] == b@[k],
        decreases alen - i,
    {
        if a.get_char(i) != b.get_char(i) {
            return false;
        }
        i = i + 1;
    }
    proof {
        assert(a@ =~= b@);
    }
    true
}

/// Whether `needle` occurs in `hay` starting exactly at `at`.
fn matches_here(hay: &str, needle: &str, at: usize) -> (r: bool)
    requires
        at + needle@.len() <= hay@.len(),
    ensures
        r == matches_at(hay@, needle@, at as int),
{
    let nlen: usize = needle.unicode_len();
    let hlen: usize = hay.unicode_len();
    let mut k: usize = 0;
    while k < nlen
        invariant
            nlen == needle@.len(),
            hlen == hay@.len(),
            at + nlen <= hlen,
            0 <= k <= nlen,
            forall|j: int| 0 <= j < k ==> hay@[at + j] == needle@[j],
        decreases nlen - k,
    {
        if hay.get_char(at + k) != needle.get_char(k) {
            assert(hay@.subrange(at as int, at + nlen as int)[k as int] != needle@[k as int]);
            return false;
        }
        k = k + 1;
    }
    proof {
        assert(hay@.subrange(at as int, at + nlen as int) =~= needle@);
    }
    true
}

/// Finds the first occurrence of `needle` in `hay`.
pub fn find_sub(hay: &str, needle: &str) -> (r: Option<usize>)
    ensures
        match r {
            Some(i) => matches_at(hay@, needle@, i as int) && forall|j: int|
                0 <= j < i ==> !matches_at(hay@, needle@, j),
            None => !spec_contains_sub(hay@, needle@),
        },
{
    let hlen: usize = hay.unicode_len();
    let nlen: usize = needle.unicode_len();
    if nlen > hlen {
        assert(forall|j: int| !matches_at(hay@, needle@, j));
        return None;
    }
    if nlen == 0 {
        assert(hay@.subrange(0, 0) =~= needle@);
        return Some(0);
    }
    let mut i: usize = 0;
    while i <= hlen - nlen
        invariant
            hlen == hay@.len(),
            nlen == needle@.len(),
            1 <= nlen <= hlen,
            0 <= i <= hlen - nlen + 1,
            forall|j: int| 0 <= j < i ==> !matches_at(hay@, needle@, j),
        decreases hlen + 1 - nlen - i,
    {
        if matches_here(hay, needle, i) {
            return Some(i);
        }
        i = i + 1;
    }
    assert(forall|j: int| !matches_at(hay@, needle@, j));
    None
}

/// Finds the last occurrence of `needle` in `hay`.
pub fn find_sub_last(hay: &str, needle: &str) -> (r: Option<usize>)
    ensures
        match r {
            Some(i) => matches_at(hay@, needle@, i as int) && forall|j: int|
                i < j ==> !matches_at(hay@, needle@, j),
            None => !spec_contains_sub(hay@, needle@),
        },
{
    let hlen: usize = hay.unicode_len();
    let nlen: usize = needle.unicode_len();
    if nlen > hlen {
        assert(forall|j: int| !matches_at(hay@, needle@, j));
        return None;
    }
    let mut i: usize = hlen - nlen;
    loop
        invariant
            hlen == hay@.len(),
            nlen == needle@.len(),
            nlen <= hlen,
            0 <= i <= hlen - nlen,
            forall|j: int| i < j ==> !matches_at(hay@, needle@, j),
        decreases i + 1,
    {
        if matches_here(hay, needle, i) {
            return Some(i);
        }
        if i == 0 {
            assert(forall|j: int| !matches_at(hay@, needle@, j));
            return None;
        }
        i = i - 1;
    }
}

/// Whether `hay` contains `needle`.
pub fn str_contains(hay: &str, needle: &str) -> (r: bool)
    ensures
        r == spec_contains_sub(hay@, needle@),
{
    find_sub(hay, needle).is_some()
}

/// ASCII whitespace.
pub open spec fn spec_is_ws(c: char) -> bool {
    c == ' ' || c == '\n' || c == '\r' || c == '\t'
}

fn is_ws(c: char) -> (r: bool)
    ensures
        r == spec_is_ws(c),
{
    c == ' ' || c == '\n' || c == '\r' || c == '\t'
}

/// The view of `s` with leading and trailing ASCII whitespace removed: the
/// subrange `[lo, hi)` where `lo` is the first non-whitespace position and
/// `hi` one past the last.
pub open spec fn spec_trimmed(s: Seq<char>, lo: int, hi: int) -> bool {
    &&& 0 <= lo <= hi <= s.len()
    &&& forall|k: int| 0 <= k < lo ==> spec_is_ws(#[trigger] s[k])
    &&& forall|k: int| hi <= k < s.len() ==> spec_is_ws(#[trigger] s[k])
    &&& (lo < hi ==> !spec_is_ws(s[lo]) && !spec_is_ws(s[hi - 1]))
    &&& (lo == hi ==> forall|k: int| 0 <= k < s.len() ==> spec_is_ws(#[trigger] s[k]))
}

/// Removes leading and trailing ASCII whitespace.
pub fn trim_ws(s: &str) -> (r: String)
    ensures
        exists|lo: int, hi: int|
            spec_trimmed(s@, lo, hi) && r@ == s@.subrange(lo, hi),
{
    let len: usize = s.unicode_len();
    let mut lo: usize = 0;
    while lo < len && is_ws(s.get_char(lo))
        invariant
            len == s@.len(),
            0 <= lo <= len,
            forall|k: int| 0 <= k < lo ==> spec_is_ws(#[trigger] s@[k]),
        decreases len - lo,
    {
        lo = lo + 1;
    }
    if lo == len {
        proof {
            assert(spec_trimmed(s@, len as int, len as int));
        }
        let piece: &str = s.substring_char(len, len);
        return piece.to_owned();
    }
    let mut hi: usize = len;
    while hi > lo && is_ws(s.get_char(hi - 1))
        invariant
            len == s@.len(),
            0 <= lo <= hi <= len,
            lo < len,
            !spec_is_ws(s@[lo as int]),
            forall|k: int| hi <= k < len ==> spec_is_ws(#[trigger] s@[k]),
        decreases hi,
    {
        hi = hi - 1;
    }
    proof {
        assert(spec_trimmed(s@, lo as int, hi as int));
    }
    let piece: &str = s.substring_char(lo, hi);
    piece.to_owned()
}

} // verus!
