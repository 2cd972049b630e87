//! Bytes of paths and patterns: the delimiter bytes, runs of `/`, trimming,
//! and the search for delimiters.

use vstd::prelude::*;
use vstd::slice::slice_subrange;

verus! {

/// The byte `/`.
pub const SLASH: u8 = 47;

/// The byte `.`.
pub const DOT: u8 = 46;

/// The byte `*`.
pub const STAR: u8 = 42;

/// The byte `:`.
pub const COLON: u8 = 58;

/// Index of the first byte at or after `from` that equals `a` or `b`, or
/// `s.len()` when there is none.
pub open spec fn next_of(s: Seq<u8>, from: int, a: u8, b: u8) -> int
    decreases s.len() - from,
{
    if from < 0 || from >= s.len() {
        s.len() as int
    } else if s[from] == a || s[from] == b {
        from
    } else {
        next_of(s, from + 1, a, b)
    }
}

/// End of the run of `/` bytes that starts at `from`: the first index at or
/// after `from` that holds another byte, or `s.len()`.
pub open spec fn slash_run_end(s: Seq<u8>, from: int) -> int
    decreases s.len() - from,
{
    if 0 <= from < s.len() && s[from] == SLASH {
        slash_run_end(s, from + 1)
    } else {
        from
    }
}

/// Start of the run of `/` bytes that ends just before `end`, never going
/// below `lo`.
pub open spec fn slash_run_start(s: Seq<u8>, lo: int, end: int) -> int
    decreases end,
{
    if 0 <= lo < end <= s.len() && s[end - 1] == SLASH {
        slash_run_start(s, lo, end - 1)
    } else {
        end
    }
}

/// Whether `s` holds the bytes `text` at index `at`.
pub open spec fn has_at(s: Seq<u8>, at: int, text: Seq<u8>) -> bool {
    0 <= at && at + text.len() <= s.len() && s.subrange(at, at + text.len()) == text
}

/// Where the trimmed part of `s` starts: after all leading `/`.
pub open spec fn trim_start(s: Seq<u8>) -> int {
    slash_run_end(s, 0)
}

/// Where the trimmed part of `s` ends: before all trailing `/`.
pub open spec fn trim_end(s: Seq<u8>) -> int {
    slash_run_start(s, trim_start(s), s.len() as int)
}

/// `s` without its leading and trailing `/` bytes.
pub open spec fn trim(s: Seq<u8>) -> Seq<u8> {
    s.subrange(trim_start(s), trim_end(s))
}

/// `next_of` lies between `from` and the length; it holds `a` or `b` where it
/// lies in `s`, and no index between `from` and it does.
pub proof fn lemma_next_of(s: Seq<u8>, from: int, a: u8, b: u8)
    requires
        0 <= from <= s.len(),
    ensures
        from <= next_of(s, from, a, b) <= s.len(),
        next_of(s, from, a, b) < s.len() ==> s[next_of(s, from, a, b)] == a || s[next_of(
            s,
            from,
            a,
            b,
        )] == b,
        forall|j: int| from <= j < next_of(s, from, a, b) ==> s[j] != a && s[j] != b,
    decreases s.len() - from,
{
    if from < s.len() && !(s[from] == a || s[from] == b) {
        lemma_next_of(s, from + 1, a, b);
    }
}

/// `next_of` is the only index that `lemma_next_of` describes.
pub proof fn lemma_next_of_unique(s: Seq<u8>, from: int, a: u8, b: u8, r: int)
    requires
        0 <= from <= r <= s.len(),
        r < s.len() ==> s[r] == a || s[r] == b,
        forall|j: int| from <= j < r ==> s[j] != a && s[j] != b,
    ensures
        next_of(s, from, a, b) == r,
    decreases r - from,
{
    if from < r {
        lemma_next_of_unique(s, from + 1, a, b, r);
    }
}

/// `slash_run_end` lies between `from` and the length; it holds no `/` where
/// it lies in `s`, and every index between `from` and it does.
pub proof fn lemma_slash_run_end(s: Seq<u8>, from: int)
    requires
        0 <= from <= s.len(),
    ensures
        from <= slash_run_end(s, from) <= s.len(),
        slash_run_end(s, from) < s.len() ==> s[slash_run_end(s, from)] != SLASH,
        forall|j: int| from <= j < slash_run_end(s, from) ==> s[j] == SLASH,
    decreases s.len() - from,
{
    if from < s.len() && s[from] == SLASH {
        lemma_slash_run_end(s, from + 1);
    }
}

/// `slash_run_end` is the only index that `lemma_slash_run_end` describes.
pub proof fn lemma_slash_run_end_unique(s: Seq<u8>, from: int, r: int)
    requires
        0 <= from <= r <= s.len(),
        r < s.len() ==> s[r] != SLASH,
        forall|j: int| from <= j < r ==> s[j] == SLASH,
    ensures
        slash_run_end(s, from) == r,
    decreases r - from,
{
    if from < r {
        lemma_slash_run_end_unique(s, from + 1, r);
    }
}

/// `slash_run_start` lies between `lo` and `end`; the index before it holds
/// no `/` where it lies above `lo`, and every index between it and `end` does.
pub proof fn lemma_slash_run_start(s: Seq<u8>, lo: int, end: int)
    requires
        0 <= lo <= end <= s.len(),
    ensures
        lo <= slash_run_start(s, lo, end) <= end,
        lo < slash_run_start(s, lo, end) ==> s[slash_run_start(s, lo, end) - 1] != SLASH,
        forall|j: int| slash_run_start(s, lo, end) <= j < end ==> s[j] == SLASH,
    decreases end,
{
    if lo < end && s[end - 1] == SLASH {
        lemma_slash_run_start(s, lo, end - 1);
    }
}

/// `slash_run_start` is the only index that `lemma_slash_run_start`
/// describes.
pub proof fn lemma_slash_run_start_unique(s: Seq<u8>, lo: int, end: int, r: int)
    requires
        0 <= lo <= r <= end <= s.len(),
        lo < r ==> s[r - 1] != SLASH,
        forall|j: int| r <= j < end ==> s[j] == SLASH,
    ensures
        slash_run_start(s, lo, end) == r,
    decreases end - r,
{
    if r < end {
        lemma_slash_run_start_unique(s, lo, end - 1, r);
    }
}

/// The trimmed part lies inside `s`, and neither starts nor ends with `/`.
pub proof fn lemma_trim(s: Seq<u8>)
    ensures
        0 <= trim_start(s) <= trim_end(s) <= s.len(),
        trim(s).len() == trim_end(s) - trim_start(s),
        trim(s).len() > 0 ==> trim(s)[0] != SLASH && trim(s).last() != SLASH,
        forall|j: int| 0 <= j < trim_start(s) ==> s[j] == SLASH,
        forall|j: int| trim_end(s) <= j < s.len() ==> s[j] == SLASH,
{
    lemma_slash_run_end(s, 0);
    lemma_slash_run_start(s, trim_start(s), s.len() as int);
}

/// The bounds of the trimmed part are the only ones that `lemma_trim`
/// describes.
pub proof fn lemma_trim_unique(s: Seq<u8>, a: int, b: int)
    requires
        0 <= a <= b <= s.len(),
        forall|j: int| 0 <= j < a ==> s[j] == SLASH,
        forall|j: int| b <= j < s.len() ==> s[j] == SLASH,
        a < b ==> s[a] != SLASH && s[b - 1] != SLASH,
        a == b ==> a == s.len(),
    ensures
        trim_start(s) == a,
        trim_end(s) == b,
{
    lemma_slash_run_end_unique(s, 0, a);
    lemma_slash_run_start_unique(s, a, s.len() as int, b);
}

/// A `/` after a path, or before it, does not change its trimmed part.
pub proof fn lemma_trim_outer_slash(s: Seq<u8>)
    ensures
        trim(s.push(SLASH)) == trim(s),
        trim(seq![SLASH] + s) == trim(s),
{
    lemma_trim(s);
    let a = trim_start(s);
    let b = trim_end(s);
    let after = s.push(SLASH);
    let before = seq![SLASH] + s;
    if a < b {
        lemma_trim_unique(after, a, b);
        lemma_trim_unique(before, a + 1, b + 1);
    } else {
        lemma_slash_run_end(s, 0);
        lemma_trim_unique(after, after.len() as int, after.len() as int);
        lemma_trim_unique(before, before.len() as int, before.len() as int);
    }
}

/// Trimming what is trimmed changes nothing.
pub proof fn lemma_trim_idempotent(s: Seq<u8>)
    ensures
        trim(trim(s)) == trim(s),
{
    lemma_trim(s);
    let t = trim(s);
    lemma_trim_unique(t, 0, t.len() as int);
}

/// `memchr::memchr`: the index of the first byte of `haystack` that equals
/// `needle`, or `None` when no byte does.
pub assume_specification[ memchr::memchr ](needle: u8, haystack: &[u8]) -> (found: Option<usize>)
    ensures
        match found {
            Some(i) => i < haystack@.len() && haystack@[i as int] == needle && forall|j: int|
                0 <= j < i ==> haystack@[j] != needle,
            None => forall|j: int| 0 <= j < haystack@.len() ==> haystack@[j] != needle,
        },
;

/// `memchr::memchr2`: the index of the first byte of `haystack` that equals
/// `needle1` or `needle2`, or `None` when no byte does.
pub assume_specification[ memchr::memchr2 ](needle1: u8, needle2: u8, haystack: &[u8]) -> (found:
    Option<usize>)
    ensures
        match found {
            Some(i) => i < haystack@.len() && (haystack@[i as int] == needle1 || haystack@[i as int]
                == needle2) && forall|j: int|
                0 <= j < i ==> haystack@[j] != needle1 && haystack@[j] != needle2,
            None => forall|j: int|
                0 <= j < haystack@.len() ==> haystack@[j] != needle1 && haystack@[j] != needle2,
        },
;

/// `memchr::memchr2_iter`, collected: all indices of `haystack` that hold
/// `needle1` or `needle2`, in ascending order.
#[verifier::external_body]
pub(crate) fn positions_of_either(needle1: u8, needle2: u8, haystack: &[u8]) -> (found: Vec<usize>)
    ensures
        forall|k: int|
            0 <= k < found@.len() ==> found@[k] < haystack@.len() && (haystack@[found@[k] as int]
                == needle1 || haystack@[found@[k] as int] == needle2),
        forall|k: int, l: int| 0 <= k < l < found@.len() ==> found@[k] < found@[l],
        forall|j: int|
            0 <= j < haystack@.len() && (haystack@[j] == needle1 || haystack@[j] == needle2)
                ==> exists|k: int| 0 <= k < found@.len() && found@[k] == j,
{
    memchr::memchr2_iter(needle1, needle2, haystack).collect()
}

/// First index at or after `from` that holds `needle`, or the length.
pub fn find_byte(hay: &[u8], from: usize, needle: u8) -> (at: usize)
    requires
        from <= hay@.len(),
    ensures
        at == next_of(hay@, from as int, needle, needle),
        from <= at <= hay@.len(),
{
    let tail = slice_subrange(hay, from, hay.len());
    let at: usize = match memchr::memchr(needle, tail) {
        Some(i) => from + i,
        None => hay.len(),
    };
    proof {
        assert forall|j: int| from <= j < at implies hay@[j] != needle by {
            assert(tail@[j - from] == hay@[j]);
        }
        lemma_next_of_unique(hay@, from as int, needle, needle, at as int);
    }
    at
}

/// First index at or after `from` that holds `a` or `b`, or the length.
pub fn find_either(hay: &[u8], from: usize, a: u8, b: u8) -> (at: usize)
    requires
        from <= hay@.len(),
    ensures
        at == next_of(hay@, from as int, a, b),
        from <= at <= hay@.len(),
{
    let tail = slice_subrange(hay, from, hay.len());
    let at: usize = match memchr::memchr2(a, b, tail) {
        Some(i) => from + i,
        None => hay.len(),
    };
    proof {
        assert forall|j: int| from <= j < at implies hay@[j] != a && hay@[j] != b by {
            assert(tail@[j - from] == hay@[j]);
        }
        lemma_next_of_unique(hay@, from as int, a, b, at as int);
    }
    at
}

/// End of the run of `/` that starts at `from`.
pub fn skip_slashes(hay: &[u8], from: usize) -> (at: usize)
    requires
        from <= hay@.len(),
    ensures
        at == slash_run_end(hay@, from as int),
        from <= at <= hay@.len(),
{
    let mut at: usize = from;
    while at < hay.len() && hay[at] == SLASH
        invariant
            from <= at <= hay@.len(),
            forall|j: int| from <= j < at ==> hay@[j] == SLASH,
        decreases hay@.len() - at,
    {
        at += 1;
    }
    proof {
        lemma_slash_run_end_unique(hay@, from as int, at as int);
    }
    at
}

/// Bounds of the trimmed part of `hay`.
pub fn trim_bounds(hay: &[u8]) -> (bounds: (usize, usize))
    ensures
        bounds.0 == trim_start(hay@),
        bounds.1 == trim_end(hay@),
        bounds.0 <= bounds.1 <= hay@.len(),
{
    let start = skip_slashes(hay, 0);
    let mut end: usize = hay.len();
    while end > start && hay[end - 1] == SLASH
        invariant
            start <= end <= hay@.len(),
            slash_run_start(hay@, start as int, end as int) == slash_run_start(
                hay@,
                start as int,
                hay@.len() as int,
            ),
        decreases end,
    {
        end -= 1;
    }
    (start, end)
}

/// Whether the bytes of `hay` from `at` on begin with `needle`.
pub fn starts_with_at(hay: &[u8], at: usize, needle: &[u8]) -> (yes: bool)
    requires
        at <= hay@.len(),
    ensures
        yes == has_at(hay@, at as int, needle@),
{
    if needle.len() > hay.len() - at {
        return false;
    }
    let mut k: usize = 0;
    while k < needle.len()
        invariant
            at + needle@.len() <= hay@.len(),
            hay@.len() <= usize::MAX,
            k <= needle@.len(),
            forall|j: int| 0 <= j < k ==> needle@[j] == hay@[at + j],
        decreases needle@.len() - k,
    {
        if needle[k] != hay[at + k] {
            proof {
                if has_at(hay@, at as int, needle@) {
                    let part = hay@.subrange(at as int, at + needle@.len());
                    assert(part[k as int] == hay@[at + k]);
                }
            }
            return false;
        }
        k += 1;
    }
    proof {
        assert(hay@.subrange(at as int, at + needle@.len()) =~= needle@);
    }
    true
}

/// Whether two byte slices hold the same bytes.
pub fn same_bytes(a: &[u8], b: &[u8]) -> (yes: bool)
    ensures
        yes == (a@ == b@),
{
    if a.len() != b.len() {
        return false;
    }
    let mut k: usize = 0;
    while k < a.len()
        invariant
            a@.len() == b@.len(),
            k <= a@.len(),
            forall|j: int| 0 <= j < k ==> a@[j] == b@[j],
        decreases a@.len() - k,
    {
        if a[k] != b[k] {
            return false;
        }
        k += 1;
    }
    proof {
        assert(a@ =~= b@);
    }
    true
}

} // verus!
