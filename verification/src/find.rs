use crate::base::Base;
use rayon::iter::IndexedParallelIterator;
use rayon::slice::ParallelSlice;
use vstd::prelude::*;

verus! {

/// True when `pat` occurs in `hay` as a contiguous subsequence starting at
/// offset `i`.
pub open spec fn matches_at(hay: Seq<u8>, pat: Seq<u8>, i: int) -> bool {
    &&& 0 <= i
    &&& i + pat.len() <= hay.len()
    &&& hay.subrange(i, i + pat.len() as int) == pat
}

/// Offset of the first occurrence of `pat` in `hay` at or after `from`, as a
/// sequential left-to-right scan computes it.
pub open spec fn first_match_from(hay: Seq<u8>, pat: Seq<u8>, from: int) -> Option<int>
    decreases hay.len() - from + 1,
{
    if from + pat.len() > hay.len() {
        None
    } else if matches_at(hay, pat, from) {
        Some(from)
    } else {
        first_match_from(hay, pat, from + 1)
    }
}

/// Offset of the first occurrence of `pat` in `hay`, or `None` when `pat`
/// does not occur at all.
pub open spec fn first_match(hay: Seq<u8>, pat: Seq<u8>) -> Option<int> {
    first_match_from(hay, pat, 0)
}

/// Offset of the last occurrence of `pat` in `hay` at or before `from`, as a
/// sequential right-to-left scan computes it.
pub open spec fn last_match_from(hay: Seq<u8>, pat: Seq<u8>, from: int) -> Option<int>
    decreases from + 1,
{
    if from < 0 {
        None
    } else if matches_at(hay, pat, from) {
        Some(from)
    } else {
        last_match_from(hay, pat, from - 1)
    }
}

/// Offset of the last occurrence of `pat` in `hay`, or `None` when `pat`
/// does not occur at all.
pub open spec fn last_match(hay: Seq<u8>, pat: Seq<u8>) -> Option<int> {
    last_match_from(hay, pat, hay.len() - pat.len())
}

/// The first match is the lowest offset at which the pattern occurs as a
/// contiguous subsequence, and there is none exactly when the pattern does
/// not occur at all.
pub proof fn lemma_first_match_characterizes(hay: Seq<u8>, pat: Seq<u8>)
    ensures
        match first_match(hay, pat) {
            Some(i) => matches_at(hay, pat, i) && forall|j: int|
                0 <= j < i ==> !matches_at(hay, pat, j),
            None => forall|j: int| !matches_at(hay, pat, j),
        },
{
    lemma_first_match_from_characterizes(hay, pat, 0);
}

proof fn lemma_first_match_from_characterizes(hay: Seq<u8>, pat: Seq<u8>, from: int)
    requires
        0 <= from,
    ensures
        match first_match_from(hay, pat, from) {
            Some(i) => from <= i && matches_at(hay, pat, i) && forall|j: int|
                from <= j < i ==> !matches_at(hay, pat, j),
            None => forall|j: int| from <= j ==> !matches_at(hay, pat, j),
        },
    decreases hay.len() - from + 1,
{
    if from + pat.len() > hay.len() {
    } else if matches_at(hay, pat, from) {
    } else {
        lemma_first_match_from_characterizes(hay, pat, from + 1);
    }
}

/// The last match is the highest offset at which the pattern occurs as a
/// contiguous subsequence, and there is none exactly when the pattern does
/// not occur at all.
pub proof fn lemma_last_match_characterizes(hay: Seq<u8>, pat: Seq<u8>)
    ensures
        match last_match(hay, pat) {
            Some(i) => matches_at(hay, pat, i) && forall|j: int|
                i < j ==> !matches_at(hay, pat, j),
            None => forall|j: int| !matches_at(hay, pat, j),
        },
{
    lemma_last_match_from_characterizes(hay, pat, hay.len() - pat.len());
    assert forall|j: int| hay.len() - pat.len() < j implies !matches_at(hay, pat, j) by {}
}

proof fn lemma_last_match_from_characterizes(hay: Seq<u8>, pat: Seq<u8>, from: int)
    requires
        from + pat.len() <= hay.len(),
    ensures
        match last_match_from(hay, pat, from) {
            Some(i) => i <= from && matches_at(hay, pat, i) && forall|j: int|
                i < j <= from ==> !matches_at(hay, pat, j),
            None => forall|j: int| j <= from ==> !matches_at(hay, pat, j),
        },
    decreases from + 1,
{
    if from < 0 {
    } else if matches_at(hay, pat, from) {
    } else {
        lemma_last_match_from_characterizes(hay, pat, from - 1);
    }
}

/// Exact byte-for-byte comparison of two slices.
pub(crate) fn bytes_eq(a: &[u8], b: &[u8]) -> (r: bool)
    ensures
        r == (a@ == b@),
{
    if a.len() != b.len() {
        proof {
            assert(a@.len() != b@.len());
        }
        return false;
    }
    let n = a.len();
    let mut i: usize = 0;
    while i < n
        invariant
            n == a@.len() == b@.len(),
            0 <= i <= n,
            forall|k: int| 0 <= k < i ==> a@[k] == b@[k],
        decreases n - i,
    {
        if a[i] != b[i] {
            return false;
        }
        i += 1;
    }
    proof {
        assert(a@ =~= b@);
    }
    true
}

/// Relies on rayon's `par_windows` and `position_first`: every sliding
/// window of length `pat.len()` over `hay` is tested for byte equality with
/// `pat`, and the index of the sequentially first equal window is returned —
/// the same offset a left-to-right scan finds, however rayon splits the work.
#[verifier::external_body]
pub(crate) fn par_position_first(hay: &[u8], pat: &[u8]) -> (r: Option<usize>)
    requires
        pat@.len() >= 1,
    ensures
        match r {
            Some(i) => first_match(hay@, pat@) == Some(i as int),
            None => first_match(hay@, pat@) is None,
        },
{
    hay.par_windows(pat.len()).position_first(|w| bytes_eq(w, pat))
}

/// Relies on rayon's `par_windows` and `position_last`: the index of the
/// sequentially last window equal to `pat` is returned — the same offset a
/// right-to-left scan finds, however rayon splits the work.
#[verifier::external_body]
pub(crate) fn par_position_last(hay: &[u8], pat: &[u8]) -> (r: Option<usize>)
    requires
        pat@.len() >= 1,
    ensures
        match r {
            Some(i) => last_match(hay@, pat@) == Some(i as int),
            None => last_match(hay@, pat@) is None,
        },
{
    hay.par_windows(pat.len()).position_last(|w| bytes_eq(w, pat))
}

/// Parallel byte-pattern search over an addressed byte range.
///
/// `find` reports the lowest address at which the pattern occurs, `rfind`
/// the highest; both agree with a naive sequential scan of the range.
/// Patterns must be non-empty.
pub trait Find {
    /// The bytes the search runs over.
    spec fn haystack(&self) -> Seq<u8>;

    /// The address of the first byte of the haystack.
    spec fn base_addr(&self) -> int;

    /// The haystack lies within the address space.
    spec fn find_wf(&self) -> bool;

    /// Address of the first occurrence of `pattern`, or `None` when the
    /// pattern does not occur.
    fn find(&self, pattern: &[u8]) -> (r: Option<Base>)
        requires
            self.find_wf(),
            pattern@.len() >= 1,
        ensures
            match r {
                Some(b) => first_match(self.haystack(), pattern@) matches Some(i)
                    && b@ == self.base_addr() + i,
                None => first_match(self.haystack(), pattern@) is None,
            },
    ;

    /// Address of the last occurrence of `pattern`, or `None` when the
    /// pattern does not occur.
    fn rfind(&self, pattern: &[u8]) -> (r: Option<Base>)
        requires
            self.find_wf(),
            pattern@.len() >= 1,
        ensures
            match r {
                Some(b) => last_match(self.haystack(), pattern@) matches Some(i)
                    && b@ == self.base_addr() + i,
                None => last_match(self.haystack(), pattern@) is None,
            },
    ;
}

} // verus!
