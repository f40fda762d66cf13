//! Where a pattern occurs in a text: the offsets that trying every alignment in turn
//! would find. This is what every search is held against.

use vstd::prelude::*;

verus! {

/// `pattern` occurs in `text` at offset `s`: the pattern is not empty, the window of
/// its length that starts at `s` lies inside the text, and the two agree byte for byte.
pub open spec fn occurs_at(text: Seq<u8>, pattern: Seq<u8>, s: int) -> bool {
    &&& 0 < pattern.len()
    &&& 0 <= s
    &&& s + pattern.len() <= text.len()
    &&& forall|j: int| 0 <= j < pattern.len() ==> text[s + j] == #[trigger] pattern[j]
}

/// The offsets below `bound` at which `pattern` occurs in `text`, in increasing order:
/// what is found by trying every alignment in turn, one position at a time.
pub open spec fn occurrences_below(text: Seq<u8>, pattern: Seq<u8>, bound: int) -> Seq<int>
    decreases bound,
{
    if bound <= 0 {
        Seq::empty()
    } else if occurs_at(text, pattern, bound - 1) {
        occurrences_below(text, pattern, bound - 1).push(bound - 1)
    } else {
        occurrences_below(text, pattern, bound - 1)
    }
}

/// All offsets at which `pattern` occurs in `text`, in increasing order.
pub open spec fn occurrences(text: Seq<u8>, pattern: Seq<u8>) -> Seq<int> {
    occurrences_below(text, pattern, text.len() as int)
}

/// A list of offsets as mathematical integers.
pub open spec fn positions(offsets: Seq<usize>) -> Seq<int> {
    Seq::new(offsets.len(), |i: int| offsets[i] as int)
}

/// Alignments without an occurrence add nothing to the list of occurrences.
pub proof fn lemma_no_occurrence_between(text: Seq<u8>, pattern: Seq<u8>, lo: int, hi: int)
    requires
        lo <= hi,
        forall|k: int| lo <= k < hi ==> !occurs_at(text, pattern, k),
    ensures
        occurrences_below(text, pattern, hi) == occurrences_below(text, pattern, lo),
    decreases hi - lo,
{
    if lo < hi {
        lemma_no_occurrence_between(text, pattern, lo, hi - 1);
    }
}

/// The list of occurrences below a bound is strictly increasing, holds occurrences
/// only, and misses none below the bound.
pub proof fn lemma_occurrences_below(text: Seq<u8>, pattern: Seq<u8>, bound: int)
    ensures
        forall|i: int, j: int|
            0 <= i < j < occurrences_below(text, pattern, bound).len() ==> occurrences_below(
                text,
                pattern,
                bound,
            )[i] < occurrences_below(text, pattern, bound)[j],
        forall|i: int|
            0 <= i < occurrences_below(text, pattern, bound).len() ==> {
                &&& 0 <= #[trigger] occurrences_below(text, pattern, bound)[i] < bound
                &&& occurs_at(text, pattern, occurrences_below(text, pattern, bound)[i])
            },
        forall|s: int|
            s < bound && occurs_at(text, pattern, s) ==> occurrences_below(
                text,
                pattern,
                bound,
            ).contains(s),
    decreases bound,
{
    if bound > 0 {
        lemma_occurrences_below(text, pattern, bound - 1);
        let shorter = occurrences_below(text, pattern, bound - 1);
        let all = occurrences_below(text, pattern, bound);
        assert forall|s: int| s < bound && occurs_at(text, pattern, s) implies all.contains(
            s,
        ) by {
            if s == bound - 1 {
                assert(all[all.len() - 1] == s);
            } else {
                assert(shorter.contains(s));
                let i = choose|i: int| 0 <= i < shorter.len() && shorter[i] == s;
                assert(all[i] == s);
            }
        }
    }
}

/// An offset is in the list of occurrences exactly if the pattern occurs there, and
/// the list is strictly increasing, so that it holds each such offset once.
pub proof fn lemma_occurrences_are_all_matches(text: Seq<u8>, pattern: Seq<u8>)
    ensures
        forall|s: int| occurrences(text, pattern).contains(s) <==> occurs_at(text, pattern, s),
        forall|i: int, j: int|
            0 <= i < j < occurrences(text, pattern).len() ==> occurrences(text, pattern)[i]
                < occurrences(text, pattern)[j],
{
    lemma_occurrences_below(text, pattern, text.len() as int);
}

} // verus!
