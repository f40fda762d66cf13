//! The Boyer-Moore scan of one text for one pattern, driven by the bad-character shift.
//!
//! The functions here return what the shift loop of [`crate::shift_loop`] reports,
//! which with the table of the pattern is the list of all occurrences.

use crate::bad_char::{bad_char_heuristic, bad_char_table, BadCharTable};
use crate::occurrence::{occurrences, occurs_at, positions};
use crate::shift_loop::{
    lemma_shift_find_is_first, lemma_shift_find_is_occurrence, lemma_shift_scan_by_finds,
    lemma_shift_scan_finds_all, lemma_shift_scan_reports_occurrences, match_shift,
    mismatch_below, mismatch_shift, shift_find, shift_scan, window_mismatch,
};
use vstd::prelude::*;

verus! {

/// Compares the window at `s` with the pattern from its last byte down to its first.
/// Returns the position of the first mismatch met, which is the rightmost one, or
/// `None` where the whole window equals the pattern.
pub fn last_mismatch(text: &[u8], pattern: &[u8], s: usize) -> (miss: Option<usize>)
    requires
        s + pattern.len() <= text.len(),
    ensures
        match miss {
            Some(j) => {
                &&& window_mismatch(text@, pattern@, s as int) == Some(j as int)
                &&& j < pattern@.len()
                &&& text@[s + j] != pattern@[j as int]
                &&& forall|i: int| j < i < pattern@.len() ==> text@[s + i] == pattern@[i]
            },
            None => {
                &&& window_mismatch(text@, pattern@, s as int).is_none()
                &&& forall|i: int| 0 <= i < pattern@.len() ==> text@[s + i] == pattern@[i]
            },
        },
{
    let mut j: usize = pattern.len();
    while j > 0 && pattern[j - 1] == text[s + (j - 1)]
        invariant
            j <= pattern.len(),
            s + pattern.len() <= text.len(),
            forall|i: int| j <= i < pattern@.len() ==> text@[s + i] == pattern@[i],
            window_mismatch(text@, pattern@, s as int) == mismatch_below(
                text@,
                pattern@,
                s as int,
                j as int,
            ),
        decreases j,
    {
        j -= 1;
    }
    if j == 0 {
        None
    } else {
        Some(j - 1)
    }
}

/// The shift to make after a full match of a pattern of length `m` at `s`. It looks
/// at the byte just after the window, if the text has one.
pub fn shift_after_match(text: &[u8], m: usize, table: &BadCharTable, s: usize) -> (shift: usize)
    requires
        s + m <= text.len(),
    ensures
        shift == match_shift(text@, m as int, table@, s as int),
        1 <= shift <= m + 1,
        s + shift <= text.len() || m == 0,
{
    if s + m < text.len() {
        table.shift_for(m, text[s + m])
    } else {
        1
    }
}

/// The shift to make after the window at `s` failed at pattern position `j`: the
/// bad-character shift for the text byte that stands there.
pub fn shift_after_mismatch(text: &[u8], table: &BadCharTable, s: usize, j: usize) -> (shift:
    usize)
    requires
        s + j < text.len(),
    ensures
        shift == mismatch_shift(text@, table@, s as int, j as int),
        1 <= shift <= j + 1,
{
    table.shift_for(j, text[s + j])
}

/// The first offset at or after `from` that the shift loop reports: the window
/// starts at `from` and moves by the bad-character shift after each mismatch.
///
/// This is one step of a scan, for callers that want one match at a time: to go on
/// after a match at `p`, call again with `p` plus [`shift_after_match`]. A scan can
/// be taken up at any offset, and again from offset 0 as often as wanted.
///
/// Whatever `table` holds, an offset that is returned is an occurrence of `pattern`
/// at or after `from`. With the table of `pattern` it is the first such occurrence,
/// and `None` means that there is none.
pub fn find_from(text: &[u8], pattern: &[u8], table: &BadCharTable, from: usize) -> (found:
    Option<usize>)
    ensures
        match found {
            Some(p) => shift_find(text@, pattern@, table@, from as int) == Some(p as int),
            None => shift_find(text@, pattern@, table@, from as int).is_none(),
        },
        found matches Some(p) ==> from <= p && occurs_at(text@, pattern@, p as int),
        table@ == bad_char_table(pattern@) ==> match found {
            Some(p) => forall|k: int| from <= k < p ==> !occurs_at(text@, pattern@, k),
            None => forall|k: int| from <= k ==> !occurs_at(text@, pattern@, k),
        },
{
    let m: usize = pattern.len();
    let n: usize = text.len();
    proof {
        lemma_shift_find_is_occurrence(text@, pattern@, table@, from as int);
        if table@ == bad_char_table(pattern@) {
            lemma_shift_find_is_first(text@, pattern@, from as int);
        }
    }
    if m == 0 || m > n {
        return None;
    }
    let mut found: Option<usize> = None;
    let mut s: usize = from;
    while found.is_none() && s <= n - m
        invariant
            m == pattern@.len(),
            n == text@.len(),
            0 < m <= n,
            from <= s,
            s <= n || s == from,
            match found {
                Some(p) => shift_find(text@, pattern@, table@, from as int) == Some(p as int),
                None => shift_find(text@, pattern@, table@, from as int) == shift_find(
                    text@,
                    pattern@,
                    table@,
                    s as int,
                ),
            },
        decreases n - s + if found.is_none() { 1int } else { 0int },
    {
        match last_mismatch(text, pattern, s) {
            None => {
                found = Some(s);
            },
            Some(j) => {
                s = s + shift_after_mismatch(text, table, s, j);
            },
        }
    }
    found
}

/// What the shift loop reports for `text`, `pattern` and `table`, from offset 0 to the
/// end of the text. After a full match the window moves by the shift of
/// [`shift_after_match`], so overlapping occurrences are reported too.
///
/// Whatever `table` holds, the offsets returned are occurrences of `pattern` and
/// strictly increasing. With the table of `pattern` they are all the occurrences
/// there are.
pub fn scan(text: &[u8], pattern: &[u8], table: &BadCharTable) -> (offsets: Vec<usize>)
    ensures
        positions(offsets@) == shift_scan(text@, pattern@, table@, 0),
        table@ == bad_char_table(pattern@) ==> positions(offsets@) == occurrences(
            text@,
            pattern@,
        ),
        forall|i: int|
            0 <= i < offsets@.len() ==> occurs_at(text@, pattern@, #[trigger] offsets@[i] as int),
        forall|i: int, j: int| 0 <= i < j < offsets@.len() ==> offsets@[i] < offsets@[j],
        pattern@.len() == 0 || text@.len() == 0 || pattern@.len() > text@.len() ==> offsets@.len()
            == 0,
{
    let m: usize = pattern.len();
    let n: usize = text.len();
    let mut offsets: Vec<usize> = Vec::new();
    let mut from: usize = 0;
    proof {
        assert(positions(offsets@) + shift_scan(text@, pattern@, table@, 0) =~= shift_scan(
            text@,
            pattern@,
            table@,
            0,
        ));
    }
    loop
        invariant_except_break
            positions(offsets@) + shift_scan(text@, pattern@, table@, from as int) == shift_scan(
                text@,
                pattern@,
                table@,
                0,
            ),
        invariant
            m == pattern@.len(),
            n == text@.len(),
            from <= n,
        ensures
            positions(offsets@) == shift_scan(text@, pattern@, table@, 0),
        decreases n - from,
    {
        proof {
            lemma_shift_scan_by_finds(text@, pattern@, table@, from as int);
        }
        match find_from(text, pattern, table, from) {
            None => {
                proof {
                    assert(positions(offsets@) + Seq::<int>::empty() =~= positions(offsets@));
                }
                break ;
            },
            Some(p) => {
                let shift: usize = shift_after_match(text, m, table, p);
                proof {
                    let rest = shift_scan(text@, pattern@, table@, p + shift);
                    assert(positions(offsets@.push(p)) + rest =~= positions(offsets@) + (seq![
                        p as int,
                    ] + rest));
                }
                offsets.push(p);
                from = p + shift;
            },
        }
    }
    proof {
        let found = shift_scan(text@, pattern@, table@, 0);
        lemma_shift_scan_reports_occurrences(text@, pattern@, table@, 0);
        assert forall|i: int| 0 <= i < offsets@.len() implies occurs_at(
            text@,
            pattern@,
            #[trigger] offsets@[i] as int,
        ) by {
            assert(found[i] == offsets@[i] as int);
        }
        assert forall|i: int, j: int| 0 <= i < j < offsets@.len() implies offsets@[i]
            < offsets@[j] by {
            assert(found[i] == offsets@[i] as int);
            assert(found[j] == offsets@[j] as int);
        }
        if table@ == bad_char_table(pattern@) {
            lemma_shift_scan_finds_all(text@, pattern@);
        }
        if offsets@.len() > 0 {
            assert(occurs_at(text@, pattern@, offsets@[0] as int));
        }
    }
    offsets
}

/// All occurrences of `pattern` in `text`, in increasing order, as the shift loop
/// reports them. The table of the pattern is built for this one search; to search
/// many texts for one pattern, build the table once and call [`scan`].
pub fn bm_search(text: &[u8], pattern: &[u8]) -> (offsets: Vec<usize>)
    ensures
        positions(offsets@) == occurrences(text@, pattern@),
        positions(offsets@) == shift_scan(text@, pattern@, bad_char_table(pattern@), 0),
        pattern@.len() == 0 || text@.len() == 0 || pattern@.len() > text@.len() ==> offsets@.len()
            == 0,
{
    let table = bad_char_heuristic(pattern);
    scan(text, pattern, &table)
}

} // verus!
