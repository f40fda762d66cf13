//! The shift loop of the Boyer-Moore search as a mathematical function of text,
//! pattern and table, and the proof that, with the table of the pattern, it reports
//! exactly the offsets at which the pattern occurs.

use crate::bad_char::{bad_char_shift, bad_char_table, last_index_of, lemma_last_index_of};
use crate::occurrence::{
    lemma_no_occurrence_between, lemma_occurrences_are_all_matches, occurrences,
    occurrences_below, occurs_at, positions,
};
use vstd::prelude::*;

verus! {

/// The largest pattern position below `upto` at which the window at `s` differs from
/// the pattern, or `None` where the two agree at all positions below `upto`.
pub open spec fn mismatch_below(text: Seq<u8>, pattern: Seq<u8>, s: int, upto: int) -> Option<int>
    decreases upto,
{
    if upto <= 0 {
        None
    } else if text[s + upto - 1] != pattern[upto - 1] {
        Some(upto - 1)
    } else {
        mismatch_below(text, pattern, s, upto - 1)
    }
}

/// The rightmost position at which the window at `s` differs from the pattern, or
/// `None` where the window equals the pattern.
pub open spec fn window_mismatch(text: Seq<u8>, pattern: Seq<u8>, s: int) -> Option<int> {
    mismatch_below(text, pattern, s, pattern.len() as int)
}

/// The shift that follows a full match at `s`: where a byte follows the window, the
/// bad-character shift for that byte at pattern position `m`, else one position.
pub open spec fn match_shift(text: Seq<u8>, m: int, table: Seq<int>, s: int) -> int {
    if s + m < text.len() {
        bad_char_shift(m, table[text[s + m] as int])
    } else {
        1
    }
}

/// The shift that follows a mismatch at pattern position `j` of the window at `s`.
pub open spec fn mismatch_shift(text: Seq<u8>, table: Seq<int>, s: int, j: int) -> int {
    bad_char_shift(j, table[text[s + j] as int])
}

/// The window at `s` lies inside the text, and the pattern is not empty.
pub open spec fn window_fits(text: Seq<u8>, pattern: Seq<u8>, s: int) -> bool {
    0 < pattern.len() && 0 <= s && s + pattern.len() <= text.len()
}

/// The number of bytes of the text from `s` on.
pub open spec fn room(text: Seq<u8>, s: int) -> nat {
    if s <= text.len() {
        (text.len() - s) as nat
    } else {
        0
    }
}

/// The first offset that the shift loop reports when it starts with the window at
/// `s`: the window moves by [`mismatch_shift`] until it equals the pattern or no
/// longer fits into the text.
pub open spec fn shift_find(text: Seq<u8>, pattern: Seq<u8>, table: Seq<int>, s: int) -> Option<
    int,
>
    decreases room(text, s),
{
    if !window_fits(text, pattern, s) {
        None
    } else {
        match window_mismatch(text, pattern, s) {
            None => Some(s),
            Some(j) => shift_find(text, pattern, table, s + mismatch_shift(text, table, s, j)),
        }
    }
}

/// All offsets that the shift loop reports when it starts with the window at `s`, in
/// the order in which it reports them: the window moves by [`mismatch_shift`] after
/// a mismatch and by [`match_shift`] after a match, until it no longer fits into the
/// text.
pub open spec fn shift_scan(text: Seq<u8>, pattern: Seq<u8>, table: Seq<int>, s: int) -> Seq<int>
    decreases room(text, s),
{
    if !window_fits(text, pattern, s) {
        Seq::empty()
    } else {
        match window_mismatch(text, pattern, s) {
            None => seq![s] + shift_scan(
                text,
                pattern,
                table,
                s + match_shift(text, pattern.len() as int, table, s),
            ),
            Some(j) => shift_scan(text, pattern, table, s + mismatch_shift(text, table, s, j)),
        }
    }
}

/// The rightmost mismatch of a window is a position of the pattern at which the
/// window differs, with agreement everywhere to the right of it; there is none
/// exactly if the pattern occurs at the window's offset.
pub proof fn lemma_window_mismatch(text: Seq<u8>, pattern: Seq<u8>, s: int)
    requires
        window_fits(text, pattern, s),
    ensures
        match window_mismatch(text, pattern, s) {
            Some(j) => {
                &&& 0 <= j < pattern.len()
                &&& text[s + j] != pattern[j]
                &&& forall|i: int| j < i < pattern.len() ==> text[s + i] == pattern[i]
                &&& !occurs_at(text, pattern, s)
            },
            None => occurs_at(text, pattern, s),
        },
{
    lemma_mismatch_below(text, pattern, s, pattern.len() as int);
}

/// The same for the positions below `upto` alone.
proof fn lemma_mismatch_below(text: Seq<u8>, pattern: Seq<u8>, s: int, upto: int)
    requires
        0 <= upto,
    ensures
        match mismatch_below(text, pattern, s, upto) {
            Some(j) => {
                &&& 0 <= j < upto
                &&& text[s + j] != pattern[j]
                &&& forall|i: int| j < i < upto ==> text[s + i] == pattern[i]
            },
            None => forall|i: int| 0 <= i < upto ==> text[s + i] == pattern[i],
        },
    decreases upto,
{
    if upto > 0 {
        lemma_mismatch_below(text, pattern, s, upto - 1);
    }
}

/// The bad-character rule skips no occurrence. Let the text byte under pattern
/// position `pos` of the window at `s` be `c` (`pos` may be the position just after
/// the pattern). A window that starts `d` positions further right, with `d` below
/// `pos` minus the last index of `c`, would put a later pattern position under `c`,
/// and none of these holds `c`.
pub proof fn lemma_bad_char_skip(text: Seq<u8>, pattern: Seq<u8>, s: int, pos: int, d: int)
    requires
        0 <= s,
        0 <= pos <= pattern.len(),
        s + pos < text.len(),
        1 <= d < pos - last_index_of(pattern, text[s + pos]),
    ensures
        !occurs_at(text, pattern, s + d),
{
    let c = text[s + pos];
    lemma_last_index_of(pattern, c);
    if occurs_at(text, pattern, s + d) {
        let j = pos - d;
        assert(text[(s + d) + j] == pattern[j]);
        assert(false);
    }
}

/// With the table of the pattern, the pattern occurs nowhere between a window and
/// the window that the shift loop tries next.
pub proof fn lemma_shifts_skip_no_occurrence(text: Seq<u8>, pattern: Seq<u8>, s: int)
    requires
        window_fits(text, pattern, s),
    ensures
        match window_mismatch(text, pattern, s) {
            Some(j) => forall|k: int|
                s <= k < s + mismatch_shift(text, bad_char_table(pattern), s, j) ==> !occurs_at(
                    text,
                    pattern,
                    k,
                ),
            None => forall|k: int|
                s < k < s + match_shift(text, pattern.len() as int, bad_char_table(pattern), s)
                    ==> !occurs_at(text, pattern, k),
        },
{
    let table = bad_char_table(pattern);
    let m = pattern.len() as int;
    lemma_window_mismatch(text, pattern, s);
    match window_mismatch(text, pattern, s) {
        Some(j) => {
            assert(table[text[s + j] as int] == last_index_of(pattern, text[s + j]));
            assert forall|k: int| s <= k < s + mismatch_shift(text, table, s, j) implies !occurs_at(
                text,
                pattern,
                k,
            ) by {
                if k > s {
                    lemma_bad_char_skip(text, pattern, s, j, k - s);
                }
            }
        },
        None => {
            assert forall|k: int| s < k < s + match_shift(text, m, table, s) implies !occurs_at(
                text,
                pattern,
                k,
            ) by {
                assert(table[text[s + m] as int] == last_index_of(pattern, text[s + m]));
                lemma_bad_char_skip(text, pattern, s, m, k - s);
            }
        },
    }
}

/// Whatever the table holds, the first offset that the shift loop reports is an
/// occurrence at or after the start.
pub proof fn lemma_shift_find_is_occurrence(
    text: Seq<u8>,
    pattern: Seq<u8>,
    table: Seq<int>,
    s: int,
)
    ensures
        shift_find(text, pattern, table, s) matches Some(p) ==> s <= p && occurs_at(
            text,
            pattern,
            p,
        ),
    decreases room(text, s),
{
    if window_fits(text, pattern, s) {
        lemma_window_mismatch(text, pattern, s);
        match window_mismatch(text, pattern, s) {
            Some(j) => {
                lemma_shift_find_is_occurrence(
                    text,
                    pattern,
                    table,
                    s + mismatch_shift(text, table, s, j),
                );
            },
            None => {},
        }
    }
}

/// With the table of the pattern, the first offset that the shift loop reports is
/// the first occurrence at or after the start, and the loop reports none only if
/// there is none.
pub proof fn lemma_shift_find_is_first(text: Seq<u8>, pattern: Seq<u8>, s: int)
    requires
        0 <= s,
    ensures
        match shift_find(text, pattern, bad_char_table(pattern), s) {
            Some(p) => s <= p && occurs_at(text, pattern, p) && forall|k: int|
                s <= k < p ==> !occurs_at(text, pattern, k),
            None => forall|k: int| s <= k ==> !occurs_at(text, pattern, k),
        },
    decreases room(text, s),
{
    let table = bad_char_table(pattern);
    if window_fits(text, pattern, s) {
        lemma_window_mismatch(text, pattern, s);
        lemma_shifts_skip_no_occurrence(text, pattern, s);
        match window_mismatch(text, pattern, s) {
            Some(j) => {
                lemma_shift_find_is_first(text, pattern, s + mismatch_shift(text, table, s, j));
            },
            None => {},
        }
    }
}

/// The shift loop reports its first offset, and then what it reports when it starts
/// after that offset, [`match_shift`] further right.
pub proof fn lemma_shift_scan_by_finds(text: Seq<u8>, pattern: Seq<u8>, table: Seq<int>, s: int)
    ensures
        shift_scan(text, pattern, table, s) == match shift_find(text, pattern, table, s) {
            Some(p) => seq![p] + shift_scan(
                text,
                pattern,
                table,
                p + match_shift(text, pattern.len() as int, table, p),
            ),
            None => Seq::empty(),
        },
    decreases room(text, s),
{
    if window_fits(text, pattern, s) {
        match window_mismatch(text, pattern, s) {
            Some(j) => {
                lemma_shift_scan_by_finds(
                    text,
                    pattern,
                    table,
                    s + mismatch_shift(text, table, s, j),
                );
            },
            None => {},
        }
    }
}

/// Whatever the table holds, the shift loop reports occurrences only, none of them
/// before its start, and in strictly increasing order.
pub proof fn lemma_shift_scan_reports_occurrences(
    text: Seq<u8>,
    pattern: Seq<u8>,
    table: Seq<int>,
    s: int,
)
    ensures
        forall|i: int|
            0 <= i < shift_scan(text, pattern, table, s).len() ==> {
                &&& s <= #[trigger] shift_scan(text, pattern, table, s)[i]
                &&& occurs_at(text, pattern, shift_scan(text, pattern, table, s)[i])
            },
        forall|i: int, j: int|
            0 <= i < j < shift_scan(text, pattern, table, s).len() ==> shift_scan(
                text,
                pattern,
                table,
                s,
            )[i] < shift_scan(text, pattern, table, s)[j],
    decreases room(text, s),
{
    if window_fits(text, pattern, s) {
        lemma_window_mismatch(text, pattern, s);
        let all = shift_scan(text, pattern, table, s);
        match window_mismatch(text, pattern, s) {
            Some(j) => {
                let next = s + mismatch_shift(text, table, s, j);
                let rest = shift_scan(text, pattern, table, next);
                lemma_shift_scan_reports_occurrences(text, pattern, table, next);
                assert(all == rest);
                assert forall|i: int| 0 <= i < all.len() implies s <= #[trigger] all[i]
                    && occurs_at(text, pattern, all[i]) by {
                    assert(next <= rest[i]);
                }
            },
            None => {
                let next = s + match_shift(text, pattern.len() as int, table, s);
                let rest = shift_scan(text, pattern, table, next);
                lemma_shift_scan_reports_occurrences(text, pattern, table, next);
                assert(all == seq![s] + rest);
                assert forall|i: int| 0 <= i < all.len() implies s <= #[trigger] all[i]
                    && occurs_at(text, pattern, all[i]) by {
                    if i > 0 {
                        assert(all[i] == rest[i - 1]);
                        assert(next <= rest[i - 1]);
                    }
                }
                assert forall|i: int, j: int| 0 <= i < j < all.len() implies all[i] < all[j] by {
                    assert(all[j] == rest[j - 1]);
                    assert(next <= rest[j - 1]);
                    if i > 0 {
                        assert(all[i] == rest[i - 1]);
                    }
                }
            },
        }
    }
}

/// With the table of the pattern, the occurrences before a window and what the shift
/// loop reports from that window on are together all the occurrences there are.
pub proof fn lemma_shift_scan_completes(text: Seq<u8>, pattern: Seq<u8>, s: int)
    requires
        0 <= s,
    ensures
        occurrences_below(text, pattern, s) + shift_scan(
            text,
            pattern,
            bad_char_table(pattern),
            s,
        ) == occurrences(text, pattern),
    decreases room(text, s),
{
    let table = bad_char_table(pattern);
    let n = text.len() as int;
    let before = occurrences_below(text, pattern, s);
    if !window_fits(text, pattern, s) {
        if s <= n {
            lemma_no_occurrence_between(text, pattern, s, n);
        } else {
            lemma_no_occurrence_between(text, pattern, n, s);
        }
        assert(before + Seq::<int>::empty() =~= before);
    } else {
        lemma_window_mismatch(text, pattern, s);
        lemma_shifts_skip_no_occurrence(text, pattern, s);
        match window_mismatch(text, pattern, s) {
            Some(j) => {
                let next = s + mismatch_shift(text, table, s, j);
                lemma_no_occurrence_between(text, pattern, s, next);
                lemma_shift_scan_completes(text, pattern, next);
            },
            None => {
                let next = s + match_shift(text, pattern.len() as int, table, s);
                let rest = shift_scan(text, pattern, table, next);
                lemma_no_occurrence_between(text, pattern, s + 1, next);
                lemma_shift_scan_completes(text, pattern, next);
                assert(before + (seq![s] + rest) =~= before.push(s) + rest);
            },
        }
    }
}

/// The shift loop agrees with the exhaustive search: with the table of the pattern
/// it reports, for any text and any pattern, the offsets at which the pattern
/// occurs, each once and in increasing order.
pub proof fn lemma_shift_scan_finds_all(text: Seq<u8>, pattern: Seq<u8>)
    ensures
        shift_scan(text, pattern, bad_char_table(pattern), 0) == occurrences(text, pattern),
        forall|s: int|
            shift_scan(text, pattern, bad_char_table(pattern), 0).contains(s) <==> occurs_at(
                text,
                pattern,
                s,
            ),
{
    lemma_shift_scan_completes(text, pattern, 0);
    lemma_occurrences_are_all_matches(text, pattern);
    assert(Seq::<int>::empty() + shift_scan(text, pattern, bad_char_table(pattern), 0)
        =~= shift_scan(text, pattern, bad_char_table(pattern), 0));
}

/// An empty pattern, an empty text and a pattern longer than the text each leave
/// nothing to find and nothing to report, whatever the table holds.
pub proof fn lemma_degenerate_inputs(text: Seq<u8>, pattern: Seq<u8>, table: Seq<int>)
    requires
        pattern.len() == 0 || text.len() == 0 || pattern.len() > text.len(),
    ensures
        occurrences(text, pattern) == Seq::<int>::empty(),
        shift_scan(text, pattern, table, 0) == Seq::<int>::empty(),
{
    lemma_no_occurrence_between(text, pattern, 0, text.len() as int);
}

/// A scan is repeatable: two lists of offsets that both hold what the shift loop
/// reports for one text, one pattern and one table are the same list.
pub proof fn lemma_scan_is_repeatable(
    text: Seq<u8>,
    pattern: Seq<u8>,
    table: Seq<int>,
    first: Seq<usize>,
    second: Seq<usize>,
)
    requires
        positions(first) == shift_scan(text, pattern, table, 0),
        positions(second) == shift_scan(text, pattern, table, 0),
    ensures
        first == second,
{
    assert(first.len() == positions(first).len());
    assert(second.len() == positions(second).len());
    assert forall|i: int| 0 <= i < first.len() implies first[i] == second[i] by {
        assert(positions(first)[i] == first[i] as int);
        assert(positions(second)[i] == second[i] as int);
    }
    assert(first =~= second);
}

} // verus!
