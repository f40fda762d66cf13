//! The bad-character heuristic: for each byte value, where it last occurs in a pattern.

use vstd::prelude::*;

verus! {

/// Size of the byte alphabet, and so of every table.
pub const NO_OF_CHARS: usize = 256;

/// What a table holds for a byte that the pattern does not contain.
pub const ABSENT: i64 = -1;

/// The largest index at which `b` occurs in `pattern`, or [`ABSENT`] where it occurs nowhere.
pub open spec fn last_index_of(pattern: Seq<u8>, b: u8) -> int
    decreases pattern.len(),
{
    if pattern.len() == 0 {
        ABSENT as int
    } else if pattern.last() == b {
        pattern.len() - 1
    } else {
        last_index_of(pattern.drop_last(), b)
    }
}

/// The table of `pattern`: entry `b` is the last index of byte `b`.
pub open spec fn bad_char_table(pattern: Seq<u8>) -> Seq<int> {
    Seq::new(NO_OF_CHARS as nat, |b: int| last_index_of(pattern, b as u8))
}

/// How far the bad-character rule moves the window when the text byte aligned with
/// pattern position `pos` last occurs in the pattern at `last`: `max(1, pos - last)`.
pub open spec fn bad_char_shift(pos: int, last: int) -> int {
    if pos - last > 1 {
        pos - last
    } else {
        1
    }
}

/// `k` is the largest index at which `b` occurs in `pattern`, or it is [`ABSENT`] and
/// `b` occurs nowhere in `pattern`.
pub open spec fn is_last_index_of(pattern: Seq<u8>, b: u8, k: int) -> bool {
    &&& ABSENT <= k < pattern.len()
    &&& k != ABSENT ==> pattern[k] == b
    &&& forall|i: int| k < i < pattern.len() ==> pattern[i] != b
}

/// `last_index_of` is what its name says: it lies in the pattern or is [`ABSENT`],
/// the pattern holds `b` there, and `b` occurs nowhere to the right of it. In
/// particular it is [`ABSENT`] exactly when `b` does not occur in the pattern at all.
pub proof fn lemma_last_index_of(pattern: Seq<u8>, b: u8)
    ensures
        is_last_index_of(pattern, b, last_index_of(pattern, b)),
    decreases pattern.len(),
{
    if pattern.len() > 0 && pattern.last() != b {
        let shorter = pattern.drop_last();
        lemma_last_index_of(shorter, b);
        assert forall|i: int| last_index_of(pattern, b) < i < pattern.len() implies pattern[i]
            != b by {
            if i < shorter.len() {
                assert(shorter[i] == pattern[i]);
            }
        }
        if last_index_of(pattern, b) != ABSENT {
            assert(shorter[last_index_of(shorter, b)] == pattern[last_index_of(pattern, b)]);
        }
    }
}

/// Only one index is the last index of a byte: the table of a pattern is determined
/// by the pattern.
pub proof fn lemma_last_index_of_unique(pattern: Seq<u8>, b: u8, k: int)
    requires
        is_last_index_of(pattern, b, k),
    ensures
        k == last_index_of(pattern, b),
{
    lemma_last_index_of(pattern, b);
}

/// Appending one byte to a pattern changes the entry of that byte alone.
pub proof fn lemma_last_index_of_push(pattern: Seq<u8>, next: u8, b: u8)
    ensures
        last_index_of(pattern.push(next), b) == if b == next {
            pattern.len() as int
        } else {
            last_index_of(pattern, b)
        },
{
    assert(pattern.push(next).drop_last() =~= pattern);
}

/// The last-occurrence table of one pattern over the byte alphabet.
pub struct BadCharTable {
    last: [Option<usize>; 256],
}

impl View for BadCharTable {
    type V = Seq<int>;

    /// The table as a sequence of `NO_OF_CHARS` entries, a byte's entry being the
    /// index recorded for it, or [`ABSENT`].
    closed spec fn view(&self) -> Seq<int> {
        Seq::new(
            NO_OF_CHARS as nat,
            |b: int|
                match self.last@[b] {
                    Some(i) => i as int,
                    None => ABSENT as int,
                },
        )
    }
}

impl BadCharTable {
    /// The table has one entry for each byte value, and no entry is below [`ABSENT`].
    pub proof fn lemma_view(&self)
        ensures
            self@.len() == NO_OF_CHARS,
            forall|b: int| 0 <= b < NO_OF_CHARS ==> ABSENT <= #[trigger] self@[b] <= usize::MAX,
    {
    }

    /// The index recorded for byte `b`, or `None` where the pattern does not hold it.
    pub fn get(&self, b: u8) -> (entry: Option<usize>)
        ensures
            match entry {
                Some(i) => self@[b as int] == i,
                None => self@[b as int] == ABSENT,
            },
    {
        self.last[b as usize]
    }

    /// The bad-character shift for a text byte `b` met at pattern position `pos`:
    /// `max(1, pos - table[b])`, computed without leaving the unsigned range.
    pub fn shift_for(&self, pos: usize, b: u8) -> (shift: usize)
        requires
            pos < usize::MAX,
        ensures
            shift == bad_char_shift(pos as int, self@[b as int]),
            1 <= shift <= pos + 1,
    {
        match self.last[b as usize] {
            Some(last) => if pos > last {
                pos - last
            } else {
                1
            },
            None => pos + 1,
        }
    }
}

/// Builds the bad-character table of `pattern`: every entry starts out absent, and
/// one pass from left to right records each index under the byte found there, so
/// that a later occurrence replaces an earlier one.
pub fn bad_char_heuristic(pattern: &[u8]) -> (table: BadCharTable)
    ensures
        table@ == bad_char_table(pattern@),
        forall|b: u8| is_last_index_of(pattern@, b, #[trigger] table@[b as int]),
{
    let mut last: [Option<usize>; 256] = [None; 256];
    let mut i: usize = 0;
    while i < pattern.len()
        invariant
            i <= pattern.len(),
            forall|b: u8|
                (match #[trigger] last@[b as int] {
                    Some(k) => k as int,
                    None => ABSENT as int,
                }) == last_index_of(pattern@.take(i as int), b),
        decreases pattern.len() - i,
    {
        let byte: u8 = pattern[i];
        proof {
            let seen = pattern@.take(i as int);
            assert(pattern@.take(i + 1) =~= seen.push(byte));
            assert forall|b: u8|
                (match #[trigger] last@.update(byte as int, Some(i))[b as int] {
                    Some(k) => k as int,
                    None => ABSENT as int,
                }) == last_index_of(seen.push(byte), b) by {
                lemma_last_index_of_push(seen, byte, b);
            }
        }
        last[byte as usize] = Some(i);
        i += 1;
    }
    let table = BadCharTable { last };
    proof {
        assert(pattern@.take(i as int) =~= pattern@);
        assert forall|b: int| 0 <= b < NO_OF_CHARS implies table@[b] == bad_char_table(
            pattern@,
        )[b] by {
            let byte = b as u8;
            assert(table@[b] == match last@[byte as int] {
                Some(k) => k as int,
                None => ABSENT as int,
            });
        }
        assert(table@ =~= bad_char_table(pattern@));
        assert forall|b: u8| is_last_index_of(pattern@, b, #[trigger] table@[b as int]) by {
            lemma_last_index_of(pattern@, b);
        }
    }
    table
}

} // verus!
