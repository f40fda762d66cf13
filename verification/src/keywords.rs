//! The keyword list: one pattern per line, each kept together with its table.

use crate::bad_char::{bad_char_heuristic, bad_char_table, BadCharTable};
use crate::matcher::scan;
use crate::occurrence::{occurrences, positions};
use crate::shift_loop::shift_scan;
use vstd::prelude::*;

verus! {

/// The byte that ends a line.
pub const LINE_FEED: u8 = 10;

/// The byte that may stand before a line feed and then belongs to the line's end.
pub const CARRIAGE_RETURN: u8 = 13;

/// The bytes of `content` after its last line feed: the line that is still open.
pub open spec fn open_line(content: Seq<u8>) -> Seq<u8>
    decreases content.len(),
{
    if content.len() == 0 || content.last() == LINE_FEED {
        Seq::empty()
    } else {
        open_line(content.drop_last()).push(content.last())
    }
}

/// `line` without the carriage return at its end, if it has one there.
pub open spec fn without_carriage_return(line: Seq<u8>) -> Seq<u8> {
    if line.len() > 0 && line.last() == CARRIAGE_RETURN {
        line.drop_last()
    } else {
        line
    }
}

/// The lines of `content` that a line feed ends, in order, each without its line
/// feed and without a carriage return just before it.
pub open spec fn closed_lines(content: Seq<u8>) -> Seq<Seq<u8>>
    decreases content.len(),
{
    if content.len() == 0 {
        Seq::empty()
    } else if content.last() == LINE_FEED {
        closed_lines(content.drop_last()).push(
            without_carriage_return(open_line(content.drop_last())),
        )
    } else {
        closed_lines(content.drop_last())
    }
}

/// The lines of `content`: those that a line feed ends, and then what stands after
/// the last line feed, unless nothing stands there. A blank line is an empty
/// pattern.
pub open spec fn lines(content: Seq<u8>) -> Seq<Seq<u8>> {
    if open_line(content).len() > 0 {
        closed_lines(content).push(open_line(content))
    } else {
        closed_lines(content)
    }
}

/// The open line holds no line feed.
pub proof fn lemma_open_line_holds_no_line_feed(content: Seq<u8>)
    ensures
        forall|j: int| 0 <= j < open_line(content).len() ==> open_line(content)[j] != LINE_FEED,
    decreases content.len(),
{
    if content.len() > 0 && content.last() != LINE_FEED {
        let shorter = open_line(content.drop_last());
        lemma_open_line_holds_no_line_feed(content.drop_last());
        assert forall|j: int| 0 <= j < open_line(content).len() implies open_line(content)[j]
            != LINE_FEED by {
            if j < shorter.len() {
                assert(open_line(content)[j] == shorter[j]);
            }
        }
    }
}

/// No line holds a line feed.
pub proof fn lemma_lines_hold_no_line_feed(content: Seq<u8>)
    ensures
        forall|i: int, j: int|
            0 <= i < closed_lines(content).len() && 0 <= j < closed_lines(content)[i].len()
                ==> closed_lines(content)[i][j] != LINE_FEED,
        forall|i: int, j: int|
            0 <= i < lines(content).len() && 0 <= j < lines(content)[i].len() ==> lines(
                content,
            )[i][j] != LINE_FEED,
    decreases content.len(),
{
    lemma_open_line_holds_no_line_feed(content);
    if content.len() > 0 {
        let shorter = content.drop_last();
        lemma_lines_hold_no_line_feed(shorter);
        lemma_open_line_holds_no_line_feed(shorter);
        assert forall|i: int, j: int|
            0 <= i < closed_lines(content).len() && 0 <= j < closed_lines(
                content,
            )[i].len() implies closed_lines(content)[i][j] != LINE_FEED by {
            if i < closed_lines(shorter).len() {
                assert(closed_lines(content)[i] == closed_lines(shorter)[i]);
            } else {
                let line = open_line(shorter);
                assert(closed_lines(content)[i] == without_carriage_return(line));
                assert(without_carriage_return(line)[j] == line[j]);
            }
        }
    }
    assert forall|i: int, j: int|
        0 <= i < lines(content).len() && 0 <= j < lines(content)[i].len() implies lines(
            content,
        )[i][j] != LINE_FEED by {
        if i < closed_lines(content).len() {
            assert(lines(content)[i] == closed_lines(content)[i]);
        }
    }
}

/// Content without a line feed is one line, and no line at all if it is empty.
pub proof fn lemma_lines_of_one_line(content: Seq<u8>)
    requires
        forall|i: int| 0 <= i < content.len() ==> content[i] != LINE_FEED,
    ensures
        open_line(content) == content,
        closed_lines(content) == Seq::<Seq<u8>>::empty(),
        lines(content) == if content.len() > 0 {
            seq![content]
        } else {
            Seq::<Seq<u8>>::empty()
        },
    decreases content.len(),
{
    if content.len() > 0 {
        lemma_lines_of_one_line(content.drop_last());
        assert(content.drop_last().push(content.last()) =~= content);
        assert(Seq::<Seq<u8>>::empty().push(content) =~= seq![content]);
    }
}

/// The lines of a text can be read off from its front: where `first` holds no line
/// feed, the lines of `first`, a line feed and `rest` are `first` without the
/// carriage return at its end, and then the lines of `rest`.
pub proof fn lemma_lines_from_the_front(first: Seq<u8>, rest: Seq<u8>)
    requires
        forall|i: int| 0 <= i < first.len() ==> first[i] != LINE_FEED,
    ensures
        open_line(first + seq![LINE_FEED] + rest) == open_line(rest),
        closed_lines(first + seq![LINE_FEED] + rest) == seq![without_carriage_return(first)]
            + closed_lines(rest),
        lines(first + seq![LINE_FEED] + rest) == seq![without_carriage_return(first)] + lines(
            rest,
        ),
    decreases rest.len(),
{
    let content = first + seq![LINE_FEED] + rest;
    let head = seq![without_carriage_return(first)];
    if rest.len() == 0 {
        lemma_lines_of_one_line(first);
        assert(content.drop_last() =~= first);
        assert(closed_lines(content) =~= head + closed_lines(rest));
    } else {
        lemma_lines_from_the_front(first, rest.drop_last());
        assert(content.drop_last() =~= first + seq![LINE_FEED] + rest.drop_last());
        assert(content.last() == rest.last());
        if rest.last() == LINE_FEED {
            assert(closed_lines(content) =~= head + closed_lines(rest));
        }
    }
    assert(lines(content) =~= head + lines(rest));
}

/// A pattern together with its bad-character table, which is built once and used
/// for every text that is searched for the pattern.
pub struct Keyword {
    bytes: Vec<u8>,
    table: BadCharTable,
}

impl View for Keyword {
    type V = Seq<u8>;

    /// The bytes of the pattern.
    closed spec fn view(&self) -> Seq<u8> {
        self.bytes@
    }
}

impl Keyword {
    #[verifier::type_invariant]
    spec fn table_fits(self) -> bool {
        self.table@ == bad_char_table(self.bytes@)
    }

    /// Makes a keyword of `bytes` and builds its table.
    pub fn new(bytes: Vec<u8>) -> (keyword: Keyword)
        ensures
            keyword@ == bytes@,
    {
        let table = bad_char_heuristic(bytes.as_slice());
        Keyword { bytes, table }
    }

    /// The bytes of the pattern.
    pub fn bytes(&self) -> (bytes: &[u8])
        ensures
            bytes@ == self@,
    {
        self.bytes.as_slice()
    }

    /// The table of the pattern.
    pub fn table(&self) -> (table: &BadCharTable)
        ensures
            table@ == bad_char_table(self@),
    {
        proof {
            use_type_invariant(self);
        }
        &self.table
    }

    /// The length of the pattern in bytes.
    pub fn len(&self) -> (len: usize)
        ensures
            len == self@.len(),
    {
        self.bytes.len()
    }

    /// Tells whether the pattern is empty. An empty pattern occurs nowhere.
    pub fn is_empty(&self) -> (empty: bool)
        ensures
            empty == (self@.len() == 0),
    {
        self.bytes.len() == 0
    }

    /// All occurrences of the pattern in `text`, in increasing order.
    pub fn find_all(&self, text: &[u8]) -> (offsets: Vec<usize>)
        ensures
            positions(offsets@) == occurrences(text@, self@),
            positions(offsets@) == shift_scan(text@, self@, bad_char_table(self@), 0),
            self@.len() == 0 || text@.len() == 0 || self@.len() > text@.len() ==> offsets@.len()
                == 0,
    {
        proof {
            use_type_invariant(self);
        }
        scan(text, self.bytes.as_slice(), &self.table)
    }
}

/// The patterns of a list of keywords.
pub open spec fn patterns_of(keywords: Seq<Keyword>) -> Seq<Seq<u8>> {
    Seq::new(keywords.len(), |i: int| keywords[i]@)
}

/// Reads a keyword list: each line of `content` becomes one keyword, in order, the
/// blank lines too.
pub fn parse_keywords(content: &[u8]) -> (keywords: Vec<Keyword>)
    ensures
        patterns_of(keywords@) == lines(content@),
{
    let mut keywords: Vec<Keyword> = Vec::new();
    let mut line: Vec<u8> = Vec::new();
    let mut i: usize = 0;
    proof {
        assert(patterns_of(keywords@) =~= closed_lines(content@.take(0)));
    }
    while i < content.len()
        invariant
            i <= content.len(),
            patterns_of(keywords@) == closed_lines(content@.take(i as int)),
            line@ == open_line(content@.take(i as int)),
        decreases content.len() - i,
    {
        let byte: u8 = content[i];
        proof {
            assert(content@.take(i + 1).drop_last() =~= content@.take(i as int));
        }
        if byte == LINE_FEED {
            let end: usize = line.len();
            if end > 0 && line[end - 1] == CARRIAGE_RETURN {
                line.pop();
            }
            let ghost before = keywords@;
            let keyword = Keyword::new(line);
            keywords.push(keyword);
            line = Vec::new();
            proof {
                assert(patterns_of(before.push(keyword)) =~= patterns_of(before).push(keyword@));
            }
        } else {
            line.push(byte);
        }
        i += 1;
    }
    proof {
        assert(content@.take(i as int) =~= content@);
    }
    if line.len() > 0 {
        let ghost before = keywords@;
        let keyword = Keyword::new(line);
        keywords.push(keyword);
        proof {
            assert(patterns_of(before.push(keyword)) =~= patterns_of(before).push(keyword@));
        }
    }
    keywords
}

} // verus!
