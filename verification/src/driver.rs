//! What is done with the content of one file: the optional header pre-filter, then
//! a search for every keyword in turn.

use crate::header::{get_nt_header_signature, inspect, HeaderError, HeaderGateResult};
use crate::keywords::{patterns_of, Keyword};
use crate::occurrence::occurrences;
use vstd::prelude::*;

verus! {

/// Whether files pass through the header pre-filter before they are searched.
#[derive(Clone, Copy, Debug, PartialEq, Eq, Structural)]
pub enum GateMode {
    /// Every file is searched.
    Disabled,
    /// Only files whose headers are accepted are searched.
    Executables,
}

/// One occurrence of one keyword in a file.
#[derive(Clone, Copy, Debug, PartialEq, Eq, Structural)]
pub struct MatchReport {
    /// The index of the keyword in the keyword list.
    pub keyword: usize,
    /// The offset in the file at which the keyword occurs.
    pub offset: usize,
}

impl View for MatchReport {
    type V = (int, int);

    /// The index of the keyword and the offset, in this order.
    open spec fn view(&self) -> (int, int) {
        (self.keyword as int, self.offset as int)
    }
}

/// What became of one file.
#[derive(Debug)]
pub enum FileOutcome {
    /// The pre-filter rejected the file, and it was not searched.
    Skipped,
    /// The headers of the file could not be read, and it was not searched.
    Failed(HeaderError),
    /// The file was searched. `header` is what the pre-filter found where it is
    /// enabled, `matches` the occurrences of all keywords.
    Scanned { header: Option<HeaderGateResult>, matches: Vec<MatchReport> },
}

/// The occurrences of one pattern, each paired with the index of the pattern.
pub open spec fn tagged(keyword: int, offsets: Seq<int>) -> Seq<(int, int)> {
    Seq::new(offsets.len(), |i: int| (keyword, offsets[i]))
}

/// The occurrences in `text` of the first `count` patterns: those of the first
/// pattern in increasing order, then those of the second, and so on.
pub open spec fn reports_below(text: Seq<u8>, patterns: Seq<Seq<u8>>, count: int) -> Seq<
    (int, int),
>
    decreases count,
{
    if count <= 0 {
        Seq::empty()
    } else {
        reports_below(text, patterns, count - 1) + tagged(
            count - 1,
            occurrences(text, patterns[count - 1]),
        )
    }
}

/// The occurrences in `text` of all patterns, pattern by pattern.
pub open spec fn reports(text: Seq<u8>, patterns: Seq<Seq<u8>>) -> Seq<(int, int)> {
    reports_below(text, patterns, patterns.len() as int)
}

/// A list of reports as pairs of keyword index and offset.
pub open spec fn report_pairs(matches: Seq<MatchReport>) -> Seq<(int, int)> {
    Seq::new(matches.len(), |i: int| matches[i]@)
}

/// What is to become of a file with content `text`.
///
/// Without the pre-filter the file is searched. With it, a file that is rejected
/// is skipped, one whose headers cannot be read fails, and one that is accepted is
/// searched; the outcome then carries what the pre-filter found.
pub open spec fn outcome_is(
    outcome: FileOutcome,
    text: Seq<u8>,
    patterns: Seq<Seq<u8>>,
    mode: GateMode,
) -> bool {
    match mode {
        GateMode::Disabled => outcome matches FileOutcome::Scanned { header, matches }
            && header.is_none() && report_pairs(matches@) == reports(text, patterns),
        GateMode::Executables => match inspect(text) {
            Err(error) => outcome == FileOutcome::Failed(error),
            Ok(HeaderGateResult::Rejected) => outcome == FileOutcome::Skipped,
            Ok(accepted) => outcome matches FileOutcome::Scanned { header, matches } && header
                == Some(accepted) && report_pairs(matches@) == reports(text, patterns),
        },
    }
}

/// Every report names a keyword of the list and an offset at which that keyword
/// occurs in the text.
pub proof fn lemma_reports_are_occurrences(text: Seq<u8>, patterns: Seq<Seq<u8>>, count: int)
    requires
        count <= patterns.len(),
    ensures
        forall|i: int|
            0 <= i < reports_below(text, patterns, count).len() ==> {
                let (keyword, offset) = #[trigger] reports_below(text, patterns, count)[i];
                0 <= keyword < count && occurrences(text, patterns[keyword]).contains(offset)
            },
    decreases count,
{
    if count > 0 {
        lemma_reports_are_occurrences(text, patterns, count - 1);
        let before = reports_below(text, patterns, count - 1);
        let found = occurrences(text, patterns[count - 1]);
        assert forall|i: int| 0 <= i < reports_below(text, patterns, count).len() implies {
            let (keyword, offset) = #[trigger] reports_below(text, patterns, count)[i];
            0 <= keyword < count && occurrences(text, patterns[keyword]).contains(offset)
        } by {
            if i >= before.len() {
                assert(reports_below(text, patterns, count)[i] == (
                    count - 1,
                    found[i - before.len()],
                ));
            }
        }
    }
}

/// Searches `text` for every keyword, in the order of the list, and reports each
/// occurrence with the index of its keyword.
pub fn search_all(text: &[u8], keywords: &[Keyword]) -> (matches: Vec<MatchReport>)
    ensures
        report_pairs(matches@) == reports(text@, patterns_of(keywords@)),
{
    let ghost patterns = patterns_of(keywords@);
    let mut matches: Vec<MatchReport> = Vec::new();
    let mut k: usize = 0;
    proof {
        assert(report_pairs(matches@) =~= reports_below(text@, patterns, 0));
    }
    while k < keywords.len()
        invariant
            k <= keywords@.len(),
            patterns == patterns_of(keywords@),
            report_pairs(matches@) == reports_below(text@, patterns, k as int),
        decreases keywords@.len() - k,
    {
        let offsets: Vec<usize> = keywords[k].find_all(text);
        let ghost before = report_pairs(matches@);
        let ghost found = occurrences(text@, patterns[k as int]);
        let mut i: usize = 0;
        proof {
            assert(report_pairs(matches@) =~= before + tagged(k as int, found.take(0)));
        }
        while i < offsets.len()
            invariant
                i <= offsets@.len(),
                offsets@.len() == found.len(),
                forall|j: int| 0 <= j < offsets@.len() ==> offsets@[j] as int == found[j],
                report_pairs(matches@) == before + tagged(k as int, found.take(i as int)),
            decreases offsets@.len() - i,
        {
            let ghost old_matches = matches@;
            let report = MatchReport { keyword: k, offset: offsets[i] };
            matches.push(report);
            proof {
                assert(report_pairs(old_matches.push(report)) =~= (before + tagged(
                    k as int,
                    found.take(i as int),
                )).push(report@));
                assert((before + tagged(k as int, found.take(i as int))).push(report@) =~= before
                    + tagged(k as int, found.take(i + 1)));
            }
            i += 1;
        }
        proof {
            assert(found.take(i as int) =~= found);
        }
        k += 1;
    }
    matches
}

/// Decides what becomes of a file with content `text`, and searches it if it is to
/// be searched.
pub fn scan_file(text: &[u8], keywords: &[Keyword], mode: GateMode) -> (outcome: FileOutcome)
    ensures
        outcome_is(outcome, text@, patterns_of(keywords@), mode),
{
    match mode {
        GateMode::Disabled => FileOutcome::Scanned {
            header: None,
            matches: search_all(text, keywords),
        },
        GateMode::Executables => match get_nt_header_signature(text) {
            Err(error) => FileOutcome::Failed(error),
            Ok(HeaderGateResult::Rejected) => FileOutcome::Skipped,
            Ok(accepted) => FileOutcome::Scanned {
                header: Some(accepted),
                matches: search_all(text, keywords),
            },
        },
    }
}

} // verus!
