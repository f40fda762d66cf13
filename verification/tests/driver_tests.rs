use boyer_moore::driver::{scan_file, search_all, FileOutcome, GateMode, MatchReport};
use boyer_moore::header::{HeaderError, HeaderGateResult, MachineTag};
use boyer_moore::keywords::{parse_keywords, Keyword};
use boyer_moore::matcher::bm_search;

fn executable(machine: u16, payload: &[u8]) -> Vec<u8> {
    let mut bytes = vec![0u8; 96];
    bytes[0] = b'M';
    bytes[1] = b'Z';
    bytes[60..64].copy_from_slice(&64i32.to_le_bytes());
    bytes[64..68].copy_from_slice(b"PE\0\0");
    bytes[68..70].copy_from_slice(&machine.to_le_bytes());
    bytes.extend_from_slice(payload);
    bytes
}

fn report(keyword: usize, offset: usize) -> MatchReport {
    MatchReport { keyword, offset }
}

#[test]
fn search_all_reports_keyword_by_keyword() {
    let keywords = parse_keywords(b"abc\nbc\nzzz\na");
    let matches = search_all(b"abcabc", &keywords);
    assert_eq!(
        matches,
        vec![report(0, 0), report(0, 3), report(1, 1), report(1, 4), report(3, 0), report(3, 3)]
    );
}

#[test]
fn search_all_skips_empty_keywords() {
    let keywords = parse_keywords(b"\naa\n\n");
    assert_eq!(keywords.len(), 3);
    let matches = search_all(b"aaaa", &keywords);
    assert_eq!(matches, vec![report(1, 0), report(1, 1), report(1, 2)]);
}

#[test]
fn search_all_without_keywords_reports_nothing() {
    assert_eq!(search_all(b"abcabc", &[]), Vec::<MatchReport>::new());
}

#[test]
fn search_all_in_empty_text_reports_nothing() {
    let keywords = parse_keywords(b"a\nb");
    assert_eq!(search_all(b"", &keywords), Vec::<MatchReport>::new());
}

#[test]
fn search_all_repeats_reports_of_repeated_keywords() {
    let keywords = vec![Keyword::new(b"ab".to_vec()), Keyword::new(b"ab".to_vec())];
    assert_eq!(search_all(b"xxab", &keywords), vec![report(0, 2), report(1, 2)]);
}

#[test]
fn search_all_agrees_with_single_searches() {
    let text = b"the quick brown fox jumps over the lazy dog, then the fox sleeps";
    let keywords = parse_keywords(b"the\nfox\no\nthen\ncat\n");
    let mut expected = Vec::new();
    for (i, keyword) in keywords.iter().enumerate() {
        for offset in bm_search(text, keyword.bytes()) {
            expected.push(report(i, offset));
        }
    }
    assert_eq!(search_all(text, &keywords), expected);
    assert_eq!(expected.iter().filter(|r| r.keyword == 0).count(), 4);
    assert_eq!(expected.iter().filter(|r| r.keyword == 4).count(), 0);
}

#[test]
fn file_is_searched_when_the_pre_filter_is_off() {
    let keywords = parse_keywords(b"lo\n");
    match scan_file(b"hello lol", &keywords, GateMode::Disabled) {
        FileOutcome::Scanned { header, matches } => {
            assert_eq!(header, None);
            assert_eq!(matches, vec![report(0, 3), report(0, 6)]);
        }
        other => panic!("unexpected outcome: {:?}", other),
    }
}

#[test]
fn accepted_executable_is_searched() {
    let keywords = parse_keywords(b"secret\nPE\n");
    let bytes = executable(0x8664, b"a secret in a secret");
    match scan_file(&bytes, &keywords, GateMode::Executables) {
        FileOutcome::Scanned { header, matches } => {
            assert_eq!(
                header,
                Some(HeaderGateResult::Accepted {
                    signature: 0x4550,
                    machine_tag: MachineTag::Amd64
                })
            );
            assert_eq!(matches, vec![report(0, 98), report(0, 110), report(1, 64)]);
        }
        other => panic!("unexpected outcome: {:?}", other),
    }
}

#[test]
fn rejected_file_is_skipped() {
    let keywords = parse_keywords(b"secret\n");
    let outcome = scan_file(b"a secret in plain text", &keywords, GateMode::Executables);
    assert!(matches!(outcome, FileOutcome::Skipped));
    let other_machine = executable(0x01c4, b"a secret");
    let outcome = scan_file(&other_machine, &keywords, GateMode::Executables);
    assert!(matches!(outcome, FileOutcome::Skipped));
    let mut other_signature = executable(0x8664, b"a secret");
    other_signature[64] = b'N';
    let outcome = scan_file(&other_signature, &keywords, GateMode::Executables);
    assert!(matches!(outcome, FileOutcome::Skipped));
}

#[test]
fn truncated_executable_fails_and_is_not_searched() {
    let keywords = parse_keywords(b"MZ\n");
    let bytes = executable(0x8664, b"");
    let outcome = scan_file(&bytes[..40], &keywords, GateMode::Executables);
    assert!(matches!(outcome, FileOutcome::Failed(HeaderError::DosHeaderTruncated)));
    let outcome = scan_file(&bytes[..66], &keywords, GateMode::Executables);
    assert!(matches!(outcome, FileOutcome::Failed(HeaderError::NtHeaderOutOfBounds)));
}

#[test]
fn failure_of_one_file_leaves_the_next_untouched() {
    let keywords = parse_keywords(b"MZ\n");
    let good = executable(0x014c, b"MZ");
    let outcomes = [
        scan_file(&good[..40], &keywords, GateMode::Executables),
        scan_file(&good, &keywords, GateMode::Executables),
    ];
    assert!(matches!(outcomes[0], FileOutcome::Failed(_)));
    match &outcomes[1] {
        FileOutcome::Scanned { header, matches } => {
            assert_eq!(
                *header,
                Some(HeaderGateResult::Accepted {
                    signature: 0x4550,
                    machine_tag: MachineTag::I386
                })
            );
            assert_eq!(*matches, vec![report(0, 0), report(0, 96)]);
        }
        other => panic!("unexpected outcome: {:?}", other),
    }
}

#[test]
fn any_file_is_searched_without_the_pre_filter() {
    let keywords = parse_keywords(b"MZ\n");
    let bytes = executable(0x8664, b"");
    match scan_file(&bytes[..40], &keywords, GateMode::Disabled) {
        FileOutcome::Scanned { header, matches } => {
            assert_eq!(header, None);
            assert_eq!(matches, vec![report(0, 0)]);
        }
        other => panic!("unexpected outcome: {:?}", other),
    }
}
