use boyer_moore::keywords::{parse_keywords, Keyword, CARRIAGE_RETURN, LINE_FEED};

fn patterns(content: &[u8]) -> Vec<Vec<u8>> {
    parse_keywords(content).iter().map(|k| k.bytes().to_vec()).collect()
}

fn list(items: &[&[u8]]) -> Vec<Vec<u8>> {
    items.iter().map(|item| item.to_vec()).collect()
}

#[test]
fn line_terminators_are_the_usual_bytes() {
    assert_eq!(LINE_FEED, b'\n');
    assert_eq!(CARRIAGE_RETURN, b'\r');
}

#[test]
fn each_line_is_a_keyword() {
    assert_eq!(patterns(b"abc\ndef\nghi\n"), list(&[b"abc", b"def", b"ghi"]));
}

#[test]
fn last_line_needs_no_terminator() {
    assert_eq!(patterns(b"abc\ndef"), list(&[b"abc", b"def"]));
    assert_eq!(patterns(b"abc"), list(&[b"abc"]));
}

#[test]
fn empty_content_has_no_keywords() {
    assert_eq!(patterns(b""), Vec::<Vec<u8>>::new());
}

#[test]
fn carriage_return_before_line_feed_is_stripped() {
    assert_eq!(patterns(b"abc\r\ndef\r\n"), list(&[b"abc", b"def"]));
    assert_eq!(patterns(b"\r\n"), list(&[b""]));
}

#[test]
fn only_one_carriage_return_is_stripped() {
    assert_eq!(patterns(b"abc\r\r\ndef"), list(&[b"abc\r", b"def"]));
}

#[test]
fn carriage_return_elsewhere_is_kept() {
    assert_eq!(patterns(b"a\rb\nc\r"), list(&[b"a\rb", b"c\r"]));
    assert_eq!(patterns(b"\r"), list(&[b"\r"]));
}

#[test]
fn blank_lines_are_empty_keywords() {
    assert_eq!(patterns(b"a\n\nb\n"), list(&[b"a", b"", b"b"]));
    assert_eq!(patterns(b"\n"), list(&[b""]));
    assert_eq!(patterns(b"\n\n\n"), list(&[b"", b"", b""]));
    assert_eq!(patterns(b"\na"), list(&[b"", b"a"]));
}

#[test]
fn keywords_may_hold_any_bytes() {
    assert_eq!(patterns(b"\x00\xff\n\x80\x81"), list(&[b"\x00\xff", b"\x80\x81"]));
    assert_eq!(patterns("é\n€".as_bytes()), list(&["é".as_bytes(), "€".as_bytes()]));
}

#[test]
fn keywords_agree_with_lines_of_the_standard_library() {
    let contents = ["", "a", "a\n", "a\nb", "a\r\nb\r\n", "\n\n", "x\r", "one\ntwo\r\n\r\nthree"];
    for content in contents {
        let expected: Vec<Vec<u8>> = content.lines().map(|l| l.as_bytes().to_vec()).collect();
        let expected = if content.ends_with('\r') {
            std::io::BufRead::lines(content.as_bytes())
                .map(|l| l.unwrap().into_bytes())
                .collect()
        } else {
            expected
        };
        assert_eq!(patterns(content.as_bytes()), expected);
    }
}

#[test]
fn keyword_keeps_its_bytes() {
    let keyword = Keyword::new(b"needle".to_vec());
    assert_eq!(keyword.bytes(), b"needle");
    assert_eq!(keyword.len(), 6);
    assert!(!keyword.is_empty());
}

#[test]
fn empty_keyword_is_empty() {
    let keyword = Keyword::new(Vec::new());
    assert_eq!(keyword.bytes(), b"");
    assert_eq!(keyword.len(), 0);
    assert!(keyword.is_empty());
}

#[test]
fn keyword_carries_the_table_of_its_pattern() {
    let keyword = Keyword::new(b"abcab".to_vec());
    assert_eq!(keyword.table().get(b'a'), Some(3));
    assert_eq!(keyword.table().get(b'b'), Some(4));
    assert_eq!(keyword.table().get(b'c'), Some(2));
    assert_eq!(keyword.table().get(b'd'), None);
}

#[test]
fn keyword_finds_all_its_occurrences() {
    let keyword = Keyword::new(b"aa".to_vec());
    assert_eq!(keyword.find_all(b"aaaa"), vec![0, 1, 2]);
    assert_eq!(keyword.find_all(b"baab"), vec![1]);
    assert_eq!(keyword.find_all(b"a"), Vec::<usize>::new());
    assert_eq!(keyword.find_all(b""), Vec::<usize>::new());
}

#[test]
fn empty_keyword_occurs_nowhere() {
    let keyword = Keyword::new(Vec::new());
    assert_eq!(keyword.find_all(b"anything"), Vec::<usize>::new());
    assert_eq!(keyword.find_all(b""), Vec::<usize>::new());
}
