use nepali_transliterate::text::{
    append_chars, chars_of, split_preserving_whitespace, string_of, SegmentKind,
};

fn chars(s: &str) -> Vec<char> {
    s.chars().collect()
}

#[test]
fn chars_of_lists_the_characters() {
    assert_eq!(chars_of("कa\u{94d} "), vec!['क', 'a', '\u{94d}', ' ']);
    assert_eq!(chars_of(""), Vec::<char>::new());
    assert_eq!(chars_of("nepāl").len(), 5);
}

#[test]
fn string_of_joins_the_characters() {
    assert_eq!(string_of(&vec!['n', 'e', 'p', 'ā', 'l']), "nepāl");
    assert_eq!(string_of(&vec![]), "");
    assert_eq!(string_of(&chars_of("कलमले लेखेको")), "कलमले लेखेको");
}

#[test]
fn append_chars_adds_at_the_end() {
    let mut out = chars("ab");
    append_chars(&mut out, &chars("cd"));
    assert_eq!(out, chars("abcd"));
    append_chars(&mut out, &Vec::new());
    assert_eq!(out, chars("abcd"));
}

#[test]
fn split_cuts_words_and_white_space() {
    let segs = split_preserving_whitespace(&chars("ab  c\t"));
    let seen: Vec<(SegmentKind, String)> =
        segs.iter().map(|s| (s.kind, s.text.iter().collect())).collect();
    assert_eq!(
        seen,
        vec![
            (SegmentKind::Word, "ab".to_string()),
            (SegmentKind::Whitespace, "  ".to_string()),
            (SegmentKind::Word, "c".to_string()),
            (SegmentKind::Whitespace, "\t".to_string()),
        ]
    );
}

#[test]
fn split_of_nothing_is_nothing() {
    assert!(split_preserving_whitespace(&Vec::new()).is_empty());
}

#[test]
fn split_starting_with_white_space() {
    let segs = split_preserving_whitespace(&chars(" \n x"));
    assert_eq!(segs.len(), 2);
    assert_eq!(segs[0].kind, SegmentKind::Whitespace);
    assert_eq!(segs[0].text, chars(" \n "));
    assert_eq!(segs[1].kind, SegmentKind::Word);
    assert_eq!(segs[1].text, chars("x"));
}

#[test]
fn split_segments_join_to_the_text() {
    for line in ["", " ", "a", "kā\tli  x ", "  नेपाल \r\n kl\u{a0}m\u{200b}n "] {
        let segs = split_preserving_whitespace(&chars(line));
        let mut joined = String::new();
        let mut last: Option<SegmentKind> = None;
        for seg in segs.iter() {
            assert!(!seg.text.is_empty());
            let space = seg.kind == SegmentKind::Whitespace;
            assert!(seg.text.iter().all(|c| c.is_whitespace() == space));
            assert_ne!(last, Some(seg.kind));
            last = Some(seg.kind);
            joined.extend(seg.text.iter());
        }
        assert_eq!(joined, line);
    }
}

#[test]
fn split_knows_unicode_white_space() {
    let segs = split_preserving_whitespace(&chars("k\u{a0}l\u{200b}m\u{3000}"));
    let kinds: Vec<SegmentKind> = segs.iter().map(|s| s.kind).collect();
    assert_eq!(
        kinds,
        vec![
            SegmentKind::Word,
            SegmentKind::Whitespace,
            SegmentKind::Word,
            SegmentKind::Whitespace,
        ]
    );
    assert_eq!(segs[2].text, chars("l\u{200b}m"));
}
