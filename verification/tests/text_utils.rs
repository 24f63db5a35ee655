use skills::text::{
    chars_of, is_whitespace, join_with_newlines, split_lines, string_of, trim_string,
};

fn lines_of(s: &str) -> Vec<String> {
    let cs = chars_of(s);
    split_lines(&cs).into_iter().map(|l| l.into_iter().collect()).collect()
}

#[test]
fn whitespace_matches_std_for_every_char() {
    for u in 0u32..=0x10FFFF {
        if let Some(c) = char::from_u32(u) {
            assert_eq!(is_whitespace(c), c.is_whitespace(), "U+{:04X}", u);
        }
    }
}

#[test]
fn trim_matches_std() {
    let samples = [
        "", "   ", "abc", "  abc", "abc  ", "\t a b \n", "\u{3000}x\u{00a0}", "\u{85}\u{2028}",
        "中文  ", "  a\u{200b}b  ",
    ];
    for s in samples {
        assert_eq!(trim_string(s), s.trim(), "{:?}", s);
    }
}

#[test]
fn lines_match_std() {
    let samples = [
        "", "\n", "a", "a\n", "a\nb", "a\r\nb\r\n", "a\r", "\r", "a\n\nb", "a\n\n", "x\ry\n",
        "\r\n\r\n",
    ];
    for s in samples {
        let expected: Vec<String> = s.lines().map(|l| l.to_string()).collect();
        assert_eq!(lines_of(s), expected, "{:?}", s);
    }
}

#[test]
fn join_with_newlines_joins() {
    let ls = vec!["a".to_string(), "".to_string(), "bc".to_string()];
    assert_eq!(join_with_newlines(&ls), "a\n\nbc");
    assert_eq!(join_with_newlines(&vec!["".to_string()]), "");
    assert_eq!(join_with_newlines(&Vec::new()), "");
}

#[test]
fn chars_and_strings_round_trip() {
    let cs = chars_of("héllo 世界");
    assert_eq!(cs.len(), 8);
    assert_eq!(string_of(&cs, 0, cs.len()), "héllo 世界");
    assert_eq!(string_of(&cs, 1, 5), "éllo");
}
