use c4e5chess::text::{join_texts, parse_i16, parse_u64, split_words, text_is, Separator};

#[test]
fn split_whitespace_drops_empty_words() {
    let w = split_words("  go  wtime\t1000\n", Separator::Whitespace);
    assert_eq!(w, vec!["go".to_string(), "wtime".to_string(), "1000".to_string()]);
    assert!(split_words("", Separator::Whitespace).is_empty());
    assert!(split_words(" \t ", Separator::Whitespace).is_empty());
}

#[test]
fn split_whitespace_matches_std() {
    for line in ["position startpos moves e2e4 e7e5", "\u{a0}uci\u{3000}", "a\u{2028}b", "x"] {
        let expected: Vec<String> = line.split_whitespace().map(|s| s.to_string()).collect();
        assert_eq!(split_words(line, Separator::Whitespace), expected);
    }
}

#[test]
fn split_moves_by_comma_or_space() {
    let w = split_words("e2e4,e7e5  g1f3,", Separator::CommaOrSpace);
    assert_eq!(w, vec!["e2e4".to_string(), "e7e5".to_string(), "g1f3".to_string()]);
    let tab = split_words("a\tb", Separator::CommaOrSpace);
    assert_eq!(tab, vec!["a\tb".to_string()]);
}

#[test]
fn parse_u64_like_std() {
    for s in ["0", "42", "+7", "007", "18446744073709551615", "18446744073709551616", "", "+", "-1", "1a", " 1", "99999999999999999999999"] {
        assert_eq!(parse_u64(s), s.parse::<u64>().ok(), "{s}");
    }
}

#[test]
fn parse_i16_like_std() {
    for s in ["0", "-0", "+5", "-32768", "32767", "32768", "-32769", "-", "", "12x", "-00012"] {
        assert_eq!(parse_i16(s), s.parse::<i16>().ok(), "{s}");
    }
}

#[test]
fn text_equality() {
    assert!(text_is("go", "go"));
    assert!(!text_is("go", "got"));
    assert!(!text_is("Go", "go"));
    assert!(text_is("", ""));
}

#[test]
fn join_with_separator() {
    let parts = vec!["a".to_string(), "bc".to_string(), "d".to_string()];
    assert_eq!(join_texts(&parts, 0, 3, ","), "a,bc,d");
    assert_eq!(join_texts(&parts, 1, 3, " "), "bc d");
    assert_eq!(join_texts(&parts, 2, 2, " "), "");
}
