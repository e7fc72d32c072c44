use raster3d::text::{is_space_char, parse_i16, token_spans};

fn parse(s: &str) -> Option<i16> {
    parse_i16(s, 0, s.chars().count())
}

#[test]
fn parses_signed_integers() {
    assert_eq!(parse("42"), Some(42));
    assert_eq!(parse("+7"), Some(7));
    assert_eq!(parse("-7"), Some(-7));
    assert_eq!(parse("007"), Some(7));
    assert_eq!(parse("32767"), Some(32767));
    assert_eq!(parse("-32768"), Some(-32768));
    assert_eq!(parse("0000000000000000000001"), Some(1));
}

#[test]
fn rejects_what_std_rejects() {
    for s in ["", "-", "+", "32768", "-32769", "1x", " 1", "1.0", "--1", "99999999999"] {
        assert_eq!(parse(s), s.parse::<i16>().ok(), "{s}");
    }
}

#[test]
fn parses_a_slice_of_the_text() {
    assert_eq!(parse_i16("f 12 3", 2, 4), Some(12));
}

#[test]
fn spans_match_split_whitespace() {
    for s in ["", "   ", "a", " a  bc\td ", "x\u{2003}y\u{85}z", "é ü"] {
        let spans = token_spans(s, 0);
        let chars: Vec<char> = s.chars().collect();
        let got: Vec<String> = spans.iter().map(|&(a, b)| chars[a..b].iter().collect()).collect();
        let want: Vec<String> = s.split_whitespace().map(|t| t.to_string()).collect();
        assert_eq!(got, want, "{s:?}");
    }
}

#[test]
fn spans_start_where_asked() {
    assert_eq!(token_spans("f1 2", 1), vec![(1, 2), (3, 4)]);
}

#[test]
fn whitespace_matches_std() {
    for c in ['\t', '\n', ' ', '\u{85}', '\u{a0}', '\u{2028}', '\u{3000}', 'a', '0', '\u{200b}'] {
        assert_eq!(is_space_char(c), c.is_whitespace(), "{c:?}");
    }
}
