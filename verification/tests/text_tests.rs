use cargo_furnish::text::{byte_len_of, chars_of, contains_chars, lines_of, trim_chars};

fn lines(s: &str) -> Vec<String> {
    lines_of(&chars_of(s)).iter().map(|l| l.iter().collect()).collect()
}

#[test]
fn lines_of_matches_str_lines() {
    for s in ["", "a", "a\n", "a\nb", "a\r\nb\r\n", "\n\n", "a\r", "x\r\r\ny", "é\nü\n"] {
        let expected: Vec<String> = s.lines().map(String::from).collect();
        assert_eq!(lines(s), expected, "input {s:?}");
    }
}

#[test]
fn trim_chars_matches_str_trim() {
    for s in ["", "  a  ", "\t\r\n x \u{3000}", "\u{a0}b\u{2028}", "   "] {
        let t: String = trim_chars(&chars_of(s)).iter().collect();
        assert_eq!(t, s.trim());
    }
}

#[test]
fn contains_and_byte_len() {
    assert!(contains_chars(&chars_of("hello world"), &chars_of("o w")));
    assert!(!contains_chars(&chars_of("hello"), &chars_of("hello!")));
    assert!(contains_chars(&chars_of(""), &chars_of("")));
    assert_eq!(byte_len_of(&chars_of("aé€😀")), 1 + 2 + 3 + 4);
}
