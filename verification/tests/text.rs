use changelog::text::{blank, decimal, join, lines, same};

fn strings(parts: &[&str]) -> Vec<String> {
    parts.iter().map(|p| p.to_string()).collect()
}

#[test]
fn lines_are_cut_at_line_feeds() {
    assert_eq!(lines(""), Vec::<String>::new());
    assert_eq!(lines("a"), strings(&["a"]));
    assert_eq!(lines("a\n"), strings(&["a"]));
    assert_eq!(lines("a\nb"), strings(&["a", "b"]));
    assert_eq!(lines("\n"), strings(&[""]));
    assert_eq!(lines("\n\n"), strings(&["", ""]));
    assert_eq!(lines("a\r\nb\r\n"), strings(&["a", "b"]));
    assert_eq!(lines("a\rb\r"), strings(&["a\rb\r"]));
    assert_eq!(lines("a\r\r\nb"), strings(&["a\r", "b"]));
    assert_eq!(lines("\r\n"), strings(&[""]));
    for text in ["", "a", "a\n", "\n\na\r\n\r\nb\r", "é\nü\r\n", "\r", "a\n\r"] {
        let expected: Vec<String> = text.lines().map(String::from).collect();
        assert_eq!(lines(text), expected, "{:?}", text);
    }
}

#[test]
fn parts_are_joined_with_the_separator() {
    assert_eq!(join(&strings(&[]), 0, ", "), "");
    assert_eq!(join(&strings(&["a"]), 0, ", "), "a");
    assert_eq!(join(&strings(&["a", "b", "c"]), 0, ", "), "a, b, c");
    assert_eq!(join(&strings(&["a", "b", "c"]), 1, ", "), "b, c");
    assert_eq!(join(&strings(&["a", "b", "c"]), 3, ", "), "");
    assert_eq!(join(&strings(&["", "", ""]), 0, "-"), "--");
}

#[test]
fn numbers_in_decimal() {
    for n in [0usize, 1, 9, 10, 11, 99, 100, 101, 12345, 4294967295, usize::MAX] {
        assert_eq!(decimal(n), n.to_string());
    }
}

#[test]
fn blank_texts() {
    assert!(blank(""));
    assert!(blank(" \t\r\n\u{b}\u{c}\u{85}\u{a0}\u{1680}\u{2000}\u{200a}\u{2028}\u{2029}\u{202f}\u{205f}\u{3000}"));
    assert!(!blank(" a "));
    assert!(!blank("\u{200b}"));
    assert!(!blank("\u{1c}"));
    for code in 0..0x3100u32 {
        if let Some(c) = char::from_u32(code) {
            assert_eq!(blank(&c.to_string()), c.is_whitespace(), "{:x}", code);
        }
    }
}

#[test]
fn same_texts() {
    assert!(same("", ""));
    assert!(same("abc", "abc"));
    assert!(!same("abc", "abd"));
    assert!(!same("abc", "ab"));
    assert!(!same("", "a"));
}
