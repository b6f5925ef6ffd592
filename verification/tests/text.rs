use iran_route::text::{
    contains_text, find_chars, lines_chars, same_text, split_once_chars, to_chars, to_text,
    trim_chars, without_char, CharClass,
};

fn trimmed(s: &str, k: CharClass) -> String {
    to_text(trim_chars(&to_chars(s), k))
}

fn lines_of(s: &str) -> Vec<String> {
    lines_chars(&to_chars(s)).iter().map(|l| to_text(l)).collect()
}

#[test]
fn trims_as_the_standard_library_does() {
    for s in ["", "  a b \t", "\r\n", "x", "\u{a0}\u{2003}y\u{3000}\u{85}", "\u{200b}z\u{feff}", "\u{1680}q\u{205f}"] {
        assert_eq!(trimmed(s, CharClass::WhiteSpace), s.trim());
    }
    for s in ["", "\0", "\0\0ab\0", " \0", "a\0b"] {
        assert_eq!(trimmed(s, CharClass::Nul), s.trim_matches('\0'));
    }
}

#[test]
fn every_character_is_classed_as_the_standard_library_does() {
    for u in 0..0x110000u32 {
        if let Some(c) = char::from_u32(u) {
            assert_eq!(CharClass::WhiteSpace.holds(c), c.is_whitespace());
            assert_eq!(CharClass::Nul.holds(c), c == '\0');
        }
    }
}

#[test]
fn splits_lines_as_the_standard_library_does() {
    for s in ["", "\n", "a", "a\n", "a\r\nb", "a\rb\n", "a\r", "\r\n\r\n", "x\n\ny", "é\n\u{10348}\r\n"] {
        let want: Vec<String> = s.lines().map(|l| l.to_string()).collect();
        assert_eq!(lines_of(s), want);
    }
}

#[test]
fn finds_the_leftmost_occurrence() {
    let s = to_chars("abcabc");
    assert_eq!(find_chars(&s, &to_chars("bc")), Some(1));
    assert_eq!(find_chars(&s, &to_chars("cb")), None);
    assert_eq!(find_chars(&s, &to_chars("abcabcd")), None);
    assert_eq!(find_chars(&s, &to_chars("")), Some(0));
    assert!(contains_text(&s, "cab"));
    assert!(!contains_text(&s, "CAB"));
}

#[test]
fn splits_around_the_leftmost_occurrence() {
    let s = to_chars("a/b/c");
    let (x, y) = split_once_chars(&s, &['/']).unwrap();
    assert_eq!((to_text(x), to_text(y)), ("a".to_string(), "b/c".to_string()));
    assert!(split_once_chars(&s, &[':']).is_none());
}

#[test]
fn leaves_characters_out() {
    assert_eq!(to_text(&without_char(&to_chars("\"a\",\"b\""), '"')), "a,b");
    assert_eq!(to_text(&without_char(&to_chars("abc"), ',')), "abc");
}

#[test]
fn compares_texts() {
    assert!(same_text("status", "status"));
    assert!(same_text("", ""));
    assert!(!same_text("status", "statu"));
    assert!(!same_text("Status", "status"));
}
