use perl_literal::text::{ends_with, to_chars};

#[test]
fn ends_with_looks_at_the_last_character() {
    assert!(ends_with("[", '['));
    assert!(ends_with("abc[", '['));
    assert!(!ends_with("", '['));
    assert!(!ends_with("[a", '['));
    assert!(!ends_with("abc{", '['));
    assert!(ends_with("abc{", '{'));
}

#[test]
fn ends_with_outside_ascii() {
    assert!(ends_with("caf\u{e9}", '\u{e9}'));
    assert!(!ends_with("caf\u{e9}", 'e'));
    assert!(!ends_with("caf\u{e9}", '\u{a9}'));
    assert!(!ends_with("caf\u{e9}", '['));
    assert!(ends_with("\u{1F600}[", '['));
    assert!(ends_with("[\u{1F600}", '\u{1F600}'));
    assert!(!ends_with("[\u{1F600}", '['));
    assert!(!ends_with("", '\u{e9}'));
    assert!(ends_with("\u{7f}", '\u{7f}'));
    assert!(ends_with("\u{80}", '\u{80}'));
    assert!(!ends_with("\u{80}", '\0'));
}

#[test]
fn to_chars_keeps_every_character() {
    assert_eq!(to_chars(""), Vec::<char>::new());
    assert_eq!(to_chars("a\u{e9}\u{1F600}"), vec!['a', '\u{e9}', '\u{1F600}']);
}
