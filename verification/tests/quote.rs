use perl_literal::quote::{bare_quote, int_quote, is_bareword, single_quote};

#[test]
fn test_single_quote() {
    let mut output = String::new();
    single_quote(&mut output, "hello");
    assert_eq!(output, "'hello'");

    let mut output = String::new();
    single_quote(&mut output, "hello 'world'");
    assert_eq!(output, "'hello \\'world\\''");
}

#[test]
fn single_quote_escapes_backslashes() {
    let mut output = String::new();
    single_quote(&mut output, "a\\b");
    assert_eq!(output, "'a\\\\b'");
}

#[test]
fn single_quote_appends_to_what_is_there() {
    let mut output = String::from("x=");
    single_quote(&mut output, "");
    assert_eq!(output, "x=''");
}

#[test]
fn bareword_needs_one_word_character_at_least() {
    assert!(is_bareword("foo_1"));
    assert!(is_bareword("_"));
    assert!(is_bareword("42"));
    assert!(!is_bareword(""));
    assert!(!is_bareword("foo bar"));
    assert!(!is_bareword("foo-bar"));
    assert!(!is_bareword("caf\u{e9}"));
}

#[test]
fn bare_quote_quotes_only_where_needed() {
    let mut output = String::new();
    bare_quote(&mut output, "key");
    assert_eq!(output, "key");

    let mut output = String::new();
    bare_quote(&mut output, "two words");
    assert_eq!(output, "'two words'");

    let mut output = String::new();
    bare_quote(&mut output, "");
    assert_eq!(output, "''");
}

#[test]
fn bare_quote_is_stable() {
    let mut first = String::new();
    bare_quote(&mut first, "it's");
    let mut second = String::new();
    bare_quote(&mut second, "it's");
    assert_eq!(first, second);
    assert_eq!(first, "'it\\'s'");
}

#[test]
fn int_quote_writes_decimal_text() {
    let mut output = String::new();
    int_quote(&mut output, 0);
    assert_eq!(output, "0");

    let mut output = String::new();
    int_quote(&mut output, -128);
    assert_eq!(output, "-128");

    let mut output = String::from("n=");
    int_quote(&mut output, 18446744073709551615);
    assert_eq!(output, "n=18446744073709551615");

    let mut output = String::new();
    int_quote(&mut output, -9223372036854775808);
    assert_eq!(output, "-9223372036854775808");
}
