use perl_literal::error::{Error, ParseError, Rule};
use perl_literal::parser::{
    comma, is_perl_digit, paired_quote_delimiter, parse, parse_arrayref, parse_bareword,
    parse_bareword_or_literal, parse_comma_pair, parse_double_quoted_string,
    parse_fatcomma_pair, parse_hashref, parse_literal_scalar, parse_number, parse_pair,
    parse_q_string, parse_reference, parse_scalar, parse_scalarref, parse_single_quoted_string,
    parse_string, parse_undef, perl_digit1,
};
use perl_literal::value::{Array, Reference, Scalar};

fn text(s: &str) -> Scalar {
    Scalar::String(s.to_string())
}

fn float(s: &str) -> Scalar {
    Scalar::Float(s.to_string())
}

fn array(items: Vec<Scalar>) -> Scalar {
    Scalar::Reference(Box::new(Reference::Array(Box::new(Array(items)))))
}

fn hash(entries: Vec<(&str, Scalar)>) -> Scalar {
    let entries = entries.into_iter().map(|(k, v)| (k.to_string(), v)).collect();
    Scalar::Reference(Box::new(Reference::Hash(Box::new(perl_literal::value::Hash(entries)))))
}

fn failure(rest: &str, rule: Rule) -> ParseError {
    ParseError { rest: rest.to_string(), rule }
}

#[test]
fn trailing_comma_changes_nothing() {
    assert_eq!(parse("[ 'a', 'b', ]"), parse("[ 'a', 'b' ]"));
    assert_eq!(parse("[ 'a', 'b', ]"), Ok(array(vec![text("a"), text("b")])));
    assert_eq!(parse("{ a => 1, }"), parse("{ a => 1 }"));
}

#[test]
fn quote_operator_forms_agree() {
    assert_eq!(parse("q{hi}"), Ok(text("hi")));
    assert_eq!(parse("q(hi)"), Ok(text("hi")));
    assert_eq!(parse("q!hi!"), Ok(text("hi")));
    assert_eq!(parse("q[hi]"), Ok(text("hi")));
    assert_eq!(parse("q<hi>"), Ok(text("hi")));
    assert_eq!(parse("q'hi'"), Ok(text("hi")));
    assert_eq!(parse("q@hi@"), Ok(text("hi")));
    assert_eq!(parse("q\"hi\""), Ok(text("hi")));
}

#[test]
fn bareword_key_needs_the_fat_comma() {
    assert_eq!(parse("{a=>1}"), Ok(hash(vec![("a", Scalar::Int(1))])));
    assert!(parse("{a,1}").is_err());
    assert_eq!(parse_hashref("{a,1}"), Err(failure("a,1}", Rule::Char)));
    assert_eq!(parse("{'a',1}"), Ok(hash(vec![("a", Scalar::Int(1))])));
}

#[test]
fn nested_structure() {
    let expected = hash(vec![(
        "foo",
        array(vec![text("bar"), hash(vec![("baz", text("qux"))])]),
    )]);
    assert_eq!(parse("{ 'foo' => [ 'bar', { 'baz' => 'qux' } ] }"), Ok(expected));
}

#[test]
fn integers() {
    assert_eq!(parse("0"), Ok(Scalar::Int(0)));
    assert_eq!(parse("-12"), Ok(Scalar::Int(-12)));
    assert_eq!(parse("-0"), Ok(Scalar::Int(0)));
    assert_eq!(parse("007"), Ok(Scalar::Int(7)));
    assert_eq!(parse("1_000_000"), Ok(Scalar::Int(1000000)));
    assert_eq!(parse("1_"), Ok(Scalar::Int(1)));
    assert_eq!(parse("9223372036854775807"), Ok(Scalar::Int(i64::MAX)));
    assert_eq!(parse("-9223372036854775808"), Ok(Scalar::Int(i64::MIN)));
    assert_eq!(
        parse("000000000000000000000000000000000000000012"),
        Ok(Scalar::Int(12))
    );
}

#[test]
fn integer_that_does_not_fit_is_refused() {
    assert_eq!(
        parse_number("9223372036854775808"),
        Err(failure("9223372036854775808", Rule::MapRes))
    );
    assert_eq!(
        parse_number("-9223372036854775809 "),
        Err(failure("-9223372036854775809 ", Rule::MapRes))
    );
    assert_eq!(
        parse_number("99999999999999999999999999"),
        Err(failure("99999999999999999999999999", Rule::MapRes))
    );
    assert!(parse("9223372036854775808").is_err());
}

#[test]
fn number_without_a_digit_is_refused() {
    assert_eq!(parse_number("_"), Err(failure("_", Rule::MapRes)));
    assert_eq!(parse_number("-_"), Err(failure("-_", Rule::MapRes)));
    assert_eq!(parse_number("_._"), Err(failure("_._", Rule::MapRes)));
    assert_eq!(parse_number("-"), Err(failure("", Rule::Digit)));
    assert_eq!(parse_number("-x"), Err(failure("x", Rule::Digit)));
    assert_eq!(parse_number(""), Err(failure("", Rule::Digit)));
    assert_eq!(parse_number("abc"), Err(failure("abc", Rule::Digit)));
}

#[test]
fn an_exponent_without_a_fraction_extends_the_integer_digits() {
    assert_eq!(parse("1e5"), Ok(Scalar::Int(15)));
    assert_ne!(parse("1e5"), Ok(Scalar::Int(100000)));
    assert_eq!(parse("1E5"), Ok(Scalar::Int(15)));
    assert_eq!(parse("-2e10"), Ok(Scalar::Int(-210)));
    assert_eq!(parse_number("1e"), Ok(("e", Scalar::Int(1))));
    assert_eq!(parse_number("1e+5"), Ok(("e+5", Scalar::Int(1))));
    assert_eq!(parse_number("1e_5"), Ok(("e_5", Scalar::Int(1))));
}

#[test]
fn an_exponent_after_a_fraction_scales_the_float() {
    assert_eq!(parse_number("1.5e3"), Ok(("", float("1.5e3"))));
    assert_ne!(parse("1.5e3"), Ok(float("1.53")));
    assert_eq!(parse("1.5E3"), Ok(float("1.5e3")));
    assert_eq!(parse("-1_0.2_5e12"), Ok(float("-10.25e12")));
    assert_eq!(parse("0.5e0"), Ok(float("0.5e0")));
    assert_eq!(parse_number("1.5e-3"), Ok(("e-3", float("1.5"))));
    assert_eq!(parse_number("1.5e"), Ok(("e", float("1.5"))));
    assert_eq!(parse_number("1.5e1_0"), Ok(("_0", float("1.5e1"))));
    match parse("1.5e3") {
        Ok(Scalar::Float(t)) => assert_eq!(t.parse::<f64>().unwrap(), 1500.0),
        other => panic!("not a float: {:?}", other),
    }
    match parse("-2.5E2") {
        Ok(Scalar::Float(t)) => assert_eq!(t.parse::<f64>().unwrap(), -250.0),
        other => panic!("not a float: {:?}", other),
    }
}

#[test]
fn floats_keep_their_text() {
    assert_eq!(parse("123.456"), Ok(float("123.456")));
    assert_eq!(parse("-0.5"), Ok(float("-0.5")));
    assert_eq!(parse("1_0.2_5"), Ok(float("10.25")));
    assert_eq!(parse("007.50"), Ok(float("007.50")));
    assert_eq!(parse_number("1."), Ok((".", Scalar::Int(1))));
    assert_eq!(parse_number("1.x"), Ok((".x", Scalar::Int(1))));
    assert_eq!(parse_number("1.2.3"), Ok((".3", float("1.2"))));
    for literal in ["123.456", "-0.5", "10.25", "007.50", "1.0", "0.5", "1.5e3"] {
        assert!(literal.parse::<f64>().is_ok());
    }
    match parse("1_0.2_5") {
        Ok(Scalar::Float(t)) => assert_eq!(t.parse::<f64>().unwrap(), 10.25),
        other => panic!("not a float: {:?}", other),
    }
}

#[test]
fn a_side_of_the_point_without_a_digit_is_zero() {
    assert_eq!(parse("1._"), Ok(float("1.0")));
    assert_eq!(parse("_.5"), Ok(float("0.5")));
    assert_eq!(parse("-_.5"), Ok(float("-0.5")));
    assert_eq!(parse("_.5e2"), Ok(float("0.5e2")));
    assert_eq!(parse("3.__e2"), Ok(float("3.0e2")));
    match parse("_.5") {
        Ok(Scalar::Float(t)) => assert_eq!(t.parse::<f64>().unwrap(), 0.5),
        other => panic!("not a float: {:?}", other),
    }
    assert_eq!(parse_number("_._e5"), Err(failure("_._e5", Rule::MapRes)));
    assert_eq!(parse_number("-_.__"), Err(failure("-_.__", Rule::MapRes)));
}

#[test]
fn single_quoted_strings() {
    assert_eq!(parse("''"), Ok(text("")));
    assert_eq!(parse("'it\\'s'"), Ok(text("it's")));
    assert_eq!(parse("'a\\\\b'"), Ok(text("a\\b")));
    assert_eq!(parse("'line\nbreak \"x\" $y'"), Ok(text("line\nbreak \"x\" $y")));
    assert_eq!(
        parse_single_quoted_string("'a'b"),
        Ok(("b", text("a")))
    );
    assert_eq!(
        parse_single_quoted_string("'a\\nb'"),
        Err(failure("nb'", Rule::OneOf))
    );
    assert_eq!(parse_single_quoted_string("'abc"), Err(failure("", Rule::Char)));
    assert_eq!(
        parse_single_quoted_string("'abc\\"),
        Err(failure("abc\\", Rule::Escaped))
    );
    assert_eq!(parse_single_quoted_string("abc'"), Err(failure("abc'", Rule::Char)));
}

#[test]
fn double_quoted_strings() {
    assert_eq!(parse("\"\""), Ok(text("")));
    assert_eq!(parse("\"a'b\""), Ok(text("a'b")));
    assert_eq!(
        parse("\"\\\\ \\\" \\n \\r \\t \\0\""),
        Ok(text("\\ \" \n \r \t \0"))
    );
    assert_eq!(
        parse("\"\\v\\b\\a\\e\\z\""),
        Ok(text("\u{0B}\u{08}\u{07}\u{1B}\u{1F}"))
    );
    assert_ne!(parse("\"\\z\""), Ok(text("z")));
    assert_eq!(
        parse_double_quoted_string("\"a\\xb\""),
        Err(failure("xb\"", Rule::Tag))
    );
    assert_eq!(parse_double_quoted_string("\"abc"), Err(failure("", Rule::Char)));
    assert_eq!(
        parse_double_quoted_string("\"abc\\"),
        Err(failure("\\", Rule::EscapedTransform))
    );
    assert_eq!(parse_double_quoted_string("'a'"), Err(failure("'a'", Rule::Char)));
}

#[test]
fn quote_operator_strings() {
    assert_eq!(parse("q{}"), Ok(text("")));
    assert_eq!(parse("q{a\\}b}"), Ok(text("a}b")));
    assert_eq!(parse("q{a\\\\b}"), Ok(text("a\\b")));
    assert_eq!(parse("q{a\nb}"), Ok(text("a\nb")));
    assert_eq!(parse("q{a{b}"), Ok(text("a{b")));
    assert_eq!(parse("q\\abc\\"), Ok(text("abc")));
    assert_eq!(parse("q!it's!"), Ok(text("it's")));
    assert_eq!(parse_q_string("q{a}b}"), Ok(("b}", text("a"))));
    assert_eq!(parse_q_string("q{abc"), Err(failure("", Rule::Char)));
    assert_eq!(parse_q_string("q{a\\nb}"), Err(failure("nb}", Rule::OneOf)));
    assert_eq!(parse_q_string("q{ab\\"), Err(failure("ab\\", Rule::Escaped)));
    assert_eq!(parse_q_string("q abc "), Err(failure(" abc ", Rule::OneOf)));
    assert_eq!(parse_q_string("q)a)"), Err(failure(")a)", Rule::OneOf)));
    assert_eq!(parse_q_string("q"), Err(failure("", Rule::OneOf)));
    assert_eq!(parse_q_string("x{a}"), Err(failure("x{a}", Rule::Char)));
}

#[test]
fn paired_delimiters() {
    assert_eq!(paired_quote_delimiter('('), ')');
    assert_eq!(paired_quote_delimiter('['), ']');
    assert_eq!(paired_quote_delimiter('{'), '}');
    assert_eq!(paired_quote_delimiter('<'), '>');
    assert_eq!(paired_quote_delimiter('!'), '!');
    assert_eq!(paired_quote_delimiter('\''), '\'');
}

#[test]
fn string_tries_each_form_in_turn() {
    assert_eq!(parse_string("'a'"), Ok(("", text("a"))));
    assert_eq!(parse_string("\"a\""), Ok(("", text("a"))));
    assert_eq!(parse_string("q(a) "), Ok((" ", text("a"))));
    assert_eq!(parse_string("'abc"), Err(failure("'abc", Rule::Char)));
    assert_eq!(parse_string("qx"), Err(failure("x", Rule::OneOf)));
}

#[test]
fn undef_is_a_prefix_match() {
    assert_eq!(parse("undef"), Ok(Scalar::Undefined));
    assert_eq!(parse_undef("undefined"), Ok(("ined", Scalar::Undefined)));
    assert_eq!(parse_undef("unde"), Err(failure("unde", Rule::Tag)));
    assert_eq!(parse_undef(" undef"), Err(failure(" undef", Rule::Tag)));
}

#[test]
fn white_space_before_a_literal_but_not_before_a_reference() {
    assert_eq!(parse(" \t\r\n123"), Ok(Scalar::Int(123)));
    assert_eq!(parse_literal_scalar("  'a' "), Ok((" ", text("a"))));
    assert!(parse(" [1]").is_err());
    assert!(parse(" {a=>1}").is_err());
    assert_eq!(parse("[ [1] ]"), Ok(array(vec![array(vec![Scalar::Int(1)])])));
    assert_eq!(parse("[1 , [2] ,3]"), Ok(array(vec![
        Scalar::Int(1),
        array(vec![Scalar::Int(2)]),
        Scalar::Int(3),
    ])));
    assert_eq!(parse("{a=>[1]}"), Ok(hash(vec![("a", array(vec![Scalar::Int(1)]))])));
}

#[test]
fn what_follows_a_scalar_is_left_alone() {
    assert_eq!(parse("123 and more"), Ok(Scalar::Int(123)));
    assert_eq!(parse_scalar("123 and more"), Ok((" and more", Scalar::Int(123))));
    assert_eq!(parse_scalar("[1]]"), Ok(("]", array(vec![Scalar::Int(1)]))));
}

#[test]
fn scalar_references() {
    let inner = Scalar::Int(123);
    assert_eq!(
        parse("\\123"),
        Ok(Scalar::Reference(Box::new(Reference::Scalar(Box::new(inner)))))
    );
    assert_eq!(
        parse_scalarref("\\ 'a'"),
        Ok(("", Reference::Scalar(Box::new(text("a")))))
    );
    assert_eq!(
        parse_scalarref("\\\\1"),
        Ok((
            "",
            Reference::Scalar(Box::new(Scalar::Reference(Box::new(Reference::Scalar(
                Box::new(Scalar::Int(1))
            )))))
        ))
    );
    assert_eq!(parse_scalarref("\\[1]").map(|r| r.0), Ok(""));
    assert_eq!(parse_scalarref("\\ [1]"), Err(failure(" [1]", Rule::Char)));
    assert_eq!(parse_scalarref("1"), Err(failure("1", Rule::Char)));
    assert_eq!(parse_scalarref("\\"), Err(failure("", Rule::Char)));
}

#[test]
fn arrays() {
    assert_eq!(parse("[]"), Ok(array(vec![])));
    assert_eq!(parse("[ ]"), Ok(array(vec![])));
    assert_eq!(parse("[,]"), Ok(array(vec![])));
    assert_eq!(parse("[undef,1,'a']"), Ok(array(vec![
        Scalar::Undefined,
        Scalar::Int(1),
        text("a"),
    ])));
    assert_eq!(parse_arrayref("[1,,2]"), Err(failure(",2]", Rule::Char)));
    assert_eq!(parse_arrayref("[1 2]"), Err(failure("2]", Rule::Char)));
    assert_eq!(parse_arrayref("[1, 2"), Err(failure("", Rule::Char)));
    assert_eq!(parse_arrayref("(1)"), Err(failure("(1)", Rule::Char)));
    assert_eq!(parse_arrayref("[1, {]"), Err(failure("{]", Rule::Char)));
}

#[test]
fn hashes() {
    assert_eq!(parse("{}"), Ok(hash(vec![])));
    assert_eq!(parse("{ }"), Ok(hash(vec![])));
    assert_eq!(parse("{,}"), Ok(hash(vec![])));
    assert_eq!(
        parse("{ a => 1, 'b c' , 2, \"d\" => undef }"),
        Ok(hash(vec![
            ("a", Scalar::Int(1)),
            ("b c", Scalar::Int(2)),
            ("d", Scalar::Undefined),
        ]))
    );
    assert_eq!(parse("{123 => 1}"), Ok(hash(vec![("123", Scalar::Int(1))])));
    assert_eq!(parse("{undef => 1}"), Ok(hash(vec![("undef", Scalar::Int(1))])));
    assert_eq!(parse("{_x1=>1}"), Ok(hash(vec![("_x1", Scalar::Int(1))])));
}

#[test]
fn a_key_that_comes_twice_keeps_its_last_value() {
    assert_eq!(
        parse("{a=>1,b=>2,a=>3}"),
        Ok(hash(vec![("a", Scalar::Int(3)), ("b", Scalar::Int(2))]))
    );
}

#[test]
fn a_key_must_be_a_string() {
    assert_eq!(parse_hashref("{1.5, 2}"), Err(failure("", Rule::Char)));
    assert_eq!(parse_hashref("{-5 => 1} "), Err(failure(" ", Rule::Char)));
    assert_eq!(parse_hashref("{undef, 1}x"), Err(failure("x", Rule::Char)));
    assert!(parse("{-5 => 1}").is_err());
    assert_eq!(parse_hashref("{q{a} => 1}"), Err(failure("q{a} => 1}", Rule::Char)));
    assert_eq!(parse_hashref("{a => 1"), Err(failure("", Rule::Char)));
    assert_eq!(parse_hashref("{a => }"), Err(failure("a => }", Rule::Char)));
}

#[test]
fn pairs() {
    assert_eq!(
        parse_pair(" a => 1,"),
        Ok((",", (text("a"), Scalar::Int(1))))
    );
    assert_eq!(
        parse_pair("'a' , [1]"),
        Ok(("", (text("a"), array(vec![Scalar::Int(1)]))))
    );
    assert_eq!(
        parse_fatcomma_pair("a=>'b'"),
        Ok(("", (text("a"), text("b"))))
    );
    assert_eq!(parse_fatcomma_pair("a,'b'"), Err(failure(",'b'", Rule::Tag)));
    assert_eq!(parse_fatcomma_pair("a=x"), Err(failure("=x", Rule::Tag)));
    assert_eq!(
        parse_comma_pair("1,2"),
        Ok(("", (Scalar::Int(1), Scalar::Int(2))))
    );
    assert_eq!(parse_comma_pair("a,2"), Err(failure("a,2", Rule::Char)));
    assert_eq!(parse_comma_pair("'a' 2"), Err(failure("2", Rule::Char)));
    assert_eq!(parse_pair("a 1"), Err(failure("a 1", Rule::Char)));
}

#[test]
fn keys_in_front_of_the_fat_comma() {
    assert_eq!(parse_bareword("foo_1 bar"), Ok((" bar", text("foo_1"))));
    assert_eq!(parse_bareword("-foo"), Err(failure("-foo", Rule::TakeWhile1)));
    assert_eq!(parse_bareword(""), Err(failure("", Rule::TakeWhile1)));
    assert_eq!(parse_bareword_or_literal("123"), Ok(("", text("123"))));
    assert_eq!(parse_bareword_or_literal("-5"), Ok(("", Scalar::Int(-5))));
    assert_eq!(parse_bareword_or_literal("'x y'"), Ok(("", text("x y"))));
    assert_eq!(parse_bareword_or_literal("q{a}"), Ok(("{a}", text("q"))));
    assert_eq!(parse_bareword_or_literal("[1]"), Err(failure("[1]", Rule::Char)));
}

#[test]
fn commas_and_digit_runs() {
    assert_eq!(comma(" , x"), Ok(("x", ',')));
    assert_eq!(comma(","), Ok(("", ',')));
    assert_eq!(comma("  x"), Err(failure("x", Rule::Char)));
    assert_eq!(perl_digit1("12_3x"), Ok(("x", "12_3")));
    assert_eq!(perl_digit1("___"), Ok(("", "___")));
    assert_eq!(perl_digit1("x1"), Err(failure("x1", Rule::Digit)));
    assert!(is_perl_digit('0'));
    assert!(is_perl_digit('9'));
    assert!(is_perl_digit('_'));
    assert!(!is_perl_digit('a'));
    assert!(!is_perl_digit('\u{0661}'));
}

#[test]
fn references_by_kind() {
    assert_eq!(parse_reference("[1]"), Ok(("", array(vec![Scalar::Int(1)]))));
    assert_eq!(parse_reference("{a=>1}"), Ok(("", hash(vec![("a", Scalar::Int(1))]))));
    assert_eq!(parse_reference("123"), Err(failure("123", Rule::Char)));
    assert_eq!(parse_reference("[1"), Err(failure("[1", Rule::Char)));
}

#[test]
fn a_failure_inside_fails_the_whole() {
    assert!(parse("[1, [2, {a=>}]]").is_err());
    assert!(parse("{a=>[1,'x]}").is_err());
    assert_eq!(parse_scalar("[1, 'x]"), Err(failure("[1, 'x]", Rule::Char)));
    assert_eq!(parse_scalar("\\\\x"), Err(failure("x", Rule::Char)));
    assert_eq!(parse_scalar(""), Err(failure("", Rule::Char)));
}

#[test]
fn parse_reports_the_failure_in_words() {
    assert_eq!(
        parse("x"),
        Err(Error::Nom("Parsing Error: Error { input: \"x\", code: Char }".to_string()))
    );
    assert_eq!(
        parse("\\\\ \"a\nb"),
        Err(Error::Nom(
            "Parsing Error: Error { input: \" \\\"a\\nb\", code: Char }".to_string()
        ))
    );
    let failed = parse("[1").unwrap_err();
    assert_eq!(
        failed.to_string(),
        "parse error: Parsing Error: Error { input: \"[1\", code: Char }"
    );
}

#[test]
fn each_rule_has_its_own_words() {
    let words = |rule: Rule| ParseError { rest: "r".to_string(), rule }.describe();
    assert_eq!(words(Rule::Tag), "Parsing Error: Error { input: \"r\", code: Tag }");
    assert_eq!(words(Rule::Digit), "Parsing Error: Error { input: \"r\", code: Digit }");
    assert_eq!(words(Rule::Char), "Parsing Error: Error { input: \"r\", code: Char }");
    assert_eq!(words(Rule::OneOf), "Parsing Error: Error { input: \"r\", code: OneOf }");
    assert_eq!(
        words(Rule::TakeWhile1),
        "Parsing Error: Error { input: \"r\", code: TakeWhile1 }"
    );
    assert_eq!(words(Rule::Escaped), "Parsing Error: Error { input: \"r\", code: Escaped }");
    assert_eq!(
        words(Rule::EscapedTransform),
        "Parsing Error: Error { input: \"r\", code: EscapedTransform }"
    );
    assert_eq!(words(Rule::MapRes), "Parsing Error: Error { input: \"r\", code: MapRes }");
    assert_eq!(
        ParseError { rest: "r".to_string(), rule: Rule::Tag }.into_error(),
        Error::Nom("Parsing Error: Error { input: \"r\", code: Tag }".to_string())
    );
}

#[test]
fn characters_outside_ascii() {
    assert_eq!(parse("'caf\u{e9} \u{1F600}'"), Ok(text("caf\u{e9} \u{1F600}")));
    assert_eq!(
        parse_single_quoted_string("'\u{e9}'\u{1F600}x"),
        Ok(("\u{1F600}x", text("\u{e9}")))
    );
    assert_eq!(parse_bareword("caf\u{e9}"), Ok(("\u{e9}", text("caf"))));
    assert_eq!(parse_number("\u{0661}"), Err(failure("\u{0661}", Rule::Digit)));
}
