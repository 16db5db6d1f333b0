use perl_literal::parser::{
    parse_arrayref, parse_hashref, parse_literal_scalar, parse_pair, parse_q_string,
    parse_scalarref, parse_single_quoted_string, parse_undef,
};
use perl_literal::value::{Array, Reference, Scalar};

fn hash_of(entries: Vec<(String, Scalar)>) -> perl_literal::value::Hash {
    perl_literal::value::Hash(entries)
}

#[test]
fn test_parse_undef() {
    let input = "undef";
    let expected = Scalar::Undefined;
    let actual = parse_undef(input).unwrap().1;
    assert_eq!(expected, actual);
}

#[test]
fn test_parse_string() {
    let input = "'hello'";
    let expected = Scalar::String("hello".to_string());
    let actual = parse_single_quoted_string(input).unwrap().1;
    assert_eq!(expected, actual);
}

#[test]
fn test_parse_q_string() {
    let input = "q{hello}";
    let expected = Scalar::String("hello".to_string());
    let actual = parse_q_string(input).unwrap().1;
    assert_eq!(expected, actual);
}

#[test]
fn test_parse_literal_scalar() {
    let input = "undef";
    let expected = Scalar::Undefined;
    let actual = parse_literal_scalar(input).unwrap().1;
    assert_eq!(expected, actual);

    let input = "123";
    let expected = Scalar::Int(123);
    let actual = parse_literal_scalar(input).unwrap().1;
    assert_eq!(expected, actual);

    let input = "123.456";
    let expected = Scalar::Float("123.456".to_string());
    let actual = parse_literal_scalar(input).unwrap().1;
    assert_eq!(expected, actual);
    match actual {
        Scalar::Float(text) => assert_eq!(text.parse::<f64>().unwrap(), 123.456),
        other => panic!("not a float: {:?}", other),
    }

    let input = "'hello'";
    let expected = Scalar::String("hello".to_string());
    let actual = parse_literal_scalar(input).unwrap().1;
    assert_eq!(expected, actual);

    let input = "q{hello}";
    let expected = Scalar::String("hello".to_string());
    let actual = parse_literal_scalar(input).unwrap().1;
    assert_eq!(expected, actual);
}

#[test]
fn test_parse_pair() {
    let input = "'foo'=>123";
    let expected = (Scalar::String("foo".to_string()), Scalar::Int(123));
    let actual = parse_pair(input).unwrap().1;
    assert_eq!(expected, actual);
}

#[test]
fn test_hashref() {
    let input = "{ 'foo' => 'bar' }";
    let expected = Reference::Hash(Box::new(hash_of(vec![(
        "foo".to_string(),
        Scalar::String("bar".to_string()),
    )])));
    let actual = parse_hashref(input).unwrap().1;
    assert_eq!(expected, actual);
}

#[test]
fn test_arrayref() {
    let input = "[ 'foo', 'bar' ]";
    let expected = Reference::Array(Box::new(Array(vec![
        Scalar::String("foo".to_string()),
        Scalar::String("bar".to_string()),
    ])));
    let actual = parse_arrayref(input).unwrap().1;
    assert_eq!(expected, actual);
}

#[test]
fn test_scalarref() {
    let input = "\\123";
    let expected = Reference::Scalar(Box::new(Scalar::Int(123)));
    let actual = parse_scalarref(input).unwrap().1;
    assert_eq!(expected, actual);
}

#[test]
fn test_array_trailing_comma() {
    let input = "[ 'foo', 'bar', ]";
    let expected = Reference::Array(Box::new(Array(vec![
        Scalar::String("foo".to_string()),
        Scalar::String("bar".to_string()),
    ])));
    let actual = parse_arrayref(input).unwrap().1;
    assert_eq!(expected, actual);
}

#[test]
fn test_hash_trailing_comma() {
    let input = "{ 'foo' => 'bar', }";
    let expected = Reference::Hash(Box::new(hash_of(vec![(
        "foo".to_string(),
        Scalar::String("bar".to_string()),
    )])));
    let actual = parse_hashref(input).unwrap().1;
    assert_eq!(expected, actual);
}

#[test]
fn test_array_of_hash() {
    let input = "[ { 'foo' => 'bar' }, { 'baz' => 'qux' } ]";
    parse_arrayref(input).unwrap();
}

#[test]
fn test_deeply_nested() {
    let input = "{ 'foo' => [ 'bar', { 'baz' => 'qux' } ] }";

    let actual = parse_hashref(input).unwrap().1;
    let foo = "foo".to_string();
    let bar = "bar".to_string();
    let baz = "baz".to_string();
    let qux = Scalar::String("qux".to_string());
    let bazqux = hash_of(vec![(baz, qux)]);
    let barbazqux = Array(vec![
        Scalar::String(bar),
        Scalar::Reference(Box::new(Reference::Hash(Box::new(bazqux)))),
    ]);
    let expected = Reference::Hash(Box::new(hash_of(vec![(
        foo,
        Scalar::Reference(Box::new(Reference::Array(Box::new(barbazqux)))),
    )])));
    assert_eq!(expected, actual);
}
