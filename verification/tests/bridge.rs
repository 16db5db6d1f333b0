use perl_literal::de::{from_perl, from_str, Deserializer, Notification};
use perl_literal::error::Error;
use perl_literal::parser::parse;
use perl_literal::value::{Array, Reference, Scalar};

fn hash_of(entries: Vec<(String, Scalar)>) -> Scalar {
    Scalar::Reference(Box::new(Reference::Hash(Box::new(perl_literal::value::Hash(entries)))))
}

fn entries_of(scalar: &Scalar) -> Vec<(String, Scalar)> {
    match from_perl(scalar).deserialize_any() {
        Notification::Hash(entries) => entries,
        other => panic!("not a map: {:?}", other),
    }
}

fn field<'a>(entries: &'a [(String, Scalar)], name: &str) -> &'a Scalar {
    &entries.iter().find(|(k, _)| k == name).expect("missing field").1
}

fn as_i32(scalar: &Scalar) -> i32 {
    match from_perl(scalar).deserialize_any() {
        Notification::Int(i) => i32::try_from(i).unwrap(),
        other => panic!("not an integer: {:?}", other),
    }
}

fn as_string(scalar: &Scalar) -> String {
    match from_perl(scalar).deserialize_any() {
        Notification::Text(t) => t,
        other => panic!("not a string: {:?}", other),
    }
}

#[derive(Debug, PartialEq)]
struct Test {
    a: i32,
    b: String,
}

#[test]
fn test_deserialize() {
    let scalar = hash_of(vec![
        (String::from("a"), Scalar::Int(42)),
        (String::from("b"), Scalar::String(String::from("hello"))),
    ]);

    let entries = entries_of(&scalar);
    let test = Test { a: as_i32(field(&entries, "a")), b: as_string(field(&entries, "b")) };
    assert_eq!(
        test,
        Test {
            a: 42,
            b: "hello".to_string()
        }
    );
}

#[derive(Debug, PartialEq)]
struct TestPerl {
    a: i32,
    b: String,
    topic: String,
    c: Vec<i32>,
}

#[test]
fn test_deserialize_perl() {
    let scalar =
        parse(r#"{a => 42, 'b' => 'hello', "topic" => "\nworld", 'c' => [1, 2, 3]}"#).unwrap();
    let entries = entries_of(&scalar);
    let c = match from_perl(field(&entries, "c")).deserialize_any() {
        Notification::Array(items) => items.iter().map(as_i32).collect(),
        other => panic!("not a sequence: {:?}", other),
    };
    let test = TestPerl {
        a: as_i32(field(&entries, "a")),
        b: as_string(field(&entries, "b")),
        topic: as_string(field(&entries, "topic")),
        c,
    };
    assert_eq!(
        test,
        TestPerl {
            a: 42,
            b: "hello".to_string(),
            topic: "\nworld".to_string(),
            c: vec![1, 2, 3]
        }
    );
}

#[test]
fn each_kind_presents_itself() {
    assert_eq!(Deserializer::new(Scalar::Undefined).deserialize_any(), Notification::Unit);
    assert_eq!(Deserializer::new(Scalar::Int(-7)).deserialize_any(), Notification::Int(-7));
    assert_eq!(
        Deserializer::new(Scalar::Float("2.5".to_string())).deserialize_any(),
        Notification::Float("2.5".to_string())
    );
    assert_eq!(
        Deserializer::new(Scalar::String("s".to_string())).deserialize_any(),
        Notification::Text("s".to_string())
    );
    assert_eq!(
        Deserializer::new(parse("[1,'a']").unwrap()).deserialize_any(),
        Notification::Array(vec![Scalar::Int(1), Scalar::String("a".to_string())])
    );
    assert_eq!(
        Deserializer::new(parse("{b=>2,a=>[]}").unwrap()).deserialize_any(),
        Notification::Hash(vec![
            ("b".to_string(), Scalar::Int(2)),
            ("a".to_string(), parse("[]").unwrap()),
        ])
    );
}

#[test]
fn a_reference_to_a_scalar_presents_the_scalar() {
    assert_eq!(Deserializer::new(parse("\\5").unwrap()).deserialize_any(), Notification::Int(5));
    assert_eq!(
        Deserializer::new(parse("\\\\\\'x'").unwrap()).deserialize_any(),
        Notification::Text("x".to_string())
    );
    assert_eq!(
        Deserializer::new(parse("\\[undef]").unwrap()).deserialize_any(),
        Notification::Array(vec![Scalar::Undefined])
    );
    assert_eq!(Deserializer::new(parse("\\undef").unwrap()).deserialize_any(), Notification::Unit);
}

#[test]
fn float_text_converts() {
    match Deserializer::new(parse("-12.5").unwrap()).deserialize_any() {
        Notification::Float(t) => assert_eq!(t.parse::<f64>().unwrap(), -12.5),
        other => panic!("not a float: {:?}", other),
    }
}

#[test]
fn deserializers() {
    let scalar = parse("[1]").unwrap();
    assert_eq!(from_perl(&scalar).scalar, scalar);
    assert_eq!(scalar.clone().into_deserializer(), Deserializer::new(scalar.clone()));
    assert!(Deserializer::new(Scalar::Undefined).is_human_readable());
    assert_eq!(from_str(" 'a' rest").unwrap().scalar, Scalar::String("a".to_string()));
    assert_eq!(
        from_str("?").unwrap_err(),
        Error::Nom("Parsing Error: Error { input: \"?\", code: Char }".to_string())
    );
}
