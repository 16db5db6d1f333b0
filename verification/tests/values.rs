use perl_literal::error::Error;
use perl_literal::value::{Array, Reference, Scalar};

#[test]
fn insert_adds_or_replaces() {
    let mut h = perl_literal::value::Hash::new();
    assert_eq!(h.len(), 0);
    h.insert("a".to_string(), Scalar::Int(1));
    h.insert("b".to_string(), Scalar::Int(2));
    assert_eq!(h.len(), 2);
    h.insert("a".to_string(), Scalar::Undefined);
    assert_eq!(h.len(), 2);
    assert_eq!(
        h,
        perl_literal::value::Hash(vec![
            ("a".to_string(), Scalar::Undefined),
            ("b".to_string(), Scalar::Int(2)),
        ])
    );
    h.insert("".to_string(), Scalar::Int(3));
    assert_eq!(h.len(), 3);
    assert_eq!(h.0[2], ("".to_string(), Scalar::Int(3)));
}

#[test]
fn clones_are_equal_and_apart() {
    let inner = perl_literal::value::Hash(vec![(
        "k".to_string(),
        Scalar::Reference(Box::new(Reference::Scalar(Box::new(Scalar::Float(
            "1.5".to_string(),
        ))))),
    )]);
    let first = Scalar::Reference(Box::new(Reference::Array(Box::new(Array(vec![
        Scalar::Undefined,
        Scalar::Int(1),
        Scalar::String("s".to_string()),
        Scalar::Reference(Box::new(Reference::Hash(Box::new(inner)))),
    ])))));
    let mut copy = first.clone();
    assert_eq!(copy, first);
    if let Scalar::Reference(r) = &mut copy {
        if let Reference::Array(a) = r.as_mut() {
            a.0.push(Scalar::Int(2));
        }
    }
    assert_ne!(copy, first);
    let r = Reference::Scalar(Box::new(Scalar::Int(1)));
    assert_eq!(r.clone(), r);
}

#[test]
fn errors_display() {
    assert_eq!(Error::custom("missing field"), Error::Message("missing field".to_string()));
    assert_eq!(Error::custom("missing field").to_string(), "missing field");
    assert_eq!(Error::Nom("bad".to_string()).to_string(), "parse error: bad");
    assert_eq!(Error::Message(String::new()).to_string(), "");
}

fn hash(entries: Vec<(&str, Scalar)>) -> Scalar {
    let entries = entries.into_iter().map(|(k, v)| (k.to_string(), v)).collect();
    Scalar::Reference(Box::new(Reference::Hash(Box::new(perl_literal::value::Hash(entries)))))
}

#[test]
fn the_order_of_entries_does_not_matter() {
    let one = hash(vec![("a", Scalar::Int(1)), ("b", Scalar::Int(2))]);
    let other = hash(vec![("b", Scalar::Int(2)), ("a", Scalar::Int(1))]);
    assert_eq!(one, other);
    assert_eq!(
        perl_literal::parse("{a=>1,b=>[{x=>1,y=>2}]}"),
        perl_literal::parse("{ b => [ { y => 2, x => 1 } ], a => 1 }")
    );
    assert_ne!(one, hash(vec![("a", Scalar::Int(1))]));
    assert_ne!(hash(vec![("a", Scalar::Int(1))]), one);
    assert_ne!(one, hash(vec![("a", Scalar::Int(1)), ("b", Scalar::Int(3))]));
    assert_ne!(one, hash(vec![("a", Scalar::Int(1)), ("c", Scalar::Int(2))]));
    assert_eq!(hash(vec![]), hash(vec![]));
}

#[test]
fn a_later_entry_hides_an_earlier_one_with_its_key() {
    let twice = hash(vec![("a", Scalar::Int(1)), ("b", Scalar::Int(2)), ("a", Scalar::Int(3))]);
    assert_eq!(twice, hash(vec![("a", Scalar::Int(3)), ("b", Scalar::Int(2))]));
    assert_ne!(twice, hash(vec![("a", Scalar::Int(1)), ("b", Scalar::Int(2))]));
}

#[test]
fn the_order_of_elements_matters() {
    let one = Array(vec![Scalar::Int(1), Scalar::Int(2)]);
    assert_eq!(one, Array(vec![Scalar::Int(1), Scalar::Int(2)]));
    assert_ne!(one, Array(vec![Scalar::Int(2), Scalar::Int(1)]));
    assert_ne!(one, Array(vec![Scalar::Int(1)]));
    assert_ne!(Array(vec![]), one);
}

#[test]
fn scalars_of_different_kinds_differ() {
    let kinds = vec![
        Scalar::Undefined,
        Scalar::Int(1),
        Scalar::Float("1.0".to_string()),
        Scalar::String("1".to_string()),
        hash(vec![]),
        Scalar::Reference(Box::new(Reference::Array(Box::new(Array(vec![]))))),
        Scalar::Reference(Box::new(Reference::Scalar(Box::new(Scalar::Int(1))))),
    ];
    for (i, a) in kinds.iter().enumerate() {
        for (j, b) in kinds.iter().enumerate() {
            assert_eq!(a == b, i == j, "{:?} and {:?}", a, b);
        }
    }
    assert_ne!(Scalar::Int(1), Scalar::Int(2));
    assert_ne!(Scalar::Float("1.0".to_string()), Scalar::Float("1.00".to_string()));
    assert_ne!(Scalar::String("a".to_string()), Scalar::String("b".to_string()));
}

#[test]
fn get_finds_the_value_of_a_key() {
    let mut h = perl_literal::value::Hash::new();
    assert_eq!(h.get("a"), None);
    h.insert("a".to_string(), Scalar::Int(1));
    h.insert("b".to_string(), Scalar::Int(2));
    h.insert("a".to_string(), Scalar::Int(3));
    assert_eq!(h.get("a"), Some(&Scalar::Int(3)));
    assert_eq!(h.get("b"), Some(&Scalar::Int(2)));
    assert_eq!(h.get("c"), None);
    let twice = perl_literal::value::Hash(vec![
        ("k".to_string(), Scalar::Int(1)),
        ("k".to_string(), Scalar::Int(2)),
    ]);
    assert_eq!(twice.get("k"), Some(&Scalar::Int(2)));
}
