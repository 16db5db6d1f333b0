use perl_literal::error::Error;
use perl_literal::ser::key::{key_must_be_scalar, KeySerializer};
use perl_literal::ser::{separate, Serializer};

fn key_error() -> Result<(), Error> {
    Err(Error::Message("key must be scalar".to_string()))
}

#[test]
fn starts_empty() {
    assert_eq!(Serializer::default().output, "");
    assert_eq!(KeySerializer::default().output, "");
}

#[test]
fn scalars() {
    let mut s = Serializer::default();
    assert_eq!(s.serialize_bool(true), Ok(()));
    assert_eq!(s.serialize_bool(false), Ok(()));
    assert_eq!(s.output, "10");

    let mut s = Serializer::default();
    s.serialize_i8(-128).unwrap();
    s.serialize_unit().unwrap();
    s.serialize_u8(255).unwrap();
    assert_eq!(s.output, "-128255");

    let mut s = Serializer::default();
    s.serialize_i16(-32768).unwrap();
    s.output.push(' ');
    s.serialize_u16(65535).unwrap();
    s.output.push(' ');
    s.serialize_i32(-2147483648).unwrap();
    s.output.push(' ');
    s.serialize_u32(4294967295).unwrap();
    s.output.push(' ');
    s.serialize_i64(i64::MIN).unwrap();
    s.output.push(' ');
    s.serialize_u64(u64::MAX).unwrap();
    assert_eq!(
        s.output,
        "-32768 65535 -2147483648 4294967295 -9223372036854775808 18446744073709551615"
    );

    let mut s = Serializer::default();
    s.serialize_f64("1.5").unwrap();
    s.serialize_none().unwrap();
    s.serialize_f32("0.1").unwrap();
    assert_eq!(s.output, "1.5null0.1");
}

#[test]
fn wide_integers_are_refused() {
    let mut s = Serializer::default();
    s.output.push('x');
    assert_eq!(
        s.serialize_i128(1),
        Err(Error::Message("i128 is not supported".to_string()))
    );
    assert_eq!(
        s.serialize_u128(1),
        Err(Error::Message("u128 is not supported".to_string()))
    );
    assert_eq!(s.output, "x");

    let mut k = KeySerializer::default();
    assert_eq!(
        k.serialize_i128(-1),
        Err(Error::Message("i128 is not supported".to_string()))
    );
    assert_eq!(
        k.serialize_u128(0),
        Err(Error::Message("u128 is not supported".to_string()))
    );
    assert_eq!(k.output, "");
}

#[test]
fn text_is_single_quoted() {
    let mut s = Serializer::default();
    s.serialize_str("key").unwrap();
    s.serialize_str("it's").unwrap();
    s.serialize_char('c').unwrap();
    s.serialize_char('\'').unwrap();
    s.serialize_char('\\').unwrap();
    assert_eq!(s.output, "'key''it\\'s''c''\\'''\\\\'");
}

#[test]
fn characters_one_by_one() {
    let mut s = Serializer::default();
    s.serialize_char('c').unwrap();
    assert_eq!(s.output, "'c'");
    let mut s = Serializer::default();
    s.serialize_char('\'').unwrap();
    assert_eq!(s.output, "'\\''");
    let mut s = Serializer::default();
    s.serialize_char('\\').unwrap();
    assert_eq!(s.output, "'\\\\'");
    let mut k = KeySerializer::default();
    k.serialize_char('c').unwrap();
    assert_eq!(k.output, "'c'");
}

#[test]
fn bytes_are_decoded_and_quoted() {
    let mut s = Serializer::default();
    s.serialize_bytes(b"caf\xc3\xa9 'x'").unwrap();
    assert_eq!(s.output, "'caf\u{e9} \\'x\\''");

    let mut s = Serializer::default();
    s.serialize_bytes(b"a\xffb").unwrap();
    assert_eq!(s.output, "'a\u{FFFD}b'");

    let mut k = KeySerializer::default();
    k.serialize_bytes(b"").unwrap();
    assert_eq!(k.output, "''");
}

#[test]
fn names_are_written_bare() {
    let mut s = Serializer::default();
    s.serialize_unit_struct("Marker").unwrap();
    s.output.push(' ');
    s.serialize_unit_variant("Color", 2, "Blue").unwrap();
    s.output.push(' ');
    s.serialize_newtype_struct("Meters").unwrap();
    s.serialize_u8(5).unwrap();
    s.output.push(' ');
    s.serialize_newtype_variant("Shape", 0, "Circle").unwrap();
    s.serialize_u8(3).unwrap();
    assert_eq!(s.output, "Marker Blue Meters5 Circle3");
}

#[test]
fn sequences() {
    let mut s = Serializer::default();
    s.serialize_seq(Some(0)).unwrap();
    s.end_seq().unwrap();
    assert_eq!(s.output, "[]");

    let mut s = Serializer::default();
    s.serialize_seq(None).unwrap();
    s.serialize_element().unwrap();
    s.serialize_u8(1).unwrap();
    s.serialize_element().unwrap();
    s.serialize_str("a").unwrap();
    s.serialize_element().unwrap();
    s.serialize_tuple(2).unwrap();
    s.serialize_element().unwrap();
    s.serialize_bool(true).unwrap();
    s.serialize_element().unwrap();
    s.serialize_tuple_struct("Pair", 0).unwrap();
    s.end_seq().unwrap();
    s.end_seq().unwrap();
    s.end_seq().unwrap();
    assert_eq!(s.output, "[1,'a',[1,[]]]");
}

#[test]
fn maps_and_structs() {
    let mut s = Serializer::default();
    s.serialize_map(Some(0)).unwrap();
    s.end_map().unwrap();
    assert_eq!(s.output, "{}");

    let mut s = Serializer::default();
    s.serialize_map(None).unwrap();
    let mut key = KeySerializer::default();
    key.serialize_str("a").unwrap();
    s.serialize_key(&key).unwrap();
    s.serialize_value().unwrap();
    s.serialize_u8(1).unwrap();
    let mut key = KeySerializer::default();
    key.serialize_str("b c").unwrap();
    s.serialize_key(&key).unwrap();
    s.serialize_value().unwrap();
    s.serialize_struct("Point", 2).unwrap();
    s.serialize_field("x").unwrap();
    s.serialize_i8(-1).unwrap();
    s.serialize_field("the y").unwrap();
    s.serialize_i8(2).unwrap();
    s.end_map().unwrap();
    let mut key = KeySerializer::default();
    key.serialize_u8(7).unwrap();
    s.serialize_key(&key).unwrap();
    s.serialize_value().unwrap();
    s.serialize_none().unwrap();
    s.end_map().unwrap();
    assert_eq!(s.output, "{a=>1,'b c'=>{x=>-1,'the y'=>2},7=>null}");
}

#[test]
fn variants_with_content() {
    let mut s = Serializer::default();
    s.serialize_tuple_variant("Shape", 1, "Rect", 2).unwrap();
    s.serialize_element().unwrap();
    s.serialize_u8(3).unwrap();
    s.serialize_element().unwrap();
    s.serialize_u8(4).unwrap();
    s.end_tuple_variant().unwrap();
    assert_eq!(s.output, "{Rect[3,4]}");

    let mut s = Serializer::default();
    s.serialize_struct_variant("Shape", 2, "Circle", 1).unwrap();
    s.serialize_field("r").unwrap();
    s.serialize_u8(5).unwrap();
    s.serialize_field("name").unwrap();
    s.serialize_str("c").unwrap();
    s.end_struct_variant().unwrap();
    assert_eq!(s.output, "{Circle{r=>5,name=>'c'}}");
}

#[test]
fn separator_depends_on_the_last_character_only() {
    let mut out = String::new();
    separate(&mut out, '[');
    assert_eq!(out, ",");
    let mut out = String::from("[");
    separate(&mut out, '[');
    assert_eq!(out, "[");
    let mut out = String::from("[");
    separate(&mut out, '{');
    assert_eq!(out, "[,");
    let mut out = String::from("[[]");
    separate(&mut out, '[');
    assert_eq!(out, "[[],");
}

#[test]
fn keys_are_bare_where_they_can_be() {
    let mut k = KeySerializer::default();
    k.serialize_str("plain_1").unwrap();
    assert_eq!(k.output, "plain_1");
    let mut k = KeySerializer::default();
    k.serialize_str("two words").unwrap();
    assert_eq!(k.output, "'two words'");
    let mut k = KeySerializer::default();
    k.serialize_str("").unwrap();
    assert_eq!(k.output, "''");
    let mut k = KeySerializer::default();
    k.serialize_str("it's").unwrap();
    assert_eq!(k.output, "'it\\'s'");
}

#[test]
fn scalar_keys() {
    let mut k = KeySerializer::default();
    k.serialize_bool(true).unwrap();
    k.serialize_i8(-1).unwrap();
    k.serialize_i16(-2).unwrap();
    k.serialize_i32(-3).unwrap();
    k.serialize_i64(-4).unwrap();
    k.serialize_u8(1).unwrap();
    k.serialize_u16(2).unwrap();
    k.serialize_u32(3).unwrap();
    k.serialize_u64(4).unwrap();
    k.serialize_f32("0.5").unwrap();
    k.serialize_f64("2.5").unwrap();
    k.serialize_none().unwrap();
    k.serialize_unit().unwrap();
    k.serialize_unit_struct("U").unwrap();
    k.serialize_unit_variant("E", 0, "V").unwrap();
    k.serialize_newtype_struct("N").unwrap();
    k.serialize_newtype_variant("E", 1, "W").unwrap();
    assert_eq!(k.output, "1-1-2-3-412340.52.5nullUVNW");
}

#[test]
fn a_compound_value_is_no_key() {
    let mut k = KeySerializer::default();
    k.output.push_str("so far");
    assert_eq!(k.serialize_seq(Some(1)), key_error());
    assert_eq!(k.serialize_seq(None), key_error());
    assert_eq!(k.serialize_map(None), key_error());
    assert_eq!(k.serialize_struct("S", 1), key_error());
    assert_eq!(k.serialize_struct_variant("E", 0, "V", 1), key_error());
    assert_eq!(k.serialize_tuple(2), key_error());
    assert_eq!(k.serialize_tuple_struct("T", 2), key_error());
    assert_eq!(k.serialize_tuple_variant("E", 0, "V", 2), key_error());
    assert_eq!(key_must_be_scalar(), key_error());
    assert_eq!(k.output, "so far");
    assert_eq!(k.serialize_seq(Some(1)).unwrap_err().to_string(), "key must be scalar");
}

#[test]
fn key_printer_writes_compound_punctuation_like_the_printer() {
    let mut k = KeySerializer::default();
    k.output.push('[');
    k.serialize_element().unwrap();
    k.serialize_u8(1).unwrap();
    k.serialize_element().unwrap();
    k.serialize_u8(2).unwrap();
    k.end_seq().unwrap();
    assert_eq!(k.output, "[1,2]");

    let mut k = KeySerializer::default();
    k.output.push('{');
    k.serialize_key().unwrap();
    k.serialize_str("a").unwrap();
    k.serialize_value().unwrap();
    k.serialize_u8(1).unwrap();
    k.serialize_key().unwrap();
    k.serialize_str("b").unwrap();
    k.serialize_value().unwrap();
    k.serialize_u8(2).unwrap();
    k.serialize_field("c d").unwrap();
    k.serialize_u8(3).unwrap();
    k.end_map().unwrap();
    k.end_tuple_variant().unwrap();
    k.end_struct_variant().unwrap();
    assert_eq!(k.output, "{a=>1,b=>2,'c d'=>3}]}}}");
}
