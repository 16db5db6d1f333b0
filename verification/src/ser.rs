//! The printer for typed values: one method for each kind of value that a
//! serialization framework presents, each appending to the output.
//!
//! A compound value is written by its opening method, one call for each
//! element, and its closing method; the values of the elements are written
//! between these calls.

use vstd::prelude::*;
use crate::error::Error;
use crate::print::fat_comma;
use crate::quote::{bare_quote, decimal, int_quote, key_text, single_quote, single_quoted};
use crate::text::{decode_lossy, push_text, utf8_lossy};
use crate::text::ends_with;

pub mod key;

verus! {

/// The text of a boolean.
pub open spec fn bool_text(v: bool) -> Seq<char> {
    if v {
        seq!['1']
    } else {
        seq!['0']
    }
}

/// The word for an absent value.
pub open spec fn null_text() -> Seq<char> {
    seq!['n', 'u', 'l', 'l']
}

/// What is written in front of an element: nothing right after the opening
/// character `open`, else a comma.
pub open spec fn separator(output: Seq<char>, open: char) -> Seq<char> {
    if output.len() > 0 && output.last() == open {
        Seq::empty()
    } else {
        seq![',']
    }
}

/// Appends the separator that an element needs after `open`.
pub fn separate(output: &mut String, open: char)
    ensures
        final(output)@ == old(output)@ + separator(old(output)@, open),
{
    if !ends_with(output.as_str(), open) {
        output.push(',');
    } else {
        assert(output@ == old(output)@ + Seq::<char>::empty());
    }
}

/// The printer for typed values.
pub struct Serializer {
    /// What has been written.
    pub output: String,
}

impl Default for Serializer {
    fn default() -> (s: Serializer)
        ensures
            s.output@ == Seq::<char>::empty(),
    {
        Serializer { output: String::new() }
    }
}

impl Serializer {
    /// Writes a string as a single-quoted literal.
    pub fn serialize_str(&mut self, value: &str) -> (r: Result<(), Error>)
        ensures
            r is Ok,
            final(self).output@ == old(self).output@ + single_quoted(value@),
    {
        single_quote(&mut self.output, value);
        Ok(())
    }

    /// 128-bit integers are not written: the result is an error, and nothing
    /// is added to the output.
    pub fn serialize_i128(&mut self, v: i128) -> (r: Result<(), Error>)
        ensures
            r matches Err(Error::Message(m)) && m@ == "i128 is not supported"@,
            final(self).output@ == old(self).output@,
    {
        Err(Error::custom("i128 is not supported"))
    }

    /// 128-bit integers are not written: the result is an error, and nothing
    /// is added to the output.
    pub fn serialize_u128(&mut self, v: u128) -> (r: Result<(), Error>)
        ensures
            r matches Err(Error::Message(m)) && m@ == "u128 is not supported"@,
            final(self).output@ == old(self).output@,
    {
        Err(Error::custom("u128 is not supported"))
    }

    /// Writes `1` for true and `0` for false.
    pub fn serialize_bool(&mut self, v: bool) -> (r: Result<(), Error>)
        ensures
            r is Ok,
            final(self).output@ == old(self).output@ + bool_text(v),
    {
        if v {
            self.output.push('1');
        } else {
            self.output.push('0');
        }
        Ok(())
    }

    /// Writes the decimal text of `v`.
    pub fn serialize_i8(&mut self, v: i8) -> (r: Result<(), Error>)
        ensures
            r is Ok,
            final(self).output@ == old(self).output@ + decimal(v as int),
    {
        int_quote(&mut self.output, v as i128);
        Ok(())
    }

    /// Writes the decimal text of `v`.
    pub fn serialize_i16(&mut self, v: i16) -> (r: Result<(), Error>)
        ensures
            r is Ok,
            final(self).output@ == old(self).output@ + decimal(v as int),
    {
        int_quote(&mut self.output, v as i128);
        Ok(())
    }

    /// Writes the decimal text of `v`.
    pub fn serialize_i32(&mut self, v: i32) -> (r: Result<(), Error>)
        ensures
            r is Ok,
            final(self).output@ == old(self).output@ + decimal(v as int),
    {
        int_quote(&mut self.output, v as i128);
        Ok(())
    }

    /// Writes the decimal text of `v`.
    pub fn serialize_i64(&mut self, v: i64) -> (r: Result<(), Error>)
        ensures
            r is Ok,
            final(self).output@ == old(self).output@ + decimal(v as int),
    {
        int_quote(&mut self.output, v as i128);
        Ok(())
    }

    /// Writes the decimal text of `v`.
    pub fn serialize_u8(&mut self, v: u8) -> (r: Result<(), Error>)
        ensures
            r is Ok,
            final(self).output@ == old(self).output@ + decimal(v as int),
    {
        int_quote(&mut self.output, v as i128);
        Ok(())
    }

    /// Writes the decimal text of `v`.
    pub fn serialize_u16(&mut self, v: u16) -> (r: Result<(), Error>)
        ensures
            r is Ok,
            final(self).output@ == old(self).output@ + decimal(v as int),
    {
        int_quote(&mut self.output, v as i128);
        Ok(())
    }

    /// Writes the decimal text of `v`.
    pub fn serialize_u32(&mut self, v: u32) -> (r: Result<(), Error>)
        ensures
            r is Ok,
            final(self).output@ == old(self).output@ + decimal(v as int),
    {
        int_quote(&mut self.output, v as i128);
        Ok(())
    }

    /// Writes the decimal text of `v`.
    pub fn serialize_u64(&mut self, v: u64) -> (r: Result<(), Error>)
        ensures
            r is Ok,
            final(self).output@ == old(self).output@ + decimal(v as int),
    {
        int_quote(&mut self.output, v as i128);
        Ok(())
    }

    /// Writes a 32-bit float, given as its shortest decimal text that reads
    /// back as the same number.
    pub fn serialize_f32(&mut self, text: &str) -> (r: Result<(), Error>)
        ensures
            r is Ok,
            final(self).output@ == old(self).output@ + text@,
    {
        push_text(&mut self.output, text);
        Ok(())
    }

    /// Writes a 64-bit float, given as its shortest decimal text that reads
    /// back as the same number.
    pub fn serialize_f64(&mut self, text: &str) -> (r: Result<(), Error>)
        ensures
            r is Ok,
            final(self).output@ == old(self).output@ + text@,
    {
        push_text(&mut self.output, text);
        Ok(())
    }

    /// Writes a character as a single-quoted string.
    pub fn serialize_char(&mut self, v: char) -> (r: Result<(), Error>)
        ensures
            r is Ok,
            final(self).output@ == old(self).output@ + single_quoted(seq![v]),
    {
        let mut text = String::new();
        text.push(v);
        assert(text@ == seq![v]);
        single_quote(&mut self.output, text.as_str());
        Ok(())
    }

    /// Writes bytes as a single-quoted string: the text they encode in
    /// UTF-8, with each invalid sequence replaced.
    pub fn serialize_bytes(&mut self, v: &[u8]) -> (r: Result<(), Error>)
        ensures
            r is Ok,
            final(self).output@ == old(self).output@ + single_quoted(utf8_lossy(v@)),
    {
        let text = decode_lossy(v);
        single_quote(&mut self.output, text.as_str());
        Ok(())
    }

    /// Writes the word `null` for an absent value.
    pub fn serialize_none(&mut self) -> (r: Result<(), Error>)
        ensures
            r is Ok,
            final(self).output@ == old(self).output@ + null_text(),
    {
        self.output.push('n');
        self.output.push('u');
        self.output.push('l');
        self.output.push('l');
        assert(self.output@ == old(self).output@ + null_text());
        Ok(())
    }

    /// Writes nothing for the unit value.
    pub fn serialize_unit(&mut self) -> (r: Result<(), Error>)
        ensures
            r is Ok,
            final(self).output@ == old(self).output@,
    {
        Ok(())
    }

    /// Writes the name of a unit struct, unquoted.
    pub fn serialize_unit_struct(&mut self, name: &str) -> (r: Result<(), Error>)
        ensures
            r is Ok,
            final(self).output@ == old(self).output@ + name@,
    {
        push_text(&mut self.output, name);
        Ok(())
    }

    /// Writes the name of a unit variant, unquoted.
    pub fn serialize_unit_variant(&mut self, name: &str, variant_index: u32, variant: &str) -> (r:
        Result<(), Error>)
        ensures
            r is Ok,
            final(self).output@ == old(self).output@ + variant@,
    {
        push_text(&mut self.output, variant);
        Ok(())
    }

    /// Writes the name of a newtype struct; the value it wraps is written
    /// right after it.
    pub fn serialize_newtype_struct(&mut self, name: &str) -> (r: Result<(), Error>)
        ensures
            r is Ok,
            final(self).output@ == old(self).output@ + name@,
    {
        push_text(&mut self.output, name);
        Ok(())
    }

    /// Writes the name of a newtype variant; the value it wraps is written
    /// right after it.
    pub fn serialize_newtype_variant(
        &mut self,
        name: &str,
        variant_index: u32,
        variant: &str,
    ) -> (r: Result<(), Error>)
        ensures
            r is Ok,
            final(self).output@ == old(self).output@ + variant@,
    {
        push_text(&mut self.output, variant);
        Ok(())
    }

    /// Opens a sequence: writes `[`.
    pub fn serialize_seq(&mut self, len: Option<usize>) -> (r: Result<(), Error>)
        ensures
            r is Ok,
            final(self).output@ == old(self).output@ + seq!['['],
    {
        self.output.push('[');
        Ok(())
    }

    /// Opens a tuple: writes `[`.
    pub fn serialize_tuple(&mut self, len: usize) -> (r: Result<(), Error>)
        ensures
            r is Ok,
            final(self).output@ == old(self).output@ + seq!['['],
    {
        self.output.push('[');
        Ok(())
    }

    /// Opens a tuple struct: writes `[`.
    pub fn serialize_tuple_struct(&mut self, name: &str, len: usize) -> (r: Result<(), Error>)
        ensures
            r is Ok,
            final(self).output@ == old(self).output@ + seq!['['],
    {
        self.output.push('[');
        Ok(())
    }

    /// Opens a tuple variant: writes `{`, the name of the variant and `[`.
    pub fn serialize_tuple_variant(
        &mut self,
        name: &str,
        variant_index: u32,
        variant: &str,
        len: usize,
    ) -> (r: Result<(), Error>)
        ensures
            r is Ok,
            final(self).output@ == old(self).output@ + seq!['{'] + variant@ + seq!['['],
    {
        self.output.push('{');
        push_text(&mut self.output, variant);
        self.output.push('[');
        Ok(())
    }

    /// Opens a map: writes `{`.
    pub fn serialize_map(&mut self, len: Option<usize>) -> (r: Result<(), Error>)
        ensures
            r is Ok,
            final(self).output@ == old(self).output@ + seq!['{'],
    {
        self.output.push('{');
        Ok(())
    }

    /// Opens a struct: writes `{`.
    pub fn serialize_struct(&mut self, name: &str, len: usize) -> (r: Result<(), Error>)
        ensures
            r is Ok,
            final(self).output@ == old(self).output@ + seq!['{'],
    {
        self.output.push('{');
        Ok(())
    }

    /// Opens a struct variant: writes `{`, the name of the variant and `{`.
    pub fn serialize_struct_variant(
        &mut self,
        name: &str,
        variant_index: u32,
        variant: &str,
        len: usize,
    ) -> (r: Result<(), Error>)
        ensures
            r is Ok,
            final(self).output@ == old(self).output@ + seq!['{'] + variant@ + seq!['{'],
    {
        self.output.push('{');
        push_text(&mut self.output, variant);
        self.output.push('{');
        Ok(())
    }

    /// Writes the key of a map entry, as the key printer rendered it: a
    /// comma, unless the entry is the first after the opening brace, then the
    /// text of the key.
    pub fn serialize_key(&mut self, key: &key::KeySerializer) -> (r: Result<(), Error>)
        ensures
            r is Ok,
            final(self).output@ == old(self).output@ + separator(old(self).output@, '{')
                + key.output@,
    {
        separate(&mut self.output, '{');
        push_text(&mut self.output, key.output.as_str());
        Ok(())
    }

    /// Starts an element of a sequence or a tuple: writes a comma, unless the
    /// element is the first after the opening bracket.
    pub fn serialize_element(&mut self) -> (r: Result<(), Error>)
        ensures
            r is Ok,
            final(self).output@ == old(self).output@ + separator(old(self).output@, '['),
    {
        separate(&mut self.output, '[');
        Ok(())
    }

    /// Starts the value of a map entry: writes `=>`.
    pub fn serialize_value(&mut self) -> (r: Result<(), Error>)
        ensures
            r is Ok,
            final(self).output@ == old(self).output@ + fat_comma(),
    {
        self.output.push('=');
        self.output.push('>');
        assert(self.output@ == old(self).output@ + fat_comma());
        Ok(())
    }

    /// Starts a field of a struct: writes a comma, unless the field is the
    /// first after the opening brace, then the name of the field as a key,
    /// then `=>`.
    pub fn serialize_field(&mut self, key: &str) -> (r: Result<(), Error>)
        ensures
            r is Ok,
            final(self).output@ == old(self).output@ + separator(old(self).output@, '{')
                + key_text(key@) + fat_comma(),
    {
        separate(&mut self.output, '{');
        bare_quote(&mut self.output, key);
        self.output.push('=');
        self.output.push('>');
        assert(self.output@ == old(self).output@ + separator(old(self).output@, '{') + key_text(
            key@,
        ) + fat_comma());
        Ok(())
    }

    /// Ends a sequence, a tuple or a tuple struct: writes `]`.
    pub fn end_seq(&mut self) -> (r: Result<(), Error>)
        ensures
            r is Ok,
            final(self).output@ == old(self).output@ + seq![']'],
    {
        self.output.push(']');
        Ok(())
    }

    /// Ends a tuple variant: writes `]}`.
    pub fn end_tuple_variant(&mut self) -> (r: Result<(), Error>)
        ensures
            r is Ok,
            final(self).output@ == old(self).output@ + seq![']', '}'],
    {
        self.output.push(']');
        self.output.push('}');
        assert(self.output@ == old(self).output@ + seq![']', '}']);
        Ok(())
    }

    /// Ends a map or a struct: writes `}`.
    pub fn end_map(&mut self) -> (r: Result<(), Error>)
        ensures
            r is Ok,
            final(self).output@ == old(self).output@ + seq!['}'],
    {
        self.output.push('}');
        Ok(())
    }

    /// Ends a struct variant: writes `}}`.
    pub fn end_struct_variant(&mut self) -> (r: Result<(), Error>)
        ensures
            r is Ok,
            final(self).output@ == old(self).output@ + seq!['}', '}'],
    {
        self.output.push('}');
        self.output.push('}');
        assert(self.output@ == old(self).output@ + seq!['}', '}']);
        Ok(())
    }
}

} // verus!
