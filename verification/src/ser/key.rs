//! The printer for the keys of maps and structs.  A key is a scalar: a
//! string is written unquoted where it can be, and no compound value is
//! accepted.

use vstd::prelude::*;
use crate::error::Error;
use crate::print::fat_comma;
use crate::quote::{bare_quote, decimal, int_quote, key_text, single_quote, single_quoted};
use crate::text::{decode_lossy, push_text, utf8_lossy};
use crate::ser::{bool_text, null_text, separate, separator};

verus! {

/// What the key printer says of a value that is no scalar.
pub open spec fn key_error_text() -> Seq<char> {
    "key must be scalar"@
}

/// The result is the key error.
pub open spec fn is_key_error(r: Result<(), Error>) -> bool {
    r matches Err(Error::Message(m)) && m@ == key_error_text()
}

/// The key error.
pub fn key_must_be_scalar() -> (r: Result<(), Error>)
    ensures
        is_key_error(r),
{
    Err(Error::custom("key must be scalar"))
}

/// The printer for keys.
pub struct KeySerializer {
    /// What has been written.
    pub output: String,
}

impl Default for KeySerializer {
    fn default() -> (s: KeySerializer)
        ensures
            s.output@ == Seq::<char>::empty(),
    {
        KeySerializer { output: String::new() }
    }
}

impl KeySerializer {
    /// Writes a string key: as it is where it is a bareword, else as a
    /// single-quoted literal.
    pub fn serialize_str(&mut self, value: &str) -> (r: Result<(), Error>)
        ensures
            r is Ok,
            final(self).output@ == old(self).output@ + key_text(value@),
    {
        bare_quote(&mut self.output, value);
        Ok(())
    }

    /// 128-bit integers are not written: the result is an error, and nothing
    /// is added to the output.
    pub fn serialize_i128(&mut self, v: i128) -> (r: Result<(), Error>)
        ensures
            r matches Err(Error::Message(m)) && m@ == "i128 is not supported"@,
            final(self).output@ == old(self).output@,
    {
        Err(Error::custom("i128 is not supported"))
    }

    /// 128-bit integers are not written: the result is an error, and nothing
    /// is added to the output.
    pub fn serialize_u128(&mut self, v: u128) -> (r: Result<(), Error>)
        ensures
            r matches Err(Error::Message(m)) && m@ == "u128 is not supported"@,
            final(self).output@ == old(self).output@,
    {
        Err(Error::custom("u128 is not supported"))
    }

    /// Writes `1` for true and `0` for false.
    pub fn serialize_bool(&mut self, v: bool) -> (r: Result<(), Error>)
        ensures
            r is Ok,
            final(self).output@ == old(self).output@ + bool_text(v),
    {
        if v {
            self.output.push('1');
        } else {
            self.output.push('0');
        }
        Ok(())
    }

    /// Writes the decimal text of `v`.
    pub fn serialize_i8(&mut self, v: i8) -> (r: Result<(), Error>)
        ensures
            r is Ok,
            final(self).output@ == old(self).output@ + decimal(v as int),
    {
        int_quote(&mut self.output, v as i128);
        Ok(())
    }

    /// Writes the decimal text of `v`.
    pub fn serialize_i16(&mut self, v: i16) -> (r: Result<(), Error>)
        ensures
            r is Ok,
            final(self).output@ == old(self).output@ + decimal(v as int),
    {
        int_quote(&mut self.output, v as i128);
        Ok(())
    }

    /// Writes the decimal text of `v`.
    pub fn serialize_i32(&mut self, v: i32) -> (r: Result<(), Error>)
        ensures
            r is Ok,
            final(self).output@ == old(self).output@ + decimal(v as int),
    {
        int_quote(&mut self.output, v as i128);
        Ok(())
    }

    /// Writes the decimal text of `v`.
    pub fn serialize_i64(&mut self, v: i64) -> (r: Result<(), Error>)
        ensures
            r is Ok,
            final(self).output@ == old(self).output@ + decimal(v as int),
    {
        int_quote(&mut self.output, v as i128);
        Ok(())
    }

    /// Writes the decimal text of `v`.
    pub fn serialize_u8(&mut self, v: u8) -> (r: Result<(), Error>)
        ensures
            r is Ok,
            final(self).output@ == old(self).output@ + decimal(v as int),
    {
        int_quote(&mut self.output, v as i128);
        Ok(())
    }

    /// Writes the decimal text of `v`.
    pub fn serialize_u16(&mut self, v: u16) -> (r: Result<(), Error>)
        ensures
            r is Ok,
            final(self).output@ == old(self).output@ + decimal(v as int),
    {
        int_quote(&mut self.output, v as i128);
        Ok(())
    }

    /// Writes the decimal text of `v`.
    pub fn serialize_u32(&mut self, v: u32) -> (r: Result<(), Error>)
        ensures
            r is Ok,
            final(self).output@ == old(self).output@ + decimal(v as int),
    {
        int_quote(&mut self.output, v as i128);
        Ok(())
    }

    /// Writes the decimal text of `v`.
    pub fn serialize_u64(&mut self, v: u64) -> (r: Result<(), Error>)
        ensures
            r is Ok,
            final(self).output@ == old(self).output@ + decimal(v as int),
    {
        int_quote(&mut self.output, v as i128);
        Ok(())
    }

    /// Writes a 32-bit float, given as its shortest decimal text that reads
    /// back as the same number.
    pub fn serialize_f32(&mut self, text: &str) -> (r: Result<(), Error>)
        ensures
            r is Ok,
            final(self).output@ == old(self).output@ + text@,
    {
        push_text(&mut self.output, text);
        Ok(())
    }

    /// Writes a 64-bit float, given as its shortest decimal text that reads
    /// back as the same number.
    pub fn serialize_f64(&mut self, text: &str) -> (r: Result<(), Error>)
        ensures
            r is Ok,
            final(self).output@ == old(self).output@ + text@,
    {
        push_text(&mut self.output, text);
        Ok(())
    }

    /// Writes a character as a single-quoted string.
    pub fn serialize_char(&mut self, v: char) -> (r: Result<(), Error>)
        ensures
            r is Ok,
            final(self).output@ == old(self).output@ + single_quoted(seq![v]),
    {
        let mut text = String::new();
        text.push(v);
        assert(text@ == seq![v]);
        single_quote(&mut self.output, text.as_str());
        Ok(())
    }

    /// Writes bytes as a single-quoted string: the text they encode in
    /// UTF-8, with each invalid sequence replaced.
    pub fn serialize_bytes(&mut self, v: &[u8]) -> (r: Result<(), Error>)
        ensures
            r is Ok,
            final(self).output@ == old(self).output@ + single_quoted(utf8_lossy(v@)),
    {
        let text = decode_lossy(v);
        single_quote(&mut self.output, text.as_str());
        Ok(())
    }

    /// Writes the word `null` for an absent value.
    pub fn serialize_none(&mut self) -> (r: Result<(), Error>)
        ensures
            r is Ok,
            final(self).output@ == old(self).output@ + null_text(),
    {
        self.output.push('n');
        self.output.push('u');
        self.output.push('l');
        self.output.push('l');
        assert(self.output@ == old(self).output@ + null_text());
        Ok(())
    }

    /// Writes nothing for the unit value.
    pub fn serialize_unit(&mut self) -> (r: Result<(), Error>)
        ensures
            r is Ok,
            final(self).output@ == old(self).output@,
    {
        Ok(())
    }

    /// Writes the name of a unit struct, unquoted.
    pub fn serialize_unit_struct(&mut self, name: &str) -> (r: Result<(), Error>)
        ensures
            r is Ok,
            final(self).output@ == old(self).output@ + name@,
    {
        push_text(&mut self.output, name);
        Ok(())
    }

    /// Writes the name of a unit variant, unquoted.
    pub fn serialize_unit_variant(&mut self, name: &str, variant_index: u32, variant: &str) -> (r:
        Result<(), Error>)
        ensures
            r is Ok,
            final(self).output@ == old(self).output@ + variant@,
    {
        push_text(&mut self.output, variant);
        Ok(())
    }

    /// Writes the name of a newtype struct; the value it wraps is written
    /// right after it.
    pub fn serialize_newtype_struct(&mut self, name: &str) -> (r: Result<(), Error>)
        ensures
            r is Ok,
            final(self).output@ == old(self).output@ + name@,
    {
        push_text(&mut self.output, name);
        Ok(())
    }

    /// Writes the name of a newtype variant; the value it wraps is written
    /// right after it.
    pub fn serialize_newtype_variant(
        &mut self,
        name: &str,
        variant_index: u32,
        variant: &str,
    ) -> (r: Result<(), Error>)
        ensures
            r is Ok,
            final(self).output@ == old(self).output@ + variant@,
    {
        push_text(&mut self.output, variant);
        Ok(())
    }

    /// A sequence cannot be a key: the result is the key error, and
    /// nothing is added to the output.
    pub fn serialize_seq(&mut self, len: Option<usize>) -> (r: Result<(), Error>)
        ensures
            is_key_error(r),
            final(self).output@ == old(self).output@,
    {
        key_must_be_scalar()
    }

    /// A map cannot be a key: the result is the key error, and
    /// nothing is added to the output.
    pub fn serialize_map(&mut self, len: Option<usize>) -> (r: Result<(), Error>)
        ensures
            is_key_error(r),
            final(self).output@ == old(self).output@,
    {
        key_must_be_scalar()
    }

    /// A struct cannot be a key: the result is the key error, and
    /// nothing is added to the output.
    pub fn serialize_struct(&mut self, name: &str, len: usize) -> (r: Result<(), Error>)
        ensures
            is_key_error(r),
            final(self).output@ == old(self).output@,
    {
        key_must_be_scalar()
    }

    /// A struct variant cannot be a key: the result is the key error, and
    /// nothing is added to the output.
    pub fn serialize_struct_variant(&mut self, name: &str, variant_index: u32, variant: &str, len: usize) -> (r: Result<(), Error>)
        ensures
            is_key_error(r),
            final(self).output@ == old(self).output@,
    {
        key_must_be_scalar()
    }

    /// A tuple cannot be a key: the result is the key error, and
    /// nothing is added to the output.
    pub fn serialize_tuple(&mut self, len: usize) -> (r: Result<(), Error>)
        ensures
            is_key_error(r),
            final(self).output@ == old(self).output@,
    {
        key_must_be_scalar()
    }

    /// A tuple struct cannot be a key: the result is the key error, and
    /// nothing is added to the output.
    pub fn serialize_tuple_struct(&mut self, name: &str, len: usize) -> (r: Result<(), Error>)
        ensures
            is_key_error(r),
            final(self).output@ == old(self).output@,
    {
        key_must_be_scalar()
    }

    /// A tuple variant cannot be a key: the result is the key error, and
    /// nothing is added to the output.
    pub fn serialize_tuple_variant(&mut self, name: &str, variant_index: u32, variant: &str, len: usize) -> (r: Result<(), Error>)
        ensures
            is_key_error(r),
            final(self).output@ == old(self).output@,
    {
        key_must_be_scalar()
    }

    /// Starts an element of a sequence or a tuple: writes a comma, unless the
    /// element is the first after the opening bracket.
    pub fn serialize_element(&mut self) -> (r: Result<(), Error>)
        ensures
            r is Ok,
            final(self).output@ == old(self).output@ + separator(old(self).output@, '['),
    {
        separate(&mut self.output, '[');
        Ok(())
    }

    /// Starts the key of a map entry: writes a comma, unless the entry is the
    /// first after the opening brace.
    pub fn serialize_key(&mut self) -> (r: Result<(), Error>)
        ensures
            r is Ok,
            final(self).output@ == old(self).output@ + separator(old(self).output@, '{'),
    {
        separate(&mut self.output, '{');
        Ok(())
    }

    /// Starts the value of a map entry: writes `=>`.
    pub fn serialize_value(&mut self) -> (r: Result<(), Error>)
        ensures
            r is Ok,
            final(self).output@ == old(self).output@ + fat_comma(),
    {
        self.output.push('=');
        self.output.push('>');
        assert(self.output@ == old(self).output@ + fat_comma());
        Ok(())
    }

    /// Starts a field of a struct: writes a comma, unless the field is the
    /// first after the opening brace, then the name of the field as a key,
    /// then `=>`.
    pub fn serialize_field(&mut self, key: &str) -> (r: Result<(), Error>)
        ensures
            r is Ok,
            final(self).output@ == old(self).output@ + separator(old(self).output@, '{')
                + key_text(key@) + fat_comma(),
    {
        separate(&mut self.output, '{');
        bare_quote(&mut self.output, key);
        self.output.push('=');
        self.output.push('>');
        assert(self.output@ == old(self).output@ + separator(old(self).output@, '{') + key_text(
            key@,
        ) + fat_comma());
        Ok(())
    }

    /// Ends a sequence, a tuple or a tuple struct: writes `]`.
    pub fn end_seq(&mut self) -> (r: Result<(), Error>)
        ensures
            r is Ok,
            final(self).output@ == old(self).output@ + seq![']'],
    {
        self.output.push(']');
        Ok(())
    }

    /// Ends a tuple variant: writes `]}`.
    pub fn end_tuple_variant(&mut self) -> (r: Result<(), Error>)
        ensures
            r is Ok,
            final(self).output@ == old(self).output@ + seq![']', '}'],
    {
        self.output.push(']');
        self.output.push('}');
        assert(self.output@ == old(self).output@ + seq![']', '}']);
        Ok(())
    }

    /// Ends a map or a struct: writes `}`.
    pub fn end_map(&mut self) -> (r: Result<(), Error>)
        ensures
            r is Ok,
            final(self).output@ == old(self).output@ + seq!['}'],
    {
        self.output.push('}');
        Ok(())
    }

    /// Ends a struct variant: writes `}}`.
    pub fn end_struct_variant(&mut self) -> (r: Result<(), Error>)
        ensures
            r is Ok,
            final(self).output@ == old(self).output@ + seq!['}', '}'],
    {
        self.output.push('}');
        self.output.push('}');
        assert(self.output@ == old(self).output@ + seq!['}', '}']);
        Ok(())
    }
}

} // verus!
