//! Perl data literals: a grammar for `undef`, numbers, strings, array
//! references, hash references and scalar references; the value tree the
//! grammar produces; and printers that render values back into that grammar.
//!
//! Every function in this crate is verified against the contract written on
//! it.  The handful of calls into other crates and into unspecified parts of
//! the standard library are collected in small trusted items, each documented
//! where it is declared.

pub mod error;
pub mod text;
pub mod quote;
pub mod value;
pub mod grammar;
pub mod progress;
pub mod parser;
pub mod print;
pub mod roundtrip;
pub mod ser;
pub mod de;

pub use de::{from_perl, from_str, Deserializer};
pub use error::{Error, ParseError, Rule};
pub use parser::parse;
pub use print::to_string;
pub use ser::key::KeySerializer;
pub use ser::Serializer;
pub use quote::{bare_quote, int_quote, is_bareword, single_quote};
pub use value::{Array, Reference, Scalar, Value};
