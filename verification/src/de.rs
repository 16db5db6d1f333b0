//! The bridge from the value tree to typed values: what a scalar presents
//! itself as to a deserialization framework.

use vstd::prelude::*;
use crate::error::Error;
use crate::grammar::scalar_at;
use crate::parser::parse;
use crate::value::{models, Scalar, Value};

verus! {

/// What a scalar presents itself as, with what it holds.
#[derive(Debug, PartialEq)]
pub enum Notification {
    /// The unit value, for `undef`.
    Unit,
    /// A 64-bit signed integer.
    Int(i64),
    /// A 64-bit float, as its decimal text.
    Float(String),
    /// A string.
    Text(String),
    /// A map, with its entries.
    Hash(Vec<(String, Scalar)>),
    /// A sequence, with its elements in order.
    Array(Vec<Scalar>),
}

/// The mathematical content of a notification.
pub enum Notice {
    /// The unit value.
    Unit,
    /// A 64-bit signed integer.
    Int(i64),
    /// A 64-bit float, as its decimal text.
    Float(Seq<char>),
    /// A string.
    Text(Seq<char>),
    /// A map.
    Hash(Map<Seq<char>, Value>),
    /// A sequence.
    Array(Seq<Value>),
}

impl View for Notification {
    type V = Notice;

    open spec fn view(&self) -> Notice {
        match self {
            Notification::Unit => Notice::Unit,
            Notification::Int(i) => Notice::Int(*i),
            Notification::Float(t) => Notice::Float(t@),
            Notification::Text(t) => Notice::Text(t@),
            Notification::Hash(entries) => Notice::Hash(crate::value::Hash(*entries)@),
            Notification::Array(items) => Notice::Array(models(items@)),
        }
    }
}

impl Notification {
    /// Every hash inside this notification has distinct keys.
    pub open spec fn wf(&self) -> bool {
        match self {
            Notification::Hash(entries) => crate::value::Hash(*entries).wf(),
            Notification::Array(items) => forall|k: int|
                0 <= k < items@.len() ==> (#[trigger] items@[k]).wf(),
            _ => true,
        }
    }
}

/// What a value presents itself as: `undef` as the unit value; an integer,
/// a float and a string as themselves; a reference to a hash as a map; a
/// reference to an array as a sequence; and a reference to a scalar as
/// what that scalar presents itself as.
pub open spec fn notice(v: Value) -> Notice
    decreases v,
{
    match v {
        Value::Undefined => Notice::Unit,
        Value::Int(i) => Notice::Int(i),
        Value::Float(t) => Notice::Float(t),
        Value::String(t) => Notice::Text(t),
        Value::Hash(m) => Notice::Hash(m),
        Value::Array(a) => Notice::Array(a),
        Value::Ref(inner) => notice(*inner),
    }
}

/// A scalar on its way to a typed value.
#[derive(Debug, PartialEq)]
pub struct Deserializer {
    /// The scalar to present.
    pub scalar: Scalar,
}

fn present(scalar: Scalar) -> (n: Notification)
    ensures
        n@ == notice(scalar@),
        scalar.wf() ==> n.wf(),
    decreases scalar,
{
    match scalar {
        Scalar::Undefined => Notification::Unit,
        Scalar::Int(i) => Notification::Int(i),
        Scalar::Float(t) => Notification::Float(t),
        Scalar::String(t) => Notification::Text(t),
        Scalar::Reference(r) => match *r {
            crate::value::Reference::Hash(h) => {
                let crate::value::Hash(entries) = *h;
                assert(crate::value::Hash(entries) == *h);
                Notification::Hash(entries)
            },
            crate::value::Reference::Array(a) => {
                let crate::value::Array(items) = *a;
                assert(a.items() == models(items@));
                assert(a.wf() ==> forall|k: int|
                    0 <= k < items@.len() ==> (#[trigger] items@[k]).wf()) by {
                    if a.wf() {
                        assert forall|k: int| 0 <= k < items@.len() implies (
                        #[trigger] items@[k]).wf() by {
                            assert(a.0[k].wf());
                        }
                    }
                }
                Notification::Array(items)
            },
            crate::value::Reference::Scalar(inner) => present(*inner),
        },
    }
}

impl Deserializer {
    /// A deserializer for `scalar`.
    pub fn new(scalar: Scalar) -> (d: Deserializer)
        ensures
            d.scalar == scalar,
    {
        Deserializer { scalar }
    }

    /// What the scalar presents itself as, whatever shape is asked for.
    pub fn deserialize_any(self) -> (n: Notification)
        ensures
            n@ == notice(self.scalar@),
            self.scalar.wf() ==> n.wf(),
    {
        present(self.scalar)
    }

    /// This encoding is text, meant to be read by people.
    pub fn is_human_readable(&self) -> (b: bool)
        ensures
            b,
    {
        true
    }
}

impl Scalar {
    /// A deserializer for this scalar.
    pub fn into_deserializer(self) -> (d: Deserializer)
        ensures
            d.scalar == self,
    {
        Deserializer::new(self)
    }
}

/// A deserializer for a copy of `scalar`.
pub fn from_perl(scalar: &Scalar) -> (d: Deserializer)
    ensures
        d.scalar@ == scalar@,
        scalar.wf() ==> d.scalar.wf(),
{
    Deserializer::new(scalar.clone())
}

/// Parses a scalar at the start of `input` and gives a deserializer for it.
pub fn from_str(input: &str) -> (r: Result<Deserializer, Error>)
    ensures
        match scalar_at(input@, 0) {
            Ok((v, _)) => r matches Ok(d) && d.scalar@ == v && d.scalar.wf(),
            Err(e) => r matches Err(Error::Nom(text)) && text@ == crate::error::nom_error_text(
                input@.subrange(e.at, input@.len() as int),
                e.rule,
            ),
        },
{
    match parse(input) {
        Ok(scalar) => Ok(Deserializer::new(scalar)),
        Err(e) => Err(e),
    }
}

} // verus!
