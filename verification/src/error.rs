//! The two kinds of failure: a parse failure, carried as text, and a message
//! raised while printing or converting.

use vstd::prelude::*;
use vstd::string::StringExecFns;

verus! {

/// The grammar rule that did not match.
#[derive(Debug, Clone, Copy, PartialEq, Eq, Structural)]
pub enum Rule {
    /// A fixed word such as `undef` or `=>` was expected.
    Tag,
    /// A run of digits was expected.
    Digit,
    /// One particular character was expected.
    Char,
    /// A character out of a fixed set was expected.
    OneOf,
    /// A run of identifier characters was expected.
    TakeWhile1,
    /// A backslash ends the input inside a raw string.
    Escaped,
    /// A backslash ends the input inside a double-quoted string.
    EscapedTransform,
    /// The text of a number literal does not denote a number that fits.
    MapRes,
}

/// A failure of this library.
#[derive(Debug, PartialEq, Eq)]
pub enum Error {
    /// A printer or a conversion could not go on; the text says why.
    Message(String),
    /// The input is not a literal of the grammar; the text names the
    /// unconsumed input and the rule that failed.
    Nom(String),
}

/// A parse failure: the input that was not consumed and the rule that did
/// not match it.
#[derive(Debug, PartialEq, Eq)]
pub struct ParseError {
    /// The input from the point of failure on.
    pub rest: String,
    /// The rule that failed there.
    pub rule: Rule,
}

/// The text that `nom` displays for an error of the kind `rule` at the input
/// `rest`.
pub uninterp spec fn nom_error_text(rest: Seq<char>, rule: Rule) -> Seq<char>;

/// Builds `nom::Err::Error(nom::error::Error::new(rest, kind))`, with the
/// `nom::error::ErrorKind` of the same name as `rule`, and displays it.
/// Trusted: the text depends on `rest` and `rule` alone.
#[verifier::external_body]
fn nom_display(rest: &str, rule: Rule) -> (text: String)
    ensures
        text@ == nom_error_text(rest@, rule),
{
    let kind = match rule {
        Rule::Tag => nom::error::ErrorKind::Tag,
        Rule::Digit => nom::error::ErrorKind::Digit,
        Rule::Char => nom::error::ErrorKind::Char,
        Rule::OneOf => nom::error::ErrorKind::OneOf,
        Rule::TakeWhile1 => nom::error::ErrorKind::TakeWhile1,
        Rule::Escaped => nom::error::ErrorKind::Escaped,
        Rule::EscapedTransform => nom::error::ErrorKind::EscapedTransform,
        Rule::MapRes => nom::error::ErrorKind::MapRes,
    };
    format!("{}", nom::Err::Error(nom::error::Error::new(rest, kind)))
}

impl ParseError {
    /// The description of this failure, in the words of `nom`.
    pub fn describe(&self) -> (text: String)
        ensures
            text@ == nom_error_text(self.rest@, self.rule),
    {
        nom_display(self.rest.as_str(), self.rule)
    }

    /// This failure as an error of the library.
    pub fn into_error(self) -> (e: Error)
        ensures
            e matches Error::Nom(text) && text@ == nom_error_text(self.rest@, self.rule),
    {
        Error::Nom(self.describe())
    }
}

/// What `Error::to_string` puts in front of the text of a parse failure.
pub open spec fn parse_error_prefix() -> Seq<char> {
    "parse error: "@
}

impl Error {
    /// The text this error displays as.
    pub open spec fn text(&self) -> Seq<char> {
        match self {
            Error::Message(m) => m@,
            Error::Nom(m) => parse_error_prefix() + m@,
        }
    }

    /// An error that carries `msg`.
    pub fn custom(msg: &str) -> (e: Error)
        ensures
            e == Error::Message(e->Message_0),
            e->Message_0@ == msg@,
    {
        Error::Message(msg.to_owned())
    }

    /// The display text: the message itself, or `parse error: ` and the
    /// description of the parse failure.
    pub fn to_string(&self) -> (s: String)
        ensures
            s@ == self.text(),
    {
        match self {
            Error::Message(m) => m.clone(),
            Error::Nom(m) => {
                let mut s = String::from_str("parse error: ");
                s.append(m.as_str());
                s
            },
        }
    }
}

} // verus!
