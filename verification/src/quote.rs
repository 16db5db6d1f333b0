//! Rendering of strings and integers as literals.

use vstd::prelude::*;
use crate::text::{is_word, push_text, word};

verus! {

/// `s` with a backslash in front of every `'` and every `\`.
pub open spec fn escaped(s: Seq<char>) -> Seq<char>
    decreases s.len(),
{
    if s.len() == 0 {
        Seq::empty()
    } else if s.last() == '\'' || s.last() == '\\' {
        escaped(s.drop_last()).push('\\').push(s.last())
    } else {
        escaped(s.drop_last()).push(s.last())
    }
}

/// The single-quoted literal that denotes `s`.
pub open spec fn single_quoted(s: Seq<char>) -> Seq<char> {
    seq!['\''] + escaped(s) + seq!['\'']
}

/// A string that can stand unquoted to the left of `=>`: not empty, and made
/// of ASCII letters, ASCII digits and underscores only.
pub open spec fn bareword(s: Seq<char>) -> bool {
    s.len() > 0 && forall|i: int| 0 <= i < s.len() ==> is_word(#[trigger] s[i])
}

/// The text of a hash key: the key itself where it is a bareword, else the
/// single-quoted literal.
pub open spec fn key_text(s: Seq<char>) -> Seq<char> {
    if bareword(s) {
        s
    } else {
        single_quoted(s)
    }
}

/// The character that writes the digit `d`.
pub open spec fn digit_char(d: int) -> char {
    if d == 0 {
        '0'
    } else if d == 1 {
        '1'
    } else if d == 2 {
        '2'
    } else if d == 3 {
        '3'
    } else if d == 4 {
        '4'
    } else if d == 5 {
        '5'
    } else if d == 6 {
        '6'
    } else if d == 7 {
        '7'
    } else if d == 8 {
        '8'
    } else {
        '9'
    }
}

/// The decimal digits of `n`, most significant first, without a leading zero
/// (the number zero is the single digit `0`).
pub open spec fn digits(n: nat) -> Seq<char>
    decreases n,
{
    if n < 10 {
        seq![digit_char(n as int)]
    } else {
        digits(n / 10).push(digit_char((n % 10) as int))
    }
}

/// The decimal text of `i`: a minus sign where `i` is negative, then the
/// digits of its magnitude.
pub open spec fn decimal(i: int) -> Seq<char> {
    if i < 0 {
        seq!['-'] + digits((-i) as nat)
    } else {
        digits(i as nat)
    }
}

/// Calls `itoa::Buffer::format`.  Trusted: itoa writes an integer as its
/// decimal text, with a minus sign in front of a negative number and no
/// leading zero.
#[verifier::external_body]
fn itoa_format(value: i128) -> (text: String)
    ensures
        text@ == decimal(value as int),
{
    let mut buffer = itoa::Buffer::new();
    buffer.format(value).to_string()
}

/// Appends `value` to `output` as a single-quoted literal.
pub fn single_quote(output: &mut String, value: &str)
    ensures
        final(output)@ == old(output)@ + single_quoted(value@),
{
    broadcast use vstd::string::group_string_axioms;

    output.push('\'');
    for c in it: value.chars()
        invariant
            it.seq() == value@,
            output@ == old(output)@ + seq!['\''] + escaped(value@.take(it.index())),
    {
        proof {
            let k = it.index();
            assert(value@.take(k + 1).drop_last() == value@.take(k));
            assert(value@.take(k + 1).last() == c);
        }
        if c == '\'' || c == '\\' {
            output.push('\\');
        }
        output.push(c);
    }
    assert(value@.take(value@.len() as int) == value@);
    output.push('\'');
}

/// Whether `value` can stand unquoted as a hash key.
pub fn is_bareword(value: &str) -> (b: bool)
    ensures
        b == bareword(value@),
{
    broadcast use vstd::string::group_string_axioms;

    if value.unicode_len() == 0 {
        return false;
    }
    let mut all: bool = true;
    for c in it: value.chars()
        invariant
            it.seq() == value@,
            all == forall|i: int| 0 <= i < it.index() ==> is_word(#[trigger] value@[i]),
    {
        if !word(c) {
            all = false;
        }
    }
    all
}

/// Appends `value` to `output` as a hash key: unquoted where it can be,
/// single-quoted otherwise.
pub fn bare_quote(output: &mut String, value: &str)
    ensures
        final(output)@ == old(output)@ + key_text(value@),
{
    if is_bareword(value) {
        push_text(output, value);
    } else {
        single_quote(output, value);
    }
}

/// Appends the decimal text of `value` to `output`.
pub fn int_quote(output: &mut String, value: i128)
    ensures
        final(output)@ == old(output)@ + decimal(value as int),
{
    let text = itoa_format(value);
    push_text(output, text.as_str());
}

/// Printing a key is stable: two printings of the same key after the same
/// output give the same text.
pub proof fn lemma_bare_quote_stable(
    before: Seq<char>,
    key: Seq<char>,
    first: Seq<char>,
    second: Seq<char>,
)
    requires
        first == before + key_text(key),
        second == before + key_text(key),
    ensures
        first == second,
{
}

} // verus!
