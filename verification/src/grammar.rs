//! The grammar, as mathematical functions on a sequence of characters.
//!
//! Each rule takes the whole input `s` and a position `i` in it, and gives
//! either the value it read together with the position just after it, or the
//! position and the rule at which it failed.  Where a rule is a choice, the
//! first alternative that matches wins; where none matches, the failure of
//! the last alternative is the failure of the choice.
//!
//! A few rules test that one position lies after another before they go on
//! from it.  No such test ever fails, as the lemmas of the module `progress`
//! show; the tests are there so that the definitions are seen to end.

use vstd::prelude::*;
use crate::error::Rule;
use crate::text::{is_digit, is_perl_digit_char, is_space, is_word};
use crate::value::{entries_map, float_text, Value};

verus! {

/// Where and at which rule a parse failed.
pub struct Failure {
    /// The position of the first character that was not consumed.
    pub at: int,
    /// The rule that did not match there.
    pub rule: Rule,
}

/// The outcome of a rule: the value and the position after it, or a failure.
pub type Parse<T> = Result<(T, int), Failure>;

/// The failure of `rule` at `at`.
pub open spec fn fail<T>(at: int, rule: Rule) -> Parse<T> {
    Err(Failure { at, rule })
}

/// The classes of characters that the grammar reads in runs.
#[derive(Debug, Clone, Copy, PartialEq, Eq, Structural)]
pub enum Class {
    /// Blanks, tabs, carriage returns and line feeds.
    Space,
    /// ASCII digits.
    Digit,
    /// ASCII digits and underscores.
    PerlDigit,
    /// ASCII letters, ASCII digits and underscores.
    Word,
}

/// Whether `c` belongs to `class`.
pub open spec fn member(class: Class, c: char) -> bool {
    match class {
        Class::Space => is_space(c),
        Class::Digit => is_digit(c),
        Class::PerlDigit => is_perl_digit_char(c),
        Class::Word => is_word(c),
    }
}

/// The position of the first character at or after `i` that is not in
/// `class`, or the end of the input.
pub open spec fn run_end(s: Seq<char>, i: int, class: Class) -> int
    decreases s.len() - i,
{
    if 0 <= i < s.len() && member(class, s[i]) {
        run_end(s, i + 1, class)
    } else {
        i
    }
}

/// A run ends at or after its start, within the input, at a character that
/// is not in the class, and holds only characters of the class.
pub proof fn lemma_run_end(s: Seq<char>, i: int, class: Class)
    requires
        0 <= i <= s.len(),
    ensures
        i <= run_end(s, i, class) <= s.len(),
        run_end(s, i, class) < s.len() ==> !member(class, s[run_end(s, i, class)]),
        forall|j: int| i <= j < run_end(s, i, class) ==> member(class, #[trigger] s[j]),
    decreases s.len() - i,
{
    if i < s.len() && member(class, s[i]) {
        lemma_run_end(s, i + 1, class);
    }
}

/// The character at position `i` is `c`.
pub open spec fn has_at(s: Seq<char>, i: int, c: char) -> bool {
    0 <= i < s.len() && s[i] == c
}

/// `undef`.
pub open spec fn undef_at(s: Seq<char>, i: int) -> Parse<Value> {
    if has_at(s, i, 'u') && has_at(s, i + 1, 'n') && has_at(s, i + 2, 'd') && has_at(s, i + 3, 'e')
        && has_at(s, i + 4, 'f') {
        Ok((Value::Undefined, i + 5))
    } else {
        fail(i, Rule::Tag)
    }
}

/// `t` without its underscores.
pub open spec fn strip_underscores(t: Seq<char>) -> Seq<char>
    decreases t.len(),
{
    if t.len() == 0 {
        Seq::empty()
    } else if t.last() == '_' {
        strip_underscores(t.drop_last())
    } else {
        strip_underscores(t.drop_last()).push(t.last())
    }
}

/// The number that the digit `c` stands for.
pub open spec fn digit_of(c: char) -> int {
    c as int - '0' as int
}

/// The number that the decimal digits `d` write; zero for no digits.
pub open spec fn digits_value(d: Seq<char>) -> int
    decreases d.len(),
{
    if d.len() == 0 {
        0
    } else {
        digits_value(d.drop_last()) * 10 + digit_of(d.last())
    }
}

/// The 64-bit integer that the digits `d` write, negated where `negative`:
/// none where there is no digit or the number does not fit.
pub open spec fn int_of(negative: bool, d: Seq<char>) -> Option<i64> {
    let v = if negative {
        -digits_value(d)
    } else {
        digits_value(d)
    };
    if d.len() > 0 && i64::MIN <= v <= i64::MAX {
        Some(v as i64)
    } else {
        None
    }
}

/// The digits `d`, or the digit `0` where there is none.
pub open spec fn or_zero(d: Seq<char>) -> Seq<char> {
    if d.len() == 0 {
        seq!['0']
    } else {
        d
    }
}

/// A number literal: an optional `-`, a run of digits and underscores, an
/// optional fraction (`.` and a run of digits and underscores), an optional
/// exponent (`e` or `E` and a run of digits).  Underscores separate digits
/// and count for nothing.
///
/// With a fraction the literal is a float.  Its text is the sign, the
/// integer digits, the point, the fraction digits and, where there is an
/// exponent, `e` and the exponent digits: the exponent scales the value, so
/// `1.5e3` is 1500.  A side of the point that has no digit is written `0`.
///
/// Without a fraction the literal is an integer.  Its digits are the integer
/// digits and then the exponent digits: the exponent marker is dropped, so
/// the exponent digits extend the digits before them, and `1e5` is the
/// integer 15, not 100000.
///
/// A literal that has no digit, or whose integer does not fit in 64 bits,
/// fails at the start of the literal.
pub open spec fn number_at(s: Seq<char>, i: int) -> Parse<Value> {
    let j = if has_at(s, i, '-') {
        i + 1
    } else {
        i
    };
    let k = run_end(s, j, Class::PerlDigit);
    if k == j {
        fail(j, Rule::Digit)
    } else {
        let frac = has_at(s, k, '.') && run_end(s, k + 1, Class::PerlDigit) > k + 1;
        let m = if frac {
            run_end(s, k + 1, Class::PerlDigit)
        } else {
            k
        };
        let exp = (has_at(s, m, 'e') || has_at(s, m, 'E')) && run_end(s, m + 1, Class::Digit) > m
            + 1;
        let n = if exp {
            run_end(s, m + 1, Class::Digit)
        } else {
            m
        };
        let int_digits = strip_underscores(s.subrange(j, k));
        let exp_digits = if exp {
            s.subrange(m + 1, n)
        } else {
            Seq::empty()
        };
        if frac {
            let frac_digits = strip_underscores(s.subrange(k + 1, m));
            if int_digits.len() + frac_digits.len() == 0 {
                fail(i, Rule::MapRes)
            } else {
                Ok(
                    (
                        Value::Float(
                            float_text(j > i, or_zero(int_digits), or_zero(frac_digits), exp_digits),
                        ),
                        n,
                    ),
                )
            }
        } else {
            match int_of(j > i, int_digits + exp_digits) {
                Some(v) => Ok((Value::Int(v), n)),
                None => fail(i, Rule::MapRes),
            }
        }
    }
}

/// The body of a raw string, from position `i` up to and including the
/// character `close`.  A backslash in front of `close` or of a backslash
/// stands for that character; no other character may follow a backslash.
/// `start` is where the body began and `acc` what has been read of it.
pub open spec fn raw_body(s: Seq<char>, i: int, start: int, close: char, acc: Seq<char>) -> Parse<
    Seq<char>,
>
    decreases s.len() - i,
{
    if !(0 <= i < s.len()) {
        fail(i, Rule::Char)
    } else if s[i] == close {
        Ok((acc, i + 1))
    } else if s[i] == '\\' {
        if i + 1 >= s.len() {
            fail(start, Rule::Escaped)
        } else if s[i + 1] == close || s[i + 1] == '\\' {
            raw_body(s, i + 2, start, close, acc.push(s[i + 1]))
        } else {
            fail(i + 1, Rule::OneOf)
        }
    } else {
        raw_body(s, i + 1, start, close, acc.push(s[i]))
    }
}

/// A parsed text as a string value.
pub open spec fn as_string(p: Parse<Seq<char>>) -> Parse<Value> {
    match p {
        Ok((t, n)) => Ok((Value::String(t), n)),
        Err(e) => Err(e),
    }
}

/// A single-quoted string: `'`, a raw body, `'`.
pub open spec fn single_quoted_at(s: Seq<char>, i: int) -> Parse<Value> {
    if has_at(s, i, '\'') {
        as_string(raw_body(s, i + 1, i + 1, '\'', Seq::empty()))
    } else {
        fail(i, Rule::Char)
    }
}

/// The character that a backslash and `c` stand for in a double-quoted
/// string.
pub open spec fn unescape(c: char) -> Option<char> {
    if c == '\\' {
        Some('\\')
    } else if c == '"' {
        Some('"')
    } else if c == 'n' {
        Some('\n')
    } else if c == 'r' {
        Some('\r')
    } else if c == 't' {
        Some('\t')
    } else if c == '0' {
        Some('\0')
    } else if c == 'v' {
        Some('\x0B')
    } else if c == 'b' {
        Some('\x08')
    } else if c == 'a' {
        Some('\x07')
    } else if c == 'e' {
        Some('\x1B')
    } else if c == 'z' {
        Some('\x1F')
    } else {
        None
    }
}

/// The body of a double-quoted string, from position `i` up to and including
/// the closing `"`, with `acc` what has been read of it.
pub open spec fn cooked_body(s: Seq<char>, i: int, acc: Seq<char>) -> Parse<Seq<char>>
    decreases s.len() - i,
{
    if !(0 <= i < s.len()) {
        fail(i, Rule::Char)
    } else if s[i] == '"' {
        Ok((acc, i + 1))
    } else if s[i] == '\\' {
        if i + 1 >= s.len() {
            fail(i, Rule::EscapedTransform)
        } else {
            match unescape(s[i + 1]) {
                Some(c) => cooked_body(s, i + 2, acc.push(c)),
                None => fail(i + 1, Rule::Tag),
            }
        }
    } else {
        cooked_body(s, i + 1, acc.push(s[i]))
    }
}

/// A double-quoted string: `"`, a body with escapes, `"`.
pub open spec fn double_quoted_at(s: Seq<char>, i: int) -> Parse<Value> {
    if has_at(s, i, '"') {
        as_string(cooked_body(s, i + 1, Seq::empty()))
    } else {
        fail(i, Rule::Char)
    }
}

/// The characters that may open a `q` string.
pub open spec fn is_delimiter(c: char) -> bool {
    c == '!' || c == '"' || c == '#' || c == '$' || c == '%' || c == '&' || c == '\'' || c == '('
        || c == '*' || c == '+' || c == ',' || c == '-' || c == '/' || c == ':' || c == ';' || c
        == '<' || c == '=' || c == '?' || c == '@' || c == '[' || c == '\\' || c == '^' || c == '`'
        || c == '{' || c == '|' || c == '~'
}

/// The character that closes a `q` string opened by `c`: the closing bracket
/// for an opening bracket, else `c` itself.
pub open spec fn closing(c: char) -> char {
    if c == '(' {
        ')'
    } else if c == '[' {
        ']'
    } else if c == '{' {
        '}'
    } else if c == '<' {
        '>'
    } else {
        c
    }
}

/// A `q` string: `q`, a delimiter, a raw body up to the closing delimiter.
pub open spec fn q_string_at(s: Seq<char>, i: int) -> Parse<Value> {
    if !has_at(s, i, 'q') {
        fail(i, Rule::Char)
    } else if !(i + 1 < s.len() && is_delimiter(s[i + 1])) {
        fail(i + 1, Rule::OneOf)
    } else {
        as_string(raw_body(s, i + 2, i + 2, closing(s[i + 1]), Seq::empty()))
    }
}

/// The first of two outcomes that is a success, else the second.
pub open spec fn or_else<T>(a: Parse<T>, b: Parse<T>) -> Parse<T> {
    if a is Ok {
        a
    } else {
        b
    }
}

/// A string literal: single-quoted, double-quoted or a `q` string.
pub open spec fn string_at(s: Seq<char>, i: int) -> Parse<Value> {
    or_else(single_quoted_at(s, i), or_else(double_quoted_at(s, i), q_string_at(s, i)))
}

/// A literal scalar: optional white space, then `undef`, a number or a
/// string.
pub open spec fn literal_at(s: Seq<char>, i: int) -> Parse<Value> {
    let j = run_end(s, i, Class::Space);
    or_else(undef_at(s, j), or_else(number_at(s, j), string_at(s, j)))
}

/// A bareword: a run of letters, digits and underscores, read as a string.
pub open spec fn bareword_at(s: Seq<char>, i: int) -> Parse<Value> {
    let k = run_end(s, i, Class::Word);
    if k == i {
        fail(i, Rule::TakeWhile1)
    } else {
        Ok((Value::String(s.subrange(i, k)), k))
    }
}

/// The key in front of `=>`: a bareword, else a literal scalar.
pub open spec fn bareword_or_literal_at(s: Seq<char>, i: int) -> Parse<Value> {
    or_else(bareword_at(s, i), literal_at(s, i))
}

/// A comma with optional white space on both sides; gives the position
/// after it.
pub open spec fn comma_at(s: Seq<char>, i: int) -> Parse<()> {
    let j = run_end(s, i, Class::Space);
    if has_at(s, j, ',') {
        Ok(((), run_end(s, j + 1, Class::Space)))
    } else {
        fail(j, Rule::Char)
    }
}

/// The position after an optional comma at `i`.
pub open spec fn after_optional_comma(s: Seq<char>, i: int) -> int {
    match comma_at(s, i) {
        Ok((_, n)) => n,
        Err(_) => i,
    }
}

/// The head of a pair written with `=>`: white space, the key, white space,
/// `=>`, white space.  Gives the key and the position of the value.
pub open spec fn fatcomma_head_at(s: Seq<char>, i: int) -> Parse<Value> {
    match bareword_or_literal_at(s, run_end(s, i, Class::Space)) {
        Ok((key, p)) => {
            let q = run_end(s, p, Class::Space);
            if has_at(s, q, '=') && has_at(s, q + 1, '>') {
                Ok((key, run_end(s, q + 2, Class::Space)))
            } else {
                fail(q, Rule::Tag)
            }
        },
        Err(e) => Err(e),
    }
}

/// The head of a pair written with a comma: white space, a literal key, a
/// comma.  Gives the key and the position of the value.
pub open spec fn comma_head_at(s: Seq<char>, i: int) -> Parse<Value> {
    match literal_at(s, run_end(s, i, Class::Space)) {
        Ok((key, p)) => match comma_at(s, p) {
            Ok((_, q)) => Ok((key, q)),
            Err(e) => Err(e),
        },
        Err(e) => Err(e),
    }
}

/// Every key in `pairs` is a string.
pub open spec fn string_keys(pairs: Seq<(Value, Value)>) -> bool {
    forall|i: int| 0 <= i < pairs.len() ==> (#[trigger] pairs[i]).0 is String
}

/// The entries that `pairs` stand for.
pub open spec fn keyed(pairs: Seq<(Value, Value)>) -> Seq<(Seq<char>, Value)> {
    Seq::new(pairs.len(), |i: int| (pairs[i].0->String_0, pairs[i].1))
}

/// A scalar: a literal scalar, else a reference.
pub open spec fn scalar_at(s: Seq<char>, i: int) -> Parse<Value>
    decreases s.len() - i, 5int,
{
    or_else(literal_at(s, i), reference_at(s, i))
}

/// A reference: to a hash, to an array or to a scalar.
pub open spec fn reference_at(s: Seq<char>, i: int) -> Parse<Value>
    decreases s.len() - i, 4int,
{
    or_else(hashref_at(s, i), or_else(arrayref_at(s, i), scalarref_at(s, i)))
}

/// A reference to a scalar: `\` and a scalar.
pub open spec fn scalarref_at(s: Seq<char>, i: int) -> Parse<Value>
    decreases s.len() - i, 3int,
{
    if has_at(s, i, '\\') {
        match scalar_at(s, i + 1) {
            Ok((v, n)) => Ok((Value::Ref(Box::new(v)), n)),
            Err(e) => Err(e),
        }
    } else {
        fail(i, Rule::Char)
    }
}

/// A reference to a hash: `{`, pairs separated by commas, an optional
/// comma, `}`, with optional white space inside the braces.  Every key must
/// be a string, or the rule fails after the closing brace.  Where a key
/// occurs twice, the later pair holds.
pub open spec fn hashref_at(s: Seq<char>, i: int) -> Parse<Value>
    decreases s.len() - i, 3int,
{
    if has_at(s, i, '{') {
        let list = pairs_at(s, i + 1);
        let close = run_end(s, after_optional_comma(s, list.1), Class::Space);
        if !has_at(s, close, '}') {
            fail(close, Rule::Char)
        } else if !string_keys(list.0) {
            fail(close + 1, Rule::Char)
        } else {
            Ok((Value::Hash(entries_map(keyed(list.0))), close + 1))
        }
    } else {
        fail(i, Rule::Char)
    }
}

/// The pairs of a hash from position `i` on, and the position after the last
/// of them.  The list ends in front of the first comma that no pair follows.
pub open spec fn pairs_at(s: Seq<char>, i: int) -> (Seq<(Value, Value)>, int)
    decreases s.len() - i, 3int,
{
    match pair_at(s, i) {
        Ok((p, n)) => if i < n <= s.len() {
            more_pairs(s, n, seq![p])
        } else {
            (Seq::empty(), i)
        },
        Err(_) => (Seq::empty(), i),
    }
}

/// The pairs that follow `acc`, each after a comma.
pub open spec fn more_pairs(s: Seq<char>, i: int, acc: Seq<(Value, Value)>) -> (
    Seq<(Value, Value)>,
    int,
)
    decreases s.len() - i, 3int,
{
    match comma_at(s, i) {
        Ok((_, j)) => if i < j <= s.len() {
            match pair_at(s, j) {
                Ok((p, n)) => if j < n <= s.len() {
                    more_pairs(s, n, acc.push(p))
                } else {
                    (acc, i)
                },
                Err(_) => (acc, i),
            }
        } else {
            (acc, i)
        },
        Err(_) => (acc, i),
    }
}

/// A pair: written with `=>`, else written with a comma.
pub open spec fn pair_at(s: Seq<char>, i: int) -> Parse<(Value, Value)>
    decreases s.len() - i, 2int,
{
    or_else(fatcomma_pair_at(s, i), comma_pair_at(s, i))
}

/// The value of a pair whose head gave `key` and the position `p`.
pub open spec fn pair_value_at(s: Seq<char>, i: int, head: Parse<Value>) -> Parse<(Value, Value)>
    decreases s.len() - i, 0int,
{
    match head {
        Ok((key, p)) => if i < p <= s.len() {
            match scalar_at(s, p) {
                Ok((v, n)) => Ok(((key, v), n)),
                Err(e) => Err(e),
            }
        } else {
            fail(p, Rule::Char)
        },
        Err(e) => Err(e),
    }
}

/// A pair `key => value`; the key is a bareword or a literal scalar.
pub open spec fn fatcomma_pair_at(s: Seq<char>, i: int) -> Parse<(Value, Value)>
    decreases s.len() - i, 1int,
{
    pair_value_at(s, i, fatcomma_head_at(s, i))
}

/// A pair `key, value`; the key is a literal scalar.
pub open spec fn comma_pair_at(s: Seq<char>, i: int) -> Parse<(Value, Value)>
    decreases s.len() - i, 1int,
{
    pair_value_at(s, i, comma_head_at(s, i))
}

/// A reference to an array: `[`, scalars separated by commas, an optional
/// comma, `]`, with optional white space inside the brackets.
pub open spec fn arrayref_at(s: Seq<char>, i: int) -> Parse<Value>
    decreases s.len() - i, 3int,
{
    if has_at(s, i, '[') {
        let j = run_end(s, i + 1, Class::Space);
        let list = if i < j <= s.len() {
            items_at(s, j)
        } else {
            (Seq::empty(), j)
        };
        let close = run_end(s, after_optional_comma(s, list.1), Class::Space);
        if has_at(s, close, ']') {
            Ok((Value::Array(list.0), close + 1))
        } else {
            fail(close, Rule::Char)
        }
    } else {
        fail(i, Rule::Char)
    }
}

/// The elements of an array from position `i` on, and the position after
/// the last of them.
pub open spec fn items_at(s: Seq<char>, i: int) -> (Seq<Value>, int)
    decreases s.len() - i, 6int,
{
    match scalar_at(s, i) {
        Ok((v, n)) => if i < n <= s.len() {
            more_items(s, n, seq![v])
        } else {
            (Seq::empty(), i)
        },
        Err(_) => (Seq::empty(), i),
    }
}

/// The elements that follow `acc`, each after a comma.
pub open spec fn more_items(s: Seq<char>, i: int, acc: Seq<Value>) -> (Seq<Value>, int)
    decreases s.len() - i, 6int,
{
    match comma_at(s, i) {
        Ok((_, j)) => if i < j <= s.len() {
            match scalar_at(s, j) {
                Ok((v, n)) => if j < n <= s.len() {
                    more_items(s, n, acc.push(v))
                } else {
                    (acc, i)
                },
                Err(_) => (acc, i),
            }
        } else {
            (acc, i)
        },
        Err(_) => (acc, i),
    }
}

} // verus!
