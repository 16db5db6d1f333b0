//! Every rule of the grammar that matches consumes input and stays within
//! it.  This is what makes the lists of the grammar finite: the tests on
//! positions in `pairs_at`, `more_pairs`, `items_at`, `more_items`,
//! `pair_value_at` and `arrayref_at` never fail.

use vstd::prelude::*;
use crate::grammar::{
    after_optional_comma, arrayref_at, bareword_at, bareword_or_literal_at, comma_at,
    comma_head_at, comma_pair_at, cooked_body, double_quoted_at, fatcomma_head_at,
    fatcomma_pair_at, hashref_at, items_at, lemma_run_end, literal_at, more_items, more_pairs,
    number_at, pair_at, pair_value_at, pairs_at, q_string_at, raw_body, reference_at, run_end,
    scalar_at, scalarref_at, single_quoted_at, string_at, undef_at, Class, Parse,
};
use crate::value::Value;

verus! {

/// The outcome `p` of a rule applied at `i` stays within an input of `len`
/// characters; a success ends after `i`, and a failure lies at or after `i`.
pub open spec fn advances<T>(p: Parse<T>, i: int, len: nat) -> bool {
    match p {
        Ok((_, n)) => i < n <= len,
        Err(e) => i <= e.at <= len,
    }
}

/// The body of a raw string ends after where it is read from.
pub proof fn lemma_raw_body_advances(
    s: Seq<char>,
    i: int,
    start: int,
    close: char,
    acc: Seq<char>,
)
    requires
        0 <= start <= i <= s.len(),
    ensures
        match raw_body(s, i, start, close, acc) {
            Ok((_, n)) => i < n <= s.len(),
            Err(e) => start <= e.at <= s.len(),
        },
    decreases s.len() - i,
{
    if i < s.len() && s[i] != close {
        if s[i] == '\\' {
            if i + 1 < s.len() && (s[i + 1] == close || s[i + 1] == '\\') {
                lemma_raw_body_advances(s, i + 2, start, close, acc.push(s[i + 1]));
            }
        } else {
            lemma_raw_body_advances(s, i + 1, start, close, acc.push(s[i]));
        }
    }
}

/// The body of a double-quoted string ends after where it is read from.
pub proof fn lemma_cooked_body_advances(s: Seq<char>, i: int, acc: Seq<char>)
    requires
        0 <= i <= s.len(),
    ensures
        advances(cooked_body(s, i, acc), i, s.len()),
    decreases s.len() - i,
{
    if i < s.len() && s[i] != '"' {
        if s[i] == '\\' {
            if i + 1 < s.len() {
                match crate::grammar::unescape(s[i + 1]) {
                    Some(c) => {
                        lemma_cooked_body_advances(s, i + 2, acc.push(c));
                    },
                    None => {},
                }
            }
        } else {
            lemma_cooked_body_advances(s, i + 1, acc.push(s[i]));
        }
    }
}

/// A number literal is not empty.
pub proof fn lemma_number_advances(s: Seq<char>, i: int)
    requires
        0 <= i <= s.len(),
    ensures
        advances(number_at(s, i), i, s.len()),
{
    let j = if crate::grammar::has_at(s, i, '-') {
        i + 1
    } else {
        i
    };
    lemma_run_end(s, j, Class::PerlDigit);
    let k = run_end(s, j, Class::PerlDigit);
    if k < s.len() {
        lemma_run_end(s, k + 1, Class::PerlDigit);
        let m = run_end(s, k + 1, Class::PerlDigit);
        if m < s.len() {
            lemma_run_end(s, m + 1, Class::Digit);
        }
        lemma_run_end(s, k + 1, Class::Digit);
    }
}

/// A string literal is not empty.
pub proof fn lemma_string_advances(s: Seq<char>, i: int)
    requires
        0 <= i <= s.len(),
    ensures
        advances(single_quoted_at(s, i), i, s.len()),
        advances(double_quoted_at(s, i), i, s.len()),
        advances(q_string_at(s, i), i, s.len()),
        advances(string_at(s, i), i, s.len()),
{
    if i < s.len() {
        lemma_raw_body_advances(s, i + 1, i + 1, '\'', Seq::empty());
        lemma_cooked_body_advances(s, i + 1, Seq::empty());
        if i + 1 < s.len() {
            lemma_raw_body_advances(
                s,
                i + 2,
                i + 2,
                crate::grammar::closing(s[i + 1]),
                Seq::empty(),
            );
        }
    }
}

/// A literal scalar is not empty.
pub proof fn lemma_literal_advances(s: Seq<char>, i: int)
    requires
        0 <= i <= s.len(),
    ensures
        advances(literal_at(s, i), i, s.len()),
{
    lemma_run_end(s, i, Class::Space);
    let j = run_end(s, i, Class::Space);
    lemma_number_advances(s, j);
    lemma_string_advances(s, j);
    assert(advances(undef_at(s, j), j, s.len()));
}

/// A key in front of `=>` is not empty.
pub proof fn lemma_key_advances(s: Seq<char>, i: int)
    requires
        0 <= i <= s.len(),
    ensures
        advances(bareword_or_literal_at(s, i), i, s.len()),
{
    lemma_run_end(s, i, Class::Word);
    lemma_literal_advances(s, i);
    assert(advances(bareword_at(s, i), i, s.len()));
}

/// A comma, with the white space around it, is not empty.
pub proof fn lemma_comma_advances(s: Seq<char>, i: int)
    requires
        0 <= i <= s.len(),
    ensures
        advances(comma_at(s, i), i, s.len()),
        i <= after_optional_comma(s, i) <= s.len(),
{
    lemma_run_end(s, i, Class::Space);
    let j = run_end(s, i, Class::Space);
    if j < s.len() {
        lemma_run_end(s, j + 1, Class::Space);
    }
}

/// The head of a pair is not empty.
pub proof fn lemma_heads_advance(s: Seq<char>, i: int)
    requires
        0 <= i <= s.len(),
    ensures
        advances(fatcomma_head_at(s, i), i, s.len()),
        advances(comma_head_at(s, i), i, s.len()),
{
    lemma_run_end(s, i, Class::Space);
    let j = run_end(s, i, Class::Space);
    lemma_key_advances(s, j);
    lemma_literal_advances(s, j);
    match bareword_or_literal_at(s, j) {
        Ok((_, p)) => {
            lemma_run_end(s, p, Class::Space);
            let q = run_end(s, p, Class::Space);
            if q + 2 <= s.len() {
                lemma_run_end(s, q + 2, Class::Space);
            }
        },
        Err(_) => {},
    }
    match literal_at(s, j) {
        Ok((_, p)) => {
            lemma_comma_advances(s, p);
        },
        Err(_) => {},
    }
}

/// A scalar is not empty.
pub proof fn lemma_scalar_advances(s: Seq<char>, i: int)
    requires
        0 <= i <= s.len(),
    ensures
        advances(scalar_at(s, i), i, s.len()),
    decreases s.len() - i, 5int,
{
    lemma_literal_advances(s, i);
    lemma_reference_advances(s, i);
}

/// A reference is not empty.
pub proof fn lemma_reference_advances(s: Seq<char>, i: int)
    requires
        0 <= i <= s.len(),
    ensures
        advances(reference_at(s, i), i, s.len()),
        advances(hashref_at(s, i), i, s.len()),
        advances(arrayref_at(s, i), i, s.len()),
        advances(scalarref_at(s, i), i, s.len()),
    decreases s.len() - i, 4int,
{
    if i < s.len() {
        if s[i] == '\\' {
            lemma_scalar_advances(s, i + 1);
        }
        if s[i] == '{' {
            lemma_pairs_advance(s, i + 1);
            let end = pairs_at(s, i + 1).1;
            lemma_comma_advances(s, end);
            lemma_run_end(s, after_optional_comma(s, end), Class::Space);
        }
        if s[i] == '[' {
            lemma_run_end(s, i + 1, Class::Space);
            let j = run_end(s, i + 1, Class::Space);
            lemma_items_advance(s, j);
            let end = items_at(s, j).1;
            lemma_comma_advances(s, end);
            lemma_run_end(s, after_optional_comma(s, end), Class::Space);
        }
    }
}

/// The pairs of a hash end at or after where they start.
pub proof fn lemma_pairs_advance(s: Seq<char>, i: int)
    requires
        0 <= i <= s.len(),
    ensures
        i <= pairs_at(s, i).1 <= s.len(),
    decreases s.len() - i, 3int,
{
    lemma_pair_advances(s, i);
    match pair_at(s, i) {
        Ok((p, n)) => {
            lemma_more_pairs_advance(s, n, seq![p]);
        },
        Err(_) => {},
    }
}

/// The pairs that follow others end at or after where they start.
pub proof fn lemma_more_pairs_advance(s: Seq<char>, i: int, acc: Seq<(Value, Value)>)
    requires
        0 <= i <= s.len(),
    ensures
        i <= more_pairs(s, i, acc).1 <= s.len(),
    decreases s.len() - i, 3int,
{
    lemma_comma_advances(s, i);
    match comma_at(s, i) {
        Ok((_, j)) => {
            lemma_pair_advances(s, j);
            match pair_at(s, j) {
                Ok((p, n)) => {
                    lemma_more_pairs_advance(s, n, acc.push(p));
                },
                Err(_) => {},
            }
        },
        Err(_) => {},
    }
}

/// A pair is not empty.
pub proof fn lemma_pair_advances(s: Seq<char>, i: int)
    requires
        0 <= i <= s.len(),
    ensures
        advances(pair_at(s, i), i, s.len()),
        advances(fatcomma_pair_at(s, i), i, s.len()),
        advances(comma_pair_at(s, i), i, s.len()),
    decreases s.len() - i, 2int,
{
    lemma_heads_advance(s, i);
    match fatcomma_head_at(s, i) {
        Ok((_, p)) => {
            lemma_scalar_advances(s, p);
        },
        Err(_) => {},
    }
    match comma_head_at(s, i) {
        Ok((_, p)) => {
            lemma_scalar_advances(s, p);
        },
        Err(_) => {},
    }
    assert(fatcomma_pair_at(s, i) == pair_value_at(s, i, fatcomma_head_at(s, i)));
    assert(comma_pair_at(s, i) == pair_value_at(s, i, comma_head_at(s, i)));
}

/// The elements of an array end at or after where they start.
pub proof fn lemma_items_advance(s: Seq<char>, i: int)
    requires
        0 <= i <= s.len(),
    ensures
        i <= items_at(s, i).1 <= s.len(),
    decreases s.len() - i, 6int,
{
    lemma_scalar_advances(s, i);
    match scalar_at(s, i) {
        Ok((v, n)) => {
            lemma_more_items_advance(s, n, seq![v]);
        },
        Err(_) => {},
    }
}

/// The elements that follow others end at or after where they start.
pub proof fn lemma_more_items_advance(s: Seq<char>, i: int, acc: Seq<Value>)
    requires
        0 <= i <= s.len(),
    ensures
        i <= more_items(s, i, acc).1 <= s.len(),
    decreases s.len() - i, 6int,
{
    lemma_comma_advances(s, i);
    match comma_at(s, i) {
        Ok((_, j)) => {
            lemma_scalar_advances(s, j);
            match scalar_at(s, j) {
                Ok((v, n)) => {
                    lemma_more_items_advance(s, n, acc.push(v));
                },
                Err(_) => {},
            }
        },
        Err(_) => {},
    }
}

} // verus!
