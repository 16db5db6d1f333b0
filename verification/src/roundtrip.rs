//! Printing and parsing are inverse to each other: the literal that the
//! printer writes for a value is read back by the grammar as that value.

use vstd::prelude::*;
use crate::grammar::{
    arrayref_at, bareword_at, bareword_or_literal_at, comma_at, comma_head_at, comma_pair_at,
    digit_of, digits_value, fatcomma_head_at, fatcomma_pair_at, has_at, hashref_at, int_of,
    items_at, keyed, literal_at, member, more_items, more_pairs, number_at, pair_at,
    pair_value_at, pairs_at, raw_body, reference_at, run_end, scalar_at, scalarref_at,
    single_quoted_at, string_at, string_keys, strip_underscores, undef_at, Class, Failure,
};
use crate::print::{fat_comma, printed_entries, printed_entry, printed_items};
use crate::quote::{bareword, decimal, digit_char, digits, escaped, key_text, single_quoted};
use crate::text::{all_digits, is_digit, is_perl_digit_char, is_space, is_word};
use crate::value::{float_text, models, Reference, Scalar, Value};

verus! {

/// The text `p` stands in `s` at position `i`.
pub open spec fn holds_at(s: Seq<char>, i: int, p: Seq<char>) -> bool {
    &&& 0 <= i
    &&& i + p.len() <= s.len()
    &&& forall|k: int| 0 <= k < p.len() ==> s[i + k] == #[trigger] p[k]
}

/// Where `a + b` stands, `a` stands, and `b` stands after it.
pub proof fn lemma_holds_split(s: Seq<char>, i: int, a: Seq<char>, b: Seq<char>)
    requires
        holds_at(s, i, a + b),
    ensures
        holds_at(s, i, a),
        holds_at(s, i + a.len(), b),
{
    let ab = a + b;
    assert forall|k: int| 0 <= k < a.len() implies s[i + k] == #[trigger] a[k] by {
        assert(ab[k] == a[k]);
    }
    assert forall|k: int| 0 <= k < b.len() implies s[i + a.len() + k] == #[trigger] b[k] by {
        assert(ab[a.len() + k] == b[k]);
    }
}

/// A run that is known character by character ends where it is known to.
pub proof fn lemma_run_exact(s: Seq<char>, i: int, k: int, class: Class)
    requires
        0 <= i <= k <= s.len(),
        forall|j: int| i <= j < k ==> member(class, #[trigger] s[j]),
        k == s.len() || !member(class, s[k]),
    ensures
        run_end(s, i, class) == k,
    decreases k - i,
{
    if i < k {
        assert(member(class, s[i]));
        lemma_run_exact(s, i + 1, k, class);
    }
}

/// The decimal digits of a number are digits, at least one, and write that
/// number.
pub proof fn lemma_digits(n: nat)
    ensures
        digits(n).len() > 0,
        all_digits(digits(n)),
        digits_value(digits(n)) == n,
    decreases n,
{
    if n < 10 {
        let d = digits(n);
        assert(d.len() == 1);
        assert(d.drop_last().len() == 0);
        assert(d.last() == digit_char(n as int));
        assert(digit_of(digit_char(n as int)) == n);
        assert(is_digit(digit_char(n as int)));
        assert(digits_value(d.drop_last()) == 0);
        assert(digits_value(d) == digits_value(d.drop_last()) * 10 + digit_of(d.last()));
    } else {
        lemma_digits(n / 10);
        let front = digits(n / 10);
        let last = digit_char((n % 10) as int);
        let d = front.push(last);
        assert(d.drop_last() == front);
        assert(d.last() == last);
        assert(digit_of(last) == n % 10);
        assert(is_digit(last));
        assert(digits(n) == d);
        assert(digits_value(d) == digits_value(d.drop_last()) * 10 + digit_of(d.last()));
        assert(digits_value(d) == (n / 10) * 10 + n % 10);
        assert forall|k: int| 0 <= k < d.len() implies is_digit(#[trigger] d[k]) by {
            if k < front.len() {
                assert(d[k] == front[k]);
            }
        }
    }
}

/// Text without underscores is left as it is.
pub proof fn lemma_strip_clean(t: Seq<char>)
    requires
        forall|k: int| 0 <= k < t.len() ==> #[trigger] t[k] != '_',
    ensures
        strip_underscores(t) == t,
    decreases t.len(),
{
    if t.len() > 0 {
        lemma_strip_clean(t.drop_last());
        assert(t.drop_last().push(t.last()) == t);
    }
}

/// Escaping goes character by character.
pub proof fn lemma_escaped_concat(a: Seq<char>, b: Seq<char>)
    ensures
        escaped(a + b) == escaped(a) + escaped(b),
    decreases b.len(),
{
    if b.len() == 0 {
        assert(a + b == a);
    } else {
        lemma_escaped_concat(a, b.drop_last());
        assert((a + b).drop_last() == a + b.drop_last());
        assert((a + b).last() == b.last());
    }
}

/// The escaped form of one character.
pub open spec fn escaped_char(c: char) -> Seq<char> {
    if c == '\'' || c == '\\' {
        seq!['\\', c]
    } else {
        seq![c]
    }
}

/// Escaping puts the escaped form of the first character first.
pub proof fn lemma_escaped_first(t: Seq<char>)
    requires
        t.len() > 0,
    ensures
        escaped(t) == escaped_char(t[0]) + escaped(t.drop_first()),
{
    let head = seq![t[0]];
    assert(head + t.drop_first() == t);
    lemma_escaped_concat(head, t.drop_first());
    assert(head.drop_last() == Seq::<char>::empty());
    assert(escaped(head.drop_last()) == Seq::<char>::empty());
    assert(escaped(head) == escaped_char(t[0]));
}

/// The body of a single-quoted literal reads back as the string that was
/// quoted.
pub proof fn lemma_raw_body_reads(s: Seq<char>, p: int, start: int, t: Seq<char>, acc: Seq<char>)
    requires
        holds_at(s, p, escaped(t) + seq!['\'']),
    ensures
        raw_body(s, p, start, '\'', acc) == Ok::<(Seq<char>, int), Failure>(
            (acc + t, p + escaped(t).len() + 1),
        ),
    decreases t.len(),
{
    let text = escaped(t) + seq!['\''];
    if t.len() == 0 {
        assert(text[0] == '\'');
        assert(s[p + 0] == text[0]);
        assert(acc + t == acc);
    } else {
        let c = t[0];
        let rest = t.drop_first();
        lemma_escaped_first(t);
        let tail = escaped(rest) + seq!['\''];
        assert(text == escaped_char(c) + tail);
        lemma_holds_split(s, p, escaped_char(c), tail);
        let e = escaped_char(c);
        assert(s[p + 0] == e[0]);
        if c == '\'' || c == '\\' {
            assert(s[p + 1] == e[1]);
            lemma_raw_body_reads(s, p + 2, start, rest, acc.push(c));
        } else {
            lemma_raw_body_reads(s, p + 1, start, rest, acc.push(c));
        }
        assert(acc.push(c) + rest == acc + t);
    }
}

/// A single-quoted literal reads back as the string that was quoted.
pub proof fn lemma_single_quoted_reads(s: Seq<char>, i: int, t: Seq<char>)
    requires
        holds_at(s, i, single_quoted(t)),
    ensures
        single_quoted_at(s, i) == Ok::<(Value, int), Failure>(
            (Value::String(t), i + single_quoted(t).len()),
        ),
{
    let body = escaped(t) + seq!['\''];
    assert(single_quoted(t) == seq!['\''] + body);
    lemma_holds_split(s, i, seq!['\''], body);
    assert(s[i + 0] == seq!['\''][0]);
    lemma_raw_body_reads(s, i + 1, i + 1, t, Seq::empty());
    assert(Seq::<char>::empty() + t == t);
}

/// A printed scalar ends at position `n`: the input ends there, or a comma
/// or a closing bracket or brace stands there.
pub open spec fn ends_at(s: Seq<char>, n: int) -> bool {
    n == s.len() || (0 <= n < s.len() && (s[n] == ',' || s[n] == ']' || s[n] == '}'))
}

/// The decimal text of an integer reads back as that integer.
pub proof fn lemma_int_reads(s: Seq<char>, i: int, v: i64)
    requires
        holds_at(s, i, decimal(v as int)),
        ends_at(s, i + decimal(v as int).len()),
    ensures
        number_at(s, i) == Ok::<(Value, int), Failure>(
            (Value::Int(v), i + decimal(v as int).len()),
        ),
{
    let negative = v < 0;
    let magnitude: nat = if negative {
        (-v) as nat
    } else {
        v as nat
    };
    let d = digits(magnitude);
    lemma_digits(magnitude);
    let j = if negative {
        i + 1
    } else {
        i
    };
    if negative {
        lemma_holds_split(s, i, seq!['-'], d);
        assert(s[i + 0] == seq!['-'][0]);
    } else {
        assert(s[i + 0] == d[0]);
        assert(is_digit(d[0]));
    }
    let k = j + d.len();
    assert forall|x: int| j <= x < k implies member(Class::PerlDigit, #[trigger] s[x]) by {
        assert(s[j + (x - j)] == d[x - j]);
        assert(is_digit(d[x - j]));
    }
    lemma_run_exact(s, j, k, Class::PerlDigit);
    assert(s.subrange(j, k) == d) by {
        assert forall|x: int| 0 <= x < d.len() implies s.subrange(j, k)[x] == d[x] by {
            assert(s[j + x] == d[x]);
        }
    }
    assert forall|x: int| 0 <= x < d.len() implies #[trigger] d[x] != '_' by {
        assert(is_digit(d[x]));
    }
    lemma_strip_clean(d);
    assert(d + Seq::<char>::empty() == d);
    assert(run_end(s, k + 1, Class::PerlDigit) <= k + 1 || !has_at(s, k, '.'));
    assert(!has_at(s, k, 'e') && !has_at(s, k, 'E'));
    assert(int_of(negative, d) == Some(v));
}

/// The text of a float reads back as that text.
pub proof fn lemma_float_reads(
    s: Seq<char>,
    i: int,
    negative: bool,
    whole: Seq<char>,
    fraction: Seq<char>,
    exponent: Seq<char>,
)
    requires
        whole.len() > 0,
        fraction.len() > 0,
        all_digits(whole),
        all_digits(fraction),
        all_digits(exponent),
        holds_at(s, i, float_text(negative, whole, fraction, exponent)),
        ends_at(s, i + float_text(negative, whole, fraction, exponent).len()),
    ensures
        number_at(s, i) == Ok::<(Value, int), Failure>(
            (
                Value::Float(float_text(negative, whole, fraction, exponent)),
                i + float_text(negative, whole, fraction, exponent).len(),
            ),
        ),
{
    let sign = if negative {
        seq!['-']
    } else {
        Seq::<char>::empty()
    };
    let tail = if exponent.len() > 0 {
        seq!['e'] + exponent
    } else {
        Seq::<char>::empty()
    };
    let t = float_text(negative, whole, fraction, exponent);
    let j = i + sign.len();
    let k = j + whole.len();
    let m = k + 1 + fraction.len();
    let n = m + tail.len();
    assert(t == sign + (whole + (seq!['.'] + (fraction + tail))));
    lemma_holds_split(s, i, sign, whole + (seq!['.'] + (fraction + tail)));
    lemma_holds_split(s, j, whole, seq!['.'] + (fraction + tail));
    lemma_holds_split(s, k, seq!['.'], fraction + tail);
    lemma_holds_split(s, k + 1, fraction, tail);
    assert(s[k + 0] == seq!['.'][0]);
    if negative {
        assert(s[i + 0] == sign[0]);
    } else {
        assert(s[j + 0] == whole[0]);
        assert(is_digit(whole[0]));
    }
    assert forall|x: int| j <= x < k implies member(Class::PerlDigit, #[trigger] s[x]) by {
        assert(s[j + (x - j)] == whole[x - j]);
        assert(is_digit(whole[x - j]));
    }
    lemma_run_exact(s, j, k, Class::PerlDigit);
    assert forall|x: int| k + 1 <= x < m implies member(Class::PerlDigit, #[trigger] s[x]) by {
        assert(s[k + 1 + (x - k - 1)] == fraction[x - k - 1]);
        assert(is_digit(fraction[x - k - 1]));
    }
    if exponent.len() > 0 {
        assert(s[m + 0] == tail[0]);
        assert forall|x: int| m + 1 <= x < n implies member(Class::Digit, #[trigger] s[x]) by {
            assert(s[m + (x - m)] == tail[x - m]);
            assert(tail[x - m] == exponent[x - m - 1]);
            assert(is_digit(exponent[x - m - 1]));
        }
        lemma_run_exact(s, m + 1, n, Class::Digit);
        assert(s.subrange(m + 1, n) == exponent) by {
            assert forall|x: int| 0 <= x < exponent.len() implies s.subrange(m + 1, n)[x]
                == exponent[x] by {
                assert(s[m + (x + 1)] == tail[x + 1]);
            }
        }
    } else {
        assert(!has_at(s, m, 'e') && !has_at(s, m, 'E'));
    }
    lemma_run_exact(s, k + 1, m, Class::PerlDigit);
    assert(s.subrange(j, k) == whole) by {
        assert forall|x: int| 0 <= x < whole.len() implies s.subrange(j, k)[x] == whole[x] by {
            assert(s[j + x] == whole[x]);
        }
    }
    assert(s.subrange(k + 1, m) == fraction) by {
        assert forall|x: int| 0 <= x < fraction.len() implies s.subrange(k + 1, m)[x]
            == fraction[x] by {
            assert(s[k + 1 + x] == fraction[x]);
        }
    }
    assert forall|x: int| 0 <= x < whole.len() implies #[trigger] whole[x] != '_' by {
        assert(is_digit(whole[x]));
    }
    assert forall|x: int| 0 <= x < fraction.len() implies #[trigger] fraction[x] != '_' by {
        assert(is_digit(fraction[x]));
    }
    lemma_strip_clean(whole);
    lemma_strip_clean(fraction);
}

/// A character with which no literal scalar starts.
pub open spec fn opens_no_literal(c: char) -> bool {
    !is_space(c) && c != 'u' && c != '-' && !is_perl_digit_char(c) && c != '\'' && c != '"' && c
        != 'q'
}

/// No literal scalar starts with a character that opens none.
pub proof fn lemma_literal_fails(s: Seq<char>, i: int)
    requires
        0 <= i < s.len(),
        opens_no_literal(s[i]),
    ensures
        literal_at(s, i) is Err,
{
    assert(run_end(s, i, Class::Space) == i);
    assert(run_end(s, i, Class::PerlDigit) == i);
    assert(undef_at(s, i) is Err);
    assert(number_at(s, i) is Err);
    assert(string_at(s, i) is Err);
}

/// The text of a key reads back as that key, where `=` follows it.
pub proof fn lemma_key_reads(s: Seq<char>, i: int, key: Seq<char>)
    requires
        holds_at(s, i, key_text(key)),
        has_at(s, i + key_text(key).len(), '='),
    ensures
        bareword_or_literal_at(s, i) == Ok::<(Value, int), Failure>(
            (Value::String(key), i + key_text(key).len()),
        ),
        !is_space(s[i]),
{
    if bareword(key) {
        let k = i + key.len();
        assert forall|x: int| i <= x < k implies member(Class::Word, #[trigger] s[x]) by {
            assert(s[i + (x - i)] == key[x - i]);
            assert(is_word(key[x - i]));
        }
        lemma_run_exact(s, i, k, Class::Word);
        assert(s.subrange(i, k) == key) by {
            assert forall|x: int| 0 <= x < key.len() implies s.subrange(i, k)[x] == key[x] by {
                assert(s[i + x] == key[x]);
            }
        }
        assert(s[i + 0] == key[0]);
        assert(is_word(key[0]));
    } else {
        let q = single_quoted(key);
        assert(q[0] == '\'');
        assert(s[i + 0] == q[0]);
        assert(run_end(s, i, Class::Word) == i);
        assert(run_end(s, i, Class::Space) == i);
        assert(run_end(s, i, Class::PerlDigit) == i);
        lemma_single_quoted_reads(s, i, key);
        assert(undef_at(s, i) is Err);
        assert(number_at(s, i) is Err);
    }
}

/// A character with which a printed scalar starts.
pub open spec fn opens_value(c: char) -> bool {
    c == 'u' || c == '-' || is_digit(c) || c == '\'' || c == '{' || c == '[' || c == '\\'
}

/// A printed scalar is not empty and starts with one of a few characters.
pub proof fn lemma_first(v: Scalar)
    requires
        v.wf(),
    ensures
        v.printed().len() > 0,
        opens_value(v.printed()[0]),
{
    match v {
        Scalar::Undefined => {},
        Scalar::Int(i) => {
            let magnitude: nat = if i < 0 {
                (-i) as nat
            } else {
                i as nat
            };
            lemma_digits(magnitude);
            assert(is_digit(digits(magnitude)[0]));
        },
        Scalar::Float(t) => {
            let (negative, whole, fraction, exponent) = choose|
                negative: bool,
                whole: Seq<char>,
                fraction: Seq<char>,
                exponent: Seq<char>,
            |
                whole.len() > 0 && fraction.len() > 0 && all_digits(whole) && all_digits(fraction)
                    && all_digits(exponent) && #[trigger] float_text(
                    negative,
                    whole,
                    fraction,
                    exponent,
                ) == t@;
            assert(is_digit(whole[0]));
        },
        Scalar::String(t) => {},
        Scalar::Reference(r) => {
            match *r {
                Reference::Hash(h) => {},
                Reference::Array(a) => {},
                Reference::Scalar(inner) => {},
            }
        },
    }
}

/// No scalar starts with a closing bracket.
pub proof fn lemma_scalar_fails(s: Seq<char>, i: int)
    requires
        has_at(s, i, ']'),
    ensures
        scalar_at(s, i) is Err,
{
    lemma_literal_fails(s, i);
    assert(hashref_at(s, i) is Err);
    assert(arrayref_at(s, i) is Err);
    assert(scalarref_at(s, i) is Err);
    assert(reference_at(s, i) is Err);
}

/// No pair starts with a closing brace.
pub proof fn lemma_pair_fails(s: Seq<char>, i: int)
    requires
        has_at(s, i, '}'),
    ensures
        pair_at(s, i) is Err,
{
    lemma_literal_fails(s, i);
    assert(run_end(s, i, Class::Space) == i);
    assert(run_end(s, i, Class::Word) == i);
    assert(bareword_at(s, i) is Err);
    assert(fatcomma_head_at(s, i) is Err);
    assert(comma_head_at(s, i) is Err);
    assert(fatcomma_pair_at(s, i) is Err);
    assert(comma_pair_at(s, i) is Err);
}

/// The keys and values of `v`, each key as a string value.
pub open spec fn pair_models(v: Seq<(String, Scalar)>) -> Seq<(Value, Value)> {
    Seq::new(v.len(), |k: int| (Value::String(v[k].0@), v[k].1.model()))
}

/// A printed entry reads back as its key and value, once the value is known
/// to.
pub proof fn lemma_entry_reads(s: Seq<char>, p: int, key: Seq<char>, value: Value, end: int)
    requires
        holds_at(s, p, key_text(key) + fat_comma()),
        scalar_at(s, p + key_text(key).len() + 2) == Ok::<(Value, int), Failure>((value, end)),
        p + key_text(key).len() + 2 < s.len(),
        !is_space(s[p + key_text(key).len() + 2]),
    ensures
        pair_at(s, p) == Ok::<((Value, Value), int), Failure>(((Value::String(key), value), end)),
        !is_space(s[p]),
{
    let k = p + key_text(key).len();
    lemma_holds_split(s, p, key_text(key), fat_comma());
    assert(s[k + 0] == fat_comma()[0]);
    assert(s[k + 1] == fat_comma()[1]);
    lemma_key_reads(s, p, key);
    assert(run_end(s, p, Class::Space) == p);
    assert(run_end(s, k, Class::Space) == k);
    assert(run_end(s, k + 2, Class::Space) == k + 2);
    assert(fatcomma_head_at(s, p) == Ok::<(Value, int), Failure>((Value::String(key), k + 2)));
    assert(fatcomma_pair_at(s, p) == pair_value_at(s, p, fatcomma_head_at(s, p)));
}

/// A printed scalar reads back as the value of the scalar.
pub proof fn lemma_scalar_reads(v: Scalar, s: Seq<char>, i: int)
    requires
        v.wf(),
        holds_at(s, i, v.printed()),
        ends_at(s, i + v.printed().len()),
    ensures
        scalar_at(s, i) == Ok::<(Value, int), Failure>((v.model(), i + v.printed().len())),
    decreases v, 0nat,
{
    lemma_first(v);
    let p = v.printed();
    assert(s[i + 0] == p[0]);
    assert(run_end(s, i, Class::Space) == i);
    match v {
        Scalar::Undefined => {
            assert(s[i + 1] == p[1]);
            assert(s[i + 2] == p[2]);
            assert(s[i + 3] == p[3]);
            assert(s[i + 4] == p[4]);
            assert(undef_at(s, i) is Ok);
        },
        Scalar::Int(n) => {
            lemma_int_reads(s, i, n);
            assert(undef_at(s, i) is Err);
        },
        Scalar::Float(t) => {
            let (negative, whole, fraction, exponent) = choose|
                negative: bool,
                whole: Seq<char>,
                fraction: Seq<char>,
                exponent: Seq<char>,
            |
                whole.len() > 0 && fraction.len() > 0 && all_digits(whole) && all_digits(fraction)
                    && all_digits(exponent) && #[trigger] float_text(
                    negative,
                    whole,
                    fraction,
                    exponent,
                ) == t@;
            lemma_float_reads(s, i, negative, whole, fraction, exponent);
            assert(undef_at(s, i) is Err);
        },
        Scalar::String(t) => {
            lemma_single_quoted_reads(s, i, t@);
            assert(run_end(s, i, Class::PerlDigit) == i);
            assert(undef_at(s, i) is Err);
            assert(number_at(s, i) is Err);
        },
        Scalar::Reference(r) => {
            lemma_reference_reads(*r, s, i);
        },
    }
}

/// A printed reference reads back as the value of the reference, and is no
/// literal scalar.
pub proof fn lemma_reference_reads(r: Reference, s: Seq<char>, i: int)
    requires
        r.wf(),
        holds_at(s, i, r.printed()),
        ends_at(s, i + r.printed().len()),
    ensures
        literal_at(s, i) is Err,
        reference_at(s, i) == Ok::<(Value, int), Failure>((r.model(), i + r.printed().len())),
    decreases r, 0nat,
{
    let p = r.printed();
    match r {
        Reference::Hash(h) => {
            let v = h.0@;
            let inner = printed_entries(v, v.len());
            assert(p == seq!['{'] + (inner + seq!['}']));
            lemma_holds_split(s, i, seq!['{'], inner + seq!['}']);
            lemma_holds_split(s, i + 1, inner, seq!['}']);
            assert(s[i + 0] == seq!['{'][0]);
            let end = i + 1 + inner.len();
            assert(s[end + 0] == seq!['}'][0]);
            lemma_literal_fails(s, i);
            assert(run_end(s, end, Class::Space) == end);
            assert(comma_at(s, end) is Err);
            let list = pair_models(v);
            if v.len() == 0 {
                lemma_pair_fails(s, i + 1);
                assert(list == Seq::<(Value, Value)>::empty());
            } else {
                lemma_entries_read(v, v.len(), s, i + 1);
                assert(v.take(v.len() as int) == v);
            }
            assert(pairs_at(s, i + 1) == (list, end));
            assert(string_keys(list));
            assert(keyed(list) == h.entries());
            assert(hashref_at(s, i) == Ok::<(Value, int), Failure>((r.model(), end + 1)));
        },
        Reference::Array(a) => {
            let v = a.0@;
            let inner = printed_items(v, v.len());
            assert(p == seq!['['] + (inner + seq![']']));
            lemma_holds_split(s, i, seq!['['], inner + seq![']']);
            lemma_holds_split(s, i + 1, inner, seq![']']);
            assert(s[i + 0] == seq!['['][0]);
            let end = i + 1 + inner.len();
            assert(s[end + 0] == seq![']'][0]);
            lemma_literal_fails(s, i);
            assert(hashref_at(s, i) is Err);
            assert(run_end(s, end, Class::Space) == end);
            assert(comma_at(s, end) is Err);
            let list = models(v);
            if v.len() == 0 {
                lemma_scalar_fails(s, i + 1);
                assert(list == Seq::<Value>::empty());
            } else {
                lemma_first(v[0]);
                assert(inner.len() > 0 && opens_value(inner[0])) by {
                    lemma_items_start(v, v.len());
                }
                assert(s[i + 1 + 0] == inner[0]);
                lemma_items_read(v, v.len(), s, i + 1);
                assert(v.take(v.len() as int) == v);
            }
            assert(run_end(s, i + 1, Class::Space) == i + 1);
            assert(items_at(s, i + 1) == (list, end));
            assert(a.items() == list);
            assert(arrayref_at(s, i) == Ok::<(Value, int), Failure>((r.model(), end + 1)));
        },
        Reference::Scalar(inner) => {
            assert(p == seq!['\\'] + inner.printed());
            lemma_holds_split(s, i, seq!['\\'], inner.printed());
            assert(s[i + 0] == seq!['\\'][0]);
            lemma_literal_fails(s, i);
            assert(hashref_at(s, i) is Err);
            assert(arrayref_at(s, i) is Err);
            lemma_scalar_reads(*inner, s, i + 1);
        },
    }
}

/// A printed list starts as its first element does.
pub proof fn lemma_items_start(v: Seq<Scalar>, n: nat)
    requires
        1 <= n <= v.len(),
        v[0].wf(),
    ensures
        printed_items(v, n).len() > 0,
        printed_items(v, n)[0] == v[0].printed()[0],
    decreases n,
{
    lemma_first(v[0]);
    if n > 1 {
        lemma_items_start(v, (n - 1) as nat);
    }
}

/// The first `n` printed elements of an array read back as their values.
pub proof fn lemma_items_read(v: Seq<Scalar>, n: nat, s: Seq<char>, base: int)
    requires
        1 <= n <= v.len(),
        forall|k: int| 0 <= k < v.len() ==> (#[trigger] v[k]).wf(),
        holds_at(s, base, printed_items(v, n)),
        has_at(s, base + printed_items(v, n).len(), ',') || has_at(
            s,
            base + printed_items(v, n).len(),
            ']',
        ),
    ensures
        items_at(s, base) == more_items(
            s,
            base + printed_items(v, n).len(),
            models(v.take(n as int)),
        ),
    decreases v, n,
{
    let end = base + printed_items(v, n).len();
    let last = v[n - 1];
    lemma_first(last);
    if n == 1 {
        lemma_scalar_reads(last, s, base);
        assert(models(v.take(1)) == seq![last.model()]);
    } else {
        let front = printed_items(v, (n - 1) as nat);
        assert(printed_items(v, n) == front + (seq![','] + last.printed()));
        lemma_holds_split(s, base, front, seq![','] + last.printed());
        let mid = base + front.len();
        lemma_holds_split(s, mid, seq![','], last.printed());
        assert(s[mid + 0] == seq![','][0]);
        lemma_items_read(v, (n - 1) as nat, s, base);
        assert(s[mid + 1 + 0] == last.printed()[0]);
        assert(run_end(s, mid, Class::Space) == mid);
        assert(run_end(s, mid + 1, Class::Space) == mid + 1);
        assert(comma_at(s, mid) == Ok::<((), int), Failure>(((), mid + 1)));
        lemma_scalar_reads(last, s, mid + 1);
        assert(models(v.take(n as int)) == models(v.take(n - 1)).push(last.model()));
    }
}

/// A first pair opens the list of pairs.
pub proof fn lemma_pairs_first(s: Seq<char>, base: int, p: (Value, Value), end: int)
    requires
        pair_at(s, base) == Ok::<((Value, Value), int), Failure>((p, end)),
        base < end <= s.len(),
    ensures
        pairs_at(s, base) == more_pairs(s, end, seq![p]),
{
}

/// A comma and a pair extend the list of pairs.
pub proof fn lemma_pairs_next(
    s: Seq<char>,
    mid: int,
    acc: Seq<(Value, Value)>,
    p: (Value, Value),
    end: int,
)
    requires
        has_at(s, mid, ','),
        mid + 1 < s.len(),
        !is_space(s[mid + 1]),
        pair_at(s, mid + 1) == Ok::<((Value, Value), int), Failure>((p, end)),
        mid + 1 < end <= s.len(),
    ensures
        more_pairs(s, mid, acc) == more_pairs(s, end, acc.push(p)),
{
    assert(run_end(s, mid, Class::Space) == mid);
    assert(run_end(s, mid + 1, Class::Space) == mid + 1);
    assert(comma_at(s, mid) == Ok::<((), int), Failure>(((), mid + 1)));
}

/// Where the `n`th entry starts in a list of entries printed at `base`.
pub open spec fn entry_start(v: Seq<(String, Scalar)>, n: nat, base: int) -> int {
    if n <= 1 {
        base
    } else {
        base + printed_entries(v, (n - 1) as nat).len() + 1
    }
}

/// Where the first `n` entries stand, the first `n - 1` stand, a comma
/// after them, and then the head and the value of the `n`th.
pub proof fn lemma_entries_layout(v: Seq<(String, Scalar)>, n: nat, s: Seq<char>, base: int)
    requires
        1 <= n <= v.len(),
        holds_at(s, base, printed_entries(v, n)),
    ensures
        ({
            let start = entry_start(v, n, base);
            let head = key_text(v[n - 1].0@) + fat_comma();
            let value = v[n - 1].1.printed();
            &&& holds_at(s, start, head)
            &&& holds_at(s, start + head.len(), value)
            &&& head.len() == key_text(v[n - 1].0@).len() + 2
            &&& start + head.len() + value.len() == base + printed_entries(v, n).len()
            &&& n > 1 ==> holds_at(s, base, printed_entries(v, (n - 1) as nat)) && has_at(
                s,
                start - 1,
                ',',
            )
        }),
{
    let last = v[n - 1];
    let head = key_text(last.0@) + fat_comma();
    let text = printed_entry(last);
    assert(text == head + last.1.printed());
    if n == 1 {
        assert(printed_entries(v, n) == text);
        lemma_holds_split(s, base, head, last.1.printed());
    } else {
        let front = printed_entries(v, (n - 1) as nat);
        assert(printed_entries(v, n) == front + (seq![','] + text));
        lemma_holds_split(s, base, front, seq![','] + text);
        let mid = base + front.len();
        lemma_holds_split(s, mid, seq![','], text);
        assert(s[mid + 0] == seq![','][0]);
        lemma_holds_split(s, mid + 1, head, last.1.printed());
    }
}

/// The keys and values of one more entry.
pub proof fn lemma_pair_models_push(v: Seq<(String, Scalar)>, n: nat)
    requires
        1 <= n <= v.len(),
    ensures
        pair_models(v.take(n as int)) == pair_models(v.take(n - 1)).push(
            (Value::String(v[n - 1].0@), v[n - 1].1.model()),
        ),
{
}

/// The first `n` printed entries of a hash read back as their keys and
/// values.
pub proof fn lemma_entries_read(v: Seq<(String, Scalar)>, n: nat, s: Seq<char>, base: int)
    requires
        1 <= n <= v.len(),
        forall|k: int| 0 <= k < v.len() ==> (#[trigger] v[k]).1.wf(),
        holds_at(s, base, printed_entries(v, n)),
        has_at(s, base + printed_entries(v, n).len(), ',') || has_at(
            s,
            base + printed_entries(v, n).len(),
            '}',
        ),
    ensures
        pairs_at(s, base) == more_pairs(
            s,
            base + printed_entries(v, n).len(),
            pair_models(v.take(n as int)),
        ),
    decreases v, n,
{
    let end = base + printed_entries(v, n).len();
    let last = v[n - 1];
    let key = last.0@;
    let pair = (Value::String(key), last.1.model());
    let start = entry_start(v, n, base);
    let at = start + key_text(key).len() + 2;
    lemma_entries_layout(v, n, s, base);
    assert(last.1.wf());
    lemma_first(last.1);
    assert(s[at + 0] == last.1.printed()[0]);
    lemma_scalar_reads(last.1, s, at);
    lemma_entry_reads(s, start, key, last.1.model(), end);
    lemma_pair_models_push(v, n);
    if n == 1 {
        lemma_pairs_first(s, base, pair, end);
        assert(pair_models(v.take(0)) == Seq::<(Value, Value)>::empty());
    } else {
        lemma_entries_read(v, (n - 1) as nat, s, base);
        lemma_pairs_next(s, start - 1, pair_models(v.take(n - 1)), pair, end);
    }
}

/// Round trip: the literal that the printer writes for a well-formed scalar
/// is read back by the grammar, to its last character, as the value of that
/// scalar.
pub proof fn lemma_round_trip(v: Scalar)
    requires
        v.wf(),
    ensures
        scalar_at(v.printed(), 0) == Ok::<(Value, int), Failure>(
            (v.model(), v.printed().len() as int),
        ),
{
    lemma_scalar_reads(v, v.printed(), 0);
}

} // verus!
