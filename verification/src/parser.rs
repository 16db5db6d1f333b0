//! The parser: the grammar, executed on a slice of characters.

use vstd::prelude::*;
use crate::error::{Error, ParseError, Rule};
use crate::grammar::{
    arrayref_at, as_string, bareword_at, bareword_or_literal_at, closing, comma_at,
    comma_head_at, comma_pair_at, cooked_body, digit_of, digits_value, double_quoted_at,
    fatcomma_head_at, fatcomma_pair_at, has_at, hashref_at, int_of, is_delimiter, items_at,
    keyed, lemma_run_end, literal_at, member, more_items, more_pairs, number_at, or_zero,
    pair_at, pairs_at, q_string_at, raw_body, reference_at, run_end, scalar_at, scalarref_at,
    single_quoted_at, string_at, string_keys, strip_underscores, undef_at, unescape, Class,
    Failure, Parse,
};
use crate::text::{
    digit, is_digit, is_perl_digit_char, push_range, space, string_of, to_chars, word,
};
use vstd::string::StrSliceExecFns;
use crate::value::{
    entries_map, float_text, lemma_entries_push, models, Array, Reference, Scalar, Value,
};

verus! {

/// Where and at which rule the parser failed.
#[derive(Debug, Clone, Copy, PartialEq, Eq)]
pub struct Fault {
    /// The index of the first character that was not consumed.
    pub at: usize,
    /// The rule that did not match there.
    pub rule: Rule,
}

impl View for Fault {
    type V = Failure;

    open spec fn view(&self) -> Failure {
        Failure { at: self.at as int, rule: self.rule }
    }
}

/// What a parsing function returns: the value and the index after it, or
/// the fault.
pub type Step<T> = Result<(T, usize), Fault>;

/// The result `r` is the outcome `p`.
pub open spec fn agrees<T: View>(r: Step<T>, p: Parse<T::V>) -> bool {
    match r {
        Ok((v, n)) => p == Ok::<(T::V, int), Failure>((v@, n as int)),
        Err(f) => p == Err::<(T::V, int), Failure>(f@),
    }
}

/// A scalar that `r` holds is well formed.
pub open spec fn sound(r: Step<Scalar>) -> bool {
    r matches Ok((v, _)) ==> v.wf()
}

/// The result `r` stays within an input of `len` characters and, where it is
/// a success, ends after `i`.
pub open spec fn within<T>(r: Step<T>, i: usize, len: nat) -> bool {
    match r {
        Ok((_, n)) => i < n <= len,
        Err(f) => f.at <= len,
    }
}

fn is_member(class: Class, c: char) -> (b: bool)
    ensures
        b == member(class, c),
{
    match class {
        Class::Space => space(c),
        Class::Digit => digit(c),
        Class::PerlDigit => digit(c) || c == '_',
        Class::Word => word(c),
    }
}

/// The end of the run of `class` that starts at `i`.
fn run(s: &[char], i: usize, class: Class) -> (k: usize)
    requires
        i <= s@.len(),
    ensures
        k == run_end(s@, i as int, class),
        i <= k <= s@.len(),
{
    let mut k: usize = i;
    while k < s.len() && is_member(class, s[k])
        invariant
            i <= k <= s@.len(),
            run_end(s@, i as int, class) == run_end(s@, k as int, class),
        decreases s@.len() - k,
    {
        k += 1;
    }
    k
}

fn sees(s: &[char], i: usize, c: char) -> (b: bool)
    ensures
        b == has_at(s@, i as int, c),
        b ==> i < usize::MAX,
{
    i < s.len() && s[i] == c
}

fn fault<T>(at: usize, rule: Rule) -> (r: Step<T>)
    ensures
        r == Err::<(T, usize), Fault>(Fault { at, rule }),
{
    Err(Fault { at, rule })
}

fn undef(s: &[char], i: usize) -> (r: Step<Scalar>)
    requires
        i <= s@.len(),
    ensures
        sound(r),
        agrees(r, undef_at(s@, i as int)),
        within(r, i, s@.len()),
{
    if sees(s, i, 'u') && sees(s, i + 1, 'n') && sees(s, i + 2, 'd') && sees(s, i + 3, 'e') && sees(
        s,
        i + 4,
        'f',
    ) {
        Ok((Scalar::Undefined, i + 5))
    } else {
        fault(i, Rule::Tag)
    }
}

/// A prefix of a digit string writes a number no larger than the whole.
proof fn lemma_digits_value_grows(d: Seq<char>, k: int)
    requires
        0 <= k <= d.len(),
        forall|i: int| 0 <= i < d.len() ==> is_digit(#[trigger] d[i]),
    ensures
        0 <= digits_value(d.take(k)) <= digits_value(d),
    decreases d.len() - k,
{
    if k == d.len() {
        assert(d.take(k) == d);
        lemma_digits_value_nonnegative(d);
    } else {
        lemma_digits_value_grows(d, k + 1);
        assert(d.take(k + 1).drop_last() == d.take(k));
        lemma_digits_value_nonnegative(d.take(k));
    }
}

proof fn lemma_digits_value_nonnegative(d: Seq<char>)
    requires
        forall|i: int| 0 <= i < d.len() ==> is_digit(#[trigger] d[i]),
    ensures
        0 <= digits_value(d),
    decreases d.len(),
{
    if d.len() > 0 {
        lemma_digits_value_nonnegative(d.drop_last());
    }
}

/// The 64-bit integer that the digits write, negated where `negative`.
fn int_from_digits(negative: bool, d: &Vec<char>) -> (r: Option<i64>)
    requires
        forall|i: int| 0 <= i < d@.len() ==> is_digit(#[trigger] d@[i]),
    ensures
        r == int_of(negative, d@),
{
    if d.len() == 0 {
        return None;
    }
    let limit: u64 = if negative {
        9223372036854775808u64
    } else {
        9223372036854775807u64
    };
    let mut acc: u64 = 0;
    let mut i: usize = 0;
    while i < d.len()
        invariant
            i <= d@.len(),
            forall|j: int| 0 <= j < d@.len() ==> is_digit(#[trigger] d@[j]),
            acc as int == digits_value(d@.take(i as int)),
            acc <= limit,
            limit == if negative {
                9223372036854775808u64
            } else {
                9223372036854775807u64
            },
        decreases d@.len() - i,
    {
        let c = d[i];
        let v: u64 = (c as u32 - '0' as u32) as u64;
        proof {
            assert(d@.take(i + 1).drop_last() == d@.take(i as int));
            assert(d@.take(i + 1).last() == c);
            assert(v as int == digit_of(c));
            assert(digits_value(d@.take(i + 1)) == acc * 10 + v);
        }
        if acc > (limit - v) / 10 {
            proof {
                lemma_digits_value_grows(d@, i + 1);
                let q = (limit - v) / 10;
                assert(limit - v < 10 * (q + 1));
                assert(acc * 10 + v > limit);
                assert(digits_value(d@) > limit);
            }
            return None;
        }
        acc = acc * 10 + v;
        i += 1;
    }
    assert(d@.take(d@.len() as int) == d@);
    if negative {
        if acc == 9223372036854775808u64 {
            Some(i64::MIN)
        } else {
            Some(-(acc as i64))
        }
    } else {
        Some(acc as i64)
    }
}

/// Appends to `out` the characters of `s[from..to]` that are not
/// underscores.
fn push_stripped(out: &mut Vec<char>, s: &[char], from: usize, to: usize)
    requires
        from <= to <= s@.len(),
        forall|j: int| from <= j < to ==> is_perl_digit_char(#[trigger] s@[j]),
        forall|j: int| 0 <= j < old(out)@.len() ==> is_digit(#[trigger] old(out)@[j]),
    ensures
        final(out)@ == old(out)@ + strip_underscores(s@.subrange(from as int, to as int)),
        forall|j: int| 0 <= j < final(out)@.len() ==> is_digit(#[trigger] final(out)@[j]),
{
    let mut p: usize = from;
    assert(s@.subrange(from as int, from as int) == Seq::<char>::empty());
    while p < to
        invariant
            from <= p <= to <= s@.len(),
            forall|j: int| from <= j < to ==> is_perl_digit_char(#[trigger] s@[j]),
            out@ == old(out)@ + strip_underscores(s@.subrange(from as int, p as int)),
            forall|j: int| 0 <= j < out@.len() ==> is_digit(#[trigger] out@[j]),
        decreases to - p,
    {
        let c = s[p];
        proof {
            let t = s@.subrange(from as int, p + 1);
            assert(t.drop_last() == s@.subrange(from as int, p as int));
            assert(t.last() == c);
        }
        if c != '_' {
            out.push(c);
        }
        p += 1;
    }
}

/// Appends the characters of `v` to `out`.
fn push_chars(out: &mut String, v: &Vec<char>)
    ensures
        final(out)@ == old(out)@ + v@,
{
    push_range(out, v.as_slice(), 0, v.len());
    assert(v@.subrange(0, v@.len() as int) == v@);
}

/// Where the parts of a number literal lie.
struct Span {
    /// Whether the literal starts with a minus sign.
    negative: bool,
    /// The start of the integer digits.
    whole: usize,
    /// The end of the integer digits.
    point: usize,
    /// Whether a fraction follows the integer digits.
    frac: bool,
    /// The end of the fraction, or of the integer digits without one.
    mark: usize,
    /// Whether an exponent follows.
    exp: bool,
    /// The end of the literal.
    end: usize,
}

/// The span is that of the number literal at `i`.
spec fn spans(sp: Span, s: Seq<char>, i: int) -> bool {
    &&& sp.negative == has_at(s, i, '-')
    &&& sp.whole == if sp.negative {
        i + 1
    } else {
        i
    }
    &&& sp.point == run_end(s, sp.whole as int, Class::PerlDigit)
    &&& sp.frac == (has_at(s, sp.point as int, '.') && run_end(s, sp.point + 1, Class::PerlDigit)
        > sp.point + 1)
    &&& sp.mark == if sp.frac {
        run_end(s, sp.point + 1, Class::PerlDigit)
    } else {
        sp.point as int
    }
    &&& sp.exp == ((has_at(s, sp.mark as int, 'e') || has_at(s, sp.mark as int, 'E')) && run_end(
        s,
        sp.mark + 1,
        Class::Digit,
    ) > sp.mark + 1)
    &&& sp.end == if sp.exp {
        run_end(s, sp.mark + 1, Class::Digit)
    } else {
        sp.mark as int
    }
    &&& i <= sp.whole <= sp.point <= sp.mark <= sp.end <= s.len()
    &&& sp.frac ==> sp.point + 1 < sp.mark
    &&& sp.exp ==> sp.mark + 1 < sp.end
    &&& forall|x: int| sp.whole <= x < sp.point ==> is_perl_digit_char(#[trigger] s[x])
    &&& sp.frac ==> forall|x: int| sp.point + 1 <= x < sp.mark ==> is_perl_digit_char(#[trigger] s[x])
    &&& sp.exp ==> forall|x: int| sp.mark + 1 <= x < sp.end ==> is_digit(#[trigger] s[x])
}

/// The exponent digits of the span.
spec fn exponent_digits(sp: Span, s: Seq<char>) -> Seq<char> {
    if sp.exp {
        s.subrange(sp.mark + 1, sp.end as int)
    } else {
        Seq::<char>::empty()
    }
}

/// Finds the parts of the number literal at `i`.
fn scan_number(s: &[char], i: usize) -> (sp: Span)
    requires
        i <= s@.len(),
    ensures
        spans(sp, s@, i as int),
{
    let negative = sees(s, i, '-');
    let whole: usize = if negative {
        i + 1
    } else {
        i
    };
    let point = run(s, whole, Class::PerlDigit);
    let mut frac = false;
    let mut mark: usize = point;
    if sees(s, point, '.') {
        let e = run(s, point + 1, Class::PerlDigit);
        if e > point + 1 {
            frac = true;
            mark = e;
        }
    }
    let mut exp = false;
    let mut end: usize = mark;
    if sees(s, mark, 'e') || sees(s, mark, 'E') {
        let e = run(s, mark + 1, Class::Digit);
        if e > mark + 1 {
            exp = true;
            end = e;
        }
    }
    proof {
        lemma_run_end(s@, whole as int, Class::PerlDigit);
        if frac {
            lemma_run_end(s@, point + 1, Class::PerlDigit);
        }
        if exp {
            lemma_run_end(s@, mark + 1, Class::Digit);
        }
    }
    Span { negative, whole, point, frac, mark, exp, end }
}

/// Appends the digits `d`, or the digit `0` where there is none.
fn push_or_zero(out: &mut String, d: &Vec<char>)
    ensures
        final(out)@ == old(out)@ + or_zero(d@),
{
    if d.len() == 0 {
        out.push('0');
    } else {
        push_chars(out, d);
    }
}

/// The float that a number literal with a fraction denotes.
fn float_of(s: &[char], i: usize, sp: &Span) -> (r: Step<Scalar>)
    requires
        spans(*sp, s@, i as int),
        sp.frac,
        sp.whole < sp.point,
    ensures
        sound(r),
        within(r, i, s@.len()),
        ({
            let whole = strip_underscores(s@.subrange(sp.whole as int, sp.point as int));
            let fraction = strip_underscores(s@.subrange(sp.point + 1, sp.mark as int));
            let exponent = exponent_digits(*sp, s@);
            agrees(
                r,
                if whole.len() + fraction.len() == 0 {
                    crate::grammar::fail(i as int, Rule::MapRes)
                } else {
                    Ok(
                        (
                            Value::Float(
                                float_text(
                                    sp.negative,
                                    or_zero(whole),
                                    or_zero(fraction),
                                    exponent,
                                ),
                            ),
                            sp.end as int,
                        ),
                    )
                },
            )
        }),
{
    let ghost whole = strip_underscores(s@.subrange(sp.whole as int, sp.point as int));
    let ghost fraction = strip_underscores(s@.subrange(sp.point + 1, sp.mark as int));
    let ghost exponent = exponent_digits(*sp, s@);
    let mut ints: Vec<char> = Vec::new();
    push_stripped(&mut ints, s, sp.whole, sp.point);
    let mut fracs: Vec<char> = Vec::new();
    push_stripped(&mut fracs, s, sp.point + 1, sp.mark);
    assert(ints@ == whole);
    assert(fracs@ == fraction);
    if ints.len() == 0 && fracs.len() == 0 {
        return fault(i, Rule::MapRes);
    }
    let mut text = String::new();
    if sp.negative {
        text.push('-');
    }
    push_or_zero(&mut text, &ints);
    text.push('.');
    push_or_zero(&mut text, &fracs);
    if sp.exp {
        text.push('e');
        push_range(&mut text, s, sp.mark + 1, sp.end);
    }
    proof {
        assert(text@ == float_text(sp.negative, or_zero(whole), or_zero(fraction), exponent));
        assert(crate::text::all_digits(exponent)) by {
            assert forall|x: int| 0 <= x < exponent.len() implies is_digit(
                #[trigger] exponent[x],
            ) by {
                assert(exponent[x] == s@[sp.mark + 1 + x]);
            }
        }
        assert(crate::text::all_digits(or_zero(whole)));
        assert(crate::text::all_digits(or_zero(fraction)));
    }
    Ok((Scalar::Float(text), sp.end))
}

/// The integer that a number literal without a fraction denotes.
fn integer_of(s: &[char], i: usize, sp: &Span) -> (r: Step<Scalar>)
    requires
        spans(*sp, s@, i as int),
        !sp.frac,
        sp.whole < sp.point,
    ensures
        sound(r),
        within(r, i, s@.len()),
        agrees(
            r,
            match int_of(
                sp.negative,
                strip_underscores(s@.subrange(sp.whole as int, sp.point as int))
                    + exponent_digits(*sp, s@),
            ) {
                Some(v) => Ok((Value::Int(v), sp.end as int)),
                None => crate::grammar::fail(i as int, Rule::MapRes),
            },
        ),
{
    let ghost whole = strip_underscores(s@.subrange(sp.whole as int, sp.point as int));
    let mut d: Vec<char> = Vec::new();
    push_stripped(&mut d, s, sp.whole, sp.point);
    if sp.exp {
        let mut p: usize = sp.mark + 1;
        assert(s@.subrange(sp.mark + 1, p as int) == Seq::<char>::empty());
        while p < sp.end
            invariant
                sp.mark + 1 <= p <= sp.end <= s@.len(),
                forall|x: int| sp.mark + 1 <= x < sp.end ==> is_digit(#[trigger] s@[x]),
                d@ == whole + s@.subrange(sp.mark + 1, p as int),
                forall|x: int| 0 <= x < d@.len() ==> is_digit(#[trigger] d@[x]),
            decreases sp.end - p,
        {
            d.push(s[p]);
            p += 1;
        }
    }
    assert(d@ == whole + exponent_digits(*sp, s@));
    match int_from_digits(sp.negative, &d) {
        Some(v) => Ok((Scalar::Int(v), sp.end)),
        None => fault(i, Rule::MapRes),
    }
}

fn number(s: &[char], i: usize) -> (r: Step<Scalar>)
    requires
        i <= s@.len(),
    ensures
        sound(r),
        agrees(r, number_at(s@, i as int)),
        within(r, i, s@.len()),
{
    let sp = scan_number(s, i);
    if sp.point == sp.whole {
        fault(sp.whole, Rule::Digit)
    } else if sp.frac {
        float_of(s, i, &sp)
    } else {
        integer_of(s, i, &sp)
    }
}

/// The body of a raw string that starts at `i` and is closed by `close`.
fn raw(s: &[char], i: usize, close: char) -> (r: Step<String>)
    requires
        i <= s@.len(),
    ensures
        agrees(r, raw_body(s@, i as int, i as int, close, Seq::empty())),
        within(r, i, s@.len()),
{
    let mut out = String::new();
    let mut p: usize = i;
    loop
        invariant
            i <= p <= s@.len(),
            raw_body(s@, i as int, i as int, close, Seq::empty()) == raw_body(
                s@,
                p as int,
                i as int,
                close,
                out@,
            ),
        decreases s@.len() - p,
    {
        if p >= s.len() {
            return fault(p, Rule::Char);
        }
        let c = s[p];
        if c == close {
            return Ok((out, p + 1));
        } else if c == '\\' {
            if p + 1 >= s.len() {
                return fault(i, Rule::Escaped);
            }
            let d = s[p + 1];
            if d == close || d == '\\' {
                out.push(d);
                p += 2;
            } else {
                return fault(p + 1, Rule::OneOf);
            }
        } else {
            out.push(c);
            p += 1;
        }
    }
}

fn text_scalar(r: Step<String>) -> (out: Step<Scalar>)
    ensures
        forall|p: Parse<Seq<char>>| agrees(r, p) ==> agrees(out, as_string(p)),
        forall|i: usize, len: nat| within(r, i, len) ==> within(out, i, len),
        sound(out),
{
    match r {
        Ok((t, n)) => Ok((Scalar::String(t), n)),
        Err(f) => Err(f),
    }
}

fn single_quoted(s: &[char], i: usize) -> (r: Step<Scalar>)
    requires
        i <= s@.len(),
    ensures
        sound(r),
        agrees(r, single_quoted_at(s@, i as int)),
        within(r, i, s@.len()),
{
    if sees(s, i, '\'') {
        let body = raw(s, i + 1, '\'');
        assert(within(body, (i + 1) as usize, s@.len()));
        let r = text_scalar(body);
        assert(agrees(body, raw_body(s@, i + 1, i + 1, '\'', Seq::empty())));
        r
    } else {
        fault(i, Rule::Char)
    }
}

fn unescaped(c: char) -> (r: Option<char>)
    ensures
        r == unescape(c),
{
    if c == '\\' {
        Some('\\')
    } else if c == '"' {
        Some('"')
    } else if c == 'n' {
        Some('\n')
    } else if c == 'r' {
        Some('\r')
    } else if c == 't' {
        Some('\t')
    } else if c == '0' {
        Some('\0')
    } else if c == 'v' {
        Some('\x0B')
    } else if c == 'b' {
        Some('\x08')
    } else if c == 'a' {
        Some('\x07')
    } else if c == 'e' {
        Some('\x1B')
    } else if c == 'z' {
        Some('\x1F')
    } else {
        None
    }
}

/// The body of a double-quoted string that starts at `i`.
fn cooked(s: &[char], i: usize) -> (r: Step<String>)
    requires
        i <= s@.len(),
    ensures
        agrees(r, cooked_body(s@, i as int, Seq::empty())),
        within(r, i, s@.len()),
{
    let mut out = String::new();
    let mut p: usize = i;
    loop
        invariant
            i <= p <= s@.len(),
            cooked_body(s@, i as int, Seq::empty()) == cooked_body(s@, p as int, out@),
        decreases s@.len() - p,
    {
        if p >= s.len() {
            return fault(p, Rule::Char);
        }
        let c = s[p];
        if c == '"' {
            return Ok((out, p + 1));
        } else if c == '\\' {
            if p + 1 >= s.len() {
                return fault(p, Rule::EscapedTransform);
            }
            match unescaped(s[p + 1]) {
                Some(d) => {
                    out.push(d);
                    p += 2;
                },
                None => {
                    return fault(p + 1, Rule::Tag);
                },
            }
        } else {
            out.push(c);
            p += 1;
        }
    }
}

fn double_quoted(s: &[char], i: usize) -> (r: Step<Scalar>)
    requires
        i <= s@.len(),
    ensures
        sound(r),
        agrees(r, double_quoted_at(s@, i as int)),
        within(r, i, s@.len()),
{
    if sees(s, i, '"') {
        let body = cooked(s, i + 1);
        assert(within(body, (i + 1) as usize, s@.len()));
        let r = text_scalar(body);
        assert(agrees(body, cooked_body(s@, i + 1, Seq::empty())));
        r
    } else {
        fault(i, Rule::Char)
    }
}

fn delimiter(c: char) -> (b: bool)
    ensures
        b == is_delimiter(c),
{
    c == '!' || c == '"' || c == '#' || c == '$' || c == '%' || c == '&' || c == '\'' || c == '('
        || c == '*' || c == '+' || c == ',' || c == '-' || c == '/' || c == ':' || c == ';' || c
        == '<' || c == '=' || c == '?' || c == '@' || c == '[' || c == '\\' || c == '^' || c == '`'
        || c == '{' || c == '|' || c == '~'
}

/// The character that closes a `q` string opened by `c`.
pub fn paired_quote_delimiter(c: char) -> (d: char)
    ensures
        d == closing(c),
{
    if c == '(' {
        ')'
    } else if c == '[' {
        ']'
    } else if c == '{' {
        '}'
    } else if c == '<' {
        '>'
    } else {
        c
    }
}

fn q_string(s: &[char], i: usize) -> (r: Step<Scalar>)
    requires
        i <= s@.len(),
    ensures
        sound(r),
        agrees(r, q_string_at(s@, i as int)),
        within(r, i, s@.len()),
{
    if !sees(s, i, 'q') {
        fault(i, Rule::Char)
    } else if !(i + 1 < s.len() && delimiter(s[i + 1])) {
        fault(i + 1, Rule::OneOf)
    } else {
        let close = paired_quote_delimiter(s[i + 1]);
        let body = raw(s, i + 2, close);
        assert(within(body, (i + 2) as usize, s@.len()));
        let r = text_scalar(body);
        assert(agrees(body, raw_body(s@, i + 2, i + 2, close, Seq::empty())));
        r
    }
}

fn string(s: &[char], i: usize) -> (r: Step<Scalar>)
    requires
        i <= s@.len(),
    ensures
        sound(r),
        agrees(r, string_at(s@, i as int)),
        within(r, i, s@.len()),
{
    match single_quoted(s, i) {
        Ok(v) => Ok(v),
        Err(_) => match double_quoted(s, i) {
            Ok(v) => Ok(v),
            Err(_) => q_string(s, i),
        },
    }
}

fn literal(s: &[char], i: usize) -> (r: Step<Scalar>)
    requires
        i <= s@.len(),
    ensures
        sound(r),
        agrees(r, literal_at(s@, i as int)),
        within(r, i, s@.len()),
{
    let j = run(s, i, Class::Space);
    match undef(s, j) {
        Ok(v) => Ok(v),
        Err(_) => match number(s, j) {
            Ok(v) => Ok(v),
            Err(_) => string(s, j),
        },
    }
}

fn bareword(s: &[char], i: usize) -> (r: Step<Scalar>)
    requires
        i <= s@.len(),
    ensures
        sound(r),
        agrees(r, bareword_at(s@, i as int)),
        within(r, i, s@.len()),
{
    let k = run(s, i, Class::Word);
    if k == i {
        fault(i, Rule::TakeWhile1)
    } else {
        Ok((Scalar::String(string_of(s, i, k)), k))
    }
}

fn bareword_or_literal(s: &[char], i: usize) -> (r: Step<Scalar>)
    requires
        i <= s@.len(),
    ensures
        sound(r),
        agrees(r, bareword_or_literal_at(s@, i as int)),
        within(r, i, s@.len()),
{
    match bareword(s, i) {
        Ok(v) => Ok(v),
        Err(_) => literal(s, i),
    }
}

fn comma_step(s: &[char], i: usize) -> (r: Step<()>)
    requires
        i <= s@.len(),
    ensures
        agrees(r, comma_at(s@, i as int)),
        within(r, i, s@.len()),
{
    let j = run(s, i, Class::Space);
    if sees(s, j, ',') {
        Ok(((), run(s, j + 1, Class::Space)))
    } else {
        fault(j, Rule::Char)
    }
}

fn fatcomma_head(s: &[char], i: usize) -> (r: Step<Scalar>)
    requires
        i <= s@.len(),
    ensures
        sound(r),
        agrees(r, fatcomma_head_at(s@, i as int)),
        within(r, i, s@.len()),
{
    match bareword_or_literal(s, run(s, i, Class::Space)) {
        Ok((key, p)) => {
            let q = run(s, p, Class::Space);
            if sees(s, q, '=') && sees(s, q + 1, '>') {
                Ok((key, run(s, q + 2, Class::Space)))
            } else {
                fault(q, Rule::Tag)
            }
        },
        Err(f) => Err(f),
    }
}

fn comma_head(s: &[char], i: usize) -> (r: Step<Scalar>)
    requires
        i <= s@.len(),
    ensures
        sound(r),
        agrees(r, comma_head_at(s@, i as int)),
        within(r, i, s@.len()),
{
    match literal(s, run(s, i, Class::Space)) {
        Ok((key, p)) => match comma_step(s, p) {
            Ok((_, q)) => Ok((key, q)),
            Err(f) => Err(f),
        },
        Err(f) => Err(f),
    }
}

/// A scalar at `i`.
fn scalar(s: &[char], i: usize) -> (r: Step<Scalar>)
    requires
        i <= s@.len(),
    ensures
        sound(r),
        agrees(r, scalar_at(s@, i as int)),
        within(r, i, s@.len()),
    decreases s@.len() - i, 5int,
{
    match literal(s, i) {
        Ok(v) => Ok(v),
        Err(_) => match reference(s, i) {
            Ok((target, n)) => Ok((Scalar::Reference(Box::new(target)), n)),
            Err(f) => Err(f),
        },
    }
}

/// A reference at `i`.
fn reference(s: &[char], i: usize) -> (r: Step<Reference>)
    requires
        i <= s@.len(),
    ensures
        r matches Ok((v, _)) ==> v.wf(),
        agrees(r, reference_at(s@, i as int)),
        within(r, i, s@.len()),
    decreases s@.len() - i, 4int,
{
    match hashref(s, i) {
        Ok(v) => Ok(v),
        Err(_) => match arrayref(s, i) {
            Ok(v) => Ok(v),
            Err(_) => scalarref(s, i),
        },
    }
}

/// A reference to a scalar at `i`.
fn scalarref(s: &[char], i: usize) -> (r: Step<Reference>)
    requires
        i <= s@.len(),
    ensures
        r matches Ok((v, _)) ==> v.wf(),
        agrees(r, scalarref_at(s@, i as int)),
        within(r, i, s@.len()),
    decreases s@.len() - i, 3int,
{
    if sees(s, i, '\\') {
        match scalar(s, i + 1) {
            Ok((v, n)) => Ok((Reference::Scalar(Box::new(v)), n)),
            Err(f) => Err(f),
        }
    } else {
        fault(i, Rule::Char)
    }
}

/// The index after an optional comma at `i`.
fn skip_comma(s: &[char], i: usize) -> (n: usize)
    requires
        i <= s@.len(),
    ensures
        n == crate::grammar::after_optional_comma(s@, i as int),
        i <= n <= s@.len(),
{
    match comma_step(s, i) {
        Ok((_, n)) => n,
        Err(_) => i,
    }
}

/// A reference to a hash at `i`.
fn hashref(s: &[char], i: usize) -> (r: Step<Reference>)
    requires
        i <= s@.len(),
    ensures
        r matches Ok((v, _)) ==> v.wf(),
        agrees(r, hashref_at(s@, i as int)),
        within(r, i, s@.len()),
    decreases s@.len() - i, 3int,
{
    if !sees(s, i, '{') {
        return fault(i, Rule::Char);
    }
    let (hash, keys_ok, end) = entries(s, i + 1);
    let close = run(s, skip_comma(s, end), Class::Space);
    if !sees(s, close, '}') {
        fault(close, Rule::Char)
    } else if !keys_ok {
        fault(close + 1, Rule::Char)
    } else {
        Ok((Reference::Hash(Box::new(hash)), close + 1))
    }
}

/// The pairs of a hash from `i` on, gathered into a hash; whether every key
/// was a string; and the index after the last pair.
fn entries(s: &[char], i: usize) -> (r: (crate::value::Hash, bool, usize))
    requires
        i <= s@.len(),
    ensures
        r.0.wf(),
        r.1 == string_keys(pairs_at(s@, i as int).0),
        r.1 ==> r.0@ == entries_map(keyed(pairs_at(s@, i as int).0)),
        r.2 == pairs_at(s@, i as int).1,
        i <= r.2 <= s@.len(),
    decreases s@.len() - i, 3int,
{
    let mut hash = crate::value::Hash::new();
    let mut keys_ok = true;
    let mut pos: usize = i;
    let ghost mut acc: Seq<(Value, Value)> = Seq::empty();
    match pair(s, i) {
        Err(_) => {
            return (hash, true, i);
        },
        Ok((p, n)) => {
            proof {
                acc = seq![p@];
                assert(keyed(acc) == Seq::<(Seq<char>, Value)>::empty().push((p.0@->String_0, p.1@)));
                lemma_entries_push(Seq::empty(), p.0@->String_0, p.1@);
            }
            match p.0 {
                Scalar::String(key) => {
                    hash.insert(key, p.1);
                },
                _ => {
                    keys_ok = false;
                    assert(!(acc[0].0 is String));
                },
            }
            pos = n;
        },
    }
    loop
        invariant
            i < pos <= s@.len(),
            hash.wf(),
            pairs_at(s@, i as int) == more_pairs(s@, pos as int, acc),
            keys_ok == string_keys(acc),
            keys_ok ==> hash@ == entries_map(keyed(acc)),
        decreases s@.len() - pos,
    {
        match comma_step(s, pos) {
            Err(_) => {
                return (hash, keys_ok, pos);
            },
            Ok((_, j)) => match pair(s, j) {
                Err(_) => {
                    return (hash, keys_ok, pos);
                },
                Ok((p, n)) => {
                    proof {
                        let next = acc.push(p@);
                        assert(keyed(next) == keyed(acc).push((p.0@->String_0, p.1@)));
                        lemma_entries_push(keyed(acc), p.0@->String_0, p.1@);
                        assert(string_keys(next) == (string_keys(acc) && p.0@ is String)) by {
                            if string_keys(acc) && p.0@ is String {
                                assert forall|x: int| 0 <= x < next.len() implies (
                                #[trigger] next[x]).0 is String by {
                                    if x < acc.len() {
                                        assert(next[x] == acc[x]);
                                    }
                                }
                            }
                            if string_keys(next) {
                                assert(next[acc.len() as int].0 is String);
                                assert forall|x: int| 0 <= x < acc.len() implies (
                                #[trigger] acc[x]).0 is String by {
                                    assert(next[x] == acc[x]);
                                }
                            }
                        }
                        acc = next;
                    }
                    match p.0 {
                        Scalar::String(key) => {
                            if keys_ok {
                                hash.insert(key, p.1);
                            }
                        },
                        _ => {
                            keys_ok = false;
                        },
                    }
                    pos = n;
                },
            },
        }
    }
}

/// A pair at `i`.
fn pair(s: &[char], i: usize) -> (r: Step<(Scalar, Scalar)>)
    requires
        i <= s@.len(),
    ensures
        r matches Ok((p, _)) ==> p.0.wf() && p.1.wf(),
        agrees(r, pair_at(s@, i as int)),
        within(r, i, s@.len()),
    decreases s@.len() - i, 2int,
{
    match fatcomma_pair(s, i) {
        Ok(v) => Ok(v),
        Err(_) => comma_pair(s, i),
    }
}

/// A pair written with `=>` at `i`.
fn fatcomma_pair(s: &[char], i: usize) -> (r: Step<(Scalar, Scalar)>)
    requires
        i <= s@.len(),
    ensures
        r matches Ok((p, _)) ==> p.0.wf() && p.1.wf(),
        agrees(r, fatcomma_pair_at(s@, i as int)),
        within(r, i, s@.len()),
    decreases s@.len() - i, 1int,
{
    match fatcomma_head(s, i) {
        Ok((key, p)) => match scalar(s, p) {
            Ok((v, n)) => Ok(((key, v), n)),
            Err(f) => Err(f),
        },
        Err(f) => Err(f),
    }
}

/// A pair written with a comma at `i`.
fn comma_pair(s: &[char], i: usize) -> (r: Step<(Scalar, Scalar)>)
    requires
        i <= s@.len(),
    ensures
        r matches Ok((p, _)) ==> p.0.wf() && p.1.wf(),
        agrees(r, comma_pair_at(s@, i as int)),
        within(r, i, s@.len()),
    decreases s@.len() - i, 1int,
{
    match comma_head(s, i) {
        Ok((key, p)) => match scalar(s, p) {
            Ok((v, n)) => Ok(((key, v), n)),
            Err(f) => Err(f),
        },
        Err(f) => Err(f),
    }
}

/// A reference to an array at `i`.
fn arrayref(s: &[char], i: usize) -> (r: Step<Reference>)
    requires
        i <= s@.len(),
    ensures
        r matches Ok((v, _)) ==> v.wf(),
        agrees(r, arrayref_at(s@, i as int)),
        within(r, i, s@.len()),
    decreases s@.len() - i, 3int,
{
    if !sees(s, i, '[') {
        return fault(i, Rule::Char);
    }
    let j = run(s, i + 1, Class::Space);
    let (list, end) = items(s, j);
    let close = run(s, skip_comma(s, end), Class::Space);
    if sees(s, close, ']') {
        let array = Array(list);
        assert(array.items() == models(list@));
        Ok((Reference::Array(Box::new(array)), close + 1))
    } else {
        fault(close, Rule::Char)
    }
}

/// The elements of an array from `i` on, and the index after the last.
fn items(s: &[char], i: usize) -> (r: (Vec<Scalar>, usize))
    requires
        i <= s@.len(),
    ensures
        forall|k: int| 0 <= k < r.0@.len() ==> (#[trigger] r.0@[k]).wf(),
        (models(r.0@), r.1 as int) == items_at(s@, i as int),
        i <= r.1 <= s@.len(),
    decreases s@.len() - i, 6int,
{
    let mut list: Vec<Scalar> = Vec::new();
    let mut pos: usize = i;
    match scalar(s, i) {
        Err(_) => {
            assert(models(list@) == Seq::<Value>::empty());
            return (list, i);
        },
        Ok((v, n)) => {
            list.push(v);
            assert(models(list@) == seq![v@]);
            pos = n;
        },
    }
    loop
        invariant
            i < pos <= s@.len(),
            forall|k: int| 0 <= k < list@.len() ==> (#[trigger] list@[k]).wf(),
            items_at(s@, i as int) == more_items(s@, pos as int, models(list@)),
        decreases s@.len() - pos,
    {
        match comma_step(s, pos) {
            Err(_) => {
                return (list, pos);
            },
            Ok((_, j)) => match scalar(s, j) {
                Err(_) => {
                    return (list, pos);
                },
                Ok((v, n)) => {
                    let ghost before = list@;
                    list.push(v);
                    assert(models(list@) == models(before).push(v@));
                    pos = n;
                },
            },
        }
    }
}

/// What a public parsing function returns: the rest of the input and the
/// value, or the failure.
pub type Parsed<'a, T> = Result<(&'a str, T), ParseError>;

/// The result `r` presents the outcome `p` of a rule applied to the start of
/// `input`: the value with the input after it, or the input from the point of
/// failure on with the rule that failed.
pub open spec fn shown<T: View>(input: Seq<char>, r: Parsed<T>, p: Parse<T::V>) -> bool {
    match p {
        Ok((v, n)) => r matches Ok((rest, value)) && value@ == v && rest@ == input.subrange(
            n,
            input.len() as int,
        ),
        Err(e) => r matches Err(f) && f.rest@ == input.subrange(e.at, input.len() as int) && f.rule
            == e.rule,
    }
}

/// Turns indices into `input` back into pieces of it.
fn finish<'a, T>(input: &'a str, r: Step<T>) -> (out: Parsed<'a, T>)
    requires
        r matches Ok((_, n)) ==> n <= input@.len(),
        r matches Err(f) ==> f.at <= input@.len(),
    ensures
        match r {
            Ok((v, n)) => out matches Ok((rest, value)) && value == v && rest@ == input@.subrange(
                n as int,
                input@.len() as int,
            ),
            Err(f) => out matches Err(e) && e.rest@ == input@.subrange(
                f.at as int,
                input@.len() as int,
            ) && e.rule == f.rule,
        },
{
    let len = input.unicode_len();
    match r {
        Ok((v, n)) => Ok((input.substring_char(n, len), v)),
        Err(f) => Err(ParseError { rest: input.substring_char(f.at, len).to_owned(), rule: f.rule }),
    }
}

/// Parses a scalar at the start of `input`.  What follows the scalar is not
/// looked at.  A failure is reported in the words of `nom`, as the text of
/// `Error::Nom`; `parse_scalar` gives the same failure in parts.
///
/// The parser calls itself once for each level of nesting, so the depth of
/// the literals it can read is bounded by the stack.
pub fn parse(input: &str) -> (r: Result<Scalar, Error>)
    ensures
        match scalar_at(input@, 0) {
            Ok((v, _)) => r matches Ok(value) && value@ == v && value.wf(),
            Err(e) => r matches Err(Error::Nom(text)) && text@ == crate::error::nom_error_text(
                input@.subrange(e.at, input@.len() as int),
                e.rule,
            ),
        },
{
    match parse_scalar(input) {
        Ok((_, value)) => Ok(value),
        Err(e) => Err(e.into_error()),
    }
}

/// A scalar at the start of `input`: a literal scalar or a reference.
pub fn parse_scalar(input: &str) -> (r: Parsed<Scalar>)
    ensures
        shown(input@, r, scalar_at(input@, 0)),
        r matches Ok((_, v)) ==> v.wf(),
{
    let chars = to_chars(input);
    finish(input, scalar(chars.as_slice(), 0))
}

/// A reference at the start of `input`.
pub fn parse_reference(input: &str) -> (r: Parsed<Scalar>)
    ensures
        shown(input@, r, reference_at(input@, 0)),
        r matches Ok((_, v)) ==> v.wf(),
{
    let chars = to_chars(input);
    match reference(chars.as_slice(), 0) {
        Ok((target, n)) => finish(input, Ok((Scalar::Reference(Box::new(target)), n))),
        Err(f) => finish(input, Err(f)),
    }
}

/// A reference to a scalar at the start of `input`.
pub fn parse_scalarref(input: &str) -> (r: Parsed<Reference>)
    ensures
        shown(input@, r, scalarref_at(input@, 0)),
        r matches Ok((_, v)) ==> v.wf(),
{
    let chars = to_chars(input);
    finish(input, scalarref(chars.as_slice(), 0))
}

/// A reference to a hash at the start of `input`.
pub fn parse_hashref(input: &str) -> (r: Parsed<Reference>)
    ensures
        shown(input@, r, hashref_at(input@, 0)),
        r matches Ok((_, v)) ==> v.wf(),
{
    let chars = to_chars(input);
    finish(input, hashref(chars.as_slice(), 0))
}

/// A pair of a hash at the start of `input`.
pub fn parse_pair(input: &str) -> (r: Parsed<(Scalar, Scalar)>)
    ensures
        shown(input@, r, pair_at(input@, 0)),
        r matches Ok((_, p)) ==> p.0.wf() && p.1.wf(),
{
    let chars = to_chars(input);
    finish(input, pair(chars.as_slice(), 0))
}

/// A pair `key, value` at the start of `input`.
pub fn parse_comma_pair(input: &str) -> (r: Parsed<(Scalar, Scalar)>)
    ensures
        shown(input@, r, comma_pair_at(input@, 0)),
        r matches Ok((_, p)) ==> p.0.wf() && p.1.wf(),
{
    let chars = to_chars(input);
    finish(input, comma_pair(chars.as_slice(), 0))
}

/// A pair `key => value` at the start of `input`.
pub fn parse_fatcomma_pair(input: &str) -> (r: Parsed<(Scalar, Scalar)>)
    ensures
        shown(input@, r, fatcomma_pair_at(input@, 0)),
        r matches Ok((_, p)) ==> p.0.wf() && p.1.wf(),
{
    let chars = to_chars(input);
    finish(input, fatcomma_pair(chars.as_slice(), 0))
}

/// The key of a pair `key => value` at the start of `input`.
pub fn parse_bareword_or_literal(input: &str) -> (r: Parsed<Scalar>)
    ensures
        shown(input@, r, bareword_or_literal_at(input@, 0)),
        r matches Ok((_, v)) ==> v.wf(),
{
    let chars = to_chars(input);
    finish(input, bareword_or_literal(chars.as_slice(), 0))
}

/// A bareword at the start of `input`.
pub fn parse_bareword(input: &str) -> (r: Parsed<Scalar>)
    ensures
        shown(input@, r, bareword_at(input@, 0)),
{
    let chars = to_chars(input);
    finish(input, bareword(chars.as_slice(), 0))
}

/// A comma at the start of `input`, with the white space around it.
pub fn comma(input: &str) -> (r: Parsed<char>)
    ensures
        match comma_at(input@, 0) {
            Ok((_, n)) => r matches Ok((rest, c)) && c == ',' && rest@ == input@.subrange(
                n,
                input@.len() as int,
            ),
            Err(e) => r matches Err(f) && f.rest@ == input@.subrange(e.at, input@.len() as int)
                && f.rule == e.rule,
        },
{
    let chars = to_chars(input);
    match self::comma_step(chars.as_slice(), 0) {
        Ok((_, n)) => finish(input, Ok((',', n))),
        Err(f) => finish(input, Err(f)),
    }
}

/// A reference to an array at the start of `input`.
pub fn parse_arrayref(input: &str) -> (r: Parsed<Reference>)
    ensures
        shown(input@, r, arrayref_at(input@, 0)),
        r matches Ok((_, v)) ==> v.wf(),
{
    let chars = to_chars(input);
    finish(input, arrayref(chars.as_slice(), 0))
}

/// A literal scalar at the start of `input`: `undef`, a number or a string,
/// after optional white space.
pub fn parse_literal_scalar(input: &str) -> (r: Parsed<Scalar>)
    ensures
        shown(input@, r, literal_at(input@, 0)),
        r matches Ok((_, v)) ==> v.wf(),
{
    let chars = to_chars(input);
    finish(input, literal(chars.as_slice(), 0))
}

/// `undef` at the start of `input`.
pub fn parse_undef(input: &str) -> (r: Parsed<Scalar>)
    ensures
        shown(input@, r, undef_at(input@, 0)),
{
    let chars = to_chars(input);
    finish(input, undef(chars.as_slice(), 0))
}

/// A string literal at the start of `input`.
pub fn parse_string(input: &str) -> (r: Parsed<Scalar>)
    ensures
        shown(input@, r, string_at(input@, 0)),
{
    let chars = to_chars(input);
    finish(input, string(chars.as_slice(), 0))
}

/// Whether `c` is a digit or an underscore.
pub fn is_perl_digit(c: char) -> (b: bool)
    ensures
        b == is_perl_digit_char(c),
{
    digit(c) || c == '_'
}

/// The run of digits and underscores at the start of `input`, which must
/// not be empty.
pub fn perl_digit1(input: &str) -> (r: Parsed<&str>)
    ensures
        ({
            let k = run_end(input@, 0, Class::PerlDigit);
            if k == 0 {
                r matches Err(f) && f.rest@ == input@ && f.rule == Rule::Digit
            } else {
                r matches Ok((rest, run)) && run@ == input@.subrange(0, k) && rest@
                    == input@.subrange(k, input@.len() as int)
            }
        }),
{
    let chars = to_chars(input);
    let k = run(chars.as_slice(), 0, Class::PerlDigit);
    if k == 0 {
        assert(input@.subrange(0, input@.len() as int) == input@);
        finish(input, Err(Fault { at: 0, rule: Rule::Digit }))
    } else {
        finish(input, Ok((input.substring_char(0, k), k)))
    }
}

/// A number literal at the start of `input`.
pub fn parse_number(input: &str) -> (r: Parsed<Scalar>)
    ensures
        shown(input@, r, number_at(input@, 0)),
        r matches Ok((_, v)) ==> v.wf(),
{
    let chars = to_chars(input);
    finish(input, number(chars.as_slice(), 0))
}

/// A single-quoted string at the start of `input`.
pub fn parse_single_quoted_string(input: &str) -> (r: Parsed<Scalar>)
    ensures
        shown(input@, r, single_quoted_at(input@, 0)),
{
    let chars = to_chars(input);
    finish(input, single_quoted(chars.as_slice(), 0))
}

/// A double-quoted string at the start of `input`.
pub fn parse_double_quoted_string(input: &str) -> (r: Parsed<Scalar>)
    ensures
        shown(input@, r, double_quoted_at(input@, 0)),
{
    let chars = to_chars(input);
    finish(input, double_quoted(chars.as_slice(), 0))
}

/// A `q` string at the start of `input`.
pub fn parse_q_string(input: &str) -> (r: Parsed<Scalar>)
    ensures
        shown(input@, r, q_string_at(input@, 0)),
{
    let chars = to_chars(input);
    finish(input, q_string(chars.as_slice(), 0))
}

} // verus!
