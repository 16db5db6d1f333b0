//! Characters and strings: the character classes of the grammar and the few
//! string operations the rest of the crate is built from.

use vstd::prelude::*;
use vstd::string::StringExecFns;

verus! {

/// `String::push` appends exactly one character.
pub assume_specification[ std::string::String::push ](s: &mut std::string::String, c: char)
    ensures
        final(s)@ == old(s)@.push(c),
;

/// The last byte of the UTF-8 encoding of a scalar is the scalar itself
/// where that is below 0x80, and is 0x80 at least where it is not.
proof fn lemma_last_byte_of_scalar(x: u32)
    requires
        vstd::utf8::is_scalar(x),
    ensures
        vstd::utf8::encode_scalar(x).len() > 0,
        x < 0x80 ==> vstd::utf8::encode_scalar(x).last() == x,
        x >= 0x80 ==> vstd::utf8::encode_scalar(x).last() >= 0x80,
{
    assert(x < 0x80 ==> (x & 0x7F) as u8 == x) by (bit_vector);
    assert(0x80u8 | (x & 0x3F) as u8 >= 0x80) by (bit_vector);
}

/// The UTF-8 encoding of a text ends with the byte of an ASCII character
/// exactly when the text ends with that character.
proof fn lemma_last_byte(chars: Seq<char>, c: char)
    requires
        (c as u32) < 0x80,
    ensures
        chars.len() > 0 ==> vstd::utf8::encode_utf8(chars).len() > 0,
        chars.len() == 0 ==> vstd::utf8::encode_utf8(chars).len() == 0,
        chars.len() > 0 ==> (vstd::utf8::encode_utf8(chars).last() == c as u32 <==> chars.last()
            == c),
    decreases chars.len(),
{
    if chars.len() > 0 {
        let head = vstd::utf8::encode_scalar(chars[0] as u32);
        let rest = chars.drop_first();
        let tail = vstd::utf8::encode_utf8(rest);
        vstd::utf8::char_is_scalar(chars[0]);
        lemma_last_byte_of_scalar(chars[0] as u32);
        lemma_last_byte(rest, c);
        if rest.len() == 0 {
            assert(head + tail == head);
            assert(chars.last() == chars[0]);
            if chars[0] as u32 == c as u32 {
                vstd::utf8::char_u32_cast(chars[0], chars[0] as u32);
                vstd::utf8::char_u32_cast(c, c as u32);
            }
        } else {
            assert((head + tail).last() == tail.last());
            assert(chars.last() == rest.last());
        }
    }
}

/// Whether `c` is the last character of `s`.
pub fn ends_with(s: &str, c: char) -> (b: bool)
    ensures
        b == (s@.len() > 0 && s@.last() == c),
{
    if (c as u32) < 0x80 {
        let bytes = s.as_bytes();
        let n = bytes.len();
        proof {
            lemma_last_byte(s@, c);
        }
        n > 0 && bytes[n - 1] as u32 == c as u32
    } else {
        let n = s.unicode_len();
        n > 0 && s.get_char(n - 1) == c
    }
}

/// The text that `String::from_utf8_lossy` makes of `bytes`.
pub uninterp spec fn utf8_lossy(bytes: Seq<u8>) -> Seq<char>;

/// Calls `String::from_utf8_lossy`.  Trusted: the text depends on the bytes
/// alone, and bytes that are valid UTF-8 decode to the text they encode.
#[verifier::external_body]
pub(crate) fn decode_lossy(bytes: &[u8]) -> (text: String)
    ensures
        text@ == utf8_lossy(bytes@),
        vstd::utf8::valid_utf8(bytes@) ==> text@ == vstd::utf8::decode_utf8(bytes@),
{
    String::from_utf8_lossy(bytes).into_owned()
}

/// Blank, tab, carriage return or line feed.
pub open spec fn is_space(c: char) -> bool {
    c == ' ' || c == '\t' || c == '\r' || c == '\n'
}

/// An ASCII decimal digit.
pub open spec fn is_digit(c: char) -> bool {
    '0' <= c && c <= '9'
}

/// Every character of `t` is a digit.
pub open spec fn all_digits(t: Seq<char>) -> bool {
    forall|k: int| 0 <= k < t.len() ==> is_digit(#[trigger] t[k])
}

/// A digit or the underscore that may separate digits in a number literal.
pub open spec fn is_perl_digit_char(c: char) -> bool {
    is_digit(c) || c == '_'
}

/// An ASCII letter, an ASCII digit or an underscore.
pub open spec fn is_word(c: char) -> bool {
    ('a' <= c && c <= 'z') || ('A' <= c && c <= 'Z') || is_digit(c) || c == '_'
}

/// Whether `c` is white space.
pub fn space(c: char) -> (b: bool)
    ensures
        b == is_space(c),
{
    c == ' ' || c == '\t' || c == '\r' || c == '\n'
}

/// Whether `c` is an ASCII digit.
pub fn digit(c: char) -> (b: bool)
    ensures
        b == is_digit(c),
{
    c >= '0' && c <= '9'
}

/// Whether `c` is an ASCII letter, an ASCII digit or an underscore.
pub fn word(c: char) -> (b: bool)
    ensures
        b == is_word(c),
{
    (c >= 'a' && c <= 'z') || (c >= 'A' && c <= 'Z') || (c >= '0' && c <= '9') || c == '_'
}

/// The characters of `s`, in order.
pub fn to_chars(s: &str) -> (out: Vec<char>)
    ensures
        out@ == s@,
{
    broadcast use vstd::string::group_string_axioms;

    let mut out: Vec<char> = Vec::new();
    for c in it: s.chars()
        invariant
            it.seq() == s@,
            out@ == it.seq().take(it.index()),
    {
        out.push(c);
    }
    out
}

/// Appends the characters `chars[from..to]` to `out`.
pub fn push_range(out: &mut String, chars: &[char], from: usize, to: usize)
    requires
        from <= to <= chars@.len(),
    ensures
        final(out)@ == old(out)@ + chars@.subrange(from as int, to as int),
{
    let mut i: usize = from;
    while i < to
        invariant
            from <= i <= to <= chars@.len(),
            out@ == old(out)@ + chars@.subrange(from as int, i as int),
        decreases to - i,
    {
        out.push(chars[i]);
        i += 1;
    }
}

/// The characters `chars[from..to]` as a string.
pub fn string_of(chars: &[char], from: usize, to: usize) -> (out: String)
    requires
        from <= to <= chars@.len(),
    ensures
        out@ == chars@.subrange(from as int, to as int),
{
    let mut out = String::new();
    push_range(&mut out, chars, from, to);
    out
}

/// Appends `s` to `out`.
pub fn push_text(out: &mut String, s: &str)
    ensures
        final(out)@ == old(out)@ + s@,
{
    out.append(s);
}

} // verus!
