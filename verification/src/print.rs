//! The printer of the value tree: renders a scalar as a literal of the
//! grammar.

use vstd::prelude::*;
use crate::quote::{bare_quote, decimal, int_quote, key_text, single_quote, single_quoted};
use crate::text::push_text;
use crate::value::{Array, Reference, Scalar};

verus! {

/// The word for the undefined value.
pub open spec fn undef_text() -> Seq<char> {
    seq!['u', 'n', 'd', 'e', 'f']
}

/// What stands between a key and its value.
pub open spec fn fat_comma() -> Seq<char> {
    seq!['=', '>']
}

/// The first `n` scalars of `v` as literals, separated by commas.
pub open spec fn printed_items(v: Seq<Scalar>, n: nat) -> Seq<char>
    decreases v, n,
{
    if n == 0 || n > v.len() {
        Seq::empty()
    } else if n == 1 {
        v[0].printed()
    } else {
        printed_items(v, (n - 1) as nat) + seq![','] + v[n - 1].printed()
    }
}

/// One entry of a hash: the key, unquoted where it can be, `=>`, the value.
pub open spec fn printed_entry(e: (String, Scalar)) -> Seq<char>
    decreases e, 0nat,
{
    key_text(e.0@) + fat_comma() + e.1.printed()
}

/// The first `n` entries of `v`, separated by commas.
pub open spec fn printed_entries(v: Seq<(String, Scalar)>, n: nat) -> Seq<char>
    decreases v, n,
{
    if n == 0 || n > v.len() {
        Seq::empty()
    } else if n == 1 {
        printed_entry(v[0])
    } else {
        printed_entries(v, (n - 1) as nat) + seq![','] + printed_entry(v[n - 1])
    }
}

impl Scalar {
    /// The literal that denotes this scalar: `undef`; the decimal text of an
    /// integer; the text of a float; a single-quoted string; or the literal
    /// of a reference.
    pub open spec fn printed(&self) -> Seq<char>
        decreases self, 0nat,
    {
        match self {
            Scalar::Undefined => undef_text(),
            Scalar::Int(i) => decimal(*i as int),
            Scalar::Float(t) => t@,
            Scalar::String(t) => single_quoted(t@),
            Scalar::Reference(r) => r.printed(),
        }
    }
}

impl Reference {
    /// The literal that denotes this reference: the entries of a hash in
    /// braces, the elements of an array in brackets, or a backslash and the
    /// scalar referred to.
    pub open spec fn printed(&self) -> Seq<char>
        decreases self, 0nat,
    {
        match self {
            Reference::Hash(h) => seq!['{'] + printed_entries(h.0@, h.0@.len()) + seq!['}'],
            Reference::Array(a) => seq!['['] + printed_items(a.0@, a.0@.len()) + seq![']'],
            Reference::Scalar(s) => seq!['\\'] + s.printed(),
        }
    }
}

/// Appends the literal of `value` to `out`.
pub fn write_scalar(out: &mut String, value: &Scalar)
    ensures
        final(out)@ == old(out)@ + value.printed(),
    decreases value, 0nat,
{
    match value {
        Scalar::Undefined => {
            out.push('u');
            out.push('n');
            out.push('d');
            out.push('e');
            out.push('f');
            assert(out@ == old(out)@ + undef_text());
        },
        Scalar::Int(i) => {
            int_quote(out, *i as i128);
        },
        Scalar::Float(t) => {
            push_text(out, t.as_str());
        },
        Scalar::String(t) => {
            single_quote(out, t.as_str());
        },
        Scalar::Reference(r) => {
            write_reference(out, r);
        },
    }
}

/// Appends the literal of `target` to `out`.
#[verifier::loop_isolation(false)]
pub fn write_reference(out: &mut String, target: &Reference)
    ensures
        final(out)@ == old(out)@ + target.printed(),
    decreases target, 0nat,
{
    match target {
        Reference::Hash(h) => {
            out.push('{');
            let n = h.0.len();
            let mut i: usize = 0;
            while i < n
                invariant
                    i <= n,
                    n == h.0@.len(),
                    out@ == old(out)@ + seq!['{'] + printed_entries(h.0@, i as nat),
                decreases n - i,
            {
                if i > 0 {
                    out.push(',');
                }
                let ghost before = out@;
                bare_quote(out, h.0[i].0.as_str());
                out.push('=');
                out.push('>');
                assert(out@ == before + key_text(h.0@[i as int].0@) + fat_comma());
                write_scalar(out, &h.0[i].1);
                assert(out@ == before + printed_entry(h.0@[i as int]));
                i += 1;
            }
            out.push('}');
        },
        Reference::Array(a) => {
            out.push('[');
            let n = a.0.len();
            let mut i: usize = 0;
            while i < n
                invariant
                    i <= n,
                    n == a.0@.len(),
                    out@ == old(out)@ + seq!['['] + printed_items(a.0@, i as nat),
                decreases n - i,
            {
                if i > 0 {
                    out.push(',');
                }
                write_scalar(out, &a.0[i]);
                i += 1;
            }
            out.push(']');
        },
        Reference::Scalar(s) => {
            out.push('\\');
            write_scalar(out, s);
        },
    }
}

/// The literal that denotes `value`.
pub fn to_string(value: &Scalar) -> (text: String)
    ensures
        text@ == value.printed(),
{
    let mut out = String::new();
    write_scalar(&mut out, value);
    out
}

} // verus!
