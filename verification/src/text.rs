//! Vectors as text.

use crate::fixed::{magnitude, magnitude_of, Scalar, ONE};
use crate::output::decimal;
use crate::vector::{Vec3, V3};
use vstd::prelude::*;

verus! {

/// The last `width` decimal digits of `n`, most significant first, as
/// ASCII codes.
pub open spec fn fixed_digits(n: nat, width: nat) -> Seq<u8>
    decreases width,
{
    if width == 0 {
        Seq::empty()
    } else {
        fixed_digits(n / 10, (width - 1) as nat).push((48 + n % 10) as u8)
    }
}

/// `digits` without the zeros at its end.
pub open spec fn trimmed(digits: Seq<u8>) -> Seq<u8>
    decreases digits.len(),
{
    if digits.len() > 0 && digits.last() == 48u8 {
        trimmed(digits.drop_last())
    } else {
        digits
    }
}

/// The text of the number that the raw value `v` stands for: a minus sign
/// if it is negative, the whole part in decimal, and, unless the number is
/// whole, a point and the fraction's digits down to the last one that is
/// not zero. So `ONE / 2` reads `0.5`, `-3 * ONE` reads `-3`.
pub open spec fn scalar_text(v: int) -> Seq<u8> {
    let m = magnitude(v);
    let whole = decimal((m / (ONE as int)) as nat);
    let fraction = trimmed(fixed_digits((m % (ONE as int)) as nat, 9));
    let body = if fraction.len() == 0 {
        whole
    } else {
        whole.push(46u8) + fraction
    };
    if v < 0 {
        seq![45u8] + body
    } else {
        body
    }
}

/// The text of a vector: its three components, separated by single
/// spaces.
pub open spec fn vector_text(v: V3) -> Seq<u8> {
    scalar_text(v.x).push(32u8) + scalar_text(v.y).push(32u8) + scalar_text(v.z)
}

/// The characters that stand for the ASCII codes `bytes`.
pub open spec fn ascii_chars(bytes: Seq<u8>) -> Seq<char> {
    Seq::new(bytes.len(), |i: int| bytes[i] as char)
}

/// Whether every code in `bytes` is an ASCII code.
pub open spec fn all_ascii(bytes: Seq<u8>) -> bool {
    forall|i: int| 0 <= i < bytes.len() ==> #[trigger] bytes[i] < 128
}

/// `String::from_utf8`: on ASCII codes it gives the string whose
/// characters are those codes, since ASCII is valid UTF-8 with one byte to
/// the character. Of other bytes nothing is said.
#[verifier::external_body]
fn string_of(bytes: Vec<u8>) -> (r: Option<String>)
    ensures
        all_ascii(bytes@) ==> r.is_some() && r.unwrap()@ == ascii_chars(bytes@),
{
    match String::from_utf8(bytes) {
        Ok(text) => Some(text),
        Err(_) => None,
    }
}

/// Appends the decimal digits of `n` to `text`.
fn push_decimal(text: &mut Vec<u8>, n: u64)
    ensures
        final(text)@ == old(text)@ + decimal(n as nat),
    decreases n,
{
    let ghost before = text@;
    if n >= 10 {
        push_decimal(text, n / 10);
    }
    text.push(48 + (n % 10) as u8);
    assert(text@ == before + decimal(n as nat));
}

/// Appends the last `width` decimal digits of `n` to `text`.
fn push_fixed_digits(text: &mut Vec<u8>, n: u64, width: u8)
    ensures
        final(text)@ == old(text)@ + fixed_digits(n as nat, width as nat),
    decreases width,
{
    let ghost before = text@;
    if width > 0 {
        push_fixed_digits(text, n / 10, width - 1);
        text.push(48 + (n % 10) as u8);
    }
    assert(text@ == before + fixed_digits(n as nat, width as nat));
}

/// Removes the zeros at the end of `digits`.
fn trim_zeros(digits: &mut Vec<u8>)
    ensures
        final(digits)@ == trimmed(old(digits)@),
{
    let ghost before = digits@;
    while digits.len() > 0 && digits[digits.len() - 1] == 48
        invariant
            trimmed(digits@) == trimmed(before),
        decreases digits.len(),
    {
        digits.pop();
    }
}

/// Appends `tail` to `text`.
fn push_all(text: &mut Vec<u8>, tail: &Vec<u8>)
    ensures
        final(text)@ == old(text)@ + tail@,
{
    let ghost before = text@;
    let mut i: usize = 0;
    while i < tail.len()
        invariant
            i <= tail@.len(),
            text@ == before + tail@.take(i as int),
        decreases tail@.len() - i,
    {
        text.push(tail[i]);
        assert(tail@.take(i + 1) == tail@.take(i as int).push(tail@[i as int]));
        i = i + 1;
    }
    assert(tail@.take(i as int) == tail@);
}

/// Appends the text of the scalar `v` to `text`.
fn push_scalar(text: &mut Vec<u8>, v: Scalar)
    ensures
        final(text)@ == old(text)@ + scalar_text(v as int),
{
    let ghost before = text@;
    let m: u128 = magnitude_of(v);
    if v < 0 {
        text.push(45);
    }
    push_decimal(text, (m / 1_000_000_000) as u64);
    let mut fraction: Vec<u8> = Vec::new();
    push_fixed_digits(&mut fraction, (m % 1_000_000_000) as u64, 9);
    trim_zeros(&mut fraction);
    if fraction.len() > 0 {
        text.push(46);
        push_all(text, &fraction);
    }
    assert(text@ == before + scalar_text(v as int));
}

/// Every code of a number's text is an ASCII code.
proof fn lemma_decimal_is_ascii(n: nat)
    ensures
        all_ascii(decimal(n)),
    decreases n,
{
    if n >= 10 {
        lemma_decimal_is_ascii(n / 10);
    }
}

/// Every code of a run of digits is an ASCII code.
proof fn lemma_fixed_digits_are_ascii(n: nat, width: nat)
    ensures
        all_ascii(fixed_digits(n, width)),
    decreases width,
{
    if width > 0 {
        lemma_fixed_digits_are_ascii(n / 10, (width - 1) as nat);
    }
}

/// Trimming leaves ASCII codes ASCII.
proof fn lemma_trimmed_is_ascii(digits: Seq<u8>)
    requires
        all_ascii(digits),
    ensures
        all_ascii(trimmed(digits)),
    decreases digits.len(),
{
    if digits.len() > 0 && digits.last() == 48u8 {
        lemma_trimmed_is_ascii(digits.drop_last());
    }
}

/// Every code of a scalar's text is an ASCII code.
proof fn lemma_scalar_text_is_ascii(v: int)
    ensures
        all_ascii(scalar_text(v)),
{
    let m = magnitude(v);
    lemma_decimal_is_ascii((m / (ONE as int)) as nat);
    lemma_fixed_digits_are_ascii((m % (ONE as int)) as nat, 9);
    lemma_trimmed_is_ascii(fixed_digits((m % (ONE as int)) as nat, 9));
}

impl Vec3 {
    /// The text of the vector as ASCII codes.
    pub fn text_bytes(&self) -> (r: Vec<u8>)
        ensures
            r@ == vector_text(self@),
            all_ascii(r@),
    {
        let mut bytes: Vec<u8> = Vec::new();
        push_scalar(&mut bytes, self.x);
        bytes.push(32);
        push_scalar(&mut bytes, self.y);
        bytes.push(32);
        push_scalar(&mut bytes, self.z);
        proof {
            lemma_scalar_text_is_ascii(self@.x);
            lemma_scalar_text_is_ascii(self@.y);
            lemma_scalar_text_is_ascii(self@.z);
            assert(bytes@ == vector_text(self@));
        }
        bytes
    }

    /// The text of the vector: its three components as decimal numbers,
    /// separated by single spaces.
    pub fn text(&self) -> (r: String)
        ensures
            r@ == ascii_chars(vector_text(self@)),
    {
        match string_of(self.text_bytes()) {
            Some(text) => text,
            None => String::new(),
        }
    }
}

} // verus!
