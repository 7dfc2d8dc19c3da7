//! How numbers and bytes are written out as text.

use vstd::prelude::*;

verus! {

/// The character for the digit `d`, for digits 0 to 15: `0` to `9`, then `a`
/// to `f`.
pub open spec fn digit_char(d: int) -> char {
    if d < 10 {
        ((48 + d) as u8) as char
    } else {
        ((87 + d) as u8) as char
    }
}

/// The decimal digits of `n`, without leading zeros.
pub open spec fn decimal_digits(n: nat) -> Seq<char>
    decreases n,
{
    if n < 10 {
        seq![digit_char(n as int)]
    } else {
        decimal_digits(n / 10).push(digit_char((n % 10) as int))
    }
}

/// The number `v` in decimal, with a minus sign if it is negative.
pub open spec fn decimal(v: int) -> Seq<char> {
    if v < 0 {
        seq!['-'] + decimal_digits((-v) as nat)
    } else {
        decimal_digits(v as nat)
    }
}

/// The hexadecimal digits of `n`, in lower case and without leading zeros.
pub open spec fn hex_digits(n: nat) -> Seq<char>
    decreases n,
{
    if n < 16 {
        seq![digit_char(n as int)]
    } else {
        hex_digits(n / 16).push(digit_char((n % 16) as int))
    }
}

/// The bytes in decimal, each but the first after a comma and a space.
pub open spec fn byte_items(bytes: Seq<u8>) -> Seq<char>
    decreases bytes.len(),
{
    if bytes.len() == 0 {
        Seq::empty()
    } else if bytes.len() == 1 {
        decimal(bytes[0] as int)
    } else {
        byte_items(bytes.drop_last()) + seq![',', ' '] + decimal(bytes.last() as int)
    }
}

/// A list of bytes as text: the bytes in decimal, separated by a comma and
/// a space, between square brackets.
pub open spec fn debug_text(bytes: Seq<u8>) -> Seq<char> {
    seq!['['] + byte_items(bytes) + seq![']']
}

/// `i128::to_string`: the number in decimal, with a minus sign if it is
/// negative.
#[verifier::external_body]
pub(crate) fn decimal_string(v: i128) -> (r: String)
    ensures
        r@ == decimal(v as int),
{
    v.to_string()
}

/// `format!` with `{:x}` on a `u8`: the number in hexadecimal, in lower case,
/// without prefix or leading zeros.
#[verifier::external_body]
pub(crate) fn hex_string(v: u8) -> (r: String)
    ensures
        r@ == hex_digits(v as nat),
{
    format!("{:x}", v)
}

/// `format!` with `{:?}` on a slice of bytes: the list that `debug_list`
/// writes, with each byte in decimal.
#[verifier::external_body]
pub(crate) fn debug_string(bytes: &[u8]) -> (r: String)
    ensures
        r@ == debug_text(bytes@),
{
    format!("{:?}", bytes)
}

} // verus!
