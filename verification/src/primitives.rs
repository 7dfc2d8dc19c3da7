//! Readers over a byte cursor: little-endian integers, runs of bytes, and
//! text.
//!
//! The integer readers are `nom`'s and the text comes from the standard
//! library; each is called through a thin function whose contract says what
//! the call yields and what is left of the input afterwards.

use vstd::prelude::*;
use vstd::slice::{slice_subrange, slice_to_vec};

verus! {

/// The number that the first two bytes of `s` denote, least significant first.
pub open spec fn le_u16_value(s: Seq<u8>) -> int {
    s[0] as int + 0x100 * (s[1] as int)
}

/// The number that the first four bytes of `s` denote, least significant first.
pub open spec fn le_u32_value(s: Seq<u8>) -> int {
    le_u16_value(s) + 0x1_0000 * le_u16_value(s.skip(2))
}

/// The number that the first eight bytes of `s` denote, least significant first.
pub open spec fn le_u64_value(s: Seq<u8>) -> int {
    le_u32_value(s) + 0x1_0000_0000 * le_u32_value(s.skip(4))
}

/// The signed number that `v` stands for in two's complement, where
/// `modulus` is two to the power of the width in bits.
pub open spec fn twos_complement(v: int, modulus: int) -> int {
    if 2 * v >= modulus {
        v - modulus
    } else {
        v
    }
}

/// The little-endian numbers depend on the leading bytes only, item by item.
pub proof fn lemma_le_values(s: Seq<u8>)
    ensures
        s.len() >= 2 ==> 0 <= le_u16_value(s) < 0x1_0000 && le_u16_value(s) == s[0] + 0x100 * s[1],
        s.len() >= 4 ==> 0 <= le_u32_value(s) < 0x1_0000_0000 && le_u32_value(s) == s[0] + 0x100
            * s[1] + 0x1_0000 * s[2] + 0x100_0000 * s[3],
        s.len() >= 8 ==> 0 <= le_u64_value(s) < 0x1_0000_0000_0000_0000 && le_u64_value(s)
            == le_u32_value(s) + 0x1_0000_0000 * (s[4] + 0x100 * s[5] + 0x1_0000 * s[6]
            + 0x100_0000 * s[7]),
{
}

/// Splits `n` bytes off the front of `input`, if it has that many.
pub fn take_bytes(input: &[u8], n: usize) -> (r: Option<(&[u8], Vec<u8>)>)
    ensures
        match r {
            Some((rest, head)) => n <= input@.len() && head@ == input@.take(n as int) && rest@
                == input@.skip(n as int),
            None => input@.len() < n,
        },
{
    if input.len() < n {
        None
    } else {
        let head = slice_subrange(input, 0, n);
        let rest = slice_subrange(input, n, input.len());
        Some((rest, slice_to_vec(head)))
    }
}

/// The position of the first NUL in `field`, if it holds one.
pub fn first_nul(field: &[u8]) -> (r: Option<usize>)
    ensures
        match r {
            Some(n) => field@.index_of_first(0u8) == Some(n as int),
            None => field@.index_of_first(0u8) is None,
        },
{
    let mut n: usize = 0;
    while n < field.len() && field[n] != 0
        invariant
            n <= field@.len(),
            forall|j: int| 0 <= j < n ==> field@[j] != 0,
        decreases field@.len() - n,
    {
        n += 1;
    }
    proof {
        field@.index_of_first_ensures(0u8);
        if n < field@.len() {
            assert(field@.contains(0u8));
        }
    }
    if n == field.len() {
        None
    } else {
        Some(n)
    }
}

/// `nom::number::complete::le_u8` on a byte slice: fails on fewer than one byte,
/// otherwise yields the little-endian number in the first 1 byte(s) and the
/// input after them.
#[verifier::external_body]
pub(crate) fn le_u8(input: &[u8]) -> (r: Option<(&[u8], u8)>)
    ensures
        match r {
            Some((rest, v)) => {
                &&& input@.len() >= 1
                &&& rest@ == input@.skip(1)
                &&& v == input@[0]
            },
            None => input@.len() < 1,
        },
{
    nom::number::complete::le_u8::<&[u8], nom::error::Error<&[u8]>>(input).ok()
}

/// `nom::number::complete::le_u16` on a byte slice: fails on fewer than two bytes,
/// otherwise yields the little-endian number in the first 2 byte(s) and the
/// input after them.
#[verifier::external_body]
pub(crate) fn le_u16(input: &[u8]) -> (r: Option<(&[u8], u16)>)
    ensures
        match r {
            Some((rest, v)) => {
                &&& input@.len() >= 2
                &&& rest@ == input@.skip(2)
                &&& v == le_u16_value(input@)
            },
            None => input@.len() < 2,
        },
{
    nom::number::complete::le_u16::<&[u8], nom::error::Error<&[u8]>>(input).ok()
}

/// `nom::number::complete::le_u32` on a byte slice: fails on fewer than four bytes,
/// otherwise yields the little-endian number in the first 4 byte(s) and the
/// input after them.
#[verifier::external_body]
pub(crate) fn le_u32(input: &[u8]) -> (r: Option<(&[u8], u32)>)
    ensures
        match r {
            Some((rest, v)) => {
                &&& input@.len() >= 4
                &&& rest@ == input@.skip(4)
                &&& v == le_u32_value(input@)
            },
            None => input@.len() < 4,
        },
{
    nom::number::complete::le_u32::<&[u8], nom::error::Error<&[u8]>>(input).ok()
}

/// `nom::number::complete::le_u64` on a byte slice: fails on fewer than eight bytes,
/// otherwise yields the little-endian number in the first 8 byte(s) and the
/// input after them.
#[verifier::external_body]
pub(crate) fn le_u64(input: &[u8]) -> (r: Option<(&[u8], u64)>)
    ensures
        match r {
            Some((rest, v)) => {
                &&& input@.len() >= 8
                &&& rest@ == input@.skip(8)
                &&& v == le_u64_value(input@)
            },
            None => input@.len() < 8,
        },
{
    nom::number::complete::le_u64::<&[u8], nom::error::Error<&[u8]>>(input).ok()
}

/// `nom::number::complete::le_i8` on a byte slice: fails on fewer than one byte,
/// otherwise yields the first 1 byte(s), read as a little-endian number in
/// two's complement, and the input after them.
#[verifier::external_body]
pub(crate) fn le_i8(input: &[u8]) -> (r: Option<(&[u8], i8)>)
    ensures
        match r {
            Some((rest, v)) => {
                &&& input@.len() >= 1
                &&& rest@ == input@.skip(1)
                &&& v == twos_complement(input@[0] as int, 0x100)
            },
            None => input@.len() < 1,
        },
{
    nom::number::complete::le_i8::<&[u8], nom::error::Error<&[u8]>>(input).ok()
}

/// `nom::number::complete::le_i16` on a byte slice: fails on fewer than two bytes,
/// otherwise yields the first 2 byte(s), read as a little-endian number in
/// two's complement, and the input after them.
#[verifier::external_body]
pub(crate) fn le_i16(input: &[u8]) -> (r: Option<(&[u8], i16)>)
    ensures
        match r {
            Some((rest, v)) => {
                &&& input@.len() >= 2
                &&& rest@ == input@.skip(2)
                &&& v == twos_complement(le_u16_value(input@), 0x1_0000)
            },
            None => input@.len() < 2,
        },
{
    nom::number::complete::le_i16::<&[u8], nom::error::Error<&[u8]>>(input).ok()
}

/// `nom::number::complete::le_i32` on a byte slice: fails on fewer than four bytes,
/// otherwise yields the first 4 byte(s), read as a little-endian number in
/// two's complement, and the input after them.
#[verifier::external_body]
pub(crate) fn le_i32(input: &[u8]) -> (r: Option<(&[u8], i32)>)
    ensures
        match r {
            Some((rest, v)) => {
                &&& input@.len() >= 4
                &&& rest@ == input@.skip(4)
                &&& v == twos_complement(le_u32_value(input@), 0x1_0000_0000)
            },
            None => input@.len() < 4,
        },
{
    nom::number::complete::le_i32::<&[u8], nom::error::Error<&[u8]>>(input).ok()
}

/// `nom::number::complete::le_i64` on a byte slice: fails on fewer than eight bytes,
/// otherwise yields the first 8 byte(s), read as a little-endian number in
/// two's complement, and the input after them.
#[verifier::external_body]
pub(crate) fn le_i64(input: &[u8]) -> (r: Option<(&[u8], i64)>)
    ensures
        match r {
            Some((rest, v)) => {
                &&& input@.len() >= 8
                &&& rest@ == input@.skip(8)
                &&& v == twos_complement(
                    le_u64_value(input@),
                    0x1_0000_0000_0000_0000,
                )
            },
            None => input@.len() < 8,
        },
{
    nom::number::complete::le_i64::<&[u8], nom::error::Error<&[u8]>>(input).ok()
}

/// `String::from_utf8`: yields the string that `bytes` encode when they are
/// valid UTF-8, and nothing when they are not.
#[verifier::external_body]
pub(crate) fn string_from_utf8(bytes: Vec<u8>) -> (r: Option<String>)
    ensures
        match r {
            Some(s) => vstd::utf8::valid_utf8(bytes@) && s@ == vstd::utf8::decode_utf8(bytes@),
            None => !vstd::utf8::valid_utf8(bytes@),
        },
{
    String::from_utf8(bytes).ok()
}

/// The string that `String::from_utf8_lossy` makes of `bytes`: the text that
/// they encode, with each run of bytes that is not UTF-8 replaced by U+FFFD.
pub uninterp spec fn utf8_lossy(bytes: Seq<u8>) -> Seq<char>;

/// `String::from_utf8_lossy`, as an owned string: for valid UTF-8 the string
/// that the bytes encode, else that string with replacement characters.
#[verifier::external_body]
pub(crate) fn string_from_utf8_lossy(bytes: &[u8]) -> (r: String)
    ensures
        r@ == utf8_lossy(bytes@),
        vstd::utf8::valid_utf8(bytes@) ==> r@ == vstd::utf8::decode_utf8(bytes@),
{
    String::from_utf8_lossy(bytes).into_owned()
}

} // verus!
