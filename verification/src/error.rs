//! The ways in which decoding an artifact can fail.

use vstd::prelude::*;

verus! {

/// Why an NVS image or a partition table could not be decoded.
///
/// Every variant but `DanglingNamespace` aborts the decode of the whole
/// artifact. `DanglingNamespace` is only ever reported beside a successful
/// decode, for a record whose namespace had not been declared.
#[derive(Debug, Clone, Copy, PartialEq, Eq, Structural)]
pub enum DecodeError {
    /// The input ends before the structure being read does, or a record
    /// claims slots that its page does not have.
    ShortInput,
    /// A page starts with a state word that is none of the five known ones.
    UnknownPageState(u32),
    /// A slot of the state bitmap holds the bit pattern `0b01`.
    MalformedBitmap(u8),
    /// A record carries a type tag that the format does not define.
    UnknownValueType(u8),
    /// A key field has no NUL terminator, or is not UTF-8 up to it.
    MalformedKey,
    /// A record's span is not the number of slots that its type and size
    /// call for.
    InvalidSpan(u8),
    /// A record that declares a namespace carries a value that is not a `U8`.
    NamespaceTypeMismatch,
    /// A record names a namespace that no earlier record declared.
    DanglingNamespace(u8),
}

} // verus!
