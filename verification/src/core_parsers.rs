//! Schemas: types that describe the shape of a binary structure and carry no
//! data. What a parse of a schema produces is chosen separately, by an
//! interpretation.
use vstd::prelude::*;

verus! {

/// A schema with a natural result type.
pub trait RV {
    /// What capturing an instance of the schema yields.
    type R;
}

/// One byte.
pub struct Byte;

impl RV for Byte {
    type R = u8;
}

/// Exactly `N` instances of `I`, one after the other.
pub struct Array<I, const N: usize>(pub I);

impl<I: RV, const N: usize> RV for Array<I, N> {
    type R = [I::R; N];
}

/// A length field of schema `N`, then that many instances of `I`, at most
/// `M` of them.
pub struct DArray<N, I, const M: usize>(pub N, pub I);

/// A 16-bit unsigned number, most significant byte first if `BIG_ENDIAN`.
pub struct U16<const BIG_ENDIAN: bool>;

/// A 32-bit unsigned number, most significant byte first if `BIG_ENDIAN`.
pub struct U32<const BIG_ENDIAN: bool>;

/// A 64-bit unsigned number, most significant byte first if `BIG_ENDIAN`.
pub struct U64<const BIG_ENDIAN: bool>;

impl<const BIG_ENDIAN: bool> RV for U16<BIG_ENDIAN> {
    type R = u16;
}

impl<const BIG_ENDIAN: bool> RV for U32<BIG_ENDIAN> {
    type R = u32;
}

impl<const BIG_ENDIAN: bool> RV for U64<BIG_ENDIAN> {
    type R = u64;
}

/// A length field of schema `N`, then one instance of `I` that is declared
/// to occupy that many bytes. If the instance cannot be parsed, the declared
/// bytes are skipped.
pub struct LengthFallback<N, I>(pub N, pub I);

} // verus!
