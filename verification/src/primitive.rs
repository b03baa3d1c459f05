//! The primitive number types.

use vstd::prelude::*;

verus! {

#[derive(Copy, Clone, PartialEq, Eq, Debug, Structural)]
pub enum Signedness {
    Signed,
    Unsigned,
}

#[derive(Copy, Clone, PartialEq, Eq, Debug, Structural)]
pub enum IntBitness {
    Xsize,
    X8,
    X16,
    X32,
    X64,
    X128,
}

#[derive(Copy, Clone, PartialEq, Eq, Debug, Structural)]
pub enum FloatBitness {
    X32,
    X64,
}

#[derive(Copy, Clone, PartialEq, Eq, Debug, Structural)]
pub struct IntTy {
    pub signedness: Signedness,
    pub bitness: IntBitness,
}

#[derive(Copy, Clone, PartialEq, Eq, Debug, Structural)]
pub struct FloatTy {
    pub bitness: FloatBitness,
}

/// An integer type, or an integer type that a literal leaves open.
#[derive(Copy, Clone, PartialEq, Eq, Debug, Structural)]
pub enum UncertainIntTy {
    Unknown,
    Known(IntTy),
}

/// A float type, or a float type that a literal leaves open.
#[derive(Copy, Clone, PartialEq, Eq, Debug, Structural)]
pub enum UncertainFloatTy {
    Unknown,
    Known(FloatTy),
}

impl IntTy {
    #[verifier::allow_in_spec]
    pub fn usize() -> IntTy
        returns
            (IntTy { signedness: Signedness::Unsigned, bitness: IntBitness::Xsize }),
    {
        IntTy { signedness: Signedness::Unsigned, bitness: IntBitness::Xsize }
    }

    #[verifier::allow_in_spec]
    pub fn u8() -> IntTy
        returns
            (IntTy { signedness: Signedness::Unsigned, bitness: IntBitness::X8 }),
    {
        IntTy { signedness: Signedness::Unsigned, bitness: IntBitness::X8 }
    }

    #[verifier::allow_in_spec]
    pub fn i32() -> IntTy
        returns
            (IntTy { signedness: Signedness::Signed, bitness: IntBitness::X32 }),
    {
        IntTy { signedness: Signedness::Signed, bitness: IntBitness::X32 }
    }
}

impl FloatTy {
    /// The float type of 64 bits.
    #[verifier::allow_in_spec]
    pub fn double() -> FloatTy
        returns
            (FloatTy { bitness: FloatBitness::X64 }),
    {
        FloatTy { bitness: FloatBitness::X64 }
    }
}

} // verus!
