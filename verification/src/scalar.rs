use vstd::prelude::*;

verus! {

/// A 32-bit numeric value carried opaquely through the pipeline.
///
/// The statistical models exchange IEEE-754 single-precision values.  The
/// library never does arithmetic on such a value: it only moves values
/// between positions, so it stores the raw bit pattern and the caller
/// converts to and from its floating-point type at the service boundary.
///
/// Two bit-level facts about that encoding are used in contracts: the
/// all-bits-clear pattern encodes the number zero, and a pattern compares
/// unequal to zero exactly when some bit besides the sign bit is set.
#[derive(Clone, Copy, PartialEq, Eq, Structural, Debug)]
pub struct Scalar {
    pub bits: u32,
}

/// The bit pattern of the number zero.
pub open spec fn scalar_zero() -> Scalar {
    Scalar { bits: 0u32 }
}

/// The bit pattern of the number one.
pub open spec fn scalar_one() -> Scalar {
    Scalar { bits: 0x3f80_0000u32 }
}

/// Whether the encoded number compares unequal to zero: some bit besides
/// the sign bit is set.  Not-a-number patterns count as nonzero, as they
/// compare unequal to zero.
pub open spec fn scalar_is_nonzero(s: Scalar) -> bool {
    s.bits & 0x7fff_ffffu32 != 0
}

/// Whether the encoded number compares strictly greater than zero: the sign
/// bit is clear, some other bit is set, and the pattern is not a
/// not-a-number pattern (exponent bits all set with a nonzero fraction).
pub open spec fn scalar_is_positive(s: Scalar) -> bool {
    &&& s.bits & 0x8000_0000u32 == 0
    &&& s.bits & 0x7fff_ffffu32 != 0
    &&& !((s.bits & 0x7f80_0000u32 == 0x7f80_0000u32) && (s.bits & 0x007f_ffffu32 != 0))
}

impl Scalar {
    /// The value zero.
    pub fn zero() -> (r: Scalar)
        ensures
            r == scalar_zero(),
    {
        Scalar { bits: 0 }
    }

    /// The value one.
    pub fn one() -> (r: Scalar)
        ensures
            r == scalar_one(),
    {
        Scalar { bits: 0x3f80_0000 }
    }

    /// Builds a value from its raw bit pattern.
    pub fn from_bits(bits: u32) -> (r: Scalar)
        ensures
            r == (Scalar { bits }),
    {
        Scalar { bits }
    }

    /// Whether the encoded number compares unequal to zero.
    pub fn is_nonzero(&self) -> (r: bool)
        ensures
            r == scalar_is_nonzero(*self),
    {
        self.bits & 0x7fff_ffff != 0
    }

    /// Whether the encoded number compares strictly greater than zero.
    pub fn is_positive(&self) -> (r: bool)
        ensures
            r == scalar_is_positive(*self),
    {
        self.bits & 0x8000_0000 == 0 && self.bits & 0x7fff_ffff != 0
            && !((self.bits & 0x7f80_0000 == 0x7f80_0000) && (self.bits & 0x007f_ffff != 0))
    }
}

} // verus!
