//! The smallest wire representation of an integer.

use vstd::prelude::*;
use vstd::std_specs::convert::FromSpecImpl;

verus! {

/// The smallest representation of an integer, chosen by its value.
#[derive(Clone, Copy, Debug, PartialEq, Eq, Structural)]
pub enum EfficientInt {
    FixPos(u8),
    U8(u8),
    U16(u16),
    U32(u32),
    U64(u64),
    FixNeg(i8),
    I8(i8),
    I16(i16),
    I32(i32),
    I64(i64),
}

impl EfficientInt {
    /// The integer that the representation stands for.
    pub open spec fn value(self) -> int {
        match self {
            EfficientInt::FixPos(v) => v as int,
            EfficientInt::U8(v) => v as int,
            EfficientInt::U16(v) => v as int,
            EfficientInt::U32(v) => v as int,
            EfficientInt::U64(v) => v as int,
            EfficientInt::FixNeg(v) => v as int,
            EfficientInt::I8(v) => v as int,
            EfficientInt::I16(v) => v as int,
            EfficientInt::I32(v) => v as int,
            EfficientInt::I64(v) => v as int,
        }
    }

    /// Whether the wire format can carry the representation: the two fixed
    /// forms hold only what fits into their marker byte.
    pub open spec fn fits(self) -> bool {
        match self {
            EfficientInt::FixPos(v) => v <= 0x7f,
            EfficientInt::FixNeg(v) => -32 <= v <= -1,
            _ => true,
        }
    }

    /// The number of bytes that the representation takes on the wire, its
    /// marker included.
    pub open spec fn encoded_len(self) -> nat {
        match self {
            EfficientInt::FixPos(_) | EfficientInt::FixNeg(_) => 1,
            EfficientInt::U8(_) | EfficientInt::I8(_) => 2,
            EfficientInt::U16(_) | EfficientInt::I16(_) => 3,
            EfficientInt::U32(_) | EfficientInt::I32(_) => 5,
            EfficientInt::U64(_) | EfficientInt::I64(_) => 9,
        }
    }

    /// The smallest representation of `v`, for `-2^63 <= v < 2^64`: an
    /// unsigned form for every value that is not negative, and in each sign
    /// the narrowest form that holds the value.
    pub open spec fn minimal(v: int) -> EfficientInt {
        if v < -0x8000_0000 {
            EfficientInt::I64(v as i64)
        } else if v < -0x8000 {
            EfficientInt::I32(v as i32)
        } else if v < -0x80 {
            EfficientInt::I16(v as i16)
        } else if v < -0x20 {
            EfficientInt::I8(v as i8)
        } else if v < 0 {
            EfficientInt::FixNeg(v as i8)
        } else if v <= 0x7f {
            EfficientInt::FixPos(v as u8)
        } else if v <= 0xff {
            EfficientInt::U8(v as u8)
        } else if v <= 0xffff {
            EfficientInt::U16(v as u16)
        } else if v <= 0xffff_ffff {
            EfficientInt::U32(v as u32)
        } else {
            EfficientInt::U64(v as u64)
        }
    }
}

impl From<u8> for EfficientInt {
    fn from(val: u8) -> (r: Self) {
        if val <= 0x7f {
            EfficientInt::FixPos(val)
        } else {
            EfficientInt::U8(val)
        }
    }
}

impl FromSpecImpl<u8> for EfficientInt {
    open spec fn obeys_from_spec() -> bool {
        true
    }

    open spec fn from_spec(val: u8) -> Self {
        EfficientInt::minimal(val as int)
    }
}

impl From<i8> for EfficientInt {
    fn from(val: i8) -> (r: Self) {
        if let Ok(val) = u8::try_from(val) {
            EfficientInt::from(val)
        } else if val >= -32 {
            EfficientInt::FixNeg(val)
        } else {
            EfficientInt::I8(val)
        }
    }
}

impl FromSpecImpl<i8> for EfficientInt {
    open spec fn obeys_from_spec() -> bool {
        true
    }

    open spec fn from_spec(val: i8) -> Self {
        EfficientInt::minimal(val as int)
    }
}

impl From<u16> for EfficientInt {
    fn from(val: u16) -> (r: Self) {
        if let Ok(val) = u8::try_from(val) {
            EfficientInt::from(val)
        } else {
            EfficientInt::U16(val)
        }
    }
}

impl FromSpecImpl<u16> for EfficientInt {
    open spec fn obeys_from_spec() -> bool {
        true
    }

    open spec fn from_spec(val: u16) -> Self {
        EfficientInt::minimal(val as int)
    }
}

impl From<i16> for EfficientInt {
    fn from(val: i16) -> (r: Self) {
        if let Ok(val) = u16::try_from(val) {
            EfficientInt::from(val)
        } else if let Ok(val) = i8::try_from(val) {
            EfficientInt::from(val)
        } else {
            EfficientInt::I16(val)
        }
    }
}

impl FromSpecImpl<i16> for EfficientInt {
    open spec fn obeys_from_spec() -> bool {
        true
    }

    open spec fn from_spec(val: i16) -> Self {
        EfficientInt::minimal(val as int)
    }
}

impl From<u32> for EfficientInt {
    fn from(val: u32) -> (r: Self) {
        if let Ok(val) = u16::try_from(val) {
            EfficientInt::from(val)
        } else {
            EfficientInt::U32(val)
        }
    }
}

impl FromSpecImpl<u32> for EfficientInt {
    open spec fn obeys_from_spec() -> bool {
        true
    }

    open spec fn from_spec(val: u32) -> Self {
        EfficientInt::minimal(val as int)
    }
}

impl From<i32> for EfficientInt {
    fn from(val: i32) -> (r: Self) {
        if let Ok(val) = u32::try_from(val) {
            EfficientInt::from(val)
        } else if let Ok(val) = i16::try_from(val) {
            EfficientInt::from(val)
        } else {
            EfficientInt::I32(val)
        }
    }
}

impl FromSpecImpl<i32> for EfficientInt {
    open spec fn obeys_from_spec() -> bool {
        true
    }

    open spec fn from_spec(val: i32) -> Self {
        EfficientInt::minimal(val as int)
    }
}

impl From<u64> for EfficientInt {
    fn from(val: u64) -> (r: Self) {
        if let Ok(val) = u32::try_from(val) {
            EfficientInt::from(val)
        } else {
            EfficientInt::U64(val)
        }
    }
}

impl FromSpecImpl<u64> for EfficientInt {
    open spec fn obeys_from_spec() -> bool {
        true
    }

    open spec fn from_spec(val: u64) -> Self {
        EfficientInt::minimal(val as int)
    }
}

impl From<i64> for EfficientInt {
    fn from(val: i64) -> (r: Self) {
        if let Ok(val) = u64::try_from(val) {
            EfficientInt::from(val)
        } else if let Ok(val) = i32::try_from(val) {
            EfficientInt::from(val)
        } else {
            EfficientInt::I64(val)
        }
    }
}

impl FromSpecImpl<i64> for EfficientInt {
    open spec fn obeys_from_spec() -> bool {
        true
    }

    open spec fn from_spec(val: i64) -> Self {
        EfficientInt::minimal(val as int)
    }
}

/// The smallest representation stands for the value it was chosen for, and
/// the wire format can carry it.
pub proof fn lemma_minimal_keeps_value(v: int)
    requires
        -0x8000_0000_0000_0000 <= v <= 0xffff_ffff_ffff_ffff,
    ensures
        EfficientInt::minimal(v).value() == v,
        EfficientInt::minimal(v).fits(),
{
}

/// No representation that the wire format can carry and that stands for `v`
/// is shorter on the wire than the smallest representation of `v`.
pub proof fn lemma_minimal_is_shortest(v: int, other: EfficientInt)
    requires
        other.fits(),
        other.value() == v,
    ensures
        EfficientInt::minimal(v).encoded_len() <= other.encoded_len(),
{
}

} // verus!
