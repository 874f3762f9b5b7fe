//! The hash objects.
use vstd::prelude::*;

verus! {

/// Number of buckets that take part in the code vector.
pub const EFF_BUCKETS: usize = 128;

/// Number of bytes of the code vector: four two-bit symbols per byte.
pub const CODE_SIZE: usize = 32;

/// A comparable TLSH hash object
///
/// Use `TLSHBuilder` to calculate the hash object for any data.
///
/// A hash object can be converted to and parsed from raw bytes or a digest string.
#[derive(Clone, Copy, Debug)]
pub struct TLSH {
    pub checksum: u8,
    pub lvalue: u8,
    pub q_ratios: u8,
    pub codes: [u8; 32],
}

/// A comparable, colored TLSH hash object
///
/// Use `ColoredTLSHBuilder` to calculate the hash object for any data.
#[derive(Clone, Copy, Debug)]
pub struct ColoredTLSH {
    pub color: u8,
    pub tlsh: TLSH,
}

} // verus!
