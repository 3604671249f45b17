//! Numbers that are carried, never computed with.

use vstd::prelude::*;

verus! {

/// A single-precision number by its bit pattern. The library hands such numbers
/// on as they came; arithmetic on them is the renderer's business.
#[derive(Clone, Copy, Debug, PartialEq, Eq, Structural)]
pub struct Single(pub u32);

/// The pattern of zero.
pub const ZERO: u32 = 0x0000_0000;

/// The pattern of one half.
pub const HALF: u32 = 0x3F00_0000;

/// The pattern nearest to six tenths.
pub const SIX_TENTHS: u32 = 0x3F19_999A;

/// The pattern nearest to eight tenths.
pub const EIGHT_TENTHS: u32 = 0x3F4C_CCCD;

/// The pattern of one.
pub const ONE: u32 = 0x3F80_0000;

} // verus!
