//! Flag values observed in the color register.

use vstd::prelude::*;

verus! {

/// Output on.
pub const ON: u8 = 0x09;

/// Output off: switching off flips only this byte, the color is kept.
pub const OFF: u8 = 0x01;

} // verus!
