//! The speed slider. Captured positions are 1 to 8 and 10; 9 is interpolated.

use vstd::prelude::*;

verus! {

pub const MIN: u8 = 1;

pub const MAX: u8 = 10;

/// The slider position during every effect capture.
pub const DEFAULT: u8 = 3;

/// The speed of a state that names none.
pub fn default() -> (r: u8)
    ensures
        r == DEFAULT,
{
    DEFAULT
}

/// A speed moved into the captured range.
pub open spec fn in_range(v: u8) -> u8 {
    if v < MIN {
        MIN
    } else if v > MAX {
        MAX
    } else {
        v
    }
}

/// Moves a speed into the captured range.
pub fn clamp(v: u8) -> (r: u8)
    ensures
        r == in_range(v),
        MIN <= r <= MAX,
{
    if v < MIN {
        MIN
    } else if v > MAX {
        MAX
    } else {
        v
    }
}

} // verus!
