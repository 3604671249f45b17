//! Area selectors of a tower's color word, mapped on hardware by walking one
//! color per selector and watching the case.

use vstd::prelude::*;

verus! {

/// Broadcast: every area at once (the RAM is on another channel).
pub const ALL: u16 = 1;

/// Top fan, above the GPU.
pub const TOP: u16 = 2;

/// Front face.
pub const FRONT: u16 = 4;

/// Unknown: nothing identified yet (and not the RAM).
pub const AUX: u16 = 8;

/// Rear fan.
pub const REAR: u16 = 16;

} // verus!
