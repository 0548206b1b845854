use vstd::prelude::*;

verus! {

/// Delay given to a frame whose recorded delay is zero, in milliseconds.
pub const DEFAULT_FRAME_DELAY_MS: u32 = 100;

/// Simulation ticks in one second.
pub const TICKS_PER_SECOND: u32 = 60;

/// Orientation value facing right.
pub const DIRECTION_RIGHT: u32 = 4;

/// Orientation value facing left.
pub const DIRECTION_LEFT: u32 = 12;

/// Format version written into every blueprint.
pub const BLUEPRINT_VERSION: u64 = 562949955518464;

/// Luma at and above which a one-bit sample is lit.
pub const GRAYSCALE_THRESHOLD: u8 = 128;

} // verus!
