//! Tuning constants of the collector.

use vstd::prelude::*;

verus! {

/// Size in bytes of one block, the unit of reclamation.
pub const BLOCK_SIZE: usize = 32 * 1024;

/// Size in bytes of one line, the unit of marking.
pub const LINE_SIZE: usize = 256;

/// Number of lines in a block.
pub const NUM_LINES_PER_BLOCK: usize = BLOCK_SIZE / LINE_SIZE;

/// Objects smaller than `MEDIUM_OBJECT` are bump-allocated in the current
/// hole; objects of at least this size use the overflow path.
pub const MEDIUM_OBJECT: usize = LINE_SIZE;

/// Objects of at least `LARGE_OBJECT` bytes are allocated in the
/// large-object space.
pub const LARGE_OBJECT: usize = 8 * 1024;

/// Whether evacuation may be used at all.
pub const USE_EVACUATION: bool = true;

/// The number of blocks held back from the mutator as evacuation headroom.
pub const EVAC_HEADROOM: usize = 5;

/// An evacuating collection is considered once fewer than one quarter
/// (`1 / EVAC_TRIGGER_DIVISOR`) of all blocks are still available.
pub const EVAC_TRIGGER_DIVISOR: usize = 4;

} // verus!
