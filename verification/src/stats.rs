//! Memory-usage snapshots and checkpoints of an arena.
use vstd::prelude::*;

verus! {

/// A snapshot of arena memory usage returned by [`crate::Arena::stats`].
#[derive(Debug, Clone, Copy, Default, PartialEq, Eq)]
pub struct ArenaStats {
    /// Bytes committed to live allocations, including alignment padding.
    pub bytes_allocated: usize,
    /// Total bytes reserved across all owned blocks.
    pub bytes_reserved: usize,
    /// Number of blocks owned by the arena.
    pub block_count: usize,
}

impl ArenaStats {
    /// Bytes reserved but not currently allocated (zero when allocation
    /// exceeds reservation).
    pub fn bytes_idle(&self) -> (r: usize)
        ensures
            r == (if self.bytes_reserved >= self.bytes_allocated {
                self.bytes_reserved - self.bytes_allocated
            } else {
                0
            }),
    {
        self.bytes_reserved.saturating_sub(self.bytes_allocated)
    }
}

/// A snapshot of an arena's allocation position, used by
/// [`crate::Arena::rewind`].
#[derive(Debug, Clone, Copy, PartialEq, Eq)]
pub struct Checkpoint {
    /// The block that was current.
    pub block_idx: usize,
    /// The fill of that block.
    pub offset: usize,
    /// The arena's bytes in use.
    pub bytes_allocated: usize,
}

} // verus!
