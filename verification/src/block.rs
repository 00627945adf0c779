//! A single bump-allocated block of the arena's address space.
use vstd::prelude::*;

use crate::layout::{checked_align_up, layout_ok, lemma_round_up, round_up};

verus! {

/// Alignment of every block's base address; requests aligned above it get a
/// block of their own.
pub const MIN_BLOCK_ALIGN: usize = 64;

/// Alignment of the memory layout of a standalone block.
pub const BLOCK_LAYOUT_ALIGN: usize = 8;

/// A block of `capacity` bytes starting at address `base`, of which the first
/// `offset` bytes are in use.
#[derive(Clone, Copy, Debug, PartialEq, Eq)]
pub struct Block {
    /// The next free position, relative to `base`.
    pub offset: usize,
    /// Total capacity of the block in bytes.
    pub capacity: usize,
    /// Address of the first byte of the block.
    pub base: usize,
    /// Alignment of `base`.
    pub align: usize,
}

/// The address at which a request for `size` bytes at `align` would start in `b`.
pub open spec fn aligned_start(b: Block, align: int) -> int {
    round_up(b.base + b.offset, align)
}

/// Whether `size` bytes at `align` fit in the free part of `b`.
pub open spec fn block_fits(b: Block, size: int, align: int) -> bool {
    aligned_start(b, align) + size <= b.base + b.capacity
}

/// `b` after `size` bytes at `align` were bumped off its free part.
pub open spec fn bumped(b: Block, size: int, align: int) -> Block {
    Block { offset: (aligned_start(b, align) + size - b.base) as usize, ..b }
}

impl Block {
    /// A block is well formed when its used part lies within it and the block
    /// lies within the address space, with a non-zero base aligned as stated.
    pub open spec fn wf(&self) -> bool {
        &&& self.offset <= self.capacity
        &&& self.capacity > 0
        &&& self.base > 0
        &&& self.base + self.capacity <= usize::MAX
        &&& self.align > 0
        &&& self.base % self.align == 0
    }

    /// The block of `capacity` bytes at `base`, nothing in use.
    pub open spec fn fresh(base: int, capacity: int, align: int) -> Block {
        Block { offset: 0, capacity: capacity as usize, base: base as usize, align: align as usize }
    }

    /// A standalone block of `capacity` bytes placed at the first
    /// block-aligned address. Its memory has the layout of `capacity` bytes
    /// at [`BLOCK_LAYOUT_ALIGN`], which must be valid.
    pub fn new(capacity: usize) -> (b: Block)
        requires
            capacity > 0,
            layout_ok(capacity as int, BLOCK_LAYOUT_ALIGN as int),
        ensures
            b == Block::fresh(MIN_BLOCK_ALIGN as int, capacity as int, MIN_BLOCK_ALIGN as int),
            b.wf(),
    {
        proof {
            lemma_round_up(capacity as int, BLOCK_LAYOUT_ALIGN as int);
        }
        Block::at(MIN_BLOCK_ALIGN, capacity, MIN_BLOCK_ALIGN)
    }

    /// A standalone block like [`Block::new`], or `None` when `capacity` is
    /// zero or `capacity` bytes at [`BLOCK_LAYOUT_ALIGN`] are not a valid
    /// layout (rounded up, more than `isize::MAX`).
    pub fn try_new(capacity: usize) -> (r: Option<Block>)
        ensures
            match r {
                Some(b) => capacity > 0 && layout_ok(capacity as int, BLOCK_LAYOUT_ALIGN as int)
                    && b == Block::fresh(MIN_BLOCK_ALIGN as int, capacity as int, MIN_BLOCK_ALIGN as int),
                None => capacity == 0 || !layout_ok(capacity as int, BLOCK_LAYOUT_ALIGN as int),
            },
    {
        if capacity == 0 {
            return None;
        }
        match checked_align_up(capacity, BLOCK_LAYOUT_ALIGN) {
            Some(rounded) => {
                if rounded > isize::MAX as usize {
                    None
                } else {
                    Some(Block::new(capacity))
                }
            },
            None => None,
        }
    }

    /// The block of `capacity` bytes at `base`, whose base is aligned to `align`.
    pub fn at(base: usize, capacity: usize, align: usize) -> (b: Block)
        requires
            base > 0,
            capacity > 0,
            base + capacity <= usize::MAX,
            align > 0,
            base % align == 0,
        ensures
            b == Block::fresh(base as int, capacity as int, align as int),
            b.wf(),
    {
        Block { offset: 0, capacity, base, align }
    }

    /// Tries to take `size` bytes at `align` from the free part of the block.
    ///
    /// On success returns the aligned address and the growth of `offset`,
    /// alignment padding included; `None`, and the block unchanged, when the
    /// request does not fit.
    pub fn try_alloc(&mut self, size: usize, align: usize) -> (r: Option<(usize, usize)>)
        requires
            old(self).wf(),
            align > 0,
        ensures
            final(self).wf(),
            match r {
                Some((addr, delta)) => {
                    &&& block_fits(*old(self), size as int, align as int)
                    &&& addr == aligned_start(*old(self), align as int)
                    &&& addr % align == 0
                    &&& *final(self) == bumped(*old(self), size as int, align as int)
                    &&& delta == final(self).offset - old(self).offset
                },
                None => {
                    &&& !block_fits(*old(self), size as int, align as int)
                    &&& *final(self) == *old(self)
                },
            },
    {
        proof {
            lemma_round_up(self.base + self.offset, align as int);
        }
        let start = self.base + self.offset;
        let aligned = match checked_align_up(start, align) {
            Some(a) => a,
            None => return None,
        };
        let new_offset = match (aligned - self.base).checked_add(size) {
            Some(n) => n,
            None => return None,
        };
        if new_offset > self.capacity {
            return None;
        }
        let delta = new_offset - self.offset;
        self.offset = new_offset;
        Some((aligned, delta))
    }

    /// Bytes left in the free part of the block.
    pub fn remaining(&self) -> (r: usize)
        requires
            self.wf(),
        ensures
            r == self.capacity - self.offset,
    {
        self.capacity - self.offset
    }

    /// Makes the whole block free again.
    pub fn reset(&mut self)
        ensures
            *final(self) == (Block { offset: 0, ..*old(self) }),
    {
        self.offset = 0;
    }
}

/// Bumping a request that fits keeps a block well formed and only moves its
/// fill, to the end of the request.
pub proof fn lemma_bumped(b: Block, size: int, align: int)
    requires
        b.wf(),
        align > 0,
        size >= 0,
        block_fits(b, size, align),
    ensures
        bumped(b, size, align).wf(),
        bumped(b, size, align).base == b.base,
        bumped(b, size, align).capacity == b.capacity,
        bumped(b, size, align).align == b.align,
        bumped(b, size, align).offset == aligned_start(b, align) + size - b.base,
        bumped(b, size, align).offset >= b.offset,
        aligned_start(b, align) >= b.base + b.offset,
        aligned_start(b, align) % align == 0,
{
    lemma_round_up(b.base + b.offset, align);
}

} // verus!
