//! The mathematical model of an arena: its blocks, which one is current, and
//! where the next block goes; and what each operation does to that model.
use vstd::prelude::*;

use crate::block::{aligned_start, block_fits, bumped, Block, MIN_BLOCK_ALIGN};
use crate::layout::{layout_ok, next_pow2, round_up};
use crate::stats::Checkpoint;

verus! {

/// Floor for the size of a block.
pub const MIN_BLOCK_SIZE: usize = 64;

/// Size of the first block of [`crate::Arena::new`].
pub const DEFAULT_BLOCK_SIZE: usize = 64 * 1024;

/// Ceiling for the size the block growth policy picks on its own.
pub const MAX_BLOCK_SIZE: usize = 16 * 1024 * 1024;

/// Cache-line size; the alignment of the `*_cache_aligned` allocations.
pub const CACHE_LINE_SIZE: usize = 64;

/// The address handed out for a zero-sized request: the least non-null
/// address aligned for bytes.
pub const DANGLING: usize = 1;

/// Where an arena places its first block.
pub const FIRST_BLOCK_BASE: usize = 64;

/// The abstract state of an arena.
pub struct ArenaView {
    /// The owned blocks, in the order they were created, with their fill.
    pub blocks: Seq<Block>,
    /// The index of the block allocations are bumped from.
    pub current: nat,
    /// The first address after the last block.
    pub next_base: nat,
    /// The growth policy's size for the next block.
    pub next_block_size: nat,
    /// Open transactions and savepoints.
    pub txn_depth: nat,
}

/// The sum of the fill of the first `n` blocks.
pub open spec fn used_before(bs: Seq<Block>, n: int) -> int
    decreases n,
{
    if n <= 0 {
        0
    } else {
        used_before(bs, n - 1) + bs[n - 1].offset
    }
}

/// The sum of the capacity of the first `n` blocks.
pub open spec fn reserved_before(bs: Seq<Block>, n: int) -> int
    decreases n,
{
    if n <= 0 {
        0
    } else {
        reserved_before(bs, n - 1) + bs[n - 1].capacity
    }
}

/// The first index `>= from` whose block is aligned enough and has room for
/// `size` bytes at `align`; `bs.len()` when there is none.
pub open spec fn first_fit(bs: Seq<Block>, from: int, size: int, align: int) -> int
    decreases bs.len() - from,
{
    if from >= bs.len() || from < 0 {
        bs.len() as int
    } else if bs[from].align >= align && block_fits(bs[from], size, align) {
        from
    } else {
        first_fit(bs, from + 1, size, align)
    }
}

pub open spec fn max_int(a: int, b: int) -> int {
    if a >= b {
        a
    } else {
        b
    }
}

pub open spec fn min_int(a: int, b: int) -> int {
    if a <= b {
        a
    } else {
        b
    }
}

/// The worst-case footprint of `size` bytes at `align`: the size plus the
/// largest padding rounding can add.
pub open spec fn worst_case(size: int, align: int) -> int {
    size + align - 1
}

/// The capacity of the block opened for `size` bytes at `align` when the
/// growth policy stands at `next_size`: the largest of the policy size, the
/// worst case and twice the alignment, rounded up to a power of two, capped
/// at [`MAX_BLOCK_SIZE`] but never below the worst case or twice the alignment.
pub open spec fn new_block_capacity(next_size: int, size: int, align: int) -> int {
    let worst = worst_case(size, align);
    let wanted = max_int(max_int(next_size, worst), 2 * align);
    let p = next_pow2(wanted);
    let p_sat = if p > usize::MAX { usize::MAX as int } else { p };
    max_int(max_int(min_int(p_sat, MAX_BLOCK_SIZE as int), worst), 2 * align)
}

/// The growth policy's size after opening a block of `capacity` bytes: one
/// and a half times it, capped at [`MAX_BLOCK_SIZE`].
pub open spec fn grown_block_size(capacity: int) -> int {
    min_int(min_int(capacity + capacity / 2, usize::MAX as int), MAX_BLOCK_SIZE as int)
}

/// The alignment of a block opened for a request aligned at `align`.
pub open spec fn new_block_align(align: int) -> int {
    max_int(align, MIN_BLOCK_ALIGN as int)
}

/// Whether the bytes at address `a` lie in the used part of some block.
pub open spec fn is_live(bs: Seq<Block>, a: int) -> bool {
    exists|j: int| 0 <= j < bs.len() && (#[trigger] bs[j]).base <= a < bs[j].base + bs[j].offset
}

/// The model after a request for `size` bytes at `align` made through
/// `alloc_raw` or `try_alloc_raw` (and the typed and zeroed forms): nothing
/// for a zero-sized request, the request served when it can be, otherwise
/// only the growth policy moved on.
pub open spec fn step(v: ArenaView, size: int, align: int) -> ArenaView {
    if size == 0 {
        v
    } else if v.can_alloc(size, align) {
        v.after_alloc(size, align)
    } else {
        v.after_failed_alloc(size, align)
    }
}

/// The model after the requests `reqs`, each a size and an alignment, in
/// order.
pub open spec fn steps(v: ArenaView, reqs: Seq<(int, int)>) -> ArenaView
    decreases reqs.len(),
{
    if reqs.len() == 0 {
        v
    } else {
        step(steps(v, reqs.drop_last()), reqs.last().0, reqs.last().1)
    }
}

/// Every model the requests `reqs` pass through from `v`, `v` included, is
/// well formed.
pub open spec fn steps_wf(v: ArenaView, reqs: Seq<(int, int)>) -> bool {
    forall|k: int| 0 <= k <= reqs.len() ==> (#[trigger] steps(v, reqs.take(k))).wf()
}

impl ArenaView {
    /// The block allocations are bumped from.
    pub open spec fn current_block(self) -> Block {
        self.blocks[self.current as int]
    }

    /// Bytes in use, alignment padding included.
    pub open spec fn bytes_allocated(self) -> int {
        used_before(self.blocks, self.current as int + 1)
    }

    /// Bytes owned across all blocks.
    pub open spec fn bytes_reserved(self) -> int {
        reserved_before(self.blocks, self.blocks.len() as int)
    }

    /// The model invariant: at least one block, the current one among them;
    /// every block well formed and block-aligned; nothing in use after the
    /// current block; blocks laid out in increasing, disjoint address ranges
    /// that end at `next_base`.
    pub open spec fn wf(self) -> bool {
        &&& self.blocks.len() >= 1
        &&& self.current < self.blocks.len()
        &&& forall|j: int| 0 <= j < self.blocks.len() ==> (#[trigger] self.blocks[j]).wf()
        &&& forall|j: int| 0 <= j < self.blocks.len() ==> (#[trigger] self.blocks[j]).align >= MIN_BLOCK_ALIGN
        &&& forall|j: int| self.current < j < self.blocks.len() ==> (#[trigger] self.blocks[j]).offset == 0
        &&& forall|j: int| 0 <= j < self.blocks.len() - 1
            ==> #[trigger] self.blocks[j].base + self.blocks[j].capacity <= self.blocks[j + 1].base
        &&& self.blocks.last().base + self.blocks.last().capacity == self.next_base
        &&& self.next_base <= usize::MAX
        &&& self.next_block_size <= usize::MAX
        &&& self.txn_depth <= usize::MAX
    }

    /// A request aligned above the block alignment always gets a block of its own.
    pub open spec fn wants_own_block(self, align: int) -> bool {
        align > MIN_BLOCK_ALIGN
    }

    /// The request fits in the free part of the current block.
    pub open spec fn fits_current(self, size: int, align: int) -> bool {
        !self.wants_own_block(align) && block_fits(self.current_block(), size, align)
    }

    /// The retained block after the current one that takes the request, or
    /// `blocks.len()` when none does.
    pub open spec fn retained_fit(self, size: int, align: int) -> int {
        first_fit(self.blocks, self.current as int + 1, size, align)
    }

    /// The request needs a new block.
    pub open spec fn needs_new_block(self, size: int, align: int) -> bool {
        self.wants_own_block(align) || (!self.fits_current(size, align)
            && self.retained_fit(size, align) == self.blocks.len())
    }

    /// Capacity of the block a request would open.
    pub open spec fn new_capacity(self, size: int, align: int) -> int {
        new_block_capacity(self.next_block_size as int, size, align)
    }

    /// Base address of the block a request would open.
    pub open spec fn new_base(self, align: int) -> int {
        round_up(self.next_base as int, new_block_align(align))
    }

    /// The block a request would open, still empty.
    pub open spec fn new_block(self, size: int, align: int) -> Block {
        Block::fresh(self.new_base(align), self.new_capacity(size, align), new_block_align(align))
    }

    /// A block opened for the request has a valid memory layout (its size,
    /// rounded up to its alignment, is at most `isize::MAX`) and fits in the
    /// address space.
    pub open spec fn new_block_fits(self, size: int, align: int) -> bool {
        &&& layout_ok(self.new_capacity(size, align), new_block_align(align))
        &&& self.new_base(align) + self.new_capacity(size, align) <= usize::MAX
    }

    /// Computing the size of a new block does not overflow.
    pub open spec fn sizing_ok(self, size: int, align: int) -> bool {
        worst_case(size, align) <= usize::MAX && 2 * align <= usize::MAX
    }

    /// The request can be served.
    pub open spec fn can_alloc(self, size: int, align: int) -> bool {
        self.needs_new_block(size, align) ==> self.new_block_fits(size, align)
    }

    /// Sizing a new block would not overflow, where one is needed.
    pub open spec fn sizes_ok(self, size: int, align: int) -> bool {
        self.needs_new_block(size, align) ==> self.sizing_ok(size, align)
    }

    /// The request is served without running out of address space.
    pub open spec fn serves(self, size: int, align: int) -> bool {
        self.sizes_ok(size, align) && self.can_alloc(size, align)
    }

    /// The index of the block that serves the request.
    pub open spec fn target(self, size: int, align: int) -> int {
        if self.fits_current(size, align) {
            self.current as int
        } else if !self.needs_new_block(size, align) {
            self.retained_fit(size, align)
        } else {
            self.blocks.len() as int
        }
    }

    /// The address the request is placed at.
    pub open spec fn alloc_addr(self, size: int, align: int) -> int {
        if self.needs_new_block(size, align) {
            aligned_start(self.new_block(size, align), align)
        } else {
            aligned_start(self.blocks[self.target(size, align)], align)
        }
    }

    /// The model after serving a request for `size` bytes at `align`.
    pub open spec fn after_alloc(self, size: int, align: int) -> ArenaView {
        if self.needs_new_block(size, align) {
            let b = self.new_block(size, align);
            let cap = self.new_capacity(size, align);
            ArenaView {
                blocks: self.blocks.push(bumped(b, size, align)),
                current: self.blocks.len(),
                next_base: (b.base + cap) as nat,
                next_block_size: grown_block_size(cap) as nat,
                ..self
            }
        } else {
            let t = self.target(size, align);
            ArenaView {
                blocks: self.blocks.update(t, bumped(self.blocks[t], size, align)),
                current: t as nat,
                ..self
            }
        }
    }

    /// The model after a request that could not be served: only the growth
    /// policy moved on.
    pub open spec fn after_failed_alloc(self, size: int, align: int) -> ArenaView {
        ArenaView {
            next_block_size: grown_block_size(self.new_capacity(size, align)) as nat,
            ..self
        }
    }

    /// The model after rolling back to the position `(idx, offset)`: blocks
    /// after `idx` up to the current one emptied, block `idx` filled to
    /// `offset`, and `idx` current.
    pub open spec fn rewound(self, idx: int, offset: int) -> ArenaView {
        ArenaView {
            blocks: Seq::new(
                self.blocks.len(),
                |k: int|
                    if k == idx {
                        Block { offset: offset as usize, ..self.blocks[k] }
                    } else if idx < k <= self.current {
                        Block { offset: 0, ..self.blocks[k] }
                    } else {
                        self.blocks[k]
                    },
            ),
            current: idx as nat,
            ..self
        }
    }

    /// The model with the transaction depth set to `d`.
    pub open spec fn with_depth(self, d: int) -> ArenaView {
        ArenaView { txn_depth: d as nat, ..self }
    }

    /// A checkpoint of this arena that rolls back consistently: its block
    /// exists and is not after the current one, its offset lies within that
    /// block, and its byte count is what the blocks before it and its offset
    /// add up to.
    pub open spec fn valid_checkpoint(self, cp: Checkpoint) -> bool {
        &&& cp.block_idx <= self.current
        &&& cp.offset <= self.blocks[cp.block_idx as int].capacity
        &&& cp.bytes_allocated == used_before(self.blocks, cp.block_idx as int) + cp.offset
    }

    /// `other` keeps every block of `self` at its place and size, and maybe
    /// adds blocks after them.
    pub open spec fn keeps_blocks(self, other: ArenaView) -> bool {
        &&& other.blocks.len() >= self.blocks.len()
        &&& forall|j: int|
            0 <= j < self.blocks.len() ==> (#[trigger] other.blocks[j]).capacity == self.blocks[j].capacity
                && other.blocks[j].base == self.blocks[j].base
    }

    /// The model after a reset: every block emptied, the first one current.
    pub open spec fn reset_view(self) -> ArenaView {
        ArenaView {
            blocks: Seq::new(self.blocks.len(), |k: int| Block { offset: 0, ..self.blocks[k] }),
            current: 0,
            ..self
        }
    }
}

} // verus!
