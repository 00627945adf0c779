//! The bump-pointer arena: block management, allocation, checkpoints,
//! rewind and reset.
use vstd::prelude::*;

use crate::block::{aligned_start, block_fits, bumped, lemma_bumped, Block, MIN_BLOCK_ALIGN};
use crate::layout::{
    is_pow2, lemma_pow2_ge, checked_align_up, checked_next_power_of_two, lemma_next_pow2_from, lemma_round_up, next_pow2,
    round_up,
};
use crate::lemmas::{lemma_reserved_monotone, lemma_rewound, lemma_reset, lemma_used_le_reserved, lemma_used_monotone, lemma_reserved_span, lemma_first_fit_found, lemma_first_fit_none, lemma_first_fit_range, lemma_used_prefix_eq, lemma_used_zero_range, lemma_view_counters, lemma_reserved_prefix_eq};
use crate::model::{
    ArenaView, used_before, reserved_before, max_int, min_int, new_block_capacity, grown_block_size,
    new_block_align, first_fit, worst_case, MIN_BLOCK_SIZE, DEFAULT_BLOCK_SIZE, MAX_BLOCK_SIZE,
    FIRST_BLOCK_BASE, CACHE_LINE_SIZE, DANGLING,
};
use crate::layout::layout_ok;
use crate::stats::{ArenaStats, Checkpoint};

verus! {

/// A bump-pointer arena allocator with checkpoint/rewind and reset.
///
/// Memory is handed out from blocks in a private address space: each block
/// covers a range of addresses, blocks never overlap, and an allocation is a
/// range of addresses inside one block. Allocations bump the current block;
/// when it is full, retained blocks after it are tried in order, then a new
/// block is opened, growing one and a half times per block up to
/// [`MAX_BLOCK_SIZE`].
pub struct Arena {
    blocks: Vec<Block>,
    current: usize,
    next_block_size: usize,
    /// Bytes in use in the blocks before the current one.
    bytes_allocated: usize,
    bytes_reserved: usize,
    pub(crate) txn_depth: usize,
    /// Highest block index made current since the last reset.
    high_water_mark: usize,
    /// Upper bound of the free space of any block after the current one.
    largest_remaining: usize,
    /// First address after the last block.
    next_base: usize,
}

impl View for Arena {
    type V = ArenaView;

    closed spec fn view(&self) -> ArenaView {
        ArenaView {
            blocks: self.blocks@,
            current: self.current as nat,
            next_base: self.next_base as nat,
            next_block_size: self.next_block_size as nat,
            txn_depth: self.txn_depth as nat,
        }
    }
}

impl Arena {
    /// The arena's invariant: the model invariant, and the cached counters
    /// agree with the blocks.
    pub closed spec fn wf(&self) -> bool {
        &&& self@.wf()
        &&& self.bytes_allocated == used_before(self.blocks@, self.current as int)
        &&& self.bytes_reserved == self@.bytes_reserved()
        &&& self.current <= self.high_water_mark < self.blocks@.len()
        &&& forall|j: int|
            self.current < j < self.blocks@.len() ==> #[trigger] self.blocks@[j].capacity
                - self.blocks@[j].offset <= self.largest_remaining
    }

    /// Create an arena with a 64 KiB first block.
    pub fn new() -> (a: Arena)
        ensures
            a.wf(),
            a@ == Arena::initial_view(DEFAULT_BLOCK_SIZE as int),
    {
        Arena::with_capacity(DEFAULT_BLOCK_SIZE)
    }

    /// The model of a fresh arena created for `initial_bytes`.
    pub open spec fn initial_view(initial_bytes: int) -> ArenaView {
        let size = max_int(initial_bytes, MIN_BLOCK_SIZE as int);
        ArenaView {
            blocks: seq![Block::fresh(FIRST_BLOCK_BASE as int, size, MIN_BLOCK_ALIGN as int)],
            current: 0,
            next_base: (FIRST_BLOCK_BASE + size) as nat,
            next_block_size: min_int(min_int(2 * size, usize::MAX as int), MAX_BLOCK_SIZE as int) as nat,
            txn_depth: 0,
        }
    }

    /// Create an arena whose first block holds `initial_bytes`, but at least
    /// [`MIN_BLOCK_SIZE`], bytes.
    pub fn with_capacity(initial_bytes: usize) -> (a: Arena)
        requires
            initial_bytes <= usize::MAX - FIRST_BLOCK_BASE,
            layout_ok(max_int(initial_bytes as int, MIN_BLOCK_SIZE as int), MIN_BLOCK_ALIGN as int),
        ensures
            a.wf(),
            a@ == Arena::initial_view(initial_bytes as int),
    {
        let size = if initial_bytes > MIN_BLOCK_SIZE {
            initial_bytes
        } else {
            MIN_BLOCK_SIZE
        };
        let block = Block::at(FIRST_BLOCK_BASE, size, MIN_BLOCK_ALIGN);
        let mut blocks: Vec<Block> = Vec::new();
        blocks.push(block);
        let doubled = if size > usize::MAX / 2 { usize::MAX } else { size * 2 };
        let next_block_size = if doubled < MAX_BLOCK_SIZE {
            doubled
        } else {
            MAX_BLOCK_SIZE
        };
        let a = Arena {
            blocks,
            current: 0,
            next_block_size,
            bytes_allocated: 0,
            bytes_reserved: size,
            txn_depth: 0,
            high_water_mark: 0,
            largest_remaining: 0,
            next_base: FIRST_BLOCK_BASE + size,
        };
        proof {
            assert(a.blocks@ =~= seq![block]);
            assert(reserved_before(a.blocks@, 0) == 0);
            assert(reserved_before(a.blocks@, 1) == size);
        }
        a
    }

    /// A point-in-time snapshot of memory usage. O(1).
    pub fn stats(&self) -> (s: ArenaStats)
        requires
            self.wf(),
        ensures
            s.bytes_allocated == self@.bytes_allocated(),
            s.bytes_reserved == self@.bytes_reserved(),
            s.block_count == self@.blocks.len(),
    {
        proof {
            self.lemma_counters_fit();
        }
        let off = self.blocks[self.current].offset;
        ArenaStats {
            bytes_allocated: self.bytes_allocated + off,
            bytes_reserved: self.bytes_reserved,
            block_count: self.blocks.len(),
        }
    }

    /// Number of blocks owned by the arena.
    pub fn block_count(&self) -> (n: usize)
        ensures
            n == self@.blocks.len(),
    {
        self.blocks.len()
    }

    /// Current number of open transactions and savepoints.
    pub fn transaction_depth(&self) -> (d: usize)
        ensures
            d == self@.txn_depth,
    {
        self.txn_depth
    }

    /// Capture the current allocation position.
    pub fn checkpoint(&self) -> (cp: Checkpoint)
        requires
            self.wf(),
        ensures
            cp.block_idx == self@.current,
            cp.offset == self@.current_block().offset,
            cp.bytes_allocated == self@.bytes_allocated(),
    {
        proof {
            self.lemma_counters_fit();
        }
        let off = self.blocks[self.current].offset;
        Checkpoint { block_idx: self.current, offset: off, bytes_allocated: self.bytes_allocated + off }
    }

    /// The arena's invariant includes the model invariant.
    pub proof fn lemma_view_wf(&self)
        requires
            self.wf(),
        ensures
            self@.wf(),
    {
    }

    /// The number of blocks fits in `usize`.
    pub proof fn lemma_block_count_fits(&self)
        ensures
            self@.blocks.len() <= usize::MAX,
    {
        assert(self.blocks@.len() == self.blocks.len());
    }

    /// The current block is well formed.
    pub proof fn lemma_current_block_wf(&self)
        requires
            self.wf(),
        ensures
            self@.current_block().wf(),
            self@.current_block().offset <= self@.current_block().capacity,
    {
        assert(self@.blocks[self@.current as int].wf());
    }

    /// The counters fit in `usize`: bytes in use never exceed bytes reserved,
    /// which never exceed the address space.
    proof fn lemma_counters_fit(&self)
        requires
            self.wf(),
        ensures
            self@.bytes_allocated() <= self@.bytes_reserved(),
            self@.bytes_reserved() <= usize::MAX,
            self.bytes_allocated + self.blocks@[self.current as int].offset
                == self@.bytes_allocated(),
    {
        lemma_view_counters(self@);
    }
}


impl Default for Arena {
    /// The same as [`Arena::new`].
    fn default() -> (a: Arena)
        ensures
            a.wf(),
            a@ == Arena::initial_view(DEFAULT_BLOCK_SIZE as int),
    {
        Arena::new()
    }
}

impl Arena {
    /// The largest free space among the blocks after `from_idx`.
    fn compute_largest_remaining(&self, from_idx: usize) -> (r: usize)
        requires
            from_idx < self.blocks@.len(),
            forall|j: int| 0 <= j < self.blocks@.len() ==> (#[trigger] self.blocks@[j]).offset <= self.blocks@[j].capacity,
        ensures
            forall|j: int|
                from_idx < j < self.blocks@.len() ==> #[trigger] self.blocks@[j].capacity
                    - self.blocks@[j].offset <= r,
        opens_invariants none
        no_unwind
    {
        let mut max_rem: usize = 0;
        proof {
            assert(self.blocks@.len() == self.blocks.len());
        }
        let mut i: usize = from_idx + 1;
        while i < blocks_len(&self.blocks)
            invariant
                from_idx + 1 <= i <= self.blocks@.len(),
                forall|j: int| 0 <= j < self.blocks@.len() ==> (#[trigger] self.blocks@[j]).offset <= self.blocks@[j].capacity,
                forall|j: int|
                    from_idx < j < i ==> #[trigger] self.blocks@[j].capacity - self.blocks@[j].offset
                        <= max_rem,
            decreases self.blocks@.len() - i,
        {
            let b = block_get(&self.blocks, i);
            let rem = b.capacity - b.offset;
            if rem > max_rem {
                max_rem = rem;
            }
            i = i + 1;
        }
        max_rem
    }

    /// Makes block `idx` current and refreshes the cached high-water mark
    /// and largest free space.
    fn set_current_block(&mut self, idx: usize)
        requires
            idx < old(self).blocks@.len(),
            forall|j: int| 0 <= j < old(self).blocks@.len() ==> (#[trigger] old(self).blocks@[j]).offset <= old(self).blocks@[j].capacity,
        ensures
            final(self).blocks@ == old(self).blocks@,
            final(self).current == idx,
            final(self).high_water_mark == (if idx > old(self).high_water_mark { idx } else { old(self).high_water_mark }),
            final(self).next_block_size == old(self).next_block_size,
            final(self).bytes_allocated == old(self).bytes_allocated,
            final(self).bytes_reserved == old(self).bytes_reserved,
            final(self).txn_depth == old(self).txn_depth,
            final(self).next_base == old(self).next_base,
            forall|j: int|
                idx < j < final(self).blocks@.len() ==> #[trigger] final(self).blocks@[j].capacity
                    - final(self).blocks@[j].offset <= final(self).largest_remaining,
    {
        let lr = self.compute_largest_remaining(idx);
        self.current = idx;
        if idx > self.high_water_mark {
            self.high_water_mark = idx;
        }
        self.largest_remaining = lr;
    }

    /// The size of the next block for `size` bytes at `align`; moves the
    /// growth policy on by one and a half times.
    fn next_block_for(&mut self, size: usize, align: usize) -> (r: usize)
        requires
            align > 0,
            old(self)@.sizing_ok(size as int, align as int),
        ensures
            r == old(self)@.new_capacity(size as int, align as int),
            r >= worst_case(size as int, align as int),
            final(self).next_block_size == grown_block_size(r as int),
            final(self).blocks == old(self).blocks,
            final(self).current == old(self).current,
            final(self).high_water_mark == old(self).high_water_mark,
            final(self).largest_remaining == old(self).largest_remaining,
            final(self).bytes_allocated == old(self).bytes_allocated,
            final(self).bytes_reserved == old(self).bytes_reserved,
            final(self).txn_depth == old(self).txn_depth,
            final(self).next_base == old(self).next_base,
    {
        let worst = size + (align - 1);
        let twice = align * 2;
        let mut want = self.next_block_size;
        if worst > want {
            want = worst;
        }
        if twice > want {
            want = twice;
        }
        let p = match checked_next_power_of_two(want) {
            Some(p) => p,
            None => usize::MAX,
        };
        let mut rounded = if p < MAX_BLOCK_SIZE {
            p
        } else {
            MAX_BLOCK_SIZE
        };
        if worst > rounded {
            rounded = worst;
        }
        if twice > rounded {
            rounded = twice;
        }
        let grown = rounded.saturating_add(rounded / 2);
        self.next_block_size = if grown < MAX_BLOCK_SIZE {
            grown
        } else {
            MAX_BLOCK_SIZE
        };
        rounded
    }

    /// The first retained block after the current one that takes `size`
    /// bytes at `align`, or the number of blocks when none does.
    fn find_retained(&self, size: usize, align: usize) -> (i: usize)
        requires
            self.wf(),
            align > 0,
        ensures
            i == self@.retained_fit(size as int, align as int),
    {
        proof {
            assert(self.blocks@.len() == self.blocks.len());
        }
        let mut i: usize = self.current + 1;
        while i < self.blocks.len()
            invariant
                self.wf(),
                align > 0,
                self.current + 1 <= i <= self.blocks@.len(),
                forall|k: int|
                    self.current < k < i ==> !((#[trigger] self.blocks@[k]).align >= align
                        && block_fits(self.blocks@[k], size as int, align as int)),
            decreases self.blocks@.len() - i,
        {
            let mut b = self.blocks[i];
            if b.align >= align {
                proof {
                    assert(self@.blocks[i as int].wf());
                }
                match b.try_alloc(size, align) {
                    Some(_) => {
                        proof {
                            lemma_first_fit_found(self.blocks@, self.current + 1, i as int, size as int, align as int);
                        }
                        return i;
                    },
                    None => {},
                }
            }
            i = i + 1;
        }
        proof {
            lemma_first_fit_none(self.blocks@, self.current + 1, size as int, align as int);
        }
        i
    }

    /// Fallible allocation of `size` bytes at `align`: the current block,
    /// then the retained blocks, then a new block.
    pub(crate) fn try_alloc_raw_inner(&mut self, size: usize, align: usize) -> (r: Option<usize>)
        requires
            old(self).wf(),
            align > 0,
            old(self)@.needs_new_block(size as int, align as int) ==> old(self)@.sizing_ok(
                size as int,
                align as int,
            ),
        ensures
            final(self).wf(),
            match r {
                Some(addr) => {
                    &&& old(self)@.can_alloc(size as int, align as int)
                    &&& addr == old(self)@.alloc_addr(size as int, align as int)
                    &&& final(self)@ == old(self)@.after_alloc(size as int, align as int)
                },
                None => {
                    &&& !old(self)@.can_alloc(size as int, align as int)
                    &&& final(self)@ == old(self)@.after_failed_alloc(size as int, align as int)
                },
            },
    {
        if align <= MIN_BLOCK_ALIGN {
            let cur = self.current;
            let mut b = self.blocks[cur];
            proof {
                assert(self@.blocks[cur as int].wf());
            }
            match b.try_alloc(size, align) {
                Some((addr, _delta)) => {
                    let ghost old_self = *self;
                    self.blocks[cur] = b;
                    proof {
                        self.lemma_bump_current(old_self, size as int, align as int);
                    }
                    return Some(addr);
                },
                None => {},
            }
        }
        self.alloc_slow_try(size, align)
    }
}


impl Arena {
    /// Slow path: the current block cannot take the request, or the request
    /// wants a block of its own.
    fn alloc_slow_try(&mut self, size: usize, align: usize) -> (r: Option<usize>)
        requires
            old(self).wf(),
            align > 0,
            !old(self)@.fits_current(size as int, align as int),
            old(self)@.needs_new_block(size as int, align as int) ==> old(self)@.sizing_ok(
                size as int,
                align as int,
            ),
        ensures
            final(self).wf(),
            match r {
                Some(addr) => {
                    &&& old(self)@.can_alloc(size as int, align as int)
                    &&& addr == old(self)@.alloc_addr(size as int, align as int)
                    &&& final(self)@ == old(self)@.after_alloc(size as int, align as int)
                },
                None => {
                    &&& !old(self)@.can_alloc(size as int, align as int)
                    &&& final(self)@ == old(self)@.after_failed_alloc(size as int, align as int)
                },
            },
    {
        if align > MIN_BLOCK_ALIGN {
            proof {
                assert(self@.wants_own_block(align as int));
            }
            return self.try_alloc_new_block(size, align);
        }
        // Skip the scan when no retained block has room for the request.
        let i = if size <= self.largest_remaining {
            self.find_retained(size, align)
        } else {
            proof {
                self.lemma_no_retained_fit(size as int, align as int);
            }
            self.blocks.len()
        };
        proof {
            lemma_first_fit_range(self.blocks@, self.current + 1, size as int, align as int);
        }
        if i >= self.blocks.len() {
            return self.try_alloc_new_block(size, align);
        }
        Some(self.alloc_in_retained(i, size, align))
    }

    /// Serves the request from retained block `i`, the first one after the
    /// current block that takes it, and makes that block current.
    fn alloc_in_retained(&mut self, i: usize, size: usize, align: usize) -> (addr: usize)
        requires
            old(self).wf(),
            align > 0,
            align <= MIN_BLOCK_ALIGN,
            !old(self)@.fits_current(size as int, align as int),
            i == old(self)@.retained_fit(size as int, align as int),
            i < old(self).blocks@.len(),
        ensures
            final(self).wf(),
            old(self)@.can_alloc(size as int, align as int),
            addr == old(self)@.alloc_addr(size as int, align as int),
            final(self)@ == old(self)@.after_alloc(size as int, align as int),
    {
        let mut b = self.blocks[i];
        proof {
            lemma_first_fit_range(self.blocks@, self.current + 1, size as int, align as int);
            assert(self@.blocks[i as int].wf());
        }
        let ghost old_self = *self;
        let cur_off = self.blocks[self.current].offset;
        proof {
            lemma_view_counters(self@);
        }
        match b.try_alloc(size, align) {
            Some((addr, _delta)) => {
                self.blocks[i] = b;
                self.bytes_allocated = self.bytes_allocated + cur_off;
                self.set_current_block(i);
                proof {
                    self.lemma_bump_retained(old_self, i as int, size as int, align as int);
                }
                addr
            },
            None => {
                proof {
                    assert(false);
                }
                0
            },
        }
    }

    /// Opens a new block for the request and bumps it.
    #[verifier::rlimit(50)]
    fn try_alloc_new_block(&mut self, size: usize, align: usize) -> (r: Option<usize>)
        requires
            old(self).wf(),
            align > 0,
            old(self)@.needs_new_block(size as int, align as int),
            old(self)@.sizing_ok(size as int, align as int),
        ensures
            final(self).wf(),
            match r {
                Some(addr) => {
                    &&& old(self)@.new_block_fits(size as int, align as int)
                    &&& addr == old(self)@.alloc_addr(size as int, align as int)
                    &&& final(self)@ == old(self)@.after_alloc(size as int, align as int)
                },
                None => {
                    &&& !old(self)@.new_block_fits(size as int, align as int)
                    &&& final(self)@ == old(self)@.after_failed_alloc(size as int, align as int)
                },
            },
    {
        let ghost old_self = *self;
        let block_size = self.next_block_for(size, align);
        let blk_align = if align > MIN_BLOCK_ALIGN {
            align
        } else {
            MIN_BLOCK_ALIGN
        };
        proof {
            lemma_round_up(self.next_base as int, blk_align as int);
            assert(self@ == old_self@.after_failed_alloc(size as int, align as int));
        }
        match checked_align_up(block_size, blk_align) {
            Some(rounded) => {
                if rounded > isize::MAX as usize {
                    return None;
                }
            },
            None => {
                return None;
            },
        }
        let base = match checked_align_up(self.next_base, blk_align) {
            Some(b) => b,
            None => {
                return None;
            },
        };
        if base > usize::MAX - block_size {
            return None;
        }
        proof {
            lemma_round_up(base as int, align as int);
            self.lemma_next_base_positive();
        }
        let mut block = Block::at(base, block_size, blk_align);
        let addr = match block.try_alloc(size, align) {
            Some((a, _delta)) => a,
            None => {
                return None;
            },
        };
        let cur_off = self.blocks[self.current].offset;
        proof {
            lemma_view_counters(self@);
            self.lemma_new_block_counters(block, block_size as int);
        }
        self.bytes_reserved = self.bytes_reserved + block_size;
        self.bytes_allocated = self.bytes_allocated + cur_off;
        self.blocks.push(block);
        self.next_base = base + block_size;
        let idx = self.blocks.len() - 1;
        self.set_current_block(idx);
        proof {
            self.lemma_pushed_block(old_self, block, size as int, align as int);
        }
        Some(addr)
    }
}


impl Arena {
    /// The first block starts above address zero, so every block does.
    proof fn lemma_next_base_positive(&self)
        requires
            self.wf(),
        ensures
            self.next_base > 0,
    {
        let bs = self.blocks@;
        assert(bs.last().wf());
    }

    /// When the request is larger than every retained block's free space, no
    /// retained block takes it.
    proof fn lemma_no_retained_fit(&self, size: int, align: int)
        requires
            self.wf(),
            align > 0,
            size > self.largest_remaining,
        ensures
            self@.retained_fit(size, align) == self.blocks@.len(),
    {
        let bs = self.blocks@;
        assert forall|k: int| self.current + 1 <= k < bs.len() implies !((#[trigger] bs[k]).align >= align
            && block_fits(bs[k], size, align)) by {
            assert(bs[k].wf());
            lemma_round_up(bs[k].base + bs[k].offset, align);
            assert(bs[k].capacity - bs[k].offset <= self.largest_remaining);
        }
        lemma_first_fit_none(bs, self.current + 1, size, align);
    }

    /// Adding a block after the last one keeps the reserved total in `usize`.
    proof fn lemma_new_block_counters(&self, block: Block, cap: int)
        requires
            self.wf(),
            block.base >= self.next_base,
            block.base + block.capacity <= usize::MAX,
            block.capacity == cap,
        ensures
            self.bytes_reserved + cap <= usize::MAX,
    {
        let bs = self.blocks@;
        let nb = bs.push(block);
        let n = bs.len() as int;
        assert forall|j: int| 0 <= j < nb.len() - 1 implies #[trigger] nb[j].base + nb[j].capacity <= nb[j + 1].base by {
            if j < n - 1 {
                assert(nb[j] == bs[j] && nb[j + 1] == bs[j + 1]);
            } else {
                assert(nb[j] == bs.last());
            }
        }
        lemma_reserved_span(nb, n + 1);
        lemma_reserved_prefix_eq(bs, nb, n);
        assert(nb[0] == bs[0]);
        assert(bs[0].wf());
    }

    /// Bumping the current block keeps the invariant and is what the model
    /// says an allocation that fits the current block does.
    proof fn lemma_bump_current(&self, old_self: Arena, size: int, align: int)
        requires
            old_self.wf(),
            align > 0,
            size >= 0,
            align <= MIN_BLOCK_ALIGN,
            block_fits(old_self@.current_block(), size, align),
            self.blocks@ == old_self.blocks@.update(
                old_self.current as int,
                bumped(old_self@.current_block(), size, align),
            ),
            self.current == old_self.current,
            self.next_block_size == old_self.next_block_size,
            self.bytes_allocated == old_self.bytes_allocated,
            self.bytes_reserved == old_self.bytes_reserved,
            self.txn_depth == old_self.txn_depth,
            self.high_water_mark == old_self.high_water_mark,
            self.largest_remaining == old_self.largest_remaining,
            self.next_base == old_self.next_base,
        ensures
            self.wf(),
            old_self@.can_alloc(size, align),
            old_self@.alloc_addr(size, align) == aligned_start(old_self@.current_block(), align),
            self@ == old_self@.after_alloc(size, align),
    {
        let ob = old_self.blocks@;
        let nb = self.blocks@;
        let c = self.current as int;
        assert(ob[c].wf());
        lemma_bumped(ob[c], size, align);
        assert(nb[c] == bumped(ob[c], size, align));
        assert forall|j: int| 0 <= j < nb.len() implies (#[trigger] nb[j]).wf() && nb[j].align >= MIN_BLOCK_ALIGN by {
            if j != c {
                assert(nb[j] == ob[j]);
                assert(ob[j].wf());
            }
        }
        assert forall|j: int| 0 <= j < nb.len() - 1 implies #[trigger] nb[j].base + nb[j].capacity <= nb[j + 1].base by {
            assert(ob[j].base + ob[j].capacity <= ob[j + 1].base);
        }
        assert(nb.last().base == ob.last().base && nb.last().capacity == ob.last().capacity);
        lemma_used_prefix_eq(ob, nb, c);
        lemma_reserved_prefix_eq(ob, nb, nb.len() as int);
        assert(self@.blocks =~= old_self@.after_alloc(size, align).blocks);
    }

    /// Bumping a retained block and making it current keeps the invariant
    /// and is what the model says.
    proof fn lemma_bump_retained(&self, old_self: Arena, i: int, size: int, align: int)
        requires
            old_self.wf(),
            align > 0,
            size >= 0,
            align <= MIN_BLOCK_ALIGN,
            !old_self@.fits_current(size, align),
            i == old_self@.retained_fit(size, align),
            i < old_self.blocks@.len(),
            block_fits(old_self.blocks@[i], size, align),
            self.blocks@ == old_self.blocks@.update(i, bumped(old_self.blocks@[i], size, align)),
            self.current == i,
            self.bytes_allocated == old_self.bytes_allocated + old_self@.current_block().offset,
            self.high_water_mark == (if i > old_self.high_water_mark { i as usize } else { old_self.high_water_mark }),
            forall|j: int|
                i < j < self.blocks@.len() ==> #[trigger] self.blocks@[j].capacity
                    - self.blocks@[j].offset <= self.largest_remaining,
            self.next_block_size == old_self.next_block_size,
            self.bytes_reserved == old_self.bytes_reserved,
            self.txn_depth == old_self.txn_depth,
            self.next_base == old_self.next_base,
        ensures
            self.wf(),
            old_self@.can_alloc(size, align),
            old_self@.alloc_addr(size, align) == aligned_start(old_self.blocks@[i], align),
            self@ == old_self@.after_alloc(size, align),
    {
        let ob = old_self.blocks@;
        let nb = self.blocks@;
        let c = old_self.current as int;
        lemma_first_fit_range(ob, c + 1, size, align);
        assert(ob[i].wf());
        lemma_bumped(ob[i], size, align);
        assert(nb[i] == bumped(ob[i], size, align));
        assert forall|j: int| 0 <= j < nb.len() implies (#[trigger] nb[j]).wf() && nb[j].align >= MIN_BLOCK_ALIGN by {
            if j != i {
                assert(nb[j] == ob[j]);
                assert(ob[j].wf());
            }
        }
        assert forall|j: int| 0 <= j < nb.len() - 1 implies #[trigger] nb[j].base + nb[j].capacity <= nb[j + 1].base by {
            assert(ob[j].base + ob[j].capacity <= ob[j + 1].base);
        }
        assert(nb.last().base == ob.last().base && nb.last().capacity == ob.last().capacity);
        assert forall|j: int| i < j < nb.len() implies (#[trigger] nb[j]).offset == 0 by {
            assert(nb[j] == ob[j]);
        }
        lemma_used_prefix_eq(ob, nb, i);
        assert forall|k: int| c + 1 <= k < i implies (#[trigger] ob[k]).offset == 0 by {}
        lemma_used_zero_range(ob, c + 1, i);
        lemma_reserved_prefix_eq(ob, nb, nb.len() as int);
        assert(self@.blocks =~= old_self@.after_alloc(size, align).blocks);
    }

    /// Appending the bumped new block and making it current keeps the
    /// invariant and is what the model says.
    #[verifier::spinoff_prover]
    #[verifier::rlimit(40)]
    proof fn lemma_pushed_block(&self, old_self: Arena, block: Block, size: int, align: int)
        requires
            old_self.wf(),
            align > 0,
            size >= 0,
            old_self@.needs_new_block(size, align),
            old_self@.new_block_fits(size, align),
            block == bumped(old_self@.new_block(size, align), size, align),
            block_fits(old_self@.new_block(size, align), size, align),
            self.blocks@ == old_self.blocks@.push(block),
            self.current == old_self.blocks@.len(),
            self.next_base == old_self@.new_base(align) + old_self@.new_capacity(size, align),
            self.next_block_size == grown_block_size(old_self@.new_capacity(size, align)),
            self.bytes_reserved == old_self.bytes_reserved + old_self@.new_capacity(size, align),
            self.bytes_allocated == old_self.bytes_allocated + old_self@.current_block().offset,
            self.high_water_mark == self.current,
            self.txn_depth == old_self.txn_depth,
            old_self.next_base > 0,
            old_self@.new_capacity(size, align) > 0,
        ensures
            self.wf(),
            self@ == old_self@.after_alloc(size, align),
    {
        let ob = old_self.blocks@;
        let nb = self.blocks@;
        let n = ob.len() as int;
        let c = old_self.current as int;
        let fresh = old_self@.new_block(size, align);
        lemma_round_up(old_self.next_base as int, new_block_align(align));
        lemma_round_up(fresh.base + fresh.offset, align);
        assert(fresh.base % fresh.align == 0);
        assert(fresh.base > 0);
        assert(fresh.wf());
        lemma_bumped(fresh, size, align);
        assert(nb[n] == block);
        assert forall|j: int| 0 <= j < nb.len() implies (#[trigger] nb[j]).wf() && nb[j].align >= MIN_BLOCK_ALIGN by {
            if j < n {
                assert(nb[j] == ob[j]);
                assert(ob[j].wf());
            }
        }
        assert forall|j: int| 0 <= j < nb.len() - 1 implies #[trigger] nb[j].base + nb[j].capacity <= nb[j + 1].base by {
            if j < n - 1 {
                assert(nb[j] == ob[j] && nb[j + 1] == ob[j + 1]);
                assert(ob[j].base + ob[j].capacity <= ob[j + 1].base);
            } else {
                assert(nb[j] == ob.last());
            }
        }
        lemma_used_prefix_eq(ob, nb, n);
        assert forall|k: int| c + 1 <= k < n implies (#[trigger] ob[k]).offset == 0 by {}
        lemma_used_zero_range(ob, c + 1, n);
        lemma_reserved_prefix_eq(ob, nb, n);
        assert(reserved_before(nb, n + 1) == reserved_before(nb, n) + block.capacity);
        assert(self@.blocks =~= old_self@.after_alloc(size, align).blocks);
    }
}


impl Arena {
    /// The bytes in use in the blocks before block `idx`.
    fn used_before_block(&self, idx: usize) -> (r: usize)
        requires
            self.wf(),
            idx <= self.blocks@.len(),
        ensures
            r == used_before(self.blocks@, idx as int),
        opens_invariants none
        no_unwind
    {
        proof {
            lemma_view_counters(self@);
            lemma_used_le_reserved(self.blocks@, self.blocks@.len() as int);
        }
        let mut sum: usize = 0;
        let mut i: usize = 0;
        while i < idx
            invariant
                self.wf(),
                idx <= self.blocks@.len(),
                i <= idx,
                sum == used_before(self.blocks@, i as int),
                self@.bytes_reserved() <= usize::MAX,
                used_before(self.blocks@, self.blocks@.len() as int) <= self@.bytes_reserved(),
            decreases idx - i,
        {
            proof {
                lemma_used_monotone(self.blocks@, i + 1, self.blocks@.len() as int);
            }
            sum = sum + block_get(&self.blocks, i).offset;
            i = i + 1;
        }
        sum
    }

    /// Roll back to the checkpoint `cp` of this arena: blocks after its
    /// block up to the current one are emptied and retained for reuse, its
    /// block is filled to `cp.offset` and becomes current, and the bytes in
    /// use are the checkpoint's count.
    pub fn rewind(&mut self, cp: Checkpoint)
        requires
            old(self).wf(),
            old(self)@.valid_checkpoint(cp),
        ensures
            final(self).wf(),
            final(self)@ == old(self)@.rewound(cp.block_idx as int, cp.offset as int),
            final(self)@.bytes_allocated() == cp.bytes_allocated,
        opens_invariants none
        no_unwind
    {
        proof {
            lemma_rewound(self@, cp.block_idx as int, cp.offset as int);
            assert forall|j: int| 0 <= j < cp.block_idx implies (#[trigger] self@.blocks[j]).offset
                <= self@.blocks[j].capacity by {
                assert(self@.blocks[j].wf());
            }
            lemma_used_le_reserved(self@.blocks, cp.block_idx as int);
        }
        self.rewind_to(cp.block_idx, cp.offset, cp.bytes_allocated - cp.offset);
    }

    /// Roll back to position `offset` in block `idx`, where `used` is the
    /// bytes in use in the blocks before `idx`.
    #[verifier::loop_isolation(false)]
    fn rewind_to(&mut self, idx: usize, offset: usize, used: usize)
        requires
            old(self).wf(),
            idx < old(self)@.blocks.len(),
            offset <= old(self)@.blocks[idx as int].capacity,
            used == used_before(old(self)@.blocks, idx as int),
        ensures
            final(self).wf(),
            final(self)@ == old(self)@.rewound(idx as int, offset as int),
        opens_invariants none
        no_unwind
    {
        let ghost old_self = *self;
        let n = blocks_len(&self.blocks);
        let cur = self.current;
        let mut i: usize = idx + 1;
        while i <= cur
            invariant
                idx < i <= n,
                self.blocks@.len() == n,
                self.current == old_self.current,
                self.next_base == old_self.next_base,
                self.next_block_size == old_self.next_block_size,
                self.txn_depth == old_self.txn_depth,
                self.bytes_reserved == old_self.bytes_reserved,
                self.high_water_mark == old_self.high_water_mark,

                forall|k: int|
                    0 <= k < n ==> #[trigger] self.blocks@[k] == (if idx < k < i {
                        Block { offset: 0, ..old_self.blocks@[k] }
                    } else {
                        old_self.blocks@[k]
                    }),
            decreases cur + 1 - i,
        {
            let mut b = block_get(&self.blocks, i);
            b.offset = 0;
            block_set(&mut self.blocks, i, b);
            i = i + 1;
        }
        let mut b = block_get(&self.blocks, idx);
        b.offset = offset;
        block_set(&mut self.blocks, idx, b);
        proof {
            assert(self.blocks@ =~= old_self@.rewound(idx as int, offset as int).blocks);
            lemma_rewound(old_self@, idx as int, offset as int);
            lemma_used_prefix_eq(old_self.blocks@, self.blocks@, idx as int);
        }
        self.current = idx;
        if idx > self.high_water_mark {
            self.high_water_mark = idx;
        }
        self.bytes_allocated = used;
        let lr = self.compute_largest_remaining(idx);
        self.largest_remaining = lr;
    }

    /// Make all memory available for reuse: every block is emptied and
    /// retained, the first one becomes current.
    #[verifier::loop_isolation(false)]
    pub fn reset(&mut self)
        requires
            old(self).wf(),
        ensures
            final(self).wf(),
            final(self)@ == old(self)@.reset_view(),
    {
        let ghost old_self = *self;
        let n = self.blocks.len();
        let hwm = self.high_water_mark;
        let mut i: usize = 0;
        while i <= hwm
            invariant
                i <= hwm + 1,
                hwm < n,
                self.blocks@.len() == n,
                self.current == old_self.current,
                self.next_base == old_self.next_base,
                self.next_block_size == old_self.next_block_size,
                self.txn_depth == old_self.txn_depth,
                self.bytes_reserved == old_self.bytes_reserved,
                self.high_water_mark == old_self.high_water_mark,

                forall|k: int|
                    0 <= k < n ==> #[trigger] self.blocks@[k] == (if k < i {
                        Block { offset: 0, ..old_self.blocks@[k] }
                    } else {
                        old_self.blocks@[k]
                    }),
            decreases hwm + 1 - i,
        {
            let mut b = self.blocks[i];
            b.offset = 0;
            self.blocks[i] = b;
            i = i + 1;
        }
        proof {
            let nb = self.blocks@;
            let ob = old_self.blocks@;
            assert forall|k: int| 0 <= k < nb.len() implies #[trigger] nb[k] == (Block { offset: 0, ..ob[k] }) by {
                if k > hwm {
                    assert(ob[k].offset == 0);
                }
            }
            assert(nb =~= old_self@.reset_view().blocks);
            lemma_reset(old_self@);
        }
        self.high_water_mark = 0;
        self.bytes_allocated = 0;
        self.current = 0;
        // The largest free space after the first block is the largest capacity.
        let lr = self.compute_largest_remaining(0);
        self.largest_remaining = lr;
    }
}


impl Arena {
    /// Low-level allocation of `size` uninitialised bytes at `align`
    /// alignment; returns their address. A zero-sized request allocates
    /// nothing and returns [`DANGLING`].
    pub fn alloc_raw(&mut self, size: usize, align: usize) -> (p: usize)
        requires
            old(self).wf(),
            is_pow2(align as int),
            size > 0 ==> old(self)@.serves(size as int, align as int),
        ensures
            final(self).wf(),
            size == 0 ==> p == DANGLING && final(self)@ == old(self)@,
            size > 0 ==> p == old(self)@.alloc_addr(size as int, align as int) && final(self)@
                == old(self)@.after_alloc(size as int, align as int),
    {
        proof {
            lemma_pow2_ge(align as int);
        }
        if size == 0 {
            return DANGLING;
        }
        match self.try_alloc_raw_inner(size, align) {
            Some(p) => p,
            None => {
                proof {
                    assert(false);
                }
                DANGLING
            },
        }
    }

    /// Fallible variant of [`alloc_raw`](Arena::alloc_raw): `None`, with only
    /// the growth policy moved on, when a new block would not fit in the
    /// address space.
    pub fn try_alloc_raw(&mut self, size: usize, align: usize) -> (r: Option<usize>)
        requires
            old(self).wf(),
            is_pow2(align as int),
            size > 0 ==> old(self)@.sizes_ok(size as int, align as int),
        ensures
            final(self).wf(),
            size == 0 ==> r == Some(DANGLING) && final(self)@ == old(self)@,
            size > 0 ==> match r {
                Some(p) => {
                    &&& old(self)@.can_alloc(size as int, align as int)
                    &&& p == old(self)@.alloc_addr(size as int, align as int)
                    &&& final(self)@ == old(self)@.after_alloc(size as int, align as int)
                },
                None => {
                    &&& !old(self)@.can_alloc(size as int, align as int)
                    &&& final(self)@ == old(self)@.after_failed_alloc(size as int, align as int)
                },
            },
    {
        proof {
            lemma_pow2_ge(align as int);
        }
        if size == 0 {
            return Some(DANGLING);
        }
        self.try_alloc_raw_inner(size, align)
    }

    /// Allocate `size` bytes aligned to a [`CACHE_LINE_SIZE`] boundary. A
    /// zero-sized request allocates nothing and returns the address
    /// [`CACHE_LINE_SIZE`], which is cache-line aligned.
    pub fn alloc_cache_aligned(&mut self, size: usize) -> (p: usize)
        requires
            old(self).wf(),
            size > 0 ==> old(self)@.serves(size as int, CACHE_LINE_SIZE as int),
        ensures
            final(self).wf(),
            size == 0 ==> p == CACHE_LINE_SIZE && final(self)@ == old(self)@,
            size > 0 ==> p == old(self)@.alloc_addr(size as int, CACHE_LINE_SIZE as int)
                && final(self)@ == old(self)@.after_alloc(size as int, CACHE_LINE_SIZE as int),
    {
        proof {
            lemma_cache_line_pow2();
        }
        if size == 0 {
            return CACHE_LINE_SIZE;
        }
        self.alloc_raw(size, CACHE_LINE_SIZE)
    }

    /// Fallible variant of [`alloc_cache_aligned`](Arena::alloc_cache_aligned).
    pub fn try_alloc_cache_aligned(&mut self, size: usize) -> (r: Option<usize>)
        requires
            old(self).wf(),
            size > 0 ==> old(self)@.sizes_ok(size as int, CACHE_LINE_SIZE as int),
        ensures
            final(self).wf(),
            size == 0 ==> r == Some(CACHE_LINE_SIZE) && final(self)@ == old(self)@,
            size > 0 ==> match r {
                Some(p) => {
                    &&& old(self)@.can_alloc(size as int, CACHE_LINE_SIZE as int)
                    &&& p == old(self)@.alloc_addr(size as int, CACHE_LINE_SIZE as int)
                    &&& final(self)@ == old(self)@.after_alloc(size as int, CACHE_LINE_SIZE as int)
                },
                None => {
                    &&& !old(self)@.can_alloc(size as int, CACHE_LINE_SIZE as int)
                    &&& final(self)@ == old(self)@.after_failed_alloc(
                        size as int,
                        CACHE_LINE_SIZE as int,
                    )
                },
            },
    {
        proof {
            lemma_cache_line_pow2();
        }
        if size == 0 {
            return Some(CACHE_LINE_SIZE);
        }
        self.try_alloc_raw(size, CACHE_LINE_SIZE)
    }
}

/// The cache-line size is a power of two.
pub(crate) proof fn lemma_cache_line_pow2()
    ensures
        is_pow2(CACHE_LINE_SIZE as int),
{
    reveal_with_fuel(is_pow2, 8);
}


impl Arena {
    /// Capacity of block `idx`.
    pub fn block_capacity(&self, idx: usize) -> (c: usize)
        requires
            idx < self@.blocks.len(),
        ensures
            c == self@.blocks[idx as int].capacity,
    {
        self.blocks[idx].capacity
    }

    /// Whether every block is well formed and block-aligned.
    fn check_blocks(&self) -> (b: bool)
        ensures
            b == (forall|j: int| 0 <= j < self.blocks@.len() ==> (#[trigger] self.blocks@[j]).wf()
                && self.blocks@[j].align >= MIN_BLOCK_ALIGN),
        opens_invariants none
        no_unwind
    {
        let n = blocks_len(&self.blocks);
        let mut i: usize = 0;
        while i < n
            invariant
                n == self.blocks@.len(),
                i <= n,
                forall|j: int| 0 <= j < i ==> (#[trigger] self.blocks@[j]).wf() && self.blocks@[j].align
                    >= MIN_BLOCK_ALIGN,
            decreases n - i,
        {
            let b = block_get(&self.blocks, i);
            if b.capacity == 0 || b.offset > b.capacity || b.base == 0 || b.base > usize::MAX - b.capacity
                || b.align < MIN_BLOCK_ALIGN || b.base % b.align != 0 {
                return false;
            }
            i = i + 1;
        }
        true
    }

    /// Whether the blocks lie in increasing, disjoint ranges ending at the
    /// next base.
    fn check_layout(&self) -> (b: bool)
        requires
            self.blocks@.len() >= 1,
            forall|j: int| 0 <= j < self.blocks@.len() ==> (#[trigger] self.blocks@[j]).wf(),
        ensures
            b == ((forall|j: int| 0 <= j < self.blocks@.len() - 1
                ==> #[trigger] self.blocks@[j].base + self.blocks@[j].capacity <= self.blocks@[j + 1].base)
                && self.blocks@.last().base + self.blocks@.last().capacity == self.next_base),
        opens_invariants none
        no_unwind
    {
        let n = blocks_len(&self.blocks);
        let mut i: usize = 1;
        while i < n
            invariant
                n == self.blocks@.len(),
                1 <= i <= n,
                forall|j: int| 0 <= j < self.blocks@.len() ==> (#[trigger] self.blocks@[j]).wf(),
                forall|j: int| 0 <= j < i - 1 ==> #[trigger] self.blocks@[j].base + self.blocks@[j].capacity
                    <= self.blocks@[j + 1].base,
            decreases n - i,
        {
            let prev = block_get(&self.blocks, i - 1);
            let b = block_get(&self.blocks, i);
            proof {
                assert(self.blocks@[i - 1].wf());
            }
            if prev.base + prev.capacity > b.base {
                proof {
                    assert(self.blocks@[i - 1].base + self.blocks@[i - 1].capacity > self.blocks@[(i - 1) + 1].base);
                }
                return false;
            }
            i = i + 1;
        }
        let last = block_get(&self.blocks, n - 1);
        proof {
            assert(self.blocks@.last() == self.blocks@[n - 1]);
            assert(self.blocks@[n - 1].wf());
        }
        last.base + last.capacity == self.next_base
    }

    /// Whether the blocks after the current one are empty and within the
    /// cached largest free space.
    fn check_tail(&self) -> (b: bool)
        requires
            self.current < self.blocks@.len(),
        ensures
            b == (forall|j: int| self.current < j < self.blocks@.len() ==> (#[trigger] self.blocks@[j]).offset == 0
                && self.blocks@[j].capacity - self.blocks@[j].offset <= self.largest_remaining),
        opens_invariants none
        no_unwind
    {
        let n = blocks_len(&self.blocks);
        let mut i: usize = self.current + 1;
        while i < n
            invariant
                n == self.blocks@.len(),
                self.current < i <= n,
                forall|j: int| self.current < j < i ==> (#[trigger] self.blocks@[j]).offset == 0
                    && self.blocks@[j].capacity - self.blocks@[j].offset <= self.largest_remaining,
            decreases n - i,
        {
            let b = block_get(&self.blocks, i);
            if b.offset != 0 || b.capacity > self.largest_remaining {
                return false;
            }
            i = i + 1;
        }
        true
    }

    /// The bytes in use in the blocks before `idx`, or `None` when they
    /// exceed `usize::MAX`.
    fn sum_used(&self, idx: usize) -> (r: Option<usize>)
        requires
            idx <= self.blocks@.len(),
        ensures
            match r {
                Some(v) => v == used_before(self.blocks@, idx as int),
                None => used_before(self.blocks@, idx as int) > usize::MAX,
            },
        opens_invariants none
        no_unwind
    {
        let mut sum: usize = 0;
        let mut i: usize = 0;
        while i < idx
            invariant
                idx <= self.blocks@.len(),
                i <= idx,
                sum == used_before(self.blocks@, i as int),
            decreases idx - i,
        {
            let off = block_get(&self.blocks, i).offset;
            sum = if sum <= usize::MAX - off {
                sum + off
            } else {
                proof {
                    lemma_used_monotone(self.blocks@, i + 1, idx as int);
                }
                return None;
            };
            i = i + 1;
        }
        Some(sum)
    }

    /// The bytes reserved by all blocks, or `None` when they exceed
    /// `usize::MAX`.
    fn sum_reserved(&self) -> (r: Option<usize>)
        ensures
            match r {
                Some(v) => v == self@.bytes_reserved(),
                None => self@.bytes_reserved() > usize::MAX,
            },
        opens_invariants none
        no_unwind
    {
        let n = blocks_len(&self.blocks);
        let mut sum: usize = 0;
        let mut i: usize = 0;
        while i < n
            invariant
                n == self.blocks@.len(),
                i <= n,
                sum == reserved_before(self.blocks@, i as int),
            decreases n - i,
        {
            let cap = block_get(&self.blocks, i).capacity;
            sum = if sum <= usize::MAX - cap {
                sum + cap
            } else {
                proof {
                    lemma_reserved_monotone(self.blocks@, i + 1, n as int);
                }
                return None;
            };
            i = i + 1;
        }
        Some(sum)
    }

    /// Checks the arena's invariant at run time: `true` exactly when it holds.
    #[verifier::rlimit(80)]
    pub fn check_wf(&self) -> (b: bool)
        ensures
            b == self.wf(),
        opens_invariants none
        no_unwind
    {
        proof {
            if self.wf() {
                lemma_view_counters(self@);
            }
        }
        let n = blocks_len(&self.blocks);
        if n == 0 || self.current >= n || self.high_water_mark >= n || self.current > self.high_water_mark {
            return false;
        }
        if !self.check_blocks() || !self.check_layout() || !self.check_tail() {
            return false;
        }
        let used = match self.sum_used(self.current) {
            Some(u) => u,
            None => {
                return false;
            },
        };
        let reserved = match self.sum_reserved() {
            Some(r) => r,
            None => {
                return false;
            },
        };
        used == self.bytes_allocated && reserved == self.bytes_reserved
    }
}

impl Arena {
    /// Records that a transaction was opened.
    pub(crate) fn enter_transaction(&mut self)
        requires
            old(self).wf(),
            old(self)@.txn_depth < usize::MAX,
        ensures
            final(self).wf(),
            final(self)@ == old(self)@.with_depth(old(self)@.txn_depth as int + 1),
    {
        self.txn_depth = self.txn_depth + 1;
        proof {
            assert(self@ == old(self)@.with_depth(old(self)@.txn_depth as int + 1));
        }
    }

    /// Records that a transaction was committed (the count wraps).
    pub(crate) fn leave_transaction_wrapping(&mut self)
        ensures
            old(self).wf() ==> final(self).wf(),
            final(self)@ == old(self)@.with_depth(
                if old(self)@.txn_depth == 0 { usize::MAX as int } else { old(self)@.txn_depth - 1 },
            ),
    {
        self.txn_depth = self.txn_depth.wrapping_sub(1);
        proof {
            assert(self@ =~~= old(self)@.with_depth(
                if old(self)@.txn_depth == 0 { usize::MAX as int } else { old(self)@.txn_depth - 1 },
            ));
        }
    }

    /// Records that a transaction was closed (the count stops at zero).
    pub(crate) fn leave_transaction_saturating(&mut self)
        ensures
            old(self).wf() ==> final(self).wf(),
            final(self)@ == old(self)@.with_depth(
                if old(self)@.txn_depth == 0 { 0 } else { old(self)@.txn_depth - 1 },
            ),
        opens_invariants none
        no_unwind
    {
        self.txn_depth = if self.txn_depth > 0 { self.txn_depth - 1 } else { 0 };
        proof {
            assert(self@ =~~= old(self)@.with_depth(
                if old(self)@.txn_depth == 0 { 0 } else { old(self)@.txn_depth - 1 },
            ));
        }
    }

    /// Rolls back to `cp` when the arena and the checkpoint can be checked
    /// to be consistent; reports whether it did.
    pub(crate) fn rollback_checked(&mut self, cp: Checkpoint) -> (done: bool)
        ensures
            done ==> old(self).wf() && cp.block_idx < old(self)@.blocks.len() && cp.offset
                <= old(self)@.blocks[cp.block_idx as int].capacity,
            done ==> final(self).wf() && final(self)@ == old(self)@.rewound(
                cp.block_idx as int,
                cp.offset as int,
            ),
            !done ==> *final(self) == *old(self),
            old(self).wf() && cp.block_idx < old(self)@.blocks.len() && cp.offset
                <= old(self)@.blocks[cp.block_idx as int].capacity ==> done,
        opens_invariants none
        no_unwind
    {
        if !self.check_wf() {
            return false;
        }
        if cp.block_idx >= blocks_len(&self.blocks) || cp.offset > block_get(&self.blocks, cp.block_idx).capacity {
            return false;
        }
        let used = self.used_before_block(cp.block_idx);
        self.rewind_to(cp.block_idx, cp.offset, used);
        true
    }
}

/// `Vec::len` on the block list: the number of blocks. Besides that result
/// it claims that the call opens no invariant, which a destructor needs and
/// which vstd's own specification of `Vec::len` leaves out; like vstd's, it
/// claims that the call does not unwind.
#[verifier::external_body]
fn blocks_len(blocks: &Vec<Block>) -> (n: usize)
    ensures
        n == blocks@.len(),
    opens_invariants none
    no_unwind
{
    blocks.len()
}

/// `Vec` indexing on the block list: a copy of block `i`. Besides that result
/// it claims that the call opens no invariant, which a destructor needs and
/// which vstd's own specification of indexing leaves out, and that it does
/// not unwind when `i` is in range.
#[verifier::external_body]
fn block_get(blocks: &Vec<Block>, i: usize) -> (b: Block)
    requires
        i < blocks@.len(),
    ensures
        b == blocks@[i as int],
    opens_invariants none
    no_unwind
{
    blocks[i]
}

/// `Vec` index-assignment on the block list: block `i` becomes `b`, the rest
/// stays. Besides that it claims that the call opens no invariant, which a
/// destructor needs and which vstd's own specification of indexing leaves
/// out, and that it does not unwind when `i` is in range.
#[verifier::external_body]
fn block_set(blocks: &mut Vec<Block>, i: usize, b: Block)
    requires
        i < old(blocks)@.len(),
    ensures
        final(blocks)@ == old(blocks)@.update(i as int, b),
    opens_invariants none
    no_unwind
{
    blocks[i] = b;
}

} // verus!
