//! RAII transactions over an arena: commit keeps what was allocated, roll
//! back (or dropping the guard) returns the arena to where the transaction
//! opened; transactions nest as savepoints and can carry a byte budget.
use vstd::prelude::*;

use core::mem::MaybeUninit;

use crate::arena::Arena;
use crate::boxed::{ArenaBox, ArenaSlice, ArenaStr};
use crate::layout::is_pow2;
use crate::model::{ArenaView, CACHE_LINE_SIZE, DANGLING};
use crate::stats::Checkpoint;
use crate::typed::{type_align, type_size, zero_bytes, zeros};
use crate::lemmas::lemma_keeps_all;

verus! {

/// Outcome of [`Transaction::commit`] or [`Transaction::rollback`].
#[derive(Debug, Clone, Copy, PartialEq, Eq)]
pub enum TxnStatus {
    Committed,
    RolledBack,
}

/// Allocation metrics for a single transaction scope, returned by
/// [`Transaction::diff`].
#[derive(Debug, Clone, Copy, PartialEq, Eq, Default)]
pub struct TxnDiff {
    /// Bytes allocated (including padding) since the transaction opened.
    pub bytes_allocated: usize,
    /// Arena blocks written to during this transaction; at least one.
    pub blocks_touched: usize,
}

/// A scoped transaction over an [`Arena`].
///
/// Obtained via [`Arena::transaction`]. Allocations made through the guard
/// are rolled back when it is dropped, unless [`commit`](Transaction::commit)
/// is called first. [`savepoint`](Transaction::savepoint) opens a nested
/// transaction; [`set_limit`](Transaction::set_limit) caps the bytes the
/// transaction's own allocation methods may use.
///
/// The arena borrow is held while the transaction is open; commit and
/// rollback hand it back.
pub struct Transaction<'arena> {
    /// The arena, while the transaction is open.
    pub arena: Option<&'arena mut Arena>,
    /// Where the arena stood when the transaction opened.
    pub checkpoint: Checkpoint,
    /// Whether the transaction was committed.
    pub committed: bool,
    /// Bytes in use when the transaction opened.
    pub bytes_at_open: usize,
    /// Current block when the transaction opened.
    pub block_at_open: usize,
    /// Nesting depth: 1 for a top-level transaction.
    pub depth: usize,
    /// Byte budget, if any.
    pub limit: Option<usize>,
}

/// `a - b`, stopping at zero.
pub open spec fn sat_sub(a: int, b: int) -> int {
    if a >= b {
        a - b
    } else {
        0
    }
}

/// `a * b`, stopping at `usize::MAX`.
pub open spec fn sat_mul(a: int, b: int) -> int {
    if a * b > usize::MAX {
        usize::MAX as int
    } else {
        a * b
    }
}

/// `a + b`, stopping at `usize::MAX`.
pub open spec fn sat_add(a: int, b: int) -> int {
    if a + b > usize::MAX {
        usize::MAX as int
    } else {
        a + b
    }
}

impl<'arena> Transaction<'arena> {
    /// The transaction still holds its arena.
    pub open spec fn is_open(&self) -> bool {
        self.arena is Some
    }

    /// The model of the arena as the transaction currently sees it.
    pub open spec fn arena_view(&self) -> ArenaView {
        (*self.arena->0)@
    }

    /// The transaction is open over a well-formed arena, and its checkpoint
    /// names a position inside the arena's blocks.
    pub open spec fn wf(&self) -> bool {
        &&& self.is_open()
        &&& (*self.arena->0).wf()
        &&& self.checkpoint.block_idx < self.arena_view().blocks.len()
        &&& self.checkpoint.offset <= self.arena_view().blocks[self.checkpoint.block_idx as int].capacity
    }

    /// `self` and `other` agree on everything but the arena.
    pub open spec fn same_scope(&self, other: &Transaction<'arena>) -> bool {
        &&& self.checkpoint == other.checkpoint
        &&& self.committed == other.committed
        &&& self.bytes_at_open == other.bytes_at_open
        &&& self.block_at_open == other.block_at_open
        &&& self.depth == other.depth
        &&& self.limit == other.limit
    }

    /// Bytes allocated since the transaction opened.
    pub open spec fn used(&self) -> int {
        sat_sub(self.arena_view().bytes_allocated(), self.bytes_at_open as int)
    }

    /// Whether `additional` more bytes stay within the budget.
    pub open spec fn within_budget(&self, additional: int) -> bool {
        match self.limit {
            None => true,
            Some(lim) => sat_add(self.used(), additional) <= lim,
        }
    }

    /// The model of the arena after rolling this transaction back.
    pub open spec fn rolled_back_view(&self) -> ArenaView {
        let v = self.arena_view().rewound(
            self.checkpoint.block_idx as int,
            self.checkpoint.offset as int,
        );
        v.with_depth(if v.txn_depth == 0 { 0 } else { v.txn_depth - 1 })
    }

    /// The model of the arena after committing this transaction.
    pub open spec fn committed_view(&self) -> ArenaView {
        let v = self.arena_view();
        v.with_depth(if v.txn_depth == 0 { usize::MAX as int } else { v.txn_depth - 1 })
    }

    /// Open a transaction on `arena`.
    pub fn new(arena: &'arena mut Arena) -> (t: Transaction<'arena>)
        requires
            old(arena).wf(),
            old(arena)@.txn_depth < usize::MAX,
        ensures
            t.wf(),
            t.arena_view() == old(arena)@.with_depth(old(arena)@.txn_depth as int + 1),
            *final(t.arena->0) == *final(arena),
            t.checkpoint.block_idx == old(arena)@.current,
            t.checkpoint.offset == old(arena)@.current_block().offset,
            t.checkpoint.bytes_allocated == old(arena)@.bytes_allocated(),
            t.bytes_at_open == old(arena)@.bytes_allocated(),
            t.block_at_open == old(arena)@.current,
            t.depth == old(arena)@.txn_depth + 1,
            t.limit is None,
            !t.committed,
    {
        let checkpoint = arena.checkpoint();
        proof {
            arena.lemma_current_block_wf();
            arena.lemma_view_wf();
        }
        let bytes_at_open = checkpoint.bytes_allocated;
        let block_at_open = checkpoint.block_idx;
        arena.enter_transaction();
        let depth = arena.transaction_depth();
        proof {
            assert(arena@.blocks == old(arena)@.blocks);
            assert(checkpoint.block_idx < arena@.blocks.len());
            assert(checkpoint.offset <= arena@.blocks[checkpoint.block_idx as int].capacity);
        }
        let ghost a_now = *arena;
        let t = Transaction {
            arena: Some(arena),
            checkpoint,
            committed: false,
            bytes_at_open,
            block_at_open,
            depth,
            limit: None,
        };
        proof {
            assert(*t.arena->0 == a_now);
        }
        t
    }

    /// Commit the transaction, keeping all allocations, and hand the arena
    /// back.
    pub fn commit(self) -> (s: TxnStatus)
        ensures
            s == TxnStatus::Committed,
            self.is_open() ==> (*final(self.arena->0))@ == self.committed_view(),
            self.wf() ==> (*final(self.arena->0)).wf(),
    {
        let mut this = self;
        match this.arena.take() {
            Some(a) => {
                a.leave_transaction_wrapping();
            },
            None => {},
        }
        TxnStatus::Committed
    }

    /// Roll back all allocations made since this transaction opened, and
    /// hand the arena back.
    pub fn rollback(self) -> (s: TxnStatus)
        ensures
            s == TxnStatus::RolledBack,
            self.wf() ==> (*final(self.arena->0))@ == self.rolled_back_view(),
            self.wf() ==> (*final(self.arena->0)).wf(),
    {
        let mut this = self;
        let cp = this.checkpoint;
        match this.arena.take() {
            Some(a) => {
                a.leave_transaction_saturating();
                a.rollback_checked(cp);
            },
            None => {},
        }
        TxnStatus::RolledBack
    }
}

impl<'arena> Transaction<'arena> {
    /// Settle the transaction by the outcome of the work done in it: commit on
    /// `Ok`, roll back on `Err`. Returns the outcome unchanged.
    pub fn conclude<T, E>(self, result: Result<T, E>) -> (r: Result<T, E>)
        ensures
            r == result,
            result is Ok && self.is_open() ==> (*final(self.arena->0))@ == self.committed_view(),
            result is Err && self.wf() ==> (*final(self.arena->0))@ == self.rolled_back_view(),
            self.wf() ==> (*final(self.arena->0)).wf(),
    {
        match result {
            Ok(v) => {
                self.commit();
                Ok(v)
            },
            Err(e) => {
                self.rollback();
                Err(e)
            },
        }
    }
}

impl<'arena> Drop for Transaction<'arena> {
    /// Rolls the transaction back unless it was committed or already handed
    /// its arena back.
    fn drop(&mut self)
        ensures
            old(self).wf() && !old(self).committed ==> (*final(old(self).arena->0))@
                == old(self).rolled_back_view(),
            old(self).is_open() && old(self).committed ==> (*final(old(self).arena->0))@
                == old(self).arena_view().with_depth(
                if old(self).arena_view().txn_depth == 0 { 0 } else { old(self).arena_view().txn_depth - 1 },
            ),
            old(self).wf() ==> (*final(old(self).arena->0)).wf(),
        opens_invariants none
        no_unwind
    {
        let cp = self.checkpoint;
        let committed = self.committed;
        let mut taken: Option<&'arena mut Arena> = None;
        core::mem::swap(&mut taken, &mut self.arena);
        match taken {
            Some(a) => {
                a.leave_transaction_saturating();
                if !committed {
                    a.rollback_checked(cp);
                }
            },
            None => {},
        }
    }
}


impl<'arena> Transaction<'arena> {
    /// A transaction whose arena stayed well formed, kept its blocks and
    /// whose other fields are unchanged is still well formed.
    proof fn lemma_still_wf(old_t: &Transaction<'arena>, new_t: &Transaction<'arena>)
        requires
            old_t.wf(),
            new_t.is_open(),
            (*new_t.arena->0).wf(),
            old_t.arena_view().keeps_blocks(new_t.arena_view()),
            new_t.same_scope(old_t),
        ensures
            new_t.wf(),
    {
        let j = old_t.checkpoint.block_idx as int;
        assert(new_t.arena_view().blocks[j].capacity == old_t.arena_view().blocks[j].capacity);
    }

    /// Shared access to the backing arena.
    fn arena_ref(&self) -> (a: &Arena)
        requires
            self.is_open(),
        ensures
            *a == *self.arena->0,
    {
        match &self.arena {
            Some(a) => &**a,
            None => vstd::pervasive::unreached(),
        }
    }

    /// Exclusive access to the backing arena. Allocations made through it
    /// take part in rollback but bypass the budget check.
    pub fn arena_mut(&mut self) -> (a: &mut Arena)
        requires
            old(self).is_open(),
        ensures
            *a == *old(self).arena->0,
            final(self).is_open(),
            *final(self).arena->0 == *final(a),
            *final(final(self).arena->0) == *final(old(self).arena->0),
            final(self).same_scope(&*old(self)),
    {
        match &mut self.arena {
            Some(a) => &mut **a,
            None => vstd::pervasive::unreached(),
        }
    }

    /// Open a nested transaction (savepoint) within this one.
    pub fn savepoint(&mut self) -> (t: Transaction<'_>)
        requires
            old(self).wf(),
            old(self).arena_view().txn_depth < usize::MAX,
        ensures
            t.wf(),
            t.arena_view() == old(self).arena_view().with_depth(old(self).arena_view().txn_depth as int + 1),
            t.checkpoint.block_idx == old(self).arena_view().current,
            t.checkpoint.offset == old(self).arena_view().current_block().offset,
            t.checkpoint.bytes_allocated == old(self).arena_view().bytes_allocated(),
            t.bytes_at_open == old(self).arena_view().bytes_allocated(),
            t.depth == old(self).arena_view().txn_depth + 1,
            t.limit is None,
            final(self).is_open(),
            *final(self).arena->0 == *final(t.arena->0),
            *final(final(self).arena->0) == *final(old(self).arena->0),
            final(self).same_scope(&*old(self)),
    {
        Transaction::new(self.arena_mut())
    }

    /// Set a byte budget for this transaction's own allocation methods.
    pub fn set_limit(&mut self, bytes: usize)
        ensures
            final(self).limit == Some(bytes),
            final(self).arena == old(self).arena,
            final(self).checkpoint == old(self).checkpoint,
            final(self).committed == old(self).committed,
            final(self).bytes_at_open == old(self).bytes_at_open,
            final(self).block_at_open == old(self).block_at_open,
            final(self).depth == old(self).depth,
    {
        self.limit = Some(bytes);
    }

    /// Bytes allocated by this transaction since it opened, counting every
    /// allocation in the arena (also those made through
    /// [`arena_mut`](Transaction::arena_mut)).
    pub fn bytes_used(&self) -> (r: usize)
        requires
            self.wf(),
        ensures
            r == self.used(),
    {
        let a = self.arena_ref();
        let s = a.stats();
        s.bytes_allocated.saturating_sub(self.bytes_at_open)
    }

    /// Bytes remaining in the budget, or `None` if no limit is set.
    pub fn budget_remaining(&self) -> (r: Option<usize>)
        requires
            self.wf(),
        ensures
            r == (match self.limit {
                None => None,
                Some(lim) => Some(sat_sub(lim as int, self.used()) as usize),
            }),
    {
        match self.limit {
            None => None,
            Some(lim) => Some(lim.saturating_sub(self.bytes_used())),
        }
    }

    /// Whether `additional` more bytes stay within the budget.
    fn budget_ok(&self, additional: usize) -> (b: bool)
        requires
            self.wf(),
        ensures
            b == self.within_budget(additional as int),
    {
        match self.limit {
            None => true,
            Some(lim) => self.bytes_used().saturating_add(additional) <= lim,
        }
    }

    /// Whether `commit()` has been recorded on this guard.
    pub fn is_committed(&self) -> (b: bool)
        ensures
            b == self.committed,
    {
        self.committed
    }

    /// Nesting depth: 1 for a top-level transaction, 2 for its first
    /// savepoint, and so on.
    pub fn depth(&self) -> (d: usize)
        ensures
            d == self.depth,
    {
        self.depth
    }

    /// Current nesting depth on the backing arena.
    pub fn arena_depth(&self) -> (d: usize)
        requires
            self.is_open(),
        ensures
            d == self.arena_view().txn_depth,
    {
        self.arena_ref().transaction_depth()
    }

    /// The checkpoint this transaction rolls back to.
    pub fn checkpoint(&self) -> (cp: Checkpoint)
        ensures
            cp == self.checkpoint,
    {
        self.checkpoint
    }

    /// Allocation metrics since this transaction opened.
    pub fn diff(&self) -> (d: TxnDiff)
        requires
            self.wf(),
        ensures
            d.bytes_allocated == self.used(),
            d.blocks_touched == sat_sub(self.arena_view().current as int, self.block_at_open as int) + 1,
    {
        let a = self.arena_ref();
        proof {
            a.lemma_view_wf();
            a.lemma_block_count_fits();
        }
        let cp = a.checkpoint();
        TxnDiff {
            bytes_allocated: self.bytes_used(),
            blocks_touched: cp.block_idx.saturating_sub(self.block_at_open) + 1,
        }
    }
}


impl<'arena> Transaction<'arena> {
    /// Low-level allocation of `size` uninitialised bytes at `align`
    /// alignment; see [`Arena::alloc_raw`]. The budget must allow `size`
    /// more bytes.
    pub fn alloc_raw(&mut self, size: usize, align: usize) -> (r: usize)
        requires
            old(self).wf(),
            old(self).within_budget(size as int),
            is_pow2(align as int),
            size > 0 ==> old(self).arena_view().serves(size as int, align as int),
        ensures
            final(self).wf(),
            final(self).same_scope(&*old(self)),
            *final(final(self).arena->0) == *final(old(self).arena->0),
            size == 0 ==> r == DANGLING && final(self).arena_view() == old(self).arena_view(),
            !(size == 0) ==> r == old(self).arena_view().alloc_addr(size as int, align as int)
                && final(self).arena_view() == old(self).arena_view().after_alloc(size as int, align as int),
    {
        let ghost old_t = *self;
        let r = self.arena_mut().alloc_raw(size, align);
        proof {
            (*old_t.arena->0).lemma_view_wf();
            lemma_keeps_all(old_t.arena_view());
        }
        r
    }

    /// Allocate `size` bytes at `align` for zero-filled use; see
    /// [`Arena::alloc_zeroed`]. The budget must allow `size` more bytes.
    pub fn alloc_zeroed(&mut self, size: usize, align: usize) -> (r: ArenaSlice<'_, u8>)
        requires
            old(self).wf(),
            old(self).within_budget(size as int),
            is_pow2(align as int),
            size > 0 ==> old(self).arena_view().serves(size as int, align as int),
        ensures
            final(self).wf(),
            final(self).same_scope(&*old(self)),
            *final(final(self).arena->0) == *final(old(self).arena->0),
            r.items() == zero_bytes(size as int),
            size == 0 ==> r.addr == DANGLING && final(self).arena_view() == old(self).arena_view(),
            !(size == 0) ==> r.addr == old(self).arena_view().alloc_addr(size as int, align as int)
                && final(self).arena_view() == old(self).arena_view().after_alloc(size as int, align as int),
    {
        let addr = self.alloc_raw(size, align);
        ArenaSlice::new(addr, zeros(size))
    }

    /// Allocate `size` bytes aligned to a cache line; see
    /// [`Arena::alloc_cache_aligned`]. The budget must allow `size` more
    /// bytes.
    pub fn alloc_cache_aligned(&mut self, size: usize) -> (r: usize)
        requires
            old(self).wf(),
            old(self).within_budget(size as int),
            size > 0 ==> old(self).arena_view().serves(size as int, CACHE_LINE_SIZE as int),
        ensures
            final(self).wf(),
            final(self).same_scope(&*old(self)),
            *final(final(self).arena->0) == *final(old(self).arena->0),
            size == 0 ==> r == CACHE_LINE_SIZE && final(self).arena_view() == old(self).arena_view(),
            !(size == 0) ==> r == old(self).arena_view().alloc_addr(size as int, CACHE_LINE_SIZE as int)
                && final(self).arena_view() == old(self).arena_view().after_alloc(size as int, CACHE_LINE_SIZE as int),
    {
        let ghost old_t = *self;
        let r = self.arena_mut().alloc_cache_aligned(size);
        proof {
            (*old_t.arena->0).lemma_view_wf();
            lemma_keeps_all(old_t.arena_view());
        }
        r
    }

    /// Allocate a value of type `T`; see [`Arena::alloc_value`]. The budget
    /// must allow `size_of::<T>()` more bytes.
    pub fn alloc_value<T>(&mut self, val: T) -> (r: ArenaBox<'_, T>)
        requires
            old(self).wf(),
            old(self).within_budget(type_size::<T>()),
            type_size::<T>() > 0 ==> old(self).arena_view().serves(type_size::<T>(), type_align::<T>()),
        ensures
            final(self).wf(),
            final(self).same_scope(&*old(self)),
            *final(final(self).arena->0) == *final(old(self).arena->0),
            r.value() == val,
            type_size::<T>() == 0 ==> r.addr == type_align::<T>() && final(self).arena_view() == old(self).arena_view(),
            !(type_size::<T>() == 0) ==> r.addr == old(self).arena_view().alloc_addr(type_size::<T>(), type_align::<T>())
                && final(self).arena_view() == old(self).arena_view().after_alloc(type_size::<T>(), type_align::<T>()),
    {
        let ghost old_t = *self;
        let r = self.arena_mut().alloc_value(val);
        proof {
            (*old_t.arena->0).lemma_view_wf();
            lemma_keeps_all(old_t.arena_view());
        }
        r
    }

    /// Allocate uninitialised space for a `T`; see [`Arena::alloc_uninit`].
    /// The budget must allow `size_of::<T>()` more bytes.
    pub fn alloc_uninit<T>(&mut self) -> (r: ArenaBox<'_, MaybeUninit<T>>)
        requires
            old(self).wf(),
            old(self).within_budget(type_size::<T>()),
            type_size::<T>() > 0 ==> old(self).arena_view().serves(type_size::<T>(), type_align::<T>()),
        ensures
            final(self).wf(),
            final(self).same_scope(&*old(self)),
            *final(final(self).arena->0) == *final(old(self).arena->0),
            type_size::<T>() == 0 ==> r.addr == type_align::<T>() && final(self).arena_view() == old(self).arena_view(),
            !(type_size::<T>() == 0) ==> r.addr == old(self).arena_view().alloc_addr(type_size::<T>(), type_align::<T>())
                && final(self).arena_view() == old(self).arena_view().after_alloc(type_size::<T>(), type_align::<T>()),
    {
        let ghost old_t = *self;
        let r = self.arena_mut().alloc_uninit::<T>();
        proof {
            (*old_t.arena->0).lemma_view_wf();
            lemma_keeps_all(old_t.arena_view());
        }
        r
    }

    /// Allocate a contiguous slice holding `items`; see
    /// [`Arena::alloc_slice`]. The budget must allow the slice's bytes.
    pub fn alloc_slice<T>(&mut self, items: Vec<T>) -> (r: ArenaSlice<'_, T>)
        requires
            old(self).wf(),
            old(self).within_budget(sat_mul(type_size::<T>(), items@.len() as int)),
            type_size::<T>() * items@.len() <= usize::MAX,
            items@.len() > 0 ==> old(self).arena_view().serves(type_size::<T>() * items@.len(), type_align::<T>()),
        ensures
            final(self).wf(),
            final(self).same_scope(&*old(self)),
            *final(final(self).arena->0) == *final(old(self).arena->0),
            r.items() == items@,
            items@.len() == 0 ==> r.addr == type_align::<T>() && final(self).arena_view() == old(self).arena_view(),
            !(items@.len() == 0) ==> r.addr == old(self).arena_view().alloc_addr(type_size::<T>() * items@.len(), type_align::<T>())
                && final(self).arena_view() == old(self).arena_view().after_alloc(type_size::<T>() * items@.len(), type_align::<T>()),
    {
        let ghost old_t = *self;
        let r = self.arena_mut().alloc_slice(items);
        proof {
            (*old_t.arena->0).lemma_view_wf();
            lemma_keeps_all(old_t.arena_view());
        }
        r
    }

    /// Copy the elements of `src` into the arena; see
    /// [`Arena::alloc_slice_copy`]. The budget must allow the slice's bytes.
    pub fn alloc_slice_copy<T: Copy>(&mut self, src: &[T]) -> (r: ArenaSlice<'_, T>)
        requires
            old(self).wf(),
            old(self).within_budget(sat_mul(type_size::<T>(), src@.len() as int)),
            type_size::<T>() * src@.len() <= usize::MAX,
            src@.len() > 0 ==> old(self).arena_view().serves(type_size::<T>() * src@.len(), type_align::<T>()),
        ensures
            final(self).wf(),
            final(self).same_scope(&*old(self)),
            *final(final(self).arena->0) == *final(old(self).arena->0),
            r.items() == src@,
            src@.len() == 0 ==> r.addr == type_align::<T>() && final(self).arena_view() == old(self).arena_view(),
            !(src@.len() == 0) ==> r.addr == old(self).arena_view().alloc_addr(type_size::<T>() * src@.len(), type_align::<T>())
                && final(self).arena_view() == old(self).arena_view().after_alloc(type_size::<T>() * src@.len(), type_align::<T>()),
    {
        let ghost old_t = *self;
        let r = self.arena_mut().alloc_slice_copy(src);
        proof {
            (*old_t.arena->0).lemma_view_wf();
            lemma_keeps_all(old_t.arena_view());
        }
        r
    }

    /// Copy a string into the arena; see [`Arena::alloc_str`]. The budget
    /// must allow the string's bytes.
    pub fn alloc_str(&mut self, s: &str) -> (r: ArenaStr<'_>)
        requires
            old(self).wf(),
            old(self).within_budget(s.len() as int),
            s.len() > 0 ==> old(self).arena_view().serves(s.len() as int, 1),
        ensures
            final(self).wf(),
            final(self).same_scope(&*old(self)),
            *final(final(self).arena->0) == *final(old(self).arena->0),
            r.text@ == s@,
            s.len() == 0 ==> r.addr == DANGLING && final(self).arena_view() == old(self).arena_view(),
            !(s.len() == 0) ==> r.addr == old(self).arena_view().alloc_addr(s.len() as int, 1)
                && final(self).arena_view() == old(self).arena_view().after_alloc(s.len() as int, 1),
    {
        let ghost old_t = *self;
        let r = self.arena_mut().alloc_str(s);
        proof {
            (*old_t.arena->0).lemma_view_wf();
            lemma_keeps_all(old_t.arena_view());
        }
        r
    }

    /// Fallible raw allocation; see [`Arena::try_alloc_raw`]. `None` also
    /// when the budget does not allow `size` more bytes.
    pub fn try_alloc_raw(&mut self, size: usize, align: usize) -> (r: Option<usize>)
        requires
            old(self).wf(),
            is_pow2(align as int),
            size > 0 ==> old(self).arena_view().sizes_ok(size as int, align as int),
        ensures
            final(self).wf(),
            final(self).same_scope(&*old(self)),
            *final(final(self).arena->0) == *final(old(self).arena->0),
            !old(self).within_budget(size as int) ==> r is None && final(self).arena_view() == old(self).arena_view(),
            old(self).within_budget(size as int) && (size == 0) ==> (r matches Some(x) && x == DANGLING) && final(self).arena_view() == old(self).arena_view(),
            old(self).within_budget(size as int) && !(size == 0) ==> match r {
                Some(x) => {
                    &&& old(self).arena_view().can_alloc(size as int, align as int)
                    &&& x == old(self).arena_view().alloc_addr(size as int, align as int)
                    &&& final(self).arena_view() == old(self).arena_view().after_alloc(size as int, align as int)
                },
                None => {
                    &&& !old(self).arena_view().can_alloc(size as int, align as int)
                    &&& final(self).arena_view() == old(self).arena_view().after_failed_alloc(size as int, align as int)
                },
            },
    {
        let ghost old_t = *self;
        if !self.budget_ok(size) {
            return None;
        }
        let r = self.arena_mut().try_alloc_raw(size, align);
        proof {
            (*old_t.arena->0).lemma_view_wf();
            lemma_keeps_all(old_t.arena_view());
        }
        r
    }

    /// Fallible cache-line-aligned allocation; see
    /// [`Arena::try_alloc_cache_aligned`]. `None` also when the budget does
    /// not allow `size` more bytes.
    pub fn try_alloc_cache_aligned(&mut self, size: usize) -> (r: Option<usize>)
        requires
            old(self).wf(),
            size > 0 ==> old(self).arena_view().sizes_ok(size as int, CACHE_LINE_SIZE as int),
        ensures
            final(self).wf(),
            final(self).same_scope(&*old(self)),
            *final(final(self).arena->0) == *final(old(self).arena->0),
            !old(self).within_budget(size as int) ==> r is None && final(self).arena_view() == old(self).arena_view(),
            old(self).within_budget(size as int) && (size == 0) ==> (r matches Some(x) && x == CACHE_LINE_SIZE) && final(self).arena_view() == old(self).arena_view(),
            old(self).within_budget(size as int) && !(size == 0) ==> match r {
                Some(x) => {
                    &&& old(self).arena_view().can_alloc(size as int, CACHE_LINE_SIZE as int)
                    &&& x == old(self).arena_view().alloc_addr(size as int, CACHE_LINE_SIZE as int)
                    &&& final(self).arena_view() == old(self).arena_view().after_alloc(size as int, CACHE_LINE_SIZE as int)
                },
                None => {
                    &&& !old(self).arena_view().can_alloc(size as int, CACHE_LINE_SIZE as int)
                    &&& final(self).arena_view() == old(self).arena_view().after_failed_alloc(size as int, CACHE_LINE_SIZE as int)
                },
            },
    {
        let ghost old_t = *self;
        if !self.budget_ok(size) {
            return None;
        }
        let r = self.arena_mut().try_alloc_cache_aligned(size);
        proof {
            (*old_t.arena->0).lemma_view_wf();
            lemma_keeps_all(old_t.arena_view());
        }
        r
    }

    /// Fallible allocation of a value of type `T`; see
    /// [`Arena::try_alloc`]. `None` also when the budget does not allow
    /// `size_of::<T>()` more bytes.
    pub fn try_alloc<T>(&mut self, val: T) -> (r: Option<ArenaBox<'_, T>>)
        requires
            old(self).wf(),
            type_size::<T>() > 0 ==> old(self).arena_view().sizes_ok(type_size::<T>(), type_align::<T>()),
        ensures
            final(self).wf(),
            final(self).same_scope(&*old(self)),
            *final(final(self).arena->0) == *final(old(self).arena->0),
            !old(self).within_budget(type_size::<T>()) ==> r is None && final(self).arena_view() == old(self).arena_view(),
            old(self).within_budget(type_size::<T>()) && (type_size::<T>() == 0) ==> (r matches Some(x) && x.addr == type_align::<T>() && x.value() == val) && final(self).arena_view() == old(self).arena_view(),
            old(self).within_budget(type_size::<T>()) && !(type_size::<T>() == 0) ==> match r {
                Some(x) => {
                    &&& old(self).arena_view().can_alloc(type_size::<T>(), type_align::<T>())
                    &&& x.addr == old(self).arena_view().alloc_addr(type_size::<T>(), type_align::<T>())
                    &&& final(self).arena_view() == old(self).arena_view().after_alloc(type_size::<T>(), type_align::<T>())
                    &&& x.value() == val
                },
                None => {
                    &&& !old(self).arena_view().can_alloc(type_size::<T>(), type_align::<T>())
                    &&& final(self).arena_view() == old(self).arena_view().after_failed_alloc(type_size::<T>(), type_align::<T>())
                },
            },
    {
        let ghost old_t = *self;
        if !self.budget_ok(core::mem::size_of::<T>()) {
            return None;
        }
        let r = self.arena_mut().try_alloc(val);
        proof {
            (*old_t.arena->0).lemma_view_wf();
            lemma_keeps_all(old_t.arena_view());
        }
        r
    }

    /// Fallible slice allocation; see [`Arena::try_alloc_slice`]. `None`
    /// also when the budget does not allow the slice's bytes.
    pub fn try_alloc_slice<T>(&mut self, items: Vec<T>) -> (r: Option<ArenaSlice<'_, T>>)
        requires
            old(self).wf(),
            type_size::<T>() * items@.len() <= usize::MAX,
            items@.len() > 0 ==> old(self).arena_view().sizes_ok(type_size::<T>() * items@.len(), type_align::<T>()),
        ensures
            final(self).wf(),
            final(self).same_scope(&*old(self)),
            *final(final(self).arena->0) == *final(old(self).arena->0),
            !old(self).within_budget(sat_mul(type_size::<T>(), items@.len() as int)) ==> r is None && final(self).arena_view() == old(self).arena_view(),
            old(self).within_budget(sat_mul(type_size::<T>(), items@.len() as int)) && (items@.len() == 0) ==> (r matches Some(x) && x.addr == type_align::<T>() && x.items() == items@) && final(self).arena_view() == old(self).arena_view(),
            old(self).within_budget(sat_mul(type_size::<T>(), items@.len() as int)) && !(items@.len() == 0) ==> match r {
                Some(x) => {
                    &&& old(self).arena_view().can_alloc(type_size::<T>() * items@.len(), type_align::<T>())
                    &&& x.addr == old(self).arena_view().alloc_addr(type_size::<T>() * items@.len(), type_align::<T>())
                    &&& final(self).arena_view() == old(self).arena_view().after_alloc(type_size::<T>() * items@.len(), type_align::<T>())
                    &&& x.items() == items@
                },
                None => {
                    &&& !old(self).arena_view().can_alloc(type_size::<T>() * items@.len(), type_align::<T>())
                    &&& final(self).arena_view() == old(self).arena_view().after_failed_alloc(type_size::<T>() * items@.len(), type_align::<T>())
                },
            },
    {
        let ghost old_t = *self;
        if !self.budget_ok(size_times(core::mem::size_of::<T>(), items.len())) {
            return None;
        }
        let r = self.arena_mut().try_alloc_slice(items);
        proof {
            (*old_t.arena->0).lemma_view_wf();
            lemma_keeps_all(old_t.arena_view());
        }
        r
    }

    /// Fallible copy of a slice into the arena; see
    /// [`Arena::try_alloc_slice_copy`]. `None` also when the budget does not
    /// allow the slice's bytes.
    pub fn try_alloc_slice_copy<T: Copy>(&mut self, src: &[T]) -> (r: Option<ArenaSlice<'_, T>>)
        requires
            old(self).wf(),
            type_size::<T>() * src@.len() <= usize::MAX,
            src@.len() > 0 ==> old(self).arena_view().sizes_ok(type_size::<T>() * src@.len(), type_align::<T>()),
        ensures
            final(self).wf(),
            final(self).same_scope(&*old(self)),
            *final(final(self).arena->0) == *final(old(self).arena->0),
            !old(self).within_budget(sat_mul(type_size::<T>(), src@.len() as int)) ==> r is None && final(self).arena_view() == old(self).arena_view(),
            old(self).within_budget(sat_mul(type_size::<T>(), src@.len() as int)) && (src@.len() == 0) ==> (r matches Some(x) && x.addr == type_align::<T>() && x.items() == src@) && final(self).arena_view() == old(self).arena_view(),
            old(self).within_budget(sat_mul(type_size::<T>(), src@.len() as int)) && !(src@.len() == 0) ==> match r {
                Some(x) => {
                    &&& old(self).arena_view().can_alloc(type_size::<T>() * src@.len(), type_align::<T>())
                    &&& x.addr == old(self).arena_view().alloc_addr(type_size::<T>() * src@.len(), type_align::<T>())
                    &&& final(self).arena_view() == old(self).arena_view().after_alloc(type_size::<T>() * src@.len(), type_align::<T>())
                    &&& x.items() == src@
                },
                None => {
                    &&& !old(self).arena_view().can_alloc(type_size::<T>() * src@.len(), type_align::<T>())
                    &&& final(self).arena_view() == old(self).arena_view().after_failed_alloc(type_size::<T>() * src@.len(), type_align::<T>())
                },
            },
    {
        let ghost old_t = *self;
        if !self.budget_ok(size_times(core::mem::size_of::<T>(), src.len())) {
            return None;
        }
        let r = self.arena_mut().try_alloc_slice_copy(src);
        proof {
            (*old_t.arena->0).lemma_view_wf();
            lemma_keeps_all(old_t.arena_view());
        }
        r
    }

    /// Fallible string allocation; see [`Arena::try_alloc_str`]. `None`
    /// also when the budget does not allow the string's bytes.
    pub fn try_alloc_str(&mut self, s: &str) -> (r: Option<ArenaStr<'_>>)
        requires
            old(self).wf(),
            s.len() > 0 ==> old(self).arena_view().sizes_ok(s.len() as int, 1),
        ensures
            final(self).wf(),
            final(self).same_scope(&*old(self)),
            *final(final(self).arena->0) == *final(old(self).arena->0),
            !old(self).within_budget(s.len() as int) ==> r is None && final(self).arena_view() == old(self).arena_view(),
            old(self).within_budget(s.len() as int) && (s.len() == 0) ==> (r matches Some(x) && x.addr == DANGLING && x.text@ == s@) && final(self).arena_view() == old(self).arena_view(),
            old(self).within_budget(s.len() as int) && !(s.len() == 0) ==> match r {
                Some(x) => {
                    &&& old(self).arena_view().can_alloc(s.len() as int, 1)
                    &&& x.addr == old(self).arena_view().alloc_addr(s.len() as int, 1)
                    &&& final(self).arena_view() == old(self).arena_view().after_alloc(s.len() as int, 1)
                    &&& x.text@ == s@
                },
                None => {
                    &&& !old(self).arena_view().can_alloc(s.len() as int, 1)
                    &&& final(self).arena_view() == old(self).arena_view().after_failed_alloc(s.len() as int, 1)
                },
            },
    {
        let ghost old_t = *self;
        if !self.budget_ok(s.len()) {
            return None;
        }
        let r = self.arena_mut().try_alloc_str(s);
        proof {
            (*old_t.arena->0).lemma_view_wf();
            lemma_keeps_all(old_t.arena_view());
        }
        r
    }
}

/// `a * b`, stopping at `usize::MAX`.
fn size_times(a: usize, b: usize) -> (r: usize)
    ensures
        r == sat_mul(a as int, b as int),
{
    match a.checked_mul(b) {
        Some(v) => v,
        None => usize::MAX,
    }
}


impl Arena {
    /// Open a [`Transaction`] on this arena.
    pub fn transaction(&mut self) -> (t: Transaction<'_>)
        requires
            old(self).wf(),
            old(self)@.txn_depth < usize::MAX,
        ensures
            t.wf(),
            t.arena_view() == old(self)@.with_depth(old(self)@.txn_depth as int + 1),
            *final(t.arena->0) == *final(self),
            t.checkpoint.block_idx == old(self)@.current,
            t.checkpoint.offset == old(self)@.current_block().offset,
            t.checkpoint.bytes_allocated == old(self)@.bytes_allocated(),
            t.bytes_at_open == old(self)@.bytes_allocated(),
            t.block_at_open == old(self)@.current,
            t.depth == old(self)@.txn_depth + 1,
            t.limit is None,
            !t.committed,
    {
        Transaction::new(self)
    }

    /// Run `f` inside a transaction: an `Ok` result commits the transaction,
    /// an `Err` result rolls it back (see [`Transaction::conclude`]). Returns
    /// what `f` returned.
    ///
    /// When `f` leaves the transaction open on its arena, well formed, at the
    /// depth it found it and with its checkpoint still valid (as every method
    /// of [`Transaction`] does), the arena afterwards is well formed at its
    /// old depth; on `Ok` it is the arena `f` left, and on `Err` its bytes in
    /// use are those before the call.
    pub fn with_transaction<F, T, E>(&mut self, f: F) -> (r: Result<T, E>)
        where
            F: FnOnce(&mut Transaction<'_>) -> Result<T, E>,
        requires
            old(self).wf(),
            old(self)@.txn_depth < usize::MAX,
            forall|t: &mut Transaction<'_>| call_requires(f, (t,)),
        ensures
            exists|t: &mut Transaction<'_>| #[trigger] call_ensures(f, (t,), r),
            (forall|t: &mut Transaction<'_>, res: Result<T, E>| #[trigger] call_ensures(f, (t,), res) ==> {
                &&& (*final(t)).wf()
                &&& (*final(t)).same_scope(&*t)
                &&& *final((*final(t)).arena->0) == *final((*t).arena->0)
                &&& (*final(t)).arena_view().txn_depth == (*t).arena_view().txn_depth
                &&& (*t).arena_view().valid_checkpoint((*t).checkpoint) ==> (*final(t)).arena_view().valid_checkpoint(
                    (*t).checkpoint,
                )
            }) ==> {
                &&& final(self).wf()
                &&& final(self)@.txn_depth == old(self)@.txn_depth
                &&& r is Err ==> final(self)@.bytes_allocated() == old(self)@.bytes_allocated()
                &&& r is Ok ==> exists|t: &mut Transaction<'_>| {
                    &&& #[trigger] call_ensures(f, (t,), r)
                    &&& (*t).arena_view() == old(self)@.with_depth(old(self)@.txn_depth as int + 1)
                    &&& final(self)@ == (*final(t)).arena_view().with_depth(old(self)@.txn_depth as int)
                }
            },
    {
        let mut txn = Transaction::new(self);
        proof {
            (*txn.arena->0).lemma_view_wf();
            crate::laws::law_checkpoint_valid(txn.arena_view(), txn.checkpoint);
        }
        let result = f(&mut txn);
        proof {
            if txn.wf() {
                (*txn.arena->0).lemma_view_wf();
                if txn.arena_view().valid_checkpoint(txn.checkpoint) {
                    crate::laws::law_rollback_restores(&txn);
                }
            }
        }
        txn.conclude(result)
    }

    /// Run `f` inside a transaction that is committed once `f` returns.
    /// Returns what `f` returned.
    ///
    /// When `f` leaves the transaction open on its arena, well formed and at
    /// the depth it found it, the arena afterwards is the arena `f` left, well
    /// formed and at its old depth.
    ///
    /// Panics are not caught here: if `f` panics, the transaction guard is
    /// dropped while unwinding and rolls the transaction back, so the work of
    /// a panicking `f` is not kept. A caller that needs it kept catches the
    /// unwind around `f`, commits, and raises it again.
    pub fn with_transaction_infallible<F, T>(&mut self, f: F) -> (r: T)
        where
            F: FnOnce(&mut Transaction<'_>) -> T,
        requires
            old(self).wf(),
            old(self)@.txn_depth < usize::MAX,
            forall|t: &mut Transaction<'_>| call_requires(f, (t,)),
        ensures
            exists|t: &mut Transaction<'_>| #[trigger] call_ensures(f, (t,), r),
            (forall|t: &mut Transaction<'_>, res: T| #[trigger] call_ensures(f, (t,), res) ==> {
                &&& (*final(t)).wf()
                &&& (*final(t)).same_scope(&*t)
                &&& *final((*final(t)).arena->0) == *final((*t).arena->0)
                &&& (*final(t)).arena_view().txn_depth == (*t).arena_view().txn_depth
                &&& (*t).arena_view().valid_checkpoint((*t).checkpoint) ==> (*final(t)).arena_view().valid_checkpoint(
                    (*t).checkpoint,
                )
            }) ==> {
                &&& final(self).wf()
                &&& final(self)@.txn_depth == old(self)@.txn_depth
                &&& exists|t: &mut Transaction<'_>| {
                    &&& #[trigger] call_ensures(f, (t,), r)
                    &&& (*t).arena_view() == old(self)@.with_depth(old(self)@.txn_depth as int + 1)
                    &&& final(self)@ == (*final(t)).arena_view().with_depth(old(self)@.txn_depth as int)
                }
            },
    {
        let mut txn = Transaction::new(self);
        let result = f(&mut txn);
        txn.commit();
        result
    }
}

} // verus!
