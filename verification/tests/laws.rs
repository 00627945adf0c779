// Concrete instances of what holds across operations: alignment and
// disjointness of allocations, checkpoints and rewind, reset, reserved
// memory, block sizing, transactions.

use fastarena::{Arena, ArenaStats, ArenaVec, Block, Checkpoint, TryReserveError, TxnStatus, CACHE_LINE_SIZE, DANGLING};

#[test]
fn allocations_are_aligned_and_disjoint() {
    let mut arena = Arena::with_capacity(256);
    let requests: [(usize, usize); 10] = [
        (1, 1),
        (8, 8),
        (3, 2),
        (100, 16),
        (64, 64),
        (5, 128),
        (300, 8),
        (7, 4),
        (1000, 32),
        (16, 256),
    ];
    let mut ranges: Vec<(usize, usize)> = Vec::new();
    for (size, align) in requests {
        let p = arena.alloc_raw(size, align);
        assert_eq!(p % align, 0);
        for &(q, n) in &ranges {
            assert!(p + size <= q || q + n <= p, "ranges overlap");
        }
        ranges.push((p, size));
    }
}

#[test]
fn bytes_in_use_grow_by_size_and_padding() {
    let mut arena = Arena::new();
    let _ = arena.alloc_raw(1, 1);
    assert_eq!(arena.stats().bytes_allocated, 1);
    let _ = arena.alloc_raw(8, 8);
    // 7 bytes of padding, then 8 bytes
    assert_eq!(arena.stats().bytes_allocated, 16);
}

#[test]
fn zero_size_request_is_dangling_and_free() {
    let mut arena = Arena::new();
    let before = arena.stats();
    assert_eq!(arena.alloc_raw(0, 8), DANGLING);
    assert_eq!(arena.try_alloc_raw(0, 8), Some(DANGLING));
    assert_eq!(arena.stats(), before);
}

#[test]
fn rewind_then_same_request_reuses_address() {
    let mut arena = Arena::new();
    let _ = arena.alloc_raw(24, 8);
    let cp = arena.checkpoint();
    let a = arena.alloc_raw(40, 16);
    arena.rewind(cp);
    let b = arena.alloc_raw(40, 16);
    assert_eq!(a, b);
}

#[test]
fn rewind_to_fresh_checkpoint_changes_nothing() {
    let mut arena = Arena::with_capacity(64);
    for _ in 0..10 {
        let _ = arena.alloc_raw(24, 8);
    }
    let before = arena.stats();
    let cp = arena.checkpoint();
    arena.rewind(cp);
    assert_eq!(arena.stats(), before);
    assert_eq!(arena.checkpoint(), cp);
}

#[test]
fn rewind_restores_checkpoint_count_across_blocks() {
    let mut arena = Arena::with_capacity(64);
    let _ = arena.alloc_raw(10, 1);
    let cp = arena.checkpoint();
    for _ in 0..20 {
        let _ = arena.alloc_raw(48, 8);
    }
    let reserved = arena.stats().bytes_reserved;
    let blocks = arena.block_count();
    arena.rewind(cp);
    assert_eq!(arena.stats().bytes_allocated, cp.bytes_allocated);
    assert_eq!(arena.stats().bytes_allocated, 10);
    assert_eq!(arena.stats().bytes_reserved, reserved);
    assert_eq!(arena.block_count(), blocks);
}

#[test]
fn earlier_checkpoint_survives_later_rewind() {
    let mut arena = Arena::with_capacity(64);
    let _ = arena.alloc_raw(16, 8);
    let outer = arena.checkpoint();
    for _ in 0..5 {
        let _ = arena.alloc_raw(40, 8);
    }
    let inner = arena.checkpoint();
    for _ in 0..5 {
        let _ = arena.alloc_raw(40, 8);
    }
    arena.rewind(inner);
    assert_eq!(arena.stats().bytes_allocated, inner.bytes_allocated);
    arena.rewind(outer);
    assert_eq!(arena.stats().bytes_allocated, outer.bytes_allocated);
    assert_eq!(arena.stats().bytes_allocated, 16);
}

#[test]
fn reset_is_rewind_to_start() {
    let mut a = Arena::with_capacity(64);
    let mut b = Arena::with_capacity(64);
    let start = b.checkpoint();
    assert_eq!(
        start,
        Checkpoint { block_idx: 0, offset: 0, bytes_allocated: 0 }
    );
    for i in 1..30usize {
        let _ = a.alloc_raw(i, 8);
        let _ = b.alloc_raw(i, 8);
    }
    a.reset();
    b.rewind(start);
    assert_eq!(a.stats(), b.stats());
    assert_eq!(a.stats().bytes_allocated, 0);
    assert_eq!(a.alloc_raw(8, 8), b.alloc_raw(8, 8));
}

#[test]
fn reserved_bytes_never_shrink() {
    let mut arena = Arena::with_capacity(64);
    let mut last = arena.stats().bytes_reserved;
    let cp = arena.checkpoint();
    for i in 0..40usize {
        let _ = arena.alloc_raw(8 + i, 8);
        let now = arena.stats().bytes_reserved;
        assert!(now >= last);
        last = now;
    }
    arena.rewind(cp);
    assert_eq!(arena.stats().bytes_reserved, last);
    arena.reset();
    assert_eq!(arena.stats().bytes_reserved, last);
    assert!(arena.stats().bytes_allocated <= arena.stats().bytes_reserved);
}

#[test]
fn new_block_sizes_follow_growth_policy() {
    let mut arena = Arena::with_capacity(64);
    assert_eq!(arena.stats().bytes_reserved, 64);
    // next size 128; worst case 107 -> block of 128
    let _ = arena.alloc_raw(100, 8);
    assert_eq!(arena.block_count(), 2);
    assert_eq!(arena.block_capacity(1), 128);
    // next size 192; worst case 207 -> block of 256
    let _ = arena.alloc_raw(200, 8);
    assert_eq!(arena.block_count(), 3);
    assert_eq!(arena.block_capacity(2), 256);
    assert_eq!(arena.stats().bytes_reserved, 64 + 128 + 256);
}

#[test]
fn large_request_gets_block_of_its_worst_case() {
    let mut arena = Arena::with_capacity(64);
    let size = 20 * 1024 * 1024;
    let p = arena.alloc_raw(size, 16);
    assert_eq!(p % 16, 0);
    assert_eq!(arena.block_capacity(1), size + 15);
}

#[test]
fn over_aligned_request_opens_own_block() {
    let mut arena = Arena::new();
    let _ = arena.alloc_raw(8, 8);
    let p = arena.alloc_raw(8, 128);
    assert_eq!(p % 128, 0);
    assert_eq!(arena.block_count(), 2);
}

#[test]
fn retained_blocks_are_reused_after_rewind() {
    let mut arena = Arena::with_capacity(64);
    let cp = arena.checkpoint();
    for _ in 0..10 {
        let _ = arena.alloc_raw(48, 8);
    }
    let blocks = arena.block_count();
    arena.rewind(cp);
    for _ in 0..10 {
        let _ = arena.alloc_raw(48, 8);
    }
    assert_eq!(arena.block_count(), blocks);
}

#[test]
fn cache_aligned_allocation() {
    let mut arena = Arena::new();
    let _ = arena.alloc_raw(3, 1);
    let p = arena.alloc_cache_aligned(10);
    assert_eq!(p % CACHE_LINE_SIZE, 0);
    assert_eq!(arena.try_alloc_cache_aligned(0), Some(CACHE_LINE_SIZE));
    assert_eq!(arena.alloc_cache_aligned(0) % 64, 0);
}

#[test]
fn try_alloc_raw_none_when_address_space_exhausted() {
    let mut arena = Arena::new();
    let before = arena.stats();
    assert_eq!(arena.try_alloc_raw(usize::MAX - 64, 1), None);
    assert_eq!(arena.stats(), before);
}

#[test]
fn open_then_rollback_leaves_arena_as_found() {
    let mut arena = Arena::with_capacity(64);
    let _ = arena.alloc_raw(20, 4);
    let before = arena.stats();
    let cp = arena.checkpoint();
    let txn = arena.transaction();
    assert_eq!(txn.rollback(), TxnStatus::RolledBack);
    assert_eq!(arena.stats(), before);
    assert_eq!(arena.checkpoint(), cp);
    assert_eq!(arena.transaction_depth(), 0);
}

#[test]
fn rollback_restores_count_commit_keeps_it() {
    let mut arena = Arena::with_capacity(64);
    let mut txn = arena.transaction();
    for _ in 0..10 {
        let _ = txn.alloc_raw(30, 8);
    }
    let used = txn.bytes_used();
    assert!(used >= 300);
    assert_eq!(txn.rollback(), TxnStatus::RolledBack);
    assert_eq!(arena.stats().bytes_allocated, 0);

    let mut txn = arena.transaction();
    for _ in 0..10 {
        let _ = txn.alloc_raw(30, 8);
    }
    let kept = txn.arena_mut().stats().bytes_allocated;
    assert_eq!(txn.commit(), TxnStatus::Committed);
    assert_eq!(arena.stats().bytes_allocated, kept);
    assert_eq!(arena.transaction_depth(), 0);
}

#[test]
fn budget_refuses_exactly_past_the_limit() {
    let mut arena = Arena::new();
    let mut txn = arena.transaction();
    txn.set_limit(32);
    assert!(txn.try_alloc_raw(16, 8).is_some());
    assert!(txn.try_alloc_raw(16, 8).is_some());
    assert_eq!(txn.budget_remaining(), Some(0));
    let before = txn.bytes_used();
    assert_eq!(txn.try_alloc_raw(1, 1), None);
    assert_eq!(txn.bytes_used(), before);
    txn.commit();
}

#[test]
fn stats_idle_bytes() {
    let s = ArenaStats { bytes_allocated: 10, bytes_reserved: 64, block_count: 1 };
    assert_eq!(s.bytes_idle(), 54);
    let t = ArenaStats { bytes_allocated: 70, bytes_reserved: 64, block_count: 1 };
    assert_eq!(t.bytes_idle(), 0);
    let mut arena = Arena::with_capacity(100);
    let _ = arena.alloc_raw(40, 1);
    assert_eq!(arena.stats().bytes_idle(), 60);
}

#[test]
fn default_arena_is_new_arena() {
    let a = Arena::default();
    let b = Arena::new();
    assert_eq!(a.stats(), b.stats());
    assert_eq!(a.stats().bytes_reserved, 64 * 1024);
}

#[test]
fn try_reserve_error_messages() {
    assert_eq!(
        TryReserveError::CapacityOverflow.message(),
        "capacity overflow: requested size exceeds usize::MAX"
    );
    assert_eq!(TryReserveError::AllocError.message(), "arena out of memory");
}

#[test]
fn block_reset_then_same_request_lands_at_start() {
    let mut b = Block::new(128);
    let first = b.try_alloc(8, 8).unwrap();
    let _ = b.try_alloc(24, 8);
    b.reset();
    assert_eq!(b.remaining(), 128);
    assert_eq!(b.try_alloc(8, 8).unwrap(), first);
}

#[test]
fn request_beyond_isize_max_is_refused() {
    let mut a = Arena::new();
    let _ = a.alloc_value(1u64);
    assert_eq!(a.stats().bytes_allocated, 8);
    assert_eq!(a.try_alloc_raw(1usize << 63, 8), None);
    assert_eq!(a.stats().bytes_allocated, 8);
    assert_eq!(a.block_count(), 1);
}

#[test]
fn try_reserve_overflow_for_zero_sized_elements() {
    let mut a = Arena::new();
    let mut v: ArenaVec<()> = ArenaVec::new(&mut a);
    v.push(());
    let c = v.capacity();
    assert_eq!(v.try_reserve(usize::MAX), Err(TryReserveError::CapacityOverflow));
    assert_eq!(v.capacity(), c);
}

#[test]
fn dropped_transaction_rolls_back_and_keeps_blocks() {
    let mut a = Arena::with_capacity(64);
    let b = a.stats().bytes_allocated;
    {
        let mut t = a.transaction();
        for _ in 0..25 {
            let _ = t.alloc_value(0u64);
        }
        assert!(t.diff().blocks_touched >= 2);
    }
    assert_eq!(a.stats().bytes_allocated, b);
    assert_eq!(a.transaction_depth(), 0);
    assert!(a.block_count() >= 2);
}

#[test]
fn dropped_savepoint_keeps_outer_work() {
    let mut a = Arena::with_capacity(64);
    let mut outer = a.transaction();
    let _ = outer.alloc_value(100u64);
    let u = outer.bytes_used();
    assert_eq!(u, 8);
    {
        let mut sp = outer.savepoint();
        for _ in 0..25 {
            let _ = sp.alloc_value(0u64);
        }
    }
    assert_eq!(outer.bytes_used(), u);
    assert_eq!(outer.arena_depth(), 1);
    outer.commit();
}

#[test]
fn arena_mut_bypasses_budget_and_still_rolls_back() {
    let mut a = Arena::new();
    {
        let mut t = a.transaction();
        t.set_limit(0);
        let _ = t.arena_mut().alloc_value(5u64);
        assert_eq!(t.bytes_used(), 8);
    }
    assert_eq!(a.stats().bytes_allocated, 0);
}

#[test]
fn with_transaction_restores_depth_and_bytes() {
    let mut a = Arena::new();
    let r: Result<u32, &str> = a.with_transaction(|t| Ok(*t.alloc_value(21u32) * 2));
    assert_eq!(r, Ok(42));
    assert_eq!(a.transaction_depth(), 0);
    let kept = a.stats().bytes_allocated;
    assert_eq!(kept, 4);
    let r: Result<u32, &str> = a.with_transaction(|t| {
        let _ = t.alloc_value(1u64);
        Err("abort")
    });
    assert_eq!(r, Err("abort"));
    assert_eq!(a.stats().bytes_allocated, kept);
    assert_eq!(a.transaction_depth(), 0);
}

#[test]
fn standalone_block_respects_layout_limit() {
    assert!(Block::try_new(isize::MAX as usize + 1).is_none());
    assert!(Block::try_new(usize::MAX - 64).is_none());
    let b = Block::try_new(isize::MAX as usize - 7).unwrap();
    assert_eq!(b.capacity, isize::MAX as usize - 7);
    assert!(Block::try_new(isize::MAX as usize - 6).is_none());
}

#[test]
fn align_up_powers_of_two() {
    assert_eq!(fastarena::align_up(5, 4), 8);
    assert_eq!(fastarena::align_up(4096, 4096), 4096);
    assert_eq!(fastarena::align_up(4097, 4096), 8192);
}

#[test]
fn align_up_mask_for_other_alignments() {
    // (5 + 2) & !2 == 5
    assert_eq!(fastarena::align_up(5, 3), 5);
}
