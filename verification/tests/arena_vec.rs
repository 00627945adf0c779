// ArenaVec: growth, order, finishing, destructors, and the list / repeat
// construction forms written out as pushes and exact extensions.

use std::cell::Cell;
use std::rc::Rc;

use fastarena::{Arena, ArenaVec, TryReserveError};

struct D(Rc<Cell<usize>>);

impl Drop for D {
    fn drop(&mut self) {
        self.0.set(self.0.get() + 1);
    }
}

#[test]
fn arena_vec_push_and_index() {
    let mut arena = Arena::new();
    let mut v = ArenaVec::new(&mut arena);
    for i in 0u32..8 {
        v.push(i);
    }
    for i in 0u32..8 {
        assert_eq!(v[i as usize], i);
    }
}

#[test]
fn arena_vec_pop_order() {
    let mut arena = Arena::new();
    let mut v = ArenaVec::new(&mut arena);
    v.push(1u32);
    v.push(2);
    v.push(3);
    assert_eq!(v.pop(), Some(3));
    assert_eq!(v.pop(), Some(2));
    assert_eq!(v.pop(), Some(1));
    assert_eq!(v.pop(), None);
}

#[test]
fn arena_vec_finish_slice() {
    let mut arena = Arena::new();
    let items = {
        let mut v = ArenaVec::new(&mut arena);
        v.extend((0u32..5).collect::<Vec<u32>>());
        v.finish().into_vec()
    };
    assert_eq!(items.as_slice(), &[0, 1, 2, 3, 4]);
    let _ = arena.alloc_value(99u32);
}

#[test]
fn arena_vec_grow_many() {
    let mut arena = Arena::new();
    let mut v = ArenaVec::new(&mut arena);
    for i in 0u64..256 {
        v.push(i);
    }
    for i in 0u64..256 {
        assert_eq!(v[i as usize], i);
    }
}

#[test]
fn arena_vec_with_capacity_no_realloc() {
    let mut arena = Arena::new();
    let mut v = ArenaVec::<u64>::with_capacity(&mut arena, 16);
    let cap0 = v.capacity();
    for i in 0u64..16 {
        v.push(i);
    }
    assert_eq!(v.capacity(), cap0);
    v.finish();
}

#[test]
fn arena_vec_drop_runs_dtors() {
    let n = Rc::new(Cell::new(0usize));
    {
        let mut arena = Arena::new();
        let mut v = ArenaVec::new(&mut arena);
        v.push(D(n.clone()));
        v.push(D(n.clone()));
        v.push(D(n.clone()));
    }
    assert_eq!(n.get(), 3);
}

#[test]
fn arena_vec_finish_skips_dtors() {
    let n = Rc::new(Cell::new(0usize));
    let mut arena = Arena::new();
    let v = {
        let mut av = ArenaVec::new(&mut arena);
        av.push(D(n.clone()));
        av.push(D(n.clone()));
        av.finish()
    };
    assert_eq!(n.get(), 0);
    let _ = v;
}

#[test]
fn arena_vec_zst_push() {
    let mut arena = Arena::new();
    let mut v: ArenaVec<()> = ArenaVec::new(&mut arena);
    for _ in 0..1000 {
        v.push(());
    }
    assert_eq!(v.len(), 1000);
}

#[test]
#[should_panic]
fn arena_vec_oob_panics() {
    let mut arena = Arena::new();
    let mut v = ArenaVec::new(&mut arena);
    v.push(1u32);
    let _ = v[1];
}

#[test]
fn into_iter_yields_forward_order() {
    let mut arena = Arena::new();
    let mut v = ArenaVec::new(&mut arena);
    v.push(1u32);
    v.push(2);
    v.push(3);
    let mut it = v.into_iter();
    let mut collected: Vec<u32> = Vec::new();
    while let Some(x) = it.next() {
        collected.push(x);
    }
    assert_eq!(collected, &[1, 2, 3]);
}

// ---------------------------------------------------------------------------
// List and repeat construction
// ---------------------------------------------------------------------------

#[test]
fn macro_empty() {
    let mut arena = Arena::new();
    let v: ArenaVec<u32> = ArenaVec::new(&mut arena);
    assert!(v.is_empty());
    assert_eq!(v.len(), 0);
}

#[test]
fn macro_list() {
    let mut arena = Arena::new();
    let mut v = ArenaVec::new(&mut arena);
    v.push(1u32);
    v.push(2);
    v.push(3);
    assert_eq!(v.len(), 3);
    assert_eq!(v[0], 1);
    assert_eq!(v[1], 2);
    assert_eq!(v[2], 3);
}

#[test]
fn macro_list_trailing_comma() {
    let mut arena = Arena::new();
    let mut v = ArenaVec::new(&mut arena);
    v.push(10u64);
    v.push(20);
    v.push(30);
    assert_eq!(v.as_slice(), &[10, 20, 30]);
}

#[test]
fn macro_list_single_element() {
    let mut arena = Arena::new();
    let mut v = ArenaVec::new(&mut arena);
    v.push(42u8);
    assert_eq!(v.len(), 1);
    assert_eq!(v[0], 42);
}

#[test]
fn macro_repeat() {
    let mut arena = Arena::new();
    let mut v = ArenaVec::with_capacity(&mut arena, 5);
    v.extend_exact(vec![7u32; 5]);
    assert_eq!(v.len(), 5);
    assert_eq!(v.as_slice(), &[7, 7, 7, 7, 7]);
}

#[test]
fn macro_repeat_zero() {
    let mut arena = Arena::new();
    let mut v = ArenaVec::with_capacity(&mut arena, 0);
    v.extend_exact(vec![0u32; 0]);
    assert!(v.is_empty());
}

#[test]
fn macro_repeat_expression_count() {
    let mut arena = Arena::new();
    let n = 8usize;
    let mut v = ArenaVec::with_capacity(&mut arena, n);
    v.extend_exact(vec![1u32; n]);
    assert_eq!(v.len(), 8);
}

#[test]
fn macro_list_with_finish() {
    let mut arena = Arena::new();
    let mut v = ArenaVec::new(&mut arena);
    v.push(1u32);
    v.push(2);
    v.push(3);
    let slice = v.finish();
    assert_eq!(slice.as_slice(), &[1, 2, 3]);
}

#[test]
fn macro_with_transaction() {
    let mut arena = Arena::new();
    let mut txn = arena.transaction();
    {
        let mut v = ArenaVec::new(txn.arena_mut());
        v.push(10u32);
        v.push(20);
        v.push(30);
        assert_eq!(v.as_slice(), &[10, 20, 30]);
    }
    txn.commit();
}

#[test]
fn macro_strings() {
    let mut arena = Arena::new();
    let mut v = ArenaVec::new(&mut arena);
    v.push("hello".to_string());
    v.push("world".to_string());
    assert_eq!(v[0], "hello");
    assert_eq!(v[1], "world");
}

#[test]
fn macro_repeat_string() {
    let mut arena = Arena::new();
    let mut v = ArenaVec::with_capacity(&mut arena, 3);
    v.extend_exact(vec!["x".to_string(); 3]);
    assert_eq!(v.as_slice(), &["x", "x", "x"]);
}

// ---------------------------------------------------------------------------
// Capacity growth and reservation
// ---------------------------------------------------------------------------

#[test]
fn arena_vec_first_growth_is_four_then_doubles() {
    let mut arena = Arena::new();
    let mut v = ArenaVec::new(&mut arena);
    assert_eq!(v.capacity(), 0);
    v.push(1u64);
    assert_eq!(v.capacity(), 4);
    for i in 0u64..4 {
        v.push(i);
    }
    assert_eq!(v.capacity(), 8);
}

#[test]
fn arena_vec_reserve_exact_and_reserve() {
    let mut arena = Arena::new();
    let mut v: ArenaVec<u32> = ArenaVec::new(&mut arena);
    v.reserve_exact(10);
    assert_eq!(v.capacity(), 10);
    v.reserve(11);
    assert_eq!(v.capacity(), 11);
    v.reserve(5);
    assert_eq!(v.capacity(), 11);
}

#[test]
fn arena_vec_try_reserve_overflow() {
    let mut arena = Arena::new();
    let mut v: ArenaVec<u64> = ArenaVec::new(&mut arena);
    v.push(1);
    assert_eq!(v.try_reserve_exact(usize::MAX), Err(TryReserveError::CapacityOverflow));
    assert_eq!(v.try_reserve(usize::MAX), Err(TryReserveError::CapacityOverflow));
    assert_eq!(v.len(), 1);
}

#[test]
fn arena_vec_try_reserve_alloc_error() {
    let mut arena = Arena::new();
    let mut v: ArenaVec<u64> = ArenaVec::new(&mut arena);
    // The byte size fits a usize; no block of that size fits the address space.
    let huge = usize::MAX / 8;
    assert_eq!(v.try_reserve_exact(huge), Err(TryReserveError::AllocError));
    assert_eq!(v.capacity(), 0);
}

#[test]
fn arena_vec_try_push_ok() {
    let mut arena = Arena::new();
    let mut v = ArenaVec::new(&mut arena);
    assert_eq!(v.try_push(5u8), Ok(()));
    assert_eq!(v.as_slice(), &[5]);
}

#[test]
fn arena_vec_clear_keeps_capacity() {
    let mut arena = Arena::new();
    let mut v = ArenaVec::new(&mut arena);
    v.extend_from_slice(&[1u16, 2, 3]);
    let cap = v.capacity();
    v.clear();
    assert!(v.is_empty());
    assert_eq!(v.capacity(), cap);
    assert_eq!(v.get(0), None);
}

#[test]
fn arena_vec_growth_counts_bytes() {
    let mut arena = Arena::new();
    {
        let mut v = ArenaVec::new(&mut arena);
        for i in 0u64..5 {
            v.push(i);
        }
        v.finish();
    }
    // capacity 4 (32 bytes), then 8 (64 bytes)
    assert_eq!(arena.stats().bytes_allocated, 96);
}

#[test]
fn arena_values_are_not_dropped_by_handles() {
    let n = Rc::new(Cell::new(0usize));
    let mut arena = Arena::new();
    {
        let _b = arena.alloc_value(D(n.clone()));
    }
    {
        let _s = arena.alloc_slice(vec![D(n.clone()), D(n.clone())]);
    }
    assert_eq!(n.get(), 0);
    let b = arena.alloc_value(D(n.clone()));
    drop(b.into_inner());
    assert_eq!(n.get(), 1);
}
