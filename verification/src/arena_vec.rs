//! `ArenaVec`: a growable vector whose storage is taken from an arena.
use vstd::prelude::*;

use crate::arena::Arena;
use crate::boxed::ArenaSlice;
use crate::model::ArenaView;
use crate::typed::{type_align, type_size};

verus! {

/// Error returned by [`ArenaVec::try_reserve`] and the other fallible
/// growth operations.
#[derive(Debug, Clone, Copy, PartialEq, Eq)]
pub enum TryReserveError {
    /// The computed capacity, in elements or in bytes, overflows `usize`.
    CapacityOverflow,
    /// The arena cannot supply the storage.
    AllocError,
}

impl TryReserveError {
    /// A description of the error.
    pub fn message(&self) -> (m: &'static str)
        ensures
            m@ == (match self {
                TryReserveError::CapacityOverflow => "capacity overflow: requested size exceeds usize::MAX"@,
                TryReserveError::AllocError => "arena out of memory"@,
            }),
    {
        match self {
            TryReserveError::CapacityOverflow => "capacity overflow: requested size exceeds usize::MAX",
            TryReserveError::AllocError => "arena out of memory",
        }
    }
}

/// An append-only growable vector whose storage is taken from an arena.
///
/// Elements `0..capacity` have one arena allocation. Growth takes a larger
/// allocation from the arena and leaves the old one behind; the arena
/// reclaims both on reset. The first growth by a push takes room for four
/// elements, later ones double the capacity. A zero-sized element type takes
/// no storage; its capacity is only recorded.
pub struct ArenaVec<'arena, T> {
    /// The arena the storage comes from.
    pub arena: &'arena mut Arena,
    /// Address of the storage in the arena (the element type's alignment
    /// until storage is first taken).
    pub addr: usize,
    /// The elements.
    pub items: Vec<T>,
    /// Elements the current storage holds.
    pub cap: usize,
}

/// The storage-relevant state of an arena-backed vector.
pub struct VecState {
    /// Number of elements.
    pub len: nat,
    /// Elements the storage holds.
    pub cap: nat,
    /// Address of the storage.
    pub addr: int,
    /// The model of the backing arena.
    pub arena: ArenaView,
}

/// The capacity a full vector grows to on a push.
pub open spec fn grow_target(cap: int) -> int {
    if cap == 0 {
        4
    } else {
        2 * cap
    }
}

/// Bytes of storage for `cap` elements of `T`.
pub open spec fn bytes_for<T>(cap: int) -> int {
    cap * type_size::<T>()
}

/// Taking storage for `new_cap` elements fits in `usize` and the arena can
/// serve it (always, for a zero-sized element type).
pub open spec fn can_resize<T>(s: VecState, new_cap: int) -> bool {
    type_size::<T>() == 0 || (bytes_for::<T>(new_cap) <= usize::MAX && s.arena.serves(
        bytes_for::<T>(new_cap),
        type_align::<T>(),
    ))
}

/// The state after taking storage for `new_cap` elements: a zero-sized
/// element type only records the capacity.
pub open spec fn resized<T>(s: VecState, new_cap: int) -> VecState {
    if type_size::<T>() == 0 {
        VecState { cap: new_cap as nat, ..s }
    } else {
        VecState {
            cap: new_cap as nat,
            addr: s.arena.alloc_addr(bytes_for::<T>(new_cap), type_align::<T>()),
            arena: s.arena.after_alloc(bytes_for::<T>(new_cap), type_align::<T>()),
            ..s
        }
    }
}

/// A push can be served: when the vector is full, its grown capacity and
/// storage fit.
pub open spec fn push_ok<T>(s: VecState) -> bool {
    s.len == s.cap ==> grow_target(s.cap as int) <= usize::MAX && can_resize::<T>(s, grow_target(s.cap as int))
}

/// The state after one push: grown first when full.
pub open spec fn push_state<T>(s: VecState) -> VecState {
    let g = if s.len == s.cap {
        resized::<T>(s, grow_target(s.cap as int))
    } else {
        s
    };
    VecState { len: g.len + 1, ..g }
}

/// `k` pushes in a row can be served.
pub open spec fn pushes_ok<T>(s: VecState, k: nat) -> bool
    decreases k,
{
    k == 0 || (push_ok::<T>(s) && pushes_ok::<T>(push_state::<T>(s), (k - 1) as nat))
}

/// The state after `k` pushes in a row.
pub open spec fn after_pushes<T>(s: VecState, k: nat) -> VecState
    decreases k,
{
    if k == 0 {
        s
    } else {
        after_pushes::<T>(push_state::<T>(s), (k - 1) as nat)
    }
}

impl<'arena, T> ArenaVec<'arena, T> {
    /// The vector is backed by a well-formed arena, and the elements of a
    /// sized element type fit the capacity.
    pub open spec fn wf(&self) -> bool {
        &&& self.arena.wf()
        &&& type_size::<T>() > 0 ==> self.items@.len() <= self.cap
    }

    /// The model of the backing arena.
    pub open spec fn arena_view(&self) -> ArenaView {
        (*self.arena)@
    }

    /// The storage-relevant state.
    pub open spec fn state(&self) -> VecState {
        VecState { len: self.items@.len(), cap: self.cap as nat, addr: self.addr as int, arena: self.arena_view() }
    }

    /// Create an empty vector. No storage is taken until the first growth.
    pub fn new(arena: &'arena mut Arena) -> (v: ArenaVec<'arena, T>)
        requires
            old(arena).wf(),
        ensures
            v.wf(),
            v.items@.len() == 0,
            v.cap == 0,
            v.addr == type_align::<T>(),
            *v.arena == *old(arena),
            *final(v.arena) == *final(arena),
    {
        vstd::layout::layout_for_type_is_valid::<T>();
        ArenaVec { arena, addr: core::mem::align_of::<T>(), items: Vec::new(), cap: 0 }
    }

    /// Create a vector with storage for `cap` elements taken up front.
    pub fn with_capacity(arena: &'arena mut Arena, cap: usize) -> (v: ArenaVec<'arena, T>)
        requires
            old(arena).wf(),
            cap > 0 ==> can_resize::<T>(
                VecState { len: 0, cap: 0, addr: type_align::<T>(), arena: (*old(arena))@ },
                cap as int,
            ),
        ensures
            v.wf(),
            v.items@.len() == 0,
            *final(v.arena) == *final(arena),
            cap > 0 ==> v.state() == resized::<T>(
                VecState { len: 0, cap: 0, addr: type_align::<T>(), arena: (*old(arena))@ },
                cap as int,
            ),
            cap == 0 ==> v.state() == (VecState { len: 0, cap: 0, addr: type_align::<T>(), arena: (*old(arena))@ }),
    {
        let mut v = ArenaVec::new(arena);
        vstd::layout::layout_for_type_is_valid::<T>();
        if cap > 0 && core::mem::size_of::<T>() > 0 {
            v.grow_to(cap);
        } else if core::mem::size_of::<T>() == 0 {
            v.cap = cap;
        }
        v
    }

    /// Takes storage for `new_cap` elements and moves the elements over (a
    /// zero-sized element type only records the capacity).
    fn grow_to(&mut self, new_cap: usize)
        requires
            old(self).wf(),
            new_cap >= old(self).items@.len(),
            can_resize::<T>(old(self).state(), new_cap as int),
        ensures
            final(self).wf(),
            final(self).items@ == old(self).items@,
            final(self).state() == resized::<T>(old(self).state(), new_cap as int),
            *final(final(self).arena) == *final(old(self).arena),
    {
        vstd::layout::layout_for_type_is_valid::<T>();
        let size = core::mem::size_of::<T>();
        if size == 0 {
            self.cap = new_cap;
            return;
        }
        let bytes = new_cap * size;
        let align = core::mem::align_of::<T>();
        match self.arena.try_alloc_raw_inner(bytes, align) {
            Some(addr) => {
                self.addr = addr;
                self.cap = new_cap;
            },
            None => {
                proof {
                    assert(false);
                }
            },
        }
    }

    /// Fallible [`grow_to`](ArenaVec::grow_to): `CapacityOverflow` when the
    /// storage's bytes overflow `usize`, `AllocError`, with only the arena's
    /// growth policy moved on, when the arena cannot supply them.
    fn try_grow_to(&mut self, new_cap: usize) -> (r: Result<(), TryReserveError>)
        requires
            old(self).wf(),
            new_cap >= old(self).items@.len(),
            type_size::<T>() > 0 && bytes_for::<T>(new_cap as int) <= usize::MAX ==> old(self).arena_view().sizes_ok(
                bytes_for::<T>(new_cap as int),
                type_align::<T>(),
            ),
        ensures
            final(self).wf(),
            final(self).items@ == old(self).items@,
            *final(final(self).arena) == *final(old(self).arena),
            match r {
                Ok(()) => {
                    &&& can_resize::<T>(old(self).state(), new_cap as int)
                    &&& final(self).state() == resized::<T>(old(self).state(), new_cap as int)
                },
                Err(TryReserveError::CapacityOverflow) => {
                    &&& type_size::<T>() > 0
                    &&& bytes_for::<T>(new_cap as int) > usize::MAX
                    &&& final(self).state() == old(self).state()
                },
                Err(TryReserveError::AllocError) => {
                    &&& type_size::<T>() > 0
                    &&& bytes_for::<T>(new_cap as int) <= usize::MAX
                    &&& !old(self).arena_view().can_alloc(bytes_for::<T>(new_cap as int), type_align::<T>())
                    &&& final(self).state() == (VecState {
                        arena: old(self).arena_view().after_failed_alloc(
                            bytes_for::<T>(new_cap as int),
                            type_align::<T>(),
                        ),
                        ..old(self).state()
                    })
                },
            },
    {
        vstd::layout::layout_for_type_is_valid::<T>();
        let size = core::mem::size_of::<T>();
        if size == 0 {
            self.cap = new_cap;
            return Ok(());
        }
        let bytes = match new_cap.checked_mul(size) {
            Some(b) => b,
            None => {
                return Err(TryReserveError::CapacityOverflow);
            },
        };
        let align = core::mem::align_of::<T>();
        match self.arena.try_alloc_raw_inner(bytes, align) {
            Some(addr) => {
                self.addr = addr;
                self.cap = new_cap;
                Ok(())
            },
            None => Err(TryReserveError::AllocError),
        }
    }

    /// Grows a full vector to [`grow_target`] of its capacity.
    fn grow(&mut self)
        requires
            old(self).wf(),
            old(self).items@.len() == old(self).cap,
            push_ok::<T>(old(self).state()),
        ensures
            final(self).wf(),
            final(self).items@ == old(self).items@,
            final(self).state() == resized::<T>(old(self).state(), grow_target(old(self).cap as int)),
            *final(final(self).arena) == *final(old(self).arena),
    {
        let new_cap = if self.cap == 0 {
            4
        } else {
            self.cap * 2
        };
        self.grow_to(new_cap);
    }

    /// Append `val`, growing first when full.
    pub fn push(&mut self, val: T)
        requires
            old(self).wf(),
            push_ok::<T>(old(self).state()),
        ensures
            final(self).wf(),
            final(self).items@ == old(self).items@.push(val),
            final(self).state() == push_state::<T>(old(self).state()),
            *final(final(self).arena) == *final(old(self).arena),
    {
        if self.items.len() == self.cap {
            self.grow();
        }
        self.items.push(val);
    }

    /// Number of elements.
    pub fn len(&self) -> (n: usize)
        ensures
            n == self.items@.len(),
    {
        self.items.len()
    }

    /// Whether there are no elements.
    pub fn is_empty(&self) -> (b: bool)
        ensures
            b == (self.items@.len() == 0),
    {
        self.items.len() == 0
    }

    /// Elements the current storage holds.
    pub fn capacity(&self) -> (c: usize)
        ensures
            c == self.cap,
    {
        self.cap
    }
}


impl<'arena, T> ArenaVec<'arena, T> {
    /// Fallible [`grow`](ArenaVec::grow): `CapacityOverflow` when doubling
    /// the capacity overflows.
    fn try_grow(&mut self) -> (r: Result<(), TryReserveError>)
        requires
            old(self).wf(),
            old(self).items@.len() == old(self).cap,
            grow_target(old(self).cap as int) <= usize::MAX && type_size::<T>() > 0 && bytes_for::<T>(
                grow_target(old(self).cap as int),
            ) <= usize::MAX ==> old(self).arena_view().sizes_ok(
                bytes_for::<T>(grow_target(old(self).cap as int)),
                type_align::<T>(),
            ),
        ensures
            final(self).wf(),
            final(self).items@ == old(self).items@,
            *final(final(self).arena) == *final(old(self).arena),
            r is Ok ==> push_ok::<T>(old(self).state()) && final(self).state() == resized::<T>(
                old(self).state(),
                grow_target(old(self).cap as int),
            ),
            r is Err ==> if grow_target(old(self).cap as int) > usize::MAX {
                r == Err::<(), TryReserveError>(TryReserveError::CapacityOverflow)
                    && final(self).state() == old(self).state()
            } else {
                type_size::<T>() > 0 && Self::grow_result(
                    old(self).state(),
                    grow_target(old(self).cap as int),
                    r,
                    final(self).state(),
                )
            },
    {
        vstd::layout::layout_for_type_is_valid::<T>();
        let new_cap = if self.cap == 0 {
            4
        } else {
            match self.cap.checked_mul(2) {
                Some(c) => c,
                None => {
                    return Err(TryReserveError::CapacityOverflow);
                },
            }
        };
        self.try_grow_to(new_cap)
    }

    /// Try to append `val`, growing first when full; hands `val` back when
    /// the growth fails.
    pub fn try_push(&mut self, val: T) -> (r: Result<(), T>)
        requires
            old(self).wf(),
            old(self).items@.len() == old(self).cap && grow_target(old(self).cap as int) <= usize::MAX
                && type_size::<T>() > 0 && bytes_for::<T>(grow_target(old(self).cap as int)) <= usize::MAX
                ==> old(self).arena_view().sizes_ok(
                bytes_for::<T>(grow_target(old(self).cap as int)),
                type_align::<T>(),
            ),
        ensures
            final(self).wf(),
            *final(final(self).arena) == *final(old(self).arena),
            match r {
                Ok(()) => {
                    &&& push_ok::<T>(old(self).state())
                    &&& final(self).items@ == old(self).items@.push(val)
                    &&& final(self).state() == push_state::<T>(old(self).state())
                },
                Err(v) => {
                    &&& v == val
                    &&& final(self).items@ == old(self).items@
                    &&& old(self).items@.len() == old(self).cap
                    &&& if grow_target(old(self).cap as int) > usize::MAX {
                        final(self).state() == old(self).state()
                    } else {
                        exists|e: TryReserveError| Self::grow_result(
                            old(self).state(),
                            grow_target(old(self).cap as int),
                            Err(e),
                            final(self).state(),
                        )
                    }
                },
            },
    {
        if self.items.len() == self.cap {
            match self.try_grow() {
                Ok(()) => {},
                Err(_) => {
                    return Err(val);
                },
            }
        }
        self.items.push(val);
        Ok(())
    }

    /// Remove and return the last element, or `None` if empty.
    pub fn pop(&mut self) -> (r: Option<T>)
        requires
            old(self).wf(),
        ensures
            final(self).wf(),
            *final(final(self).arena) == *final(old(self).arena),
            old(self).items@.len() == 0 ==> r is None && final(self).items@ == old(self).items@,
            old(self).items@.len() > 0 ==> r == Some(old(self).items@.last()) && final(self).items@
                == old(self).items@.drop_last(),
            final(self).cap == old(self).cap,
            final(self).addr == old(self).addr,
            final(self).arena_view() == old(self).arena_view(),
    {
        self.items.pop()
    }

    /// Remove all elements, keeping the storage.
    pub fn clear(&mut self)
        requires
            old(self).wf(),
        ensures
            final(self).wf(),
            *final(final(self).arena) == *final(old(self).arena),
            final(self).items@.len() == 0,
            final(self).cap == old(self).cap,
            final(self).addr == old(self).addr,
            final(self).arena_view() == old(self).arena_view(),
    {
        self.items.clear();
    }

    /// Append all of `items`, taking storage for exactly the new length up
    /// front when it exceeds the capacity.
    pub fn extend_exact(&mut self, items: Vec<T>)
        requires
            old(self).wf(),
            old(self).items@.len() + items@.len() <= usize::MAX,
            items@.len() > 0 && type_size::<T>() > 0 && old(self).items@.len() + items@.len() > old(self).cap
                ==> can_resize::<T>(old(self).state(), (old(self).items@.len() + items@.len()) as int),
        ensures
            final(self).wf(),
            *final(final(self).arena) == *final(old(self).arena),
            final(self).items@ == old(self).items@ + items@,
            if items@.len() > 0 && type_size::<T>() > 0 && old(self).items@.len() + items@.len() > old(self).cap {
                final(self).state() == (VecState {
                    len: (old(self).items@.len() + items@.len()) as nat,
                    ..resized::<T>(old(self).state(), (old(self).items@.len() + items@.len()) as int)
                })
            } else {
                final(self).state() == (VecState { len: (old(self).items@.len() + items@.len()) as nat, ..old(self).state() })
            },
    {
        vstd::layout::layout_for_type_is_valid::<T>();
        let add_len = items.len();
        if add_len > 0 {
            let new_len = self.items.len() + add_len;
            if core::mem::size_of::<T>() > 0 && new_len > self.cap {
                self.grow_to(new_len);
            }
            let mut other = items;
            self.items.append(&mut other);
        }
    }

    /// Copy the elements of `slice` onto the end, taking storage for exactly
    /// the new length up front when it exceeds the capacity.
    pub fn extend_from_slice(&mut self, slice: &[T])
        where
            T: Copy,
        requires
            old(self).wf(),
            old(self).items@.len() + slice@.len() <= usize::MAX,
            slice@.len() > 0 && type_size::<T>() > 0 && old(self).items@.len() + slice@.len() > old(self).cap
                ==> can_resize::<T>(old(self).state(), (old(self).items@.len() + slice@.len()) as int),
        ensures
            final(self).wf(),
            *final(final(self).arena) == *final(old(self).arena),
            final(self).items@ == old(self).items@ + slice@,
            if slice@.len() > 0 && type_size::<T>() > 0 && old(self).items@.len() + slice@.len() > old(self).cap {
                final(self).state() == (VecState {
                    len: (old(self).items@.len() + slice@.len()) as nat,
                    ..resized::<T>(old(self).state(), (old(self).items@.len() + slice@.len()) as int)
                })
            } else {
                final(self).state() == (VecState { len: (old(self).items@.len() + slice@.len()) as nat, ..old(self).state() })
            },
    {
        let items = crate::typed::copy_slice(slice);
        self.extend_exact(items);
    }

    /// Append all of `items` one push at a time.
    pub fn extend(&mut self, items: Vec<T>)
        requires
            old(self).wf(),
            pushes_ok::<T>(old(self).state(), items@.len()),
        ensures
            final(self).wf(),
            *final(final(self).arena) == *final(old(self).arena),
            final(self).items@ == old(self).items@ + items@,
            final(self).state() == after_pushes::<T>(old(self).state(), items@.len()),
    {
        let ghost start = self.state();
        let ghost old_items = self.items@;
        let n = items.len();
        // Reverse the order once, so that popping yields the items front to back.
        let mut src = items;
        let mut rev: Vec<T> = Vec::new();
        while src.len() > 0
            invariant
                src@ + rev@.reverse() == items@,
            decreases src@.len(),
        {
            let ghost before_src = src@;
            let ghost before_rev = rev@;
            match src.pop() {
                Some(x) => {
                    rev.push(x);
                    proof {
                        assert(rev@.reverse() =~= seq![x] + before_rev.reverse());
                        assert(src@ + rev@.reverse() =~= before_src + before_rev.reverse());
                    }
                },
                None => {},
            }
        }
        proof {
            assert(src@ =~= Seq::<T>::empty());
            assert(rev@.reverse() =~= items@);
        }
        let mut i: usize = 0;
        while rev.len() > 0
            invariant
                self.wf(),
                i + rev@.len() == n,
                n == items@.len(),
                rev@.reverse() == items@.subrange(i as int, n as int),
                self.items@ == old_items + items@.subrange(0, i as int),
                pushes_ok::<T>(self.state(), (n - i) as nat),
                after_pushes::<T>(self.state(), (n - i) as nat) == after_pushes::<T>(start, n as nat),
                *final(self.arena) == *final(old(self).arena),
            decreases rev@.len(),
        {
            let ghost before_rev = rev@;
            match rev.pop() {
                Some(x) => {
                    proof {
                        assert(x == items@[i as int]) by {
                            assert(before_rev.reverse()[0] == before_rev[before_rev.len() - 1]);
                        }
                    }
                    self.push(x);
                    i = i + 1;
                    proof {
                        assert(rev@.reverse() =~= items@.subrange(i as int, n as int)) by {
                            assert(rev@ =~= before_rev.drop_last());
                            assert forall|k: int| 0 <= k < rev@.len() implies rev@.reverse()[k] == items@.subrange(i as int, n as int)[k] by {
                                assert(before_rev.reverse()[k + 1] == items@.subrange(i - 1, n as int)[k + 1]);
                            }
                        }
                        assert(self.items@ =~= old_items + items@.subrange(0, i as int));
                    }
                },
                None => {},
            }
        }
        proof {
            assert(items@.subrange(0, n as int) =~= items@);
        }
    }

    /// Ensure room for at least `additional` more elements; the storage is
    /// taken for exactly the new length when it exceeds the capacity. The new
    /// length must fit in `usize`.
    pub fn reserve(&mut self, additional: usize)
        requires
            old(self).wf(),
            old(self).items@.len() + additional <= usize::MAX,
            old(self).items@.len() + additional > old(self).cap ==> can_resize::<T>(
                old(self).state(),
                old(self).items@.len() + additional,
            ),
        ensures
            final(self).wf(),
            *final(final(self).arena) == *final(old(self).arena),
            final(self).items@ == old(self).items@,
            old(self).items@.len() + additional > old(self).cap ==> final(self).state() == resized::<T>(
                old(self).state(),
                old(self).items@.len() + additional,
            ),
            old(self).items@.len() + additional <= old(self).cap ==> final(self).state() == old(self).state(),
    {
        let required = self.items.len() + additional;
        if required > self.cap {
            self.grow_to(required);
        }
    }

    /// Ensure room for exactly `additional` more elements.
    pub fn reserve_exact(&mut self, additional: usize)
        requires
            old(self).wf(),
            old(self).items@.len() + additional <= usize::MAX,
            old(self).items@.len() + additional > old(self).cap ==> can_resize::<T>(
                old(self).state(),
                old(self).items@.len() + additional,
            ),
        ensures
            final(self).wf(),
            *final(final(self).arena) == *final(old(self).arena),
            final(self).items@ == old(self).items@,
            old(self).items@.len() + additional > old(self).cap ==> final(self).state() == resized::<T>(
                old(self).state(),
                old(self).items@.len() + additional,
            ),
            old(self).items@.len() + additional <= old(self).cap ==> final(self).state() == old(self).state(),
    {
        let required = self.items.len() + additional;
        if required > self.cap {
            self.grow_to(required);
        }
    }

    /// Fallible [`reserve_exact`](ArenaVec::reserve_exact):
    /// `CapacityOverflow` when the length or the storage's bytes overflow,
    /// `AllocError` when the arena cannot supply the storage.
    pub fn try_reserve_exact(&mut self, additional: usize) -> (r: Result<(), TryReserveError>)
        requires
            old(self).wf(),
            old(self).items@.len() + additional <= usize::MAX && old(self).items@.len() + additional > old(self).cap
                && type_size::<T>() > 0 && bytes_for::<T>(old(self).items@.len() + additional) <= usize::MAX
                ==> old(self).arena_view().sizes_ok(
                bytes_for::<T>(old(self).items@.len() + additional),
                type_align::<T>(),
            ),
        ensures
            final(self).wf(),
            *final(final(self).arena) == *final(old(self).arena),
            final(self).items@ == old(self).items@,
            old(self).items@.len() + additional > usize::MAX ==> r == Err::<(), TryReserveError>(
                TryReserveError::CapacityOverflow,
            ) && final(self).state() == old(self).state(),
            old(self).items@.len() + additional <= old(self).cap ==> r is Ok && final(self).state()
                == old(self).state(),
            old(self).cap < old(self).items@.len() + additional <= usize::MAX ==> Self::grow_result(
                old(self).state(),
                old(self).items@.len() + additional,
                r,
                final(self).state(),
            ),
    {
        let required = match self.items.len().checked_add(additional) {
            Some(v) => v,
            None => {
                return Err(TryReserveError::CapacityOverflow);
            },
        };
        if required > self.cap {
            self.try_grow_to(required)
        } else {
            Ok(())
        }
    }

    /// Fallible [`reserve`](ArenaVec::reserve): `CapacityOverflow` when the
    /// new length or the storage's bytes overflow `usize`, `AllocError` when
    /// the arena cannot supply the storage.
    pub fn try_reserve(&mut self, additional: usize) -> (r: Result<(), TryReserveError>)
        requires
            old(self).wf(),
            old(self).items@.len() + additional <= usize::MAX && old(self).items@.len() + additional > old(self).cap
                && type_size::<T>() > 0 && bytes_for::<T>(old(self).items@.len() + additional) <= usize::MAX
                ==> old(self).arena_view().sizes_ok(
                bytes_for::<T>(old(self).items@.len() + additional),
                type_align::<T>(),
            ),
        ensures
            final(self).wf(),
            *final(final(self).arena) == *final(old(self).arena),
            final(self).items@ == old(self).items@,
            old(self).items@.len() + additional > usize::MAX ==> r == Err::<(), TryReserveError>(
                TryReserveError::CapacityOverflow,
            ) && final(self).state() == old(self).state(),
            old(self).items@.len() + additional <= old(self).cap ==> r is Ok && final(self).state()
                == old(self).state(),
            old(self).cap < old(self).items@.len() + additional <= usize::MAX ==> Self::grow_result(
                old(self).state(),
                old(self).items@.len() + additional,
                r,
                final(self).state(),
            ),
    {
        let required = match self.items.len().checked_add(additional) {
            Some(v) => v,
            None => {
                return Err(TryReserveError::CapacityOverflow);
            },
        };
        if required > self.cap {
            self.try_grow_to(required)
        } else {
            Ok(())
        }
    }

    /// What taking storage for `new_cap` elements fallibly gives: `Ok` and
    /// the resized state; `CapacityOverflow` and no change when the bytes
    /// overflow; `AllocError` and only the arena's growth policy moved on when
    /// the arena cannot supply them.
    pub open spec fn grow_result(s: VecState, new_cap: int, r: Result<(), TryReserveError>, next: VecState) -> bool {
        match r {
            Ok(()) => can_resize::<T>(s, new_cap) && next == resized::<T>(s, new_cap),
            Err(TryReserveError::CapacityOverflow) => type_size::<T>() > 0 && bytes_for::<T>(new_cap) > usize::MAX
                && next == s,
            Err(TryReserveError::AllocError) => {
                &&& type_size::<T>() > 0
                &&& bytes_for::<T>(new_cap) <= usize::MAX
                &&& !s.arena.can_alloc(bytes_for::<T>(new_cap), type_align::<T>())
                &&& next == (VecState {
                    arena: s.arena.after_failed_alloc(bytes_for::<T>(new_cap), type_align::<T>()),
                    ..s
                })
            },
        }
    }

    /// The elements as a slice.
    pub fn as_slice(&self) -> (s: &[T])
        ensures
            s@ == self.items@,
    {
        self.items.as_slice()
    }

    /// The elements as a mutable slice.
    pub fn as_mut_slice(&mut self) -> (s: &mut [T])
        ensures
            s@ == old(self).items@,
            final(self).items@ == final(s)@,
            final(self).cap == old(self).cap,
            final(self).addr == old(self).addr,
            final(self).arena == old(self).arena,
    {
        self.items.as_mut_slice()
    }

    /// Element `i`, or `None` when out of bounds.
    pub fn get(&self, i: usize) -> (r: Option<&T>)
        ensures
            i < self.items@.len() ==> r == Some(&self.items@[i as int]),
            i >= self.items@.len() ==> r is None,
    {
        if i < self.items.len() {
            Some(&self.items[i])
        } else {
            None
        }
    }

    /// Hand the elements over to the arena's lifetime: the slice lives as
    /// long as the arena borrow the vector was made from.
    pub fn finish(self) -> (s: ArenaSlice<'arena, T>)
        ensures
            s.addr == self.addr,
            s.items() == self.items@,
            *final(self.arena) == *old(self.arena),
    {
        ArenaSlice::new(self.addr, self.items)
    }

    /// An owning iterator over the elements, front to back.
    pub fn into_iter(self) -> (it: ArenaVecIntoIter<'arena, T>)
        ensures
            it.remaining() == self.items@,
            *final(self.arena) == *old(self.arena),
    {
        let mut src = self.items;
        let ghost all = src@;
        let mut rev: Vec<T> = Vec::new();
        while src.len() > 0
            invariant
                src@ + rev@.reverse() == all,
            decreases src@.len(),
        {
            let ghost before_src = src@;
            let ghost before_rev = rev@;
            match src.pop() {
                Some(x) => {
                    rev.push(x);
                    proof {
                        assert(rev@.reverse() =~= seq![x] + before_rev.reverse());
                        assert(src@ + rev@.reverse() =~= before_src + before_rev.reverse());
                    }
                },
                None => {},
            }
        }
        proof {
            assert(src@ =~= Seq::<T>::empty());
            assert(rev@.reverse() =~= all);
        }
        ArenaVecIntoIter { rest: rev, marker: core::marker::PhantomData }
    }
}

impl<'arena, T> core::ops::Deref for ArenaVec<'arena, T> {
    type Target = [T];

    fn deref(&self) -> (s: &[T])
        ensures
            s@ == self.items@,
    {
        self.items.as_slice()
    }
}

/// Owning iterator over an [`ArenaVec`]: yields the elements front to back.
pub struct ArenaVecIntoIter<'arena, T> {
    /// The elements not yet yielded, last one first.
    pub rest: Vec<T>,
    pub marker: core::marker::PhantomData<&'arena Arena>,
}

impl<'arena, T> ArenaVecIntoIter<'arena, T> {
    /// The elements not yet yielded, in order.
    pub open spec fn remaining(&self) -> Seq<T> {
        self.rest@.reverse()
    }

    /// The next element, or `None` when all were yielded.
    pub fn next(&mut self) -> (r: Option<T>)
        ensures
            old(self).remaining().len() == 0 ==> r is None && final(self).remaining() == old(self).remaining(),
            old(self).remaining().len() > 0 ==> r == Some(old(self).remaining()[0])
                && final(self).remaining() == old(self).remaining().drop_first(),
    {
        let r = self.rest.pop();
        proof {
            if old(self).rest@.len() > 0 {
                assert(final(self).remaining() =~= old(self).remaining().drop_first());
            }
        }
        r
    }

    /// Number of elements not yet yielded.
    pub fn len(&self) -> (n: usize)
        ensures
            n == self.remaining().len(),
    {
        self.rest.len()
    }
}

} // verus!
