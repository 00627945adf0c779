//! Typed allocation: values, slices and strings placed in an arena by the
//! layout of their type.
use vstd::prelude::*;

use core::mem::MaybeUninit;

use crate::arena::Arena;
use crate::boxed::{ArenaBox, ArenaSlice, ArenaStr};
use crate::layout::is_pow2;
use crate::model::DANGLING;

verus! {

/// Size in bytes of a `T`.
pub open spec fn type_size<T>() -> int {
    vstd::layout::size_of::<T>() as int
}

/// Alignment in bytes of a `T`.
pub open spec fn type_align<T>() -> int {
    vstd::layout::align_of::<T>() as int
}

impl Arena {
    /// Allocate a value of type `T`.
    ///
    /// A zero-sized `T` takes no space and is placed at its type's alignment.
    pub fn alloc_value<T>(&mut self, val: T) -> (b: ArenaBox<'_, T>)
        requires
            old(self).wf(),
            type_size::<T>() > 0 ==> old(self)@.serves(type_size::<T>(), type_align::<T>()),
        ensures
            final(self).wf(),
            b.value() == val,
            type_size::<T>() == 0 ==> b.addr == type_align::<T>() && final(self)@ == old(self)@,
            type_size::<T>() > 0 ==> b.addr == old(self)@.alloc_addr(type_size::<T>(), type_align::<T>())
                && final(self)@ == old(self)@.after_alloc(type_size::<T>(), type_align::<T>()),
    {
        vstd::layout::layout_for_type_is_valid::<T>();
        let size = core::mem::size_of::<T>();
        let align = core::mem::align_of::<T>();
        if size == 0 {
            return ArenaBox::new(align, val);
        }
        match self.try_alloc_raw_inner(size, align) {
            Some(addr) => ArenaBox::new(addr, val),
            None => {
                proof {
                    assert(false);
                }
                ArenaBox::new(DANGLING, val)
            },
        }
    }

    /// Fallible variant of [`alloc_value`](Arena::alloc_value): `None`, with only the
    /// growth policy moved on, when a new block would not fit in the address
    /// space.
    pub fn try_alloc<T>(&mut self, val: T) -> (r: Option<ArenaBox<'_, T>>)
        requires
            old(self).wf(),
            type_size::<T>() > 0 ==> old(self)@.sizes_ok(type_size::<T>(), type_align::<T>()),
        ensures
            final(self).wf(),
            type_size::<T>() == 0 ==> (r matches Some(b) && b.value() == val && b.addr == type_align::<T>()
                && final(self)@ == old(self)@),
            type_size::<T>() > 0 ==> match r {
                Some(b) => {
                    &&& old(self)@.can_alloc(type_size::<T>(), type_align::<T>())
                    &&& b.value() == val
                    &&& b.addr == old(self)@.alloc_addr(type_size::<T>(), type_align::<T>())
                    &&& final(self)@ == old(self)@.after_alloc(type_size::<T>(), type_align::<T>())
                },
                None => {
                    &&& !old(self)@.can_alloc(type_size::<T>(), type_align::<T>())
                    &&& final(self)@ == old(self)@.after_failed_alloc(
                        type_size::<T>(),
                        type_align::<T>(),
                    )
                },
            },
    {
        vstd::layout::layout_for_type_is_valid::<T>();
        let size = core::mem::size_of::<T>();
        let align = core::mem::align_of::<T>();
        if size == 0 {
            return Some(ArenaBox::new(align, val));
        }
        match self.try_alloc_raw_inner(size, align) {
            Some(addr) => Some(ArenaBox::new(addr, val)),
            None => None,
        }
    }

    /// Allocate an owned value from the arena; the same placement as
    /// [`alloc_value`](Arena::alloc_value).
    pub fn alloc_box<T>(&mut self, val: T) -> (b: ArenaBox<'_, T>)
        requires
            old(self).wf(),
            type_size::<T>() > 0 ==> old(self)@.serves(type_size::<T>(), type_align::<T>()),
        ensures
            final(self).wf(),
            b.value() == val,
            type_size::<T>() == 0 ==> b.addr == type_align::<T>() && final(self)@ == old(self)@,
            type_size::<T>() > 0 ==> b.addr == old(self)@.alloc_addr(type_size::<T>(), type_align::<T>())
                && final(self)@ == old(self)@.after_alloc(type_size::<T>(), type_align::<T>()),
    {
        self.alloc_value(val)
    }

    /// Allocate space for a `T` without initialising it.
    pub fn alloc_uninit<T>(&mut self) -> (b: ArenaBox<'_, MaybeUninit<T>>)
        requires
            old(self).wf(),
            type_size::<T>() > 0 ==> old(self)@.serves(type_size::<T>(), type_align::<T>()),
        ensures
            final(self).wf(),
            type_size::<T>() == 0 ==> b.addr == type_align::<T>() && final(self)@ == old(self)@,
            type_size::<T>() > 0 ==> b.addr == old(self)@.alloc_addr(type_size::<T>(), type_align::<T>())
                && final(self)@ == old(self)@.after_alloc(type_size::<T>(), type_align::<T>()),
    {
        vstd::layout::layout_for_type_is_valid::<T>();
        let size = core::mem::size_of::<T>();
        let align = core::mem::align_of::<T>();
        if size == 0 {
            return ArenaBox::new(align, MaybeUninit::uninit());
        }
        match self.try_alloc_raw_inner(size, align) {
            Some(addr) => ArenaBox::new(addr, MaybeUninit::uninit()),
            None => {
                proof {
                    assert(false);
                }
                ArenaBox::new(DANGLING, MaybeUninit::uninit())
            },
        }
    }

    /// Allocate a contiguous slice holding `items`.
    ///
    /// An empty slice takes no space and is placed at its element type's
    /// alignment.
    pub fn alloc_slice<T>(&mut self, items: Vec<T>) -> (s: ArenaSlice<'_, T>)
        requires
            old(self).wf(),
            type_size::<T>() * items@.len() <= usize::MAX,
            items@.len() > 0 ==> old(self)@.serves(type_size::<T>() * items@.len(), type_align::<T>()),
        ensures
            final(self).wf(),
            s.items() == items@,
            items@.len() == 0 ==> s.addr == type_align::<T>() && final(self)@ == old(self)@,
            items@.len() > 0 ==> s.addr == old(self)@.alloc_addr(type_size::<T>() * items@.len(), type_align::<T>())
                && final(self)@ == old(self)@.after_alloc(type_size::<T>() * items@.len(), type_align::<T>()),
    {
        vstd::layout::layout_for_type_is_valid::<T>();
        let size = core::mem::size_of::<T>();
        let align = core::mem::align_of::<T>();
        let len = items.len();
        if len == 0 {
            return ArenaSlice::new(align, items);
        }
        let total = size * len;
        match self.try_alloc_raw_inner(total, align) {
            Some(addr) => ArenaSlice::new(addr, items),
            None => {
                proof {
                    assert(false);
                }
                ArenaSlice::new(DANGLING, items)
            },
        }
    }

    /// Fallible variant of [`alloc_slice`](Arena::alloc_slice): `None` when
    /// the total size overflows, or when a new block would not fit in the
    /// address space.
    pub fn try_alloc_slice<T>(&mut self, items: Vec<T>) -> (r: Option<ArenaSlice<'_, T>>)
        requires
            old(self).wf(),
            items@.len() > 0 && type_size::<T>() * items@.len() <= usize::MAX ==> old(self)@.sizes_ok(
                type_size::<T>() * items@.len(),
                type_align::<T>(),
            ),
        ensures
            final(self).wf(),
            items@.len() == 0 ==> (r matches Some(s) && s.items() == items@ && s.addr == type_align::<T>()
                && final(self)@ == old(self)@),
            items@.len() > 0 && type_size::<T>() * items@.len() > usize::MAX ==> r is None
                && final(self)@ == old(self)@,
            items@.len() > 0 && type_size::<T>() * items@.len() <= usize::MAX ==> match r {
                Some(s) => {
                    &&& old(self)@.can_alloc(type_size::<T>() * items@.len(), type_align::<T>())
                    &&& s.items() == items@
                    &&& s.addr == old(self)@.alloc_addr(type_size::<T>() * items@.len(), type_align::<T>())
                    &&& final(self)@ == old(self)@.after_alloc(type_size::<T>() * items@.len(), type_align::<T>())
                },
                None => {
                    &&& !old(self)@.can_alloc(type_size::<T>() * items@.len(), type_align::<T>())
                    &&& final(self)@ == old(self)@.after_failed_alloc(
                        type_size::<T>() * items@.len(),
                        type_align::<T>(),
                    )
                },
            },
    {
        vstd::layout::layout_for_type_is_valid::<T>();
        let size = core::mem::size_of::<T>();
        let align = core::mem::align_of::<T>();
        let len = items.len();
        if len == 0 {
            return Some(ArenaSlice::new(align, items));
        }
        let total = match size.checked_mul(len) {
            Some(t) => t,
            None => {
                return None;
            },
        };
        match self.try_alloc_raw_inner(total, align) {
            Some(addr) => Some(ArenaSlice::new(addr, items)),
            None => None,
        }
    }

    /// Copy the elements of `src` into a contiguous slice in the arena.
    pub fn alloc_slice_copy<T: Copy>(&mut self, src: &[T]) -> (s: ArenaSlice<'_, T>)
        requires
            old(self).wf(),
            type_size::<T>() * src@.len() <= usize::MAX,
            src@.len() > 0 ==> old(self)@.serves(type_size::<T>() * src@.len(), type_align::<T>()),
        ensures
            final(self).wf(),
            s.items() == src@,
            src@.len() == 0 ==> s.addr == type_align::<T>() && final(self)@ == old(self)@,
            src@.len() > 0 ==> s.addr == old(self)@.alloc_addr(type_size::<T>() * src@.len(), type_align::<T>())
                && final(self)@ == old(self)@.after_alloc(type_size::<T>() * src@.len(), type_align::<T>()),
    {
        let items = copy_slice(src);
        self.alloc_slice(items)
    }

    /// Fallible variant of [`alloc_slice_copy`](Arena::alloc_slice_copy).
    pub fn try_alloc_slice_copy<T: Copy>(&mut self, src: &[T]) -> (r: Option<ArenaSlice<'_, T>>)
        requires
            old(self).wf(),
            src@.len() > 0 && type_size::<T>() * src@.len() <= usize::MAX ==> old(self)@.sizes_ok(
                type_size::<T>() * src@.len(),
                type_align::<T>(),
            ),
        ensures
            final(self).wf(),
            src@.len() == 0 ==> (r matches Some(s) && s.items() == src@ && s.addr == type_align::<T>()
                && final(self)@ == old(self)@),
            src@.len() > 0 && type_size::<T>() * src@.len() > usize::MAX ==> r is None
                && final(self)@ == old(self)@,
            src@.len() > 0 && type_size::<T>() * src@.len() <= usize::MAX ==> match r {
                Some(s) => {
                    &&& old(self)@.can_alloc(type_size::<T>() * src@.len(), type_align::<T>())
                    &&& s.items() == src@
                    &&& s.addr == old(self)@.alloc_addr(type_size::<T>() * src@.len(), type_align::<T>())
                    &&& final(self)@ == old(self)@.after_alloc(type_size::<T>() * src@.len(), type_align::<T>())
                },
                None => {
                    &&& !old(self)@.can_alloc(type_size::<T>() * src@.len(), type_align::<T>())
                    &&& final(self)@ == old(self)@.after_failed_alloc(
                        type_size::<T>() * src@.len(),
                        type_align::<T>(),
                    )
                },
            },
    {
        let items = copy_slice(src);
        self.try_alloc_slice(items)
    }

    /// Copy a string into the arena. The empty string takes no space and is
    /// placed at [`DANGLING`].
    pub fn alloc_str(&mut self, s: &str) -> (r: ArenaStr<'_>)
        requires
            old(self).wf(),
            s.len() > 0 ==> old(self)@.serves(s.len() as int, 1),
        ensures
            final(self).wf(),
            r.text@ == s@,
            s.len() == 0 ==> r.addr == DANGLING && final(self)@ == old(self)@,
            s.len() > 0 ==> r.addr == old(self)@.alloc_addr(s.len() as int, 1)
                && final(self)@ == old(self)@.after_alloc(s.len() as int, 1),
    {
        let len = s.len();
        if len == 0 {
            return ArenaStr::new(DANGLING, s.to_owned());
        }
        match self.try_alloc_raw_inner(len, 1) {
            Some(addr) => ArenaStr::new(addr, s.to_owned()),
            None => {
                proof {
                    assert(false);
                }
                ArenaStr::new(DANGLING, s.to_owned())
            },
        }
    }

    /// Fallible variant of [`alloc_str`](Arena::alloc_str).
    pub fn try_alloc_str(&mut self, s: &str) -> (r: Option<ArenaStr<'_>>)
        requires
            old(self).wf(),
            s.len() > 0 ==> old(self)@.sizes_ok(s.len() as int, 1),
        ensures
            final(self).wf(),
            s.len() == 0 ==> (r matches Some(t) && t.text@ == s@ && t.addr == DANGLING
                && final(self)@ == old(self)@),
            s.len() > 0 ==> match r {
                Some(t) => {
                    &&& old(self)@.can_alloc(s.len() as int, 1)
                    &&& t.text@ == s@
                    &&& t.addr == old(self)@.alloc_addr(s.len() as int, 1)
                    &&& final(self)@ == old(self)@.after_alloc(s.len() as int, 1)
                },
                None => {
                    &&& !old(self)@.can_alloc(s.len() as int, 1)
                    &&& final(self)@ == old(self)@.after_failed_alloc(s.len() as int, 1)
                },
            },
    {
        let len = s.len();
        if len == 0 {
            return Some(ArenaStr::new(DANGLING, s.to_owned()));
        }
        match self.try_alloc_raw_inner(len, 1) {
            Some(addr) => Some(ArenaStr::new(addr, s.to_owned())),
            None => None,
        }
    }
}

/// `n` zero bytes.
pub open spec fn zero_bytes(n: int) -> Seq<u8> {
    Seq::new(n as nat, |i: int| 0u8)
}

impl Arena {
    /// Allocate `size` zero-filled bytes at `align`; the placement is that of
    /// [`alloc_raw`](Arena::alloc_raw). A zero-sized request allocates nothing
    /// and is placed at [`DANGLING`].
    pub fn alloc_zeroed(&mut self, size: usize, align: usize) -> (z: ArenaSlice<'_, u8>)
        requires
            old(self).wf(),
            is_pow2(align as int),
            size > 0 ==> old(self)@.serves(size as int, align as int),
        ensures
            final(self).wf(),
            z.items() == zero_bytes(size as int),
            size == 0 ==> z.addr == DANGLING && final(self)@ == old(self)@,
            size > 0 ==> z.addr == old(self)@.alloc_addr(size as int, align as int) && final(self)@
                == old(self)@.after_alloc(size as int, align as int),
    {
        let addr = self.alloc_raw(size, align);
        ArenaSlice::new(addr, zeros(size))
    }

    /// Fallible variant of [`alloc_zeroed`](Arena::alloc_zeroed).
    pub fn try_alloc_zeroed(&mut self, size: usize, align: usize) -> (r: Option<ArenaSlice<'_, u8>>)
        requires
            old(self).wf(),
            is_pow2(align as int),
            size > 0 ==> old(self)@.sizes_ok(size as int, align as int),
        ensures
            final(self).wf(),
            size == 0 ==> (r matches Some(z) && z.addr == DANGLING && z.items().len() == 0) && final(self)@ == old(self)@,
            size > 0 ==> match r {
                Some(z) => {
                    &&& old(self)@.can_alloc(size as int, align as int)
                    &&& z.addr == old(self)@.alloc_addr(size as int, align as int)
                    &&& z.items() == zero_bytes(size as int)
                    &&& final(self)@ == old(self)@.after_alloc(size as int, align as int)
                },
                None => {
                    &&& !old(self)@.can_alloc(size as int, align as int)
                    &&& final(self)@ == old(self)@.after_failed_alloc(size as int, align as int)
                },
            },
    {
        match self.try_alloc_raw(size, align) {
            Some(addr) => Some(ArenaSlice::new(addr, zeros(size))),
            None => None,
        }
    }
}

/// A vector of `n` zero bytes.
pub(crate) fn zeros(n: usize) -> (v: Vec<u8>)
    ensures
        v@ == zero_bytes(n as int),
{
    let mut v: Vec<u8> = Vec::new();
    let mut i: usize = 0;
    while i < n
        invariant
            i <= n,
            v@ == zero_bytes(i as int),
        decreases n - i,
    {
        v.push(0u8);
        i = i + 1;
        proof {
            assert(v@ =~= zero_bytes(i as int));
        }
    }
    v
}

/// A vector holding a copy of each element of `src`.
pub(crate) fn copy_slice<T: Copy>(src: &[T]) -> (v: Vec<T>)
    ensures
        v@ == src@,
{
    let mut v: Vec<T> = Vec::new();
    let mut i: usize = 0;
    while i < src.len()
        invariant
            i <= src@.len(),
            v@ == src@.subrange(0, i as int),
        decreases src@.len() - i,
    {
        let x: T = src[i];
        v.push(x);
        i = i + 1;
        proof {
            assert(v@ =~= src@.subrange(0, i as int));
        }
    }
    proof {
        assert(v@ =~= src@);
    }
    v
}

} // verus!
