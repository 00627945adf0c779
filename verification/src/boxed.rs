//! Owned handles to values placed in an arena.
use vstd::prelude::*;

use core::marker::PhantomData;
use core::mem::ManuallyDrop;

use crate::arena::Arena;

verus! {

/// A value allocated from an arena, together with the address the arena
/// placed it at; similar to `Box<T>`.
///
/// The lifetime ties the handle to the arena borrow that produced it, so the
/// arena cannot be reset or rewound while the handle is alive. Like every
/// value placed in the arena, the value is never dropped by the handle:
/// its destructor does not run unless it is taken out with
/// [`into_inner`](ArenaBox::into_inner).
pub struct ArenaBox<'arena, T> {
    /// Address of the value in the arena.
    pub addr: usize,
    /// The value, kept from being dropped.
    pub slot: ManuallyDrop<T>,
    pub marker: PhantomData<&'arena Arena>,
}

impl<'arena, T> ArenaBox<'arena, T> {
    /// The value.
    pub open spec fn value(&self) -> T {
        self.slot@
    }

    /// The handle for `value` placed at `addr`.
    pub(crate) fn new(addr: usize, value: T) -> (b: ArenaBox<'arena, T>)
        ensures
            b.addr == addr,
            b.value() == value,
    {
        ArenaBox { addr, slot: ManuallyDrop::new(value), marker: PhantomData }
    }

    /// The value, leaving the arena.
    pub fn into_inner(self) -> (v: T)
        ensures
            v == self.value(),
    {
        ManuallyDrop::into_inner(self.slot)
    }

    /// Address of the value in the arena.
    pub fn as_ptr(&self) -> (p: usize)
        ensures
            p == self.addr,
    {
        self.addr
    }

    /// Address of the value in the arena.
    pub fn as_mut_ptr(&mut self) -> (p: usize)
        ensures
            p == old(self).addr,
            *final(self) == *old(self),
    {
        self.addr
    }

    /// Shared access to the value.
    pub fn get(&self) -> (v: &T)
        ensures
            *v == self.value(),
    {
        &*self.slot
    }

    /// Exclusive access to the value.
    pub fn get_mut(&mut self) -> (v: &mut T)
        ensures
            *v == old(self).value(),
            final(self).value() == *final(v),
            final(self).addr == old(self).addr,
    {
        manually_drop_mut(&mut self.slot)
    }
}

impl<'arena, T> core::ops::Deref for ArenaBox<'arena, T> {
    type Target = T;

    fn deref(&self) -> (v: &T)
        ensures
            *v == self.value(),
    {
        &*self.slot
    }
}

/// A contiguous run of values allocated from an arena, with the address of
/// the first one. The values are never dropped by the handle, only when
/// taken out with [`into_vec`](ArenaSlice::into_vec).
pub struct ArenaSlice<'arena, T> {
    /// Address of the first element in the arena.
    pub addr: usize,
    /// The elements, kept from being dropped.
    pub elems: ManuallyDrop<Vec<T>>,
    pub marker: PhantomData<&'arena Arena>,
}

impl<'arena, T> ArenaSlice<'arena, T> {
    /// The elements.
    pub open spec fn items(&self) -> Seq<T> {
        self.elems@@
    }

    /// The handle for `items` placed from `addr` on.
    pub(crate) fn new(addr: usize, items: Vec<T>) -> (s: ArenaSlice<'arena, T>)
        ensures
            s.addr == addr,
            s.items() == items@,
    {
        ArenaSlice { addr, elems: ManuallyDrop::new(items), marker: PhantomData }
    }

    /// Number of elements.
    pub fn len(&self) -> (n: usize)
        ensures
            n == self.items().len(),
    {
        let v: &Vec<T> = &*self.elems;
        v.len()
    }

    /// Whether there are no elements.
    pub fn is_empty(&self) -> (b: bool)
        ensures
            b == (self.items().len() == 0),
    {
        let v: &Vec<T> = &*self.elems;
        v.len() == 0
    }

    /// The elements as a slice.
    pub fn as_slice(&self) -> (s: &[T])
        ensures
            s@ == self.items(),
    {
        let v: &Vec<T> = &*self.elems;
        v.as_slice()
    }

    /// The elements as a mutable slice.
    pub fn as_mut_slice(&mut self) -> (s: &mut [T])
        ensures
            s@ == old(self).items(),
            final(self).items() == final(s)@,
            final(self).addr == old(self).addr,
    {
        let v: &mut Vec<T> = manually_drop_mut(&mut self.elems);
        v.as_mut_slice()
    }

    /// Address of the first element in the arena.
    pub fn as_ptr(&self) -> (p: usize)
        ensures
            p == self.addr,
    {
        self.addr
    }

    /// The elements, leaving the arena.
    pub fn into_vec(self) -> (v: Vec<T>)
        ensures
            v@ == self.items(),
    {
        ManuallyDrop::into_inner(self.elems)
    }
}

impl<'arena, T> core::ops::Deref for ArenaSlice<'arena, T> {
    type Target = [T];

    fn deref(&self) -> (s: &[T])
        ensures
            s@ == self.items(),
    {
        let v: &Vec<T> = &*self.elems;
        v.as_slice()
    }
}

/// `DerefMut::deref_mut` on `ManuallyDrop`: exclusive access to the wrapped
/// value. It claims that the reference points at the wrapped value, and that
/// what is written through it is what the wrapper then holds.
#[verifier::external_body]
fn manually_drop_mut<T>(m: &mut ManuallyDrop<T>) -> (r: &mut T)
    ensures
        *r == old(m)@,
        final(m)@ == *final(r),
{
    &mut **m
}

/// A string copied into an arena, with the address of its first byte.
pub struct ArenaStr<'arena> {
    /// Address of the first byte in the arena.
    pub addr: usize,
    /// The text.
    pub text: String,
    pub marker: PhantomData<&'arena Arena>,
}

impl<'arena> ArenaStr<'arena> {
    /// The handle for `text` placed from `addr` on.
    pub(crate) fn new(addr: usize, text: String) -> (s: ArenaStr<'arena>)
        ensures
            s.addr == addr,
            s.text@ == text@,
    {
        ArenaStr { addr, text, marker: PhantomData }
    }

    /// The text.
    pub fn as_str(&self) -> (s: &str)
        ensures
            s@ == self.text@,
    {
        self.text.as_str()
    }

    /// Address of the first byte in the arena.
    pub fn as_ptr(&self) -> (p: usize)
        ensures
            p == self.addr,
    {
        self.addr
    }
}

impl<'arena> core::ops::Deref for ArenaStr<'arena> {
    type Target = str;

    fn deref(&self) -> (s: &str)
        ensures
            s@ == self.text@,
    {
        self.text.as_str()
    }
}

} // verus!
