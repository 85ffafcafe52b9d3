//! Pointers to objects that the Lisp runtime allocates outside the heap
//! of this library, held as their addresses.
use vstd::prelude::*;

use core::marker::PhantomData;

verus! {

/// The address of an object of type `T`; 0 is the null pointer.
pub struct ExternalPtr<T> {
    addr: usize,
    marker: PhantomData<T>,
}

impl<T> ExternalPtr<T> {
    /// The address the pointer holds.
    pub closed spec fn addr(&self) -> usize {
        self.addr
    }

    /// A pointer to the object at address P.
    pub fn new(p: usize) -> (r: ExternalPtr<T>)
        ensures
            r.addr() == p,
    {
        ExternalPtr { addr: p, marker: PhantomData }
    }

    /// Whether the pointer is null.
    pub fn is_null(&self) -> (b: bool)
        ensures
            b == (self.addr() == 0),
    {
        self.addr == 0
    }

    /// The address, for reading.
    pub fn as_ptr(&self) -> (p: usize)
        ensures
            p == self.addr(),
    {
        self.addr
    }

    /// The address, for writing.
    pub fn as_mut(&mut self) -> (p: usize)
        ensures
            p == old(self).addr(),
            final(self).addr() == old(self).addr(),
    {
        self.addr
    }
}

impl<T> Clone for ExternalPtr<T> {
    /// A pointer to the same address.
    fn clone(&self) -> (r: Self)
        ensures
            r.addr() == self.addr(),
    {
        ExternalPtr { addr: self.addr, marker: PhantomData }
    }
}

impl<T> Copy for ExternalPtr<T> {}

impl<T> PartialEq for ExternalPtr<T> {
    /// Two pointers are equal when they hold the same address.
    fn eq(&self, other: &Self) -> (r: bool) {
        self.addr == other.addr
    }
}

impl<T> vstd::std_specs::cmp::PartialEqSpecImpl for ExternalPtr<T> {
    open spec fn obeys_eq_spec() -> bool {
        true
    }

    open spec fn eq_spec(&self, other: &Self) -> bool {
        self.addr() == other.addr()
    }
}

} // verus!
