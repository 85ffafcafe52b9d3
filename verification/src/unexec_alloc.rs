//! The allocator that sends every allocation to the `unexec_` variants of
//! `malloc`, `realloc` and `free`, so that a dumped image can find them.
//! The C functions make the allocations; what is decided here is how
//! their results are answered.
use vstd::prelude::*;

verus! {

/// A request for memory: its size and alignment (a power of two).
#[derive(PartialEq, Eq, Structural, Clone, Copy, Debug)]
pub struct Layout {
    pub size: usize,
    pub align: usize,
}

/// Why an allocation failed.
#[derive(PartialEq, Eq, Structural, Clone, Copy, Debug)]
pub enum AllocErr {
    /// No memory was left for the request.
    Exhausted { request: Layout },
}

/// Whether `addr` is aligned to `align`.
pub open spec fn aligned(addr: usize, align: usize) -> bool {
    align > 0 && addr % align == 0
}

/// The allocator.
pub struct OsxUnexecAlloc;

impl OsxUnexecAlloc {
    /// The answer to an allocation of LAYOUT for which `unexec_malloc`
    /// gave ADDR: a null address is exhaustion, another must be aligned.
    pub fn allocate(&self, addr: usize, layout: Layout) -> (r: Result<usize, AllocErr>)
        requires
            addr == 0 || aligned(addr, layout.align),
        ensures
            r == (if addr == 0 {
                Err(AllocErr::Exhausted { request: layout })
            } else {
                Ok(addr)
            }),
    {
        if addr == 0 {
            return Err(AllocErr::Exhausted { request: layout });
        }
        Ok(addr)
    }

    /// The check before PTR, allocated with LAYOUT, goes to `unexec_free`:
    /// it must be aligned.
    pub fn deallocate(&self, ptr: usize, layout: Layout) -> (free: usize)
        requires
            aligned(ptr, layout.align),
        ensures
            free == ptr,
    {
        ptr
    }

    /// The answer to a reallocation to NEW_LAYOUT for which
    /// `unexec_realloc` gave ADDR: a null address is exhaustion, another
    /// must be aligned.
    pub fn reallocate(&self, addr: usize, layout: Layout, new_layout: Layout) -> (r: Result<usize, AllocErr>)
        requires
            addr == 0 || aligned(addr, new_layout.align),
        ensures
            r == (if addr == 0 {
                Err(AllocErr::Exhausted { request: new_layout })
            } else {
                Ok(addr)
            }),
    {
        if addr == 0 {
            return Err(AllocErr::Exhausted { request: new_layout });
        }
        Ok(addr)
    }
}

} // verus!
