//! The eternal heap: an allocator that never takes anything back.
//!
//! A cursor moves up through a fixed region, and every allocation is the
//! stretch that the cursor has just passed. Nothing is ever reused, so
//! nothing needs to be written down. Allocations are not aligned.

use vstd::prelude::*;

verus! {

/// The largest size an allocation can have.
pub const MAX_ALLOC_SIZE: u64 = 0x7fff_ffff_ffff_ffff;

/// The allocation failed.
#[derive(Copy, Clone, PartialEq, Eq, Debug, Structural)]
pub struct AllocError {}

/// An allocator that does not deallocate: the cursor, and the address at
/// which its region ends.
#[derive(Copy, Clone, PartialEq, Eq, Debug, Ord, PartialOrd, Structural)]
pub struct EternalAlloc(u64, u64);

impl EternalAlloc {
    /// The address of the next allocation.
    pub closed spec fn cursor(self) -> u64 {
        self.0
    }

    /// The address at which the region ends.
    pub closed spec fn limit(self) -> u64 {
        self.1
    }

    /// Whether `size` more bytes can be had: the cursor stays below the end
    /// of the region when it has moved past them.
    pub open spec fn has_room(self, size: u64) -> bool {
        self.cursor() + size < self.limit()
    }

    /// The allocator over the region from `start` to `end`.
    pub fn new(start: u64, end: u64) -> (r: EternalAlloc)
        ensures
            r.cursor() == start,
            r.limit() == end,
    {
        EternalAlloc(start, end)
    }

    /// Sets the cursor, and returns where it was.
    fn swap(&mut self, new: u64) -> (r: u64)
        ensures
            r == old(self).cursor(),
            final(self).cursor() == new,
            final(self).limit() == old(self).limit(),
    {
        let v = self.0;
        self.0 = new;
        v
    }

    /// The address of the next allocation.
    pub fn get(&self) -> (r: u64)
        ensures
            r == self.cursor(),
    {
        self.0
    }

    /// The address at which the region ends.
    pub fn end(&self) -> (r: u64)
        ensures
            r == self.limit(),
    {
        self.1
    }

    /// Hands out `size` bytes at the cursor and moves the cursor past them,
    /// if there is room. The cursor never moves back, so what is handed out
    /// lies between the old and the new cursor and was never handed out
    /// before.
    ///
    /// The address zero is the null pointer and no allocation: where the
    /// cursor stands at zero the bytes are passed over and nothing is handed
    /// out.
    pub fn try_alloc(&mut self, size: u64) -> (r: Option<u64>)
        ensures
            final(self).limit() == old(self).limit(),
            final(self).cursor() == (if old(self).has_room(size) {
                (old(self).cursor() + size) as u64
            } else {
                old(self).cursor()
            }),
            r == (if old(self).has_room(size) && old(self).cursor() != 0 {
                Some(old(self).cursor())
            } else {
                None
            }),
            old(self).cursor() <= final(self).cursor(),
            r matches Some(addr) ==> addr == old(self).cursor() && addr + size < old(self).limit(),
    {
        let next = match self.get().checked_add(size) {
            Some(next) => next,
            None => {
                return None;
            },
        };
        if next < self.end() {
            let addr = self.swap(next);
            if addr == 0 {
                None
            } else {
                Some(addr)
            }
        } else {
            None
        }
    }

    /// As `try_alloc`, with the block that was handed out as its address and
    /// its length.
    pub fn allocate(&mut self, size: u64) -> (r: Result<(u64, u64), AllocError>)
        ensures
            final(self).limit() == old(self).limit(),
            final(self).cursor() == (if old(self).has_room(size) {
                (old(self).cursor() + size) as u64
            } else {
                old(self).cursor()
            }),
            r == (if old(self).has_room(size) && old(self).cursor() != 0 {
                Ok((old(self).cursor(), size))
            } else {
                Err(AllocError {  })
            }),
    {
        match self.try_alloc(size) {
            Some(ptr) => Ok((ptr, size)),
            None => Err(AllocError {  }),
        }
    }
}

} // verus!
