//! A linear allocator over a fixed capacity.
use vstd::prelude::*;

verus! {

/// Bump allocator handing out consecutive ranges until `capacity` is reached.
pub struct ArenaAlloc {
    cursor: u64,
    capacity: u64,
}

/// The arena under its short name.
pub type Arena = ArenaAlloc;

impl ArenaAlloc {
    /// Offset at which the next allocation starts.
    pub closed spec fn cursor(&self) -> u64 {
        self.cursor
    }

    /// Units the arena can hand out in total.
    pub closed spec fn capacity(&self) -> u64 {
        self.capacity
    }

    /// An empty arena of `capacity` units.
    pub fn new(capacity: u64) -> (r: Self)
        ensures
            r.cursor() == 0,
            r.capacity() == capacity,
    {
        Self { cursor: 0, capacity }
    }

    /// Allocate `size` units, returning their offset, or `None` if they do not fit.
    pub fn allocate(&mut self, size: u64) -> (r: Option<u64>)
        ensures
            final(self).capacity() == old(self).capacity(),
            old(self).cursor() + size <= old(self).capacity() ==> r == Some(old(self).cursor())
                && final(self).cursor() == old(self).cursor() + size,
            old(self).cursor() + size > old(self).capacity() ==> r is None && final(self).cursor()
                == old(self).cursor(),
    {
        let start = self.cursor;
        if size > self.capacity || start > self.capacity - size {
            return None;
        }
        self.cursor = start + size;
        Some(start)
    }

    /// Invalidate every allocation.
    pub fn reset(&mut self)
        ensures
            final(self).cursor() == 0,
            final(self).capacity() == old(self).capacity(),
    {
        self.cursor = 0;
    }
}

} // verus!
