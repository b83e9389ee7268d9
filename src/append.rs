//! Layout of a linearly filled device buffer that grows by copying into a larger one.
use vstd::prelude::*;

verus! {

/// A replacement buffer the caller must create: `new_capacity` bytes, into which the first
/// `copy_bytes` bytes of the old buffer are copied. The old buffer is retired once that copy has
/// run, unless nothing had to be copied.
#[derive(Copy, Clone, Debug, PartialEq, Eq, Structural)]
pub struct Growth {
    pub new_capacity: u64,
    pub copy_bytes: u64,
}

/// Fill level and capacity of an append-only buffer.
pub struct AppendLayout {
    capacity: u64,
    fill: u64,
}

impl AppendLayout {
    pub closed spec fn capacity_spec(&self) -> u64 {
        self.capacity
    }

    pub closed spec fn fill_spec(&self) -> u64 {
        self.fill
    }

    /// An empty buffer that can fit `capacity` bytes without growing.
    pub fn with_capacity(capacity: u64) -> (r: Self)
        ensures
            r.capacity_spec() == capacity,
            r.fill_spec() == 0,
    {
        AppendLayout { capacity, fill: 0 }
    }

    /// Bytes the current buffer holds.
    pub fn capacity(&self) -> (r: u64)
        ensures
            r == self.capacity_spec(),
    {
        self.capacity
    }

    /// Bytes allocated so far.
    pub fn fill(&self) -> (r: u64)
        ensures
            r == self.fill_spec(),
    {
        self.fill
    }

    /// Allocate `size` bytes at the end of the buffer, returning their offset. If they do not
    /// fit, the buffer grows to the greater of twice its capacity or the exact space required.
    pub fn allocate(&mut self, size: u64) -> (r: (u64, Option<Growth>))
        requires
            old(self).fill_spec() + size <= u64::MAX,
            old(self).capacity_spec() <= u64::MAX / 2,
        ensures
            r.0 == old(self).fill_spec(),
            final(self).fill_spec() == old(self).fill_spec() + size,
            old(self).fill_spec() + size <= old(self).capacity_spec() ==> r.1 is None
                && final(self).capacity_spec() == old(self).capacity_spec(),
            old(self).fill_spec() + size > old(self).capacity_spec() ==> r.1 == Some(
                Growth {
                    new_capacity: final(self).capacity_spec(),
                    copy_bytes: old(self).fill_spec(),
                },
            ) && final(self).capacity_spec() == (if old(self).fill_spec() + size >= 2
                * old(self).capacity_spec() {
                old(self).fill_spec() + size
            } else {
                2 * old(self).capacity_spec()
            }),
            final(self).fill_spec() <= final(self).capacity_spec(),
    {
        let offset = self.fill;
        let new_fill = self.fill + size;
        let mut growth = None;
        if new_fill > self.capacity {
            // Grow to the greater of twice our current capacity or the exact space required
            let doubled = self.capacity * 2;
            let new_cap = if new_fill >= doubled {
                new_fill
            } else {
                doubled
            };
            growth = Some(Growth { new_capacity: new_cap, copy_bytes: self.fill });
            self.capacity = new_cap;
        }
        self.fill = new_fill;
        (offset, growth)
    }
}

} // verus!
