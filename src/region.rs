//! Chunked region allocators: allocations grow downward inside the newest chunk, and a larger
//! chunk replaces it when it runs out.
use vstd::prelude::*;

verus! {

/// The bits below a power-of-two `alignment`.
pub open spec fn low_mask(alignment: u64) -> u64 {
    (alignment - 1) as u64
}

/// Round `x` down to a multiple of `alignment`, a power of two.
pub fn align_down(x: u64, alignment: u64) -> (r: u64)
    requires
        alignment > 0,
        alignment & low_mask(alignment) == 0,
    ensures
        r == x - (x & low_mask(alignment)),
        r <= x,
        r & low_mask(alignment) == 0,
{
    let m = alignment - 1;
    assert((x & m) <= x) by (bit_vector);
    assert(x & !m == (x - (x & m)) as u64) by (bit_vector);
    assert((x & !m) & m == 0) by (bit_vector);
    x & !m
}

/// Bookkeeping of one region: the newest chunk's size and cursor, and what was handed out or
/// left behind.
pub struct Region {
    capacity: u64,
    chunks: usize,
    cursor: u64,
    used: u64,
    wasted: u64,
}

impl Region {
    /// Size of the newest chunk, or the initial capacity before any chunk exists.
    pub closed spec fn capacity_spec(&self) -> u64 {
        self.capacity
    }

    /// Number of chunks created so far.
    pub closed spec fn chunks_spec(&self) -> nat {
        self.chunks as nat
    }

    /// Lowest offset handed out in the newest chunk; allocations go below it.
    pub closed spec fn cursor_spec(&self) -> u64 {
        self.cursor
    }

    /// Bytes handed out.
    pub closed spec fn used_spec(&self) -> u64 {
        self.used
    }

    /// Bytes left unused at the bottom of abandoned chunks.
    pub closed spec fn wasted_spec(&self) -> u64 {
        self.wasted
    }

    /// A region whose first chunk will hold at least `capacity` bytes.
    pub fn new(capacity: u64) -> (r: Self)
        ensures
            r.capacity_spec() == capacity,
            r.chunks_spec() == 0,
            r.cursor_spec() == 0,
            r.used_spec() == 0,
            r.wasted_spec() == 0,
    {
        Region { capacity, chunks: 0, cursor: 0, used: 0, wasted: 0 }
    }

    /// Whether `size` bytes fit below the cursor of the newest chunk.
    pub fn has_capacity_for(&self, size: u64) -> (r: bool)
        ensures
            r == (self.cursor_spec() > size),
    {
        self.cursor > size
    }

    /// Size of the chunk to create for an allocation of `alloc_size` bytes: twice the larger of
    /// the current chunk size and the allocation.
    pub fn next_chunk_size(&self, alloc_size: u64) -> (r: u64)
        requires
            self.capacity_spec() <= u64::MAX / 2,
            alloc_size <= u64::MAX / 2,
        ensures
            r == 2 * (if self.capacity_spec() >= alloc_size {
                self.capacity_spec()
            } else {
                alloc_size
            }),
    {
        let base = if self.capacity >= alloc_size {
            self.capacity
        } else {
            alloc_size
        };
        base * 2
    }

    /// Switch to a new chunk of `size` bytes, abandoning what is left of the current one.
    pub fn grow(&mut self, size: u64)
        requires
            old(self).wasted_spec() + old(self).cursor_spec() <= u64::MAX,
            old(self).chunks_spec() < usize::MAX,
        ensures
            final(self).wasted_spec() == old(self).wasted_spec() + old(self).cursor_spec(),
            final(self).cursor_spec() == size,
            final(self).capacity_spec() == size,
            final(self).chunks_spec() == old(self).chunks_spec() + 1,
            final(self).used_spec() == old(self).used_spec(),
    {
        self.chunks = self.chunks + 1;
        self.wasted = self.wasted + self.cursor;
        self.cursor = size;
        self.capacity = size;
    }

    /// Allocate `size` bytes positioned at a multiple of `alignment` in the newest chunk.
    pub fn allocate(&mut self, size: u64, alignment: u64) -> (r: u64)
        requires
            old(self).cursor_spec() > size,
            alignment > 0,
            alignment & low_mask(alignment) == 0,
            old(self).used_spec() + size <= u64::MAX,
        ensures
            r == (old(self).cursor_spec() - size) - ((old(self).cursor_spec() - size) as u64 & low_mask(
                alignment,
            )),
            r & low_mask(alignment) == 0,
            r + size <= old(self).cursor_spec(),
            final(self).cursor_spec() == r,
            final(self).used_spec() == old(self).used_spec() + size,
            final(self).capacity_spec() == old(self).capacity_spec(),
            final(self).wasted_spec() == old(self).wasted_spec(),
            final(self).chunks_spec() == old(self).chunks_spec(),
    {
        let off = align_down(self.cursor - size, alignment);
        self.cursor = off;
        self.used = self.used + size;
        off
    }

    /// Bytes returned via `allocate`
    pub fn used(&self) -> (r: u64)
        ensures
            r == self.used_spec(),
    {
        self.used
    }

    /// Unreachable bytes
    pub fn wasted(&self) -> (r: u64)
        ensures
            r == self.wasted_spec(),
    {
        self.wasted
    }

    /// Lowest offset handed out in the newest chunk.
    pub fn cursor(&self) -> (r: u64)
        ensures
            r == self.cursor_spec(),
    {
        self.cursor
    }

    /// Size of the newest chunk.
    pub fn capacity(&self) -> (r: u64)
        ensures
            r == self.capacity_spec(),
    {
        self.capacity
    }

    /// Number of chunks created so far.
    pub fn chunks(&self) -> (r: usize)
        ensures
            r == self.chunks_spec(),
    {
        self.chunks
    }
}

} // verus!
