//! Head/tail bookkeeping for a circular buffer whose allocations grow downward.
use vstd::prelude::*;

use crate::align::{align_down_spec, lemma_align_down};

verus! {

/// Cursor pair over a circular buffer of `capacity` units.
///
/// Allocations are carved downward from `head`; `tail` marks the start of the oldest live
/// allocation. The occupied region runs from `head` up to `tail`, wrapping past the end of the
/// buffer when `head > tail`, and is empty when `head == tail`. A wrapped allocation must
/// start strictly above `tail`, which keeps one unit spare so that a full ring never looks empty.
pub struct RingState {
    /// Offset of the most recently allocated slot
    pub head: usize,
    /// Offset of the most recently freed storage
    pub tail: usize,
    /// Maximum cursor value plus one
    pub capacity: usize,
}

impl RingState {
    /// Both cursors lie inside the buffer.
    pub open spec fn wf(&self) -> bool {
        self.head <= self.capacity && self.tail <= self.capacity
    }

    /// Whether unit `b` lies in the occupied region.
    pub open spec fn occupies(&self, b: int) -> bool {
        if self.head <= self.tail {
            self.head <= b < self.tail
        } else {
            (self.head <= b < self.capacity) || (0 <= b < self.tail)
        }
    }

    /// Position of `p` on the line that ends at `tail`: offsets above `tail` belong to the
    /// previous lap and are shifted down by one capacity.
    pub open spec fn unwrap(&self, p: int) -> int {
        if p <= self.tail {
            p
        } else {
            p - self.capacity
        }
    }

    /// The offset that `allocate(size, align)` hands out, if any: first the run from `head` down to
    /// `tail` when the ring is wrapped; otherwise the run from `head` down to 0, and failing that
    /// the run from the end of the buffer down to `tail`.
    pub open spec fn pick(&self, size: int, align: int) -> Option<int> {
        if self.head > self.tail {
            let a = align_down_spec(self.head - size, align);
            if self.head >= size && a > self.tail {
                Some(a)
            } else {
                None
            }
        } else if self.head >= size {
            Some(align_down_spec(self.head - size, align))
        } else {
            let a = align_down_spec(self.capacity - size, align);
            if self.capacity >= size && a > self.tail {
                Some(a)
            } else {
                None
            }
        }
    }

    /// An empty ring of `capacity` units.
    pub fn new(capacity: usize) -> (r: Self)
        ensures
            r.head == 0,
            r.tail == 0,
            r.capacity == capacity,
            r.wf(),
    {
        Self { head: 0, tail: 0, capacity }
    }

    /// Reserve `size` units starting at a multiple of `align`, moving `head` onto the result.
    pub fn allocate(&mut self, size: usize, align: usize) -> (r: Option<usize>)
        requires
            align > 0,
        ensures
            r matches Some(o) ==> old(self).pick(size as int, align as int) == Some(o as int)
                && final(self).head == o,
            r is None ==> old(self).pick(size as int, align as int) is None && final(self).head
                == old(self).head,
            final(self).tail == old(self).tail,
            final(self).capacity == old(self).capacity,
            r matches Some(o) ==> o % align == 0,
            old(self).wf() ==> final(self).wf(),
            old(self).wf() ==> (r matches Some(o) ==> {
                &&& o + size <= old(self).capacity
                &&& old(self).unwrap(o as int) + size <= old(self).unwrap(old(self).head as int)
                &&& forall|b: int| o <= b < o + size ==> !old(self).occupies(b)
            }),
    {
        if self.head > self.tail {
            // Try allocating between head and tail
            if self.head < size {
                return None;
            }
            let unaligned = self.head - size;
            proof {
                lemma_align_down(unaligned as int, align as int);
            }
            let aligned = unaligned - unaligned % align;
            if aligned <= self.tail {
                return None;
            }
            self.head = aligned;
            Some(aligned)
        } else if self.head >= size {
            // Try allocating between head and 0; 0 is always aligned
            let unaligned = self.head - size;
            proof {
                lemma_align_down(unaligned as int, align as int);
            }
            let aligned = unaligned - unaligned % align;
            self.head = aligned;
            Some(aligned)
        } else {
            // Try allocating between the end of the buffer and tail
            if self.capacity < size {
                return None;
            }
            let unaligned = self.capacity - size;
            proof {
                lemma_align_down(unaligned as int, align as int);
            }
            let aligned = unaligned - unaligned % align;
            if aligned <= self.tail {
                return None;
            }
            self.head = aligned;
            Some(aligned)
        }
    }
}

} // verus!
