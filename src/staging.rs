//! Placement decisions of self-growing staging buffers.
//!
//! The device buffers themselves are created and mapped by the caller; these types decide where
//! each allocation goes and when a larger buffer must replace the current one.
use vstd::prelude::*;

use crate::ring_state::RingState;

verus! {

/// Where an allocation landed, and whether the backing buffer had to be replaced first.
#[derive(Copy, Clone, Debug, PartialEq, Eq, Structural)]
pub struct Placement {
    /// Offset of the allocation in the current buffer
    pub offset: usize,
    /// `Some(size)` when a new buffer of `size` units replaced the old one, which must then be
    /// kept alive until the work reading it has finished
    pub grown_to: Option<usize>,
}

/// A self-growing circular allocator that frees memory per frame
pub struct StagingRing {
    state: RingState,
    /// VkPhysicalDeviceLimits::optimalBufferCopyOffsetAlignment
    align: usize,
    /// Head of the ring at the start of each frame in flight
    frames: Vec<usize>,
    current_frame: usize,
}

/// The larger of `a` and `b`.
pub open spec fn max_spec(a: int, b: int) -> int {
    if a >= b {
        a
    } else {
        b
    }
}

impl StagingRing {
    /// The ring's cursors over the current buffer.
    pub closed spec fn ring(&self) -> RingState {
        self.state
    }

    /// Alignment every allocation respects.
    pub closed spec fn base_align(&self) -> usize {
        self.align
    }

    /// Heads recorded at the start of each frame in flight.
    pub closed spec fn frame_heads(&self) -> Seq<usize> {
        self.frames@
    }

    /// The frame now being recorded.
    pub closed spec fn current_frame(&self) -> int {
        self.current_frame as int
    }

    pub closed spec fn wf(&self) -> bool {
        &&& self.state.wf()
        &&& 1 <= self.align <= usize::MAX / 4
        &&& self.frames@.len() >= 1
        &&& self.current_frame < self.frames@.len()
        &&& forall|i: int| 0 <= i < self.frames@.len() ==> #[trigger] self.frames@[i] <= self.state.capacity
    }

    /// A ring able to hold `capacity` bytes at once, cycling through `frames` frames in flight,
    /// with every offset a multiple of `align`.
    pub fn new(frames: usize, capacity: usize, align: usize) -> (r: Self)
        requires
            frames >= 1,
            1 <= align <= usize::MAX / 4,
            capacity < usize::MAX,
        ensures
            r.wf(),
            r.ring().capacity == capacity + 1,
            r.ring().head == 0,
            r.ring().tail == 0,
            r.base_align() == align,
            r.frame_heads().len() == frames,
            r.current_frame() == 0,
    {
        let mut heads: Vec<usize> = Vec::new();
        let mut i: usize = 0;
        while i < frames
            invariant
                i <= frames,
                heads@.len() == i,
                forall|j: int| 0 <= j < i ==> #[trigger] heads@[j] == 0,
            decreases frames - i,
        {
            heads.push(0);
            i = i + 1;
        }
        Self { state: RingState::new(capacity + 1), align, frames: heads, current_frame: 0 }
    }

    /// Units of the current buffer.
    pub fn capacity(&self) -> (r: usize)
        ensures
            r == self.ring().capacity,
    {
        self.state.capacity
    }

    /// Allocate `n` bytes at a multiple of both `align` and the ring's own alignment. When the
    /// current buffer has no room, the ring restarts on a buffer of twice the capacity, or of
    /// `n` plus the alignment if that is larger, and reports the new size.
    pub fn allocate(&mut self, n: usize, align: usize) -> (r: Placement)
        requires
            old(self).wf(),
            align >= 1,
            n <= usize::MAX / 4,
            align <= usize::MAX / 4,
            old(self).ring().capacity <= usize::MAX / 2,
        ensures
            final(self).wf(),
            ({
                let a = max_spec(old(self).base_align() as int, align as int);
                let fits = old(self).ring().pick(n as int, a);
                &&& (r.offset as int) % a == 0
                &&& r.offset + n <= final(self).ring().capacity
                &&& fits is Some ==> r.grown_to is None && fits == Some(r.offset as int)
                    && final(self).ring().capacity == old(self).ring().capacity
                &&& fits is None ==> r.grown_to == Some(final(self).ring().capacity)
                    && final(self).ring().capacity == max_spec(
                    n + a,
                    2 * old(self).ring().capacity,
                ) && final(self).ring().tail == 0
            }),
            final(self).base_align() == old(self).base_align(),
            final(self).frame_heads() == old(self).frame_heads(),
            final(self).current_frame() == old(self).current_frame(),
    {
        let align = if self.align >= align {
            self.align
        } else {
            align
        };
        match self.state.allocate(n, align) {
            Some(offset) => Placement { offset, grown_to: None },
            None => {
                // Room for `n` bytes plus alignment, leaving the spare slot of an empty ring
                let doubled = self.state.capacity * 2;
                let new_size = if n + align >= doubled {
                    n + align
                } else {
                    doubled
                };
                self.state = RingState::new(new_size);
                proof {
                    crate::align::lemma_align_down((new_size - n) as int, align as int);
                }
                let offset = match self.state.allocate(n, align) {
                    Some(o) => o,
                    None => {
                        // An empty ring of at least `n + align` units always has room
                        proof {
                            assert(false);
                        }
                        0
                    },
                };
                Placement { offset, grown_to: Some(new_size) }
            },
        }
    }

    /// Start a new frame: remember where this frame's allocations end, then release everything
    /// allocated during the oldest frame in flight, which is recycled now.
    pub fn begin_frame(&mut self)
        requires
            old(self).wf(),
        ensures
            final(self).wf(),
            ({
                let d = old(self).frame_heads().len() as int;
                let c = old(self).current_frame();
                let next = if c + 1 < d {
                    c + 1
                } else {
                    0
                };
                let heads = old(self).frame_heads().update(c, old(self).ring().head);
                &&& final(self).frame_heads() == heads
                &&& final(self).current_frame() == next
                &&& final(self).ring().tail == heads[next]
                &&& final(self).ring().head == old(self).ring().head
                &&& final(self).ring().capacity == old(self).ring().capacity
            }),
            final(self).base_align() == old(self).base_align(),
    {
        let c = self.current_frame;
        self.frames.set(c, self.state.head);
        let d = self.frames.len();
        proof {
            if c + 1 < d {
                vstd::arithmetic::div_mod::lemma_small_mod((c + 1) as nat, d as nat);
            } else {
                vstd::arithmetic::div_mod::lemma_mod_self_0(d as int);
            }
        }
        self.current_frame = (c + 1) % d;
        self.state.tail = self.frames[self.current_frame];
    }
}

} // verus!
