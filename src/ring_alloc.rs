//! A ring of contiguous variable-sized allocations that may be freed in any order.
use std::collections::VecDeque;

use vstd::prelude::*;

use crate::align::{align_up_spec, lemma_align_up};

verus! {

/// Handle to one allocation of a [`RingAlloc`], numbered in allocation order.
#[derive(Debug, Copy, Clone)]
pub struct Id(u64);

impl Id {
    /// The allocation number this handle carries.
    pub closed spec fn value(&self) -> u64 {
        self.0
    }
}

/// State tracker for a ring buffer of contiguous variable-sized allocations with random frees
///
/// Allocations grow upward from offset 0. Space is only reclaimed from the oldest allocation
/// onward, once it and everything before it has been freed.
pub struct RingAlloc {
    /// Total size available to allocate
    capacity: usize,
    /// List of starting offsets, and whether they've been freed
    allocations: VecDeque<(usize, bool)>,
    /// Offset at which the next allocation will start
    head: usize,
    /// Number of allocations which have been freed
    ///
    /// Tracking this supports random freeing by making it easy to keep track of a single element
    /// inside `allocations` even as items are added/removed.
    freed: u64,
}

/// Numbering from `first` onward wraps around, and counting back from `first` undoes it.
proof fn lemma_wrapped_index(first: u64, n: int)
    requires
        0 <= n <= u64::MAX,
    ensures
        vstd::wrapping::u64_specs::wrapping_sub(
            vstd::wrapping::u64_specs::wrapping_add(first, n as u64),
            first,
        ) == n,
{
}

/// Advancing the first number by one moves every later allocation one place forward.
proof fn lemma_wrapped_step(x: u64, first: u64)
    requires
        vstd::wrapping::u64_specs::wrapping_sub(x, first) >= 1,
    ensures
        vstd::wrapping::u64_specs::wrapping_sub(
            x,
            vstd::wrapping::u64_specs::wrapping_add(first, 1),
        ) == vstd::wrapping::u64_specs::wrapping_sub(x, first) - 1,
{
}

/// Units of padding that bring `offset` up to a multiple of `align`.
pub open spec fn padding(offset: int, align: int) -> int {
    align_up_spec(offset, align) - offset
}

impl RingAlloc {
    /// Live allocations, oldest first: where each starts and whether it has been freed.
    pub closed spec fn entries(&self) -> Seq<(usize, bool)> {
        self.allocations@
    }

    /// Offset at which the next allocation starts.
    pub closed spec fn head_spec(&self) -> int {
        self.head as int
    }

    /// Total units of the ring.
    pub closed spec fn capacity_spec(&self) -> int {
        self.capacity as int
    }

    /// Position in `entries()` of the allocation that `id` names.
    pub closed spec fn index_of(&self, id: Id) -> int {
        vstd::wrapping::u64_specs::wrapping_sub(id.0, self.freed) as int
    }

    pub closed spec fn wf(&self) -> bool {
        &&& self.head <= self.capacity
        &&& forall|i: int| 0 <= i < self.allocations@.len() ==> self.allocations@[i].0 <= self.capacity
    }

    /// Where `allocate(size, align)` places its result, as (returned offset, recorded start,
    /// next head): from the head up to the end of the buffer, else from 0 up to the oldest live
    /// allocation when the ring is wrapped, else between head and the oldest live allocation.
    pub open spec fn plan(&self, size: int, align: int) -> Option<(int, int, int)> {
        let e = self.entries();
        let head = self.head_spec();
        let cap = self.capacity_spec();
        if e.len() == 0 {
            if size <= cap {
                Some((0, 0, size))
            } else {
                None
            }
        } else {
            let tail = e[0].0 as int;
            let pad = padding(head, align);
            let need = size + pad;
            if head > tail {
                if cap - head >= need {
                    Some((head + pad, head, (head + need) % cap))
                } else if tail >= need {
                    Some((0, 0, need))
                } else {
                    None
                }
            } else if tail - head >= need {
                Some((head + pad, head, head + need))
            } else {
                None
            }
        }
    }

    /// An empty ring of `capacity` units.
    pub fn new(capacity: usize) -> (r: Self)
        ensures
            r.wf(),
            r.entries().len() == 0,
            r.head_spec() == 0,
            r.capacity_spec() == capacity,
    {
        RingAlloc { capacity, allocations: VecDeque::new(), head: 0, freed: 0 }
    }

    /// Returns the starting offset of a contiguous run of `size` units, or `None` if none exists.
    pub fn allocate(&mut self, size: usize, align: usize) -> (r: Option<(usize, Id)>)
        requires
            old(self).wf(),
            align > 0,
            old(self).entries().len() < u64::MAX,
        ensures
            final(self).wf(),
            final(self).capacity_spec() == old(self).capacity_spec(),
            r is None ==> old(self).plan(size as int, align as int) is None && final(self).entries()
                == old(self).entries() && final(self).head_spec() == old(self).head_spec(),
            r matches Some((o, id)) ==> {
                let (off, start, next) = old(self).plan(size as int, align as int)->0;
                &&& old(self).plan(size as int, align as int) is Some
                &&& o == off
                &&& o % align == 0
                &&& o + size <= old(self).capacity_spec()
                &&& final(self).head_spec() == next
                &&& old(self).entries().len() == 0 ==> final(self).entries() == seq![(0usize, false)]
                &&& old(self).entries().len() > 0 ==> final(self).entries()
                    == old(self).entries().push((start as usize, false))
                &&& final(self).index_of(id) == final(self).entries().len() - 1
                &&& forall|x: Id|
                    0 <= old(self).index_of(x) < old(self).entries().len() ==> final(self).index_of(
                        x,
                    ) == old(self).index_of(x)
            },
    {
        if self.allocations.len() == 0 {
            if size > self.capacity {
                return None;
            }
            // No allocations, reset to initial state
            self.allocations.push_back((0, false));
            self.head = size;
            self.freed = 0;
            assert(0usize % align == 0) by (nonlinear_arith)
                requires align > 0usize;
            return Some((0, Id(0)));
        }
        let tail = self.allocations[0].0;
        let misalignment = self.head % align;
        let padding = if misalignment == 0 {
            0
        } else {
            align - misalignment
        };
        proof {
            lemma_align_up(self.head as int, align as int);
        }
        let size = match size.checked_add(padding) {
            Some(n) => n,
            None => return None,
        };
        let id = Id(self.freed.wrapping_add(self.allocations.len() as u64));
        proof {
            lemma_wrapped_index(self.freed, self.allocations@.len() as int);
        }
        if self.head > tail {
            // There's a run from the head to the end of the buffer
            let free = self.capacity - self.head;
            if free >= size {
                let start = self.head;
                self.allocations.push_back((start, false));
                self.head = (start + size) % self.capacity;
                return Some((start + padding, id));
            }
            // and from the start of the buffer to the tail
            if tail >= size {
                assert(0usize % align == 0) by (nonlinear_arith)
                    requires align > 0usize;
                self.allocations.push_back((0, false));
                self.head = size;
                return Some((0, id));
            }
            return None;
        }
        // Only one run, from head to tail
        let free = tail - self.head;
        if free >= size {
            let start = self.head;
            self.allocations.push_back((start, false));
            self.head = start + size;
            return Some((start + padding, id));
        }
        None
    }
    /// Mark the allocation `id` as freed, then release every freed allocation at the front.
    pub fn free(&mut self, id: Id)
        requires
            old(self).wf(),
            0 <= old(self).index_of(id) < old(self).entries().len(),
        ensures
            final(self).wf(),
            final(self).capacity_spec() == old(self).capacity_spec(),
            final(self).head_spec() == old(self).head_spec(),
            ({
                let n = old(self).entries().len();
                let i = old(self).index_of(id);
                let marked = old(self).entries().update(i, (old(self).entries()[i].0, true));
                let k = n - final(self).entries().len();
                &&& 0 <= k <= n
                &&& final(self).entries() == marked.subrange(k, n as int)
                &&& forall|j: int| 0 <= j < k ==> marked[j].1
                &&& k < n ==> !marked[k].1
                &&& forall|x: Id|
                    k <= old(self).index_of(x) < n ==> final(self).index_of(x) == old(
                        self,
                    ).index_of(x) - k
            }),
    {
        let ghost f0 = self.freed;
        let ghost n = self.allocations@.len();
        let len = self.allocations.len();
        assert(len == n);
        let index = id.0.wrapping_sub(self.freed);
        assert(index < len);
        let i = index as usize;
        let (start, _) = self.allocations[i];
        let _ = self.allocations.remove(i);
        self.allocations.insert(i, (start, true));
        let ghost marked = self.allocations@;
        assert(marked =~= old(self).entries().update(i as int, (start, true)));
        while self.allocations.len() > 0 && self.allocations[0].1
            invariant
                self.head <= self.capacity,
                self.capacity == old(self).capacity,
                self.head == old(self).head,
                marked.len() == n,
                forall|j: int| 0 <= j < n ==> marked[j].0 <= self.capacity,
                self.allocations@.len() <= n,
                self.allocations@ == marked.subrange(n - self.allocations@.len(), n as int),
                forall|j: int| 0 <= j < n - self.allocations@.len() ==> marked[j].1,
                forall|x: Id|
                    n - self.allocations@.len() <= vstd::wrapping::u64_specs::wrapping_sub(x.0, f0)
                        < n ==> vstd::wrapping::u64_specs::wrapping_sub(x.0, self.freed)
                        == vstd::wrapping::u64_specs::wrapping_sub(x.0, f0) - (n
                        - self.allocations@.len()),
            decreases self.allocations@.len(),
        {
            let ghost f = self.freed;
            let ghost k = n - self.allocations@.len();
            self.allocations.pop_front();
            self.freed = self.freed.wrapping_add(1);
            proof {
                assert forall|x: Id|
                    n - self.allocations@.len() <= vstd::wrapping::u64_specs::wrapping_sub(x.0, f0)
                        < n implies vstd::wrapping::u64_specs::wrapping_sub(x.0, self.freed)
                    == vstd::wrapping::u64_specs::wrapping_sub(x.0, f0) - (n
                    - self.allocations@.len()) by {
                    lemma_wrapped_step(x.0, f);
                }
                assert(self.allocations@ =~= marked.subrange(
                    n - self.allocations@.len(),
                    n as int,
                ));
            }
        }
        proof {
            if self.allocations@.len() > 0 {
                assert(self.allocations@[0] == marked[n - self.allocations@.len()]);
            }
            assert forall|x: Id|
                n - self.allocations@.len() <= old(self).index_of(x) < n implies self.index_of(x)
                == old(self).index_of(x) - (n - self.allocations@.len()) by {}
        }
    }

    /// Largest allocation of alignment 1 that can currently succeed
    pub fn available(&self) -> (r: usize)
        requires
            self.wf(),
        ensures
            forall|n: int| 0 <= n ==> (self.plan(n, 1) is Some <==> n <= r),
    {
        proof {
            lemma_align_up(self.head as int, 1);
            assert(padding(self.head as int, 1) == 0);
        }
        if self.allocations.len() == 0 {
            return self.capacity;
        }
        let tail = self.allocations[0].0;
        if self.head == tail {
            // The empty case is caught above, so we must be full.
            return 0;
        }
        if self.head < tail {
            return tail - self.head;
        }
        let wrapped = self.capacity - self.head;
        if tail >= wrapped {
            tail
        } else {
            wrapped
        }
    }
}

} // verus!
