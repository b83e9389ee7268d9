//! A ring allocator whose allocations are released by a monotonic timeline counter.
use std::collections::VecDeque;

use vstd::prelude::*;

use crate::align::lemma_align_down;
use crate::ring_state::RingState;

verus! {

/// An allocation that is still live: `size` units at `offset`, released once the timeline
/// reaches `free_at`.
#[derive(Copy, Clone, Debug)]
pub struct Pending {
    pub free_at: u64,
    pub offset: usize,
    pub size: usize,
}

/// Whether the ranges `[a.offset, a.offset + a.size)` and `[b.offset, b.offset + b.size)` are
/// disjoint.
pub open spec fn disjoint(a: Pending, b: Pending) -> bool {
    a.offset + a.size <= b.offset || b.offset + b.size <= a.offset
}

/// The cursors `s` over a buffer of `size` units hold the live allocations `p`, oldest first:
/// each lies below `tail` and below every older one on the line that `RingState::unwrap` lays
/// out, and their release times never decrease.
spec fn layout_ok(s: RingState, p: Seq<Pending>, size: usize) -> bool {
    &&& s.capacity == size
    &&& size >= 1
    &&& s.head < size
    &&& s.tail < size
    &&& p.len() == 0 ==> s.head == s.tail
    &&& p.len() > 0 ==> s.head == p.last().offset
    &&& forall|i: int|
        0 <= i < p.len() ==> {
            &&& p[i].offset < size
            &&& p[i].offset + p[i].size <= size
            &&& s.unwrap(p[i].offset as int) + p[i].size <= s.tail
        }
    &&& forall|i: int, j: int|
        0 <= i < j < p.len() ==> s.unwrap(p[j].offset as int) + p[j].size <= s.unwrap(
            p[i].offset as int,
        )
    &&& forall|i: int, j: int| 0 <= i <= j < p.len() ==> p[i].free_at <= p[j].free_at
}

/// Moving `tail` onto the oldest allocation and dropping it keeps the others laid out.
proof fn lemma_retire_front(s: RingState, p: Seq<Pending>, size: usize)
    requires
        layout_ok(s, p, size),
        p.len() >= 2,
    ensures
        layout_ok(RingState { tail: p[0].offset, ..s }, p.drop_first(), size),
{
    let t = RingState { tail: p[0].offset, ..s };
    let q = p.drop_first();
    let o1 = p[0].offset as int;
    let shift = t.unwrap(o1) - s.unwrap(o1);
    assert forall|x: int| 0 <= x < size && s.unwrap(x) <= s.unwrap(o1) implies t.unwrap(x)
        == s.unwrap(x) + shift by {}
    assert forall|i: int| 0 <= i < q.len() implies t.unwrap(q[i].offset as int) == s.unwrap(
        q[i].offset as int,
    ) + shift by {
        assert(q[i] == p[i + 1]);
        assert(s.unwrap(p[i + 1].offset as int) + p[i + 1].size <= s.unwrap(o1));
    }
    assert(s.head == q.last().offset);
}

/// A circular allocator for tracking resources released by timeline semaphores
///
/// One unit beyond the requested capacity is kept spare so that a full ring and an empty ring
/// are told apart by the cursors alone.
pub struct TimelineRing {
    size: usize,
    allocations: VecDeque<Pending>,
    state: RingState,
}

impl TimelineRing {
    /// Live allocations, oldest first.
    pub closed spec fn pending(&self) -> Seq<Pending> {
        self.allocations@
    }

    /// The cursors over the backing buffer, which spans one unit more than `capacity()`.
    pub closed spec fn ring(&self) -> RingState {
        self.state
    }

    /// Allocations appear from `tail` downward, each below the one before it, on the line that
    /// `RingState::unwrap` lays out.
    pub closed spec fn wf(&self) -> bool {
        layout_ok(self.state, self.allocations@, self.size)
    }

    /// A ring that can hold `capacity` units.
    pub fn new(capacity: usize) -> (r: Self)
        requires
            capacity < usize::MAX,
        ensures
            r.wf(),
            r.pending().len() == 0,
            r.ring().head == 0,
            r.ring().tail == 0,
            r.ring().capacity == capacity + 1,
    {
        let size = capacity + 1;
        Self { size, allocations: VecDeque::new(), state: RingState::new(size) }
    }

    /// Returns an offset into the ring to be freed when `tick` is called with `free_at`, or `None`
    /// if there is not currently enough space
    pub fn allocate(&mut self, size: usize, align: usize, free_at: u64) -> (r: Option<usize>)
        requires
            old(self).wf(),
            align > 0,
            old(self).pending().len() > 0 ==> old(self).pending().last().free_at <= free_at,
        ensures
            final(self).wf(),
            r matches Some(o) ==> {
                &&& old(self).ring().pick(size as int, align as int) == Some(o as int)
                &&& o % align == 0
                &&& final(self).pending() == old(self).pending().push(
                    Pending { free_at, offset: o, size },
                )
                &&& final(self).ring().head == o
                &&& final(self).ring().tail == old(self).ring().tail
            },
            r is None ==> {
                &&& old(self).ring().pick(size as int, align as int) is None
                &&& final(self).pending() == old(self).pending()
                &&& final(self).ring() == old(self).ring()
            },
            final(self).ring().capacity == old(self).ring().capacity,
    {
        let ghost before = self.state;
        let r = self.state.allocate(size, align);
        match r {
            Some(offset) => {
                let item = Pending { free_at, offset, size };
                let ghost p = self.allocations@;
                self.allocations.push_back(item);
                proof {
                    let q = self.allocations@;
                    assert(q.len() == p.len() + 1);
                    assert forall|i: int, j: int| 0 <= i < j < q.len() implies before.unwrap(
                        q[j].offset as int,
                    ) + q[j].size <= before.unwrap(q[i].offset as int) by {
                        if j == q.len() - 1 {
                            assert(q[i] == p[i]);
                            assert(before.unwrap(p[p.len() - 1].offset as int) + p[p.len()
                                - 1].size <= before.unwrap(p[i].offset as int)
                                || i == p.len() - 1);
                        } else {
                            assert(q[i] == p[i] && q[j] == p[j]);
                        }
                    }
                    assert forall|i: int, j: int| 0 <= i <= j < q.len() implies q[i].free_at
                        <= q[j].free_at by {
                        if j == q.len() - 1 && i < j {
                            assert(q[i] == p[i]);
                            assert(p[i].free_at <= p[p.len() - 1].free_at);
                        }
                    }
                }
                Some(offset)
            },
            None => None,
        }
    }

    /// Units that the ring can hold when empty.
    pub fn capacity(&self) -> (r: usize)
        requires
            self.wf(),
        ensures
            r == self.ring().capacity - 1,
    {
        self.size - 1
    }

    /// Largest allocation of alignment 1 that can currently succeed.
    pub fn free(&self) -> (r: usize)
        requires
            self.wf(),
        ensures
            forall|n: int| 0 <= n ==> (self.ring().pick(n, 1) is Some <==> n <= r),
            r < self.ring().capacity,
    {
        proof {
            assert forall|x: int| x >= 0 implies crate::align::align_down_spec(x, 1) == x by {
                lemma_align_down(x, 1);
            }
        }
        if self.state.head > self.state.tail {
            return self.state.head - self.state.tail - 1;
        }
        let wrapped = self.size - self.state.tail - 1;
        if self.state.head >= wrapped {
            self.state.head
        } else {
            wrapped
        }
    }
    /// Free allocations that expire at or before `time`, returning whether any allocations were
    /// freed
    pub fn tick(&mut self, time: u64) -> (r: bool)
        requires
            old(self).wf(),
        ensures
            final(self).wf(),
            final(self).pending().len() <= old(self).pending().len(),
            final(self).pending() == old(self).pending().subrange(
                old(self).pending().len() - final(self).pending().len(),
                old(self).pending().len() as int,
            ),
            forall|i: int|
                0 <= i < old(self).pending().len() - final(self).pending().len() ==> old(
                    self,
                ).pending()[i].free_at <= time,
            forall|i: int|
                0 <= i < final(self).pending().len() ==> final(self).pending()[i].free_at > time,
            r == (final(self).pending().len() < old(self).pending().len()),
            final(self).ring().capacity == old(self).ring().capacity,
            !r ==> final(self).ring() == old(self).ring(),
            r && final(self).pending().len() == 0 ==> final(self).ring().head
                == final(self).ring().capacity - 1 && final(self).ring().tail
                == final(self).ring().capacity - 1,
            r && final(self).pending().len() > 0 ==> final(self).ring().head == old(
                self,
            ).ring().head && final(self).ring().tail == old(self).pending()[old(
                self,
            ).pending().len() - final(self).pending().len() - 1].offset,
    {
        let ghost initial = self.allocations@;
        let ghost s0 = self.state;
        let alloc_count = self.allocations.len();
        while self.allocations.len() > 0 && self.allocations[0].free_at <= time
            invariant
                layout_ok(self.state, self.allocations@, self.size),
                self.size == s0.capacity,
                self.allocations@.len() <= initial.len(),
                alloc_count == initial.len(),
                self.allocations@ == initial.subrange(
                    initial.len() - self.allocations@.len(),
                    initial.len() as int,
                ),
                forall|i: int| 0 <= i < initial.len() - self.allocations@.len() ==> initial[i].free_at <= time,
                self.allocations@.len() == initial.len() ==> self.state == s0,
                0 < self.allocations@.len() < initial.len() ==> self.state.head == s0.head
                    && self.state.tail == initial[initial.len() - self.allocations@.len() - 1].offset,
                self.allocations@.len() == 0 && initial.len() > 0 ==> self.state.head == self.size - 1
                    && self.state.tail == self.size - 1,
            decreases self.allocations@.len(),
        {
            let ghost s = self.state;
            let ghost p = self.allocations@;
            let front = self.allocations[0];
            self.state.tail = front.offset;
            self.allocations.pop_front();
            if self.allocations.len() == 0 {
                // Drained: restart at the top so a maximum size allocation fits
                self.state.tail = self.size - 1;
                self.state.head = self.size - 1;
            } else {
                proof {
                    lemma_retire_front(s, p, self.size);
                    assert(self.allocations@ == p.drop_first());
                }
            }
            proof {
                let k = initial.len() - p.len();
                assert(p[0] == initial[k]);
                assert(self.allocations@ =~= initial.subrange(
                    initial.len() - self.allocations@.len(),
                    initial.len() as int,
                ));
            }
        }
        proof {
            let p = self.allocations@;
            if p.len() > 0 {
                assert forall|i: int| 0 <= i < p.len() implies p[i].free_at > time by {
                    assert(p[0].free_at <= p[i].free_at);
                }
            }
        }
        self.allocations.len() != alloc_count
    }
}

/// Live allocations never overlap, and each lies inside the backing buffer: this holds of every
/// ring reachable through `new`, `allocate` and `tick`, since each of them keeps `wf`.
pub proof fn lemma_live_allocations_disjoint(r: &TimelineRing)
    requires
        r.wf(),
    ensures
        forall|i: int|
            0 <= i < r.pending().len() ==> r.pending()[i].offset + r.pending()[i].size
                <= r.ring().capacity,
        forall|i: int, j: int|
            0 <= i < r.pending().len() && 0 <= j < r.pending().len() && i != j ==> disjoint(
                r.pending()[i],
                r.pending()[j],
            ),
{
    let s = r.state;
    let p = r.allocations@;
    assert forall|i: int, j: int|
        0 <= i < p.len() && 0 <= j < p.len() && i != j implies disjoint(p[i], p[j]) by {
        let (a, b) = if i < j {
            (i, j)
        } else {
            (j, i)
        };
        assert(s.unwrap(p[b].offset as int) + p[b].size <= s.unwrap(p[a].offset as int));
        assert(s.unwrap(p[a].offset as int) + p[a].size <= s.tail);
        assert(s.unwrap(p[b].offset as int) + p[b].size <= s.tail);
    }
}

} // verus!
