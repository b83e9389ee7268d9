//! Ordering core of a multi-producer submission queue.
//!
//! Producers draw dense, increasing sequence numbers and report each one exactly once, either
//! with recorded commands to execute or as reset. The single consumer hands work to the device
//! only in unbroken runs of numbers, so a device counter that reaches `n` proves that everything
//! numbered up to `n` has finished.
use std::collections::VecDeque;

use vstd::prelude::*;

verus! {

/// Recorded commands together with the counter value the device reaches once they have run.
#[derive(Copy, Clone, Debug)]
pub struct Work<C> {
    /// Command buffer to record commands onto
    pub cmd: C,
    /// Value the timeline semaphore will reach when `cmd` has been executed
    pub time: u64,
}

/// What a producer reports for one sequence number.
#[derive(Copy, Clone, Debug)]
pub enum Message<C> {
    /// Execute the recorded commands.
    Execute(Work<C>),
    /// The number was drawn but nothing is to run for it.
    Reset(u64),
}

impl<C> Message<C> {
    pub open spec fn time_spec(&self) -> u64 {
        match self {
            Message::Execute(w) => w.time,
            Message::Reset(t) => *t,
        }
    }

    /// The sequence number this message reports.
    pub fn time(&self) -> (r: u64)
        ensures
            r == self.time_spec(),
    {
        match self {
            Message::Execute(w) => w.time,
            Message::Reset(t) => *t,
        }
    }
}

/// The commands that `msgs` carry for execution, in order.
pub open spec fn executed<C>(msgs: Seq<Message<C>>) -> Seq<C>
    decreases msgs.len(),
{
    if msgs.len() == 0 {
        Seq::empty()
    } else {
        let rest = executed(msgs.drop_last());
        match msgs.last() {
            Message::Execute(w) => rest.push(w.cmd),
            Message::Reset(_) => rest,
        }
    }
}

/// Sequence numbers of `msgs`.
pub open spec fn times<C>(msgs: Seq<Message<C>>) -> Set<u64> {
    Set::new(|t: u64| exists|i: int| 0 <= i < msgs.len() && msgs[i].time_spec() == t)
}

/// One device submission: `cmds` in order, signalling the counter value `signal`.
pub struct Batch<C> {
    pub cmds: Vec<C>,
    pub signal: u64,
}

/// Consumer-side state of the queue.
pub struct DrainState<C> {
    /// The lowest value that will not be signaled by work submitted to the queue so far
    first_unsubmitted: u64,
    /// The lowest value not yet reached by the semaphore
    first_unsignaled: u64,
    /// Received but not yet submitted, in increasing order of number
    pending: Vec<Message<C>>,
}

impl<C> DrainState<C> {
    /// Received messages not yet handed on, in increasing order of number.
    pub closed spec fn pending(&self) -> Seq<Message<C>> {
        self.pending@
    }

    /// Every number below this one has been handed to the device or dropped as reset.
    pub closed spec fn first_unsubmitted_spec(&self) -> u64 {
        self.first_unsubmitted
    }

    /// The lowest counter value not yet observed.
    pub closed spec fn first_unsignaled_spec(&self) -> u64 {
        self.first_unsignaled
    }

    pub closed spec fn wf(&self) -> bool {
        let p = self.pending@;
        &&& self.first_unsubmitted >= 1
        &&& forall|i: int|
            0 <= i < p.len() ==> self.first_unsubmitted <= #[trigger] p[i].time_spec() < u64::MAX
        &&& forall|i: int, j: int| 0 <= i < j < p.len() ==> p[i].time_spec() < p[j].time_spec()
    }

    /// A queue whose first number is 1, with nothing received.
    pub fn new() -> (r: Self)
        ensures
            r.wf(),
            r.pending().len() == 0,
            r.first_unsubmitted_spec() == 1,
            r.first_unsignaled_spec() == 1,
    {
        DrainState { first_unsubmitted: 1, first_unsignaled: 1, pending: Vec::new() }
    }

    /// The next number to be handed to the device.
    pub fn first_unsubmitted(&self) -> (r: u64)
        ensures
            r == self.first_unsubmitted_spec(),
    {
        self.first_unsubmitted
    }

    /// The lowest counter value not yet observed.
    pub fn first_unsignaled(&self) -> (r: u64)
        ensures
            r == self.first_unsignaled_spec(),
    {
        self.first_unsignaled
    }

    /// Number of received messages waiting for a gap to close.
    pub fn pending_len(&self) -> (r: usize)
        ensures
            r == self.pending().len(),
    {
        self.pending.len()
    }

    /// Accept a producer's report. A number already handed on, already waiting, or equal to
    /// `u64::MAX` is refused and `false` returned.
    pub fn receive(&mut self, msg: Message<C>) -> (accepted: bool)
        requires
            old(self).wf(),
        ensures
            final(self).wf(),
            final(self).first_unsubmitted_spec() == old(self).first_unsubmitted_spec(),
            final(self).first_unsignaled_spec() == old(self).first_unsignaled_spec(),
            accepted == (old(self).first_unsubmitted_spec() <= msg.time_spec() < u64::MAX
                && !times(old(self).pending()).contains(msg.time_spec())),
            !accepted ==> final(self).pending() == old(self).pending(),
            accepted ==> exists|k: int|
                0 <= k <= old(self).pending().len() && final(self).pending() == old(
                    self,
                ).pending().insert(k, msg),
    {
        let t = msg.time();
        if t < self.first_unsubmitted || t == u64::MAX {
            return false;
        }
        let mut i: usize = 0;
        while i < self.pending.len() && self.pending[i].time() < t
            invariant
                self.wf(),
                self.pending@ == old(self).pending@,
                0 <= i <= self.pending@.len(),
                forall|j: int| 0 <= j < i ==> self.pending@[j].time_spec() < t,
            decreases self.pending@.len() - i,
        {
            i = i + 1;
        }
        if i < self.pending.len() && self.pending[i].time() == t {
            return false;
        }
        proof {
            let p = self.pending@;
            assert forall|j: int| 0 <= j < p.len() implies p[j].time_spec() != t by {
                if j >= i {
                    assert(p[i as int].time_spec() > t);
                    if j > i {
                        assert(p[i as int].time_spec() < p[j].time_spec());
                    }
                }
            }
        }
        self.pending.insert(i, msg);
        proof {
            let p = old(self).pending@;
            let q = self.pending@;
            assert forall|a: int, b: int| 0 <= a < b < q.len() implies q[a].time_spec()
                < q[b].time_spec() by {
                if b < i {
                } else if b == i {
                    assert(q[a] == p[a]);
                } else if a == i {
                    assert(q[b] == p[b - 1]);
                    assert(p[i as int].time_spec() > t);
                    if b - 1 > i {
                        assert(p[i as int].time_spec() < p[b - 1].time_spec());
                    }
                } else if a < i {
                    assert(q[a] == p[a] && q[b] == p[b - 1]);
                } else {
                    assert(q[a] == p[a - 1] && q[b] == p[b - 1]);
                }
            }
            assert(q == p.insert(i as int, msg));
            assert(self.pending() == old(self).pending().insert(i as int, msg));
        }
        true
    }
    /// Hand on the longest unbroken run of numbers that starts at `first_unsubmitted`. Reset
    /// numbers close gaps without contributing commands. Returns the batch to submit, which
    /// signals the last number of the run, or `None` when the run carries no commands.
    pub fn drive(&mut self) -> (r: Option<Batch<C>>)
        requires
            old(self).wf(),
        ensures
            final(self).wf(),
            final(self).first_unsignaled_spec() == old(self).first_unsignaled_spec(),
            ({
                let first = old(self).first_unsubmitted_spec() as int;
                let k = final(self).first_unsubmitted_spec() - first;
                let p = old(self).pending();
                &&& 0 <= k <= p.len()
                &&& forall|j: int| 0 <= j < k ==> #[trigger] p[j].time_spec() == first + j
                &&& forall|t: u64| first <= t < first + k ==> #[trigger] times(p).contains(t)
                &&& !times(p).contains((first + k) as u64)
                &&& final(self).pending() == p.subrange(k, p.len() as int)
                &&& (r is None <==> executed(p.subrange(0, k)).len() == 0)
                &&& r matches Some(b) ==> b.cmds@ == executed(p.subrange(0, k)) && b.signal
                    == final(self).first_unsubmitted_spec() - 1
                &&& r matches Some(b) ==> b.signal >= old(self).first_unsubmitted_spec()
            }),
    {
        let ghost initial = self.pending@;
        let ghost first0 = self.first_unsubmitted as int;
        let mut cmds: Vec<C> = Vec::new();
        while self.pending.len() > 0 && self.pending[0].time() == self.first_unsubmitted
            invariant
                self.wf(),
                self.first_unsignaled == old(self).first_unsignaled,
                first0 <= self.first_unsubmitted <= first0 + initial.len(),
                self.pending@ == initial.subrange(self.first_unsubmitted - first0, initial.len() as int),
                forall|j: int|
                    0 <= j < self.first_unsubmitted - first0 ==> #[trigger] initial[j].time_spec()
                        == first0 + j,
                cmds@ == executed(initial.subrange(0, self.first_unsubmitted - first0)),
            decreases self.pending@.len(),
        {
            let ghost k = self.first_unsubmitted - first0;
            let m = self.pending.remove(0);
            assert(m == initial[k]);
            match m {
                Message::Execute(w) => cmds.push(w.cmd),
                Message::Reset(_) => {},
            }
            self.first_unsubmitted = self.first_unsubmitted + 1;
            proof {
                assert(initial.subrange(0, k + 1).drop_last() == initial.subrange(0, k));
                assert(self.pending@ == initial.subrange(k + 1, initial.len() as int));
            }
        }
        proof {
            let k = self.first_unsubmitted - first0;
            let t = (first0 + k) as u64;
            assert forall|u: u64| first0 <= u < first0 + k implies #[trigger] times(initial).contains(u) by {
                assert(initial[u - first0].time_spec() == u);
            }
            assert forall|j: int| 0 <= j < initial.len() implies initial[j].time_spec() != t by {
                if j >= k {
                    assert(self.pending@[j - k] == initial[j]);
                    assert(self.pending@[0] == initial[k]);
                    if k > 0 {
                        assert(initial[k - 1].time_spec() < initial[k].time_spec());
                    } else {
                        assert(initial[0].time_spec() >= first0);
                    }
                    if j > k {
                        assert(initial[k].time_spec() < initial[j].time_spec());
                    }
                }
            }
        }
        if cmds.len() == 0 {
            None
        } else {
            Some(Batch { cmds, signal: self.first_unsubmitted - 1 })
        }
    }
    /// The counter value that covers everything handed to the device so far; waiting for it is
    /// what `drain` does.
    pub fn last_submitted(&self) -> (r: u64)
        requires
            self.wf(),
        ensures
            r == self.first_unsubmitted_spec() - 1,
    {
        self.first_unsubmitted - 1
    }

    /// Record that the device counter has reached `complete`, as a wait in `park` reports.
    pub fn signaled(&mut self, complete: u64)
        requires
            old(self).wf(),
            complete < u64::MAX,
        ensures
            final(self).wf(),
            final(self).first_unsignaled_spec() == complete + 1,
            final(self).first_unsubmitted_spec() == old(self).first_unsubmitted_spec(),
            final(self).pending() == old(self).pending(),
    {
        self.first_unsignaled = complete + 1;
    }

    /// Record that everything handed to the device has finished, as `drain` ensures.
    pub fn drained(&mut self)
        requires
            old(self).wf(),
        ensures
            final(self).wf(),
            final(self).first_unsignaled_spec() == old(self).first_unsubmitted_spec(),
            final(self).first_unsubmitted_spec() == old(self).first_unsubmitted_spec(),
            final(self).pending() == old(self).pending(),
    {
        self.first_unsignaled = self.first_unsubmitted;
    }
}

/// Whether work numbered `time` has finished once the device counter reads `counter`.
pub fn is_complete(counter: u64, time: u64) -> (r: bool)
    ensures
        r == (time <= counter),
{
    time <= counter
}

/// No message held back by the consumer carries a number at or below the last value signalled,
/// so a counter at `first_unsubmitted - 1` can only follow work that was handed to the device.
pub proof fn lemma_signal_covers_handed_work<C>(q: &DrainState<C>)
    requires
        q.wf(),
    ensures
        forall|i: int|
            0 <= i < q.pending().len() ==> #[trigger] q.pending()[i].time_spec()
                > q.first_unsubmitted_spec() - 1,
{
}

/// Per-producer pool of command buffers: spare ones ready for recording, and submitted ones
/// that return to the pool once the counter passes their number.
pub struct CommandRecycler<C> {
    spare: Vec<C>,
    in_flight: VecDeque<Work<C>>,
}

impl<C> CommandRecycler<C> {
    /// Buffers ready for recording; the next one handed out is the last.
    pub closed spec fn spare(&self) -> Seq<C> {
        self.spare@
    }

    /// Buffers in use, in the order they were handed out.
    pub closed spec fn in_flight(&self) -> Seq<Work<C>> {
        self.in_flight@
    }

    /// A pool holding `fresh` as spare buffers.
    pub fn new(fresh: Vec<C>) -> (r: Self)
        ensures
            r.spare() == fresh@,
            r.in_flight().len() == 0,
    {
        CommandRecycler { spare: fresh, in_flight: VecDeque::new() }
    }

    /// Take a spare buffer, if there is one.
    pub fn take_spare(&mut self) -> (r: Option<C>)
        ensures
            final(self).in_flight() == old(self).in_flight(),
            old(self).spare().len() == 0 ==> r is None && final(self).spare() == old(self).spare(),
            old(self).spare().len() > 0 ==> r == Some(old(self).spare().last())
                && final(self).spare() == old(self).spare().drop_last(),
    {
        self.spare.pop()
    }

    /// Number of spare buffers.
    pub fn spare_len(&self) -> (r: usize)
        ensures
            r == self.spare().len(),
    {
        self.spare.len()
    }

    /// Number of buffers in use.
    pub fn in_flight_len(&self) -> (r: usize)
        ensures
            r == self.in_flight().len(),
    {
        self.in_flight.len()
    }

    /// Add freshly allocated buffers to the spare ones.
    pub fn refill(&mut self, fresh: Vec<C>)
        ensures
            final(self).spare() == old(self).spare() + fresh@,
            final(self).in_flight() == old(self).in_flight(),
    {
        let mut fresh = fresh;
        self.spare.append(&mut fresh);
    }

    /// Remember a buffer handed out for recording under its number.
    pub fn track(&mut self, work: Work<C>)
        ensures
            final(self).in_flight() == old(self).in_flight().push(work),
            final(self).spare() == old(self).spare(),
    {
        self.in_flight.push_back(work);
    }

    /// Return to the spare buffers every leading in-use buffer whose number the counter value
    /// `complete` has reached.
    pub fn reclaim(&mut self, complete: u64)
        ensures
            ({
                let f = old(self).in_flight();
                let k = f.len() - final(self).in_flight().len();
                &&& 0 <= k <= f.len()
                &&& forall|j: int| 0 <= j < k ==> #[trigger] f[j].time <= complete
                &&& k < f.len() ==> f[k].time > complete
                &&& final(self).in_flight() == f.subrange(k, f.len() as int)
                &&& final(self).spare() == old(self).spare() + f.subrange(0, k).map_values(
                    |w: Work<C>| w.cmd,
                )
            }),
    {
        let ghost f = self.in_flight@;
        let ghost s0 = self.spare@;
        while self.in_flight.len() > 0 && self.in_flight[0].time <= complete
            invariant
                self.in_flight@.len() <= f.len(),
                self.in_flight@ == f.subrange(f.len() - self.in_flight@.len(), f.len() as int),
                forall|j: int| 0 <= j < f.len() - self.in_flight@.len() ==> #[trigger] f[j].time
                    <= complete,
                self.spare@ == s0 + f.subrange(0, f.len() - self.in_flight@.len()).map_values(
                    |w: Work<C>| w.cmd,
                ),
            decreases self.in_flight@.len(),
        {
            let ghost k = f.len() - self.in_flight@.len();
            match self.in_flight.pop_front() {
                Some(w) => {
                    assert(w == f[k]);
                    self.spare.push(w.cmd);
                },
                None => {},
            }
            proof {
                assert(f.subrange(0, k + 1).map_values(|w: Work<C>| w.cmd) == f.subrange(
                    0,
                    k,
                ).map_values(|w: Work<C>| w.cmd).push(f[k].cmd));
                assert(self.in_flight@ == f.subrange(k + 1, f.len() as int));
            }
        }
        proof {
            let k = f.len() - self.in_flight@.len();
            if k < f.len() {
                assert(self.in_flight@[0] == f[k]);
            }
        }
    }
}

} // verus!
