//! Batching core of a queue that runs commands asynchronously and signals each batch's end.
use std::collections::VecDeque;

use vstd::prelude::*;

use crate::fence::Dead;

verus! {

/// Commands collected from every handle since the last submission.
pub struct PendingBatch<C> {
    cmds: Vec<C>,
    seq: u64,
    /// Whether no new work is being accepted
    dead: bool,
}

impl<C> PendingBatch<C> {
    pub closed spec fn cmds(&self) -> Seq<C> {
        self.cmds@
    }

    /// Number of the batch now being collected.
    pub closed spec fn seq_spec(&self) -> u64 {
        self.seq
    }

    pub closed spec fn is_dead(&self) -> bool {
        self.dead
    }

    /// An empty first batch that accepts work.
    pub fn new() -> (r: Self)
        ensures
            r.cmds().len() == 0,
            r.seq_spec() == 1,
            !r.is_dead(),
    {
        PendingBatch { cmds: Vec::new(), seq: 1, dead: false }
    }

    /// Number of the batch now being collected.
    pub fn seq(&self) -> (r: u64)
        ensures
            r == self.seq_spec(),
    {
        self.seq
    }

    /// Whether the queue has stopped accepting work.
    pub fn is_closed(&self) -> (r: bool)
        ensures
            r == self.is_dead(),
    {
        self.dead
    }

    /// Add `cmd` to the batch being collected and return that batch's number, or `Err(Dead)`
    /// once the queue has been closed.
    pub fn push(&mut self, cmd: C) -> (r: Result<u64, Dead>)
        ensures
            final(self).seq_spec() == old(self).seq_spec(),
            final(self).is_dead() == old(self).is_dead(),
            old(self).is_dead() ==> r is Err && final(self).cmds() == old(self).cmds(),
            !old(self).is_dead() ==> r == Ok::<u64, Dead>(old(self).seq_spec())
                && final(self).cmds() == old(self).cmds().push(cmd),
    {
        if self.dead {
            return Err(Dead);
        }
        self.cmds.push(cmd);
        Ok(self.seq)
    }

    /// Take the collected commands for submission and start the next batch, or `None` if
    /// nothing was collected.
    pub fn take(&mut self) -> (r: Option<Vec<C>>)
        requires
            old(self).seq_spec() < u64::MAX,
        ensures
            final(self).is_dead() == old(self).is_dead(),
            old(self).cmds().len() == 0 ==> r is None && final(self).cmds() == old(self).cmds()
                && final(self).seq_spec() == old(self).seq_spec(),
            old(self).cmds().len() > 0 ==> (r matches Some(v) && v@ == old(self).cmds()),
            old(self).cmds().len() > 0 ==> final(self).cmds().len() == 0 && final(self).seq_spec()
                == old(self).seq_spec() + 1,
    {
        if self.cmds.len() == 0 {
            return None;
        }
        self.seq = self.seq + 1;
        let mut cmds: Vec<C> = Vec::new();
        std::mem::swap(&mut self.cmds, &mut cmds);
        Some(cmds)
    }

    /// Stop accepting work and take whatever was collected.
    pub fn close(&mut self) -> (r: Vec<C>)
        ensures
            final(self).is_dead(),
            r@ == old(self).cmds(),
            final(self).cmds().len() == 0,
            final(self).seq_spec() == old(self).seq_spec(),
    {
        self.dead = true;
        let mut cmds: Vec<C> = Vec::new();
        std::mem::swap(&mut self.cmds, &mut cmds);
        cmds
    }
}

/// Submitted batches whose completion has not been announced yet, oldest first.
pub struct Completions<E> {
    in_flight: VecDeque<E>,
    batches_received: u64,
    batches_completed: u64,
}

impl<E> Completions<E> {
    pub closed spec fn in_flight(&self) -> Seq<E> {
        self.in_flight@
    }

    /// Batches submitted so far; the last one signals this counter value.
    pub closed spec fn received(&self) -> u64 {
        self.batches_received
    }

    /// Batches whose completion has been announced.
    pub closed spec fn completed(&self) -> u64 {
        self.batches_completed
    }

    pub closed spec fn wf(&self) -> bool {
        &&& self.batches_completed <= self.batches_received
        &&& self.in_flight@.len() == self.batches_received - self.batches_completed
    }

    /// Nothing submitted yet.
    pub fn new() -> (r: Self)
        ensures
            r.wf(),
            r.received() == 0,
            r.completed() == 0,
    {
        Completions { in_flight: VecDeque::new(), batches_received: 0, batches_completed: 0 }
    }

    /// Counter value the most recent batch signals.
    pub fn batches_received(&self) -> (r: u64)
        ensures
            r == self.received(),
    {
        self.batches_received
    }

    /// Counter value up to which completions have been announced.
    pub fn batches_completed(&self) -> (r: u64)
        ensures
            r == self.completed(),
    {
        self.batches_completed
    }

    /// Record a submitted batch, whose completion `event` announces; it signals the returned
    /// counter value.
    pub fn submitted(&mut self, event: E) -> (r: u64)
        requires
            old(self).wf(),
            old(self).received() < u64::MAX,
        ensures
            final(self).wf(),
            r == old(self).received() + 1,
            final(self).received() == r,
            final(self).completed() == old(self).completed(),
            final(self).in_flight() == old(self).in_flight().push(event),
    {
        self.batches_received = self.batches_received + 1;
        self.in_flight.push_back(event);
        self.batches_received
    }

    /// The counter has reached `completed`: return the events of every batch that finished since
    /// the last call, oldest first.
    pub fn broadcast(&mut self, completed: u64) -> (r: Vec<E>)
        requires
            old(self).wf(),
            old(self).completed() <= completed <= old(self).received(),
        ensures
            final(self).wf(),
            final(self).completed() == completed,
            final(self).received() == old(self).received(),
            r@ == old(self).in_flight().subrange(0, completed - old(self).completed()),
            final(self).in_flight() == old(self).in_flight().subrange(
                completed - old(self).completed(),
                old(self).in_flight().len() as int,
            ),
    {
        let newly = completed - self.batches_completed;
        let ghost f = self.in_flight@;
        let mut out: Vec<E> = Vec::new();
        let mut i: u64 = 0;
        while i < newly
            invariant
                i <= newly,
                newly <= f.len(),
                self.batches_received == old(self).batches_received,
                self.batches_completed == old(self).batches_completed,
                self.in_flight@ == f.subrange(i as int, f.len() as int),
                out@ == f.subrange(0, i as int),
            decreases newly - i,
        {
            match self.in_flight.pop_front() {
                Some(e) => {
                    out.push(e);
                },
                None => {},
            }
            proof {
                assert(f.subrange(0, i + 1) == f.subrange(0, i as int).push(f[i as int]));
                assert(self.in_flight@ == f.subrange(i + 1, f.len() as int));
            }
            i = i + 1;
        }
        self.batches_completed = completed;
        out
    }
}

} // verus!
