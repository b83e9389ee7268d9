//! Submission state of a fence that futures wait on.
use vstd::prelude::*;

verus! {

/// Whether a fence has been handed to the device yet, and who waits for that to happen.
pub enum SubmitState<W> {
    /// Not submitted, nobody waiting
    Unsubmitted,
    /// Not submitted; `W` is to be woken once it is
    Blocking(W),
    /// Submitted, so waiting on the fence itself is defined
    Done,
}

impl<W> SubmitState<W> {
    /// Whether the fence has been submitted.
    pub fn is_done(&self) -> (r: bool)
        ensures
            r == (self is Done),
    {
        match *self {
            SubmitState::Done => true,
            _ => false,
        }
    }

    /// Declare the fence submitted, returning the waiter that must now be registered with the
    /// poller, if one was waiting.
    pub fn submitted(&mut self) -> (r: Option<W>)
        ensures
            *final(self) is Done,
            *old(self) is Blocking ==> r == Some(old(self)->Blocking_0),
            !(*old(self) is Blocking) ==> r is None,
    {
        let mut prev = SubmitState::Done;
        std::mem::swap(self, &mut prev);
        match prev {
            SubmitState::Blocking(w) => Some(w),
            _ => None,
        }
    }

    /// A waiter polls before submission: remember it and report `false`; once submitted, leave
    /// the state alone and report `true`.
    pub fn wait(&mut self, waiter: W) -> (r: bool)
        ensures
            r == (*old(self) is Done),
            r ==> *final(self) is Done,
            !r ==> *final(self) == SubmitState::Blocking(waiter),
    {
        if self.is_done() {
            return true;
        }
        *self = SubmitState::Blocking(waiter);
        false
    }
}

/// The items of `items` whose flag in `flags` equals `want`, in order.
pub open spec fn select<T>(items: Seq<T>, flags: Seq<bool>, want: bool) -> Seq<T>
    decreases items.len(),
{
    if items.len() == 0 {
        Seq::empty()
    } else {
        let rest = select(items.drop_last(), flags, want);
        if flags[items.len() - 1] == want {
            rest.push(items.last())
        } else {
            rest
        }
    }
}

/// Work waiting on device completion, polled by hand because the device offers no wakeup.
pub struct Outstanding<T> {
    items: Vec<T>,
}

impl<T> Outstanding<T> {
    /// Items still waiting, oldest first.
    pub closed spec fn items(&self) -> Seq<T> {
        self.items@
    }

    /// Nothing waiting.
    pub fn new() -> (r: Self)
        ensures
            r.items().len() == 0,
    {
        Outstanding { items: Vec::new() }
    }

    /// Number of items waiting.
    pub fn len(&self) -> (r: usize)
        ensures
            r == self.items().len(),
    {
        self.items.len()
    }

    /// The waiting items, to be checked against the device in this order.
    pub fn as_slice(&self) -> (r: &[T])
        ensures
            r@ == self.items(),
    {
        self.items.as_slice()
    }

    /// Start waiting on `item`.
    pub fn push(&mut self, item: T)
        ensures
            final(self).items() == old(self).items().push(item),
    {
        self.items.push(item);
    }

    /// Remove and return the items whose entry in `done` is `true`; the rest keep waiting in
    /// their order.
    pub fn take_done(&mut self, done: &Vec<bool>) -> (r: Vec<T>)
        requires
            done@.len() == old(self).items().len(),
        ensures
            r@ == select(old(self).items(), done@, true),
            final(self).items() == select(old(self).items(), done@, false),
    {
        let ghost all = self.items@;
        let mut rest: Vec<T> = Vec::new();
        std::mem::swap(&mut self.items, &mut rest);
        let mut out: Vec<T> = Vec::new();
        let n = rest.len();
        let mut i: usize = 0;
        while i < n
            invariant
                n == all.len(),
                done@.len() == n,
                i <= n,
                rest@ == all.subrange(i as int, n as int),
                out@ == select(all.subrange(0, i as int), done@, true),
                self.items@ == select(all.subrange(0, i as int), done@, false),
            decreases n - i,
        {
            let item = rest.remove(0);
            proof {
                let pre = all.subrange(0, i + 1);
                assert(item == all[i as int]);
                assert(pre.drop_last() == all.subrange(0, i as int));
                assert(pre.last() == all[i as int]);
                assert(rest@ == all.subrange(i + 1, n as int));
            }
            if done[i] {
                out.push(item);
            } else {
                self.items.push(item);
            }
            i = i + 1;
        }
        assert(all.subrange(0, n as int) == all);
        out
    }
}

/// Error indicating that an `AsyncQueue` has been destroyed
#[derive(Debug, Copy, Clone, PartialEq, Eq, Structural)]
pub struct Dead;

impl Dead {
    /// What went wrong, in words.
    pub fn message(&self) -> (r: &'static str) {
        "queue destroyed"
    }
}

/// The transfer reactor has shut down and accepts no more work.
#[derive(Debug, Copy, Clone, PartialEq, Eq, Structural)]
pub struct ShutDown;

/// Every producer handle has been dropped, so no work can arrive any more.
#[derive(Debug, Copy, Clone, PartialEq, Eq, Structural)]
pub struct Disconnected;

} // verus!
