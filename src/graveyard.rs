//! Deferred destruction of device objects, a fixed number of frames after they were retired.
use vstd::prelude::*;

verus! {

/// The kinds of device object the registry can hold.
#[derive(Copy, Clone, Debug, PartialEq, Eq, Structural)]
pub enum HandleKind {
    Buffer,
    Image,
    ImageView,
    DeviceMemory,
    Framebuffer,
}

/// A retired device object: its kind and raw handle value.
pub type Retired = (HandleKind, u64);

/// Helper for deferred destruction of resources used within a frame
///
/// Holds one bucket per frame in flight. `begin_frame` moves the cursor onto the oldest bucket
/// and hands its contents back for destruction, so an object waits exactly `depth()` calls.
pub struct Graveyard {
    frames: Vec<Vec<Retired>>,
    cursor: usize,
    /// For each held object, the number of `begin_frame` calls made before it was retired
    stamps: Ghost<Seq<Seq<nat>>>,
    /// Number of `begin_frame` calls so far
    frame: Ghost<nat>,
}

/// The bucket `n` steps after `cursor` in a ring of `d` buckets, for `n <= d`.
pub open spec fn ahead(cursor: int, d: int, n: int) -> int {
    if cursor + n < d {
        cursor + n
    } else {
        cursor + n - d
    }
}

/// How many steps the cursor has made from bucket `b` to reach bucket `cursor`.
pub open spec fn lag(cursor: int, b: int, d: int) -> int {
    if cursor >= b {
        cursor - b
    } else {
        cursor - b + d
    }
}

/// Contents of `buckets` in the order that `n` calls of `begin_frame` from `cursor` hand them
/// back.
pub open spec fn gathered(buckets: Seq<Seq<Retired>>, cursor: int, n: nat) -> Seq<Retired>
    decreases n,
{
    if n == 0 {
        Seq::empty()
    } else {
        gathered(buckets, cursor, (n - 1) as nat) + buckets[ahead(cursor, buckets.len() as int, n as int)]
    }
}

impl Graveyard {
    /// Held objects, bucket by bucket.
    pub closed spec fn buckets(&self) -> Seq<Seq<Retired>> {
        self.frames@.map_values(|f: Vec<Retired>| f@)
    }

    /// The bucket that retiring an object appends to.
    pub closed spec fn cursor_spec(&self) -> int {
        self.cursor as int
    }

    /// For each held object, the frame it was retired in.
    pub closed spec fn stamps(&self) -> Seq<Seq<nat>> {
        self.stamps@
    }

    /// Number of `begin_frame` calls so far.
    pub closed spec fn frame(&self) -> nat {
        self.frame@
    }

    pub closed spec fn wf(&self) -> bool {
        let d = self.frames@.len() as int;
        &&& d >= 1
        &&& self.cursor < d
        &&& self.stamps@.len() == d
        &&& forall|b: int|
            0 <= b < d ==> (#[trigger] self.stamps@[b]).len() == self.frames@[b]@.len()
        &&& forall|b: int, i: int|
            0 <= b < d && 0 <= i < self.stamps@[b].len() ==> self.frame@ - #[trigger] self.stamps@[
                b
            ][i] == lag(self.cursor as int, b, d)
    }

    /// Construct a graveyard that destroys resources `depth` frames after they're passed to `inter`
    pub fn new(depth: usize) -> (r: Self)
        requires
            depth >= 1,
        ensures
            r.wf(),
            r.buckets().len() == depth,
            forall|b: int| 0 <= b < depth ==> (#[trigger] r.buckets()[b]).len() == 0,
            r.cursor_spec() == 0,
            r.frame() == 0,
    {
        let mut frames: Vec<Vec<Retired>> = Vec::new();
        let mut i: usize = 0;
        while i < depth
            invariant
                i <= depth,
                frames@.len() == i,
                forall|b: int| 0 <= b < i ==> (#[trigger] frames@[b])@.len() == 0,
            decreases depth - i,
        {
            frames.push(Vec::new());
            i = i + 1;
        }
        let ghost stamps = Seq::new(depth as nat, |b: int| Seq::<nat>::empty());
        let r = Graveyard { frames, cursor: 0, stamps: Ghost(stamps), frame: Ghost(0) };
        assert(r.buckets().len() == depth);
        r
    }

    /// Number of frames after which resources passed to `inter` are destroyed
    pub fn depth(&self) -> (r: usize)
        ensures
            r == self.buckets().len(),
    {
        self.frames.len()
    }

    /// Free `handle` after `self.depth()` frames
    pub fn inter_handle_dynamic(&mut self, kind: HandleKind, handle: u64)
        requires
            old(self).wf(),
        ensures
            final(self).wf(),
            final(self).cursor_spec() == old(self).cursor_spec(),
            final(self).frame() == old(self).frame(),
            final(self).buckets() == old(self).buckets().update(
                old(self).cursor_spec(),
                old(self).buckets()[old(self).cursor_spec()].push((kind, handle)),
            ),
            final(self).stamps() == old(self).stamps().update(
                old(self).cursor_spec(),
                old(self).stamps()[old(self).cursor_spec()].push(old(self).frame()),
            ),
    {
        let c = self.cursor;
        self.frames[c].push((kind, handle));
        proof {
            self.stamps@ = self.stamps@.update(c as int, self.stamps@[c as int].push(self.frame@));
            let d = self.frames@.len() as int;
            assert forall|b: int, i: int|
                0 <= b < d && 0 <= i < self.stamps@[b].len() implies self.frame@
                - #[trigger] self.stamps@[b][i] == lag(self.cursor as int, b, d) by {
                if b == c && i == self.stamps@[b].len() - 1 {
                } else {
                    assert(self.stamps@[b][i] == old(self).stamps@[b][i]);
                }
            }
            assert(self.buckets() =~= old(self).buckets().update(
                c as int,
                old(self).buckets()[c as int].push((kind, handle)),
            ));
        }
    }

    /// Free each of `handles` after `self.depth()` frames
    pub fn inter(&mut self, handles: Vec<Retired>)
        requires
            old(self).wf(),
        ensures
            final(self).wf(),
            final(self).cursor_spec() == old(self).cursor_spec(),
            final(self).frame() == old(self).frame(),
            final(self).buckets() == old(self).buckets().update(
                old(self).cursor_spec(),
                old(self).buckets()[old(self).cursor_spec()] + handles@,
            ),
    {
        let mut i: usize = 0;
        while i < handles.len()
            invariant
                old(self).wf(),
                self.wf(),
                i <= handles@.len(),
                self.cursor == old(self).cursor,
                self.frame@ == old(self).frame@,
                self.buckets() == old(self).buckets().update(
                    old(self).cursor_spec(),
                    old(self).buckets()[old(self).cursor_spec()] + handles@.subrange(0, i as int),
                ),
            decreases handles@.len() - i,
        {
            let (kind, handle) = handles[i];
            let ghost before = self.buckets();
            self.inter_handle_dynamic(kind, handle);
            proof {
                let c = old(self).cursor_spec();
                assert(before[c] == old(self).buckets()[c] + handles@.subrange(0, i as int));
                assert(handles@.subrange(0, i + 1) == handles@.subrange(0, i as int).push(
                    (kind, handle),
                ));
                assert(old(self).buckets()[c] + handles@.subrange(0, i + 1) =~= (old(
                    self,
                ).buckets()[c] + handles@.subrange(0, i as int)).push((kind, handle)));
                assert(self.buckets() =~= old(self).buckets().update(
                    old(self).cursor_spec(),
                    old(self).buckets()[old(self).cursor_spec()] + handles@.subrange(0, i + 1),
                ));
            }
            i = i + 1;
        }
        assert(handles@.subrange(0, handles@.len() as int) == handles@);
    }
    /// Free resources from `depth` frames ago: move the cursor onto the oldest bucket and return
    /// its contents, which the caller destroys.
    pub fn begin_frame(&mut self) -> (r: Vec<Retired>)
        requires
            old(self).wf(),
        ensures
            final(self).wf(),
            ({
                let d = old(self).buckets().len() as int;
                let c = ahead(old(self).cursor_spec(), d, 1);
                &&& final(self).cursor_spec() == c
                &&& final(self).frame() == old(self).frame() + 1
                &&& r@ == old(self).buckets()[c]
                &&& final(self).buckets() == old(self).buckets().update(c, Seq::empty())
                &&& final(self).stamps() == old(self).stamps().update(c, Seq::empty())
                &&& forall|i: int|
                    0 <= i < old(self).stamps()[c].len() ==> final(self).frame() - #[trigger] old(
                        self,
                    ).stamps()[c][i] == d
            }),
    {
        let d = self.frames.len();
        proof {
            if self.cursor + 1 < d {
                vstd::arithmetic::div_mod::lemma_small_mod((self.cursor + 1) as nat, d as nat);
            } else {
                vstd::arithmetic::div_mod::lemma_mod_self_0(d as int);
            }
        }
        self.cursor = (self.cursor + 1) % d;
        let c = self.cursor;
        let mut bucket: Vec<Retired> = Vec::new();
        std::mem::swap(&mut self.frames[c], &mut bucket);
        proof {
            let old_stamps = self.stamps@;
            self.stamps@ = self.stamps@.update(c as int, Seq::empty());
            self.frame@ = self.frame@ + 1;
            assert forall|b: int, i: int|
                0 <= b < d && 0 <= i < self.stamps@[b].len() implies self.frame@
                - #[trigger] self.stamps@[b][i] == lag(self.cursor as int, b, d as int) by {
                assert(self.stamps@[b][i] == old_stamps[b][i]);
            }
            assert forall|i: int| 0 <= i < old_stamps[c as int].len() implies self.frame@
                - #[trigger] old_stamps[c as int][i] == d by {}
            assert(self.buckets() =~= old(self).buckets().update(c as int, Seq::empty()));
        }
        bucket
    }

    /// Free all resources immediately: run `begin_frame` `depth()` times and return everything
    /// it handed back, in that order.
    pub fn clear(&mut self) -> (r: Vec<Retired>)
        requires
            old(self).wf(),
        ensures
            final(self).wf(),
            r@ == gathered(old(self).buckets(), old(self).cursor_spec(), old(self).buckets().len()),
            final(self).cursor_spec() == old(self).cursor_spec(),
            final(self).frame() == old(self).frame() + old(self).buckets().len(),
            final(self).buckets().len() == old(self).buckets().len(),
            forall|b: int|
                0 <= b < final(self).buckets().len() ==> (#[trigger] final(self).buckets()[b]).len()
                    == 0,
    {
        let d = self.frames.len();
        let ghost oc = self.cursor as int;
        let ghost ob = self.buckets();
        let mut out: Vec<Retired> = Vec::new();
        let mut n: usize = 0;
        while n < d
            invariant
                self.wf(),
                d == self.frames@.len(),
                ob.len() == d,
                0 <= oc < d,
                n <= d,
                self.cursor == ahead(oc, d as int, n as int),
                self.frame@ == old(self).frame@ + n,
                out@ == gathered(ob, oc, n as nat),
                forall|b: int|
                    0 <= b < d ==> (#[trigger] self.buckets()[b]) == if b != oc && lag(b, oc, d as int)
                        <= n {
                        Seq::<Retired>::empty()
                    } else if b == oc && n == d {
                        Seq::<Retired>::empty()
                    } else {
                        ob[b]
                    },
            decreases d - n,
        {
            let ghost before = self.buckets();
            let mut bucket = self.begin_frame();
            let ghost c = ahead(oc, d as int, (n + 1) as int);
            assert(self.cursor == c);
            assert(bucket@ == ob[c]);
            out.append(&mut bucket);
            n = n + 1;
            proof {
                assert forall|b: int| 0 <= b < d implies (#[trigger] self.buckets()[b]) == if b
                    != oc && lag(b, oc, d as int) <= n {
                    Seq::<Retired>::empty()
                } else if b == oc && n == d {
                    Seq::<Retired>::empty()
                } else {
                    ob[b]
                } by {
                    if b != c {
                        assert(self.buckets()[b] == before[b]);
                    }
                }
            }
        }
        out
    }
}

/// Every object still held was retired fewer than `depth()` frames ago, while `begin_frame`
/// returns exactly those retired `depth()` frames before: so each object is handed back for
/// destruction once, and never sooner.
pub proof fn lemma_held_are_recent(g: &Graveyard)
    requires
        g.wf(),
    ensures
        forall|b: int, i: int|
            0 <= b < g.buckets().len() && 0 <= i < g.stamps()[b].len() ==> g.frame()
                - #[trigger] g.stamps()[b][i] < g.buckets().len(),
        forall|b: int| 0 <= b < g.buckets().len() ==> (#[trigger] g.stamps()[b]).len()
            == g.buckets()[b].len(),
{
    assert forall|b: int| 0 <= b < g.buckets().len() implies (#[trigger] g.stamps()[b]).len()
        == g.buckets()[b].len() by {}
}

} // verus!
