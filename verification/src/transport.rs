//! The decision core of the serial transport actor: which subscribers a
//! snapshot goes to, and how inbound bytes accumulate before a broadcast.
//! The actor loop itself performs the port reads and the channel sends and
//! reports back which subscribers refused delivery.
use vstd::prelude::*;

verus! {

/// One logical subscriber of the transport: its handle and whether its
/// queue has been given up on.
#[derive(Clone, Copy, Debug, PartialEq, Eq, Structural)]
pub struct Subscriber {
    pub id: u64,
    pub closed: bool,
}

/// The subscribers that survive an eviction sweep, in their old order.
pub open spec fn live_subs(s: Seq<Subscriber>) -> Seq<Subscriber>
    decreases s.len(),
{
    if s.len() == 0 {
        seq![]
    } else if s.last().closed {
        live_subs(s.drop_last())
    } else {
        live_subs(s.drop_last()).push(s.last())
    }
}

proof fn lemma_live_subs_sub(s: Seq<Subscriber>)
    ensures
        forall|i: int|
            0 <= i < live_subs(s).len() ==> exists|j: int|
                0 <= j < s.len() && s[j] == #[trigger] live_subs(s)[i] && !s[j].closed,
    decreases s.len(),
{
    if s.len() > 0 {
        lemma_live_subs_sub(s.drop_last());
        assert forall|i: int| 0 <= i < live_subs(s).len() implies exists|j: int|
            0 <= j < s.len() && s[j] == #[trigger] live_subs(s)[i] && !s[j].closed by {
            if !s.last().closed && i == live_subs(s).len() - 1 {
                assert(s[s.len() - 1] == live_subs(s)[i]);
            } else {
                let e = live_subs(s.drop_last())[i];
                let j = choose|j: int|
                    0 <= j < s.drop_last().len() && s.drop_last()[j] == e && !s.drop_last()[
                        j
                    ].closed;
                assert(s[j] == e);
            }
        }
    }
}

/// The set of live subscribers the actor fans payloads out to.  Closed ones
/// are evicted before every insert and before every broadcast, and the
/// order of the survivors never changes.
pub struct SubscriberSet {
    pub subs: Vec<Subscriber>,
}

impl SubscriberSet {
    /// No handle occurs twice.
    pub open spec fn wf(&self) -> bool {
        forall|i: int, j: int|
            0 <= i < j < self.subs@.len() ==> (#[trigger] self.subs@[i]).id != (
            #[trigger] self.subs@[j]).id
    }

    /// An empty set.
    pub fn new() -> (r: SubscriberSet)
        ensures
            r.wf(),
            r.subs@ == Seq::<Subscriber>::empty(),
    {
        SubscriberSet { subs: Vec::new() }
    }

    /// Drop every subscriber marked closed, keeping the others in order.
    pub fn evict_closed(&mut self)
        requires
            old(self).wf(),
        ensures
            final(self).wf(),
            final(self).subs@ == live_subs(old(self).subs@),
    {
        let mut kept: Vec<Subscriber> = Vec::new();
        let mut i: usize = 0;
        while i < self.subs.len()
            invariant
                i <= self.subs@.len(),
                kept@ == live_subs(self.subs@.take(i as int)),
            decreases self.subs@.len() - i,
        {
            proof {
                assert(self.subs@.take(i + 1).drop_last() =~= self.subs@.take(i as int));
                assert(self.subs@.take(i + 1).last() == self.subs@[i as int]);
            }
            let s = self.subs[i];
            if !s.closed {
                kept.push(s);
            }
            i = i + 1;
        }
        proof {
            assert(self.subs@.take(self.subs@.len() as int) =~= self.subs@);
            lemma_live_subs_sub(self.subs@);
            assert forall|a: int, b: int| 0 <= a < b < live_subs(self.subs@).len() implies (
            #[trigger] live_subs(self.subs@)[a]).id != (#[trigger] live_subs(
                self.subs@,
            )[b]).id by {
                let ea = live_subs(self.subs@)[a];
                let eb = live_subs(self.subs@)[b];
                let ja = choose|j: int|
                    0 <= j < self.subs@.len() && self.subs@[j] == ea && !self.subs@[j].closed;
                let jb = choose|j: int|
                    0 <= j < self.subs@.len() && self.subs@[j] == eb && !self.subs@[j].closed;
                if ea.id == eb.id {
                    assert(ja != jb ==> false);
                    assert(ja == jb ==> ea == eb);
                    lemma_live_subs_distinct(self.subs@, a, b);
                }
            }
        }
        self.subs = kept;
    }

    /// Add a fresh subscriber, evicting the closed ones first.
    pub fn insert(&mut self, id: u64)
        requires
            old(self).wf(),
            forall|i: int| 0 <= i < old(self).subs@.len() ==> (#[trigger] old(self).subs@[i]).id
                != id,
        ensures
            final(self).wf(),
            final(self).subs@ == live_subs(old(self).subs@).push(
                Subscriber { id, closed: false },
            ),
    {
        self.evict_closed();
        proof {
            lemma_live_subs_sub(old(self).subs@);
            assert forall|i: int| 0 <= i < self.subs@.len() implies (#[trigger] self.subs@[i]).id
                != id by {
                let e = self.subs@[i];
                let j = choose|j: int|
                    0 <= j < old(self).subs@.len() && old(self).subs@[j] == e && !old(
                        self,
                    ).subs@[j].closed;
            }
        }
        self.subs.push(Subscriber { id, closed: false });
    }

    /// Mark one subscriber as closed after a failed delivery.
    pub fn mark_closed(&mut self, id: u64)
        requires
            old(self).wf(),
        ensures
            final(self).wf(),
            final(self).subs@.len() == old(self).subs@.len(),
            forall|i: int|
                0 <= i < old(self).subs@.len() ==> (#[trigger] final(self).subs@[i]).id == old(
                    self,
                ).subs@[i].id && final(self).subs@[i].closed == (old(self).subs@[i].closed || old(
                    self,
                ).subs@[i].id == id),
    {
        let mut i: usize = 0;
        while i < self.subs.len()
            invariant
                i <= self.subs@.len(),
                self.subs@.len() == old(self).subs@.len(),
                forall|t: int|
                    i <= t < self.subs@.len() ==> #[trigger] self.subs@[t] == old(self).subs@[t],
                forall|t: int|
                    0 <= t < i ==> (#[trigger] self.subs@[t]).id == old(self).subs@[t].id
                        && self.subs@[t].closed == (old(self).subs@[t].closed || old(
                        self,
                    ).subs@[t].id == id),
            decreases self.subs@.len() - i,
        {
            if self.subs[i].id == id {
                let s = self.subs[i];
                self.subs.set(i, Subscriber { id: s.id, closed: true });
            }
            i = i + 1;
        }
    }

    /// Begin a broadcast: evict the closed subscribers and hand back the
    /// handles of the survivors, in their stable order.
    pub fn begin_broadcast(&mut self) -> (r: Vec<u64>)
        requires
            old(self).wf(),
        ensures
            final(self).wf(),
            final(self).subs@ == live_subs(old(self).subs@),
            r@.len() == final(self).subs@.len(),
            forall|i: int| 0 <= i < r@.len() ==> r@[i] == (#[trigger] final(self).subs@[i]).id,
    {
        self.evict_closed();
        let mut ids: Vec<u64> = Vec::new();
        let mut i: usize = 0;
        while i < self.subs.len()
            invariant
                i <= self.subs@.len(),
                ids@.len() == i,
                forall|t: int| 0 <= t < i ==> ids@[t] == (#[trigger] self.subs@[t]).id,
                self.subs@ == live_subs(old(self).subs@),
            decreases self.subs@.len() - i,
        {
            ids.push(self.subs[i].id);
            i = i + 1;
        }
        ids
    }
}

proof fn lemma_live_subs_distinct(s: Seq<Subscriber>, a: int, b: int)
    requires
        0 <= a < b < live_subs(s).len(),
        forall|i: int, j: int|
            0 <= i < j < s.len() ==> (#[trigger] s[i]).id != (#[trigger] s[j]).id,
    ensures
        live_subs(s)[a].id != live_subs(s)[b].id,
    decreases s.len(),
{
    if s.len() > 0 {
        lemma_live_subs_sub(s.drop_last());
        if s.last().closed {
            lemma_live_subs_distinct(s.drop_last(), a, b);
        } else {
            if b == live_subs(s).len() - 1 {
                let ea = live_subs(s.drop_last())[a];
                let ja = choose|j: int|
                    0 <= j < s.drop_last().len() && s.drop_last()[j] == ea && !s.drop_last()[
                        j
                    ].closed;
                assert(s[ja].id != s[s.len() - 1].id);
            } else {
                lemma_live_subs_distinct(s.drop_last(), a, b);
            }
        }
    }
}

/// How many bytes the receive buffer may hold before a broadcast: 64 KiB.
pub const RX_BUFFER_LIMIT: usize = 65536;

/// The inbound accumulation buffer of the transport actor: reads append to
/// it up to the bound, a broadcast takes a snapshot and clears it.
pub struct RxBuffer {
    pub data: Vec<u8>,
}

impl RxBuffer {
    /// The buffer never exceeds its bound.
    pub open spec fn wf(&self) -> bool {
        self.data@.len() <= RX_BUFFER_LIMIT
    }

    /// An empty buffer.
    pub fn new() -> (r: RxBuffer)
        ensures
            r.wf(),
            r.data@ == Seq::<u8>::empty(),
    {
        RxBuffer { data: Vec::new() }
    }

    /// Append a read chunk, dropping whatever exceeds the bound.
    pub fn push(&mut self, chunk: &[u8])
        requires
            old(self).wf(),
        ensures
            final(self).wf(),
            final(self).data@ == (old(self).data@ + chunk@).take(
                if old(self).data@.len() + chunk@.len() <= RX_BUFFER_LIMIT {
                    (old(self).data@.len() + chunk@.len()) as int
                } else {
                    RX_BUFFER_LIMIT as int
                },
            ),
    {
        let mut i: usize = 0;
        proof {
            vstd::slice::axiom_spec_len::<u8>(chunk);
            assert((old(self).data@ + chunk@).take(old(self).data@.len() as int) =~= old(
                self,
            ).data@);
        }
        while i < chunk.len() && self.data.len() < RX_BUFFER_LIMIT
            invariant
                i <= chunk@.len(),
                self.data@.len() <= RX_BUFFER_LIMIT,
                self.data@.len() == old(self).data@.len() + i,
                self.data@ == (old(self).data@ + chunk@).take(self.data@.len() as int),
            decreases chunk@.len() - i,
        {
            proof {
                assert((old(self).data@ + chunk@).take(self.data@.len() as int + 1) =~= (old(self).data@
                    + chunk@).take(self.data@.len() as int).push(chunk@[i as int]));
            }
            self.data.push(chunk[i]);
            i = i + 1;
        }
    }

    /// Take the accumulated snapshot and clear the buffer.
    pub fn take_snapshot(&mut self) -> (r: Vec<u8>)
        ensures
            final(self).wf(),
            r@ == old(self).data@,
            final(self).data@ == Seq::<u8>::empty(),
    {
        let mut out: Vec<u8> = Vec::new();
        core::mem::swap(&mut out, &mut self.data);
        out
    }
}

} // verus!
