//! The multiplexer: a fair merge of many per-source event sequences into
//! one tagged, sequence-numbered output sequence.
//!
//! Each registered source gets its own bounded buffer. Arriving events
//! are appended to their source's buffer; the consumer pulls merged
//! events one at a time. Each pull emits the buffered event that was
//! observed first across all sources (smallest arrival stamp), with ties
//! broken by ascending source id, so the merge is deterministic. Events
//! of one source are buffered, dropped and emitted strictly in their
//! arrival order: the multiplexer never reorders a source.
//!
//! Backpressure is per source: when one source's buffer is full, its own
//! oldest buffered event is dropped and counted; no other source is
//! touched. A detached source stops accepting new events at once, but
//! what it already buffered is still drained.

use vstd::prelude::*;

use crate::event::{BufEntry, EmittedEvent, Payload, Platform, SourceId};

verus! {

/// One entry taken off a source's buffer head, with how it left: emitted
/// to the consumer, or dropped by that source's overflow policy.
#[derive(Clone, PartialEq, Eq, Debug)]
pub struct Removal {
    pub entry: BufEntry,
    pub dropped: bool,
}

/// Error of a multiplexer registration operation.
#[derive(Clone, Copy, PartialEq, Eq, Structural, Debug)]
pub enum MuxError {
    /// The id is not registered, or no longer accepts events.
    UnknownSource,
    /// The id is already registered.
    DuplicateSource,
}

/// What happened to one offered event.
#[derive(Clone, Copy, PartialEq, Eq, Structural, Debug)]
pub enum PushOutcome {
    /// Buffered; nothing was displaced.
    Buffered,
    /// Buffered, and this source's oldest buffered event was dropped and
    /// counted against this source only.
    DroppedOldest,
    /// Refused: the source is not registered, or already detached. The
    /// caller sees the refusal; the multiplexer state does not change.
    Rejected,
}

/// Saturating u64 image of an abstract count.
pub open spec fn count_sat(n: nat) -> u64 {
    if n <= u64::MAX {
        n as u64
    } else {
        u64::MAX
    }
}

/// "First observed, first emitted" order on buffer heads: earlier arrival
/// stamp first, ties broken by ascending source id.
pub open spec fn lex_le(a1: u64, s1: u64, a2: u64, s2: u64) -> bool {
    a1 < a2 || (a1 == a2 && s1 <= s2)
}

/// The per-source lane of the multiplexer: one source's bounded buffer,
/// its overflow counter, and the ghost history of what the source pushed
/// and what left the buffer.
pub struct Lane {
    pub id: SourceId,
    pub platform: Platform,
    /// Still accepts new events; cleared by deregistration.
    pub open: bool,
    /// Buffer bound; at least one.
    pub cap: usize,
    pub buf: Vec<BufEntry>,
    /// How many of this source's events its own overflow policy dropped.
    pub overflow: u64,
    /// Every event this source ever pushed, in push order.
    pub pushed: Ghost<Seq<BufEntry>>,
    /// Every entry that left the buffer head, in the order it left.
    pub removed: Ghost<Seq<Removal>>,
}

impl Lane {
    /// All entries that ever left the buffer, in order.
    pub open spec fn removed_entries(self) -> Seq<BufEntry> {
        self.removed@.map_values(|r: Removal| r.entry)
    }

    /// The entries that left the buffer towards the consumer, in order.
    pub open spec fn delivered(self) -> Seq<BufEntry> {
        self.removed@.filter(|r: Removal| !r.dropped).map_values(|r: Removal| r.entry)
    }

    /// How many entries this lane's overflow policy has dropped.
    pub open spec fn dropped_count(self) -> nat {
        self.removed@.filter(|r: Removal| r.dropped).len()
    }

    /// Lane well-formedness: the buffer respects its bound, and what left
    /// the buffer followed by what is still buffered is exactly what was
    /// pushed — per-source order conservation.
    pub open spec fn wf(self) -> bool {
        &&& self.cap >= 1
        &&& self.buf@.len() <= self.cap
        &&& self.removed_entries() + self.buf@ == self.pushed@
        &&& self.overflow == count_sat(self.dropped_count())
    }
}

/// The merge engine.
pub struct Multiplexer {
    pub lanes: Vec<Lane>,
    /// Next sequence number to assign at emission.
    pub next_seq: u64,
    /// The merged output emitted so far, in emission order.
    pub emitted: Ghost<Seq<EmittedEvent>>,
}

impl Multiplexer {
    /// Whether id `k` has a lane (open or not).
    pub open spec fn has_lane(self, k: u64) -> bool {
        exists|i: int| 0 <= i < self.lanes@.len() && self.lanes@[i].id.id == k
    }

    /// Index of id `k`'s lane.
    pub open spec fn lane_idx(self, k: u64) -> int {
        choose|i: int| 0 <= i < self.lanes@.len() && self.lanes@[i].id.id == k
    }

    /// Id `k`'s lane.
    pub open spec fn lane_of(self, k: u64) -> Lane {
        self.lanes@[self.lane_idx(k)]
    }

    /// Whether id `k` has a lane that still accepts events.
    pub open spec fn has_open_lane(self, k: u64) -> bool {
        self.has_lane(k) && self.lane_of(k).open
    }

    /// The merged output so far, projected onto source `k`: the entries of
    /// `k`'s emitted events, in emission order.
    pub open spec fn projection(self, k: u64) -> Seq<BufEntry> {
        self.emitted@.filter(|e: EmittedEvent| e.source.id == k).map_values(
            |e: EmittedEvent| e.entry(),
        )
    }

    /// Lane `i` has a buffered event waiting.
    pub open spec fn lane_ready(self, i: int) -> bool {
        0 <= i < self.lanes@.len() && self.lanes@[i].buf@.len() > 0
    }

    /// Lane `i` holds the next event to emit: it is ready, and its head
    /// was observed no later than any other ready head, ties broken by
    /// ascending source id.
    pub open spec fn is_best(self, i: int) -> bool {
        &&& self.lane_ready(i)
        &&& forall|j: int|
            #[trigger] self.lane_ready(j) ==> lex_le(
                self.lanes@[i].buf@[0].arrival,
                self.lanes@[i].id.id,
                self.lanes@[j].buf@[0].arrival,
                self.lanes@[j].id.id,
            )
    }

    /// The merged sequence is over: no source accepts events any more and
    /// nothing is left buffered.
    pub open spec fn spec_done(self) -> bool {
        forall|i: int|
            0 <= i < self.lanes@.len() ==> !(#[trigger] self.lanes@[i]).open && self.lanes@[i].buf@
                =~= Seq::<BufEntry>::empty()
    }

    /// Multiplexer well-formedness.
    pub open spec fn wf(self) -> bool {
        &&& forall|i: int| 0 <= i < self.lanes@.len() ==> (#[trigger] self.lanes@[i]).wf()
        &&& forall|i: int, j: int|
            0 <= i < self.lanes@.len() && 0 <= j < self.lanes@.len() && i != j
                ==> (#[trigger] self.lanes@[i]).id.id != (#[trigger] self.lanes@[j]).id.id
        &&& self.next_seq == self.emitted@.len()
        &&& forall|i: int|
            0 <= i < self.emitted@.len() ==> (#[trigger] self.emitted@[i]).seq_no == i
        &&& forall|i: int|
            0 <= i < self.emitted@.len() ==> self.has_lane((#[trigger] self.emitted@[i]).source.id)
        &&& forall|i: int|
            0 <= i < self.lanes@.len() ==> self.projection((#[trigger] self.lanes@[i]).id.id)
                == self.lanes@[i].delivered()
    }

    /// With distinct lane ids, the lane index of a present id is the one
    /// and only index carrying that id.
    pub proof fn lemma_lane_idx(self, k: u64)
        requires
            self.wf(),
            self.has_lane(k),
        ensures
            0 <= self.lane_idx(k) < self.lanes@.len(),
            self.lanes@[self.lane_idx(k)].id.id == k,
            forall|i: int|
                0 <= i < self.lanes@.len() && (#[trigger] self.lanes@[i]).id.id == k ==> i
                    == self.lane_idx(k),
    {
    }

    /// An empty multiplexer: no sources, nothing emitted.
    pub fn new() -> (m: Multiplexer)
        ensures
            m.wf(),
            m.lanes@.len() == 0,
            m.emitted@ == Seq::<EmittedEvent>::empty(),
            m.next_seq == 0,
    {
        Multiplexer { lanes: Vec::new(), next_seq: 0, emitted: Ghost(Seq::empty()) }
    }

    /// Finds the lane index of id `k`.
    fn find_lane(&self, k: u64) -> (r: Option<usize>)
        requires
            self.wf(),
        ensures
            match r {
                Some(i) => self.has_lane(k) && i == self.lane_idx(k) && i < self.lanes.len(),
                None => !self.has_lane(k),
            },
    {
        let mut i: usize = 0;
        while i < self.lanes.len()
            invariant
                self.wf(),
                i <= self.lanes.len(),
                forall|j: int| 0 <= j < i ==> (#[trigger] self.lanes@[j]).id.id != k,
            decreases self.lanes.len() - i,
        {
            if self.lanes[i].id.id == k {
                proof {
                    self.lemma_lane_idx(k);
                }
                return Some(i);
            }
            i = i + 1;
        }
        None
    }

    /// Registers a source under a fresh id with the given buffer bound.
    /// The new lane starts open and empty; every other lane, the emitted
    /// log and the sequence counter are untouched.
    pub fn register(&mut self, id: SourceId, platform: Platform, cap: usize) -> (r: Result<
        (),
        MuxError,
    >)
        requires
            old(self).wf(),
            cap >= 1,
        ensures
            final(self).wf(),
            r.is_ok() <==> !old(self).has_lane(id.id),
            r.is_err() ==> r == Result::<(), MuxError>::Err(MuxError::DuplicateSource) && *final(self) == *old(self),
            r.is_ok() ==> {
                &&& final(self).lanes@.len() == old(self).lanes@.len() + 1
                &&& forall|j: int|
                    0 <= j < old(self).lanes@.len() ==> #[trigger] final(self).lanes@[j] == old(
                        self,
                    ).lanes@[j]
                &&& final(self).lanes@.last().id == id
                &&& final(self).lanes@.last().platform == platform
                &&& final(self).lanes@.last().open
                &&& final(self).lanes@.last().cap == cap
                &&& final(self).lanes@.last().buf@ == Seq::<BufEntry>::empty()
                &&& final(self).lanes@.last().overflow == 0
                &&& final(self).lanes@.last().pushed@ == Seq::<BufEntry>::empty()
                &&& final(self).lanes@.last().removed@ == Seq::<Removal>::empty()
                &&& final(self).has_open_lane(id.id)
                &&& final(self).emitted@ == old(self).emitted@
                &&& final(self).next_seq == old(self).next_seq
                &&& forall|k: u64|
                    #[trigger] final(self).has_lane(k) <==> (old(self).has_lane(k) || k == id.id)
                &&& forall|k: u64|
                    k != id.id ==> (#[trigger] final(self).has_open_lane(k) <==> old(
                        self,
                    ).has_open_lane(k))
                &&& forall|k: u64|
                    k != id.id && old(self).has_lane(k) ==> #[trigger] final(self).lane_of(k)
                        == old(self).lane_of(k)
            },
    {
        match self.find_lane(id.id) {
            Some(_) => Err(MuxError::DuplicateSource),
            None => {
                let ghost pre = *self;
                let lane = Lane {
                    id,
                    platform,
                    open: true,
                    cap,
                    buf: Vec::new(),
                    overflow: 0,
                    pushed: Ghost(Seq::empty()),
                    removed: Ghost(Seq::empty()),
                };
                self.lanes.push(lane);
                proof {
                    let n = pre.lanes@.len() as int;
                    assert(self.lanes@[n].id.id == id.id);
                    // The fresh id is distinct from every existing lane's id.
                    assert forall|i: int| 0 <= i < n implies (#[trigger] self.lanes@[i]).id.id
                        != id.id by {
                        assert(pre.lanes@[i].id.id != id.id);
                    }
                    // The fresh lane is well formed: empty history, empty buffer.
                    assert(self.lanes@[n].removed_entries() =~= Seq::<BufEntry>::empty());
                    assert(self.lanes@[n].removed_entries() + self.lanes@[n].buf@ =~= self.lanes@[
                        n
                    ].pushed@);
                    assert(self.lanes@[n].removed@.filter(|r: Removal| r.dropped) =~= Seq::<
                        Removal,
                    >::empty());
                    assert(self.lanes@[n].wf());
                    // Nothing was ever emitted for the fresh id, so its
                    // projection is empty, as is its delivered history.
                    assert forall|j: int| 0 <= j < self.emitted@.len() implies !((
                    #[trigger] self.emitted@[j]).source.id == id.id) by {
                        assert(pre.has_lane(pre.emitted@[j].source.id));
                        let l = pre.lane_idx(pre.emitted@[j].source.id);
                        assert(pre.lanes@[l].id.id == pre.emitted@[j].source.id);
                    }
                    lemma_filter_none(
                        self.emitted@,
                        |e: EmittedEvent| e.source.id == id.id,
                    );
                    assert(self.lanes@[n].removed@.filter(|r: Removal| !r.dropped) =~= Seq::<
                        Removal,
                    >::empty());
                    assert(self.projection(id.id) =~= self.lanes@[n].delivered());
                    // Every previously emitted source still has its lane.
                    assert forall|j: int| 0 <= j < self.emitted@.len() implies self.has_lane(
                        (#[trigger] self.emitted@[j]).source.id,
                    ) by {
                        let l = pre.lane_idx(self.emitted@[j].source.id);
                        assert(self.lanes@[l].id.id == self.emitted@[j].source.id);
                    }
                    // Old lanes keep their projections; the projection only
                    // reads the emitted log, which did not change.
                    assert forall|i: int| 0 <= i < n implies self.projection(
                        (#[trigger] self.lanes@[i]).id.id,
                    ) == self.lanes@[i].delivered() by {
                        assert(pre.lanes@[i] == self.lanes@[i]);
                        assert(pre.projection(self.lanes@[i].id.id) == pre.lanes@[i].delivered());
                        assert(self.projection(self.lanes@[i].id.id) == pre.projection(
                            self.lanes@[i].id.id,
                        ));
                    }
                    assert(self.wf());
                    assert(self.lane_idx(id.id) == n);
                    assert(self.has_open_lane(id.id));
                    assert forall|k: u64| #[trigger] self.has_lane(k) <==> (pre.has_lane(k) || k
                        == id.id) by {
                        if self.has_lane(k) && k != id.id {
                            let j = choose|j: int|
                                0 <= j < self.lanes@.len() && self.lanes@[j].id.id == k;
                            assert(j < n);
                            assert(pre.lanes@[j].id.id == k);
                        }
                        if pre.has_lane(k) {
                            let j = choose|j: int|
                                0 <= j < pre.lanes@.len() && pre.lanes@[j].id.id == k;
                            assert(self.lanes@[j].id.id == k);
                        }
                    }
                    assert forall|k: u64| k != id.id && pre.has_lane(k) implies #[trigger] self
                        .lane_of(k) == pre.lane_of(k) by {
                        pre.lemma_lane_idx(k);
                        let j = pre.lane_idx(k);
                        assert(self.lanes@[j].id.id == k);
                        self.lemma_lane_idx(k);
                    }
                }
                Ok(())
            },
        }
    }

    /// Signals detach of source `id`: its lane stops accepting events, but
    /// whatever it already buffered stays to be drained by the consumer.
    /// Deregistering an id without an open lane reports `UnknownSource`
    /// and mutates nothing.
    pub fn deregister(&mut self, id: SourceId) -> (r: Result<(), MuxError>)
        requires
            old(self).wf(),
        ensures
            final(self).wf(),
            r.is_ok() <==> old(self).has_open_lane(id.id),
            r.is_err() ==> r == Result::<(), MuxError>::Err(MuxError::UnknownSource) && *final(self) == *old(self),
            r.is_ok() ==> {
                &&& final(self).lanes@ == old(self).lanes@.update(
                    old(self).lane_idx(id.id),
                    Lane { open: false, ..old(self).lane_of(id.id) },
                )
                &&& final(self).emitted@ == old(self).emitted@
                &&& final(self).next_seq == old(self).next_seq
                &&& !final(self).has_open_lane(id.id)
                &&& forall|k: u64| #[trigger] final(self).has_lane(k) <==> old(self).has_lane(k)
                &&& forall|k: u64|
                    k != id.id ==> (#[trigger] final(self).has_open_lane(k) <==> old(
                        self,
                    ).has_open_lane(k))
                &&& forall|k: u64|
                    k != id.id && old(self).has_lane(k) ==> #[trigger] final(self).lane_of(k)
                        == old(self).lane_of(k)
            },
    {
        match self.find_lane(id.id) {
            None => Err(MuxError::UnknownSource),
            Some(i) => {
                proof {
                    self.lemma_lane_idx(id.id);
                }
                if !self.lanes[i].open {
                    return Err(MuxError::UnknownSource);
                }
                let ghost pre = *self;
                let mut lane = self.lanes.remove(i);
                lane.open = false;
                self.lanes.insert(i, lane);
                proof {
                    assert(self.lanes@ =~= pre.lanes@.update(
                        i as int,
                        Lane { open: false, ..pre.lane_of(id.id) },
                    ));
                    lemma_lanes_update_keeps_wf(pre, *self, i as int);
                    assert forall|k: u64| #[trigger] self.has_lane(k) <==> pre.has_lane(k) by {
                        if self.has_lane(k) {
                            let j = choose|j: int|
                                0 <= j < self.lanes@.len() && self.lanes@[j].id.id == k;
                            assert(pre.lanes@[j].id.id == k);
                        }
                        if pre.has_lane(k) {
                            let j = choose|j: int|
                                0 <= j < pre.lanes@.len() && pre.lanes@[j].id.id == k;
                            assert(self.lanes@[j].id.id == k);
                        }
                    }
                    assert forall|k: u64| k != id.id && pre.has_lane(k) implies #[trigger] self
                        .lane_of(k) == pre.lane_of(k) by {
                        pre.lemma_lane_idx(k);
                        let j = pre.lane_idx(k);
                        assert(self.lanes@[j].id.id == k);
                        self.lemma_lane_idx(k);
                    }
                    assert(self.lanes@[i as int].id.id == id.id);
                    self.lemma_lane_idx(id.id);
                    assert(!self.lane_of(id.id).open);
                }
                Ok(())
            },
        }
    }

    /// Diagnostic: how many of source `id`'s own events its overflow
    /// policy has dropped so far.
    pub fn overflow_count(&self, id: SourceId) -> (r: Option<u64>)
        requires
            self.wf(),
        ensures
            r == if self.has_lane(id.id) {
                Some(self.lane_of(id.id).overflow)
            } else {
                Option::<u64>::None
            },
    {
        match self.find_lane(id.id) {
            Some(i) => Some(self.lanes[i].overflow),
            None => None,
        }
    }

    /// Diagnostic: how many events source `id` has buffered and not yet
    /// emitted.
    pub fn buffered_len(&self, id: SourceId) -> (r: Option<usize>)
        requires
            self.wf(),
        ensures
            r == if self.has_lane(id.id) {
                Some(self.lane_of(id.id).buf@.len() as usize)
            } else {
                Option::<usize>::None
            },
    {
        match self.find_lane(id.id) {
            Some(i) => Some(self.lanes[i].buf.len()),
            None => None,
        }
    }

    /// Whether the merged sequence is over: every registered source has
    /// been detached and everything buffered has been drained. Until then
    /// the merge goes on, however many sources have stopped.
    pub fn is_done(&self) -> (r: bool)
        requires
            self.wf(),
        ensures
            r == self.spec_done(),
    {
        let mut i: usize = 0;
        while i < self.lanes.len()
            invariant
                self.wf(),
                i <= self.lanes.len(),
                forall|j: int|
                    0 <= j < i ==> !(#[trigger] self.lanes@[j]).open && self.lanes@[j].buf@ =~= Seq::<
                        BufEntry,
                    >::empty(),
            decreases self.lanes.len() - i,
        {
            if self.lanes[i].open || self.lanes[i].buf.len() > 0 {
                return false;
            }
            proof {
                assert(self.lanes@[i as int].buf@ =~= Seq::<BufEntry>::empty());
            }
            i = i + 1;
        }
        true
    }
}

/// How one lane changes when its source offers `entry`, and which outcome
/// the offer gets: appended when there is room, else the lane's own oldest
/// buffered entry is dropped and counted, and `entry` is appended.
pub open spec fn push_step(pre: Lane, post: Lane, entry: BufEntry, r: PushOutcome) -> bool {
    &&& post.id == pre.id
    &&& post.platform == pre.platform
    &&& post.open == pre.open
    &&& post.cap == pre.cap
    &&& post.pushed@ == pre.pushed@.push(entry)
    &&& if pre.buf@.len() < pre.cap {
        &&& r == PushOutcome::Buffered
        &&& post.buf@ == pre.buf@.push(entry)
        &&& post.removed@ == pre.removed@
        &&& post.overflow == pre.overflow
    } else {
        &&& r == PushOutcome::DroppedOldest
        &&& post.buf@ == pre.buf@.subrange(1, pre.buf@.len() as int).push(entry)
        &&& post.removed@ == pre.removed@.push(
            (Removal { entry: pre.buf@[0], dropped: true }),
        )
        &&& post.overflow == count_sat(pre.dropped_count() + 1)
    }
}

impl Multiplexer {
    /// Offers one normalized event of source `id`, observed at `arrival`,
    /// to the merge. An event of an unregistered or detached source is
    /// rejected and nothing changes. Otherwise only `id`'s own lane
    /// changes: the event is buffered, and when the lane is full the
    /// lane's own oldest buffered event is dropped and counted against
    /// `id` alone — no other source's lane, counter or buffered events
    /// are touched, and nothing already emitted changes.
    pub fn push(&mut self, id: SourceId, arrival: u64, payload: Payload) -> (r: PushOutcome)
        requires
            old(self).wf(),
        ensures
            final(self).wf(),
            (r == PushOutcome::Rejected) <==> !old(self).has_open_lane(id.id),
            r == PushOutcome::Rejected ==> *final(self) == *old(self),
            old(self).has_open_lane(id.id) ==> {
                &&& final(self).lanes@.len() == old(self).lanes@.len()
                &&& forall|j: int|
                    0 <= j < old(self).lanes@.len() && j != old(self).lane_idx(id.id)
                        ==> #[trigger] final(self).lanes@[j] == old(self).lanes@[j]
                &&& push_step(
                    old(self).lane_of(id.id),
                    final(self).lanes@[old(self).lane_idx(id.id)],
                    (BufEntry { arrival, payload }),
                    r,
                )
                &&& final(self).lane_idx(id.id) == old(self).lane_idx(id.id)
                &&& final(self).emitted@ == old(self).emitted@
                &&& final(self).next_seq == old(self).next_seq
                &&& forall|k: u64| #[trigger] final(self).has_lane(k) <==> old(self).has_lane(k)
                &&& forall|k: u64|
                    #[trigger] final(self).has_open_lane(k) <==> old(self).has_open_lane(k)
            },
    {
        match self.find_lane(id.id) {
            None => PushOutcome::Rejected,
            Some(i) => {
                proof {
                    self.lemma_lane_idx(id.id);
                }
                if !self.lanes[i].open {
                    return PushOutcome::Rejected;
                }
                let ghost pre = *self;
                let mut lane = self.lanes.remove(i);
                let ghost pre_lane = pre.lanes@[i as int];
                let entry = BufEntry { arrival, payload };
                let outcome: PushOutcome;
                if lane.buf.len() < lane.cap {
                    lane.pushed = Ghost(lane.pushed@.push(entry));
                    lane.buf.push(entry);
                    outcome = PushOutcome::Buffered;
                } else {
                    let head = lane.buf.remove(0);
                    lane.removed = Ghost(
                        lane.removed@.push(Removal { entry: head, dropped: true }),
                    );
                    lane.overflow = if lane.overflow == u64::MAX {
                        u64::MAX
                    } else {
                        lane.overflow + 1
                    };
                    lane.pushed = Ghost(lane.pushed@.push(entry));
                    lane.buf.push(entry);
                    outcome = PushOutcome::DroppedOldest;
                }
                proof {
                    if pre_lane.buf@.len() < pre_lane.cap {
                        lemma_push_keeps_lane_wf_buffered(pre_lane, lane, entry);
                    } else {
                        lemma_push_keeps_lane_wf_dropped(pre_lane, lane, entry);
                    }
                }
                self.lanes.insert(i, lane);
                proof {
                    assert(self.lanes@ =~= pre.lanes@.update(i as int, lane));
                    lemma_lanes_update_keeps_wf(pre, *self, i as int);
                    assert(self.lanes@[i as int].id.id == id.id);
                    self.lemma_lane_idx(id.id);
                    lemma_same_shape_same_queries(pre, *self);
                }
                outcome
            },
        }
    }

    /// The index holding the next event to emit, when one exists.
    pub open spec fn best_idx(self) -> int {
        choose|i: int| self.is_best(i)
    }

    /// The next event to emit is uniquely determined: ids are distinct,
    /// so the "first observed, ties by ascending id" order has exactly
    /// one minimal ready head.
    pub proof fn lemma_best_unique(self, i: int, j: int)
        requires
            self.wf(),
            self.is_best(i),
            self.is_best(j),
        ensures
            i == j,
    {
        if i != j {
            assert(lex_le(
                self.lanes@[i].buf@[0].arrival,
                self.lanes@[i].id.id,
                self.lanes@[j].buf@[0].arrival,
                self.lanes@[j].id.id,
            ));
            assert(lex_le(
                self.lanes@[j].buf@[0].arrival,
                self.lanes@[j].id.id,
                self.lanes@[i].buf@[0].arrival,
                self.lanes@[i].id.id,
            ));
        }
    }

    /// How the multiplexer changes when it emits `e`: the best lane's
    /// head becomes the next output event, tagged with the lane's id and
    /// platform and the next sequence number; every other lane is
    /// untouched.
    pub open spec fn pop_step(pre: Multiplexer, post: Multiplexer, e: EmittedEvent) -> bool {
        let i = pre.best_idx();
        let lane = pre.lanes@[i];
        &&& pre.is_best(i)
        &&& e == (EmittedEvent {
            seq_no: pre.next_seq,
            source: lane.id,
            platform: lane.platform,
            arrival: lane.buf@[0].arrival,
            payload: lane.buf@[0].payload,
        })
        &&& post.lanes@.len() == pre.lanes@.len()
        &&& forall|j: int|
            0 <= j < pre.lanes@.len() && j != i ==> #[trigger] post.lanes@[j] == pre.lanes@[j]
        &&& post.lanes@[i].id == lane.id
        &&& post.lanes@[i].platform == lane.platform
        &&& post.lanes@[i].open == lane.open
        &&& post.lanes@[i].cap == lane.cap
        &&& post.lanes@[i].overflow == lane.overflow
        &&& post.lanes@[i].pushed@ == lane.pushed@
        &&& post.lanes@[i].buf@ == lane.buf@.subrange(1, lane.buf@.len() as int)
        &&& post.lanes@[i].removed@ == lane.removed@.push(
            (Removal { entry: lane.buf@[0], dropped: false }),
        )
        &&& post.emitted@ == pre.emitted@.push(e)
        &&& post.next_seq == pre.next_seq + 1
    }

    /// Pulls the next merged event: the buffered event observed first
    /// across all sources, ties broken by ascending source id. Returns
    /// `None` exactly when nothing is buffered anywhere — the merge never
    /// ends while any source, stopped or not, still has buffered events.
    pub fn pop_next(&mut self) -> (r: Option<EmittedEvent>)
        requires
            old(self).wf(),
            old(self).next_seq < u64::MAX,
        ensures
            final(self).wf(),
            r.is_none() <==> !(exists|j: int| old(self).lane_ready(j)),
            r.is_none() ==> *final(self) == *old(self),
            r matches Some(e) ==> Self::pop_step(*old(self), *final(self), e),
            r.is_some() ==> forall|k: u64|
                #[trigger] final(self).has_lane(k) <==> old(self).has_lane(k),
            r.is_some() ==> forall|k: u64|
                #[trigger] final(self).has_open_lane(k) <==> old(self).has_open_lane(k),
            r.is_some() ==> forall|i: int|
                #[trigger] old(self).is_best(i) ==> i == old(self).best_idx(),
    {
        let mut best: Option<usize> = None;
        let mut i: usize = 0;
        while i < self.lanes.len()
            invariant
                self.wf(),
                i <= self.lanes.len(),
                match best {
                    None => forall|j: int| 0 <= j < i ==> !self.lane_ready(j),
                    Some(b) => {
                        &&& b < i
                        &&& self.lane_ready(b as int)
                        &&& forall|j: int|
                            0 <= j < i && #[trigger] self.lane_ready(j) ==> lex_le(
                                self.lanes@[b as int].buf@[0].arrival,
                                self.lanes@[b as int].id.id,
                                self.lanes@[j].buf@[0].arrival,
                                self.lanes@[j].id.id,
                            )
                    },
                },
            decreases self.lanes.len() - i,
        {
            if self.lanes[i].buf.len() > 0 {
                match best {
                    None => {
                        best = Some(i);
                    },
                    Some(b) => {
                        let ba = self.lanes[b].buf[0].arrival;
                        let ca = self.lanes[i].buf[0].arrival;
                        if ca < ba || (ca == ba && self.lanes[i].id.id < self.lanes[b].id.id) {
                            best = Some(i);
                        }
                    },
                }
            }
            i = i + 1;
        }
        match best {
            None => None,
            Some(b) => {
                let ghost pre = *self;
                proof {
                    assert(pre.is_best(b as int));
                    pre.lemma_best_unique(b as int, pre.best_idx());
                    assert forall|l: int| #[trigger] pre.is_best(l) implies l
                        == pre.best_idx() by {
                        pre.lemma_best_unique(l, pre.best_idx());
                    }
                }
                let mut lane = self.lanes.remove(b);
                let ghost pre_lane = pre.lanes@[b as int];
                let head = lane.buf.remove(0);
                lane.removed = Ghost(
                    lane.removed@.push(Removal { entry: head, dropped: false }),
                );
                let e = EmittedEvent {
                    seq_no: self.next_seq,
                    source: lane.id,
                    platform: lane.platform,
                    arrival: head.arrival,
                    payload: head.payload,
                };
                self.next_seq = self.next_seq + 1;
                proof {
                    lemma_pop_keeps_lane_wf(pre_lane, lane);
                }
                self.emitted = Ghost(self.emitted@.push(e));
                self.lanes.insert(b, lane);
                proof {
                    assert(self.lanes@ =~= pre.lanes@.update(b as int, lane));
                    lemma_pop_keeps_mux_wf(pre, *self, b as int, e);
                    lemma_same_shape_same_queries(pre, *self);
                }
                Some(e)
            },
        }
    }
}

impl Multiplexer {
    /// Order-preserving merge law: for a source none of whose events were
    /// dropped by its overflow policy, the merged output projected onto
    /// that source, followed by what the source still has buffered, is
    /// exactly the source's own emission sequence, unchanged and in
    /// order. The multiplexer itself neither drops, duplicates nor
    /// reorders any source's events.
    pub proof fn lemma_projection_reconstructs(self, k: u64)
        requires
            self.wf(),
            self.has_lane(k),
            self.lane_of(k).dropped_count() == 0,
        ensures
            self.projection(k) + self.lane_of(k).buf@ == self.lane_of(k).pushed@,
    {
        let lane = self.lane_of(k);
        self.lemma_lane_idx(k);
        // No removal was a drop, so every removal went to the consumer.
        assert forall|i: int| 0 <= i < lane.removed@.len() implies !(
        #[trigger] lane.removed@[i]).dropped by {
            if lane.removed@[i].dropped {
                lane.removed@.lemma_filter_contains(|r: Removal| r.dropped, i);
            }
        }
        lemma_filter_all(lane.removed@, |r: Removal| !r.dropped);
        assert(lane.delivered() == lane.removed_entries());
        assert(self.projection(self.lanes@[self.lane_idx(k)].id.id) == self.lanes@[self.lane_idx(
            k,
        )].delivered());
    }

    /// Single-source identity law: with exactly one source registered and
    /// no overflow, the merged output is that source's own emission
    /// sequence — every output event carries that source's id, and the
    /// output so far, followed by what is still buffered, reconstructs
    /// the source's pushed sequence exactly.
    pub proof fn lemma_single_source_identity(self, k: u64)
        requires
            self.wf(),
            self.lanes@.len() == 1,
            self.lanes@[0].id.id == k,
            self.lane_of(k).dropped_count() == 0,
        ensures
            forall|i: int|
                0 <= i < self.emitted@.len() ==> (#[trigger] self.emitted@[i]).source.id == k,
            self.emitted@.map_values(|e: EmittedEvent| e.entry()) + self.lane_of(k).buf@
                == self.lane_of(k).pushed@,
    {
        assert(self.has_lane(k));
        self.lemma_lane_idx(k);
        assert forall|i: int| 0 <= i < self.emitted@.len() implies (
        #[trigger] self.emitted@[i]).source.id == k by {
            let kk = self.emitted@[i].source.id;
            assert(self.has_lane(kk));
            let l = self.lane_idx(kk);
            assert(0 <= l < self.lanes@.len() && self.lanes@[l].id.id == kk);
        }
        lemma_filter_all(self.emitted@, |e: EmittedEvent| e.source.id == k);
        assert(self.projection(k) =~= self.emitted@.map_values(|e: EmittedEvent| e.entry()));
        self.lemma_projection_reconstructs(k);
    }
}

/// A lane with room keeps its well-formedness when an entry is appended.
proof fn lemma_push_keeps_lane_wf_buffered(pre: Lane, post: Lane, entry: BufEntry)
    requires
        pre.wf(),
        pre.buf@.len() < pre.cap,
        post.id == pre.id,
        post.platform == pre.platform,
        post.open == pre.open,
        post.cap == pre.cap,
        post.overflow == pre.overflow,
        post.buf@ == pre.buf@.push(entry),
        post.pushed@ == pre.pushed@.push(entry),
        post.removed@ == pre.removed@,
    ensures
        post.wf(),
        post.delivered() == pre.delivered(),
        post.dropped_count() == pre.dropped_count(),
        push_step(pre, post, entry, PushOutcome::Buffered),
{
    assert(post.removed_entries() + post.buf@ =~= post.pushed@) by {
        assert(pre.removed_entries() + pre.buf@ == pre.pushed@);
    }
}

/// A full lane keeps its well-formedness when its oldest entry is
/// dropped, counted, and the new entry appended.
proof fn lemma_push_keeps_lane_wf_dropped(pre: Lane, post: Lane, entry: BufEntry)
    requires
        pre.wf(),
        pre.buf@.len() >= pre.cap,
        post.id == pre.id,
        post.platform == pre.platform,
        post.open == pre.open,
        post.cap == pre.cap,
        post.overflow == if pre.overflow == u64::MAX {
            u64::MAX
        } else {
            (pre.overflow + 1) as u64
        },
        post.buf@ == pre.buf@.subrange(1, pre.buf@.len() as int).push(entry),
        post.pushed@ == pre.pushed@.push(entry),
        post.removed@ == pre.removed@.push((Removal { entry: pre.buf@[0], dropped: true })),
    ensures
        post.wf(),
        post.delivered() == pre.delivered(),
        post.dropped_count() == pre.dropped_count() + 1,
        push_step(pre, post, entry, PushOutcome::DroppedOldest),
{
    let dropped_pred = |r: Removal| r.dropped;
    let kept_pred = |r: Removal| !r.dropped;
    let rm = Removal { entry: pre.buf@[0], dropped: true };
    lemma_filter_push(pre.removed@, dropped_pred, rm);
    lemma_filter_push(pre.removed@, kept_pred, rm);
    assert(post.delivered() =~= pre.delivered());
    assert(post.removed_entries() =~= pre.removed_entries().push(pre.buf@[0]));
    assert(post.removed_entries() + post.buf@ =~= post.pushed@) by {
        assert(pre.removed_entries() + pre.buf@ == pre.pushed@);
        assert forall|k: int| 0 <= k < pre.pushed@.len() implies pre.pushed@[k]
            == (pre.removed_entries() + pre.buf@)[k] by {}
    }
}

/// A lane keeps its well-formedness when its head is emitted.
proof fn lemma_pop_keeps_lane_wf(pre: Lane, post: Lane)
    requires
        pre.wf(),
        pre.buf@.len() > 0,
        post.id == pre.id,
        post.platform == pre.platform,
        post.open == pre.open,
        post.cap == pre.cap,
        post.overflow == pre.overflow,
        post.pushed@ == pre.pushed@,
        post.buf@ == pre.buf@.subrange(1, pre.buf@.len() as int),
        post.removed@ == pre.removed@.push((Removal { entry: pre.buf@[0], dropped: false })),
    ensures
        post.wf(),
        post.delivered() == pre.delivered().push(pre.buf@[0]),
        post.dropped_count() == pre.dropped_count(),
{
    let dropped_pred = |r: Removal| r.dropped;
    let kept_pred = |r: Removal| !r.dropped;
    let rm = Removal { entry: pre.buf@[0], dropped: false };
    lemma_filter_push(pre.removed@, dropped_pred, rm);
    lemma_filter_push(pre.removed@, kept_pred, rm);
    assert(post.delivered() =~= pre.delivered().push(pre.buf@[0]));
    assert(post.removed_entries() =~= pre.removed_entries().push(pre.buf@[0]));
    assert(post.removed_entries() + post.buf@ =~= post.pushed@) by {
        assert(pre.removed_entries() + pre.buf@ == pre.pushed@);
        assert forall|k: int| 0 <= k < pre.pushed@.len() implies pre.pushed@[k]
            == (pre.removed_entries() + pre.buf@)[k] by {}
    }
}

/// Emitting the best lane's head preserves multiplexer well-formedness.
proof fn lemma_pop_keeps_mux_wf(pre: Multiplexer, post: Multiplexer, i: int, e: EmittedEvent)
    requires
        pre.wf(),
        pre.next_seq < u64::MAX,
        0 <= i < pre.lanes@.len(),
        pre.lanes@[i].buf@.len() > 0,
        post.lanes@.len() == pre.lanes@.len(),
        forall|j: int| 0 <= j < pre.lanes@.len() && j != i ==> post.lanes@[j] == pre.lanes@[j],
        post.lanes@[i].id == pre.lanes@[i].id,
        post.lanes@[i].wf(),
        post.lanes@[i].delivered() == pre.lanes@[i].delivered().push(pre.lanes@[i].buf@[0]),
        e == (EmittedEvent {
            seq_no: pre.next_seq,
            source: pre.lanes@[i].id,
            platform: pre.lanes@[i].platform,
            arrival: pre.lanes@[i].buf@[0].arrival,
            payload: pre.lanes@[i].buf@[0].payload,
        }),
        post.emitted@ == pre.emitted@.push(e),
        post.next_seq == pre.next_seq + 1,
    ensures
        post.wf(),
{
    assert forall|j: int| 0 <= j < post.emitted@.len() implies post.has_lane(
        (#[trigger] post.emitted@[j]).source.id,
    ) by {
        let k = post.emitted@[j].source.id;
        if j < pre.emitted@.len() {
            assert(pre.has_lane(k));
            let l = pre.lane_idx(k);
            assert(post.lanes@[l].id.id == k);
        } else {
            assert(post.lanes@[i].id.id == k);
        }
    }
    assert forall|j: int| 0 <= j < post.lanes@.len() implies post.projection(
        (#[trigger] post.lanes@[j]).id.id,
    ) == post.lanes@[j].delivered() by {
        let k = post.lanes@[j].id.id;
        assert(pre.lanes@[j].id.id == k);
        assert(pre.projection(k) == pre.lanes@[j].delivered());
        let pred = |ev: EmittedEvent| ev.source.id == k;
        lemma_filter_push(pre.emitted@, pred, e);
        if j == i {
            assert(pred(e));
            assert(post.emitted@.filter(pred) == pre.emitted@.filter(pred).push(e));
            assert(post.projection(k) =~= pre.projection(k).push(e.entry()));
            assert(e.entry() == pre.lanes@[i].buf@[0]);
        } else {
            assert(post.lanes@[i].id.id != k);
            assert(!pred(e));
            assert(post.emitted@.filter(pred) == pre.emitted@.filter(pred));
            assert(post.projection(k) =~= pre.projection(k));
        }
    }
}

/// Two multiplexer states whose lanes agree in number, ids and openness
/// answer the lane queries alike.
pub proof fn lemma_same_shape_same_queries(pre: Multiplexer, post: Multiplexer)
    requires
        pre.wf(),
        post.lanes@.len() == pre.lanes@.len(),
        forall|j: int|
            0 <= j < pre.lanes@.len() ==> (#[trigger] post.lanes@[j]).id == pre.lanes@[j].id
                && post.lanes@[j].open == pre.lanes@[j].open,
    ensures
        forall|k: u64| #[trigger] post.has_lane(k) <==> pre.has_lane(k),
        forall|k: u64| #[trigger] post.has_open_lane(k) <==> pre.has_open_lane(k),
{
    assert forall|k: u64| #[trigger] post.has_lane(k) <==> pre.has_lane(k) by {
        if post.has_lane(k) {
            let j = choose|j: int| 0 <= j < post.lanes@.len() && post.lanes@[j].id.id == k;
            assert(pre.lanes@[j].id.id == k);
        }
        if pre.has_lane(k) {
            let j = choose|j: int| 0 <= j < pre.lanes@.len() && pre.lanes@[j].id.id == k;
            assert(post.lanes@[j].id.id == k);
        }
    }
    assert forall|k: u64| #[trigger] post.has_open_lane(k) <==> pre.has_open_lane(k) by {
        if pre.has_lane(k) {
            pre.lemma_lane_idx(k);
            let j = pre.lane_idx(k);
            assert(post.lanes@[j].id.id == k);
            let l = post.lane_idx(k);
            assert(0 <= l < post.lanes@.len() && post.lanes@[l].id.id == k);
            assert(pre.lanes@[l].id.id == k);
            assert(l == j);
            assert(post.lane_of(k).open == pre.lane_of(k).open);
        }
    }
}

/// Filtering keeps nothing when no element satisfies the predicate.
pub proof fn lemma_filter_none<A>(s: Seq<A>, pred: spec_fn(A) -> bool)
    requires
        forall|i: int| 0 <= i < s.len() ==> !pred(#[trigger] s[i]),
    ensures
        s.filter(pred) == Seq::<A>::empty(),
    decreases s.len(),
{
    reveal(Seq::filter);
    if s.len() > 0 {
        lemma_filter_none(s.drop_last(), pred);
    }
}

/// Filtering keeps everything when every element satisfies the predicate.
pub proof fn lemma_filter_all<A>(s: Seq<A>, pred: spec_fn(A) -> bool)
    requires
        forall|i: int| 0 <= i < s.len() ==> pred(#[trigger] s[i]),
    ensures
        s.filter(pred) == s,
    decreases s.len(),
{
    reveal(Seq::filter);
    if s.len() > 0 {
        lemma_filter_all(s.drop_last(), pred);
        assert(s.drop_last().push(s.last()) =~= s);
    }
}

/// Filtering a sequence extended by one element keeps the old filtered
/// part and appends the new element exactly when it satisfies the
/// predicate.
pub proof fn lemma_filter_push<A>(s: Seq<A>, pred: spec_fn(A) -> bool, x: A)
    ensures
        pred(x) ==> s.push(x).filter(pred) == s.filter(pred).push(x),
        !pred(x) ==> s.push(x).filter(pred) == s.filter(pred),
{
    reveal(Seq::filter);
    assert(s.push(x).drop_last() =~= s);
}

/// Updating one lane in place preserves multiplexer well-formedness when
/// the updated lane keeps its id, its delivered history and its own
/// well-formedness, and the emitted log stays.
proof fn lemma_lanes_update_keeps_wf(pre: Multiplexer, post: Multiplexer, i: int)
    requires
        pre.wf(),
        0 <= i < pre.lanes@.len(),
        post.lanes@.len() == pre.lanes@.len(),
        forall|j: int| 0 <= j < pre.lanes@.len() && j != i ==> post.lanes@[j] == pre.lanes@[j],
        post.lanes@[i].id == pre.lanes@[i].id,
        post.lanes@[i].wf(),
        post.lanes@[i].delivered() == pre.lanes@[i].delivered(),
        post.emitted@ == pre.emitted@,
        post.next_seq == pre.next_seq,
    ensures
        post.wf(),
{
    assert forall|j: int| 0 <= j < post.emitted@.len() implies post.has_lane(
        (#[trigger] post.emitted@[j]).source.id,
    ) by {
        let k = post.emitted@[j].source.id;
        assert(pre.has_lane(k));
        let l = pre.lane_idx(k);
        assert(post.lanes@[l].id.id == k);
    }
    assert forall|j: int| 0 <= j < post.lanes@.len() implies post.projection(
        (#[trigger] post.lanes@[j]).id.id,
    ) == post.lanes@[j].delivered() by {
        let k = post.lanes@[j].id.id;
        assert(pre.lanes@[j].id.id == k);
        assert(pre.projection(k) == pre.lanes@[j].delivered());
    }
}

} // verus!
