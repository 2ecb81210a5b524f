//! The hub: the host-facing composition of registry and multiplexer.
//!
//! The host issues attach and detach here, reports each driver's
//! lifecycle events (connected, recoverable fault, terminal fault) here,
//! feeds observed native events here, and pulls merged events here. The
//! hub keeps registry and multiplexer in step: a source's lane is
//! registered with the multiplexer when its driver first becomes active,
//! stops accepting events as soon as the source is detached or stopped,
//! and whatever the lane already buffered is still drained.

use vstd::prelude::*;

use crate::driver::{ConnectError, SourceError, TransportError};
use crate::event::{BufEntry, EmittedEvent, Platform, SourceId};
use crate::mux::{push_step, Multiplexer, PushOutcome};
use crate::normalize::{normalize, spec_normalize, NativeEvent};
use crate::registry::{Registry, RegistryError, SourceState};

verus! {

/// Registry and multiplexer, kept in step.
pub struct Hub {
    pub registry: Registry,
    pub mux: Multiplexer,
    /// Per-source buffer bound handed to newly activated lanes.
    pub bound: usize,
}

impl Hub {
    /// The coupling between the two components:
    /// - every lane id was allocated by the registry at some point;
    /// - a source still `Starting` has no lane yet (it gets one when its
    ///   driver first connects);
    /// - an `Active` or `Degraded` source has an open lane;
    /// - an open lane belongs to an attached `Active` or `Degraded`
    ///   source — detached and stopped sources accept no more events.
    pub open spec fn wf(self) -> bool {
        &&& self.registry.wf()
        &&& self.mux.wf()
        &&& self.bound >= 1
        &&& forall|k: u64| #[trigger] self.mux.has_lane(k) ==> k < self.registry.next_id
        &&& forall|k: u64|
            self.registry.contains_id(k) && (#[trigger] self.registry.handle_of(k)).state
                == SourceState::Starting ==> !self.mux.has_lane(k)
        &&& forall|k: u64|
            self.registry.contains_id(k) && ((#[trigger] self.registry.handle_of(k)).state
                == SourceState::Active || self.registry.handle_of(k).state
                == SourceState::Degraded) ==> self.mux.has_open_lane(k)
        &&& forall|k: u64|
            #[trigger] self.mux.has_open_lane(k) ==> self.registry.contains_id(k) && (
            self.registry.handle_of(k).state == SourceState::Active
                || self.registry.handle_of(k).state == SourceState::Degraded)
    }

    /// A fresh hub with the given per-source buffer bound.
    pub fn new(bound: usize) -> (h: Hub)
        requires
            bound >= 1,
        ensures
            h.wf(),
            h.registry.live_ids() == Set::<u64>::empty(),
            h.mux.lanes@.len() == 0,
            h.mux.emitted@ == Seq::<EmittedEvent>::empty(),
            h.bound == bound,
    {
        let h = Hub { registry: Registry::new(), mux: Multiplexer::new(), bound };
        proof {
            assert forall|k: u64| !(#[trigger] h.mux.has_lane(k)) by {}
            assert forall|k: u64| !(#[trigger] h.mux.has_open_lane(k)) by {}
        }
        h
    }

    /// Attaches a new source: a fresh id in `Starting` state. The host
    /// starts the driver; the multiplexer learns of the source once the
    /// driver connects.
    pub fn attach(&mut self, platform: Platform) -> (sid: SourceId)
        requires
            old(self).wf(),
            old(self).registry.next_id < u64::MAX,
        ensures
            final(self).wf(),
            sid.id == old(self).registry.next_id,
            !old(self).registry.contains_id(sid.id),
            final(self).registry.live_ids() == old(self).registry.live_ids().insert(sid.id),
            final(self).registry.handle_of(sid.id).state == SourceState::Starting,
            final(self).registry.handle_of(sid.id).platform == platform,
            final(self).mux == old(self).mux,
            final(self).bound == old(self).bound,
            forall|k: u64|
                k != sid.id && old(self).registry.contains_id(k) ==> #[trigger] final(self).registry.handle_of(k) == old(self).registry.handle_of(k),
    {
        let ghost pre = *self;
        let sid = self.registry.attach(platform);
        proof {
            assert(!pre.mux.has_lane(sid.id));
        }
        sid
    }

    /// Notes that `sid`'s driver has connected (or reconnected): the
    /// source becomes `Active`, and on its first activation its lane is
    /// registered with the multiplexer, open and empty. Reports
    /// `UnknownSource` for an id that is not attached and changes nothing.
    pub fn activate(&mut self, sid: SourceId) -> (r: Result<(), RegistryError>)
        requires
            old(self).wf(),
        ensures
            final(self).wf(),
            final(self).bound == old(self).bound,
            r.is_ok() <==> old(self).registry.contains_id(sid.id),
            r.is_err() ==> *final(self) == *old(self),
            r.is_ok() ==> {
                &&& final(self).registry.handle_of(sid.id) == Registry::spec_step_handle(
                    old(self).registry.handle_of(sid.id),
                    SourceState::Active,
                    None,
                )
                &&& forall|k: u64|
                    (#[trigger] final(self).registry.contains_id(k)) <==> old(
                        self,
                    ).registry.contains_id(k)
                &&& forall|k: u64|
                    k != sid.id && old(self).registry.contains_id(k) ==> #[trigger] final(self).registry.handle_of(k) == old(self).registry.handle_of(k)
                &&& (old(self).registry.handle_of(sid.id).state == SourceState::Starting ==> {
                    &&& final(self).mux.has_open_lane(sid.id)
                    &&& final(self).mux.lane_of(sid.id).buf@ == Seq::<BufEntry>::empty()
                    &&& final(self).mux.lane_of(sid.id).pushed@ == Seq::<BufEntry>::empty()
                    &&& final(self).mux.lane_of(sid.id).overflow == 0
                    &&& forall|k: u64|
                        k != sid.id && old(self).mux.has_lane(k) ==> #[trigger] final(self).mux.lane_of(k) == old(self).mux.lane_of(k)
                })
                &&& (old(self).registry.handle_of(sid.id).state != SourceState::Starting ==> final(self).mux == old(self).mux)
                &&& final(self).mux.emitted@ == old(self).mux.emitted@
            },
    {
        let st = match self.registry.status(sid) {
            Err(e) => {
                return Err(e);
            },
            Ok(s) => s,
        };
        let platform = match self.registry.platform_of(sid) {
            Err(e) => {
                return Err(e);
            },
            Ok(p) => p,
        };
        let ghost pre = *self;
        let _ = match self.registry.note_transition(sid, SourceState::Active, None) {
            Err(e) => {
                return Err(e);
            },
            Ok(b) => b,
        };
        if matches!(st, SourceState::Starting) {
            let reg = self.mux.register(sid, platform, self.bound);
            proof {
                assert(!pre.mux.has_lane(sid.id));
                assert(reg.is_ok());
            }
        }
        Ok(())
    }

    /// Notes a recoverable transport fault of `sid`'s driver: an `Active`
    /// source becomes `Degraded` while the driver retries, with the fault
    /// recorded; its lane stays open, so nothing already buffered is
    /// lost. Reports `UnknownSource` for an id that is not attached.
    pub fn degrade(&mut self, sid: SourceId) -> (r: Result<(), RegistryError>)
        requires
            old(self).wf(),
        ensures
            final(self).wf(),
            final(self).bound == old(self).bound,
            r.is_ok() <==> old(self).registry.contains_id(sid.id),
            r.is_err() ==> *final(self) == *old(self),
            r.is_ok() ==> {
                &&& final(self).registry.handle_of(sid.id) == Registry::spec_step_handle(
                    old(self).registry.handle_of(sid.id),
                    SourceState::Degraded,
                    Some(SourceError::Transport(TransportError::Recoverable)),
                )
                &&& forall|k: u64|
                    (#[trigger] final(self).registry.contains_id(k)) <==> old(
                        self,
                    ).registry.contains_id(k)
                &&& forall|k: u64|
                    k != sid.id && old(self).registry.contains_id(k) ==> #[trigger] final(self).registry.handle_of(k) == old(self).registry.handle_of(k)
                &&& final(self).mux == old(self).mux
            },
    {
        match self.registry.note_transition(
            sid,
            SourceState::Degraded,
            Some(SourceError::Transport(TransportError::Recoverable)),
        ) {
            Err(e) => Err(e),
            Ok(_) => Ok(()),
        }
    }

    /// Notes a terminal failure of `sid`'s driver: the source becomes
    /// `Stopped` with the error recorded, and its lane stops accepting
    /// events at once. Everything the lane already buffered stays to be
    /// drained. Reports `UnknownSource` for an id that is not attached.
    pub fn stop(&mut self, sid: SourceId, error: Option<SourceError>) -> (r: Result<
        (),
        RegistryError,
    >)
        requires
            old(self).wf(),
        ensures
            final(self).wf(),
            final(self).bound == old(self).bound,
            r.is_ok() <==> old(self).registry.contains_id(sid.id),
            r.is_err() ==> *final(self) == *old(self),
            r.is_ok() ==> {
                &&& final(self).registry.handle_of(sid.id) == Registry::spec_step_handle(
                    old(self).registry.handle_of(sid.id),
                    SourceState::Stopped,
                    error,
                )
                &&& forall|k: u64|
                    (#[trigger] final(self).registry.contains_id(k)) <==> old(
                        self,
                    ).registry.contains_id(k)
                &&& forall|k: u64|
                    k != sid.id && old(self).registry.contains_id(k) ==> #[trigger] final(self).registry.handle_of(k) == old(self).registry.handle_of(k)
                &&& !final(self).mux.has_open_lane(sid.id)
                &&& forall|k: u64|
                    (#[trigger] final(self).mux.has_lane(k)) <==> old(self).mux.has_lane(k)
                &&& forall|k: u64|
                    old(self).mux.has_lane(k) ==> #[trigger] final(self).mux.lane_of(k).buf@ == old(
                        self,
                    ).mux.lane_of(k).buf@
                &&& final(self).mux.emitted@ == old(self).mux.emitted@
            },
    {
        let st = match self.registry.status(sid) {
            Err(e) => {
                return Err(e);
            },
            Ok(s) => s,
        };
        let ghost pre = *self;
        let _ = match self.registry.note_transition(sid, SourceState::Stopped, error) {
            Err(e) => {
                return Err(e);
            },
            Ok(b) => b,
        };
        if matches!(st, SourceState::Active) || matches!(st, SourceState::Degraded) {
            let dereg = self.mux.deregister(sid);
            proof {
                assert(pre.mux.has_open_lane(sid.id));
                assert(dereg.is_ok());
                assert forall|k: u64| pre.mux.has_lane(k) implies #[trigger] self.mux.lane_of(
                    k,
                ).buf@ == pre.mux.lane_of(k).buf@ by {
                    if k != sid.id {
                        assert(self.mux.lane_of(k) == pre.mux.lane_of(k));
                    } else {
                        pre.mux.lemma_lane_idx(k);
                        let j = pre.mux.lane_idx(k);
                        assert(self.mux.lanes@[j].id.id == k);
                        self.mux.lemma_lane_idx(k);
                        assert(self.mux.lane_of(k) == self.mux.lanes@[j]);
                    }
                }
            }
        } else {
            proof {
                if pre.mux.has_open_lane(sid.id) {
                    assert(pre.registry.handle_of(sid.id).state == SourceState::Active
                        || pre.registry.handle_of(sid.id).state == SourceState::Degraded);
                }
            }
        }
        Ok(())
    }

    /// Notes that `sid`'s driver failed to establish its session: the
    /// source stops, with the connect failure recorded. The registry
    /// itself never retries a connect; the caller decides whether to
    /// attach anew.
    pub fn connect_failed(&mut self, sid: SourceId, err: ConnectError) -> (r: Result<
        (),
        RegistryError,
    >)
        requires
            old(self).wf(),
        ensures
            final(self).wf(),
            final(self).bound == old(self).bound,
            r.is_ok() <==> old(self).registry.contains_id(sid.id),
            r.is_err() ==> *final(self) == *old(self),
            r.is_ok() ==> {
                &&& final(self).registry.handle_of(sid.id) == Registry::spec_step_handle(
                    old(self).registry.handle_of(sid.id),
                    SourceState::Stopped,
                    Some(SourceError::Connect(err)),
                )
                &&& !final(self).mux.has_open_lane(sid.id)
                &&& final(self).mux.emitted@ == old(self).mux.emitted@
            },
    {
        self.stop(sid, Some(SourceError::Connect(err)))
    }

    /// Detaches source `sid`: its handle leaves the registry for good and
    /// its lane stops accepting events, but events it already buffered
    /// are still delivered. Detaching an unknown id reports
    /// `UnknownSource` and mutates nothing.
    pub fn detach(&mut self, sid: SourceId) -> (r: Result<(), RegistryError>)
        requires
            old(self).wf(),
        ensures
            final(self).wf(),
            final(self).bound == old(self).bound,
            r.is_ok() <==> old(self).registry.contains_id(sid.id),
            r.is_err() ==> r == Result::<(), RegistryError>::Err(RegistryError::UnknownSource)
                && *final(self) == *old(self),
            r.is_ok() ==> {
                &&& !final(self).registry.contains_id(sid.id)
                &&& final(self).registry.live_ids() == old(self).registry.live_ids().remove(
                    sid.id,
                )
                &&& forall|k: u64|
                    k != sid.id && old(self).registry.contains_id(k) ==> #[trigger] final(self).registry.handle_of(k) == old(self).registry.handle_of(k)
                &&& !final(self).mux.has_open_lane(sid.id)
                &&& forall|k: u64|
                    (#[trigger] final(self).mux.has_lane(k)) <==> old(self).mux.has_lane(k)
                &&& forall|k: u64|
                    old(self).mux.has_lane(k) ==> #[trigger] final(self).mux.lane_of(k).buf@ == old(
                        self,
                    ).mux.lane_of(k).buf@
                &&& final(self).mux.emitted@ == old(self).mux.emitted@
            },
    {
        let st = match self.registry.status(sid) {
            Err(e) => {
                return Err(e);
            },
            Ok(s) => s,
        };
        let ghost pre = *self;
        let _ = match self.registry.detach(sid) {
            Err(e) => {
                return Err(e);
            },
            Ok(u) => u,
        };
        if matches!(st, SourceState::Active) || matches!(st, SourceState::Degraded) {
            let dereg = self.mux.deregister(sid);
            proof {
                assert(pre.mux.has_open_lane(sid.id));
                assert(dereg.is_ok());
                assert forall|k: u64| pre.mux.has_lane(k) implies #[trigger] self.mux.lane_of(
                    k,
                ).buf@ == pre.mux.lane_of(k).buf@ by {
                    if k != sid.id {
                        assert(self.mux.lane_of(k) == pre.mux.lane_of(k));
                    } else {
                        pre.mux.lemma_lane_idx(k);
                        let j = pre.mux.lane_idx(k);
                        assert(self.mux.lanes@[j].id.id == k);
                        self.mux.lemma_lane_idx(k);
                        assert(self.mux.lane_of(k) == self.mux.lanes@[j]);
                    }
                }
            }
        } else {
            proof {
                if pre.mux.has_open_lane(sid.id) {
                    assert(pre.registry.handle_of(sid.id).state == SourceState::Active
                        || pre.registry.handle_of(sid.id).state == SourceState::Degraded);
                }
            }
        }
        Ok(())
    }

    /// Feeds one native event of source `sid`, observed at `arrival`:
    /// normalized, then offered to the merge. Only `sid`'s own lane can
    /// change; events of detached, stopped or unknown sources are
    /// rejected without changing anything.
    pub fn ingest_native(&mut self, sid: SourceId, arrival: u64, native: NativeEvent) -> (r:
        PushOutcome)
        requires
            old(self).wf(),
        ensures
            final(self).wf(),
            final(self).bound == old(self).bound,
            final(self).registry == old(self).registry,
            (r == PushOutcome::Rejected) <==> !old(self).mux.has_open_lane(sid.id),
            r == PushOutcome::Rejected ==> *final(self) == *old(self),
            old(self).mux.has_open_lane(sid.id) ==> {
                &&& push_step(
                    old(self).mux.lane_of(sid.id),
                    final(self).mux.lane_of(sid.id),
                    (BufEntry { arrival, payload: spec_normalize(native) }),
                    r,
                )
                &&& forall|k: u64|
                    k != sid.id && old(self).mux.has_lane(k) ==> #[trigger] final(self).mux.lane_of(k) == old(self).mux.lane_of(k)
                &&& final(self).mux.emitted@ == old(self).mux.emitted@
            },
    {
        let payload = normalize(native);
        let ghost pre = *self;
        let r = self.mux.push(sid, arrival, payload);
        proof {
            if pre.mux.has_open_lane(sid.id) {
                pre.mux.lemma_lane_idx(sid.id);
                assert(self.mux.lane_of(sid.id) == self.mux.lanes@[pre.mux.lane_idx(sid.id)]);
                assert forall|k: u64| k != sid.id && pre.mux.has_lane(k) implies #[trigger] self
                    .mux.lane_of(k) == pre.mux.lane_of(k) by {
                    pre.mux.lemma_lane_idx(k);
                    let j = pre.mux.lane_idx(k);
                    assert(self.mux.lanes@[j] == pre.mux.lanes@[j]);
                    assert(self.mux.lanes@[j].id.id == k);
                    self.mux.lemma_lane_idx(k);
                }
            }
        }
        r
    }

    /// Pulls the next merged event for the consumer: the buffered event
    /// observed first across all sources, ties broken by ascending source
    /// id; `None` exactly when nothing is buffered anywhere.
    pub fn next_event(&mut self) -> (r: Option<EmittedEvent>)
        requires
            old(self).wf(),
            old(self).mux.next_seq < u64::MAX,
        ensures
            final(self).wf(),
            final(self).bound == old(self).bound,
            final(self).registry == old(self).registry,
            r.is_none() <==> !(exists|j: int| old(self).mux.lane_ready(j)),
            r.is_none() ==> *final(self) == *old(self),
            r matches Some(e) ==> Multiplexer::pop_step(old(self).mux, final(self).mux, e),
    {
        self.mux.pop_next()
    }
}

} // verus!
