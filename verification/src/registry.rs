//! The source registry: which sources are attached, and in which
//! lifecycle state each one is.
//!
//! The registry is the single owner of the id-to-handle mapping. Ids come
//! from a monotonic counter, so a detached source's id is never handed to
//! a different driver instance. Detaching an id that is not attached is a
//! reported error, never a crash, and mutates nothing.

use vstd::prelude::*;

use crate::driver::SourceError;
use crate::event::{Platform, SourceId};

verus! {

/// Lifecycle state of one attached source.
///
/// `Starting` becomes `Active` once the driver has connected; `Active`
/// and `Degraded` alternate while the driver retries recoverable faults;
/// `Stopped` is terminal.
#[derive(Clone, Copy, PartialEq, Eq, Structural, Debug)]
pub enum SourceState {
    Starting,
    Active,
    Degraded,
    Stopped,
}

/// Error of a registry operation on an id that is not attached.
#[derive(Clone, Copy, PartialEq, Eq, Structural, Debug)]
pub enum RegistryError {
    UnknownSource,
}

/// What the registry keeps per attached source.
#[derive(Clone, Copy, PartialEq, Eq, Structural, Debug)]
pub struct SourceHandle {
    pub id: SourceId,
    pub platform: Platform,
    pub state: SourceState,
    pub last_error: Option<SourceError>,
}

/// Which lifecycle steps the per-source state machine allows.
pub open spec fn transition_allowed(from: SourceState, to: SourceState) -> bool {
    match (from, to) {
        (SourceState::Starting, SourceState::Active) => true,
        (SourceState::Starting, SourceState::Stopped) => true,
        (SourceState::Active, SourceState::Degraded) => true,
        (SourceState::Active, SourceState::Stopped) => true,
        (SourceState::Degraded, SourceState::Active) => true,
        (SourceState::Degraded, SourceState::Stopped) => true,
        _ => false,
    }
}

/// The registry of attached sources.
pub struct Registry {
    pub next_id: u64,
    pub handles: Vec<SourceHandle>,
}

impl Registry {
    /// Whether id `k` is currently attached.
    pub open spec fn contains_id(self, k: u64) -> bool {
        exists|i: int| 0 <= i < self.handles@.len() && self.handles@[i].id.id == k
    }

    /// The set of currently attached ids.
    pub open spec fn live_ids(self) -> Set<u64> {
        Set::new(|k: u64| self.contains_id(k))
    }

    /// Index of the handle of id `k`.
    pub open spec fn idx_of(self, k: u64) -> int {
        choose|i: int| 0 <= i < self.handles@.len() && self.handles@[i].id.id == k
    }

    /// The handle of id `k`.
    pub open spec fn handle_of(self, k: u64) -> SourceHandle {
        self.handles@[self.idx_of(k)]
    }

    /// Well-formedness: every id is below the counter, and ids are distinct.
    pub open spec fn wf(self) -> bool {
        &&& forall|i: int|
            0 <= i < self.handles@.len() ==> (#[trigger] self.handles@[i]).id.id < self.next_id
        &&& forall|i: int, j: int|
            0 <= i < self.handles@.len() && 0 <= j < self.handles@.len() && i != j
                ==> (#[trigger] self.handles@[i]).id.id != (#[trigger] self.handles@[j]).id.id
    }

    /// With distinct ids, the handle index of a contained id is the one
    /// and only index carrying that id.
    pub proof fn lemma_idx_of(self, k: u64)
        requires
            self.wf(),
            self.contains_id(k),
        ensures
            0 <= self.idx_of(k) < self.handles@.len(),
            self.handles@[self.idx_of(k)].id.id == k,
            forall|i: int|
                0 <= i < self.handles@.len() && (#[trigger] self.handles@[i]).id.id == k ==> i
                    == self.idx_of(k),
    {
    }

    /// An empty registry.
    pub fn new() -> (r: Registry)
        ensures
            r.wf(),
            r.next_id == 0,
            r.live_ids() == Set::<u64>::empty(),
            r.handles@.len() == 0,
    {
        let r = Registry { next_id: 0, handles: Vec::new() };
        proof {
            assert(r.live_ids() =~= Set::<u64>::empty());
        }
        r
    }

    /// Attaches a new source: allocates a fresh id and records the handle
    /// in `Starting` state. The driver itself is started by the host; the
    /// id is returned immediately.
    pub fn attach(&mut self, platform: Platform) -> (sid: SourceId)
        requires
            old(self).wf(),
            old(self).next_id < u64::MAX,
        ensures
            final(self).wf(),
            sid.id == old(self).next_id,
            !old(self).contains_id(sid.id),
            final(self).contains_id(sid.id),
            final(self).live_ids() == old(self).live_ids().insert(sid.id),
            final(self).handle_of(sid.id) == (SourceHandle {
                id: sid,
                platform,
                state: SourceState::Starting,
                last_error: None,
            }),
            final(self).next_id == old(self).next_id + 1,
            forall|k: u64|
                k != sid.id ==> (#[trigger] final(self).contains_id(k) <==> old(
                    self,
                ).contains_id(k)),
            forall|k: u64|
                k != sid.id && old(self).contains_id(k) ==> #[trigger] final(self).handle_of(k)
                    == old(self).handle_of(k),
    {
        let sid = SourceId { id: self.next_id };
        let handle = SourceHandle {
            id: sid,
            platform,
            state: SourceState::Starting,
            last_error: None,
        };
        let ghost pre = *self;
        self.handles.push(handle);
        self.next_id = self.next_id + 1;
        proof {
            assert forall|k: u64| k != sid.id && pre.contains_id(k) implies #[trigger] self
                .handle_of(k) == pre.handle_of(k) by {
                pre.lemma_idx_of(k);
                assert(self.handles@[pre.idx_of(k)].id.id == k);
                self.lemma_idx_of(k);
            }
            assert(self.handles@[self.handles@.len() - 1].id.id == sid.id);
            self.lemma_idx_of(sid.id);
            assert forall|k: u64| k != sid.id implies ((#[trigger] self.contains_id(k)) <==> pre
                .contains_id(k)) by {
                if pre.contains_id(k) {
                    let j = choose|j: int|
                        0 <= j < pre.handles@.len() && pre.handles@[j].id.id == k;
                    assert(self.handles@[j].id.id == k);
                }
                if self.contains_id(k) {
                    let j = choose|j: int|
                        0 <= j < self.handles@.len() && self.handles@[j].id.id == k;
                    assert(j < pre.handles@.len());
                    assert(pre.handles@[j].id.id == k);
                }
            }
            assert(self.live_ids() =~= pre.live_ids().insert(sid.id));
        }
        sid
    }

    /// Finds the handle index of id `k`.
    fn find_idx(&self, k: u64) -> (r: Option<usize>)
        requires
            self.wf(),
        ensures
            match r {
                Some(i) => self.contains_id(k) && i == self.idx_of(k) && i < self.handles.len(),
                None => !self.contains_id(k),
            },
    {
        let mut i: usize = 0;
        while i < self.handles.len()
            invariant
                self.wf(),
                i <= self.handles.len(),
                forall|j: int| 0 <= j < i ==> (#[trigger] self.handles@[j]).id.id != k,
            decreases self.handles.len() - i,
        {
            if self.handles[i].id.id == k {
                proof {
                    self.lemma_idx_of(k);
                }
                return Some(i);
            }
            i = i + 1;
        }
        None
    }

    /// Detaches the source with id `sid`: its handle is removed and its id
    /// leaves the live set for good. Detaching an unknown id reports
    /// `UnknownSource` and mutates nothing.
    pub fn detach(&mut self, sid: SourceId) -> (r: Result<(), RegistryError>)
        requires
            old(self).wf(),
        ensures
            final(self).wf(),
            r.is_ok() <==> old(self).contains_id(sid.id),
            r.is_err() ==> r == Result::<(), RegistryError>::Err(RegistryError::UnknownSource)
                && *final(self) == *old(self),
            r.is_ok() ==> {
                &&& !final(self).contains_id(sid.id)
                &&& final(self).live_ids() == old(self).live_ids().remove(sid.id)
                &&& final(self).next_id == old(self).next_id
                &&& forall|k: u64|
                    k != sid.id ==> (#[trigger] final(self).contains_id(k) <==> old(
                        self,
                    ).contains_id(k))
                &&& forall|k: u64|
                    k != sid.id && old(self).contains_id(k) ==> #[trigger] final(self).handle_of(k)
                        == old(self).handle_of(k)
            },
    {
        match self.find_idx(sid.id) {
            None => Err(RegistryError::UnknownSource),
            Some(i) => {
                let ghost pre = *self;
                proof {
                    pre.lemma_idx_of(sid.id);
                }
                self.handles.remove(i);
                proof {
                    assert forall|k: u64| k != sid.id && pre.contains_id(k) implies #[trigger] self
                        .contains_id(k) by {
                        pre.lemma_idx_of(k);
                        let j = pre.idx_of(k);
                        if j < i {
                            assert(self.handles@[j].id.id == k);
                        } else {
                            assert(self.handles@[j - 1].id.id == k);
                        }
                    }
                    assert forall|k: u64| k != sid.id && self.contains_id(k) implies pre
                        .contains_id(k) by {
                        let j = choose|j: int|
                            0 <= j < self.handles@.len() && self.handles@[j].id.id == k;
                        if j < i {
                            assert(pre.handles@[j].id.id == k);
                        } else {
                            assert(pre.handles@[j + 1].id.id == k);
                        }
                    }
                    assert forall|k: u64| self.contains_id(k) implies k != sid.id by {
                        let j = choose|j: int|
                            0 <= j < self.handles@.len() && self.handles@[j].id.id == k;
                        if j < i {
                            assert(pre.handles@[j].id.id == k);
                        } else {
                            assert(pre.handles@[j + 1].id.id == k);
                        }
                        pre.lemma_idx_of(sid.id);
                    }
                    assert forall|k: u64| k != sid.id && pre.contains_id(k) implies #[trigger] self
                        .handle_of(k) == pre.handle_of(k) by {
                        pre.lemma_idx_of(k);
                        let j = pre.idx_of(k);
                        if j < i {
                            assert(self.handles@[j].id.id == k);
                        } else {
                            assert(self.handles@[j - 1].id.id == k);
                        }
                        self.lemma_idx_of(k);
                    }
                    assert(self.live_ids() =~= pre.live_ids().remove(sid.id));
                }
                Ok(())
            },
        }
    }

    /// Read-only snapshot of one source's lifecycle state.
    pub fn status(&self, sid: SourceId) -> (r: Result<SourceState, RegistryError>)
        requires
            self.wf(),
        ensures
            r == if self.contains_id(sid.id) {
                Result::<SourceState, RegistryError>::Ok(self.handle_of(sid.id).state)
            } else {
                Result::<SourceState, RegistryError>::Err(RegistryError::UnknownSource)
            },
    {
        match self.find_idx(sid.id) {
            Some(i) => Ok(self.handles[i].state),
            None => Err(RegistryError::UnknownSource),
        }
    }

    /// Read-only snapshot of one source's platform.
    pub fn platform_of(&self, sid: SourceId) -> (r: Result<Platform, RegistryError>)
        requires
            self.wf(),
        ensures
            r == if self.contains_id(sid.id) {
                Result::<Platform, RegistryError>::Ok(self.handle_of(sid.id).platform)
            } else {
                Result::<Platform, RegistryError>::Err(RegistryError::UnknownSource)
            },
    {
        match self.find_idx(sid.id) {
            Some(i) => Ok(self.handles[i].platform),
            None => Err(RegistryError::UnknownSource),
        }
    }

    /// Read-only snapshot of one source's last recorded transport error.
    pub fn last_error(&self, sid: SourceId) -> (r: Result<
        Option<SourceError>,
        RegistryError,
    >)
        requires
            self.wf(),
        ensures
            r == if self.contains_id(sid.id) {
                Result::<Option<SourceError>, RegistryError>::Ok(
                    self.handle_of(sid.id).last_error,
                )
            } else {
                Result::<Option<SourceError>, RegistryError>::Err(RegistryError::UnknownSource)
            },
    {
        match self.find_idx(sid.id) {
            Some(i) => Ok(self.handles[i].last_error),
            None => Err(RegistryError::UnknownSource),
        }
    }

    /// The handle of `sid` after the lifecycle step `step` was applied to it.
    pub open spec fn spec_step_handle(h: SourceHandle, to: SourceState, error: Option<
        SourceError,
    >) -> SourceHandle {
        if transition_allowed(h.state, to) {
            SourceHandle { state: to, last_error: error, ..h }
        } else {
            h
        }
    }

    /// Applies one lifecycle step to the source with id `sid`, recording
    /// `error` with it: the step is taken when the per-source state machine
    /// allows it and is a no-op otherwise (`Stopped` stays terminal).
    /// Reports `UnknownSource` for an id that is not attached.
    pub fn note_transition(
        &mut self,
        sid: SourceId,
        to: SourceState,
        error: Option<SourceError>,
    ) -> (r: Result<bool, RegistryError>)
        requires
            old(self).wf(),
        ensures
            final(self).wf(),
            final(self).next_id == old(self).next_id,
            r.is_ok() <==> old(self).contains_id(sid.id),
            r.is_err() ==> r == Result::<bool, RegistryError>::Err(RegistryError::UnknownSource)
                && *final(self) == *old(self),
            r.is_ok() ==> {
                &&& r == Result::<bool, RegistryError>::Ok(
                    transition_allowed(old(self).handle_of(sid.id).state, to),
                )
                &&& final(self).handle_of(sid.id) == Self::spec_step_handle(
                    old(self).handle_of(sid.id),
                    to,
                    error,
                )
                &&& forall|k: u64|
                    (#[trigger] final(self).contains_id(k)) <==> old(self).contains_id(k)
                &&& forall|k: u64|
                    k != sid.id && old(self).contains_id(k) ==> #[trigger] final(self).handle_of(k)
                        == old(self).handle_of(k)
            },
    {
        match self.find_idx(sid.id) {
            None => Err(RegistryError::UnknownSource),
            Some(i) => {
                let ghost pre = *self;
                let h = self.handles[i];
                let stepped = match (h.state, to) {
                    (SourceState::Starting, SourceState::Active) => true,
                    (SourceState::Starting, SourceState::Stopped) => true,
                    (SourceState::Active, SourceState::Degraded) => true,
                    (SourceState::Active, SourceState::Stopped) => true,
                    (SourceState::Degraded, SourceState::Active) => true,
                    (SourceState::Degraded, SourceState::Stopped) => true,
                    _ => false,
                };
                if stepped {
                    self.handles[i] = SourceHandle { state: to, last_error: error, ..h };
                }
                proof {
                    pre.lemma_idx_of(sid.id);
                    assert forall|k: u64| (#[trigger] self.contains_id(k)) <==> pre.contains_id(
                        k,
                    ) by {
                        if pre.contains_id(k) {
                            pre.lemma_idx_of(k);
                            assert(self.handles@[pre.idx_of(k)].id.id == k);
                        }
                        if self.contains_id(k) {
                            let j = choose|j: int|
                                0 <= j < self.handles@.len() && self.handles@[j].id.id == k;
                            assert(pre.handles@[j].id.id == k);
                        }
                    }
                    assert forall|k: u64| k != sid.id && pre.contains_id(k) implies #[trigger] self
                        .handle_of(k) == pre.handle_of(k) by {
                        pre.lemma_idx_of(k);
                        assert(self.handles@[pre.idx_of(k)].id.id == k);
                        self.lemma_idx_of(k);
                    }
                    self.lemma_idx_of(sid.id);
                }
                Ok(stepped)
            },
        }
    }
}

} // verus!
