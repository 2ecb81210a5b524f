//! The shared event shape that every source is normalized into.

use vstd::prelude::*;

verus! {

/// Opaque stable identifier of an attached source. Assigned at attach time
/// from a monotonic counter, so an id is never reused for a different
/// driver instance, even after detach.
#[derive(Clone, Copy, PartialEq, Eq, Structural, Debug)]
pub struct SourceId {
    pub id: u64,
}

/// The platform a source speaks to.
#[derive(Clone, Copy, PartialEq, Eq, Structural, Debug)]
pub enum Platform {
    Twitch,
    YouTube,
}

/// Kind of a non-message platform action.
#[derive(Clone, Copy, PartialEq, Eq, Structural, Debug)]
pub enum ActionKind {
    /// A moderation event (timeout, ban, chat cleared).
    Moderation,
    /// A membership / subscription style event.
    Membership,
    /// Any native event the normalizer does not understand. Nothing is
    /// silently dropped: unrecognized input still becomes an event.
    Unrecognized,
}

/// Platform payload of a normalized event.
#[derive(Clone, PartialEq, Eq, Debug)]
pub enum Payload {
    /// An ordinary chat message, with its author and content segments.
    Message { user: String, segments: Vec<String> },
    /// A non-message platform action.
    Action { kind: ActionKind },
}

/// One normalized event as buffered by the multiplexer: what arrived and
/// when the host observed it. Arrival stamps come from the host's clock;
/// they order emissions across sources but are never trusted as a global
/// causal order.
#[derive(Clone, PartialEq, Eq, Debug)]
pub struct BufEntry {
    pub arrival: u64,
    pub payload: Payload,
}

/// One event of the merged output stream: the buffered entry tagged with
/// its source, the source's platform, and a per-multiplexer monotonically
/// increasing sequence number assigned at emission.
#[derive(Clone, PartialEq, Eq, Debug)]
pub struct EmittedEvent {
    pub seq_no: u64,
    pub source: SourceId,
    pub platform: Platform,
    pub arrival: u64,
    pub payload: Payload,
}

impl EmittedEvent {
    /// The buffered entry this emission carried.
    pub open spec fn entry(self) -> BufEntry {
        BufEntry { arrival: self.arrival, payload: self.payload }
    }
}

} // verus!
