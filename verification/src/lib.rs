//! A multi-source live chat multiplexer.
//!
//! Heterogeneous chat sources (a Twitch-style IRC feed, a YouTube-style
//! polling feed) are normalized into one event shape, registered with a
//! source registry, and merged by a multiplexer into a single tagged,
//! sequence-numbered output stream. Per-source order is preserved exactly;
//! cross-source order is "first observed, first emitted" with a
//! deterministic tie-break. One slow or failing source never disturbs the
//! others: buffering and overflow accounting are per source.
//!
//! The host process owns the network connections and the user interface;
//! it hands the library plain values (native events and arrival stamps)
//! and drains the merged stream at its own pace.

pub mod driver;
pub mod event;
pub mod hub;
pub mod mux;
pub mod normalize;
pub mod registry;

use vstd::prelude::*;

verus! {

} // verus!
