//! Normalization of platform-native events into the shared payload shape.
//!
//! Each driver produces events in its platform's own shape; the normalizer
//! is a pure, total mapping into [`Payload`]. It never fails: a native
//! event the library does not understand becomes an
//! `Action { kind: Unrecognized }` rather than being dropped, so the "no
//! silent drop" invariant is kept from the very first step.

use vstd::prelude::*;

use crate::event::{ActionKind, Payload};

verus! {

/// A Twitch-style native event, as handed over by the host after it has
/// read one item from the IRC-like connection.
#[derive(Clone, PartialEq, Eq, Debug)]
pub enum TwitchNative {
    /// An ordinary chat message.
    Privmsg { user: String, segments: Vec<String> },
    /// A moderation event (chat cleared, user timed out).
    Clear { target: String },
    /// Anything else the wire produced.
    Unsupported { raw: String },
}

/// A YouTube-style native event, as handed over by the host after one
/// poll of the live-chat continuation API.
#[derive(Clone, PartialEq, Eq, Debug)]
pub enum YouTubeNative {
    /// An ordinary chat text message.
    TextMessage { author: String, segments: Vec<String> },
    /// A membership / sponsorship action.
    Membership { member: String },
    /// Anything else the poll produced.
    Unsupported { raw: String },
}

/// A native event of either platform.
#[derive(Clone, PartialEq, Eq, Debug)]
pub enum NativeEvent {
    Twitch(TwitchNative),
    YouTube(YouTubeNative),
}

/// What a Twitch-style native event normalizes to.
pub open spec fn spec_normalize_twitch(e: TwitchNative) -> Payload {
    match e {
        TwitchNative::Privmsg { user, segments } => Payload::Message { user, segments },
        TwitchNative::Clear { target } => Payload::Action { kind: ActionKind::Moderation },
        TwitchNative::Unsupported { raw } => Payload::Action { kind: ActionKind::Unrecognized },
    }
}

/// What a YouTube-style native event normalizes to.
pub open spec fn spec_normalize_youtube(e: YouTubeNative) -> Payload {
    match e {
        YouTubeNative::TextMessage { author, segments } => Payload::Message {
            user: author,
            segments,
        },
        YouTubeNative::Membership { member } => Payload::Action { kind: ActionKind::Membership },
        YouTubeNative::Unsupported { raw } => Payload::Action { kind: ActionKind::Unrecognized },
    }
}

/// What any native event normalizes to.
pub open spec fn spec_normalize(e: NativeEvent) -> Payload {
    match e {
        NativeEvent::Twitch(t) => spec_normalize_twitch(t),
        NativeEvent::YouTube(y) => spec_normalize_youtube(y),
    }
}

/// Normalizes a Twitch-style native event. Total: never fails, never drops.
pub fn normalize_twitch(e: TwitchNative) -> (p: Payload)
    ensures
        p == spec_normalize_twitch(e),
{
    match e {
        TwitchNative::Privmsg { user, segments } => Payload::Message { user, segments },
        TwitchNative::Clear { target: _ } => Payload::Action { kind: ActionKind::Moderation },
        TwitchNative::Unsupported { raw: _ } => Payload::Action {
            kind: ActionKind::Unrecognized,
        },
    }
}

/// Normalizes a YouTube-style native event. Total: never fails, never drops.
pub fn normalize_youtube(e: YouTubeNative) -> (p: Payload)
    ensures
        p == spec_normalize_youtube(e),
{
    match e {
        YouTubeNative::TextMessage { author, segments } => Payload::Message {
            user: author,
            segments,
        },
        YouTubeNative::Membership { member: _ } => Payload::Action {
            kind: ActionKind::Membership,
        },
        YouTubeNative::Unsupported { raw: _ } => Payload::Action {
            kind: ActionKind::Unrecognized,
        },
    }
}

/// Normalizes a native event of either platform.
pub fn normalize(e: NativeEvent) -> (p: Payload)
    ensures
        p == spec_normalize(e),
{
    match e {
        NativeEvent::Twitch(t) => normalize_twitch(t),
        NativeEvent::YouTube(y) => normalize_youtube(y),
    }
}

} // verus!
