use chat_mux::event::{ActionKind, Payload};
use chat_mux::normalize::{normalize, NativeEvent, TwitchNative, YouTubeNative};

#[test]
fn twitch_message_keeps_user_and_segments() {
    let e = NativeEvent::Twitch(TwitchNative::Privmsg {
        user: String::from("ann"),
        segments: vec![String::from("hello"), String::from("world")],
    });
    assert_eq!(
        normalize(e),
        Payload::Message {
            user: String::from("ann"),
            segments: vec![String::from("hello"), String::from("world")],
        }
    );
}

#[test]
fn twitch_clear_becomes_moderation_action() {
    let e = NativeEvent::Twitch(TwitchNative::Clear { target: String::from("spammer") });
    assert_eq!(normalize(e), Payload::Action { kind: ActionKind::Moderation });
}

#[test]
fn youtube_text_message_keeps_author_and_segments() {
    let e = NativeEvent::YouTube(YouTubeNative::TextMessage {
        author: String::from("fan"),
        segments: vec![String::from("hi")],
    });
    assert_eq!(
        normalize(e),
        Payload::Message { user: String::from("fan"), segments: vec![String::from("hi")] }
    );
}

#[test]
fn youtube_membership_becomes_membership_action() {
    let e = NativeEvent::YouTube(YouTubeNative::Membership { member: String::from("fan") });
    assert_eq!(normalize(e), Payload::Action { kind: ActionKind::Membership });
}

#[test]
fn unsupported_events_become_unrecognized_never_dropped() {
    let t = NativeEvent::Twitch(TwitchNative::Unsupported { raw: String::from("PING") });
    let y = NativeEvent::YouTube(YouTubeNative::Unsupported {
        raw: String::from("placeholderRenderer"),
    });
    assert_eq!(normalize(t), Payload::Action { kind: ActionKind::Unrecognized });
    assert_eq!(normalize(y), Payload::Action { kind: ActionKind::Unrecognized });
}
