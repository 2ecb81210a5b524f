use chat_mux::event::{ActionKind, Payload, Platform, SourceId};
use chat_mux::hub::Hub;
use chat_mux::mux::{MuxError, Multiplexer, PushOutcome};
use chat_mux::normalize::{NativeEvent, TwitchNative, YouTubeNative};
use chat_mux::registry::SourceState;

fn msg(user: &str, text: &str) -> Payload {
    Payload::Message { user: String::from(user), segments: vec![String::from(text)] }
}

#[test]
fn single_source_output_equals_native_order() {
    let mut m = Multiplexer::new();
    let t = SourceId { id: 0 };
    assert_eq!(m.register(t, Platform::Twitch, 16), Ok(()));
    let payloads = ["one", "two", "three", "four"];
    for (i, p) in payloads.iter().enumerate() {
        assert_eq!(m.push(t, i as u64, msg("ann", p)), PushOutcome::Buffered);
    }
    for (i, p) in payloads.iter().enumerate() {
        let e = m.pop_next().expect("event buffered");
        assert_eq!(e.source, t);
        assert_eq!(e.seq_no, i as u64);
        assert_eq!(e.payload, msg("ann", p));
    }
    assert!(m.pop_next().is_none());
}

#[test]
fn two_sources_merge_in_arrival_order() {
    // T emits msg1 at t=0 and msg2 at t=10; Y emits action1 at t=5.
    let mut m = Multiplexer::new();
    let t = SourceId { id: 0 };
    let y = SourceId { id: 1 };
    assert_eq!(m.register(t, Platform::Twitch, 8), Ok(()));
    assert_eq!(m.register(y, Platform::YouTube, 8), Ok(()));
    assert_eq!(m.push(t, 0, msg("viewer", "msg1")), PushOutcome::Buffered);
    assert_eq!(
        m.push(y, 5, Payload::Action { kind: ActionKind::Membership }),
        PushOutcome::Buffered
    );
    assert_eq!(m.push(t, 10, msg("viewer", "msg2")), PushOutcome::Buffered);

    let e1 = m.pop_next().expect("first merged event");
    assert_eq!(e1.source, t);
    assert_eq!(e1.payload, msg("viewer", "msg1"));
    assert_eq!(e1.seq_no, 0);
    assert_eq!(e1.platform, Platform::Twitch);

    let e2 = m.pop_next().expect("second merged event");
    assert_eq!(e2.source, y);
    assert_eq!(e2.payload, Payload::Action { kind: ActionKind::Membership });
    assert_eq!(e2.seq_no, 1);
    assert_eq!(e2.platform, Platform::YouTube);

    let e3 = m.pop_next().expect("third merged event");
    assert_eq!(e3.source, t);
    assert_eq!(e3.payload, msg("viewer", "msg2"));
    assert_eq!(e3.seq_no, 2);

    assert!(m.pop_next().is_none());
}

#[test]
fn simultaneous_arrivals_break_ties_by_ascending_id() {
    let mut m = Multiplexer::new();
    let a = SourceId { id: 3 };
    let b = SourceId { id: 7 };
    assert_eq!(m.register(b, Platform::YouTube, 4), Ok(()));
    assert_eq!(m.register(a, Platform::Twitch, 4), Ok(()));
    // Same arrival stamp for both: the lower id goes first, whatever the
    // registration or push order was.
    assert_eq!(m.push(b, 42, msg("y", "from-b")), PushOutcome::Buffered);
    assert_eq!(m.push(a, 42, msg("t", "from-a")), PushOutcome::Buffered);
    let e1 = m.pop_next().unwrap();
    let e2 = m.pop_next().unwrap();
    assert_eq!(e1.source, a);
    assert_eq!(e2.source, b);
}

#[test]
fn duplicate_registration_is_refused() {
    let mut m = Multiplexer::new();
    let t = SourceId { id: 0 };
    assert_eq!(m.register(t, Platform::Twitch, 4), Ok(()));
    assert_eq!(m.register(t, Platform::Twitch, 4), Err(MuxError::DuplicateSource));
}

#[test]
fn unknown_source_push_is_rejected() {
    let mut m = Multiplexer::new();
    assert_eq!(m.push(SourceId { id: 9 }, 0, msg("x", "y")), PushOutcome::Rejected);
    assert!(m.pop_next().is_none());
}

#[test]
fn overflow_drops_oldest_of_that_source_only() {
    let mut m = Multiplexer::new();
    let a = SourceId { id: 0 };
    let b = SourceId { id: 1 };
    assert_eq!(m.register(a, Platform::Twitch, 2), Ok(()));
    assert_eq!(m.register(b, Platform::YouTube, 2), Ok(()));
    // A floods its 2-slot buffer with 5 events; B emits 2, within bound.
    assert_eq!(m.push(a, 0, msg("a", "a0")), PushOutcome::Buffered);
    assert_eq!(m.push(b, 1, msg("b", "b0")), PushOutcome::Buffered);
    assert_eq!(m.push(a, 2, msg("a", "a1")), PushOutcome::Buffered);
    assert_eq!(m.push(a, 3, msg("a", "a2")), PushOutcome::DroppedOldest);
    assert_eq!(m.push(a, 4, msg("a", "a3")), PushOutcome::DroppedOldest);
    assert_eq!(m.push(a, 5, msg("a", "a4")), PushOutcome::DroppedOldest);
    assert_eq!(m.push(b, 6, msg("b", "b1")), PushOutcome::Buffered);
    // Only A's overflow counter moved.
    assert_eq!(m.overflow_count(a), Some(3));
    assert_eq!(m.overflow_count(b), Some(0));
    // B lost nothing and stays in order; A kept its newest two, in order.
    let mut a_events = Vec::new();
    let mut b_events = Vec::new();
    while let Some(e) = m.pop_next() {
        if e.source == a {
            a_events.push(e.payload);
        } else {
            b_events.push(e.payload);
        }
    }
    assert_eq!(b_events, vec![msg("b", "b0"), msg("b", "b1")]);
    assert_eq!(a_events, vec![msg("a", "a3"), msg("a", "a4")]);
}

#[test]
fn hub_scenario_attach_activate_merge() {
    // Mock driver T (Twitch-like) emits [msg1@t0, msg2@t1]; mock driver Y
    // (YouTube-like) emits [action1@t0.5]. Arrival order t0, t0.5, t1.
    let mut hub = Hub::new(8);
    let t = hub.attach(Platform::Twitch);
    let y = hub.attach(Platform::YouTube);
    assert_eq!(hub.activate(t), Ok(()));
    assert_eq!(hub.activate(y), Ok(()));
    assert_eq!(hub.registry.status(t), Ok(SourceState::Active));

    let t_msg1 = NativeEvent::Twitch(TwitchNative::Privmsg {
        user: String::from("viewer"),
        segments: vec![String::from("msg1")],
    });
    let y_action1 = NativeEvent::YouTube(YouTubeNative::Membership {
        member: String::from("fan"),
    });
    let t_msg2 = NativeEvent::Twitch(TwitchNative::Privmsg {
        user: String::from("viewer"),
        segments: vec![String::from("msg2")],
    });
    assert_eq!(hub.ingest_native(t, 0, t_msg1), PushOutcome::Buffered);
    assert_eq!(hub.ingest_native(y, 5, y_action1), PushOutcome::Buffered);
    assert_eq!(hub.ingest_native(t, 10, t_msg2), PushOutcome::Buffered);

    let e1 = hub.next_event().unwrap();
    let e2 = hub.next_event().unwrap();
    let e3 = hub.next_event().unwrap();
    assert_eq!((e1.source, e1.payload), (t, msg("viewer", "msg1")));
    assert_eq!(
        (e2.source, e2.payload),
        (y, Payload::Action { kind: ActionKind::Membership })
    );
    assert_eq!((e3.source, e3.payload), (t, msg("viewer", "msg2")));
    assert_eq!((e1.seq_no, e2.seq_no, e3.seq_no), (0, 1, 2));
    assert!(hub.next_event().is_none());
}

#[test]
fn detach_in_flight_still_delivers_buffered_events() {
    let mut hub = Hub::new(8);
    let t = hub.attach(Platform::Twitch);
    let y = hub.attach(Platform::YouTube);
    assert_eq!(hub.activate(t), Ok(()));
    assert_eq!(hub.activate(y), Ok(()));
    let t_msg1 = NativeEvent::Twitch(TwitchNative::Privmsg {
        user: String::from("viewer"),
        segments: vec![String::from("msg1")],
    });
    assert_eq!(hub.ingest_native(t, 0, t_msg1), PushOutcome::Buffered);
    // Detach T while msg1 sits unconsumed.
    assert_eq!(hub.detach(t), Ok(()));
    // Later T events are produced post-detach: refused, not buffered.
    let t_msg2 = NativeEvent::Twitch(TwitchNative::Privmsg {
        user: String::from("viewer"),
        segments: vec![String::from("msg2")],
    });
    assert_eq!(hub.ingest_native(t, 1, t_msg2), PushOutcome::Rejected);
    // msg1 is still delivered, then nothing more from T.
    let e1 = hub.next_event().unwrap();
    assert_eq!(e1.source, t);
    assert_eq!(e1.payload, msg("viewer", "msg1"));
    assert!(hub.next_event().is_none());
}

#[test]
fn recoverable_fault_degrades_then_resumes_without_loss() {
    let mut hub = Hub::new(8);
    let y = hub.attach(Platform::YouTube);
    assert_eq!(hub.activate(y), Ok(()));
    let a1 = NativeEvent::YouTube(YouTubeNative::TextMessage {
        author: String::from("fan"),
        segments: vec![String::from("before-fault")],
    });
    assert_eq!(hub.ingest_native(y, 0, a1), PushOutcome::Buffered);
    // Mid-stream recoverable transport error: Degraded, nothing lost.
    assert_eq!(hub.degrade(y), Ok(()));
    assert_eq!(hub.registry.status(y), Ok(SourceState::Degraded));
    assert_eq!(hub.mux.buffered_len(y), Some(1));
    // Reconnect succeeds: Active again, stream resumes.
    assert_eq!(hub.activate(y), Ok(()));
    assert_eq!(hub.registry.status(y), Ok(SourceState::Active));
    let a2 = NativeEvent::YouTube(YouTubeNative::TextMessage {
        author: String::from("fan"),
        segments: vec![String::from("after-reconnect")],
    });
    assert_eq!(hub.ingest_native(y, 1, a2), PushOutcome::Buffered);
    let e1 = hub.next_event().unwrap();
    let e2 = hub.next_event().unwrap();
    assert_eq!(e1.payload, msg("fan", "before-fault"));
    assert_eq!(e2.payload, msg("fan", "after-reconnect"));
}

#[test]
fn exhausted_retries_stop_the_source_but_not_the_merge() {
    let mut hub = Hub::new(8);
    let t = hub.attach(Platform::Twitch);
    let y = hub.attach(Platform::YouTube);
    assert_eq!(hub.activate(t), Ok(()));
    assert_eq!(hub.activate(y), Ok(()));
    let y1 = NativeEvent::YouTube(YouTubeNative::TextMessage {
        author: String::from("fan"),
        segments: vec![String::from("y1")],
    });
    assert_eq!(hub.ingest_native(y, 0, y1), PushOutcome::Buffered);
    // Y's retries exhaust: terminal stop with the error recorded.
    assert_eq!(
        hub.stop(
            y,
            Some(chat_mux::driver::SourceError::Transport(
                chat_mux::driver::TransportError::Terminal,
            )),
        ),
        Ok(())
    );
    assert_eq!(hub.registry.status(y), Ok(SourceState::Stopped));
    // Y's already-buffered event still comes out; T keeps flowing.
    let t1 = NativeEvent::Twitch(TwitchNative::Privmsg {
        user: String::from("viewer"),
        segments: vec![String::from("t1")],
    });
    assert_eq!(hub.ingest_native(t, 1, t1), PushOutcome::Buffered);
    let e1 = hub.next_event().unwrap();
    assert_eq!(e1.source, y);
    let e2 = hub.next_event().unwrap();
    assert_eq!(e2.source, t);
    assert!(hub.next_event().is_none());
    // Further Y events are refused.
    let y2 = NativeEvent::YouTube(YouTubeNative::Membership { member: String::from("fan") });
    assert_eq!(hub.ingest_native(y, 2, y2), PushOutcome::Rejected);
}

#[test]
fn merge_is_done_only_when_all_sources_left_and_drained() {
    let mut hub = Hub::new(4);
    let t = hub.attach(Platform::Twitch);
    assert_eq!(hub.activate(t), Ok(()));
    let t1 = NativeEvent::Twitch(TwitchNative::Clear { target: String::from("spammer") });
    assert_eq!(hub.ingest_native(t, 0, t1), PushOutcome::Buffered);
    assert!(!hub.mux.is_done());
    assert_eq!(hub.detach(t), Ok(()));
    // Detached but not yet drained: not done.
    assert!(!hub.mux.is_done());
    let e = hub.next_event().unwrap();
    assert_eq!(e.payload, Payload::Action { kind: ActionKind::Moderation });
    assert!(hub.mux.is_done());
    assert!(hub.next_event().is_none());
}

#[test]
fn failed_connect_stops_the_source_with_the_error_recorded() {
    let mut hub = Hub::new(4);
    let t = hub.attach(Platform::Twitch);
    assert_eq!(
        hub.connect_failed(t, chat_mux::driver::ConnectError::NotFound),
        Ok(())
    );
    assert_eq!(hub.registry.status(t), Ok(SourceState::Stopped));
    assert_eq!(
        hub.registry.last_error(t),
        Ok(Some(chat_mux::driver::SourceError::Connect(
            chat_mux::driver::ConnectError::NotFound
        )))
    );
    // A source that never connected has nothing buffered and accepts nothing.
    let e = NativeEvent::Twitch(TwitchNative::Unsupported { raw: String::from("PING") });
    assert_eq!(hub.ingest_native(t, 0, e), PushOutcome::Rejected);
    assert!(hub.next_event().is_none());
    // An unknown id still reports cleanly.
    let ghost_id = chat_mux::event::SourceId { id: 404 };
    assert!(hub.connect_failed(ghost_id, chat_mux::driver::ConnectError::AuthRejected).is_err());
}
