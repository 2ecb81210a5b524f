use chat_mux::driver::{SourceError, TransportError};
use chat_mux::event::Platform;
use chat_mux::registry::{Registry, RegistryError, SourceState};

#[test]
fn attach_assigns_fresh_increasing_ids() {
    let mut reg = Registry::new();
    let a = reg.attach(Platform::Twitch);
    let b = reg.attach(Platform::YouTube);
    assert_eq!(a.id, 0);
    assert_eq!(b.id, 1);
    assert_eq!(reg.status(a), Ok(SourceState::Starting));
    assert_eq!(reg.status(b), Ok(SourceState::Starting));
}

#[test]
fn live_set_tracks_attach_and_detach() {
    let mut reg = Registry::new();
    let a = reg.attach(Platform::Twitch);
    let b = reg.attach(Platform::YouTube);
    assert_eq!(reg.detach(a), Ok(()));
    assert!(reg.status(a).is_err());
    assert!(reg.status(b).is_ok());
    assert_eq!(reg.detach(b), Ok(()));
    assert!(reg.status(b).is_err());
}

#[test]
fn detach_unknown_id_reports_error_and_mutates_nothing() {
    let mut reg = Registry::new();
    let a = reg.attach(Platform::Twitch);
    let ghost_of_b = chat_mux::event::SourceId { id: 77 };
    assert_eq!(reg.detach(ghost_of_b), Err(RegistryError::UnknownSource));
    // The one attached source is untouched.
    assert_eq!(reg.status(a), Ok(SourceState::Starting));
    assert_eq!(reg.detach(ghost_of_b), Err(RegistryError::UnknownSource));
    assert_eq!(reg.detach(a), Ok(()));
    // Detach is not idempotent on an already-removed id: same error again.
    assert_eq!(reg.detach(a), Err(RegistryError::UnknownSource));
}

#[test]
fn ids_are_never_reused_after_detach() {
    let mut reg = Registry::new();
    let a = reg.attach(Platform::Twitch);
    assert_eq!(reg.detach(a), Ok(()));
    let b = reg.attach(Platform::Twitch);
    assert_ne!(a.id, b.id);
}

#[test]
fn lifecycle_transitions_follow_the_state_machine() {
    let mut reg = Registry::new();
    let a = reg.attach(Platform::YouTube);
    // Starting -> Active
    assert_eq!(reg.note_transition(a, SourceState::Active, None), Ok(true));
    assert_eq!(reg.status(a), Ok(SourceState::Active));
    // Active -> Degraded records the recoverable error
    assert_eq!(
        reg.note_transition(a, SourceState::Degraded, Some(SourceError::Transport(TransportError::Recoverable))),
        Ok(true)
    );
    assert_eq!(reg.status(a), Ok(SourceState::Degraded));
    assert_eq!(reg.last_error(a), Ok(Some(SourceError::Transport(TransportError::Recoverable))));
    // Degraded -> Active again after reconnect
    assert_eq!(reg.note_transition(a, SourceState::Active, None), Ok(true));
    assert_eq!(reg.status(a), Ok(SourceState::Active));
    // Active -> Stopped is terminal
    assert_eq!(
        reg.note_transition(a, SourceState::Stopped, Some(SourceError::Transport(TransportError::Terminal))),
        Ok(true)
    );
    assert_eq!(reg.status(a), Ok(SourceState::Stopped));
    assert_eq!(reg.last_error(a), Ok(Some(SourceError::Transport(TransportError::Terminal))));
    // No way out of Stopped.
    assert_eq!(reg.note_transition(a, SourceState::Active, None), Ok(false));
    assert_eq!(reg.status(a), Ok(SourceState::Stopped));
}

#[test]
fn backwards_transitions_are_refused() {
    let mut reg = Registry::new();
    let a = reg.attach(Platform::Twitch);
    // Starting -> Degraded is not a legal step.
    assert_eq!(
        reg.note_transition(a, SourceState::Degraded, Some(SourceError::Transport(TransportError::Recoverable))),
        Ok(false)
    );
    assert_eq!(reg.status(a), Ok(SourceState::Starting));
    assert_eq!(reg.last_error(a), Ok(None));
}
