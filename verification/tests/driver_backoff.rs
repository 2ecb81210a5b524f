use chat_mux::driver::{
    backoff_delay, RetryDecision, RetryPolicy, Supervisor, TransportError,
};

fn policy() -> RetryPolicy {
    RetryPolicy { max_retries: 3, base_delay_ms: 100, max_delay_ms: 3000 }
}

#[test]
fn backoff_doubles_and_caps() {
    let p = RetryPolicy { max_retries: 10, base_delay_ms: 100, max_delay_ms: 3000 };
    assert_eq!(backoff_delay(&p, 0), 100);
    assert_eq!(backoff_delay(&p, 1), 200);
    assert_eq!(backoff_delay(&p, 2), 400);
    assert_eq!(backoff_delay(&p, 3), 800);
    assert_eq!(backoff_delay(&p, 4), 1600);
    assert_eq!(backoff_delay(&p, 5), 3000);
    assert_eq!(backoff_delay(&p, 6), 3000);
    assert_eq!(backoff_delay(&p, 63), 3000);
}

#[test]
fn backoff_with_zero_base_stays_zero() {
    let p = RetryPolicy { max_retries: 2, base_delay_ms: 0, max_delay_ms: 500 };
    assert_eq!(backoff_delay(&p, 0), 0);
    assert_eq!(backoff_delay(&p, 7), 0);
}

#[test]
fn recoverable_errors_grant_bounded_retries_then_give_up() {
    let mut sup = Supervisor::new(policy());
    assert_eq!(
        sup.on_error(TransportError::Recoverable),
        RetryDecision::RetryAfter { delay_ms: 100 }
    );
    assert_eq!(
        sup.on_error(TransportError::Recoverable),
        RetryDecision::RetryAfter { delay_ms: 200 }
    );
    assert_eq!(
        sup.on_error(TransportError::Recoverable),
        RetryDecision::RetryAfter { delay_ms: 400 }
    );
    // The retry budget (3) is spent: every further fault ends the source.
    assert_eq!(sup.on_error(TransportError::Recoverable), RetryDecision::GiveUp);
    assert_eq!(sup.on_error(TransportError::Recoverable), RetryDecision::GiveUp);
}

#[test]
fn terminal_error_always_gives_up() {
    let mut sup = Supervisor::new(policy());
    assert_eq!(sup.on_error(TransportError::Terminal), RetryDecision::GiveUp);
    // A terminal fault does not consume the retry budget.
    assert_eq!(sup.retries_used, 0);
}

#[test]
fn successful_reconnect_resets_the_budget() {
    let mut sup = Supervisor::new(policy());
    assert_eq!(
        sup.on_error(TransportError::Recoverable),
        RetryDecision::RetryAfter { delay_ms: 100 }
    );
    assert_eq!(
        sup.on_error(TransportError::Recoverable),
        RetryDecision::RetryAfter { delay_ms: 200 }
    );
    sup.on_connected();
    assert_eq!(sup.retries_used, 0);
    assert_eq!(
        sup.on_error(TransportError::Recoverable),
        RetryDecision::RetryAfter { delay_ms: 100 }
    );
}
