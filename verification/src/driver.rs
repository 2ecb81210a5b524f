//! Driver supervision decisions: reconnect policy for one source.
//!
//! The host owns the connection and the waiting; this module owns the
//! decisions. After a recoverable transport error the supervisor grants a
//! bounded number of reconnect attempts, each with an exponentially grown,
//! capped delay; once the retries are exhausted, or the error is terminal,
//! it gives up and the source's sequence ends.

use vstd::prelude::*;

verus! {

/// A transport-level failure of one driver's connection.
#[derive(Clone, Copy, PartialEq, Eq, Structural, Debug)]
pub enum TransportError {
    /// Worth retrying under the backoff policy.
    Recoverable,
    /// Ends the source's sequence; the registry records it.
    Terminal,
}

/// A failure to establish a session at attach time. Surfaced to the
/// caller and recorded; the registry itself never retries a connect.
#[derive(Clone, Copy, PartialEq, Eq, Structural, Debug)]
pub enum ConnectError {
    /// No such channel or broadcast.
    NotFound,
    /// The platform refused the credentials (or the anonymous session).
    AuthRejected,
    /// The network was not available.
    NetworkUnavailable,
}

/// What a source's handle records as its last fault.
#[derive(Clone, Copy, PartialEq, Eq, Structural, Debug)]
pub enum SourceError {
    /// The session could not be established.
    Connect(ConnectError),
    /// The established session failed.
    Transport(TransportError),
}

/// Reconnect policy of one driver: how many retries, starting from which
/// delay, capped at which delay.
#[derive(Clone, Copy, PartialEq, Eq, Structural, Debug)]
pub struct RetryPolicy {
    pub max_retries: u32,
    pub base_delay_ms: u64,
    pub max_delay_ms: u64,
}

/// What the supervisor decides after a transport error.
#[derive(Clone, Copy, PartialEq, Eq, Structural, Debug)]
pub enum RetryDecision {
    /// Reconnect after waiting this many milliseconds.
    RetryAfter { delay_ms: u64 },
    /// Stop: the source's sequence is over.
    GiveUp,
}

impl RetryPolicy {
    /// A policy is well formed when the starting delay does not exceed the cap.
    pub open spec fn wf(self) -> bool {
        self.base_delay_ms <= self.max_delay_ms
    }
}

/// The delay granted before reconnect attempt number `attempt` (counting
/// from zero): the base delay doubled `attempt` times, capped at the
/// policy's maximum.
pub open spec fn spec_backoff_delay(p: RetryPolicy, attempt: nat) -> u64
    decreases attempt,
{
    if attempt == 0 {
        p.base_delay_ms
    } else {
        let prev = spec_backoff_delay(p, (attempt - 1) as nat);
        if prev > p.max_delay_ms / 2 {
            p.max_delay_ms
        } else {
            (prev * 2) as u64
        }
    }
}

/// The delay cap holds at every attempt: exponential growth never passes
/// the policy's maximum delay.
pub proof fn lemma_backoff_delay_capped(p: RetryPolicy, attempt: nat)
    requires
        p.wf(),
    ensures
        spec_backoff_delay(p, attempt) <= p.max_delay_ms,
    decreases attempt,
{
    if attempt > 0 {
        lemma_backoff_delay_capped(p, (attempt - 1) as nat);
    }
}

/// The granted delays never shrink from one attempt to the next.
pub proof fn lemma_backoff_delay_monotone(p: RetryPolicy, attempt: nat)
    requires
        p.wf(),
    ensures
        spec_backoff_delay(p, attempt) <= spec_backoff_delay(p, attempt + 1),
{
    lemma_backoff_delay_capped(p, attempt);
}

/// Computes the backoff delay for the given attempt.
pub fn backoff_delay(p: &RetryPolicy, attempt: u32) -> (d: u64)
    requires
        p.wf(),
    ensures
        d == spec_backoff_delay(*p, attempt as nat),
{
    let mut i: u32 = 0;
    let mut d: u64 = p.base_delay_ms;
    while i < attempt
        invariant
            i <= attempt,
            p.wf(),
            d == spec_backoff_delay(*p, i as nat),
        decreases attempt - i,
    {
        proof {
            lemma_backoff_delay_capped(*p, i as nat);
        }
        if d > p.max_delay_ms / 2 {
            d = p.max_delay_ms;
        } else {
            d = d * 2;
        }
        i = i + 1;
    }
    d
}

/// The supervisor of one driver: its policy and how many reconnects it has
/// already granted since the last successful connection.
#[derive(Clone, Copy, PartialEq, Eq, Structural, Debug)]
pub struct Supervisor {
    pub policy: RetryPolicy,
    pub retries_used: u32,
}

impl Supervisor {
    pub open spec fn wf(self) -> bool {
        &&& self.policy.wf()
        &&& self.retries_used <= self.policy.max_retries
    }

    /// Fresh supervisor for a newly connected driver.
    pub fn new(policy: RetryPolicy) -> (s: Supervisor)
        requires
            policy.wf(),
        ensures
            s.wf(),
            s.policy == policy,
            s.retries_used == 0,
    {
        Supervisor { policy, retries_used: 0 }
    }

    /// What the supervisor decides on a recoverable error: retry with the
    /// next backoff delay while retries remain, else give up.
    pub open spec fn spec_on_recoverable(self) -> (Supervisor, RetryDecision) {
        if self.retries_used < self.policy.max_retries {
            (
                Supervisor { retries_used: (self.retries_used + 1) as u32, ..self },
                RetryDecision::RetryAfter {
                    delay_ms: spec_backoff_delay(self.policy, self.retries_used as nat),
                },
            )
        } else {
            (self, RetryDecision::GiveUp)
        }
    }

    /// Decides what to do after a transport error. A terminal error always
    /// ends the source; a recoverable one is retried with exponential
    /// backoff until the policy's retry budget is exhausted.
    pub fn on_error(&mut self, err: TransportError) -> (d: RetryDecision)
        requires
            old(self).wf(),
        ensures
            final(self).wf(),
            final(self).policy == old(self).policy,
            err == TransportError::Terminal ==> d == RetryDecision::GiveUp && *final(self)
                == *old(self),
            err == TransportError::Recoverable ==> (*final(self), d)
                == old(self).spec_on_recoverable(),
    {
        match err {
            TransportError::Terminal => RetryDecision::GiveUp,
            TransportError::Recoverable => {
                if self.retries_used < self.policy.max_retries {
                    let delay = backoff_delay(&self.policy, self.retries_used);
                    self.retries_used = self.retries_used + 1;
                    RetryDecision::RetryAfter { delay_ms: delay }
                } else {
                    RetryDecision::GiveUp
                }
            },
        }
    }

    /// Notes a successful (re)connection: the retry budget is whole again.
    pub fn on_connected(&mut self)
        requires
            old(self).wf(),
        ensures
            final(self).wf(),
            final(self).policy == old(self).policy,
            final(self).retries_used == 0,
    {
        self.retries_used = 0;
    }

    /// Runs `k` recoverable errors through the supervisor, keeping the last
    /// decision.
    pub open spec fn spec_run_recoverable(self, k: nat) -> (Supervisor, RetryDecision)
        decreases k,
    {
        if k == 0 {
            (self, RetryDecision::GiveUp)
        } else {
            let (s, _) = self.spec_run_recoverable((k - 1) as nat);
            s.spec_on_recoverable()
        }
    }

    /// Retries are bounded: starting from any well-formed supervisor state,
    /// a run of consecutive recoverable errors is granted at most
    /// `max_retries - retries_used` reconnects; every later error in the
    /// run is answered with `GiveUp`, and the state stops changing.
    pub proof fn lemma_retries_bounded(self, k: nat)
        requires
            self.wf(),
            k > 0,
        ensures
            self.spec_run_recoverable(k).0.wf(),
            self.spec_run_recoverable(k).0.policy == self.policy,
            self.spec_run_recoverable(k).0.retries_used == if self.retries_used + k
                <= self.policy.max_retries {
                self.retries_used + k
            } else {
                self.policy.max_retries as int
            },
            (self.spec_run_recoverable(k).1 == RetryDecision::GiveUp) <==> (self.retries_used + k
                > self.policy.max_retries),
        decreases k,
    {
        if k == 1 {
            assert(self.spec_run_recoverable(0) == (self, RetryDecision::GiveUp));
            assert(self.spec_run_recoverable(1) == self.spec_on_recoverable());
        } else {
            self.lemma_retries_bounded((k - 1) as nat);
            assert(self.spec_run_recoverable(k) == self.spec_run_recoverable(
                (k - 1) as nat,
            ).0.spec_on_recoverable());
        }
    }
}

} // verus!
