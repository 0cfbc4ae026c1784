use vstd::prelude::*;

verus! {

/// First wait, in milliseconds, after the socket path was found missing.
pub const UDS_RETRY_INITIAL_DELAY_MS: u64 = 100;

/// Longest wait, in milliseconds, between two connect attempts.
pub const UDS_RETRY_MAX_DELAY_MS: u64 = 2000;

/// What one attempt to connect to the Unix domain socket gave.
#[derive(Clone, Copy, Debug, PartialEq, Eq, Structural)]
pub enum ConnectOutcome {
    /// The stream is open.
    Connected,
    /// Nothing is bound at the path yet.
    NotFound,
    /// Any other error.
    Failed,
}

/// What the session does after an attempt.
#[derive(Clone, Copy, Debug, PartialEq, Eq, Structural)]
pub enum ConnectStep {
    /// Start relaying on the open stream.
    Proceed,
    /// Sleep this many milliseconds, then try again.
    RetryAfter(u64),
    /// End the session with the connect error.
    GiveUp,
}

/// The wait that follows a wait of `delay` milliseconds: doubled, capped.
pub open spec fn next_delay(delay: u64) -> u64 {
    if 2 * delay > UDS_RETRY_MAX_DELAY_MS {
        UDS_RETRY_MAX_DELAY_MS
    } else {
        (2 * delay) as u64
    }
}

/// The wait before the `n`-th retry, counted from zero, of a session that
/// keeps finding the path missing.
pub open spec fn delay_after(n: nat) -> u64
    decreases n,
{
    if n == 0 {
        UDS_RETRY_INITIAL_DELAY_MS
    } else {
        next_delay(delay_after((n - 1) as nat))
    }
}

/// Connect retry state of one host proxy session.
#[derive(Clone, Copy, Debug)]
pub struct UdsRetry {
    pub delay_ms: u64,
    pub attempts: u32,
}

impl UdsRetry {
    pub open spec fn wf(&self) -> bool {
        UDS_RETRY_INITIAL_DELAY_MS <= self.delay_ms <= UDS_RETRY_MAX_DELAY_MS
    }

    /// State before the first attempt.
    pub fn new() -> (r: UdsRetry)
        ensures
            r.wf(),
            r.delay_ms == UDS_RETRY_INITIAL_DELAY_MS,
            r.attempts == 0,
    {
        UdsRetry { delay_ms: UDS_RETRY_INITIAL_DELAY_MS, attempts: 0 }
    }

    /// Decides what follows an attempt. A missing path is retried after the
    /// current wait, which then doubles up to its cap; any other error ends
    /// the session at once.
    pub fn on_connect(&mut self, outcome: ConnectOutcome) -> (r: ConnectStep)
        requires
            old(self).wf(),
        ensures
            final(self).wf(),
            outcome == ConnectOutcome::Connected ==> r == ConnectStep::Proceed && *final(self)
                == *old(self),
            outcome == ConnectOutcome::Failed ==> r == ConnectStep::GiveUp && *final(self)
                == *old(self),
            outcome == ConnectOutcome::NotFound ==> r == ConnectStep::RetryAfter(old(self).delay_ms)
                && final(self).delay_ms == next_delay(old(self).delay_ms) && final(self).attempts
                == (if old(self).attempts == u32::MAX { u32::MAX } else { (old(self).attempts + 1) as u32 }),
    {
        match outcome {
            ConnectOutcome::Connected => ConnectStep::Proceed,
            ConnectOutcome::Failed => ConnectStep::GiveUp,
            ConnectOutcome::NotFound => {
                let wait = self.delay_ms;
                self.attempts = self.attempts.saturating_add(1);
                let doubled = self.delay_ms * 2;
                self.delay_ms = if doubled > UDS_RETRY_MAX_DELAY_MS {
                    UDS_RETRY_MAX_DELAY_MS
                } else {
                    doubled
                };
                ConnectStep::RetryAfter(wait)
            },
        }
    }
}

/// A session whose socket path stays missing retries forever with a state of
/// fixed size: every wait lies between the initial delay and the cap, and from
/// the fifth retry on every wait is the cap.
pub proof fn retry_waits_stay_bounded(n: nat)
    ensures
        UDS_RETRY_INITIAL_DELAY_MS <= delay_after(n) <= UDS_RETRY_MAX_DELAY_MS,
        n >= 5 ==> delay_after(n) == UDS_RETRY_MAX_DELAY_MS,
    decreases n,
{
    if n > 0 {
        retry_waits_stay_bounded((n - 1) as nat);
    }
    if n == 5 {
        reveal_with_fuel(delay_after, 6);
    }
}

} // verus!
