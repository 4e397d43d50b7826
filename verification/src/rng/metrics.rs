//! Counters of what the entropy device did.

use vstd::prelude::*;

verus! {

/// Counters of what the device did.
#[derive(Debug, Clone, Copy, PartialEq, Eq, Structural)]
pub struct EntropyMetrics {
    /// Activations that failed.
    pub activate_fails: u64,
    /// Requests and events that failed.
    pub entropy_event_fails: u64,
    /// Requests taken from the entropy queue.
    pub entropy_event_count: u64,
    /// Random bytes handed to the driver on the entropy queue.
    pub entropy_bytes: u64,
    /// Failures of the host's source of random bytes.
    pub host_rng_fails: u64,
    /// Requests that the rate limiter turned down.
    pub entropy_rate_limiter_throttled: u64,
    /// Events met while throttled, and refill events.
    pub rate_limiter_event_count: u64,
}

impl EntropyMetrics {
    /// One failed request or event more.
    pub open spec fn failed(self) -> EntropyMetrics {
        EntropyMetrics { entropy_event_fails: self.entropy_event_fails.saturating_add(1), ..self }
    }

    /// One request taken from the entropy queue more.
    pub open spec fn counted(self) -> EntropyMetrics {
        EntropyMetrics { entropy_event_count: self.entropy_event_count.saturating_add(1), ..self }
    }

    /// One failure of the host's source of random bytes more.
    pub open spec fn rng_failed(self) -> EntropyMetrics {
        EntropyMetrics { host_rng_fails: self.host_rng_fails.saturating_add(1), ..self }
    }

    /// One throttled request more.
    pub open spec fn throttled(self) -> EntropyMetrics {
        EntropyMetrics {
            entropy_rate_limiter_throttled: self.entropy_rate_limiter_throttled.saturating_add(1),
            ..self
        }
    }

    /// One event of the rate limiter more.
    pub open spec fn limiter_event(self) -> EntropyMetrics {
        EntropyMetrics {
            rate_limiter_event_count: self.rate_limiter_event_count.saturating_add(1),
            ..self
        }
    }

    /// `bytes` random bytes more.
    pub open spec fn with_bytes(self, bytes: u32) -> EntropyMetrics {
        EntropyMetrics { entropy_bytes: self.entropy_bytes.saturating_add(bytes as u64), ..self }
    }

    /// One failed activation more.
    pub open spec fn activation_failed(self) -> EntropyMetrics {
        EntropyMetrics { activate_fails: self.activate_fails.saturating_add(1), ..self }
    }
}

impl EntropyMetrics {
    /// Counters that have counted nothing.
    pub fn new() -> (r: Self)
        ensures
            r == (EntropyMetrics {
                activate_fails: 0,
                entropy_event_fails: 0,
                entropy_event_count: 0,
                entropy_bytes: 0,
                host_rng_fails: 0,
                entropy_rate_limiter_throttled: 0,
                rate_limiter_event_count: 0,
            }),
    {
        EntropyMetrics {
            activate_fails: 0,
            entropy_event_fails: 0,
            entropy_event_count: 0,
            entropy_bytes: 0,
            host_rng_fails: 0,
            entropy_rate_limiter_throttled: 0,
            rate_limiter_event_count: 0,
        }
    }
}

} // verus!
