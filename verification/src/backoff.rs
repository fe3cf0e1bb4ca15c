//! Reconnect policy: bounded exponential backoff with an attempt cap.
//!
//! A pure value. `next_delay` hands out the current delay and grows it by the
//! configured multiplier up to the cap; `reset` restores the initial state on
//! every successful connect. A zero attempt cap means unlimited attempts.

use vstd::prelude::*;

use crate::config::WebSocketConfig;

verus! {

/// Connection state of the session, observable by any component.
#[derive(Clone, Copy, PartialEq, Eq, Structural, Debug)]
pub enum ConnectionState {
    Disconnected,
    Connecting,
    Connected,
    Reconnecting,
    Failed,
}

impl ConnectionState {
    /// The wire name of the state.
    pub fn to_string(&self) -> (r: String)
        ensures
            *self is Disconnected ==> r@ == "disconnected"@,
            *self is Connecting ==> r@ == "connecting"@,
            *self is Connected ==> r@ == "connected"@,
            *self is Reconnecting ==> r@ == "reconnecting"@,
            *self is Failed ==> r@ == "failed"@,
    {
        match self {
            ConnectionState::Disconnected => "disconnected".to_owned(),
            ConnectionState::Connecting => "connecting".to_owned(),
            ConnectionState::Connected => "connected".to_owned(),
            ConnectionState::Reconnecting => "reconnecting".to_owned(),
            ConnectionState::Failed => "failed".to_owned(),
        }
    }
}

/// Exponential backoff reconnection strategy.
pub struct ReconnectStrategy {
    /// Initial delay in milliseconds.
    pub initial_delay_ms: u64,
    /// Maximum delay in milliseconds.
    pub max_delay_ms: u64,
    /// Backoff multiplier in tenths (20 = grow by a factor of two).
    pub multiplier_tenths: u64,
    /// Maximum attempts (0 = unlimited).
    pub max_attempts: u32,
    /// Attempts made since the last reset.
    pub current_attempt: u32,
    /// Delay the next attempt will wait, in milliseconds.
    pub current_delay_ms: u64,
}

impl ReconnectStrategy {
    /// Whether the attempt cap has been reached: never, when the cap is zero.
    pub open spec fn exhausted(self) -> bool {
        self.max_attempts > 0 && self.current_attempt >= self.max_attempts
    }

    /// The delay after one growth step: multiplied and clipped to the cap.
    pub open spec fn grown_delay(self) -> int {
        let grown = (self.current_delay_ms * self.multiplier_tenths) / 10;
        if grown <= self.max_delay_ms {
            grown
        } else {
            self.max_delay_ms as int
        }
    }

    /// The state after handing out one delay.
    pub open spec fn stepped(self) -> ReconnectStrategy {
        ReconnectStrategy {
            current_attempt: if self.current_attempt == u32::MAX {
                u32::MAX
            } else {
                (self.current_attempt + 1) as u32
            },
            current_delay_ms: self.grown_delay() as u64,
            ..self
        }
    }

    /// The state `reset` restores.
    pub open spec fn fresh(self) -> ReconnectStrategy {
        ReconnectStrategy { current_attempt: 0, current_delay_ms: self.initial_delay_ms, ..self }
    }

    pub fn new(config: &WebSocketConfig) -> (r: Self)
        ensures
            r.initial_delay_ms == config.reconnect_initial_delay_ms,
            r.max_delay_ms == config.reconnect_max_delay_ms,
            r.multiplier_tenths == config.reconnect_multiplier_tenths,
            r.max_attempts == config.max_reconnect_attempts,
            r == r.fresh(),
    {
        ReconnectStrategy {
            initial_delay_ms: config.reconnect_initial_delay_ms,
            max_delay_ms: config.reconnect_max_delay_ms,
            multiplier_tenths: config.reconnect_multiplier_tenths,
            max_attempts: config.max_reconnect_attempts,
            current_attempt: 0,
            current_delay_ms: config.reconnect_initial_delay_ms,
        }
    }

    /// Hand out the next delay in milliseconds, or nothing once the attempt
    /// cap is reached; a zero cap never refuses.
    pub fn next_delay(&mut self) -> (r: Option<u64>)
        ensures
            old(self).exhausted() ==> r is None && *final(self) == *old(self),
            !old(self).exhausted() ==> r == Some(old(self).current_delay_ms) && *final(self)
                == old(self).stepped(),
            old(self).max_attempts == 0 ==> r is Some,
    {
        if self.max_attempts > 0 && self.current_attempt >= self.max_attempts {
            return None;
        }

        let delay = self.current_delay_ms;

        if self.current_attempt < u32::MAX {
            self.current_attempt = self.current_attempt + 1;
        }
        proof {
            assert((self.current_delay_ms as int) * (self.multiplier_tenths as int) <= (u64::MAX
                as int) * (u64::MAX as int)) by (nonlinear_arith)
                requires
                    self.current_delay_ms <= u64::MAX,
                    self.multiplier_tenths <= u64::MAX,
            ;
        }
        let grown: u128 = (self.current_delay_ms as u128) * (self.multiplier_tenths as u128) / 10;
        self.current_delay_ms = if grown <= self.max_delay_ms as u128 {
            grown as u64
        } else {
            self.max_delay_ms
        };

        Some(delay)
    }

    /// Restore the initial state; called on every successful connect.
    pub fn reset(&mut self)
        ensures
            *final(self) == old(self).fresh(),
            final(self).current_attempt == 0,
            final(self).current_delay_ms == final(self).initial_delay_ms,
    {
        self.current_attempt = 0;
        self.current_delay_ms = self.initial_delay_ms;
    }

    /// Attempts made since the last reset.
    pub fn attempts(&self) -> (r: u32)
        ensures
            r == self.current_attempt,
    {
        self.current_attempt
    }
}

/// With a zero attempt cap the reconnect loop is never terminated by the
/// policy: no state it can reach refuses a delay.
pub proof fn lemma_unlimited_never_exhausted(s: ReconnectStrategy)
    requires
        s.max_attempts == 0,
    ensures
        !s.exhausted(),
        !s.stepped().exhausted(),
        !s.fresh().exhausted(),
{
}

/// Within an unbroken failure run the handed-out delays never shrink: with
/// a growth factor of at least one and the current delay within the cap —
/// as construction and every step leave it — one step keeps the delay at
/// least as large.
pub proof fn lemma_delays_non_decreasing(s: ReconnectStrategy)
    requires
        s.multiplier_tenths >= 10,
        s.current_delay_ms <= s.max_delay_ms,
    ensures
        s.stepped().current_delay_ms >= s.current_delay_ms,
        s.stepped().current_delay_ms <= s.max_delay_ms,
{
    assert((s.current_delay_ms * s.multiplier_tenths) / 10 >= s.current_delay_ms)
        by (nonlinear_arith)
        requires
            s.multiplier_tenths >= 10,
            s.current_delay_ms >= 0,
    ;
}

/// Within an unbroken failure run the attempt count is strictly monotone:
/// every delay handed out raises it by one.
pub proof fn lemma_attempts_strictly_monotone(s: ReconnectStrategy)
    requires
        !s.exhausted(),
        s.current_attempt < u32::MAX,
    ensures
        s.stepped().current_attempt == s.current_attempt + 1,
{
}

} // verus!
