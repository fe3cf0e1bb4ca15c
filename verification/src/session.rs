//! The session's control logic: the connection-loop state machine, the
//! connect URL, keepalive bookkeeping and the heartbeat-timeout decision.
//! Opening sockets, sending frames and sleeping are I/O and happen outside
//! the library; the loop out there asks this controller what to do next.

use vstd::prelude::*;

use crate::backoff::{ConnectionState, ReconnectStrategy};
use crate::config::{ControlPlaneConfig, RunnerConfig, WebSocketConfig};

verus! {

/// What the connection loop does next after a connection ended or failed
/// to open.
pub enum SessionStep {
    /// Sleep this many milliseconds, then connect again.
    RetryAfter(u64),
    /// The attempt cap is reached: give up.
    GiveUp,
    /// Shutdown was requested: leave the loop.
    Stop,
}

/// The control state of one logical session.
pub struct SessionController {
    /// Connection state, observable by any component.
    pub state: ConnectionState,
    /// Backoff policy for reconnect delays.
    pub strategy: ReconnectStrategy,
    /// Whether shutdown has been requested; monotone.
    pub shutdown_requested: bool,
    /// When the peer was last heard from, milliseconds since the epoch.
    pub last_pong_ms: i64,
}

impl SessionController {
    pub fn new(config: &WebSocketConfig, now_ms: i64) -> (r: Self)
        ensures
            r.state is Disconnected,
            r.strategy == r.strategy.fresh(),
            r.strategy.max_attempts == config.max_reconnect_attempts,
            r.strategy.initial_delay_ms == config.reconnect_initial_delay_ms,
            r.strategy.max_delay_ms == config.reconnect_max_delay_ms,
            r.strategy.multiplier_tenths == config.reconnect_multiplier_tenths,
            !r.shutdown_requested,
            r.last_pong_ms == now_ms,
    {
        SessionController {
            state: ConnectionState::Disconnected,
            strategy: ReconnectStrategy::new(config),
            shutdown_requested: false,
            last_pong_ms: now_ms,
        }
    }

    /// Move to a new connection state; true when the state changed, so that
    /// the caller fires its callbacks exactly once per change.
    pub fn set_state(&mut self, new_state: ConnectionState) -> (changed: bool)
        ensures
            final(self).state == new_state,
            changed == (old(self).state != new_state),
            final(self).strategy == old(self).strategy,
            final(self).shutdown_requested == old(self).shutdown_requested,
            final(self).last_pong_ms == old(self).last_pong_ms,
    {
        let changed = self.state != new_state;
        self.state = new_state;
        changed
    }

    /// A connection attempt begins.
    pub fn begin_connect(&mut self) -> (changed: bool)
        ensures
            final(self).state is Connecting,
            changed == !(old(self).state is Connecting),
            final(self).strategy == old(self).strategy,
            final(self).shutdown_requested == old(self).shutdown_requested,
            final(self).last_pong_ms == old(self).last_pong_ms,
    {
        self.set_state(ConnectionState::Connecting)
    }

    /// A connection attempt succeeded: the state becomes connected, the
    /// backoff policy is reset — exactly once per successful connect, here
    /// and nowhere else — and the peer counts as just heard from.
    pub fn on_connect_succeeded(&mut self, now_ms: i64) -> (changed: bool)
        ensures
            final(self).state is Connected,
            changed == !(old(self).state is Connected),
            final(self).strategy == old(self).strategy.fresh(),
            final(self).strategy.current_attempt == 0,
            final(self).shutdown_requested == old(self).shutdown_requested,
            final(self).last_pong_ms == now_ms,
    {
        let changed = self.set_state(ConnectionState::Connected);
        self.strategy.reset();
        self.last_pong_ms = now_ms;
        changed
    }

    /// A connection ended or failed to open: stop under shutdown, otherwise
    /// back off and retry, or give up when the attempt cap is reached. With
    /// an unlimited cap the loop never gives up.
    pub fn on_connection_ended(&mut self) -> (step: SessionStep)
        ensures
            old(self).shutdown_requested ==> step is Stop && final(self).state is Disconnected
                && final(self).strategy == old(self).strategy,
            !old(self).shutdown_requested && !old(self).strategy.exhausted() ==> (step
                == SessionStep::RetryAfter(old(self).strategy.current_delay_ms) && final(self).state
                is Reconnecting && final(self).strategy == old(self).strategy.stepped()),
            !old(self).shutdown_requested && old(self).strategy.exhausted() ==> step is GiveUp
                && final(self).state is Failed && final(self).strategy == old(self).strategy,
            old(self).strategy.max_attempts == 0 && !old(self).shutdown_requested ==> step
                is RetryAfter,
            final(self).shutdown_requested == old(self).shutdown_requested,
            final(self).last_pong_ms == old(self).last_pong_ms,
    {
        if self.shutdown_requested {
            self.set_state(ConnectionState::Disconnected);
            return SessionStep::Stop;
        }
        match self.strategy.next_delay() {
            Some(delay) => {
                self.set_state(ConnectionState::Reconnecting);
                SessionStep::RetryAfter(delay)
            },
            None => {
                self.set_state(ConnectionState::Failed);
                SessionStep::GiveUp
            },
        }
    }

    /// Request shutdown; the flag only ever rises.
    pub fn request_shutdown(&mut self)
        ensures
            final(self).shutdown_requested,
            final(self).state == old(self).state,
            final(self).strategy == old(self).strategy,
            final(self).last_pong_ms == old(self).last_pong_ms,
    {
        self.shutdown_requested = true;
    }

    /// The peer was heard from.
    pub fn record_pong(&mut self, now_ms: i64)
        ensures
            final(self).last_pong_ms == now_ms,
            final(self).state == old(self).state,
            final(self).strategy == old(self).strategy,
            final(self).shutdown_requested == old(self).shutdown_requested,
    {
        self.last_pong_ms = now_ms;
    }

    /// Whether the silence since the last pong exceeds the keepalive
    /// timeout: if so, the connection counts as dead and is reopened.
    pub fn heartbeat_timed_out(&self, now_ms: i64, heartbeat_timeout_secs: u64) -> (r: bool)
        ensures
            r == (now_ms - self.last_pong_ms > heartbeat_timeout_secs * 1000),
    {
        let elapsed: i128 = (now_ms as i128) - (self.last_pong_ms as i128);
        elapsed > (heartbeat_timeout_secs as i128) * 1000
    }
}

/// The URL the session connects to, carrying the runner identity and its
/// token.
pub fn connect_url(control_plane: &ControlPlaneConfig, runner: &RunnerConfig) -> (r: String)
    ensures
        r@ == control_plane.ws_url@ + "/ws/runner/"@ + runner.id@ + "/?token="@ + runner.token@,
{
    let mut s = control_plane.ws_url.clone();
    s.append("/ws/runner/");
    s.append(runner.id.as_str());
    s.append("/?token=");
    s.append(runner.token.as_str());
    s
}

/// The keepalive ping payload: the timestamp's eight bytes, most
/// significant first.
pub fn ping_payload(timestamp_ms: i64) -> (r: Vec<u8>)
    ensures
        r@.len() == 8,
        forall|k: int|
            0 <= k < 8 ==> (#[trigger] r@[k]) == ((timestamp_ms as u64) >> ((7 - k) * 8)) as u8,
{
    let x = timestamp_ms as u64;
    let mut r: Vec<u8> = Vec::new();
    r.push((x >> 56) as u8);
    r.push((x >> 48) as u8);
    r.push((x >> 40) as u8);
    r.push((x >> 32) as u8);
    r.push((x >> 24) as u8);
    r.push((x >> 16) as u8);
    r.push((x >> 8) as u8);
    r.push(x as u8);
    proof {
        assert forall|k: int| 0 <= k < 8 implies (#[trigger] r@[k]) == ((timestamp_ms as u64) >> ((7
            - k) * 8)) as u8 by {
            assert((7 - k) * 8 == 56 - 8 * k);
            if k == 7 {
                assert(x as u8 == (x >> 0) as u8) by (bit_vector);
            }
        }
    }
    r
}

} // verus!
