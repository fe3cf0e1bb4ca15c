use runners::backoff::{ConnectionState, ReconnectStrategy};
use runners::config::WebSocketConfig;
use runners::session::{SessionController, SessionStep};

fn ws_config(max_attempts: u32, max_delay_ms: u64) -> WebSocketConfig {
    WebSocketConfig {
        reconnect_initial_delay_ms: 1000,
        reconnect_max_delay_ms: max_delay_ms,
        reconnect_multiplier_tenths: 20,
        max_reconnect_attempts: max_attempts,
        heartbeat_interval_secs: 30,
        heartbeat_timeout_secs: 10,
        enable_heartbeat: true,
    }
}

#[test]
fn test_reconnect_strategy() {
    let config = ws_config(5, 60000);

    let mut strategy = ReconnectStrategy::new(&config);

    // First delay should be 1000ms
    assert_eq!(strategy.next_delay(), Some(1000));
    assert_eq!(strategy.attempts(), 1);

    // Second delay should be 2000ms
    assert_eq!(strategy.next_delay(), Some(2000));
    assert_eq!(strategy.attempts(), 2);

    // Third delay should be 4000ms
    assert_eq!(strategy.next_delay(), Some(4000));

    // Fourth delay should be 8000ms
    assert_eq!(strategy.next_delay(), Some(8000));

    // Fifth delay should be 16000ms
    assert_eq!(strategy.next_delay(), Some(16000));

    // Sixth should be None (max attempts reached)
    assert_eq!(strategy.next_delay(), None);

    // Reset and verify
    strategy.reset();
    assert_eq!(strategy.attempts(), 0);
    assert_eq!(strategy.next_delay(), Some(1000));
}

#[test]
fn test_reconnect_strategy_unlimited() {
    let config = ws_config(0, 4000);

    let mut strategy = ReconnectStrategy::new(&config);

    // Should not hit max
    for _ in 0..10 {
        assert!(strategy.next_delay().is_some());
    }

    // Should cap at max delay
    let delay = strategy.next_delay().unwrap();
    assert_eq!(delay, 4000);
}

#[test]
fn test_zero_cap_never_terminates_reconnect_loop() {
    let config = ws_config(0, 60000);
    let mut controller = SessionController::new(&config, 0);
    for _ in 0..100 {
        controller.begin_connect();
        match controller.on_connection_ended() {
            SessionStep::RetryAfter(_) => {}
            _ => panic!("the loop must never give up with an unlimited cap"),
        }
    }
}

#[test]
fn test_reset_once_per_successful_connect() {
    let config = ws_config(5, 60000);
    let mut controller = SessionController::new(&config, 0);

    // One failed attempt raises the counter.
    controller.begin_connect();
    match controller.on_connection_ended() {
        SessionStep::RetryAfter(delay) => assert_eq!(delay, 1000),
        _ => panic!("expected a retry"),
    }
    assert_eq!(controller.strategy.attempts(), 1);
    assert_eq!(controller.state, ConnectionState::Reconnecting);

    // The successful connect resets the policy.
    controller.begin_connect();
    let changed = controller.on_connect_succeeded(42);
    assert!(changed);
    assert_eq!(controller.state, ConnectionState::Connected);
    assert_eq!(controller.strategy.attempts(), 0);
}

#[test]
fn test_heartbeat_timeout_decision() {
    let config = ws_config(0, 60000);
    let mut controller = SessionController::new(&config, 0);
    controller.record_pong(1_000);
    assert!(!controller.heartbeat_timed_out(10_999, 10));
    assert!(controller.heartbeat_timed_out(11_001, 10));
}

#[test]
fn test_connection_state_names() {
    assert_eq!(ConnectionState::Disconnected.to_string(), "disconnected");
    assert_eq!(ConnectionState::Connecting.to_string(), "connecting");
    assert_eq!(ConnectionState::Connected.to_string(), "connected");
    assert_eq!(ConnectionState::Reconnecting.to_string(), "reconnecting");
    assert_eq!(ConnectionState::Failed.to_string(), "failed");
}
