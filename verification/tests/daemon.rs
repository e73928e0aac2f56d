use turbo_engine::daemon::{close_reason_for, hello_accepted, CloseReason, IdleTimeout, ServeEvent};

#[test]
fn close_reasons_map_events() {
    assert_eq!(close_reason_for(ServeEvent::TimeoutElapsed), CloseReason::Timeout);
    assert_eq!(close_reason_for(ServeEvent::ShutdownRequested), CloseReason::Shutdown);
    assert_eq!(close_reason_for(ServeEvent::WatcherEnded), CloseReason::WatcherClosed);
    assert_eq!(close_reason_for(ServeEvent::ServerEnded), CloseReason::ServerClosed);
    assert_eq!(close_reason_for(ServeEvent::Interrupted), CloseReason::Interrupt);
}

#[test]
fn idle_timeout_bumps() {
    let mut t = IdleTimeout::new(1_000, 60_000);
    assert!(!t.is_expired(60_999));
    assert!(t.is_expired(61_000));
    t.bump(61_000);
    assert!(!t.is_expired(61_001));
    assert!(t.is_expired(121_000));
    // the deadline saturates rather than wrapping
    let far = IdleTimeout::new(u64::MAX - 5, 60_000);
    assert!(!far.is_expired(u64::MAX - 1));
    assert!(far.is_expired(u64::MAX));
}

#[test]
fn hello_requires_equal_versions() {
    assert!(hello_accepted("1.2.3", "1.2.3"));
    assert!(!hello_accepted("1.2.3", "1.2.4"));
    assert!(!hello_accepted("1.2", "1.2.3"));
    assert!(hello_accepted("", ""));
}
