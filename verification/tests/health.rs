use tostr::bot::{
    debounce_step, initial_health, notification_event, ConnectionMessage, ConnectionStatus,
    Notification, DISCARD_PERIOD_SECS,
};

#[test]
fn debounce_scenario() {
    // Start "now" at one discard period, so the initial state is dated 0
    // and the three failure signals arrive at offsets 0, 1800 and 3700.
    let mut health = initial_health(DISCARD_PERIOD_SECS);
    assert_eq!(health.status, ConnectionStatus::Success);
    assert_eq!(health.timestamp, 0);
    let base = DISCARD_PERIOD_SECS;

    let (next, note) = debounce_step(
        &health,
        ConnectionMessage { status: ConnectionStatus::Failed, timestamp: base },
    );
    assert_eq!(note, Some(Notification::CantConnect));
    health = next;

    let (next, note) = debounce_step(
        &health,
        ConnectionMessage { status: ConnectionStatus::Failed, timestamp: base + 1800 },
    );
    assert_eq!(note, None);
    assert_eq!(next.timestamp, base);
    health = next;

    let (next, note) = debounce_step(
        &health,
        ConnectionMessage { status: ConnectionStatus::Failed, timestamp: base + 3700 },
    );
    assert_eq!(note, Some(Notification::StillCantConnect));
    assert_eq!(next.timestamp, base + 3700);
}

#[test]
fn recovery_always_notifies() {
    let health = ConnectionMessage { status: ConnectionStatus::Failed, timestamp: 1000 };
    let (next, note) = debounce_step(
        &health,
        ConnectionMessage { status: ConnectionStatus::Success, timestamp: 1001 },
    );
    assert_eq!(note, Some(Notification::Reestablished));
    assert_eq!(next.status, ConnectionStatus::Success);
}

#[test]
fn repeated_success_never_renotifies() {
    let health = ConnectionMessage { status: ConnectionStatus::Success, timestamp: 0 };
    let (next, note) = debounce_step(
        &health,
        ConnectionMessage {
            status: ConnectionStatus::Success,
            timestamp: DISCARD_PERIOD_SECS + 5,
        },
    );
    // Accepted (the window passed) but silent.
    assert_eq!(note, None);
    assert_eq!(next.timestamp, DISCARD_PERIOD_SECS + 5);
}

#[test]
fn elapsed_exactly_one_period_is_accepted() {
    let health = ConnectionMessage { status: ConnectionStatus::Failed, timestamp: 100 };
    let (next, note) = debounce_step(
        &health,
        ConnectionMessage {
            status: ConnectionStatus::Failed,
            timestamp: 100 + DISCARD_PERIOD_SECS,
        },
    );
    assert_eq!(note, Some(Notification::StillCantConnect));
    assert_eq!(next.timestamp, 100 + DISCARD_PERIOD_SECS);
}

#[test]
fn notification_texts() {
    let d = notification_event(Notification::CantConnect, 5);
    assert_eq!(d.kind, 1);
    assert_eq!(d.created_at, 5);
    assert!(d.tags.is_empty());
    assert_eq!(d.content, "I can't connect to Twitter right now :(.");
    assert_eq!(
        notification_event(Notification::Reestablished, 5).content,
        "Connection to Twitter reestablished! :)"
    );
    assert_eq!(
        notification_event(Notification::StillCantConnect, 5).content,
        "I'm still unable to connect to Twitter :("
    );
}
