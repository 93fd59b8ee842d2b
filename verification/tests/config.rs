use tostr::network::{self, Network, RelayAction, RelayEvent, RelayPhase};
use tostr::utils;

#[test]
fn parse_config_reads_all_fields() {
    let text = "secret=abc\nhello_message=\"hi there\"\nrefresh_interval_secs=60\nrelay=wss://r.example\nmax_follows=10\n";
    let c = utils::parse_config(text).unwrap();
    assert_eq!(c.secret, "abc");
    assert_eq!(c.hello_message, "hi there");
    assert_eq!(c.refresh_interval_secs, 60);
    assert_eq!(c.relay, "wss://r.example");
    assert_eq!(c.max_follows, 10);
}

#[test]
fn parse_config_last_assignment_wins() {
    let text = "secret=a\nhello_message=h\nrefresh_interval_secs=1\nrelay=r1\nrelay=r2\nmax_follows=1\n";
    let c = utils::parse_config(text).unwrap();
    assert_eq!(c.relay, "r2");
}

#[test]
fn parse_config_ignores_comments_and_unknown_lines() {
    let text = "# a comment\nsomething else\nsecret=a\nhello_message=h\nrefresh_interval_secs=1\nrelay=r\nmax_follows=2\n";
    let c = utils::parse_config(text).unwrap();
    assert_eq!(c.max_follows, 2);
}

#[test]
fn parse_config_errors() {
    // Missing relay.
    assert!(utils::parse_config("secret=a\nhello_message=h\nrefresh_interval_secs=1\nmax_follows=1\n").is_err());
    // Bad number.
    assert!(utils::parse_config("secret=a\nhello_message=h\nrefresh_interval_secs=soon\nrelay=r\nmax_follows=1\n").is_err());
    // Zero refresh interval.
    assert!(utils::parse_config("secret=a\nhello_message=h\nrefresh_interval_secs=0\nrelay=r\nmax_follows=1\n").is_err());
    // Empty secret.
    assert!(utils::parse_config("secret=\nhello_message=h\nrefresh_interval_secs=1\nrelay=r\nmax_follows=1\n").is_err());
    // Nothing at all.
    assert!(utils::parse_config("").is_err());
}

#[test]
fn parse_u64_bounds() {
    assert_eq!(tostr::strkit::parse_u64("0"), Some(0));
    assert_eq!(tostr::strkit::parse_u64("18446744073709551615"), Some(u64::MAX));
    assert_eq!(tostr::strkit::parse_u64("18446744073709551616"), None);
    assert_eq!(tostr::strkit::parse_u64(""), None);
    assert_eq!(tostr::strkit::parse_u64("12a"), None);
}

#[test]
fn proxy_target_extraction() {
    assert_eq!(
        network::proxy_target("ws://host.onion:80/some/path").unwrap(),
        "host.onion:80"
    );
    assert_eq!(network::proxy_target("ws://relay.example").unwrap(), "relay.example");
    assert!(network::proxy_target("no-slashes").is_none());
}

#[test]
fn relay_state_machine_transitions() {
    let (p, a) = network::relay_step(RelayPhase::Connecting, RelayEvent::ConnectSucceeded);
    assert_eq!(p, RelayPhase::Connected);
    assert!(matches!(a, RelayAction::WaitFrame));

    let (p, a) = network::relay_step(RelayPhase::Connecting, RelayEvent::ConnectFailed);
    assert_eq!(p, RelayPhase::Backoff);
    assert!(matches!(a, RelayAction::Sleep(s) if s == network::RECONNECT_DELAY_SECS));

    let (p, a) = network::relay_step(
        RelayPhase::Connected,
        RelayEvent::FrameReceived("frame".to_string()),
    );
    assert_eq!(p, RelayPhase::Connected);
    assert!(matches!(a, RelayAction::ProcessFrame(f) if f == "frame"));

    let (p, a) = network::relay_step(RelayPhase::Connected, RelayEvent::StreamEnded);
    assert_eq!(p, RelayPhase::Backoff);
    assert!(matches!(a, RelayAction::Sleep(_)));

    let (p, a) = network::relay_step(RelayPhase::Backoff, RelayEvent::BackoffElapsed);
    assert_eq!(p, RelayPhase::Connecting);
    assert!(matches!(a, RelayAction::AttemptConnect));

    // An event that cannot occur in the phase leaves it unchanged.
    let (p, a) = network::relay_step(RelayPhase::Backoff, RelayEvent::ConnectFailed);
    assert_eq!(p, RelayPhase::Backoff);
    assert!(matches!(a, RelayAction::WaitFrame));

    // The carrier kinds exist for configuration.
    let _ = Network::Clearnet;
    let _ = Network::Tor;
}
