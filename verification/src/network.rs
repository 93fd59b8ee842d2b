//! Relay transport decisions. The sockets themselves live outside the
//! library; what is verified here is the reconnect state machine each
//! relay task follows, and the extraction of the proxy tunnel target
//! from a relay address.

use vstd::prelude::*;

use crate::strkit;

verus! {

/// Which carrier a relay connection uses.
pub enum Network {
    /// A direct socket.
    Clearnet,
    /// A socket tunneled through a local proxy.
    Tor,
}

/// Where a relay task stands in its connection lifecycle.
#[derive(Clone, Copy, PartialEq, Eq, Structural, Debug)]
pub enum RelayPhase {
    /// Resolving and opening the socket.
    Connecting,
    /// A live connection; frames are read from it.
    Connected,
    /// The connection ended; waiting before the next attempt.
    Backoff,
}

/// What the surrounding task observed.
pub enum RelayEvent {
    ConnectSucceeded,
    ConnectFailed,
    FrameReceived(String),
    StreamEnded,
    BackoffElapsed,
}

/// What the surrounding task must do next.
pub enum RelayAction {
    /// Open the socket and report the outcome.
    AttemptConnect,
    /// Hand the frame to the dispatcher.
    ProcessFrame(String),
    /// Sleep this many seconds, then report `BackoffElapsed`.
    Sleep(u64),
    /// Read the next frame.
    WaitFrame,
}

/// The fixed delay before a reconnect attempt.
pub const RECONNECT_DELAY_SECS: u64 = 30;

/// One step of a relay task's lifecycle. The machine loops forever:
/// `Connecting -> Connected -> (on stream end) Backoff -> Connecting`;
/// there is no terminal failure state. Events that cannot occur in the
/// current phase leave it unchanged.
pub fn relay_step(phase: RelayPhase, event: RelayEvent) -> (r: (RelayPhase, RelayAction))
    ensures
        phase == RelayPhase::Connecting && event is ConnectSucceeded
            ==> r.0 == RelayPhase::Connected && r.1 is WaitFrame,
        phase == RelayPhase::Connecting && event is ConnectFailed
            ==> r.0 == RelayPhase::Backoff && r.1 is Sleep
                && r.1->Sleep_0 == RECONNECT_DELAY_SECS,
        phase == RelayPhase::Connected && event is FrameReceived
            ==> r.0 == RelayPhase::Connected && r.1 is ProcessFrame
                && r.1->ProcessFrame_0@ == event->FrameReceived_0@,
        phase == RelayPhase::Connected && event is StreamEnded
            ==> r.0 == RelayPhase::Backoff && r.1 is Sleep
                && r.1->Sleep_0 == RECONNECT_DELAY_SECS,
        phase == RelayPhase::Backoff && event is BackoffElapsed
            ==> r.0 == RelayPhase::Connecting && r.1 is AttemptConnect,
        !(phase == RelayPhase::Connecting && (event is ConnectSucceeded
            || event is ConnectFailed))
            && !(phase == RelayPhase::Connected && (event is FrameReceived
                || event is StreamEnded))
            && !(phase == RelayPhase::Backoff && event is BackoffElapsed)
            ==> r.0 == phase && r.1 is WaitFrame,
{
    match (phase, event) {
        (RelayPhase::Connecting, RelayEvent::ConnectSucceeded) => {
            (RelayPhase::Connected, RelayAction::WaitFrame)
        },
        (RelayPhase::Connecting, RelayEvent::ConnectFailed) => {
            (RelayPhase::Backoff, RelayAction::Sleep(RECONNECT_DELAY_SECS))
        },
        (RelayPhase::Connected, RelayEvent::FrameReceived(frame)) => {
            (RelayPhase::Connected, RelayAction::ProcessFrame(frame))
        },
        (RelayPhase::Connected, RelayEvent::StreamEnded) => {
            (RelayPhase::Backoff, RelayAction::Sleep(RECONNECT_DELAY_SECS))
        },
        (RelayPhase::Backoff, RelayEvent::BackoffElapsed) => {
            (RelayPhase::Connecting, RelayAction::AttemptConnect)
        },
        (p, _) => (p, RelayAction::WaitFrame),
    }
}

/// The tunnel target inside a relay address: the third `/`-separated
/// piece (the authority of a `scheme://host/...` address); `None` when
/// the address has no such piece.
pub fn proxy_target(relay_addr: &str) -> (r: Option<String>)
    ensures
        strkit::spec_split(relay_addr@, '/').len() >= 3 ==> r.is_some()
            && r.unwrap()@ == strkit::spec_split(relay_addr@, '/')[2],
        strkit::spec_split(relay_addr@, '/').len() < 3 ==> r.is_none(),
{
    let pieces = strkit::split_char(relay_addr, '/');
    proof {
        assert(pieces.deep_view() == strkit::spec_split(relay_addr@, '/'));
        assert(pieces.deep_view().len() == pieces@.len());
    }
    if pieces.len() >= 3 {
        proof {
            assert(pieces.deep_view()[2] == pieces@[2]@);
        }
        Some(pieces[2].clone())
    } else {
        None
    }
}

} // verus!
