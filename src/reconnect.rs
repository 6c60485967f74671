use vstd::prelude::*;

verus! {

/// Backoff after a successful connection, in seconds.
pub const BACKOFF_FLOOR_SECS: u64 = 1;

/// Largest backoff, in seconds.
pub const BACKOFF_CEILING_SECS: u64 = 30;

/// Where the feed connection stands.
#[derive(Clone, Copy, Debug, PartialEq, Eq, Structural)]
pub enum FeedState {
    Disconnected,
    Connecting,
    Streaming,
    Reconnecting,
    Stopped,
}

/// What happened to the feed connection. A read timeout counts as a
/// transport error; a malformed frame is no event here at all.
#[derive(Clone, Copy, Debug, PartialEq, Eq, Structural)]
pub enum FeedEvent {
    Start,
    Connected,
    ConnectFailed,
    Frame,
    TransportError,
    PeerClosed,
    SleepElapsed,
    Shutdown,
}

/// What the driver of the connection does next.
#[derive(Clone, Copy, Debug, PartialEq, Eq, Structural)]
pub enum FeedAction {
    /// Open the feed connection.
    Connect,
    /// Wait for the next frame.
    Receive,
    /// Sleep this many seconds, then report `SleepElapsed`.
    Sleep(u64),
    /// Close the connection and stop.
    Close,
    /// Nothing: the event does not apply in this state.
    Idle,
}

/// Exponential backoff around the live feed connection.
#[derive(Clone, Copy, Debug, PartialEq, Eq, Structural)]
pub struct ReconnectPolicy {
    pub state: FeedState,
    pub backoff_secs: u64,
}

/// The backoff after one more failure: doubled, capped at the ceiling.
pub open spec fn next_backoff(b: int) -> int {
    if 2 * b > BACKOFF_CEILING_SECS {
        BACKOFF_CEILING_SECS as int
    } else {
        2 * b
    }
}

/// The transition taken on `e` from `p`.
pub open spec fn step_spec(p: ReconnectPolicy, e: FeedEvent) -> (ReconnectPolicy, FeedAction) {
    let same = (p, FeedAction::Idle);
    match (p.state, e) {
        (FeedState::Stopped, _) => same,
        (_, FeedEvent::Shutdown) => (ReconnectPolicy { state: FeedState::Stopped, ..p }, FeedAction::Close),
        (FeedState::Disconnected, FeedEvent::Start) => (
            ReconnectPolicy { state: FeedState::Connecting, ..p },
            FeedAction::Connect,
        ),
        (FeedState::Connecting, FeedEvent::Connected) => (
            ReconnectPolicy { state: FeedState::Streaming, backoff_secs: BACKOFF_FLOOR_SECS },
            FeedAction::Receive,
        ),
        (FeedState::Connecting, FeedEvent::ConnectFailed) => (
            ReconnectPolicy { state: FeedState::Reconnecting, ..p },
            FeedAction::Sleep(p.backoff_secs),
        ),
        (FeedState::Streaming, FeedEvent::Frame) => (p, FeedAction::Receive),
        (FeedState::Streaming, FeedEvent::TransportError) => (
            ReconnectPolicy { state: FeedState::Reconnecting, ..p },
            FeedAction::Sleep(p.backoff_secs),
        ),
        (FeedState::Streaming, FeedEvent::PeerClosed) => (
            ReconnectPolicy { state: FeedState::Reconnecting, ..p },
            FeedAction::Sleep(p.backoff_secs),
        ),
        (FeedState::Reconnecting, FeedEvent::SleepElapsed) => (
            ReconnectPolicy {
                state: FeedState::Connecting,
                backoff_secs: next_backoff(p.backoff_secs as int) as u64,
            },
            FeedAction::Connect,
        ),
        _ => same,
    }
}

impl ReconnectPolicy {
    /// The backoff stays between the floor and the ceiling.
    pub open spec fn wf(&self) -> bool {
        BACKOFF_FLOOR_SECS <= self.backoff_secs <= BACKOFF_CEILING_SECS
    }

    /// A policy not yet connected, with the backoff at its floor.
    pub fn new() -> (r: ReconnectPolicy)
        ensures
            r.wf(),
            r.state == FeedState::Disconnected,
            r.backoff_secs == BACKOFF_FLOOR_SECS,
    {
        ReconnectPolicy { state: FeedState::Disconnected, backoff_secs: BACKOFF_FLOOR_SECS }
    }

    /// Takes the transition for `event` and returns what to do next.
    pub fn step(&mut self, event: FeedEvent) -> (r: FeedAction)
        requires
            old(self).wf(),
        ensures
            final(self).wf(),
            (*final(self), r) == step_spec(*old(self), event),
    {
        let state = self.state;
        match (state, event) {
            (FeedState::Stopped, _) => FeedAction::Idle,
            (_, FeedEvent::Shutdown) => {
                self.state = FeedState::Stopped;
                FeedAction::Close
            },
            (FeedState::Disconnected, FeedEvent::Start) => {
                self.state = FeedState::Connecting;
                FeedAction::Connect
            },
            (FeedState::Connecting, FeedEvent::Connected) => {
                self.state = FeedState::Streaming;
                self.backoff_secs = BACKOFF_FLOOR_SECS;
                FeedAction::Receive
            },
            (FeedState::Connecting, FeedEvent::ConnectFailed) | (
                FeedState::Streaming,
                FeedEvent::TransportError,
            ) | (FeedState::Streaming, FeedEvent::PeerClosed) => {
                self.state = FeedState::Reconnecting;
                FeedAction::Sleep(self.backoff_secs)
            },
            (FeedState::Streaming, FeedEvent::Frame) => FeedAction::Receive,
            (FeedState::Reconnecting, FeedEvent::SleepElapsed) => {
                self.state = FeedState::Connecting;
                self.backoff_secs = if self.backoff_secs > BACKOFF_CEILING_SECS / 2 {
                    BACKOFF_CEILING_SECS
                } else {
                    2 * self.backoff_secs
                };
                FeedAction::Connect
            },
            _ => FeedAction::Idle,
        }
    }
}

} // verus!
