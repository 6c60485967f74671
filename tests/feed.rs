use orderbook::reconnect::{FeedAction, FeedEvent, FeedState, ReconnectPolicy};

#[test]
fn backoff_doubles_to_ceiling_and_resets() {
    let mut p = ReconnectPolicy::new();
    assert_eq!(p.state, FeedState::Disconnected);
    assert_eq!(p.step(FeedEvent::Start), FeedAction::Connect);
    let mut sleeps = Vec::new();
    for _ in 0..7 {
        match p.step(FeedEvent::ConnectFailed) {
            FeedAction::Sleep(s) => sleeps.push(s),
            other => panic!("unexpected {:?}", other),
        }
        assert_eq!(p.state, FeedState::Reconnecting);
        assert_eq!(p.step(FeedEvent::SleepElapsed), FeedAction::Connect);
        assert_eq!(p.state, FeedState::Connecting);
    }
    assert_eq!(sleeps, vec![1, 2, 4, 8, 16, 30, 30]);
    assert_eq!(p.step(FeedEvent::Connected), FeedAction::Receive);
    assert_eq!(p.backoff_secs, 1);
    assert_eq!(p.step(FeedEvent::Frame), FeedAction::Receive);
}

#[test]
fn close_frame_is_a_transport_error() {
    let mut p = ReconnectPolicy::new();
    p.step(FeedEvent::Start);
    p.step(FeedEvent::Connected);
    assert_eq!(p.step(FeedEvent::PeerClosed), FeedAction::Sleep(1));
    assert_eq!(p.state, FeedState::Reconnecting);
    p.step(FeedEvent::SleepElapsed);
    p.step(FeedEvent::Connected);
    assert_eq!(p.step(FeedEvent::TransportError), FeedAction::Sleep(1));
}

#[test]
fn shutdown_is_terminal() {
    let mut p = ReconnectPolicy::new();
    p.step(FeedEvent::Start);
    assert_eq!(p.step(FeedEvent::Shutdown), FeedAction::Close);
    assert_eq!(p.state, FeedState::Stopped);
    assert_eq!(p.step(FeedEvent::Start), FeedAction::Idle);
    assert_eq!(p.state, FeedState::Stopped);
}

#[test]
fn events_out_of_place_are_ignored() {
    let mut p = ReconnectPolicy::new();
    assert_eq!(p.step(FeedEvent::Frame), FeedAction::Idle);
    assert_eq!(p.step(FeedEvent::SleepElapsed), FeedAction::Idle);
    assert_eq!(p.state, FeedState::Disconnected);
}
