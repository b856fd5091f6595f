use web_server::ws_session::{HeartbeatAction, WsMessage, WsReply, WsSession, WsStart, UNAUTHORIZED_CLOSE_CODE};

#[test]
fn unauthorized_clients_are_closed_with_4001() {
    match WsSession::new(0, false).started() {
        WsStart::Close { code, reason } => {
            assert_eq!(code, UNAUTHORIZED_CLOSE_CODE);
            assert_eq!(code, 4001);
            assert_eq!(reason, "Unauthorized");
        }
        other => panic!("expected a close, got {other:?}"),
    }
    assert!(matches!(WsSession::new(0, true).started(), WsStart::Heartbeat));
}

#[test]
fn pings_are_answered_and_frames_echoed() {
    let mut s = WsSession::new(0, true);
    assert!(matches!(s.handle(WsMessage::Ping(vec![1, 2]), 5_000), WsReply::Pong(p) if p == vec![1, 2]));
    assert_eq!(s.last_heard_ms, 5_000);
    assert!(matches!(s.handle(WsMessage::Text("hi".into()), 9_000), WsReply::Text(t) if t == "hi"));
    assert_eq!(s.last_heard_ms, 5_000);
    assert!(matches!(s.handle(WsMessage::Binary(vec![9]), 9_000), WsReply::Binary(b) if b == vec![9]));
    assert!(matches!(s.handle(WsMessage::Pong, 12_000), WsReply::Nothing));
    assert_eq!(s.last_heard_ms, 12_000);
    assert!(matches!(s.handle(WsMessage::Other, 13_000), WsReply::Nothing));
}

#[test]
fn silent_clients_are_dropped_after_seventy_seconds() {
    let s = WsSession::new(1_000, true);
    assert_eq!(s.heartbeat(61_000), HeartbeatAction::Ping);
    assert_eq!(s.heartbeat(71_000), HeartbeatAction::Ping);
    assert_eq!(s.heartbeat(71_001), HeartbeatAction::Stop);
    assert_eq!(s.heartbeat(0), HeartbeatAction::Ping);
}
