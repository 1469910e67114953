use tunnel_hub::agent::{
    agent_frame_action, callback_url, AgentAction, AgentEvent, AgentLoop, Backoff, FrameAction,
    Phase,
};
use tunnel_hub::protocol::{decode_command, encode_command, Frame};

fn sleep_of(a: AgentAction) -> u64 {
    match a {
        AgentAction::Sleep(d) => d,
        _ => panic!("expected a sleep"),
    }
}

#[test]
fn three_failures_then_success_resets_backoff() {
    let mut lp = AgentLoop::new(Backoff { base_ms: 1000, ceiling_ms: 3000, jitter_eighths: 0 });
    let mut delays = Vec::new();
    for _ in 0..3 {
        delays.push(sleep_of(lp.step(AgentEvent::ConnectFailed)));
        assert!(lp.step(AgentEvent::BackoffElapsed) == AgentAction::Connect);
    }
    assert_eq!(delays, vec![1000, 2000, 3000]);
    assert!(delays.windows(2).all(|w| w[0] <= w[1]));
    assert!(lp.step(AgentEvent::ConnectSucceeded) == AgentAction::Serve);
    assert_eq!(lp.retries, 0);
    assert!(lp.phase == Phase::Connected);
    assert_eq!(sleep_of(lp.step(AgentEvent::ConnectionClosed)), 1000);
}

#[test]
fn backoff_doubles_and_caps() {
    let p = Backoff { base_ms: 1000, ceiling_ms: 60000, jitter_eighths: 0 };
    assert_eq!(p.delay(1), 1000);
    assert_eq!(p.delay(2), 2000);
    assert_eq!(p.delay(4), 8000);
    assert_eq!(p.delay(6), 32000);
    assert_eq!(p.delay(7), 60000);
    assert_eq!(p.delay(u32::MAX), 60000);
    let low = Backoff { base_ms: 5000, ceiling_ms: 2000, jitter_eighths: 0 };
    assert_eq!(low.delay(1), 2000);
}

#[test]
fn spread_stretches_waits_within_ceiling() {
    let p = Backoff { base_ms: 1000, ceiling_ms: 60000, jitter_eighths: 4 };
    assert_eq!(p.delay(1), 1500);
    assert_eq!(p.delay(2), 3000);
    assert_eq!(p.delay(5), 24000);
    assert_eq!(p.delay(6), 48000);
    assert_eq!(p.delay(7), 60000);
    let mut prev = 0;
    for n in 1..40 {
        let d = p.delay(n);
        assert!(prev <= d && d <= 60000);
        prev = d;
    }
    let mut lp = AgentLoop::new(p);
    assert_eq!(sleep_of(lp.step(AgentEvent::ConnectFailed)), 1500);
    assert!(lp.step(AgentEvent::BackoffElapsed) == AgentAction::Connect);
    assert_eq!(sleep_of(lp.step(AgentEvent::ConnectFailed)), 3000);
    assert!(lp.step(AgentEvent::BackoffElapsed) == AgentAction::Connect);
    assert!(lp.step(AgentEvent::ConnectSucceeded) == AgentAction::Serve);
    assert_eq!(sleep_of(lp.step(AgentEvent::ConnectionClosed)), 1500);
}

#[test]
fn stop_ends_the_loop_from_any_phase() {
    let mut lp = AgentLoop::new(Backoff { base_ms: 1, ceiling_ms: 8, jitter_eighths: 0 });
    sleep_of(lp.step(AgentEvent::ConnectFailed));
    assert!(lp.step(AgentEvent::StopRequested) == AgentAction::Exit);
    assert!(lp.phase == Phase::Stopped);
    assert!(lp.step(AgentEvent::BackoffElapsed) == AgentAction::Exit);
    let mut other = AgentLoop::new(Backoff { base_ms: 1, ceiling_ms: 8, jitter_eighths: 0 });
    assert!(other.step(AgentEvent::BackoffElapsed) == AgentAction::Continue);
    assert!(other.phase == Phase::Connecting);
}

#[test]
fn command_frames_round_trip() {
    let frame = encode_command("0f8e-12ab");
    assert_eq!(frame, "{\"request_id\":\"0f8e-12ab\"}");
    assert_eq!(decode_command(&frame), Some("0f8e-12ab".to_string()));
    assert_eq!(decode_command("{\"request_id\":\"\"}"), None);
    assert_eq!(decode_command("{\"request_id\":\"a b\"}"), None);
    assert_eq!(decode_command("{\"request_id\": \"ab\"}"), None);
    assert_eq!(decode_command("hello"), None);
}

#[test]
fn agent_frame_handling() {
    match agent_frame_action(&Frame::Text("{\"request_id\":\"abc\"}".to_string())) {
        FrameAction::Answer(id) => assert_eq!(id, "abc"),
        _ => panic!("command not recognised"),
    }
    assert!(matches!(
        agent_frame_action(&Frame::Text("Hello, WebSocket Server!".to_string())),
        FrameAction::Malformed
    ));
    assert!(matches!(agent_frame_action(&Frame::Close), FrameAction::Disconnect));
    assert!(matches!(agent_frame_action(&Frame::Pong(vec![])), FrameAction::Ignore));
    assert!(matches!(agent_frame_action(&Frame::Binary(vec![7])), FrameAction::Ignore));
}

#[test]
fn callback_url_appends_id() {
    assert_eq!(
        callback_url("http://127.0.0.1:8890/api/proxy/response", "c1"),
        "http://127.0.0.1:8890/api/proxy/response/c1"
    );
}
