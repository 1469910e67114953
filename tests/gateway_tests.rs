use tunnel_hub::agent::{agent_frame_action, FrameAction};
use tunnel_hub::gateway::{parse_connection_id, relay_message, GatewayError, Hub};
use tunnel_hub::protocol::Frame;
use tunnel_hub::text::{parse_decimal, render_decimal};

#[test]
fn proxy_round_trip_through_agent() {
    let mut hub = Hub::new();
    let mut agent = 0;
    for _ in 0..7 {
        agent = hub.registry.register(None);
    }
    assert_eq!(agent, 7);
    let id = hub.proxy_request("7", 100).ok().unwrap();
    assert!(hub.correlator.contains(&id));
    let frames = hub.registry.take_outbox(7);
    assert_eq!(frames.len(), 1);
    assert_eq!(frames[0], format!("{{\"request_id\":\"{}\"}}", id));
    let c1 = match agent_frame_action(&Frame::Text(frames[0].clone())) {
        FrameAction::Answer(c) => c,
        _ => panic!("not a command"),
    };
    assert_eq!(c1, id);
    assert!(hub.agent_callback(&c1, b"{\"cpu\":12.5}".to_vec()).is_ok());
    match hub.proxy_outcome(&id) {
        Ok(body) => assert_eq!(body, b"{\"cpu\":12.5}".to_vec()),
        Err(_) => panic!("no answer"),
    }
    assert!(!hub.correlator.contains(&c1));
    assert_eq!(hub.correlator.len(), 0);
}

#[test]
fn proxy_to_unregistered_is_not_found() {
    let mut hub = Hub::new();
    hub.registry.register(None);
    match hub.proxy_request("99", 0) {
        Err(e) => {
            assert!(matches!(e, GatewayError::TargetNotFound));
            assert_eq!(e.status(), 404);
            assert_eq!(e.reason(), "NOT_FOUND");
        }
        Ok(_) => panic!("unexpected success"),
    }
    assert_eq!(hub.correlator.len(), 0);
    assert!(hub.registry.take_outbox(1).is_empty());
}

#[test]
fn malformed_target_is_bad_request() {
    let mut hub = Hub::new();
    for target in ["abc", "", "-1", "7x", "18446744073709551616"] {
        match hub.proxy_request(target, 0) {
            Err(e) => {
                assert!(matches!(e, GatewayError::InvalidIdentifier(_)));
                assert_eq!(e.status(), 400);
                assert_eq!(e.reason(), "Invalid ID Format");
            }
            Ok(_) => panic!("accepted {target}"),
        }
    }
}

#[test]
fn connection_ids_parse_as_decimal() {
    assert_eq!(parse_connection_id("7").ok(), Some(7));
    assert_eq!(parse_connection_id("+12").ok(), Some(12));
    assert_eq!(parse_connection_id("0042").ok(), Some(42));
    assert_eq!(
        parse_connection_id("18446744073709551615").ok(),
        Some(u64::MAX)
    );
    assert!(parse_connection_id("+").is_err());
    assert!(parse_connection_id(" 1").is_err());
    assert_eq!(parse_decimal("65535", 65535), Some(65535));
    assert_eq!(parse_decimal("65536", 65535), None);
}

#[test]
fn decimal_rendering() {
    assert_eq!(render_decimal(0), "0");
    assert_eq!(render_decimal(7), "7");
    assert_eq!(render_decimal(1024), "1024");
    assert_eq!(render_decimal(u64::MAX), "18446744073709551615");
}

#[test]
fn malformed_answer_is_refused() {
    let mut hub = Hub::new();
    hub.registry.register(None);
    let id = hub.proxy_request("1", 0).ok().unwrap();
    match hub.agent_callback(&id, b"{not json".to_vec()) {
        Err(e) => {
            assert!(matches!(e, GatewayError::MalformedAnswer));
            assert_eq!(e.status(), 400);
        }
        Ok(_) => panic!("accepted malformed body"),
    }
    assert!(hub.agent_callback(&id, vec![0xff, 0xfe]).is_err());
    assert!(hub.agent_callback(&id, b"[1, 2]".to_vec()).is_ok());
}

#[test]
fn callback_for_unknown_id_is_request_id_not_found() {
    let mut hub = Hub::new();
    match hub.agent_callback("missing", b"{}".to_vec()) {
        Err(e) => {
            assert!(matches!(e, GatewayError::RequestIdNotFound(_)));
            assert_eq!(e.status(), 400);
            assert_eq!(e.reason(), "The supplied request_id was not found.");
        }
        Ok(_) => panic!("accepted unknown id"),
    }
}

#[test]
fn wait_without_answer_is_upstream_timeout() {
    let mut hub = Hub::new();
    hub.registry.register(None);
    let id = hub.proxy_request("1", 0).ok().unwrap();
    match hub.proxy_outcome(&id) {
        Err(e) => {
            assert!(matches!(e, GatewayError::UpstreamTimeout));
            assert_eq!(e.status(), 504);
            assert_eq!(e.reason(), "UPSTREAM_TIMEOUT");
        }
        Ok(_) => panic!("answer out of nowhere"),
    }
    assert_eq!(hub.correlator.len(), 0);
    assert!(hub.agent_callback(&id, b"{}".to_vec()).is_err());
    assert_eq!(GatewayError::Internal.status(), 500);
    assert_eq!(GatewayError::Internal.reason(), "UNHANDLED_REJECTION");
    assert_eq!(GatewayError::MalformedAnswer.reason(), "MALFORMED_ANSWER");
}

#[test]
fn text_frames_are_relayed_to_others() {
    let mut hub = Hub::new();
    let a = hub.registry.register(None);
    let b = hub.registry.register(None);
    assert!(hub.on_frame(a, &Frame::Text("hello".to_string())));
    assert_eq!(hub.registry.take_outbox(b), vec!["<User#1>: hello".to_string()]);
    assert!(hub.registry.take_outbox(a).is_empty());
    assert!(hub.on_frame(a, &Frame::Ping(vec![1])));
    assert!(hub.on_frame(a, &Frame::Binary(vec![1, 2])));
    assert!(hub.registry.take_outbox(b).is_empty());
    assert!(!hub.on_frame(a, &Frame::Close));
    assert!(!hub.registry.contains(a));
    hub.disconnect(a);
    hub.disconnect(b);
    assert!(hub.registry.list().is_empty());
}

#[test]
fn relay_text_names_the_sender() {
    assert_eq!(relay_message(12, "hi there"), "<User#12>: hi there");
    assert_eq!(relay_message(0, ""), "<User#0>: ");
}
