use socketio_middleware::socketio_message::InternalMessage;
use socketio_middleware::socketio_message::WSSocketMessage;
use socketio_middleware::socketio_upgrade::connect_frame;
use socketio_middleware::socketio_upgrade::get_param;
use socketio_middleware::socketio_upgrade::handshake_open_frame;
use socketio_middleware::socketio_upgrade::parse_query;
use socketio_middleware::socketio_upgrade::read_loop_step;
use socketio_middleware::socketio_upgrade::select_version;
use socketio_middleware::socketio_upgrade::split_on;
use socketio_middleware::socketio_upgrade::upgrade_response;
use socketio_middleware::socketio_upgrade::websocket_accept_key;
use socketio_middleware::socketio_upgrade::AllowedVersions;
use socketio_middleware::socketio_upgrade::UpgradeDecision;
use socketio_middleware::socketio_upgrade::WsFrame;

#[test]
fn accept_key_matches_the_rfc_sample() {
    assert_eq!(
        websocket_accept_key("dGhlIHNhbXBsZSBub25jZQ=="),
        "s3pPLMBiTxaQ9kYGzzhZRbK+xOo="
    );
}

#[test]
fn handshake_v3_sends_101_then_open_then_bare_connect() {
    let params = parse_query("/socket.io/?EIO=3&transport=websocket");
    let version = select_version(&params);
    assert_eq!(version, AllowedVersions::V3);
    match upgrade_response(&params, true, Some("dGhlIHNhbXBsZSBub25jZQ==")) {
        UpgradeDecision::Accept { accept_key } => {
            assert_eq!(accept_key, "s3pPLMBiTxaQ9kYGzzhZRbK+xOo=");
        }
        UpgradeDecision::Reject { .. } => panic!("upgrade should be accepted"),
    }
    let sid = "aaaaaaaaaabbbbbbbbbbcccccccccc";
    assert_eq!(
        handshake_open_frame(sid),
        format!(
            "0{{\"sid\":\"{}\",\"upgrades\":[\"websocket\"],\"pingInterval\":25000,\"pingTimeout\":20000}}",
            sid
        )
    );
    assert_eq!(connect_frame(version, sid), "40");
}

#[test]
fn handshake_v4_connect_frame_names_the_sid() {
    let params = parse_query("/socket.io/?EIO=4&transport=websocket");
    let version = select_version(&params);
    assert_eq!(version, AllowedVersions::V4);
    let sid = "aaaaaaaaaabbbbbbbbbbcccccccccc";
    assert_eq!(
        connect_frame(version, sid),
        format!("40{{\"sid\":\"{}\"}}", sid)
    );
}

#[test]
fn absent_or_other_eio_selects_v3() {
    assert_eq!(select_version(&parse_query("/socket.io/")), AllowedVersions::V3);
    assert_eq!(
        select_version(&parse_query("/socket.io/?EIO=2")),
        AllowedVersions::V3
    );
}

#[test]
fn no_upgrade_header_is_a_400() {
    let params = parse_query("/socket.io/?EIO=3&transport=websocket");
    match upgrade_response(&params, false, None) {
        UpgradeDecision::Reject { status, body } => {
            assert_eq!(status, 400);
            assert_eq!(
                body,
                "Polling transport disabled, but no upgrade header for websocket."
            );
        }
        UpgradeDecision::Accept { .. } => panic!("upgrade should be rejected"),
    }
}

#[test]
fn polling_request_gets_its_own_400_body() {
    let params = parse_query("/socket.io/?EIO=3&transport=polling");
    match upgrade_response(&params, false, None) {
        UpgradeDecision::Reject { status, body } => {
            assert_eq!(status, 400);
            assert_eq!(body, "Polling transport is not implemented yet.");
        }
        UpgradeDecision::Accept { .. } => panic!("upgrade should be rejected"),
    }
}

#[test]
fn missing_websocket_key_is_a_400() {
    let params = parse_query("/socket.io/?EIO=3&transport=websocket");
    match upgrade_response(&params, true, None) {
        UpgradeDecision::Reject { status, .. } => assert_eq!(status, 400),
        UpgradeDecision::Accept { .. } => panic!("a keyless upgrade must be rejected"),
    }
}

#[test]
fn query_parsing_splits_pairs() {
    let params = parse_query("/p?a=1&b=&c");
    assert_eq!(
        params,
        vec![
            ("a".to_string(), "1".to_string()),
            ("b".to_string(), "".to_string()),
            ("c".to_string(), "".to_string()),
        ]
    );
    assert!(parse_query("/no/query/here").is_empty());
}

#[test]
fn get_param_takes_the_last_occurrence() {
    let params = parse_query("/p?x=1&x=2");
    assert_eq!(get_param(&params, "x"), Some("2".to_string()));
    assert_eq!(get_param(&params, "y"), None);
}

#[test]
fn split_on_keeps_empty_pieces() {
    let parts = split_on("a&&b", '&');
    assert_eq!(parts, vec!["a".to_string(), "".to_string(), "b".to_string()]);
    assert_eq!(split_on("plain", '&'), vec!["plain".to_string()]);
}

#[test]
fn read_loop_translates_frames() {
    let r = read_loop_step(WsFrame::Text("2".to_string()));
    assert_eq!(r.enqueue, Some(InternalMessage::WS(WSSocketMessage::Ping)));
    assert!(!r.exit);

    let r = read_loop_step(WsFrame::Text("42[\"chat\",\"hi\"]".to_string()));
    assert_eq!(
        r.enqueue,
        Some(InternalMessage::WS(WSSocketMessage::RawMessage(
            "42[\"chat\",\"hi\"]".to_string()
        )))
    );

    let r = read_loop_step(WsFrame::Ping);
    assert_eq!(r.enqueue, Some(InternalMessage::WS(WSSocketMessage::WsPing)));
    assert!(!r.exit);

    let r = read_loop_step(WsFrame::Pong);
    assert_eq!(r.enqueue, Some(InternalMessage::WS(WSSocketMessage::WsPong)));

    assert!(read_loop_step(WsFrame::Binary(vec![1, 2])).enqueue.is_none());
    assert!(read_loop_step(WsFrame::Close).exit);
    assert!(read_loop_step(WsFrame::Error).exit);
    assert!(read_loop_step(WsFrame::Eof).exit);
}
