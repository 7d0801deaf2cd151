use socketio_middleware::socketio::parse_raw_message;
use socketio_middleware::socketio_parser::format_event_frame;
use socketio_middleware::socketio_parser::parse_socketio_message;
use socketio_middleware::socketio_parser::parse_ws_message;
use socketio_middleware::socketio_parser::FrameError;
use socketio_middleware::socketio_message::SocketIOMessage;
use socketio_middleware::generate_sid;
use socketio_middleware::u64_to_string;

#[test]
fn parse_event_basic() {
    let r = parse_socketio_message("42[\"chat\",\"hi\"]").unwrap();
    assert_eq!(r.0, "chat");
    assert_eq!(r.1, "hi");
}

#[test]
fn parse_event_with_counter() {
    let r = parse_socketio_message("4217[\"update\",\"payload text\"]").unwrap();
    assert_eq!(r.0, "update");
    assert_eq!(r.1, "payload text");
}

#[test]
fn parse_event_json_payload_kept_verbatim() {
    let r = parse_socketio_message("420[\"evt\",{\"a\":1}]").unwrap();
    assert_eq!(r.0, "evt");
    assert_eq!(r.1, "{\"a\":1}");
}

#[test]
fn parse_event_array_payload_kept_verbatim() {
    let r = parse_socketio_message("42[\"evt\",[1,2,3]]").unwrap();
    assert_eq!(r.1, "[1,2,3]");
}

#[test]
fn parse_missing_bracket_is_fatal() {
    assert_eq!(
        parse_socketio_message("42\"chat\",\"hi\"").unwrap_err(),
        FrameError::MissingBracket
    );
}

#[test]
fn parse_missing_comma_is_fatal() {
    assert_eq!(
        parse_socketio_message("42[\"chat\"]").unwrap_err(),
        FrameError::MissingComma
    );
}

#[test]
fn parse_too_short_is_fatal() {
    assert_eq!(parse_socketio_message("4").unwrap_err(), FrameError::TooShort);
}

#[test]
fn parse_empty_payload_is_fatal() {
    assert_eq!(
        parse_socketio_message("42[\"e\",]").unwrap_err(),
        FrameError::EmptyPayload
    );
}

#[test]
fn parse_raw_message_agrees_with_parser() {
    let a = parse_raw_message("421[\"chat\",\"hi\"]").unwrap();
    let b = parse_socketio_message("421[\"chat\",\"hi\"]").unwrap();
    assert_eq!(a, b);
}

#[test]
fn format_plain_payload_is_quoted() {
    assert_eq!(format_event_frame(1, "chat", "hi"), "421[\"chat\",\"hi\"]");
}

#[test]
fn format_json_payload_is_verbatim() {
    assert_eq!(format_event_frame(7, "e", "{\"a\":1}"), "427[\"e\",{\"a\":1}]");
}

#[test]
fn format_counter_renders_in_decimal() {
    assert_eq!(format_event_frame(120, "e", "x"), "42120[\"e\",\"x\"]");
}

#[test]
fn roundtrip_json_payload_is_byte_identical() {
    let frame = format_event_frame(5, "chat", "{\"x\":2}");
    let (event, payload) = parse_socketio_message(&frame).unwrap();
    assert_eq!(format_event_frame(5, &event, &payload), frame);
}

#[test]
fn roundtrip_plain_payload_is_byte_identical() {
    let frame = format_event_frame(9, "note", "hello world");
    let (event, payload) = parse_socketio_message(&frame).unwrap();
    assert_eq!((event.as_str(), payload.as_str()), ("note", "hello world"));
    assert_eq!(format_event_frame(9, &event, &payload), frame);
}

#[test]
fn parse_ws_message_classifies_frames() {
    match parse_ws_message("421[\"chat\",\"hi\"]").unwrap() {
        SocketIOMessage::Message(e, m) => {
            assert_eq!(e, "chat");
            assert_eq!(m, "hi");
        }
        other => panic!("unexpected message: {:?}", other),
    }
    assert_eq!(parse_ws_message("41").unwrap(), SocketIOMessage::Close);
    assert_eq!(parse_ws_message("99").unwrap_err(), FrameError::UnknownPrefix);
    assert_eq!(parse_ws_message("7").unwrap_err(), FrameError::TooShort);
}

#[test]
fn u64_to_string_renders_decimal() {
    assert_eq!(u64_to_string(0), "0");
    assert_eq!(u64_to_string(12345), "12345");
    assert_eq!(u64_to_string(u64::MAX), u64::MAX.to_string());
}

#[test]
fn generated_sid_is_30_alphanumeric_chars() {
    let sid = generate_sid();
    assert_eq!(sid.len(), 30);
    assert!(sid.chars().all(|c| c.is_ascii_alphanumeric()));
}

#[test]
fn generated_sids_differ() {
    assert_ne!(generate_sid(), generate_sid());
}
