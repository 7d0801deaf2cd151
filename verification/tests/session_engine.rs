use socketio_middleware::socketio::SinkAction;
use socketio_middleware::socketio::SocketIOSocket;
use socketio_middleware::socketio::SocketIOWrapper;
use socketio_middleware::socketio_message::InternalMessage;
use socketio_middleware::socketio_message::SocketIOMessage;
use socketio_middleware::socketio_message::WSSocketMessage;
use socketio_middleware::socketio_parser::FrameError;
use socketio_middleware::RoomRegistry;

fn text_of(action: &SinkAction) -> &str {
    match action {
        SinkAction::Text(t) => t.as_str(),
        _ => panic!("expected a text action"),
    }
}

#[test]
fn new_session_joins_its_own_sid_room() {
    let mut reg = RoomRegistry::new();
    let _session = SocketIOWrapper::new("AAAA".to_string(), 1, &mut reg);
    assert_eq!(reg.get_sockets_number_for_room("AAAA"), 1);
    let members = reg.get_sockets_for_room("AAAA").unwrap();
    assert_eq!(members[0].sid(), "AAAA");
}

#[test]
fn send_frames_carry_a_strictly_increasing_counter() {
    let mut reg = RoomRegistry::new();
    let mut session = SocketIOWrapper::new("A".to_string(), 1, &mut reg);
    let r1 = session.listen_step(
        &mut reg,
        InternalMessage::IO(SocketIOMessage::SendMessage("chat".into(), "hi".into())),
    );
    let r2 = session.listen_step(
        &mut reg,
        InternalMessage::IO(SocketIOMessage::SendMessage("chat".into(), "ho".into())),
    );
    assert_eq!(text_of(&r1.actions[0]), "421[\"chat\",\"hi\"]");
    assert_eq!(text_of(&r2.actions[0]), "422[\"chat\",\"ho\"]");
}

#[test]
fn join_registers_and_duplicate_join_is_a_noop() {
    let mut reg = RoomRegistry::new();
    let mut session = SocketIOWrapper::new("A".to_string(), 1, &mut reg);
    session.listen_step(&mut reg, InternalMessage::IO(SocketIOMessage::Join("lobby".into())));
    session.listen_step(&mut reg, InternalMessage::IO(SocketIOMessage::Join("lobby".into())));
    assert_eq!(reg.get_sockets_number_for_room("lobby"), 1);
}

#[test]
fn leave_deregisters_the_session() {
    let mut reg = RoomRegistry::new();
    let mut session = SocketIOWrapper::new("A".to_string(), 1, &mut reg);
    session.listen_step(&mut reg, InternalMessage::IO(SocketIOMessage::Join("lobby".into())));
    session.listen_step(&mut reg, InternalMessage::IO(SocketIOMessage::Leave("lobby".into())));
    assert_eq!(reg.get_sockets_number_for_room("lobby"), 0);
}

#[test]
fn engine_ping_is_answered_with_pong() {
    let mut reg = RoomRegistry::new();
    let mut session = SocketIOWrapper::new("A".to_string(), 1, &mut reg);
    let r = session.listen_step(&mut reg, InternalMessage::WS(WSSocketMessage::Ping));
    assert_eq!(r.actions.len(), 1);
    assert_eq!(text_of(&r.actions[0]), "3");
    assert!(!r.exit);
}

#[test]
fn keepalive_pong_message_emits_a_server_ping() {
    let mut reg = RoomRegistry::new();
    let mut session = SocketIOWrapper::new("A".to_string(), 1, &mut reg);
    let r = session.listen_step(&mut reg, InternalMessage::WS(WSSocketMessage::Pong));
    assert_eq!(text_of(&r.actions[0]), "2");
}

#[test]
fn raw_pong_frame_is_ignored() {
    let mut reg = RoomRegistry::new();
    let mut session = SocketIOWrapper::new("A".to_string(), 1, &mut reg);
    let r = session.listen_step(
        &mut reg,
        InternalMessage::WS(WSSocketMessage::RawMessage("3".into())),
    );
    assert!(r.actions.is_empty());
    assert!(r.enqueue.is_none());
    assert!(!r.exit);
}

#[test]
fn ws_layer_frames_are_answered_in_kind() {
    let mut reg = RoomRegistry::new();
    let mut session = SocketIOWrapper::new("A".to_string(), 1, &mut reg);
    let r = session.listen_step(&mut reg, InternalMessage::WS(WSSocketMessage::WsPing));
    assert!(matches!(r.actions[0], SinkAction::WsPongFrame));
    let r = session.listen_step(&mut reg, InternalMessage::WS(WSSocketMessage::WsPong));
    assert!(matches!(r.actions[0], SinkAction::WsPingFrame));
}

#[test]
fn listeners_run_for_their_event_with_a_room_snapshot() {
    let mut reg = RoomRegistry::new();
    let mut session = SocketIOWrapper::new("A".to_string(), 7, &mut reg);
    session.listen_step(&mut reg, InternalMessage::IO(SocketIOMessage::Join("lobby".into())));
    session.listen_step(
        &mut reg,
        InternalMessage::IO(SocketIOMessage::AddListener("chat".into(), 42)),
    );
    session.listen_step(
        &mut reg,
        InternalMessage::IO(SocketIOMessage::AddListener("chat".into(), 43)),
    );
    let r = session.listen_step(
        &mut reg,
        InternalMessage::WS(WSSocketMessage::RawMessage("421[\"chat\",\"hi\"]".into())),
    );
    let spawn = r.spawn.expect("handlers should be spawned");
    assert_eq!(spawn.handlers, vec![42, 43]);
    assert_eq!(spawn.message, "hi");
    assert_eq!(spawn.socket.id(), "A");
    assert_eq!(spawn.socket.rooms().len(), 2);
}

#[test]
fn events_without_listeners_are_dropped() {
    let mut reg = RoomRegistry::new();
    let mut session = SocketIOWrapper::new("A".to_string(), 1, &mut reg);
    let r = session.listen_step(
        &mut reg,
        InternalMessage::WS(WSSocketMessage::RawMessage("42[\"chat\",\"hi\"]".into())),
    );
    assert!(r.spawn.is_none());
    assert!(!r.exit);
}

#[test]
fn malformed_frame_closes_and_deregisters_the_session() {
    let mut reg = RoomRegistry::new();
    let mut session = SocketIOWrapper::new("A".to_string(), 1, &mut reg);
    session.listen_step(&mut reg, InternalMessage::IO(SocketIOMessage::Join("lobby".into())));
    let r = session.listen_step(
        &mut reg,
        InternalMessage::WS(WSSocketMessage::RawMessage("42chat".into())),
    );
    assert!(r.exit);
    assert_eq!(r.error, Some(FrameError::MissingBracket));
    assert!(matches!(r.actions[0], SinkAction::CloseSink));
    assert_eq!(reg.get_sockets_number_for_room("lobby"), 0);
    assert_eq!(reg.get_sockets_number_for_room("A"), 0);
}

#[test]
fn unknown_prefix_closes_the_session() {
    let mut reg = RoomRegistry::new();
    let mut session = SocketIOWrapper::new("A".to_string(), 1, &mut reg);
    let r = session.listen_step(
        &mut reg,
        InternalMessage::WS(WSSocketMessage::RawMessage("99".into())),
    );
    assert!(r.exit);
    assert_eq!(r.error, Some(FrameError::UnknownPrefix));
}

#[test]
fn disconnect_and_connect_echoes_are_informational() {
    let mut reg = RoomRegistry::new();
    let mut session = SocketIOWrapper::new("A".to_string(), 1, &mut reg);
    for frame in ["41", "40"] {
        let r = session.listen_step(
            &mut reg,
            InternalMessage::WS(WSSocketMessage::RawMessage(frame.into())),
        );
        assert!(!r.exit);
        assert!(r.actions.is_empty());
    }
}

#[test]
fn close_cleans_every_room_and_ends_the_session() {
    let mut reg = RoomRegistry::new();
    let mut session = SocketIOWrapper::new("A".to_string(), 1, &mut reg);
    session.listen_step(&mut reg, InternalMessage::IO(SocketIOMessage::Join("lobby".into())));
    let r = session.listen_step(&mut reg, InternalMessage::WS(WSSocketMessage::Close));
    assert!(r.exit);
    assert!(matches!(r.actions[0], SinkAction::CloseSink));
    assert_eq!(reg.get_sockets_number_for_room("A"), 0);
    assert_eq!(reg.get_sockets_number_for_room("lobby"), 0);
}

#[test]
fn facade_builds_mailbox_messages() {
    let socket = SocketIOSocket::new("A".to_string(), 1);
    assert_eq!(socket.id(), "A");
    assert_eq!(
        socket.join("lobby"),
        InternalMessage::IO(SocketIOMessage::Join("lobby".into()))
    );
    assert_eq!(
        socket.leave("lobby"),
        InternalMessage::IO(SocketIOMessage::Leave("lobby".into()))
    );
    assert_eq!(
        socket.send("chat", "hi"),
        InternalMessage::IO(SocketIOMessage::SendMessage("chat".into(), "hi".into()))
    );
    assert_eq!(
        socket.on("chat", 9),
        InternalMessage::IO(SocketIOMessage::AddListener("chat".into(), 9))
    );
    assert!(socket.rooms().is_empty());
}
