use socketio_middleware::broadcast;
use socketio_middleware::socketio::SinkAction;
use socketio_middleware::socketio::SocketIOSocket;
use socketio_middleware::socketio::SocketIOWrapper;
use socketio_middleware::socketio_message::InternalMessage;
use socketio_middleware::socketio_message::SocketIOMessage;
use socketio_middleware::RoomRegistry;

fn text_of(action: &SinkAction) -> &str {
    match action {
        SinkAction::Text(t) => t.as_str(),
        _ => panic!("expected a text action"),
    }
}

fn lobby_with_a_and_b() -> (RoomRegistry, SocketIOWrapper, SocketIOWrapper) {
    let mut reg = RoomRegistry::new();
    let mut a = SocketIOWrapper::new("A".to_string(), 1, &mut reg);
    let mut b = SocketIOWrapper::new("B".to_string(), 2, &mut reg);
    a.listen_step(&mut reg, InternalMessage::IO(SocketIOMessage::Join("lobby".into())));
    b.listen_step(&mut reg, InternalMessage::IO(SocketIOMessage::Join("lobby".into())));
    (reg, a, b)
}

#[test]
fn emit_to_reaches_every_member_including_the_sender() {
    let (reg, mut a, mut b) = lobby_with_a_and_b();
    let socket_a = SocketIOSocket::new("A".to_string(), 1);
    let plan = socket_a.emit_to(&reg, false, "lobby", "chat", "hi");
    assert!(plan.adapter_message.is_none());
    let sids: Vec<&str> = plan.deliveries.iter().map(|d| d.sid.as_str()).collect();
    assert_eq!(sids, vec!["A", "B"]);

    // Each recipient frames the event on its own counter.
    let mut reg2 = reg;
    for d in plan.deliveries {
        let engine = if d.sid == "A" { &mut a } else { &mut b };
        let r = engine.listen_step(&mut reg2, d.message);
        assert_eq!(text_of(&r.actions[0]), "421[\"chat\",\"hi\"]");
    }
}

#[test]
fn emit_to_delivers_to_the_sender_only_when_it_is_in_the_room() {
    let (reg, _a, _b) = lobby_with_a_and_b();
    let socket_c = SocketIOSocket::new("C".to_string(), 3);
    let plan = socket_c.emit_to(&reg, false, "lobby", "chat", "hi");
    let sids: Vec<&str> = plan.deliveries.iter().map(|d| d.sid.as_str()).collect();
    assert_eq!(sids, vec!["A", "B"]);
}

#[test]
fn broadcast_to_excludes_the_sender() {
    let (reg, _a, mut b) = lobby_with_a_and_b();
    let socket_a = SocketIOSocket::new("A".to_string(), 1);
    let plan = socket_a.broadcast_to(&reg, false, "lobby", "chat", "hi");
    let sids: Vec<&str> = plan.deliveries.iter().map(|d| d.sid.as_str()).collect();
    assert_eq!(sids, vec!["B"]);

    let mut reg2 = reg;
    for d in plan.deliveries {
        assert_eq!(d.sid, "B");
        let r = b.listen_step(&mut reg2, d.message);
        assert_eq!(text_of(&r.actions[0]), "421[\"chat\",\"hi\"]");
    }
}

#[test]
fn broadcast_reaches_the_whole_room() {
    let (reg, _a, _b) = lobby_with_a_and_b();
    let plan = broadcast(&reg, false, "lobby", "news", "flash");
    assert_eq!(plan.deliveries.len(), 2);
    for d in &plan.deliveries {
        assert_eq!(
            d.message,
            InternalMessage::IO(SocketIOMessage::SendMessage("news".into(), "flash".into()))
        );
    }
}

#[test]
fn broadcast_to_an_empty_room_plans_nothing() {
    let reg = RoomRegistry::new();
    let plan = broadcast(&reg, false, "nowhere", "e", "m");
    assert!(plan.deliveries.is_empty());
}

#[test]
fn adapter_is_consulted_exactly_when_installed() {
    let (reg, _a, _b) = lobby_with_a_and_b();
    let socket_a = SocketIOSocket::new("A".to_string(), 1);
    let with = socket_a.emit_to(&reg, true, "lobby", "chat", "hi");
    assert_eq!(
        with.adapter_message,
        Some(SocketIOMessage::SendMessage("chat".into(), "hi".into()))
    );
    let without = socket_a.emit_to(&reg, false, "lobby", "chat", "hi");
    assert!(without.adapter_message.is_none());
}

#[test]
fn emit_to_a_sid_room_is_a_direct_send() {
    let (reg, _a, _b) = lobby_with_a_and_b();
    let socket_b = SocketIOSocket::new("B".to_string(), 2);
    let plan = socket_b.emit_to(&reg, false, "A", "dm", "psst");
    assert_eq!(plan.deliveries.len(), 1);
    assert_eq!(plan.deliveries[0].sid, "A");
    assert_eq!(plan.deliveries[0].endpoint, 1);
}

#[test]
fn delivery_endpoints_name_the_member_mailboxes() {
    let (reg, _a, _b) = lobby_with_a_and_b();
    let plan = broadcast(&reg, false, "lobby", "e", "m");
    let endpoints: Vec<u64> = plan.deliveries.iter().map(|d| d.endpoint).collect();
    assert_eq!(endpoints, vec![1, 2]);
}
