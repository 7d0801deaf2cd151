use socketio_middleware::redis_pubsub::send_message;
use socketio_middleware::redis_pubsub::RedisAdapter;
use socketio_middleware::redis_pubsub::RedisMessage;
use socketio_middleware::socketio::SocketIOSocket;
use socketio_middleware::socketio::SocketIOWrapper;
use socketio_middleware::socketio_message::InternalMessage;
use socketio_middleware::socketio_message::SocketIOMessage;
use socketio_middleware::RoomRegistry;

#[test]
fn only_application_sends_are_relayed() {
    let relayed = send_message(
        "r",
        SocketIOMessage::SendMessage("e".into(), "v".into()),
    )
    .unwrap();
    assert_eq!(relayed.room_id, "r");
    assert_eq!(
        relayed.socket_io_message,
        SocketIOMessage::SendMessage("e".into(), "v".into())
    );
    assert!(send_message("r", SocketIOMessage::Message("e".into(), "v".into())).is_some());
    assert!(send_message("r", SocketIOMessage::Join("r".into())).is_none());
    assert!(send_message("r", SocketIOMessage::Leave("r".into())).is_none());
    assert!(send_message("r", SocketIOMessage::AddListener("e".into(), 1)).is_none());
    assert!(send_message("r", SocketIOMessage::Close).is_none());
    assert!(send_message("r", SocketIOMessage::Pong).is_none());
    assert!(send_message("r", SocketIOMessage::WsPong).is_none());
}

#[test]
fn adapter_generates_a_sid_shaped_sending_id() {
    let adapter = RedisAdapter::new("X");
    assert_eq!(adapter.channel(), "X");
    assert_eq!(adapter.sending_id().len(), 30);
    assert!(adapter.sending_id().chars().all(|c| c.is_ascii_alphanumeric()));
}

#[test]
fn drained_envelopes_carry_channel_and_sending_id() {
    let mut adapter = RedisAdapter::with_capacity("X", 4);
    adapter.incoming("r", &SocketIOMessage::SendMessage("e".into(), "v".into()));
    adapter.incoming("s", &SocketIOMessage::Message("e2".into(), "w".into()));
    adapter.incoming("t", &SocketIOMessage::Join("t".into()));
    let envs = adapter.drain_outbound();
    assert_eq!(envs.len(), 2);
    assert_eq!(envs[0].channel, "X");
    assert_eq!(envs[0].room_id, "r");
    assert_eq!(envs[0].event, "e");
    assert_eq!(envs[0].message, "v");
    assert_eq!(envs[0].sending_id, adapter.sending_id());
    assert_eq!(envs[1].room_id, "s");
    assert!(adapter.drain_outbound().is_empty());
}

#[test]
fn full_queue_drops_the_oldest_message() {
    let mut adapter = RedisAdapter::with_capacity("X", 1);
    adapter.incoming("r", &SocketIOMessage::SendMessage("e".into(), "first".into()));
    adapter.incoming("r", &SocketIOMessage::SendMessage("e".into(), "second".into()));
    let envs = adapter.drain_outbound();
    assert_eq!(envs.len(), 1);
    assert_eq!(envs[0].message, "second");
}

#[test]
fn own_envelopes_never_reach_a_local_sink() {
    let mut reg = RoomRegistry::new();
    let mut session = SocketIOWrapper::new("A".to_string(), 1, &mut reg);
    session.listen_step(&mut reg, InternalMessage::IO(SocketIOMessage::Join("r".into())));
    let adapter = RedisAdapter::new("X");
    let echo = RedisMessage {
        channel: "X".to_string(),
        room_id: "r".to_string(),
        event: "e".to_string(),
        message: "v".to_string(),
        sending_id: adapter.sending_id().to_string(),
    };
    assert!(adapter.handle_incoming(&reg, &echo).is_empty());
}

#[test]
fn foreign_envelopes_fan_out_to_the_room() {
    let mut reg = RoomRegistry::new();
    let mut session = SocketIOWrapper::new("A".to_string(), 1, &mut reg);
    session.listen_step(&mut reg, InternalMessage::IO(SocketIOMessage::Join("r".into())));
    let adapter = RedisAdapter::new("X");
    let env = RedisMessage {
        channel: "X".to_string(),
        room_id: "r".to_string(),
        event: "e".to_string(),
        message: "v".to_string(),
        sending_id: "anotherprocessanotherprocess00".to_string(),
    };
    let deliveries = adapter.handle_incoming(&reg, &env);
    assert_eq!(deliveries.len(), 1);
    assert_eq!(deliveries[0].sid, "A");
    assert_eq!(
        deliveries[0].message,
        InternalMessage::IO(SocketIOMessage::SendMessage("e".into(), "v".into()))
    );
}

#[test]
fn cross_process_relay_delivers_once_everywhere() {
    // Process 1 holds sockets A and C in room "r"; process 2 holds B.
    let mut reg1 = RoomRegistry::new();
    let mut a = SocketIOWrapper::new("A".to_string(), 1, &mut reg1);
    let mut c = SocketIOWrapper::new("C".to_string(), 3, &mut reg1);
    a.listen_step(&mut reg1, InternalMessage::IO(SocketIOMessage::Join("r".into())));
    c.listen_step(&mut reg1, InternalMessage::IO(SocketIOMessage::Join("r".into())));
    let mut reg2 = RoomRegistry::new();
    let mut b = SocketIOWrapper::new("B".to_string(), 2, &mut reg2);
    b.listen_step(&mut reg2, InternalMessage::IO(SocketIOMessage::Join("r".into())));

    let mut adapter1 = RedisAdapter::new("X");
    let adapter2 = RedisAdapter::new("X");

    // A socket on process 1 emits to the room, with the adapter installed.
    let socket_a = SocketIOSocket::new("A".to_string(), 1);
    let plan = socket_a.emit_to(&reg1, true, "r", "e", "v");
    let local_sids: Vec<&str> = plan.deliveries.iter().map(|d| d.sid.as_str()).collect();
    assert_eq!(local_sids, vec!["A", "C"]);
    adapter1.incoming("r", &plan.adapter_message.unwrap());

    // The publisher drains one envelope and the bus hands it to both
    // subscribers; only the foreign process fans it out.
    let envs = adapter1.drain_outbound();
    assert_eq!(envs.len(), 1);
    let remote = adapter2.handle_incoming(&reg2, &envs[0]);
    assert_eq!(remote.len(), 1);
    assert_eq!(remote[0].sid, "B");
    assert!(adapter1.handle_incoming(&reg1, &envs[0]).is_empty());
}
