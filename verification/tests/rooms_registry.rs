use socketio_middleware::rooms::ChannelPair;
use socketio_middleware::RoomRegistry;

#[test]
fn join_then_lookup() {
    let mut reg = RoomRegistry::new();
    reg.join_channel_to_room("lobby", ChannelPair::new("A", 1));
    assert_eq!(reg.get_sockets_number_for_room("lobby"), 1);
    let members = reg.get_sockets_for_room("lobby").unwrap();
    assert_eq!(members.len(), 1);
    assert_eq!(members[0].sid(), "A");
    assert_eq!(members[0].sender(), 1);
}

#[test]
fn duplicate_join_is_a_noop() {
    let mut reg = RoomRegistry::new();
    reg.join_channel_to_room("lobby", ChannelPair::new("A", 1));
    reg.join_channel_to_room("lobby", ChannelPair::new("A", 1));
    assert_eq!(reg.get_sockets_number_for_room("lobby"), 1);
    assert_eq!(reg.get_rooms_number(), 1);
}

#[test]
fn two_sids_share_a_room() {
    let mut reg = RoomRegistry::new();
    reg.join_channel_to_room("lobby", ChannelPair::new("A", 1));
    reg.join_channel_to_room("lobby", ChannelPair::new("B", 2));
    assert_eq!(reg.get_sockets_number_for_room("lobby"), 2);
}

#[test]
fn join_then_leave_removes_every_trace_of_the_sid() {
    let mut reg = RoomRegistry::new();
    reg.join_channel_to_room("lobby", ChannelPair::new("A", 1));
    reg.remove_socket_from_room("lobby", "A");
    assert_eq!(reg.get_sockets_number_for_room("lobby"), 0);
    let members = reg.get_sockets_for_room("lobby").unwrap();
    assert!(members.iter().all(|p| p.sid() != "A"));
}

#[test]
fn leave_removes_only_the_named_sid() {
    let mut reg = RoomRegistry::new();
    reg.join_channel_to_room("lobby", ChannelPair::new("A", 1));
    reg.join_channel_to_room("lobby", ChannelPair::new("B", 2));
    reg.remove_socket_from_room("lobby", "A");
    let members = reg.get_sockets_for_room("lobby").unwrap();
    assert_eq!(members.len(), 1);
    assert_eq!(members[0].sid(), "B");
}

#[test]
fn leave_of_absent_sid_keeps_membership() {
    let mut reg = RoomRegistry::new();
    reg.join_channel_to_room("lobby", ChannelPair::new("A", 1));
    reg.remove_socket_from_room("lobby", "Z");
    assert_eq!(reg.get_sockets_number_for_room("lobby"), 1);
}

#[test]
fn leave_on_missing_room_leaves_an_empty_entry() {
    let mut reg = RoomRegistry::new();
    reg.remove_socket_from_room("ghost", "A");
    assert_eq!(reg.get_rooms_number(), 1);
    assert_eq!(reg.get_sockets_number_for_room("ghost"), 0);
}

#[test]
fn missing_room_has_no_view() {
    let reg = RoomRegistry::new();
    assert!(reg.get_sockets_for_room("nowhere").is_none());
    assert_eq!(reg.get_sockets_number_for_room("nowhere"), 0);
    assert_eq!(reg.get_rooms_number(), 0);
}

#[test]
fn print_line_names_room_and_count() {
    let mut reg = RoomRegistry::new();
    reg.join_channel_to_room("lobby", ChannelPair::new("A", 1));
    reg.join_channel_to_room("lobby", ChannelPair::new("B", 2));
    assert_eq!(
        reg.print_sockets_for_room("lobby"),
        "ROOMS: room lobby holds sockets: 2"
    );
}
