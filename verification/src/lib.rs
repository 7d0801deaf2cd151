//! A server-side Socket.IO session core: frame codec, room registry,
//! per-session engine, upgrade handshake, and a Redis-backed relay adapter.
//!
//! The modules here hold the protocol decisions as verified functions over
//! plain values; an embedding server owns the transports and the task loops
//! and drives these functions with the frames and mailbox messages it moves.

pub mod redis_pubsub;
pub mod rooms;
pub mod sid;
pub mod socketio;
pub mod socketio_message;
pub mod socketio_parser;
pub mod socketio_upgrade;
pub mod text;

pub use rooms::RoomRegistry;
pub use sid::generate_sid;
pub use socketio::adapter;
pub use socketio::broadcast;
pub use socketio::SocketIOSocket as SocketIO;
pub use text::u64_to_string;
