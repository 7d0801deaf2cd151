//! The closed sums of messages that travel through a session: application
//! events, membership changes, handler registration, and transport control.

use vstd::prelude::*;

verus! {

/// Identifies one registered event handler. The embedding server keeps the
/// actual callable under this id; the engine only stores and returns ids.
pub type HandlerId = u64;

/// A logical Socket.IO message on a session.
#[derive(Debug, Clone, PartialEq, Eq)]
pub enum SocketIOMessage {
    /// An inbound user event: event name and payload.
    Message(String, String),
    /// An outbound user event to be framed and written to the sink.
    SendMessage(String, String),
    /// Join the named room.
    Join(String),
    /// Leave the named room.
    Leave(String),
    /// Register a handler for the named event.
    AddListener(String, HandlerId),
    /// Tear the session down.
    Close,
    /// Reply to an Engine.IO ping.
    Pong,
    /// Reply at the WebSocket layer.
    WsPong,
}

/// A transport-level item in a session's mailbox.
#[derive(Debug, Clone, PartialEq, Eq)]
pub enum WSSocketMessage {
    /// An unparsed text frame from the peer.
    RawMessage(String),
    /// Tear the session down.
    Close,
    /// The peer sent an Engine.IO ping (`2`); answer with `3`.
    Ping,
    /// The keepalive timer fired; send a server ping (`2`).
    Pong,
    /// The peer sent a WebSocket ping frame; answer with a pong frame.
    WsPing,
    /// The peer sent a WebSocket pong frame; answer with a ping frame.
    WsPong,
}

/// One item in a session's mailbox.
#[derive(Debug, Clone, PartialEq, Eq)]
pub enum InternalMessage {
    IO(SocketIOMessage),
    WS(WSSocketMessage),
}

} // verus!
