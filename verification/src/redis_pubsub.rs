//! The Redis pub/sub adapter: relays room-scoped application sends to a
//! bus channel so that several server processes appear as one broker.
//!
//! Only application sends are relayed; membership changes and handler
//! registration are local facts. Local producers push into a bounded queue
//! whose oldest entry is dropped on overflow; the embedding server drains
//! it, serializes each envelope, and `PUBLISH`es. On the subscribe side the
//! server decodes each envelope and hands its fields here: an envelope
//! stamped with this process's own sending id is dropped (echo
//! suppression), any other fans out to the room's local members.

use vstd::prelude::*;

verus! {

use crate::rooms::RoomRegistry;
use crate::sid::generate_sid;
use crate::sid::is_sid;
use crate::socketio::Delivery;
use crate::socketio::broadcast;
use crate::socketio::deliveries_match;
use crate::socketio_message::SocketIOMessage;
use crate::text::str_eq;

/// The default bound on in-flight relayed messages.
pub const DEFAULT_MESSAGE_CAPACITY: usize = 16;

/// The envelope relayed on the bus, as plain fields. The embedding server
/// turns it into JSON and back; this module decides what goes into it and
/// what comes out of it.
pub struct RedisMessage {
    pub channel: String,
    pub room_id: String,
    pub event: String,
    pub message: String,
    pub sending_id: String,
}

/// What an envelope holds, as contracts see it.
pub struct RedisMessageView {
    pub channel: Seq<char>,
    pub room_id: Seq<char>,
    pub event: Seq<char>,
    pub message: Seq<char>,
    pub sending_id: Seq<char>,
}

impl View for RedisMessage {
    type V = RedisMessageView;

    closed spec fn view(&self) -> RedisMessageView {
        RedisMessageView {
            channel: self.channel@,
            room_id: self.room_id@,
            event: self.event@,
            message: self.message@,
            sending_id: self.sending_id@,
        }
    }
}

/// A message bound for the bus, before it is enveloped.
pub struct SocketIOToRedisMessage {
    pub room_id: String,
    pub socket_io_message: SocketIOMessage,
}

/// True of the two message kinds that are relayed to the bus.
pub open spec fn relayable(m: SocketIOMessage) -> bool {
    ||| m matches SocketIOMessage::Message(_, _)
    ||| m matches SocketIOMessage::SendMessage(_, _)
}

/// The event name a relayed message carries.
pub open spec fn relay_event(m: SocketIOMessage) -> Seq<char> {
    match m {
        SocketIOMessage::Message(e, _) => e@,
        SocketIOMessage::SendMessage(e, _) => e@,
        _ => Seq::empty(),
    }
}

/// The payload a relayed message carries.
pub open spec fn relay_payload(m: SocketIOMessage) -> Seq<char> {
    match m {
        SocketIOMessage::Message(_, p) => p@,
        SocketIOMessage::SendMessage(_, p) => p@,
        _ => Seq::empty(),
    }
}

/// Decides whether a message is relayed to the bus: an application send is,
/// under its room id; membership changes, handler registration, and
/// transport control are not.
pub fn send_message(room_id: &str, message: SocketIOMessage) -> (r: Option<SocketIOToRedisMessage>)
    ensures
        relayable(message) ==> (r matches Some(v) && v.room_id@ == room_id@
            && v.socket_io_message == message),
        !relayable(message) ==> r is None,
{
    if matches!(message, SocketIOMessage::Message(_, _))
        || matches!(message, SocketIOMessage::SendMessage(_, _)) {
        Some(SocketIOToRedisMessage { room_id: room_id.to_owned(), socket_io_message: message })
    } else {
        None
    }
}

/// The bounded queue between local producers and the publish connection.
/// When it is full, the oldest entry is dropped to make room: loss is
/// logged by the embedding server but never surfaced.
pub struct PublishQueue {
    items: Vec<SocketIOToRedisMessage>,
    capacity: usize,
}

impl PublishQueue {
    /// What the queue holds, oldest first.
    pub closed spec fn items(&self) -> Seq<SocketIOToRedisMessage> {
        self.items@
    }

    /// The bound the queue was made with.
    pub closed spec fn cap(&self) -> nat {
        self.capacity as nat
    }

    /// The queue never exceeds its bound, which is at least one.
    pub closed spec fn inv(&self) -> bool {
        self.items@.len() <= self.capacity && self.capacity >= 1
    }

    /// An empty queue bounded by `capacity`.
    pub fn new(capacity: usize) -> (r: Self)
        requires
            capacity >= 1,
        ensures
            r.inv(),
            r.items() == Seq::<SocketIOToRedisMessage>::empty(),
            r.cap() == capacity,
    {
        PublishQueue { items: Vec::new(), capacity }
    }

    /// Appends an entry, dropping the oldest when the queue is full.
    pub fn push(&mut self, m: SocketIOToRedisMessage)
        requires
            old(self).inv(),
        ensures
            final(self).inv(),
            final(self).cap() == old(self).cap(),
            final(self).items().last() == m,
            if old(self).items().len() < old(self).cap() {
                final(self).items() == old(self).items().push(m)
            } else {
                final(self).items() == old(self).items().drop_first().push(m)
            },
    {
        if self.items.len() >= self.capacity {
            self.items.remove(0);
            proof {
                assert(self.items@ =~= old(self).items().drop_first());
            }
        }
        self.items.push(m);
    }

    /// Hands every queued entry out, oldest first, leaving the queue empty.
    pub fn drain(&mut self) -> (r: Vec<SocketIOToRedisMessage>)
        requires
            old(self).inv(),
        ensures
            final(self).inv(),
            final(self).cap() == old(self).cap(),
            final(self).items() == Seq::<SocketIOToRedisMessage>::empty(),
            r@ == old(self).items(),
    {
        let mut out: Vec<SocketIOToRedisMessage> = Vec::new();
        core::mem::swap(&mut out, &mut self.items);
        out
    }
}

/// What an installed adapter holds, as contracts see it: the channel it
/// serves, the sending id stamped on every envelope this process
/// publishes, and the queue of messages awaiting publication.
pub struct AdapterView {
    pub channel: Seq<char>,
    pub sending_id: Seq<char>,
    pub queued: Seq<SocketIOToRedisMessage>,
    pub capacity: nat,
}

/// One installed Redis pub/sub connection: the per-process sending id,
/// the channel name, and the bounded publish queue. The embedding server
/// owns the two actual Redis connections and moves envelopes between them
/// and this state.
pub struct RedisAdapter {
    sending_id: String,
    channel: String,
    queue: PublishQueue,
}

impl View for RedisAdapter {
    type V = AdapterView;

    closed spec fn view(&self) -> AdapterView {
        AdapterView {
            channel: self.channel@,
            sending_id: self.sending_id@,
            queued: self.queue.items(),
            capacity: self.queue.cap(),
        }
    }
}

impl RedisAdapter {
    /// Every queued entry is a relayable application send.
    pub closed spec fn inv(&self) -> bool {
        &&& self.queue.inv()
        &&& forall|i: int|
            0 <= i < self.queue.items().len() ==> relayable(
                (#[trigger] self.queue.items()[i]).socket_io_message,
            )
    }

    /// A fresh adapter for `channel_name`: generates this process's
    /// sending id and bounds the publish queue by `message_capacity`.
    pub fn with_capacity(channel_name: &str, message_capacity: usize) -> (r: Self)
        requires
            message_capacity >= 1,
        ensures
            r.inv(),
            r@.channel == channel_name@,
            is_sid(r@.sending_id),
            r@.queued == Seq::<SocketIOToRedisMessage>::empty(),
            r@.capacity == message_capacity,
    {
        RedisAdapter {
            sending_id: generate_sid(),
            channel: channel_name.to_owned(),
            queue: PublishQueue::new(message_capacity),
        }
    }

    /// A fresh adapter with the default queue bound.
    pub fn new(channel_name: &str) -> (r: Self)
        ensures
            r.inv(),
            r@.channel == channel_name@,
            is_sid(r@.sending_id),
            r@.queued == Seq::<SocketIOToRedisMessage>::empty(),
            r@.capacity == DEFAULT_MESSAGE_CAPACITY,
    {
        Self::with_capacity(channel_name, DEFAULT_MESSAGE_CAPACITY)
    }

    /// The sending id stamped on every envelope this process publishes.
    pub fn sending_id(&self) -> (r: &str)
        ensures
            r@ == self@.sending_id,
    {
        self.sending_id.as_str()
    }

    /// The bus channel this adapter serves.
    pub fn channel(&self) -> (r: &str)
        ensures
            r@ == self@.channel,
    {
        self.channel.as_str()
    }

    /// A local originator hands a room-scoped message to the bus: an
    /// application send is queued for publication, anything else is
    /// dropped here.
    pub fn incoming(&mut self, room_id: &str, message: &SocketIOMessage)
        requires
            old(self).inv(),
        ensures
            final(self).inv(),
            final(self)@.channel == old(self)@.channel,
            final(self)@.sending_id == old(self)@.sending_id,
            final(self)@.capacity == old(self)@.capacity,
            relayable(*message) ==> {
                &&& final(self)@.queued.len() >= 1
                &&& final(self)@.queued.last().room_id@ == room_id@
                &&& final(self)@.queued.last().socket_io_message == *message
                &&& if old(self)@.queued.len() < old(self)@.capacity {
                    final(self)@.queued == old(self)@.queued.push(final(self)@.queued.last())
                } else {
                    final(self)@.queued == old(self)@.queued.drop_first().push(
                        final(self)@.queued.last(),
                    )
                }
            },
            !relayable(*message) ==> final(self)@ == old(self)@,
    {
        let copy = clone_message(message);
        match send_message(room_id, copy) {
            Some(v) => {
                self.queue.push(v);
            },
            None => {},
        }
    }

    /// Bus-to-local relay hook. The subscribe loop re-injects through the
    /// registry directly, so there is nothing to do here.
    pub fn outgoing(&self, _room_id: &str, _message: &SocketIOMessage) {
    }

    /// Envelopes every queued message for publication, oldest first,
    /// stamping each with this process's channel and sending id.
    pub fn drain_outbound(&mut self) -> (r: Vec<RedisMessage>)
        requires
            old(self).inv(),
        ensures
            final(self).inv(),
            final(self)@.channel == old(self)@.channel,
            final(self)@.sending_id == old(self)@.sending_id,
            final(self)@.capacity == old(self)@.capacity,
            final(self)@.queued == Seq::<SocketIOToRedisMessage>::empty(),
            r@.len() == old(self)@.queued.len(),
            forall|k: int|
                0 <= k < r@.len() ==> {
                    let q = old(self)@.queued[k];
                    &&& (#[trigger] r@[k])@.channel == old(self)@.channel
                    &&& r@[k]@.sending_id == old(self)@.sending_id
                    &&& r@[k]@.room_id == q.room_id@
                    &&& r@[k]@.event == relay_event(q.socket_io_message)
                    &&& r@[k]@.message == relay_payload(q.socket_io_message)
                },
    {
        let drained = self.queue.drain();
        let ghost q0 = old(self)@.queued;
        let mut out: Vec<RedisMessage> = Vec::new();
        let n = drained.len();
        let mut i: usize = 0;
        while i < n
            invariant
                i <= n,
                n == drained@.len(),
                drained@ == q0,
                self.inv(),
                self@.channel == old(self)@.channel,
                self@.sending_id == old(self)@.sending_id,
                self@.capacity == old(self)@.capacity,
                self@.queued == Seq::<SocketIOToRedisMessage>::empty(),
                forall|i2: int| 0 <= i2 < q0.len() ==> relayable((#[trigger] q0[i2]).socket_io_message),
                out@.len() == i,
                forall|k: int|
                    0 <= k < i ==> {
                        let q = q0[k];
                        &&& (#[trigger] out@[k])@.channel == old(self)@.channel
                        &&& out@[k]@.sending_id == old(self)@.sending_id
                        &&& out@[k]@.room_id == q.room_id@
                        &&& out@[k]@.event == relay_event(q.socket_io_message)
                        &&& out@[k]@.message == relay_payload(q.socket_io_message)
                    },
            decreases n - i,
        {
            let item = &drained[i];
            let (event, message) = match &item.socket_io_message {
                SocketIOMessage::Message(e, m) => (e.clone(), m.clone()),
                SocketIOMessage::SendMessage(e, m) => (e.clone(), m.clone()),
                _ => (String::new(), String::new()),
            };
            out.push(
                RedisMessage {
                    channel: self.channel.clone(),
                    room_id: item.room_id.clone(),
                    event,
                    message,
                    sending_id: self.sending_id.clone(),
                },
            );
            i = i + 1;
        }
        out
    }

    /// Fans a decoded envelope out to the local members of its room. An
    /// envelope stamped with this process's own sending id never reaches
    /// any local session: it is this process's own traffic echoed back.
    pub fn handle_incoming(&self, registry: &RoomRegistry, env: &RedisMessage) -> (r: Vec<
        Delivery,
    >)
        requires
            registry.inv(),
        ensures
            env@.sending_id == self@.sending_id ==> r@.len() == 0,
            env@.sending_id != self@.sending_id ==> deliveries_match(
                r@,
                registry@,
                env@.room_id,
                env@.event,
                env@.message,
                None,
            ),
    {
        if str_eq(env.sending_id.as_str(), self.sending_id.as_str()) {
            Vec::new()
        } else {
            let plan = broadcast(
                registry,
                false,
                env.room_id.as_str(),
                env.event.as_str(),
                env.message.as_str(),
            );
            plan.deliveries
        }
    }
}

fn clone_message(m: &SocketIOMessage) -> (r: SocketIOMessage)
    ensures
        r == *m,
{
    match m {
        SocketIOMessage::Message(e, p) => SocketIOMessage::Message(e.clone(), p.clone()),
        SocketIOMessage::SendMessage(e, p) => SocketIOMessage::SendMessage(e.clone(), p.clone()),
        SocketIOMessage::Join(r2) => SocketIOMessage::Join(r2.clone()),
        SocketIOMessage::Leave(r2) => SocketIOMessage::Leave(r2.clone()),
        SocketIOMessage::AddListener(e, h) => SocketIOMessage::AddListener(e.clone(), *h),
        SocketIOMessage::Close => SocketIOMessage::Close,
        SocketIOMessage::Pong => SocketIOMessage::Pong,
        SocketIOMessage::WsPong => SocketIOMessage::WsPong,
    }
}

} // verus!
