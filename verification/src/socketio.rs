//! The user-facing socket handle and the per-session engine.
//!
//! A session is a single consumer of its mailbox: the engine alone mutates
//! the room set, the message counter, and the handler table. The facade and
//! the read loop only produce mailbox messages. Room-scoped sends are
//! planned here as explicit delivery lists over the registry; the embedding
//! server moves each planned delivery onto the addressed mailbox.

use vstd::prelude::*;

verus! {

use vstd::string::StrSliceExecFns;
use vstd::string::StringExecFns;
use crate::rooms::ChannelPair;
use crate::rooms::EndpointId;
use crate::rooms::MemberSeq;
use crate::rooms::RoomRegistry;
use crate::rooms::RoomsMap;
use crate::rooms::has_member;
use crate::rooms::spec_join;
use crate::rooms::spec_leave;
use crate::socketio_message::HandlerId;
use crate::socketio_message::InternalMessage;
use crate::socketio_message::SocketIOMessage;
use crate::socketio_message::WSSocketMessage;
use crate::socketio_parser::FrameError;
use crate::socketio_parser::parse_socketio_message;
use crate::socketio_parser::format_event_frame;
use crate::socketio_parser::spec_format_frame;
use crate::socketio_parser::spec_parse_event;
use crate::text::str_eq;

/// Engine.IO ping, as text.
pub const SOCKETIO_PING: &'static str = "2";

/// Engine.IO pong, as text.
pub const SOCKETIO_PONG: &'static str = "3";

/// Socket.IO connect marker.
pub const SOCKETIO_EVENT_OPEN: &'static str = "40";

/// Socket.IO event prefix.
pub const SOCKETIO_EVENT_MESSAGE: &'static str = "42";

/// Extracts `(event, payload)` from a `42`-prefixed event frame; the same
/// codec `parse_socketio_message` applies.
pub fn parse_raw_message(payload: &str) -> (r: Result<(String, String), FrameError>)
    ensures
        match r {
            Ok(pair) => crate::socketio_parser::spec_parse_event(payload@) == Ok::<_, FrameError>(
                (pair.0@, pair.1@),
            ),
            Err(e) => crate::socketio_parser::spec_parse_event(payload@) == Err::<
                (Seq<char>, Seq<char>),
                _,
            >(e),
        },
{
    parse_socketio_message(payload)
}

/// What a facade value holds, as contracts see it.
pub struct SocketView {
    pub id: Seq<char>,
    pub sender: EndpointId,
    pub rooms: Seq<Seq<char>>,
}

/// The cheap handle a user handler receives: the sid, the endpoint id of
/// the owning session's mailbox, and a snapshot of the rooms the session
/// was in when the handle was made. Mutating calls build mailbox messages;
/// the embedding server enqueues them.
#[derive(Clone)]
pub struct SocketIOSocket {
    id: String,
    sender: EndpointId,
    rooms: Vec<String>,
}

impl View for SocketIOSocket {
    type V = SocketView;

    closed spec fn view(&self) -> SocketView {
        SocketView {
            id: self.id@,
            sender: self.sender,
            rooms: self.rooms@.map_values(|s: String| s@),
        }
    }
}

impl SocketIOSocket {
    /// A fresh handle with an empty room snapshot.
    pub fn new(id: String, sender: EndpointId) -> (r: Self)
        ensures
            r@.id == id@,
            r@.sender == sender,
            r@.rooms == Seq::<Seq<char>>::empty(),
    {
        let r = SocketIOSocket { id, sender, rooms: Vec::new() };
        proof {
            assert(r@.rooms =~= Seq::<Seq<char>>::empty());
        }
        r
    }

    /// A handle carrying a snapshot of the given rooms.
    pub fn with_rooms(id: String, sender: EndpointId, rooms: Vec<String>) -> (r: Self)
        ensures
            r@.id == id@,
            r@.sender == sender,
            r@.rooms == rooms@.map_values(|s: String| s@),
    {
        SocketIOSocket { id, sender, rooms }
    }

    /// The id of this socket.
    pub fn id(&self) -> (r: &str)
        ensures
            r@ == self@.id,
    {
        self.id.as_str()
    }

    /// The mailbox message that registers a listener for `event`.
    pub fn on(&self, event: &str, handler: HandlerId) -> (m: InternalMessage)
        ensures
            m matches InternalMessage::IO(SocketIOMessage::AddListener(ev, h)) && ev@ == event@
                && h == handler,
    {
        InternalMessage::IO(SocketIOMessage::AddListener(event.to_owned(), handler))
    }

    /// The mailbox message that joins this socket into `room_id`.
    pub fn join(&self, room_id: &str) -> (m: InternalMessage)
        ensures
            m matches InternalMessage::IO(SocketIOMessage::Join(r)) && r@ == room_id@,
    {
        InternalMessage::IO(SocketIOMessage::Join(room_id.to_owned()))
    }

    /// The mailbox message that removes this socket from `room_id`.
    pub fn leave(&self, room_id: &str) -> (m: InternalMessage)
        ensures
            m matches InternalMessage::IO(SocketIOMessage::Leave(r)) && r@ == room_id@,
    {
        InternalMessage::IO(SocketIOMessage::Leave(room_id.to_owned()))
    }

    /// The mailbox message that sends `event`/`message` on this socket.
    pub fn send(&self, event: &str, message: &str) -> (m: InternalMessage)
        ensures
            m matches InternalMessage::IO(SocketIOMessage::SendMessage(ev, pl)) && ev@ == event@
                && pl@ == message@,
    {
        InternalMessage::IO(
            SocketIOMessage::SendMessage(event.to_owned(), message.to_owned()),
        )
    }

    /// The endpoint id of the owning session's mailbox.
    pub fn sender(&self) -> (r: EndpointId)
        ensures
            r == self@.sender,
    {
        self.sender
    }

    /// The rooms this socket was in when the handle was made: a snapshot,
    /// not the live set.
    pub fn rooms(&self) -> (r: &Vec<String>)
        ensures
            r@.map_values(|s: String| s@) == self@.rooms,
    {
        &self.rooms
    }

    /// Plans a room-scoped send that includes this socket when it is in the
    /// room: every member of `room_id` gets one delivery.
    pub fn emit_to(
        &self,
        registry: &RoomRegistry,
        adapter_installed: bool,
        room_id: &str,
        event: &str,
        message: &str,
    ) -> (r: DeliveryPlan)
        requires
            registry.inv(),
        ensures
            plan_matches(r, registry@, adapter_installed, room_id@, event@, message@, None),
            has_member(room_members(registry@, room_id@), self@.id) <==> exists|k: int|
                0 <= k < r.deliveries@.len() && (#[trigger] r.deliveries@[k]@.sid) == self@.id,
    {
        let r = plan_fanout(registry, adapter_installed, room_id, event, message, None);
        proof {
            let ms = room_members(registry@, room_id@);
            lemma_fanout_all(ms);
            if has_member(ms, self@.id) {
                let i = choose|i: int| 0 <= i < ms.len() && ms[i].0 == self@.id;
                assert(r.deliveries@[i]@.sid == self@.id);
            }
            if exists|k: int|
                0 <= k < r.deliveries@.len() && (#[trigger] r.deliveries@[k]@.sid) == self@.id {
                let k = choose|k: int|
                    0 <= k < r.deliveries@.len() && (#[trigger] r.deliveries@[k]@.sid)
                        == self@.id;
                assert(ms[k].0 == self@.id);
            }
        }
        r
    }

    /// Plans a room-scoped send that excludes this socket: every member of
    /// `room_id` other than this sid gets one delivery.
    pub fn broadcast_to(
        &self,
        registry: &RoomRegistry,
        adapter_installed: bool,
        room_id: &str,
        event: &str,
        message: &str,
    ) -> (r: DeliveryPlan)
        requires
            registry.inv(),
        ensures
            plan_matches(
                r,
                registry@,
                adapter_installed,
                room_id@,
                event@,
                message@,
                Some(self@.id),
            ),
            forall|k: int|
                0 <= k < r.deliveries@.len() ==> (#[trigger] r.deliveries@[k]@.sid) != self@.id,
    {
        let r = plan_fanout(registry, adapter_installed, room_id, event, message, Some(&self.id));
        proof {
            lemma_fanout_excludes(room_members(registry@, room_id@), self@.id);
        }
        r
    }
}

/// One planned delivery: the member it addresses and the mailbox message to
/// enqueue there.
pub struct Delivery {
    pub sid: String,
    pub endpoint: EndpointId,
    pub message: InternalMessage,
}

/// What a delivery holds, as contracts see it.
pub struct DeliveryView {
    pub sid: Seq<char>,
    pub endpoint: EndpointId,
    pub event: Seq<char>,
    pub payload: Seq<char>,
}

impl View for Delivery {
    type V = DeliveryView;

    closed spec fn view(&self) -> DeliveryView {
        DeliveryView {
            sid: self.sid@,
            endpoint: self.endpoint,
            event: match self.message {
                InternalMessage::IO(SocketIOMessage::SendMessage(ref e, _)) => e@,
                _ => Seq::empty(),
            },
            payload: match self.message {
                InternalMessage::IO(SocketIOMessage::SendMessage(_, ref p)) => p@,
                _ => Seq::empty(),
            },
        }
    }
}

impl Delivery {
    /// The planned delivery really is an application send.
    pub closed spec fn is_send(&self) -> bool {
        self.message matches InternalMessage::IO(SocketIOMessage::SendMessage(_, _))
    }
}

/// A planned room-scoped send: what to hand the installed adapter, if any,
/// and the local deliveries in room order.
pub struct DeliveryPlan {
    pub adapter_message: Option<SocketIOMessage>,
    pub deliveries: Vec<Delivery>,
}

/// The members of a room, or the empty sequence when the room is missing.
pub open spec fn room_members(m: RoomsMap, room: Seq<char>) -> MemberSeq {
    if m.contains_key(room) {
        m[room]
    } else {
        Seq::empty()
    }
}

/// The members kept by a fan-out: all of them, or all but one sid.
pub open spec fn spec_fanout(ms: MemberSeq, except: Option<Seq<char>>) -> MemberSeq
    decreases ms.len(),
{
    if ms.len() == 0 {
        Seq::empty()
    } else {
        let rest = spec_fanout(ms.drop_last(), except);
        if match except {
            Some(s) => ms.last().0 != s,
            None => true,
        } {
            rest.push(ms.last())
        } else {
            rest
        }
    }
}

/// A fan-out over all members keeps the member sequence unchanged.
pub proof fn lemma_fanout_all(ms: MemberSeq)
    ensures
        spec_fanout(ms, None::<Seq<char>>) == ms,
    decreases ms.len(),
{
    if ms.len() > 0 {
        lemma_fanout_all(ms.drop_last());
        assert(spec_fanout(ms, None::<Seq<char>>) =~= ms);
    } else {
        assert(spec_fanout(ms, None::<Seq<char>>) =~= ms);
    }
}

proof fn lemma_fanout_step(ms: MemberSeq, except: Option<Seq<char>>, i: int)
    requires
        0 <= i < ms.len(),
    ensures
        spec_fanout(ms.take(i + 1), except) == if (match except {
            Some(s) => ms[i].0 != s,
            None => true,
        }) {
            spec_fanout(ms.take(i), except).push(ms[i])
        } else {
            spec_fanout(ms.take(i), except)
        },
{
    assert(ms.take(i + 1).drop_last() =~= ms.take(i));
    assert(ms.take(i + 1).last() == ms[i]);
    assert(ms.take(i + 1).len() == i + 1);
}

/// No member kept by an excluding fan-out carries the excluded sid.
pub proof fn lemma_fanout_excludes(ms: MemberSeq, s: Seq<char>)
    ensures
        forall|k: int|
            0 <= k < spec_fanout(ms, Some(s)).len() ==> (#[trigger] spec_fanout(ms, Some(s))[k].0)
                != s,
    decreases ms.len(),
{
    if ms.len() > 0 {
        lemma_fanout_excludes(ms.drop_last(), s);
        let out = spec_fanout(ms, Some(s));
        let rest = spec_fanout(ms.drop_last(), Some(s));
        if ms.last().0 != s {
            assert(out == rest.push(ms.last()));
            assert forall|k: int| 0 <= k < out.len() implies out[k].0 != s by {
                if k < rest.len() {
                    assert(out[k] == rest[k]);
                } else {
                    assert(out[k] == ms.last());
                }
            }
        }
    }
}

/// The deliveries address exactly the kept members, in room order, each
/// with one application send of `event`/`message`.
pub open spec fn deliveries_match(
    ds: Seq<Delivery>,
    m: RoomsMap,
    room: Seq<char>,
    event: Seq<char>,
    message: Seq<char>,
    except: Option<Seq<char>>,
) -> bool {
    let kept = spec_fanout(room_members(m, room), except);
    &&& ds.len() == kept.len()
    &&& forall|k: int|
        0 <= k < kept.len() ==> (#[trigger] ds[k]@).sid == kept[k].0 && ds[k]@.endpoint
            == kept[k].1 && ds[k]@.event == event && ds[k]@.payload == message
    &&& forall|k: int| 0 <= k < kept.len() ==> (#[trigger] ds[k]).is_send()
}

/// The plan's deliveries address exactly the kept members, in room order,
/// each with one application send of `event`/`message`; the adapter is
/// handed the same send exactly when one is installed.
pub open spec fn plan_matches(
    r: DeliveryPlan,
    m: RoomsMap,
    adapter_installed: bool,
    room: Seq<char>,
    event: Seq<char>,
    message: Seq<char>,
    except: Option<Seq<char>>,
) -> bool {
    &&& if adapter_installed {
        r.adapter_message matches Some(am) && am matches SocketIOMessage::SendMessage(e, p)
            && e@ == event && p@ == message
    } else {
        r.adapter_message is None
    }
    &&& deliveries_match(r.deliveries@, m, room, event, message, except)
}

fn plan_fanout(
    registry: &RoomRegistry,
    adapter_installed: bool,
    room_id: &str,
    event: &str,
    message: &str,
    except: Option<&String>,
) -> (r: DeliveryPlan)
    requires
        registry.inv(),
    ensures
        plan_matches(
            r,
            registry@,
            adapter_installed,
            room_id@,
            event@,
            message@,
            match except {
                Some(s) => Some(s@),
                None => None,
            },
        ),
{
    let ghost except_view: Option<Seq<char>> = match except {
        Some(s) => Some(s@),
        None => None,
    };
    let adapter_message = if adapter_installed {
        Some(SocketIOMessage::SendMessage(event.to_owned(), message.to_owned()))
    } else {
        None
    };
    let mut deliveries: Vec<Delivery> = Vec::new();
    match registry.get_sockets_for_room(room_id) {
        Some(channels) => {
            let ghost ms = room_members(registry@, room_id@);
            let n = channels.len();
            let mut i: usize = 0;
            while i < n
                invariant
                    i <= n,
                    n == channels@.len(),
                    ms == channels@.map_values(|p: ChannelPair| p@),
                    ms == room_members(registry@, room_id@),
                    except_view == match except {
                        Some(s) => Some(s@),
                        None => None::<Seq<char>>,
                    },
                    deliveries@.len() == spec_fanout(ms.take(i as int), except_view).len(),
                    forall|k: int|
                        0 <= k < deliveries@.len() ==> (#[trigger] deliveries@[k]@).sid
                            == spec_fanout(ms.take(i as int), except_view)[k].0
                            && deliveries@[k]@.endpoint == spec_fanout(
                            ms.take(i as int),
                            except_view,
                        )[k].1 && deliveries@[k]@.event == event@ && deliveries@[k]@.payload
                            == message@,
                    forall|k: int|
                        0 <= k < deliveries@.len() ==> (#[trigger] deliveries@[k]).is_send(),
                decreases n - i,
            {
                proof {
                    assert(ms.take(i as int + 1).drop_last() =~= ms.take(i as int));
                    assert(ms.take(i as int + 1).last() == ms[i as int]);
                    assert(channels@[i as int]@ == ms[i as int]);
                }
                let channel = &channels[i];
                let keep = match except {
                    Some(s) => !crate::text::str_eq(channel.sid(), s.as_str()),
                    None => true,
                };
                proof {
                    lemma_fanout_step(ms, except_view, i as int);
                }
                let ghost pre = deliveries@;
                if keep {
                    let d = Delivery {
                        sid: channel.sid().to_owned(),
                        endpoint: channel.sender(),
                        message: InternalMessage::IO(
                            SocketIOMessage::SendMessage(event.to_owned(), message.to_owned()),
                        ),
                    };
                    proof {
                        assert(d@.sid == ms[i as int].0);
                        assert(d@.endpoint == ms[i as int].1);
                        assert(d@.event == event@);
                        assert(d@.payload == message@);
                        assert(d.is_send());
                    }
                    deliveries.push(d);
                    proof {
                        assert(deliveries@ == pre.push(d));
                        assert(spec_fanout(ms.take(i as int + 1), except_view) == spec_fanout(
                            ms.take(i as int),
                            except_view,
                        ).push(ms[i as int]));
                        assert(deliveries@.len() == spec_fanout(
                            ms.take(i as int + 1),
                            except_view,
                        ).len());
                    }
                } else {
                    proof {
                        assert(spec_fanout(ms.take(i as int + 1), except_view) == spec_fanout(
                            ms.take(i as int),
                            except_view,
                        ));
                    }
                }
                i = i + 1;
            }
            proof {
                assert(ms.take(n as int) =~= ms);
            }
        },
        None => {
            proof {
                assert(room_members(registry@, room_id@) =~= Seq::<
                    (Seq<char>, EndpointId),
                >::empty());
            }
        },
    }
    DeliveryPlan { adapter_message, deliveries }
}

/// Plans a send to every member of the room. This is the top-level
/// broadcast, tied to no particular sending socket.
pub fn broadcast(
    registry: &RoomRegistry,
    adapter_installed: bool,
    room_id: &str,
    event: &str,
    message: &str,
) -> (r: DeliveryPlan)
    requires
        registry.inv(),
    ensures
        plan_matches(r, registry@, adapter_installed, room_id@, event@, message@, None),
        r.deliveries@.len() == room_members(registry@, room_id@).len(),
{
    let r = plan_fanout(registry, adapter_installed, room_id, event, message, None);
    proof {
        lemma_fanout_all(room_members(registry@, room_id@));
    }
    r
}

/// What a session holds, as contracts see it: its sid, the endpoint id of
/// its mailbox, the outbound message counter, its rooms in join order, and
/// its handler table in registration order.
pub struct SessionView {
    pub sid: Seq<char>,
    pub endpoint: EndpointId,
    pub message_number: nat,
    pub rooms: Seq<Seq<char>>,
    pub handlers: Seq<(Seq<char>, Seq<HandlerId>)>,
}

/// The handlers registered for `ev`: the ids under the first table entry
/// whose event matches, or none.
pub open spec fn spec_handlers_for(h: Seq<(Seq<char>, Seq<HandlerId>)>, ev: Seq<char>) -> Seq<
    HandlerId,
>
    decreases h.len(),
{
    if h.len() == 0 {
        Seq::empty()
    } else if h[0].0 == ev {
        h[0].1
    } else {
        spec_handlers_for(h.drop_first(), ev)
    }
}

proof fn lemma_handlers_for_at(h: Seq<(Seq<char>, Seq<HandlerId>)>, ev: Seq<char>, i: int)
    requires
        0 <= i < h.len(),
        h[i].0 == ev,
        forall|j: int| 0 <= j < i ==> h[j].0 != ev,
    ensures
        spec_handlers_for(h, ev) == h[i].1,
    decreases i,
{
    if i > 0 {
        assert(h.drop_first()[i - 1] == h[i]);
        assert(forall|j: int| 0 <= j < i - 1 ==> #[trigger] h.drop_first()[j].0 != ev);
        lemma_handlers_for_at(h.drop_first(), ev, i - 1);
    }
}

proof fn lemma_handlers_for_absent(h: Seq<(Seq<char>, Seq<HandlerId>)>, ev: Seq<char>)
    requires
        forall|j: int| 0 <= j < h.len() ==> (#[trigger] h[j].0) != ev,
    ensures
        spec_handlers_for(h, ev) == Seq::<HandlerId>::empty(),
    decreases h.len(),
{
    if h.len() > 0 {
        assert(forall|j: int|
            0 <= j < h.drop_first().len() ==> (#[trigger] h.drop_first()[j].0) != ev);
        lemma_handlers_for_absent(h.drop_first(), ev);
    }
}

proof fn lemma_handlers_for_update(
    h: Seq<(Seq<char>, Seq<HandlerId>)>,
    i: int,
    ids2: Seq<HandlerId>,
    ev2: Seq<char>,
)
    requires
        0 <= i < h.len(),
        ev2 != h[i].0,
    ensures
        spec_handlers_for(h.update(i, (h[i].0, ids2)), ev2) == spec_handlers_for(h, ev2),
    decreases i,
{
    let h2 = h.update(i, (h[i].0, ids2));
    if i == 0 {
        assert(h2[0].0 == h[0].0);
        assert(h2.drop_first() =~= h.drop_first());
    } else {
        assert(h2[0] == h[0]);
        if h[0].0 != ev2 {
            assert(h2.drop_first() =~= h.drop_first().update(i - 1, (h[i].0, ids2)));
            assert(h.drop_first()[i - 1] == h[i]);
            lemma_handlers_for_update(h.drop_first(), i - 1, ids2, ev2);
        }
    }
}

proof fn lemma_handlers_for_push(
    h: Seq<(Seq<char>, Seq<HandlerId>)>,
    ev: Seq<char>,
    ids: Seq<HandlerId>,
    ev2: Seq<char>,
)
    requires
        ev2 != ev,
    ensures
        spec_handlers_for(h.push((ev, ids)), ev2) == spec_handlers_for(h, ev2),
    decreases h.len(),
{
    let h2 = h.push((ev, ids));
    if h.len() == 0 {
        assert(h2[0] == (ev, ids));
        assert(h2[0].0 != ev2);
        assert(spec_handlers_for(h2, ev2) == spec_handlers_for(h2.drop_first(), ev2));
        assert(h2.drop_first() =~= Seq::<(Seq<char>, Seq<HandlerId>)>::empty());
        assert(spec_handlers_for(h2.drop_first(), ev2) == Seq::<HandlerId>::empty());
    } else {
        assert(h2[0] == h[0]);
        if h[0].0 == ev2 {
            assert(spec_handlers_for(h2, ev2) == h2[0].1);
        } else {
            assert(spec_handlers_for(h2, ev2) == spec_handlers_for(h2.drop_first(), ev2));
            assert(h2.drop_first() =~= h.drop_first().push((ev, ids)));
            lemma_handlers_for_push(h.drop_first(), ev, ids, ev2);
        }
    }
}

proof fn lemma_handlers_for_push_absent(
    h: Seq<(Seq<char>, Seq<HandlerId>)>,
    ev: Seq<char>,
    ids: Seq<HandlerId>,
)
    requires
        forall|j: int| 0 <= j < h.len() ==> (#[trigger] h[j].0) != ev,
    ensures
        spec_handlers_for(h.push((ev, ids)), ev) == ids,
    decreases h.len(),
{
    let h2 = h.push((ev, ids));
    if h.len() == 0 {
        assert(h2[0] == (ev, ids));
    } else {
        assert(h2[0] == h[0]);
        assert(h2.drop_first() =~= h.drop_first().push((ev, ids)));
        assert(forall|j: int|
            0 <= j < h.drop_first().len() ==> (#[trigger] h.drop_first()[j].0) != ev);
        lemma_handlers_for_push_absent(h.drop_first(), ev, ids);
    }
}

/// What closing a session does to the registry: leave every room in the
/// session's list, front to back.
pub open spec fn spec_leave_all(m: RoomsMap, rooms: Seq<Seq<char>>, sid: Seq<char>) -> RoomsMap
    decreases rooms.len(),
{
    if rooms.len() == 0 {
        m
    } else {
        spec_leave_all(spec_leave(m, rooms[0], sid), rooms.drop_first(), sid)
    }
}

proof fn lemma_leave_all_keeps_absent(
    m: RoomsMap,
    rooms: Seq<Seq<char>>,
    sid: Seq<char>,
    r2: Seq<char>,
)
    requires
        m.contains_key(r2),
        !has_member(m[r2], sid),
    ensures
        spec_leave_all(m, rooms, sid).contains_key(r2),
        !has_member(spec_leave_all(m, rooms, sid)[r2], sid),
    decreases rooms.len(),
{
    if rooms.len() > 0 {
        crate::rooms::lemma_leave_keeps_absent(m, rooms[0], sid, r2);
        lemma_leave_all_keeps_absent(spec_leave(m, rooms[0], sid), rooms.drop_first(), sid, r2);
    }
}

/// After a session closes, none of the rooms it was in mentions its sid,
/// and every room stays free of duplicate sids.
pub proof fn lemma_leave_all_removes(m: RoomsMap, rooms: Seq<Seq<char>>, sid: Seq<char>)
    requires
        crate::rooms::rooms_wf(m),
    ensures
        crate::rooms::rooms_wf(spec_leave_all(m, rooms, sid)),
        forall|i: int|
            0 <= i < rooms.len() ==> spec_leave_all(m, rooms, sid).contains_key(
                #[trigger] rooms[i],
            ) && !has_member(spec_leave_all(m, rooms, sid)[rooms[i]], sid),
    decreases rooms.len(),
{
    if rooms.len() > 0 {
        let m1 = spec_leave(m, rooms[0], sid);
        crate::rooms::lemma_leave_wf(m, rooms[0], sid);
        if m.contains_key(rooms[0]) {
            crate::rooms::lemma_remove_member_unique(m[rooms[0]], sid);
        } else {
            assert(m1[rooms[0]] =~= Seq::<(Seq<char>, EndpointId)>::empty());
        }
        assert(m1.contains_key(rooms[0]) && !has_member(m1[rooms[0]], sid));
        lemma_leave_all_removes(m1, rooms.drop_first(), sid);
        lemma_leave_all_keeps_absent(m1, rooms.drop_first(), sid, rooms[0]);
        let out = spec_leave_all(m, rooms, sid);
        assert forall|i: int| 0 <= i < rooms.len() implies out.contains_key(#[trigger] rooms[i])
            && !has_member(out[rooms[i]], sid) by {
            if i > 0 {
                assert(rooms.drop_first()[i - 1] == rooms[i]);
            }
        }
    }
}

/// A session is registered, under its own sid, in every room of its list.
pub open spec fn session_linked(s: SessionView, m: RoomsMap) -> bool {
    forall|i: int|
        0 <= i < s.rooms.len() ==> m.contains_key(#[trigger] s.rooms[i]) && has_member(
            m[s.rooms[i]],
            s.sid,
        )
}

/// The session's own sid-room is in its room list.
pub open spec fn session_in_own_room(s: SessionView) -> bool {
    s.rooms.contains(s.sid)
}

/// A well-formed session: no room and no event is listed twice, and every
/// handler-table entry holds at least one handler.
pub open spec fn session_wf(s: SessionView) -> bool {
    &&& forall|i: int, j: int| 0 <= i < j < s.rooms.len() ==> s.rooms[i] != s.rooms[j]
    &&& forall|i: int, j: int| 0 <= i < j < s.handlers.len() ==> s.handlers[i].0 != s.handlers[j].0
    &&& forall|i: int| 0 <= i < s.handlers.len() ==> (#[trigger] s.handlers[i].1).len() >= 1
}

/// One sink-side action the embedding server must perform for a step.
pub enum SinkAction {
    /// Write this text frame.
    Text(String),
    /// Write a WebSocket-layer ping frame.
    WsPingFrame,
    /// Write a WebSocket-layer pong frame.
    WsPongFrame,
    /// Close the sink.
    CloseSink,
}

/// Handlers to spawn for one inbound event: each handler id runs with this
/// facade snapshot and payload.
pub struct HandlerSpawn {
    pub handlers: Vec<HandlerId>,
    pub socket: SocketIOSocket,
    pub message: String,
}

/// Everything one engine step asks of the embedding server: sink writes,
/// handler spawns, a message to requeue, and whether the session ends.
pub struct StepResult {
    pub actions: Vec<SinkAction>,
    pub spawn: Option<HandlerSpawn>,
    pub enqueue: Option<InternalMessage>,
    pub exit: bool,
    pub error: Option<FrameError>,
}

/// The step asked for nothing and the session goes on.
pub open spec fn quiet_result(r: StepResult) -> bool {
    &&& r.actions@.len() == 0
    &&& r.spawn is None
    &&& r.enqueue is None
    &&& !r.exit
}

/// The step ends the session: close the sink and stop.
pub open spec fn fatal_result(r: StepResult) -> bool {
    &&& r.actions@.len() == 1
    &&& r.actions@[0] is CloseSink
    &&& r.spawn is None
    &&& r.enqueue is None
    &&& r.exit
}

/// What handling one raw inbound text frame does, by prefix: `2` asks for a
/// pong on the mailbox, `3` is ignored, `42` parses and spawns the matching
/// handlers, `41` and `40` are informational, and anything else — a
/// malformed event frame included — tears the session down, deregistering
/// it from every room it was in.
pub open spec fn raw_step_ok(
    pre: SessionView,
    post: SessionView,
    m_pre: RoomsMap,
    m_post: RoomsMap,
    p: Seq<char>,
    r: StepResult,
) -> bool {
    if p.len() == 1 && p[0] == '2' {
        &&& post == pre
        &&& m_post == m_pre
        &&& r.actions@.len() == 0
        &&& r.spawn is None
        &&& r.enqueue matches Some(m) && m == InternalMessage::WS(WSSocketMessage::Pong)
        &&& !r.exit
        &&& r.error is None
    } else if p.len() == 1 && p[0] == '3' {
        &&& post == pre
        &&& m_post == m_pre
        &&& quiet_result(r)
        &&& r.error is None
    } else if p.len() >= 2 && p[0] == '4' && p[1] == '2' {
        match spec_parse_event(p) {
            Ok(pair) => {
                &&& post == pre
                &&& m_post == m_pre
                &&& r.actions@.len() == 0
                &&& r.enqueue is None
                &&& !r.exit
                &&& r.error is None
                &&& ({
                    let hs = spec_handlers_for(pre.handlers, pair.0);
                    if hs.len() > 0 {
                        r.spawn matches Some(sp) && sp.handlers@ == hs && sp.socket@.id == pre.sid
                            && sp.socket@.sender == pre.endpoint && sp.socket@.rooms == pre.rooms
                            && sp.message@ == pair.1
                    } else {
                        r.spawn is None
                    }
                })
            },
            Err(e) => {
                &&& post == pre
                &&& m_post == spec_leave_all(m_pre, pre.rooms, pre.sid)
                &&& fatal_result(r)
                &&& r.error == Some(e)
            },
        }
    } else if p.len() >= 2 && p[0] == '4' && (p[1] == '1' || p[1] == '0') {
        &&& post == pre
        &&& m_post == m_pre
        &&& quiet_result(r)
        &&& r.error is None
    } else {
        &&& post == pre
        &&& m_post == spec_leave_all(m_pre, pre.rooms, pre.sid)
        &&& fatal_result(r)
        &&& r.error == Some(
            if p.len() < 2 {
                FrameError::TooShort
            } else {
                FrameError::UnknownPrefix
            },
        )
    }
}

/// What one engine step does, by mailbox message: sends frame and bump the
/// counter, joins and leaves touch the room set and the registry, listener
/// registration grows the handler table, raw frames dispatch as
/// `raw_step_ok`, transport control answers on the sink, and `Close`
/// deregisters every room and ends the session.
pub open spec fn step_case_ok(
    pre: SessionView,
    post: SessionView,
    m_pre: RoomsMap,
    m_post: RoomsMap,
    msg: InternalMessage,
    r: StepResult,
) -> bool {
    match msg {
        InternalMessage::IO(io) => match io {
            SocketIOMessage::SendMessage(ev, pl) => {
                &&& post == SessionView { message_number: pre.message_number + 1, ..pre }
                &&& m_post == m_pre
                &&& r.actions@.len() == 1
                &&& r.actions@[0] matches SinkAction::Text(t) && t@ == spec_format_frame(
                    pre.message_number + 1,
                    ev@,
                    pl@,
                )
                &&& r.spawn is None
                &&& r.enqueue is None
                &&& !r.exit
                &&& r.error is None
            },
            SocketIOMessage::Join(room) => {
                &&& if pre.rooms.contains(room@) {
                    post == pre && m_post == m_pre
                } else {
                    post == SessionView { rooms: pre.rooms.push(room@), ..pre } && m_post
                        == spec_join(m_pre, room@, (pre.sid, pre.endpoint))
                }
                &&& quiet_result(r)
                &&& r.error is None
            },
            SocketIOMessage::Leave(room) => {
                &&& if pre.rooms.contains(room@) {
                    post == SessionView { rooms: pre.rooms.remove_value(room@), ..pre } && m_post
                        == spec_leave(m_pre, room@, pre.sid)
                } else {
                    post == pre && m_post == m_pre
                }
                &&& quiet_result(r)
                &&& r.error is None
            },
            SocketIOMessage::AddListener(ev, h) => {
                &&& post.sid == pre.sid
                &&& post.endpoint == pre.endpoint
                &&& post.message_number == pre.message_number
                &&& post.rooms == pre.rooms
                &&& m_post == m_pre
                &&& spec_handlers_for(post.handlers, ev@) == spec_handlers_for(
                    pre.handlers,
                    ev@,
                ).push(h)
                &&& forall|e2: Seq<char>|
                    e2 != ev@ ==> spec_handlers_for(post.handlers, e2) == spec_handlers_for(
                        pre.handlers,
                        e2,
                    )
                &&& quiet_result(r)
                &&& r.error is None
            },
            _ => {
                &&& post == pre
                &&& m_post == m_pre
                &&& quiet_result(r)
                &&& r.error is None
            },
        },
        InternalMessage::WS(ws) => match ws {
            WSSocketMessage::RawMessage(p) => raw_step_ok(pre, post, m_pre, m_post, p@, r),
            WSSocketMessage::Ping => {
                &&& post == pre
                &&& m_post == m_pre
                &&& r.actions@.len() == 1
                &&& r.actions@[0] matches SinkAction::Text(t) && t@ == "3"@
                &&& r.spawn is None
                &&& r.enqueue is None
                &&& !r.exit
                &&& r.error is None
            },
            WSSocketMessage::Pong => {
                &&& post == pre
                &&& m_post == m_pre
                &&& r.actions@.len() == 1
                &&& r.actions@[0] matches SinkAction::Text(t) && t@ == "2"@
                &&& r.spawn is None
                &&& r.enqueue is None
                &&& !r.exit
                &&& r.error is None
            },
            WSSocketMessage::WsPing => {
                &&& post == pre
                &&& m_post == m_pre
                &&& r.actions@.len() == 1
                &&& r.actions@[0] is WsPongFrame
                &&& r.spawn is None
                &&& r.enqueue is None
                &&& !r.exit
                &&& r.error is None
            },
            WSSocketMessage::WsPong => {
                &&& post == pre
                &&& m_post == m_pre
                &&& r.actions@.len() == 1
                &&& r.actions@[0] is WsPingFrame
                &&& r.spawn is None
                &&& r.enqueue is None
                &&& !r.exit
                &&& r.error is None
            },
            WSSocketMessage::Close => {
                &&& post == pre
                &&& m_post == spec_leave_all(m_pre, pre.rooms, pre.sid)
                &&& fatal_result(r)
                &&& r.error is None
            },
        },
    }
}

/// Installs the process-wide adapter: at most one is installed, and
/// installing replaces any prior one.
pub fn adapter(slot: &mut Option<crate::redis_pubsub::RedisAdapter>, new_adapter: crate::redis_pubsub::RedisAdapter)
    ensures
        *final(slot) matches Some(a) && a == new_adapter,
{
    *slot = Some(new_adapter);
}

fn string_list_index(list: &Vec<String>, x: &str) -> (r: Option<usize>)
    ensures
        match r {
            Some(i) => i < list@.len() && list@[i as int]@ == x@ && forall|j: int|
                0 <= j < i ==> (#[trigger] list@[j]@) != x@,
            None => forall|j: int| 0 <= j < list@.len() ==> (#[trigger] list@[j]@) != x@,
        },
{
    let n = list.len();
    let mut i: usize = 0;
    while i < n
        invariant
            i <= n,
            n == list@.len(),
            forall|j: int| 0 <= j < i ==> (#[trigger] list@[j]@) != x@,
        decreases n - i,
    {
        if str_eq(list[i].as_str(), x) {
            return Some(i);
        }
        i = i + 1;
    }
    None
}

fn clone_strings(v: &Vec<String>) -> (r: Vec<String>)
    ensures
        r@ == v@,
{
    let n = v.len();
    let mut out: Vec<String> = Vec::new();
    let mut i: usize = 0;
    while i < n
        invariant
            i <= n,
            n == v@.len(),
            out@ == v@.take(i as int),
        decreases n - i,
    {
        out.push(v[i].clone());
        proof {
            assert(out@ =~= v@.take(i as int + 1));
        }
        i = i + 1;
    }
    proof {
        assert(v@.take(n as int) =~= v@);
    }
    out
}

fn clone_ids(v: &Vec<HandlerId>) -> (r: Vec<HandlerId>)
    ensures
        r@ == v@,
{
    let n = v.len();
    let mut out: Vec<HandlerId> = Vec::new();
    let mut i: usize = 0;
    while i < n
        invariant
            i <= n,
            n == v@.len(),
            out@ == v@.take(i as int),
        decreases n - i,
    {
        out.push(v[i]);
        proof {
            assert(out@ =~= v@.take(i as int + 1));
        }
        i = i + 1;
    }
    proof {
        assert(v@.take(n as int) =~= v@);
    }
    out
}

fn no_effect_result() -> (r: StepResult)
    ensures
        quiet_result(r),
        r.error is None,
{
    StepResult { actions: Vec::new(), spawn: None, enqueue: None, exit: false, error: None }
}

struct EventHandlers {
    event: String,
    handlers: Vec<HandlerId>,
}

fn handler_list_index(list: &Vec<EventHandlers>, ev: &str) -> (r: Option<usize>)
    ensures
        match r {
            Some(i) => i < list@.len() && list@[i as int].event@ == ev@ && forall|j: int|
                0 <= j < i ==> (#[trigger] list@[j].event@) != ev@,
            None => forall|j: int| 0 <= j < list@.len() ==> (#[trigger] list@[j].event@) != ev@,
        },
{
    let n = list.len();
    let mut i: usize = 0;
    while i < n
        invariant
            i <= n,
            n == list@.len(),
            forall|j: int| 0 <= j < i ==> (#[trigger] list@[j].event@) != ev@,
        decreases n - i,
    {
        if str_eq(list[i].event.as_str(), ev) {
            return Some(i);
        }
        i = i + 1;
    }
    None
}

/// The per-session engine: the single consumer of the session's mailbox
/// and the only mutator of its room set, counter, and handler table. The
/// embedding server owns the WebSocket sink and performs the actions each
/// step returns.
pub struct SocketIOWrapper {
    sid: String,
    endpoint: EndpointId,
    message_number: u64,
    rooms: Vec<String>,
    event_handlers: Vec<EventHandlers>,
}

impl View for SocketIOWrapper {
    type V = SessionView;

    closed spec fn view(&self) -> SessionView {
        SessionView {
            sid: self.sid@,
            endpoint: self.endpoint,
            message_number: self.message_number as nat,
            rooms: self.rooms@.map_values(|s: String| s@),
            handlers: self.event_handlers@.map_values(
                |e: EventHandlers| (e.event@, e.handlers@),
            ),
        }
    }
}

impl SocketIOWrapper {
    /// Opens a session: the fresh engine has counter zero, no handlers, and
    /// is joined to its own sid-room, in its room set and in the registry.
    pub fn new(sid: String, endpoint: EndpointId, registry: &mut RoomRegistry) -> (r: Self)
        requires
            old(registry).inv(),
        ensures
            final(registry).inv(),
            session_wf(r@),
            r@.sid == sid@,
            r@.endpoint == endpoint,
            r@.message_number == 0,
            r@.rooms == seq![sid@],
            r@.handlers == Seq::<(Seq<char>, Seq<HandlerId>)>::empty(),
            final(registry)@ == spec_join(old(registry)@, sid@, (sid@, endpoint)),
            session_linked(r@, final(registry)@),
            session_in_own_room(r@),
    {
        registry.join_channel_to_room(sid.as_str(), ChannelPair::new(sid.as_str(), endpoint));
        let mut rooms: Vec<String> = Vec::new();
        rooms.push(sid.clone());
        let r = SocketIOWrapper {
            sid,
            endpoint,
            message_number: 0,
            rooms,
            event_handlers: Vec::new(),
        };
        proof {
            assert(r@.rooms =~= seq![r@.sid]);
            assert(r@.handlers =~= Seq::<(Seq<char>, Seq<HandlerId>)>::empty());
            crate::rooms::lemma_join_member(old(registry)@, r@.sid, (r@.sid, endpoint));
            assert(r@.rooms[0] == r@.sid);
        }
        r
    }

    /// The endpoint id under which the embedding server reaches this
    /// session's mailbox.
    pub fn sender(&self) -> (r: EndpointId)
        ensures
            r == self@.endpoint,
    {
        self.endpoint
    }

    /// The outbound message counter as of now.
    pub fn message_number(&self) -> (r: u64)
        ensures
            r == self@.message_number,
    {
        self.message_number
    }

    fn do_send(&mut self, event: String, message: String) -> (r: StepResult)
        requires
            old(self)@.message_number < u64::MAX,
        ensures
            final(self)@ == (SessionView {
                message_number: old(self)@.message_number + 1,
                ..old(self)@
            }),
            r.actions@.len() == 1,
            r.actions@[0] matches SinkAction::Text(t) && t@ == spec_format_frame(
                old(self)@.message_number + 1,
                event@,
                message@,
            ),
            r.spawn is None,
            r.enqueue is None,
            !r.exit,
            r.error is None,
    {
        self.message_number = self.message_number + 1;
        let frame = format_event_frame(self.message_number, event.as_str(), message.as_str());
        let mut actions: Vec<SinkAction> = Vec::new();
        actions.push(SinkAction::Text(frame));
        StepResult { actions, spawn: None, enqueue: None, exit: false, error: None }
    }

    fn do_join(&mut self, registry: &mut RoomRegistry, room: String) -> (r: StepResult)
        requires
            session_wf(old(self)@),
            old(registry).inv(),
        ensures
            session_wf(final(self)@),
            final(registry).inv(),
            if old(self)@.rooms.contains(room@) {
                final(self)@ == old(self)@ && final(registry)@ == old(registry)@
            } else {
                final(self)@ == (SessionView { rooms: old(self)@.rooms.push(room@), ..old(self)@ })
                    && final(registry)@ == spec_join(
                    old(registry)@,
                    room@,
                    (old(self)@.sid, old(self)@.endpoint),
                )
            },
            quiet_result(r),
            r.error is None,
    {
        let found = string_list_index(&self.rooms, room.as_str());
        match found {
            Some(i) => {
                proof {
                    assert(old(self)@.rooms[i as int] == room@);
                }
            },
            None => {
                proof {
                    assert(forall|j: int|
                        0 <= j < old(self)@.rooms.len() ==> (#[trigger] old(self)@.rooms[j])
                            != room@);
                }
                registry.join_channel_to_room(
                    room.as_str(),
                    ChannelPair::new(self.sid.as_str(), self.endpoint),
                );
                self.rooms.push(room);
                proof {
                    assert(self@.rooms =~= old(self)@.rooms.push(self.rooms@.last()@));
                }
            },
        }
        no_effect_result()
    }

    fn do_leave(&mut self, registry: &mut RoomRegistry, room: String) -> (r: StepResult)
        requires
            session_wf(old(self)@),
            old(registry).inv(),
        ensures
            session_wf(final(self)@),
            final(registry).inv(),
            if old(self)@.rooms.contains(room@) {
                final(self)@ == (SessionView {
                    rooms: old(self)@.rooms.remove_value(room@),
                    ..old(self)@
                }) && final(registry)@ == spec_leave(old(registry)@, room@, old(self)@.sid)
            } else {
                final(self)@ == old(self)@ && final(registry)@ == old(registry)@
            },
            quiet_result(r),
            r.error is None,
    {
        let ghost rv = self@.rooms;
        let found = string_list_index(&self.rooms, room.as_str());
        match found {
            Some(i) => {
                proof {
                    assert(rv[i as int] == room@);
                    assert(rv.contains(room@));
                    rv.index_of_first_ensures(room@);
                    match rv.index_of_first(room@) {
                        Some(idx) => {
                            assert(rv[i as int] == room@);
                            if idx < i {
                                assert(rv[idx] != room@);
                            }
                            if i < idx {
                                assert(rv[i as int] != room@);
                            }
                            assert(idx == i as int);
                        },
                        None => {
                            assert(false);
                        },
                    }
                }
                let ghost v0 = self.rooms@;
                self.rooms.remove(i);
                registry.remove_socket_from_room(room.as_str(), self.sid.as_str());
                proof {
                    assert forall|k: int| 0 <= k < self.rooms@.len() implies self@.rooms[k]
                        == rv.remove(i as int)[k] by {
                        if k < i {
                            assert(self.rooms@[k] == v0[k]);
                        } else {
                            assert(self.rooms@[k] == v0[k + 1]);
                        }
                    }
                    assert(self@.rooms =~= rv.remove(i as int));
                    assert(self@.rooms == rv.remove_value(room@));
                    assert forall|a: int, b: int| 0 <= a < b < self@.rooms.len() implies self@
                        .rooms[a] != self@.rooms[b] by {
                        let sa = if a < i { a } else { a + 1 };
                        let sb = if b < i { b } else { b + 1 };
                        assert(self@.rooms[a] == rv[sa]);
                        assert(self@.rooms[b] == rv[sb]);
                    }
                }
            },
            None => {
                proof {
                    assert(!old(self)@.rooms.contains(room@));
                }
            },
        }
        no_effect_result()
    }

    fn do_add_listener(&mut self, event: String, handler: HandlerId) -> (r: StepResult)
        requires
            session_wf(old(self)@),
        ensures
            session_wf(final(self)@),
            final(self)@.sid == old(self)@.sid,
            final(self)@.endpoint == old(self)@.endpoint,
            final(self)@.message_number == old(self)@.message_number,
            final(self)@.rooms == old(self)@.rooms,
            spec_handlers_for(final(self)@.handlers, event@) == spec_handlers_for(
                old(self)@.handlers,
                event@,
            ).push(handler),
            forall|e2: Seq<char>|
                e2 != event@ ==> spec_handlers_for(final(self)@.handlers, e2) == spec_handlers_for(
                    old(self)@.handlers,
                    e2,
                ),
            quiet_result(r),
            r.error is None,
    {
        let ghost h0 = self@.handlers;
        let found = handler_list_index(&self.event_handlers, event.as_str());
        match found {
            Some(i) => {
                let ghost e0 = self.event_handlers@;
                let mut entry = self.event_handlers.remove(i);
                entry.handlers.push(handler);
                self.event_handlers.insert(i, entry);
                proof {
                    assert(self.event_handlers@ =~= e0.update(
                        i as int,
                        self.event_handlers@[i as int],
                    ));
                    let upd = (h0[i as int].0, h0[i as int].1.push(handler));
                    assert forall|k: int| 0 <= k < self@.handlers.len() implies self@.handlers[k]
                        == h0.update(i as int, upd)[k] by {
                        if k != i {
                            assert(self.event_handlers@[k] == e0[k]);
                        }
                    }
                    assert(self@.handlers =~= h0.update(i as int, upd));
                    lemma_handlers_for_at(h0, event@, i as int);
                    lemma_handlers_for_at(self@.handlers, event@, i as int);
                    assert(spec_handlers_for(self@.handlers, event@) == h0[i as int].1.push(
                        handler,
                    ));
                    assert forall|e2: Seq<char>| e2 != event@ implies spec_handlers_for(
                        self@.handlers,
                        e2,
                    ) == spec_handlers_for(h0, e2) by {
                        lemma_handlers_for_update(h0, i as int, upd.1, e2);
                    }
                    assert forall|a: int, b: int|
                        0 <= a < b < self@.handlers.len() implies self@.handlers[a].0 != self@
                        .handlers[b].0 by {
                        assert(self@.handlers[a].0 == h0[a].0);
                        assert(self@.handlers[b].0 == h0[b].0);
                    }
                    assert forall|k: int| 0 <= k < self@.handlers.len() implies (#[trigger] self@
                        .handlers[k].1).len() >= 1 by {
                        if k != i {
                            assert(self@.handlers[k] == h0[k]);
                        }
                    }
                }
            },
            None => {
                let mut ids: Vec<HandlerId> = Vec::new();
                ids.push(handler);
                let ghost e0 = self.event_handlers@;
                self.event_handlers.push(EventHandlers { event, handlers: ids });
                proof {
                    let added = (self.event_handlers@.last().event@, seq![handler]);
                    assert(self.event_handlers@.last().handlers@ =~= seq![handler]);
                    assert(self@.handlers =~= h0.push(added));
                    assert(forall|j: int| 0 <= j < h0.len() ==> (#[trigger] h0[j].0) != added.0);
                    lemma_handlers_for_push_absent(h0, added.0, seq![handler]);
                    lemma_handlers_for_absent(h0, added.0);
                    assert(spec_handlers_for(h0, added.0).push(handler) =~= seq![handler]);
                    assert forall|e2: Seq<char>| e2 != added.0 implies spec_handlers_for(
                        self@.handlers,
                        e2,
                    ) == spec_handlers_for(h0, e2) by {
                        lemma_handlers_for_push(h0, added.0, seq![handler], e2);
                    }
                    assert forall|a: int, b: int|
                        0 <= a < b < self@.handlers.len() implies self@.handlers[a].0 != self@
                        .handlers[b].0 by {
                        assert(self@.handlers[a].0 == h0[a].0);
                        if b < h0.len() {
                            assert(self@.handlers[b].0 == h0[b].0);
                        } else {
                            assert(self@.handlers[b] == added);
                        }
                    }
                    assert forall|k: int| 0 <= k < self@.handlers.len() implies (#[trigger] self@
                        .handlers[k].1).len() >= 1 by {
                        if k < h0.len() {
                            assert(self@.handlers[k] == h0[k]);
                        } else {
                            assert(self@.handlers[k] == added);
                        }
                    }
                }
            },
        }
        proof {
            assert(self@.rooms == old(self)@.rooms);
            assert forall|a: int, b: int| 0 <= a < b < self@.rooms.len() implies self@.rooms[a]
                != self@.rooms[b] by {
                assert(self@.rooms[a] == old(self)@.rooms[a]);
                assert(self@.rooms[b] == old(self)@.rooms[b]);
            }
        }
        no_effect_result()
    }

    fn do_close(&mut self, registry: &mut RoomRegistry) -> (r: StepResult)
        requires
            old(registry).inv(),
        ensures
            final(self)@ == old(self)@,
            final(registry).inv(),
            final(registry)@ == spec_leave_all(old(registry)@, old(self)@.rooms, old(self)@.sid),
            fatal_result(r),
            r.error is None,
    {
        let ghost m0 = registry@;
        let ghost rv = self@.rooms;
        proof {
            assert(rv.skip(0) =~= rv);
        }
        let n = self.rooms.len();
        let mut i: usize = 0;
        while i < n
            invariant
                i <= n,
                n == self.rooms@.len(),
                registry.inv(),
                *self == *old(self),
                rv == self@.rooms,
                spec_leave_all(m0, rv, self@.sid) == spec_leave_all(
                    registry@,
                    rv.skip(i as int),
                    self@.sid,
                ),
            decreases n - i,
        {
            proof {
                assert(rv.skip(i as int)[0] == rv[i as int]);
                assert(rv.skip(i as int).drop_first() =~= rv.skip(i as int + 1));
                assert(rv[i as int] == self.rooms@[i as int]@);
            }
            registry.remove_socket_from_room(self.rooms[i].as_str(), self.sid.as_str());
            i = i + 1;
        }
        proof {
            assert(rv.skip(n as int) =~= Seq::<Seq<char>>::empty());
        }
        let mut actions: Vec<SinkAction> = Vec::new();
        actions.push(SinkAction::CloseSink);
        StepResult { actions, spawn: None, enqueue: None, exit: true, error: None }
    }

    fn fatal(&mut self, registry: &mut RoomRegistry, e: FrameError) -> (r: StepResult)
        requires
            old(registry).inv(),
        ensures
            final(self)@ == old(self)@,
            final(registry).inv(),
            final(registry)@ == spec_leave_all(old(registry)@, old(self)@.rooms, old(self)@.sid),
            fatal_result(r),
            r.error == Some(e),
    {
        let closed = self.do_close(registry);
        StepResult {
            actions: closed.actions,
            spawn: None,
            enqueue: None,
            exit: true,
            error: Some(e),
        }
    }

    fn do_raw(&mut self, registry: &mut RoomRegistry, payload: String) -> (r: StepResult)
        requires
            session_wf(old(self)@),
            old(registry).inv(),
        ensures
            session_wf(final(self)@),
            final(registry).inv(),
            raw_step_ok(old(self)@, final(self)@, old(registry)@, final(registry)@, payload@, r),
    {
        let p = payload.as_str();
        let n = p.unicode_len();
        if n == 1 && p.get_char(0) == '2' {
            let mut out = no_effect_result();
            out.enqueue = Some(InternalMessage::WS(WSSocketMessage::Pong));
            return out;
        }
        if n == 1 && p.get_char(0) == '3' {
            return no_effect_result();
        }
        if n >= 2 && p.get_char(0) == '4' && p.get_char(1) == '2' {
            match parse_socketio_message(p) {
                Ok(pair) => {
                    let (ev, pl) = pair;
                    let found = handler_list_index(&self.event_handlers, ev.as_str());
                    match found {
                        Some(i) => {
                            proof {
                                lemma_handlers_for_at(self@.handlers, ev@, i as int);
                            }
                            let ids = clone_ids(&self.event_handlers[i].handlers);
                            let socket = SocketIOSocket::with_rooms(
                                self.sid.clone(),
                                self.endpoint,
                                clone_strings(&self.rooms),
                            );
                            let spawn = HandlerSpawn { handlers: ids, socket, message: pl };
                            return StepResult {
                                actions: Vec::new(),
                                spawn: Some(spawn),
                                enqueue: None,
                                exit: false,
                                error: None,
                            };
                        },
                        None => {
                            proof {
                                lemma_handlers_for_absent(self@.handlers, ev@);
                            }
                            return no_effect_result();
                        },
                    }
                },
                Err(e) => {
                    return self.fatal(registry, e);
                },
            }
        }
        if n >= 2 && p.get_char(0) == '4' && (p.get_char(1) == '1' || p.get_char(1) == '0') {
            return no_effect_result();
        }
        if n < 2 {
            self.fatal(registry, FrameError::TooShort)
        } else {
            self.fatal(registry, FrameError::UnknownPrefix)
        }
    }

    /// Runs one engine step on a mailbox message: the heart of the session
    /// loop. The counter never decreases and grows exactly on application
    /// sends; a registered session stays registered through every step that
    /// neither ends the session nor leaves its own sid-room.
    pub fn listen_step(&mut self, registry: &mut RoomRegistry, msg: InternalMessage) -> (r:
        StepResult)
        requires
            session_wf(old(self)@),
            old(registry).inv(),
            old(self)@.message_number < u64::MAX,
        ensures
            session_wf(final(self)@),
            final(registry).inv(),
            final(self)@.sid == old(self)@.sid,
            final(self)@.endpoint == old(self)@.endpoint,
            final(self)@.message_number >= old(self)@.message_number,
            (final(self)@.message_number > old(self)@.message_number) <==> msg matches
                InternalMessage::IO(SocketIOMessage::SendMessage(_, _)),
            step_case_ok(old(self)@, final(self)@, old(registry)@, final(registry)@, msg, r),
            session_linked(old(self)@, old(registry)@) && !r.exit && !(msg matches
                InternalMessage::IO(SocketIOMessage::Leave(rm)) && rm@ == old(self)@.sid)
                ==> session_linked(final(self)@, final(registry)@),
            session_in_own_room(old(self)@) && !(msg matches InternalMessage::IO(
                SocketIOMessage::Leave(rm2),
            ) && rm2@ == old(self)@.sid) ==> session_in_own_room(final(self)@),
    {
        let ghost pre = self@;
        let ghost m0 = registry@;
        match msg {
            InternalMessage::IO(io) => match io {
                SocketIOMessage::SendMessage(ev, pl) => self.do_send(ev, pl),
                SocketIOMessage::Join(room) => {
                    let ghost room_v = room@;
                    let r = self.do_join(registry, room);
                    proof {
                        if session_linked(pre, m0) {
                            lemma_step_join_linked(pre, self@, m0, registry@);
                        }
                        if session_in_own_room(pre) {
                            let k = choose|k: int|
                                0 <= k < pre.rooms.len() && pre.rooms[k] == pre.sid;
                            assert(self@.rooms[k] == pre.sid);
                        }
                    }
                    r
                },
                SocketIOMessage::Leave(room) => {
                    let ghost room_v = room@;
                    let r = self.do_leave(registry, room);
                    proof {
                        if pre.rooms.contains(room_v) && room_v != pre.sid {
                            pre.rooms.index_of_first_ensures(room_v);
                            let j = pre.rooms.index_of_first(room_v)->Some_0;
                            if session_linked(pre, m0) {
                                assert forall|k: int|
                                    0 <= k < self@.rooms.len() implies registry@.contains_key(
                                    #[trigger] self@.rooms[k],
                                ) && has_member(registry@[self@.rooms[k]], self@.sid) by {
                                    let sk = if k < j {
                                        k
                                    } else {
                                        k + 1
                                    };
                                    assert(self@.rooms[k] == pre.rooms[sk]);
                                    assert(pre.rooms[sk] != room_v);
                                    crate::rooms::lemma_leave_preserves_other(
                                        m0,
                                        room_v,
                                        pre.sid,
                                        pre.rooms[sk],
                                        pre.sid,
                                    );
                                }
                            }
                            if session_in_own_room(pre) {
                                let k = choose|k: int|
                                    0 <= k < pre.rooms.len() && pre.rooms[k] == pre.sid;
                                assert(pre.rooms[j] == room_v);
                                assert(k != j);
                                if k < j {
                                    assert(self@.rooms[k] == pre.sid);
                                } else {
                                    assert(self@.rooms[k - 1] == pre.rooms[k]);
                                }
                            }
                        }
                    }
                    r
                },
                SocketIOMessage::AddListener(ev, h) => {
                    let r = self.do_add_listener(ev, h);
                    r
                },
                SocketIOMessage::Message(_, _) => no_effect_result(),
                SocketIOMessage::Close => no_effect_result(),
                SocketIOMessage::Pong => no_effect_result(),
                SocketIOMessage::WsPong => no_effect_result(),
            },
            InternalMessage::WS(ws) => match ws {
                WSSocketMessage::RawMessage(p) => self.do_raw(registry, p),
                WSSocketMessage::Ping => {
                    let mut actions: Vec<SinkAction> = Vec::new();
                    actions.push(SinkAction::Text("3".to_owned()));
                    StepResult { actions, spawn: None, enqueue: None, exit: false, error: None }
                },
                WSSocketMessage::Pong => {
                    let mut actions: Vec<SinkAction> = Vec::new();
                    actions.push(SinkAction::Text("2".to_owned()));
                    StepResult { actions, spawn: None, enqueue: None, exit: false, error: None }
                },
                WSSocketMessage::WsPing => {
                    let mut actions: Vec<SinkAction> = Vec::new();
                    actions.push(SinkAction::WsPongFrame);
                    StepResult { actions, spawn: None, enqueue: None, exit: false, error: None }
                },
                WSSocketMessage::WsPong => {
                    let mut actions: Vec<SinkAction> = Vec::new();
                    actions.push(SinkAction::WsPingFrame);
                    StepResult { actions, spawn: None, enqueue: None, exit: false, error: None }
                },
                WSSocketMessage::Close => self.do_close(registry),
            },
        }
    }
}

/// Another session's join never unregisters this one: every room this
/// session is linked under stays linked.
pub proof fn lemma_linked_after_join(
    s: SessionView,
    m: RoomsMap,
    r: Seq<char>,
    p: (Seq<char>, EndpointId),
)
    requires
        session_linked(s, m),
    ensures
        session_linked(s, spec_join(m, r, p)),
{
    assert forall|i: int| 0 <= i < s.rooms.len() implies spec_join(m, r, p).contains_key(
        #[trigger] s.rooms[i],
    ) && has_member(spec_join(m, r, p)[s.rooms[i]], s.sid) by {
        crate::rooms::lemma_join_preserves(m, r, p, s.rooms[i], s.sid);
    }
}

/// Another session's leave never unregisters this one, since it removes
/// only its own sid.
pub proof fn lemma_linked_after_leave(
    s: SessionView,
    m: RoomsMap,
    r: Seq<char>,
    sid2: Seq<char>,
)
    requires
        session_linked(s, m),
        sid2 != s.sid,
    ensures
        session_linked(s, spec_leave(m, r, sid2)),
{
    assert forall|i: int| 0 <= i < s.rooms.len() implies spec_leave(m, r, sid2).contains_key(
        #[trigger] s.rooms[i],
    ) && has_member(spec_leave(m, r, sid2)[s.rooms[i]], s.sid) by {
        crate::rooms::lemma_leave_preserves_other(m, r, sid2, s.rooms[i], s.sid);
    }
}

/// Another session's close never unregisters this one.
pub proof fn lemma_linked_after_leave_all(
    s: SessionView,
    m: RoomsMap,
    rooms: Seq<Seq<char>>,
    sid2: Seq<char>,
)
    requires
        session_linked(s, m),
        sid2 != s.sid,
    ensures
        session_linked(s, spec_leave_all(m, rooms, sid2)),
    decreases rooms.len(),
{
    if rooms.len() > 0 {
        lemma_linked_after_leave(s, m, rooms[0], sid2);
        lemma_linked_after_leave_all(s, spec_leave(m, rooms[0], sid2), rooms.drop_first(), sid2);
    }
}

/// Joining a room and then leaving it leaves the session's room set
/// without any mention of that room, whatever the starting set was.
pub proof fn lemma_room_set_join_then_leave(rooms: Seq<Seq<char>>, r: Seq<char>)
    requires
        forall|i: int, j: int| 0 <= i < j < rooms.len() ==> rooms[i] != rooms[j],
    ensures
        !({
            let joined = if rooms.contains(r) {
                rooms
            } else {
                rooms.push(r)
            };
            joined.remove_value(r)
        }).contains(r),
{
    let joined = if rooms.contains(r) {
        rooms
    } else {
        rooms.push(r)
    };
    assert(joined.contains(r)) by {
        if !rooms.contains(r) {
            assert(joined[joined.len() - 1] == r);
        }
    }
    assert forall|i: int, j: int| 0 <= i < j < joined.len() implies joined[i] != joined[j] by {
        if !rooms.contains(r) && j == joined.len() - 1 {
            assert(joined[i] == rooms[i]);
        }
    }
    joined.index_of_first_ensures(r);
    let k = joined.index_of_first(r)->Some_0;
    let out = joined.remove(k);
    assert forall|i: int| 0 <= i < out.len() implies out[i] != r by {
        if i < k {
            assert(out[i] == joined[i]);
        } else {
            assert(out[i] == joined[i + 1]);
        }
    }
}

proof fn lemma_step_join_linked(pre: SessionView, post: SessionView, m0: RoomsMap, m1: RoomsMap)
    requires
        session_linked(pre, m0),
        post.sid == pre.sid,
        post.endpoint == pre.endpoint,
        if pre.rooms.contains(post.rooms.last()) {
            post == pre && m1 == m0
        } else {
            post.rooms.len() >= 1 && post.rooms == pre.rooms.push(post.rooms.last()) && m1
                == spec_join(m0, post.rooms.last(), (pre.sid, pre.endpoint))
        },
    ensures
        session_linked(post, m1),
{
    if pre.rooms.contains(post.rooms.last()) {
    } else {
        let room = post.rooms.last();
        let p = (pre.sid, pre.endpoint);
        assert forall|i: int| 0 <= i < post.rooms.len() implies m1.contains_key(
            #[trigger] post.rooms[i],
        ) && has_member(m1[post.rooms[i]], post.sid) by {
            if i < pre.rooms.len() {
                assert(post.rooms[i] == pre.rooms[i]);
                crate::rooms::lemma_join_preserves(m0, room, p, pre.rooms[i], pre.sid);
            } else {
                assert(post.rooms[i] == room);
                crate::rooms::lemma_join_member(m0, room, p);
            }
        }
    }
}

} // verus!
