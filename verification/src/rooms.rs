//! The room registry: a mapping from room id to the sequence of
//! (sid, mailbox endpoint) pairs of the sockets currently joined to it.
//!
//! Joining inserts a pair only if no pair with the same sid is already in
//! the room; leaving removes the first pair whose sid matches and does
//! nothing when the sid is absent. Within any room each sid therefore
//! appears at most once.

use vstd::prelude::*;

verus! {

use vstd::string::StringExecFns;
use crate::text::str_eq;
use crate::text::spec_u64_string;
use crate::text::u64_to_string;

/// Names the mailbox send-endpoint of one session. The embedding server
/// keeps the actual channel under this id; the registry stores the id.
pub type EndpointId = u64;

/// The members of one room, as the registry's contracts see them: each
/// member is the pair of its sid and its endpoint id.
pub type MemberSeq = Seq<(Seq<char>, EndpointId)>;

/// The whole registry, as its contracts see it.
pub type RoomsMap = Map<Seq<char>, MemberSeq>;

/// What the registry stores per member: a sid and the endpoint id under
/// which the embedding server reaches that session's mailbox.
pub struct ChannelPair {
    sid: String,
    sender: EndpointId,
}

impl View for ChannelPair {
    type V = (Seq<char>, EndpointId);

    closed spec fn view(&self) -> (Seq<char>, EndpointId) {
        (self.sid@, self.sender)
    }
}

impl ChannelPair {
    pub fn new(sid: &str, sender: EndpointId) -> (r: Self)
        ensures
            r@ == (sid@, sender),
    {
        ChannelPair { sid: sid.to_owned(), sender }
    }

    pub fn sid(&self) -> (r: &str)
        ensures
            r@ == self@.0,
    {
        self.sid.as_str()
    }

    pub fn sender(&self) -> (r: EndpointId)
        ensures
            r == self@.1,
    {
        self.sender
    }
}

struct RoomEntry {
    room_id: String,
    members: Vec<ChannelPair>,
}

spec fn entry_members(e: RoomEntry) -> MemberSeq {
    e.members@.map_values(|p: ChannelPair| p@)
}

spec fn rooms_map(s: Seq<RoomEntry>) -> RoomsMap
    decreases s.len(),
{
    if s.len() == 0 {
        Map::empty()
    } else {
        rooms_map(s.drop_last()).insert(s.last().room_id@, entry_members(s.last()))
    }
}

/// The first index at or after `from` whose member carries `sid`, if any.
pub open spec fn spec_find_member(ms: MemberSeq, sid: Seq<char>, from: int) -> Option<int>
    decreases ms.len() - from,
{
    if !(0 <= from < ms.len()) {
        None
    } else if ms[from].0 == sid {
        Some(from)
    } else {
        spec_find_member(ms, sid, from + 1)
    }
}

/// Some member of `ms` carries `sid`.
pub open spec fn has_member(ms: MemberSeq, sid: Seq<char>) -> bool {
    exists|i: int| 0 <= i < ms.len() && ms[i].0 == sid
}

/// `ms` with the first member carrying `sid` removed; `ms` itself when no
/// member carries it.
pub open spec fn remove_member(ms: MemberSeq, sid: Seq<char>) -> MemberSeq {
    match spec_find_member(ms, sid, 0) {
        Some(i) => ms.remove(i),
        None => ms,
    }
}

/// No two members of `ms` carry the same sid.
pub open spec fn members_sids_unique(ms: MemberSeq) -> bool {
    forall|i: int, j: int| 0 <= i < j < ms.len() ==> ms[i].0 != ms[j].0
}

/// Every room of `m` holds each sid at most once.
pub open spec fn rooms_wf(m: RoomsMap) -> bool {
    forall|r: Seq<char>| m.contains_key(r) ==> members_sids_unique(#[trigger] m[r])
}

/// What joining does to the registry: append the pair to the room unless a
/// pair with the same sid is already there; a missing room is created.
pub open spec fn spec_join(m: RoomsMap, r: Seq<char>, p: (Seq<char>, EndpointId)) -> RoomsMap {
    if m.contains_key(r) {
        if has_member(m[r], p.0) {
            m
        } else {
            m.insert(r, m[r].push(p))
        }
    } else {
        m.insert(r, seq![p])
    }
}

/// What leaving does to the registry: drop the first pair carrying `sid`
/// from the room; a missing room is left behind as an empty entry.
pub open spec fn spec_leave(m: RoomsMap, r: Seq<char>, sid: Seq<char>) -> RoomsMap {
    if m.contains_key(r) {
        m.insert(r, remove_member(m[r], sid))
    } else {
        m.insert(r, Seq::empty())
    }
}

/// What `spec_find_member` returns: the first occurrence, or none at all.
pub proof fn lemma_spec_find_member(ms: MemberSeq, sid: Seq<char>, from: int)
    requires
        0 <= from <= ms.len(),
    ensures
        match spec_find_member(ms, sid, from) {
            Some(i) => from <= i < ms.len() && ms[i].0 == sid && forall|j: int|
                from <= j < i ==> ms[j].0 != sid,
            None => forall|j: int| from <= j < ms.len() ==> ms[j].0 != sid,
        },
    decreases ms.len() - from,
{
    if from < ms.len() && ms[from].0 != sid {
        lemma_spec_find_member(ms, sid, from + 1);
    }
}

/// Removing a sid from a duplicate-free member sequence removes every trace
/// of it and keeps the sequence duplicate-free.
pub proof fn lemma_remove_member_unique(ms: MemberSeq, sid: Seq<char>)
    requires
        members_sids_unique(ms),
    ensures
        !has_member(remove_member(ms, sid), sid),
        members_sids_unique(remove_member(ms, sid)),
{
    lemma_spec_find_member(ms, sid, 0);
    match spec_find_member(ms, sid, 0) {
        Some(i) => {
            let out = ms.remove(i);
            assert forall|k: int| 0 <= k < out.len() implies out[k].0 != sid by {
                if k < i {
                    assert(out[k] == ms[k]);
                } else {
                    assert(out[k] == ms[k + 1]);
                }
            }
        },
        None => {},
    }
}

proof fn lemma_rooms_map_contains(s: Seq<RoomEntry>, r: Seq<char>)
    ensures
        rooms_map(s).contains_key(r) <==> exists|i: int|
            0 <= i < s.len() && (#[trigger] s[i].room_id@) == r,
    decreases s.len(),
{
    if s.len() > 0 {
        lemma_rooms_map_contains(s.drop_last(), r);
        let d = s.drop_last();
        assert(forall|i: int| 0 <= i < d.len() ==> #[trigger] d[i] == s[i]);
        if rooms_map(s).contains_key(r) {
            if s.last().room_id@ == r {
                assert(s[s.len() - 1].room_id@ == r);
            } else {
                let i = choose|i: int| 0 <= i < d.len() && (#[trigger] d[i].room_id@) == r;
                assert(s[i].room_id@ == r);
            }
        }
        if exists|i: int| 0 <= i < s.len() && (#[trigger] s[i].room_id@) == r {
            let i = choose|i: int| 0 <= i < s.len() && (#[trigger] s[i].room_id@) == r;
            if i < s.len() - 1 {
                assert(d[i].room_id@ == r);
            }
        }
    }
}

proof fn lemma_rooms_map_value(s: Seq<RoomEntry>, i: int)
    requires
        0 <= i < s.len(),
        forall|j: int| i < j < s.len() ==> (#[trigger] s[j].room_id@) != s[i].room_id@,
    ensures
        rooms_map(s).contains_key(s[i].room_id@),
        rooms_map(s)[s[i].room_id@] == entry_members(s[i]),
    decreases s.len(),
{
    let d = s.drop_last();
    assert(forall|k: int| 0 <= k < d.len() ==> #[trigger] d[k] == s[k]);
    if i == s.len() - 1 {
        assert(s.last() == s[i]);
    } else {
        lemma_rooms_map_value(d, i);
        assert(s.last().room_id@ != s[i].room_id@);
    }
}

proof fn lemma_rooms_map_update(s: Seq<RoomEntry>, i: int, e2: RoomEntry)
    requires
        0 <= i < s.len(),
        e2.room_id@ == s[i].room_id@,
        forall|a: int, b: int|
            0 <= a < b < s.len() ==> (#[trigger] s[a].room_id@) != (#[trigger] s[b].room_id@),
    ensures
        rooms_map(s.update(i, e2)) == rooms_map(s).insert(s[i].room_id@, entry_members(e2)),
    decreases s.len(),
{
    let u = s.update(i, e2);
    let d = s.drop_last();
    assert(forall|k: int| 0 <= k < d.len() ==> #[trigger] d[k] == s[k]);
    if i == s.len() - 1 {
        assert(u.drop_last() =~= d);
        assert(u.last() == e2);
        assert(rooms_map(u) == rooms_map(d).insert(e2.room_id@, entry_members(e2)));
        assert(rooms_map(s).insert(s[i].room_id@, entry_members(e2)) =~= rooms_map(d).insert(
            e2.room_id@,
            entry_members(e2),
        ));
    } else {
        lemma_rooms_map_update(d, i, e2);
        assert(u.drop_last() =~= d.update(i, e2));
        assert(u.last() == s.last());
        assert(s[i].room_id@ != s.last().room_id@);
        assert(rooms_map(u) == rooms_map(d).insert(s[i].room_id@, entry_members(e2)).insert(
            s.last().room_id@,
            entry_members(s.last()),
        ));
        assert(rooms_map(d).insert(s[i].room_id@, entry_members(e2)).insert(
            s.last().room_id@,
            entry_members(s.last()),
        ) =~= rooms_map(d).insert(s.last().room_id@, entry_members(s.last())).insert(
            s[i].room_id@,
            entry_members(e2),
        ));
    }
}

proof fn lemma_rooms_map_push(s: Seq<RoomEntry>, e: RoomEntry)
    ensures
        rooms_map(s.push(e)) == rooms_map(s).insert(e.room_id@, entry_members(e)),
{
    assert(s.push(e).drop_last() =~= s);
    assert(s.push(e).last() == e);
}

proof fn lemma_rooms_map_len(s: Seq<RoomEntry>)
    requires
        forall|a: int, b: int|
            0 <= a < b < s.len() ==> (#[trigger] s[a].room_id@) != (#[trigger] s[b].room_id@),
    ensures
        rooms_map(s).dom().finite(),
        rooms_map(s).dom().len() == s.len(),
    decreases s.len(),
{
    if s.len() == 0 {
        assert(rooms_map(s).dom() =~= Set::<Seq<char>>::empty());
    } else {
        let d = s.drop_last();
        assert(forall|k: int| 0 <= k < d.len() ==> #[trigger] d[k] == s[k]);
        lemma_rooms_map_len(d);
        lemma_rooms_map_contains(d, s.last().room_id@);
        assert(!rooms_map(d).contains_key(s.last().room_id@));
        assert(rooms_map(s).dom() =~= rooms_map(d).dom().insert(s.last().room_id@));
    }
}

/// The concurrent room registry of one server process. The embedding server
/// wraps a single value of this type in its process-wide lock; every
/// operation here is synchronous and brief.
pub struct RoomRegistry {
    rooms: Vec<RoomEntry>,
}

impl View for RoomRegistry {
    type V = RoomsMap;

    closed spec fn view(&self) -> RoomsMap {
        rooms_map(self.rooms@)
    }
}

impl RoomRegistry {
    /// Room ids are stored once each, and no room holds a sid twice.
    pub closed spec fn inv(&self) -> bool {
        &&& forall|a: int, b: int|
            0 <= a < b < self.rooms@.len() ==> (#[trigger] self.rooms@[a].room_id@)
                != (#[trigger] self.rooms@[b].room_id@)
        &&& forall|i: int|
            0 <= i < self.rooms@.len() ==> members_sids_unique(entry_members(
                #[trigger] self.rooms@[i],
            ))
    }

    /// An empty registry.
    pub fn new() -> (r: Self)
        ensures
            r.inv(),
            r@ == Map::<Seq<char>, MemberSeq>::empty(),
    {
        RoomRegistry { rooms: Vec::new() }
    }

    /// Within any room of a registry that satisfies its invariant, each sid
    /// appears at most once.
    pub proof fn lemma_sids_unique(&self)
        requires
            self.inv(),
        ensures
            rooms_wf(self@),
    {
        assert forall|r: Seq<char>| self@.contains_key(r) implies members_sids_unique(
            #[trigger] self@[r],
        ) by {
            lemma_rooms_map_contains(self.rooms@, r);
            let i = choose|i: int|
                0 <= i < self.rooms@.len() && (#[trigger] self.rooms@[i].room_id@) == r;
            lemma_rooms_map_value(self.rooms@, i);
        }
    }

    fn find_room(&self, room_id: &str) -> (r: Option<usize>)
        ensures
            match r {
                Some(i) => i < self.rooms@.len() && self.rooms@[i as int].room_id@ == room_id@
                    && forall|j: int| 0 <= j < i ==> (#[trigger] self.rooms@[j].room_id@)
                    != room_id@,
                None => forall|j: int|
                    0 <= j < self.rooms@.len() ==> (#[trigger] self.rooms@[j].room_id@)
                        != room_id@,
            },
    {
        let n = self.rooms.len();
        let mut i: usize = 0;
        while i < n
            invariant
                i <= n,
                n == self.rooms@.len(),
                forall|j: int| 0 <= j < i ==> (#[trigger] self.rooms@[j].room_id@) != room_id@,
            decreases n - i,
        {
            if str_eq(self.rooms[i].room_id.as_str(), room_id) {
                return Some(i);
            }
            i = i + 1;
        }
        None
    }

    fn find_member_index(members: &Vec<ChannelPair>, sid: &str) -> (r: Option<usize>)
        ensures
            match r {
                Some(i) => spec_find_member(members@.map_values(|p: ChannelPair| p@), sid@, 0)
                    == Some(i as int),
                None => spec_find_member(members@.map_values(|p: ChannelPair| p@), sid@, 0)
                    is None,
            },
    {
        let ghost ms = members@.map_values(|p: ChannelPair| p@);
        let n = members.len();
        let mut i: usize = 0;
        while i < n
            invariant
                i <= n,
                n == members@.len(),
                ms == members@.map_values(|p: ChannelPair| p@),
                spec_find_member(ms, sid@, 0) == spec_find_member(ms, sid@, i as int),
            decreases n - i,
        {
            if str_eq(members[i].sid.as_str(), sid) {
                return Some(i);
            }
            i = i + 1;
        }
        None
    }

    /// Inserts `channel_pair` into the room unless an entry with the same
    /// sid is already there; a missing room is created.
    pub fn join_channel_to_room(&mut self, room_id: &str, channel_pair: ChannelPair)
        requires
            old(self).inv(),
        ensures
            final(self).inv(),
            final(self)@ == spec_join(old(self)@, room_id@, channel_pair@),
    {
        let ghost m0 = self@;
        let ghost p = channel_pair@;
        match self.find_room(room_id) {
            Some(i) => {
                proof {
                    lemma_rooms_map_value(self.rooms@, i as int);
                }
                let ghost s0 = self.rooms@;
                let mut entry = self.rooms.remove(i);
                let found = Self::find_member_index(&entry.members, channel_pair.sid());
                proof {
                    lemma_spec_find_member(entry_members(entry), channel_pair@.0, 0);
                }
                if found.is_some() {
                    self.rooms.insert(i, entry);
                    proof {
                        assert(self.rooms@ =~= s0);
                        assert(has_member(m0[room_id@], p.0));
                        assert(self@ == spec_join(m0, room_id@, p));
                    }
                } else {
                    entry.members.push(channel_pair);
                    proof {
                        assert(entry_members(entry) =~= m0[room_id@].push(p));
                        assert(members_sids_unique(entry_members(entry)));
                    }
                    self.rooms.insert(i, entry);
                    proof {
                        assert(self.rooms@ =~= s0.update(i as int, self.rooms@[i as int]));
                        lemma_rooms_map_update(s0, i as int, self.rooms@[i as int]);
                        assert(self@ == spec_join(m0, room_id@, p));
                    }
                }
            },
            None => {
                proof {
                    lemma_rooms_map_contains(self.rooms@, room_id@);
                    assert(!m0.contains_key(room_id@));
                }
                let ghost s0 = self.rooms@;
                let mut members: Vec<ChannelPair> = Vec::new();
                members.push(channel_pair);
                let entry = RoomEntry { room_id: room_id.to_owned(), members };
                proof {
                    assert(entry_members(entry) =~= seq![p]);
                }
                self.rooms.push(entry);
                proof {
                    lemma_rooms_map_push(s0, self.rooms@.last());
                    assert(self@ == spec_join(m0, room_id@, p));
                }
            },
        }
    }

    /// Removes the first entry of the room whose sid matches; does nothing
    /// to the membership when the sid is absent.
    pub fn remove_socket_from_room(&mut self, room_id: &str, sid: &str)
        requires
            old(self).inv(),
        ensures
            final(self).inv(),
            final(self)@ == spec_leave(old(self)@, room_id@, sid@),
    {
        let ghost m0 = self@;
        match self.find_room(room_id) {
            Some(i) => {
                proof {
                    lemma_rooms_map_value(self.rooms@, i as int);
                }
                let ghost s0 = self.rooms@;
                let mut entry = self.rooms.remove(i);
                let found = Self::find_member_index(&entry.members, sid);
                match found {
                    Some(j) => {
                        let ghost mem0 = entry_members(entry);
                        let ghost v0 = entry.members@;
                        proof {
                            lemma_spec_find_member(mem0, sid@, 0);
                            assert(mem0.len() == entry.members@.len());
                        }
                        entry.members.remove(j);
                        proof {
                            assert forall|k: int|
                                0 <= k < entry.members@.len() implies entry_members(entry)[k]
                                == mem0.remove(j as int)[k] by {
                                if k < j {
                                    assert(entry.members@[k] == v0[k]);
                                    assert(mem0.remove(j as int)[k] == mem0[k]);
                                } else {
                                    assert(entry.members@[k] == v0[k + 1]);
                                    assert(mem0.remove(j as int)[k] == mem0[k + 1]);
                                }
                            }
                            assert(entry_members(entry) =~= mem0.remove(j as int));
                            assert(entry_members(entry) == remove_member(mem0, sid@));
                            lemma_spec_find_member(mem0, sid@, 0);
                            assert forall|a: int, b: int|
                                0 <= a < b < entry_members(entry).len() implies (
                            #[trigger] entry_members(entry)[a].0) != (#[trigger] entry_members(
                                entry,
                            )[b].0) by {
                                let ja = if a < j { a } else { a + 1 };
                                let jb = if b < j { b } else { b + 1 };
                                assert(entry_members(entry)[a] == mem0[ja]);
                                assert(entry_members(entry)[b] == mem0[jb]);
                            }
                        }
                    },
                    None => {
                        proof {
                            assert(entry_members(entry) == remove_member(
                                entry_members(entry),
                                sid@,
                            ));
                        }
                    },
                }
                self.rooms.insert(i, entry);
                proof {
                    assert(self.rooms@ =~= s0.update(i as int, self.rooms@[i as int]));
                    lemma_rooms_map_update(s0, i as int, self.rooms@[i as int]);
                    assert(self@ == spec_leave(m0, room_id@, sid@));
                }
            },
            None => {
                proof {
                    lemma_rooms_map_contains(self.rooms@, room_id@);
                    assert(!m0.contains_key(room_id@));
                }
                let ghost s0 = self.rooms@;
                let entry = RoomEntry { room_id: room_id.to_owned(), members: Vec::new() };
                proof {
                    assert(entry_members(entry) =~= Seq::<(Seq<char>, EndpointId)>::empty());
                }
                self.rooms.push(entry);
                proof {
                    lemma_rooms_map_push(s0, self.rooms@.last());
                    assert(self@ == spec_leave(m0, room_id@, sid@));
                }
            },
        }
    }

    /// A read view over the room's members, if the room exists.
    pub fn get_sockets_for_room(&self, room_id: &str) -> (r: Option<&Vec<ChannelPair>>)
        requires
            self.inv(),
        ensures
            match r {
                Some(v) => self@.contains_key(room_id@) && v@.map_values(|p: ChannelPair| p@)
                    == self@[room_id@],
                None => !self@.contains_key(room_id@),
            },
    {
        proof {
            lemma_rooms_map_contains(self.rooms@, room_id@);
        }
        match self.find_room(room_id) {
            Some(i) => {
                proof {
                    lemma_rooms_map_value(self.rooms@, i as int);
                }
                Some(&self.rooms[i].members)
            },
            None => None,
        }
    }

    /// How many sockets the room currently holds; zero for a missing room.
    pub fn get_sockets_number_for_room(&self, room_id: &str) -> (r: usize)
        requires
            self.inv(),
        ensures
            r as nat == if self@.contains_key(room_id@) {
                self@[room_id@].len()
            } else {
                0
            },
    {
        match self.get_sockets_for_room(room_id) {
            Some(v) => v.len(),
            None => 0,
        }
    }

    /// A printable line naming the room and how many sockets it holds; the
    /// embedding server is what actually logs it.
    pub fn print_sockets_for_room(&self, room_id: &str) -> (r: String)
        requires
            self.inv(),
        ensures
            r@ == "ROOMS: room "@ + room_id@ + " holds sockets: "@ + spec_u64_string(
                (if self@.contains_key(room_id@) {
                    self@[room_id@].len()
                } else {
                    0
                }),
            ),
    {
        let n = self.get_sockets_number_for_room(room_id);
        let count = u64_to_string(n as u64);
        let mut s = "ROOMS: room ".to_owned();
        s.append(room_id);
        s.append(" holds sockets: ");
        s.append(count.as_str());
        proof {
            assert(s@ =~= "ROOMS: room "@ + room_id@ + " holds sockets: "@ + spec_u64_string(
                n as nat,
            ));
        }
        s
    }

    /// How many rooms the registry currently holds, empty ones included.
    pub fn get_rooms_number(&self) -> (r: usize)
        requires
            self.inv(),
        ensures
            r as nat == self@.dom().len(),
    {
        proof {
            lemma_rooms_map_len(self.rooms@);
        }
        self.rooms.len()
    }
}

/// A join never removes anyone: any membership that held before it holds
/// after it.
pub proof fn lemma_join_preserves(
    m: RoomsMap,
    r: Seq<char>,
    p: (Seq<char>, EndpointId),
    r2: Seq<char>,
    sid2: Seq<char>,
)
    requires
        m.contains_key(r2),
        has_member(m[r2], sid2),
    ensures
        spec_join(m, r, p).contains_key(r2),
        has_member(spec_join(m, r, p)[r2], sid2),
{
    let i = choose|i: int| 0 <= i < m[r2].len() && m[r2][i].0 == sid2;
    if r2 == r && !has_member(m[r], p.0) {
        assert(spec_join(m, r, p)[r2][i].0 == sid2);
    } else {
        assert(spec_join(m, r, p)[r2] == m[r2]);
        assert(spec_join(m, r, p)[r2][i].0 == sid2);
    }
}

/// After a join, the joined pair's sid is a member of the room.
pub proof fn lemma_join_member(m: RoomsMap, r: Seq<char>, p: (Seq<char>, EndpointId))
    ensures
        spec_join(m, r, p).contains_key(r),
        has_member(spec_join(m, r, p)[r], p.0),
{
    if m.contains_key(r) {
        if has_member(m[r], p.0) {
        } else {
            assert(spec_join(m, r, p)[r][m[r].len() as int].0 == p.0);
        }
    } else {
        assert(spec_join(m, r, p)[r][0].0 == p.0);
    }
}

/// A leave touches only the named sid in the named room: every other
/// membership survives it.
pub proof fn lemma_leave_preserves_other(
    m: RoomsMap,
    r: Seq<char>,
    sid: Seq<char>,
    r2: Seq<char>,
    sid2: Seq<char>,
)
    requires
        m.contains_key(r2),
        has_member(m[r2], sid2),
        r2 != r || sid2 != sid,
    ensures
        spec_leave(m, r, sid).contains_key(r2),
        has_member(spec_leave(m, r, sid)[r2], sid2),
{
    if r2 == r {
        let ms = m[r2];
        let i = choose|i: int| 0 <= i < ms.len() && ms[i].0 == sid2;
        lemma_spec_find_member(ms, sid, 0);
        match spec_find_member(ms, sid, 0) {
            Some(j) => {
                assert(ms[j].0 == sid);
                assert(i != j);
                let out = ms.remove(j);
                if i < j {
                    assert(out[i].0 == sid2);
                } else {
                    assert(out[i - 1] == ms[i]);
                    assert(out[i - 1].0 == sid2);
                }
                assert(has_member(out, sid2));
            },
            None => {
                assert(spec_leave(m, r, sid)[r2] == ms);
            },
        }
    } else {
        assert(spec_leave(m, r, sid)[r2] == m[r2]);
    }
}

/// A room already clean of a sid stays clean of it through any leave of
/// that sid, whatever room that leave names.
pub proof fn lemma_leave_keeps_absent(m: RoomsMap, r: Seq<char>, sid: Seq<char>, r2: Seq<char>)
    requires
        m.contains_key(r2),
        !has_member(m[r2], sid),
    ensures
        spec_leave(m, r, sid).contains_key(r2),
        !has_member(spec_leave(m, r, sid)[r2], sid),
{
    if r2 == r {
        let ms = m[r2];
        lemma_spec_find_member(ms, sid, 0);
        match spec_find_member(ms, sid, 0) {
            Some(j) => {
                assert(ms[j].0 == sid);
                assert(false);
            },
            None => {},
        }
    }
}

/// A leave keeps every room free of duplicate sids.
pub proof fn lemma_leave_wf(m: RoomsMap, r: Seq<char>, sid: Seq<char>)
    requires
        rooms_wf(m),
    ensures
        rooms_wf(spec_leave(m, r, sid)),
{
    let m2 = spec_leave(m, r, sid);
    assert forall|r2: Seq<char>| m2.contains_key(r2) implies members_sids_unique(
        #[trigger] m2[r2],
    ) by {
        if r2 == r {
            if m.contains_key(r) {
                lemma_remove_member_unique(m[r], sid);
            } else {
                assert(m2[r2] =~= Seq::<(Seq<char>, EndpointId)>::empty());
            }
        }
    }
}

/// Joining a room twice with the same pair leaves exactly the state a
/// single join leaves.
pub proof fn lemma_join_idempotent(m: RoomsMap, r: Seq<char>, p: (Seq<char>, EndpointId))
    ensures
        spec_join(spec_join(m, r, p), r, p) == spec_join(m, r, p),
{
    let m1 = spec_join(m, r, p);
    if m.contains_key(r) {
        if has_member(m[r], p.0) {
        } else {
            assert(m1[r] == m[r].push(p));
            assert(m1[r][m[r].len() as int] == p);
            assert(has_member(m1[r], p.0));
        }
    } else {
        assert(m1[r] == seq![p]);
        assert(m1[r][0] == p);
        assert(has_member(m1[r], p.0));
    }
}

/// Joining a room and then leaving it leaves the room's registry entry
/// without any mention of the sid, whatever the starting state was.
pub proof fn lemma_join_then_leave(m: RoomsMap, r: Seq<char>, p: (Seq<char>, EndpointId))
    requires
        rooms_wf(m),
    ensures
        spec_leave(spec_join(m, r, p), r, p.0).contains_key(r),
        !has_member(spec_leave(spec_join(m, r, p), r, p.0)[r], p.0),
{
    let m1 = spec_join(m, r, p);
    if m.contains_key(r) {
        if has_member(m[r], p.0) {
            lemma_remove_member_unique(m[r], p.0);
        } else {
            assert(m1[r] == m[r].push(p));
            assert forall|a: int, b: int| 0 <= a < b < m1[r].len() implies m1[r][a].0
                != m1[r][b].0 by {
                if b < m[r].len() {
                    assert(m1[r][a] == m[r][a] && m1[r][b] == m[r][b]);
                } else {
                    assert(m1[r][b] == p);
                    assert(m1[r][a] == m[r][a]);
                }
            }
            lemma_remove_member_unique(m1[r], p.0);
        }
    } else {
        assert(m1[r] == seq![p]);
        assert(members_sids_unique(m1[r]));
        lemma_remove_member_unique(m1[r], p.0);
    }
}

} // verus!
