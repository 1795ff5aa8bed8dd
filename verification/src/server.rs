//! The process-wide directory of sessions and rooms.
//!
//! `ChatServer` registers connected sessions under fresh unique ids and
//! maps room names to room handles, creating a room entry on the first
//! reference to an unknown name.  The directory is a single sequential
//! actor, so two requests for the same unknown name can never race: the
//! second one finds the entry the first one created.

use vstd::prelude::*;
use crate::dice::{first_index_of, lemma_first_index_found, lemma_first_index_none};

verus! {

/// A new session asks to be registered.
pub struct Connect;

/// A session is gone; its registration must go too.
pub struct Disconnect {
    pub id: u64,
}

/// Ask for the names of all known rooms.
pub struct ListRooms;

/// Ask for the room of the given name, creating it when unknown.
pub struct RequestRoom {
    pub name: String,
}

/// One directory entry: a room name and the handle under which the
/// transport layer reaches that room.
pub struct RoomEntry {
    pub name: String,
    pub id: u64,
}

/// The handle of the room registered under `name`, if any: the first —
/// and, by the directory's invariant, only — entry with that name.
pub open spec fn room_lookup(rooms: Seq<RoomEntry>, name: Seq<char>) -> Option<u64>
    decreases rooms.len(),
{
    if rooms.len() == 0 {
        None
    } else if rooms[0].name@ == name {
        Some(rooms[0].id)
    } else {
        room_lookup(rooms.drop_first(), name)
    }
}

/// The registry of connected sessions and known rooms.
pub struct ChatServer {
    pub sessions: Vec<u64>,
    pub rooms: Vec<RoomEntry>,
    pub next_session_id: u64,
    pub next_room_id: u64,
}

impl ChatServer {
    pub open spec fn wf(&self) -> bool {
        &&& forall|i: int| 0 <= i < self.sessions@.len() ==> #[trigger] self.sessions@[i]
            < self.next_session_id
        &&& forall|i: int, j: int|
            0 <= i < j < self.sessions@.len() ==> self.sessions@[i] != self.sessions@[j]
        &&& forall|i: int| 0 <= i < self.rooms@.len() ==> #[trigger] self.rooms@[i].id
            < self.next_room_id
        &&& forall|i: int, j: int|
            0 <= i < j < self.rooms@.len() ==> self.rooms@[i].name@ != self.rooms@[j].name@
    }

    /// A fresh directory, seeded with the one default room `Main`.
    pub fn new() -> (r: Self)
        ensures
            r.wf(),
            r.sessions@ == Seq::<u64>::empty(),
            r.rooms@.len() == 1,
            r.rooms@[0].name@ == "Main"@,
            r.rooms@[0].id == 0,
            r.next_session_id == 0,
            r.next_room_id == 1,
    {
        let mut rooms: Vec<RoomEntry> = Vec::new();
        rooms.push(RoomEntry { name: String::from_str("Main"), id: 0 });
        ChatServer { sessions: Vec::new(), rooms, next_session_id: 0, next_room_id: 1 }
    }

    /// Registers a new session under a fresh id — one no live session
    /// holds — and answers with that id.
    pub fn connect(&mut self, msg: Connect) -> (id: u64)
        requires
            old(self).wf(),
            old(self).next_session_id < u64::MAX,
        ensures
            final(self).wf(),
            id == old(self).next_session_id,
            !old(self).sessions@.contains(id),
            final(self).sessions@ == old(self).sessions@.push(id),
            final(self).next_session_id == old(self).next_session_id + 1,
            final(self).rooms == old(self).rooms,
            final(self).next_room_id == old(self).next_room_id,
    {
        let Connect = msg;
        let id = self.next_session_id;
        self.next_session_id = self.next_session_id + 1;
        self.sessions.push(id);
        id
    }

    /// Drops a session's registration; unknown ids are ignored, so the
    /// call is idempotent.
    pub fn disconnect(&mut self, msg: Disconnect)
        requires
            old(self).wf(),
        ensures
            final(self).wf(),
            final(self).sessions@ == crate::room::remove_member(old(self).sessions@, msg.id),
            final(self).rooms == old(self).rooms,
            final(self).next_session_id == old(self).next_session_id,
            final(self).next_room_id == old(self).next_room_id,
    {
        let n = self.sessions.len();
        for i in 0..n
            invariant
                old(self).wf(),
                n == self.sessions@.len(),
                *self == *old(self),
                forall|j: int| 0 <= j < i ==> self.sessions@[j] != msg.id,
        {
            if self.sessions[i] == msg.id {
                proof {
                    lemma_first_index_found(self.sessions@, msg.id, i as int);
                    assert(self.sessions@.contains(msg.id));
                }
                self.sessions.remove(i);
                proof {
                    assert forall|a: int, b: int|
                        0 <= a < b < self.sessions@.len() implies self.sessions@[a]
                        != self.sessions@[b] by {
                        if a < i {
                            if b < i {
                            } else {
                                assert(self.sessions@[b] == old(self).sessions@[b + 1]);
                            }
                        } else {
                            assert(self.sessions@[a] == old(self).sessions@[a + 1]);
                            assert(self.sessions@[b] == old(self).sessions@[b + 1]);
                        }
                    }
                }
                return ;
            }
        }
        proof {
            lemma_first_index_none(self.sessions@, msg.id);
            assert(!self.sessions@.contains(msg.id));
        }
    }

    /// The names of all known rooms, in registration order.
    pub fn list_rooms(&self, msg: ListRooms) -> (r: Vec<String>)
        ensures
            r@.len() == self.rooms@.len(),
            forall|i: int| 0 <= i < r@.len() ==> #[trigger] r@[i]@ == self.rooms@[i].name@,
    {
        let ListRooms = msg;
        let mut r: Vec<String> = Vec::new();
        let n = self.rooms.len();
        for i in 0..n
            invariant
                n == self.rooms@.len(),
                r@.len() == i,
                forall|j: int| 0 <= j < i ==> #[trigger] r@[j]@ == self.rooms@[j].name@,
        {
            r.push(self.rooms[i].name.clone());
        }
        r
    }

    /// The room registered under the requested name, or a fresh entry
    /// created for it: the answer is the room's handle and whether it was
    /// created just now.  Registering before answering makes
    /// first-reference creation atomic from the caller's view.
    pub fn request_room(&mut self, msg: RequestRoom) -> (r: (u64, bool))
        requires
            old(self).wf(),
            old(self).next_room_id < u64::MAX,
        ensures
            final(self).wf(),
            final(self).sessions == old(self).sessions,
            final(self).next_session_id == old(self).next_session_id,
            match room_lookup(old(self).rooms@, msg.name@) {
                Some(id) => r == (id, false) && final(self).rooms == old(self).rooms
                    && final(self).next_room_id == old(self).next_room_id,
                None => {
                    &&& r.1 == true
                    &&& final(self).next_room_id == old(self).next_room_id + 1
                    &&& final(self).rooms@.len() == old(self).rooms@.len() + 1
                    &&& final(self).rooms@ == old(self).rooms@.push(final(self).rooms@.last())
                    &&& final(self).rooms@.last().name@ == msg.name@
                    &&& final(self).rooms@.last().id == r.0
                    &&& room_lookup(final(self).rooms@, msg.name@) == Some(r.0)
                },
            },
    {
        let n = self.rooms.len();
        for i in 0..n
            invariant
                old(self).wf(),
                n == self.rooms@.len(),
                *self == *old(self),
                forall|j: int| 0 <= j < i ==> self.rooms@[j].name@ != msg.name@,
        {
            if self.rooms[i].name == msg.name {
                proof {
                    lemma_room_lookup_found(self.rooms@, msg.name@, i as int);
                }
                return (self.rooms[i].id, false);
            }
        }
        proof {
            lemma_room_lookup_none(self.rooms@, msg.name@);
        }
        let id = self.next_room_id;
        self.next_room_id = self.next_room_id + 1;
        self.rooms.push(RoomEntry { name: msg.name, id });
        proof {
            lemma_created_room_is_found(old(self).rooms@, final(self).rooms@.last());
        }
        (id, true)
    }
}

// ---------------------------------------------------------------------------
// Laws of the room lookup
// ---------------------------------------------------------------------------

proof fn lemma_room_lookup_found(rooms: Seq<RoomEntry>, name: Seq<char>, k: int)
    requires
        0 <= k < rooms.len(),
        rooms[k].name@ == name,
        forall|j: int| 0 <= j < k ==> rooms[j].name@ != name,
    ensures
        room_lookup(rooms, name) == Some(rooms[k].id),
    decreases rooms.len(),
{
    if k > 0 {
        assert(forall|j: int| 0 <= j < k - 1 ==> rooms.drop_first()[j] == rooms[j + 1]);
        lemma_room_lookup_found(rooms.drop_first(), name, k - 1);
    }
}

proof fn lemma_room_lookup_none(rooms: Seq<RoomEntry>, name: Seq<char>)
    requires
        forall|j: int| 0 <= j < rooms.len() ==> rooms[j].name@ != name,
    ensures
        room_lookup(rooms, name) is None,
    decreases rooms.len(),
{
    if rooms.len() > 0 {
        lemma_room_lookup_none(rooms.drop_first(), name);
    }
}

/// Creating a room registers it: the very next lookup of the same name
/// finds the entry just pushed.  Hence two first-time requests for one
/// unknown name — served one after the other by the sequential directory —
/// resolve to the same room, the second creating nothing.
pub proof fn lemma_created_room_is_found(rooms: Seq<RoomEntry>, e: RoomEntry)
    requires
        room_lookup(rooms, e.name@) is None,
    ensures
        room_lookup(rooms.push(e), e.name@) == Some(e.id),
    decreases rooms.len(),
{
    if rooms.len() == 0 {
        assert(rooms.push(e)[0] == e);
    } else {
        assert(rooms.push(e)[0] == rooms[0]);
        assert(rooms.push(e).drop_first() =~= rooms.drop_first().push(e));
        lemma_created_room_is_found(rooms.drop_first(), e);
    }
}

} // verus!
