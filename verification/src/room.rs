//! A chat room: membership and broadcasting.
//!
//! A room owns the set of session ids that are its members.  Every
//! operation answers with effects — messages to send, name queries to
//! issue — that the transport layer performs; the room itself never does
//! I/O.  The roster gather snapshots the membership, queries every
//! snapshot member for its display name and, once every query was
//! answered, broadcasts the collected roster.  Snapshotting pins the
//! gather to the membership at its start, so a completed gather reflects
//! that snapshot exactly.

use vstd::prelude::*;
use vstd::string::StringExecFns;
use crate::dice::{first_index_of, lemma_first_index_found, lemma_first_index_none,
    lemma_first_index_props};
use crate::messages::{OutgoingMessageDTO, RoomStateMessageDTO, TextMessageDTO, is_system_text,
    system_message};

verus! {

// ---------------------------------------------------------------------------
// Messages addressed to a room, and what a room pushes back
// ---------------------------------------------------------------------------

/// A chat or dice line from one member, to be broadcast verbatim.
pub struct ClientMessage {
    /// Id of the sending session.
    pub id: u64,
    /// The message to broadcast.
    pub msg: TextMessageDTO,
}

/// One outgoing message a room hands to a session for its client.
pub struct RoomMessage(pub OutgoingMessageDTO);

/// A session enters the room.
pub struct JoinRoomMessage {
    pub id: u64,
    pub name: String,
    /// Contact handle of the joining session; the transport resolves it.
    pub session: u64,
}

/// A session leaves the room.
pub struct LeaveRoomMessage {
    pub name: String,
    pub id: u64,
}

/// A member renamed itself; the roster must be refreshed.
pub struct NameChangedMessage;

/// What a room asks of its surroundings.
pub enum RoomEffect {
    /// Push one message to every session id in `to`.
    Send { to: Vec<u64>, msg: RoomMessage },
    /// Ask every session id in `to` for its display name.
    QueryNames { to: Vec<u64> },
}

// ---------------------------------------------------------------------------
// Membership as a mathematical value
// ---------------------------------------------------------------------------

pub open spec fn no_dups(s: Seq<u64>) -> bool {
    forall|i: int, j: int| 0 <= i < j < s.len() ==> s[i] != s[j]
}

/// Membership after a join: already present means unchanged.
pub open spec fn join_members(m: Seq<u64>, id: u64) -> Seq<u64> {
    if m.contains(id) {
        m
    } else {
        m.push(id)
    }
}

/// Membership after a leave: the first occurrence of `id` goes; an absent
/// id leaves the list unchanged, so leaving is idempotent.
pub open spec fn remove_member(m: Seq<u64>, id: u64) -> Seq<u64> {
    if m.contains(id) {
        m.remove(first_index_of(m, id))
    } else {
        m
    }
}

/// True of an effect that sends the given system notice to the given ids.
pub open spec fn is_notice_to(e: RoomEffect, to: Seq<u64>, text: Seq<char>) -> bool {
    &&& e matches RoomEffect::Send { to: t, msg } && t@ == to && (
    msg.0 matches OutgoingMessageDTO::TextMessage(tm) && is_system_text(tm, text))
}

// ---------------------------------------------------------------------------
// Executable helpers
// ---------------------------------------------------------------------------

fn find_id(v: &Vec<u64>, id: u64) -> (r: Option<usize>)
    ensures
        match r {
            Some(i) => first_index_of(v@, id) == i && i < v@.len() && v@[i as int] == id,
            None => first_index_of(v@, id) == -1 && !v@.contains(id),
        },
{
    let n = v.len();
    for i in 0..n
        invariant
            n == v@.len(),
            forall|j: int| 0 <= j < i ==> v@[j] != id,
    {
        if v[i] == id {
            proof {
                lemma_first_index_found(v@, id, i as int);
            }
            return Some(i);
        }
    }
    proof {
        lemma_first_index_none(v@, id);
    }
    None
}

fn copy_ids(v: &Vec<u64>) -> (r: Vec<u64>)
    ensures
        r@ == v@,
{
    let mut r: Vec<u64> = Vec::new();
    let n = v.len();
    for i in 0..n
        invariant
            n == v@.len(),
            r@ == v@.take(i as int),
    {
        r.push(v[i]);
        proof {
            assert(v@.take(i + 1) =~= v@.take(i as int).push(v@[i as int]));
        }
    }
    proof {
        assert(v@.take(n as int) =~= v@);
    }
    r
}

fn copy_names(v: &Vec<String>) -> (r: Vec<String>)
    ensures
        r@ == v@,
{
    let mut r: Vec<String> = Vec::new();
    let n = v.len();
    for i in 0..n
        invariant
            n == v@.len(),
            r@ == v@.take(i as int),
    {
        r.push(v[i].clone());
        proof {
            assert(v@.take(i + 1) =~= v@.take(i as int).push(v@[i as int]));
        }
    }
    proof {
        assert(v@.take(n as int) =~= v@);
    }
    r
}

// ---------------------------------------------------------------------------
// The roster gather
// ---------------------------------------------------------------------------

/// One in-flight roster refresh.  `pending` is the membership snapshot
/// still owed an answer; `collected` the names already gathered, in
/// arrival order.
pub struct RosterGather {
    pub room_name: String,
    pub pending: Vec<u64>,
    pub collected: Vec<String>,
}

impl RosterGather {
    pub open spec fn wf(&self) -> bool {
        no_dups(self.pending@)
    }

    /// Records one answer to a name query.  An unreachable member is
    /// tolerated: the caller substitutes a placeholder name and the
    /// answer still counts.  Answers `true` once every snapshot member
    /// was counted.
    pub fn add_reply(&mut self, id: u64, name: String) -> (done: bool)
        requires
            old(self).wf(),
            old(self).pending@.contains(id),
        ensures
            final(self).wf(),
            final(self).room_name == old(self).room_name,
            final(self).pending@ == remove_member(old(self).pending@, id),
            final(self).collected@ == old(self).collected@.push(name),
            done <==> final(self).pending@.len() == 0,
    {
        let k = match find_id(&self.pending, id) {
            Some(k) => k,
            None => {
                proof {
                    assert(false);
                }
                0
            },
        };
        self.pending.remove(k);
        self.collected.push(name);
        proof {
            lemma_remove_preserves_no_dups(old(self).pending@, k as int);
        }
        self.pending.len() == 0
    }

    /// The roster broadcast owed once the gather is complete: the room
    /// name and the collected names, in arrival order, to everyone the
    /// room currently records.
    pub fn roster_message(&self, room: &ChatRoom) -> (eff: RoomEffect)
        requires
            self.pending@.len() == 0,
        ensures
            eff matches RoomEffect::Send { to, msg } && to@ == room.members@ && (
            msg.0 matches OutgoingMessageDTO::RoomState(rs) && rs.room_name@ == self.room_name@
                && rs.members@ == self.collected@),
    {
        RoomEffect::Send {
            to: copy_ids(&room.members),
            msg: RoomMessage(
                OutgoingMessageDTO::RoomState(
                    RoomStateMessageDTO {
                        room_name: self.room_name.clone(),
                        members: copy_names(&self.collected),
                    },
                ),
            ),
        }
    }
}

// ---------------------------------------------------------------------------
// The room
// ---------------------------------------------------------------------------

/// One named broadcast group.  `members` holds the session id of every
/// current member, each at most once.
pub struct ChatRoom {
    pub name: String,
    pub members: Vec<u64>,
}

impl ChatRoom {
    pub open spec fn wf(&self) -> bool {
        no_dups(self.members@)
    }

    /// An empty room with the given name.
    pub fn new(name: String) -> (r: Self)
        ensures
            r.name == name,
            r.members@ == Seq::<u64>::empty(),
            r.wf(),
    {
        ChatRoom { name, members: Vec::new() }
    }

    /// Broadcasts a member's message verbatim to every current member,
    /// the sender included.
    pub fn post(&self, msg: ClientMessage) -> (eff: RoomEffect)
        ensures
            eff matches RoomEffect::Send { to, msg: rm } && to@ == self.members@ && (
            rm.0 matches OutgoingMessageDTO::TextMessage(t) && t == msg.msg),
    {
        RoomEffect::Send {
            to: copy_ids(&self.members),
            msg: RoomMessage(OutgoingMessageDTO::TextMessage(msg.msg)),
        }
    }

    /// Starts a roster refresh: snapshots the membership and asks every
    /// snapshot member for its name.
    pub fn start_roster_gather(&self) -> (r: (RosterGather, RoomEffect))
        requires
            self.wf(),
        ensures
            r.0.wf(),
            r.0.room_name@ == self.name@,
            r.0.pending@ == self.members@,
            r.0.collected@ == Seq::<String>::empty(),
            r.1 matches RoomEffect::QueryNames { to } && to@ == self.members@,
    {
        let gather = RosterGather {
            room_name: self.name.clone(),
            pending: copy_ids(&self.members),
            collected: Vec::new(),
        };
        (gather, RoomEffect::QueryNames { to: copy_ids(&self.members) })
    }

    /// A member renamed itself: only the roster is refreshed, membership
    /// is untouched.
    pub fn name_changed(&self, msg: NameChangedMessage) -> (r: (RosterGather, RoomEffect))
        requires
            self.wf(),
        ensures
            r.0.wf(),
            r.0.room_name@ == self.name@,
            r.0.pending@ == self.members@,
            r.0.collected@ == Seq::<String>::empty(),
            r.1 matches RoomEffect::QueryNames { to } && to@ == self.members@,
    {
        let NameChangedMessage = msg;
        self.start_roster_gather()
    }

    /// A session joins: the current members are told first (the joiner is
    /// not yet among them), then the member is inserted — at most once —
    /// and a roster refresh starts.
    pub fn join(&mut self, msg: JoinRoomMessage) -> (r: (Vec<RoomEffect>, RosterGather))
        requires
            old(self).wf(),
        ensures
            final(self).wf(),
            final(self).name == old(self).name,
            final(self).members@ == join_members(old(self).members@, msg.id),
            r.0@.len() == 2,
            is_notice_to(r.0@[0], old(self).members@, "'"@ + msg.name@ + "' joined the room"@),
            r.0@[1] matches RoomEffect::QueryNames { to } && to@ == final(self).members@,
            r.1.wf(),
            r.1.room_name@ == final(self).name@,
            r.1.pending@ == final(self).members@,
            r.1.collected@ == Seq::<String>::empty(),
    {
        let text = String::from_str("'").concat(msg.name.as_str()).concat("' joined the room");
        let notice = RoomEffect::Send {
            to: copy_ids(&self.members),
            msg: RoomMessage(system_message(text.as_str())),
        };
        if find_id(&self.members, msg.id).is_none() {
            self.members.push(msg.id);
        }
        let (gather, query) = self.start_roster_gather();
        let mut effs: Vec<RoomEffect> = Vec::new();
        effs.push(notice);
        effs.push(query);
        (effs, gather)
    }

    /// A session leaves: the member is removed, the remaining members are
    /// told, and a roster refresh starts.
    pub fn leave(&mut self, msg: LeaveRoomMessage) -> (r: (Vec<RoomEffect>, RosterGather))
        requires
            old(self).wf(),
        ensures
            final(self).wf(),
            final(self).name == old(self).name,
            final(self).members@ == remove_member(old(self).members@, msg.id),
            r.0@.len() == 2,
            is_notice_to(r.0@[0], final(self).members@, "'"@ + msg.name@ + "' left the room"@),
            r.0@[1] matches RoomEffect::QueryNames { to } && to@ == final(self).members@,
            r.1.wf(),
            r.1.room_name@ == final(self).name@,
            r.1.pending@ == final(self).members@,
            r.1.collected@ == Seq::<String>::empty(),
    {
        match find_id(&self.members, msg.id) {
            Some(k) => {
                self.members.remove(k);
                proof {
                    lemma_remove_preserves_no_dups(old(self).members@, k as int);
                }
            },
            None => {},
        }
        let text = String::from_str("'").concat(msg.name.as_str()).concat("' left the room");
        let notice = RoomEffect::Send {
            to: copy_ids(&self.members),
            msg: RoomMessage(system_message(text.as_str())),
        };
        let (gather, query) = self.start_roster_gather();
        let mut effs: Vec<RoomEffect> = Vec::new();
        effs.push(notice);
        effs.push(query);
        (effs, gather)
    }
}

// ---------------------------------------------------------------------------
// Laws of membership and the roster gather
// ---------------------------------------------------------------------------

proof fn lemma_remove_preserves_no_dups(s: Seq<u64>, k: int)
    requires
        no_dups(s),
        0 <= k < s.len(),
    ensures
        no_dups(s.remove(k)),
{
    let t = s.remove(k);
    assert forall|i: int, j: int| 0 <= i < j < t.len() implies t[i] != t[j] by {
        if i < k {
            if j < k {
                assert(t[i] == s[i] && t[j] == s[j]);
            } else {
                assert(t[i] == s[i] && t[j] == s[j + 1]);
            }
        } else {
            assert(t[i] == s[i + 1] && t[j] == s[j + 1]);
        }
    }
}

/// Joining twice under one session id is the same as joining once: a
/// member entry is never duplicated.
pub proof fn lemma_join_idempotent(m: Seq<u64>, id: u64)
    ensures
        join_members(join_members(m, id), id) == join_members(m, id),
{
    if !m.contains(id) {
        assert(m.push(id)[m.len() as int] == id);
        assert(join_members(m, id).contains(id));
    }
}

/// Join and leave keep the membership free of duplicates.
pub proof fn lemma_membership_no_dups(m: Seq<u64>, id: u64)
    requires
        no_dups(m),
    ensures
        no_dups(join_members(m, id)),
        no_dups(remove_member(m, id)),
{
    if !m.contains(id) {
        let p = m.push(id);
        assert forall|i: int, j: int| 0 <= i < j < p.len() implies p[i] != p[j] by {
            if j == m.len() {
                assert(p[i] == m[i]);
            }
        }
    }
    if m.contains(id) {
        lemma_first_index_props(m, id);
        lemma_remove_preserves_no_dups(m, first_index_of(m, id));
    }
}

/// The pending snapshot after a run of gather answers, one id consumed
/// per answer in arrival order.
pub open spec fn gather_after(pending: Seq<u64>, replies: Seq<u64>) -> Seq<u64>
    decreases replies.len(),
{
    if replies.len() == 0 {
        pending
    } else {
        gather_after(remove_member(pending, replies[0]), replies.drop_first())
    }
}

/// A roster gather reflects its membership snapshot exactly: when every
/// snapshot member answers exactly once — in whatever order the answers
/// arrive — the gather completes, and it collected exactly one name per
/// member.
pub proof fn lemma_roster_gather_exact(members: Seq<u64>, replies: Seq<u64>)
    requires
        members.to_multiset() == replies.to_multiset(),
    ensures
        gather_after(members, replies).len() == 0,
        replies.len() == members.len(),
    decreases replies.len(),
{
    broadcast use vstd::seq_lib::group_to_multiset_ensures;

    if replies.len() == 0 {
        assert(members.to_multiset().len() == 0);
        assert(members.len() == 0);
    } else {
        let id = replies[0];
        assert(replies.contains(id));
        assert(members.to_multiset().count(id) > 0);
        assert(members.contains(id));
        lemma_first_index_props(members, id);
        let k = first_index_of(members, id);
        let rest = remove_member(members, id);
        assert(rest == members.remove(k));
        assert(rest.to_multiset() =~= members.to_multiset().remove(id));
        assert(replies.drop_first() =~= replies.remove(0));
        assert(replies.drop_first().to_multiset() =~= replies.to_multiset().remove(id));
        lemma_roster_gather_exact(rest, replies.drop_first());
    }
}

} // verus!
