//! The per-connection session: protocol state machine and liveness.
//!
//! A session owns one client's identity (id, display name, current room)
//! and decides, for every inbound frame, what must happen: what to push
//! back to the client, what to tell the directory, what to tell a room.
//! The decisions are pure; the transport layer performs them.  While a
//! directory round trip (`/list`, `/join`) is outstanding the session is
//! `pending` and defers further frames, which keeps one client's lines in
//! send order (see the inbox model at the end of this file).

use vstd::prelude::*;
use vstd::string::StrSliceExecFns;
use vstd::string::StringExecFns;
use crate::dice::{first_index_of, get_results, lemma_first_index_found, lemma_first_index_none,
    results_ok};
use crate::messages::{OutgoingMessageDTO, TextMessageDTO, is_system_text, system_message};
use crate::room::{ClientMessage, JoinRoomMessage, LeaveRoomMessage, NameChangedMessage};
use crate::server::{Disconnect, ListRooms, RequestRoom};

verus! {

/// How often a liveness probe is sent, in milliseconds.
pub const HEARTBEAT_INTERVAL_MS: u64 = 5000;

/// How long a client may stay silent before its session closes, in
/// milliseconds.
pub const CLIENT_TIMEOUT_MS: u64 = 10000;

// ---------------------------------------------------------------------------
// Frames, pending round trips, and actions
// ---------------------------------------------------------------------------

/// One inbound frame from the client's connection.
pub enum ClientFrame {
    Ping,
    Pong,
    Text(String),
    Binary,
    Close,
    Continuation,
    Nop,
}

/// A directory round trip the session is waiting on.  While one is
/// outstanding the session defers all further inbound frames.
pub enum PendingRequest {
    RoomList,
    RoomJoin { room_name: String },
}

/// What the session asks its surroundings to do.
#[allow(inconsistent_fields)]
pub enum SessionAction {
    /// Push one wire message to the own client.
    Reply(OutgoingMessageDTO),
    /// Answer a ping.
    Pong,
    /// Ask the directory for the room list and await the answer.
    SendListRooms(ListRooms),
    /// Ask the directory for a room and await the answer.
    SendRequestRoom(RequestRoom),
    /// Tell a room, fire and forget, that this session leaves.
    SendLeaveRoom { room: u64, msg: LeaveRoomMessage },
    /// Tell a room that this session joins.
    SendJoinRoom { room: u64, msg: JoinRoomMessage },
    /// Hand a chat or dice line to a room for broadcast.
    SendClientMessage { room: u64, msg: ClientMessage },
    /// Tell a room that this session's display name changed.
    SendNameChanged { room: u64, msg: NameChangedMessage },
    /// Tell the directory that this session is gone.
    SendDisconnect(Disconnect),
    /// Close the own connection.
    Stop,
}

/// One connected client's session state.
pub struct WsChatSession {
    /// Id the directory assigned at registration.
    pub id: u64,
    /// Moment of the last liveness signal, in milliseconds.
    pub hb: u64,
    /// Display name; unset until the first `/name`.
    pub name: Option<String>,
    /// Handle of the current room, if any.
    pub room: Option<u64>,
    /// The directory round trip being awaited, if any.
    pub pending: Option<PendingRequest>,
}

// ---------------------------------------------------------------------------
// Specification: trimming and command splitting
// ---------------------------------------------------------------------------

pub open spec fn is_space(c: char) -> bool {
    c == ' ' || c == '\t' || c == '\n' || c == '\r'
}

pub open spec fn trim_front(s: Seq<char>) -> Seq<char>
    decreases s.len(),
{
    if s.len() > 0 && is_space(s[0]) {
        trim_front(s.drop_first())
    } else {
        s
    }
}

pub open spec fn trim_back(s: Seq<char>) -> Seq<char>
    decreases s.len(),
{
    if s.len() > 0 && is_space(s.last()) {
        trim_back(s.drop_last())
    } else {
        s
    }
}

/// The line with leading and trailing whitespace removed.
pub open spec fn trimmed(s: Seq<char>) -> Seq<char> {
    trim_back(trim_front(s))
}

pub open spec fn starts_with(s: Seq<char>, p: Seq<char>) -> bool {
    s.len() >= p.len() && s.take(p.len() as int) == p
}

/// The command word of a trimmed line: the text before the first space.
pub open spec fn cmd_of(m: Seq<char>) -> Seq<char> {
    if first_index_of(m, ' ') < 0 {
        m
    } else {
        m.take(first_index_of(m, ' '))
    }
}

/// The command argument: everything after the first space, if any.
pub open spec fn arg_of(m: Seq<char>) -> Option<Seq<char>> {
    if first_index_of(m, ' ') < 0 {
        None
    } else {
        Some(m.skip(first_index_of(m, ' ') + 1))
    }
}

// ---------------------------------------------------------------------------
// Specification: what handling one line means
// ---------------------------------------------------------------------------

/// A reply to the own client holding the given system notice.
pub open spec fn sys_reply(a: SessionAction, text: Seq<char>) -> bool {
    &&& a matches SessionAction::Reply(m) && (m matches OutgoingMessageDTO::TextMessage(t)
        && is_system_text(t, text))
}

pub open spec fn leave_act(a: SessionAction, room: u64, id: u64, name: Seq<char>) -> bool {
    &&& a matches SessionAction::SendLeaveRoom { room: r, msg } && r == room && msg.id == id
        && msg.name@ == name
}

pub open spec fn request_room_act(a: SessionAction, name: Seq<char>) -> bool {
    &&& a matches SessionAction::SendRequestRoom(rq) && rq.name@ == name
}

/// The chat or dice payload built from a trimmed line `m`: a leading `!`
/// routes the rest of the line through the dice evaluator.
pub open spec fn chat_payload(t: TextMessageDTO, m: Seq<char>, sender: Seq<char>) -> bool {
    &&& t.message@ == m
    &&& t.name matches Some(n) && n@ == sender
    &&& if m.len() > 0 && m[0] == '!' {
        t.dice_results matches Some(d) && results_ok(m.skip(1), d@)
    } else {
        t.dice_results is None
    }
}

/// Outcome of a command line (`m` starts with `/`).
pub open spec fn command_outcome(
    s: WsChatSession,
    m: Seq<char>,
    s2: WsChatSession,
    acts: Seq<SessionAction>,
) -> bool {
    let cmd = cmd_of(m);
    if cmd == "/list"@ {
        &&& s2 == WsChatSession { pending: Some(PendingRequest::RoomList), ..s }
        &&& acts.len() == 1
        &&& acts[0] matches SessionAction::SendListRooms(ListRooms)
    } else if cmd == "/join"@ {
        match arg_of(m) {
            Some(arg) => {
                &&& s2.id == s.id && s2.hb == s.hb && s2.name == s.name && s2.room == s.room
                &&& s2.pending matches Some(PendingRequest::RoomJoin { room_name })
                    && room_name@ == arg
                &&& match s.room {
                    Some(r) => acts.len() == 2 && leave_act(acts[0], r, s.id, s.name->0@)
                        && request_room_act(acts[1], arg),
                    None => acts.len() == 1 && request_room_act(acts[0], arg),
                }
            },
            None => s2 == s && acts.len() == 1 && sys_reply(
                acts[0],
                "!!! room name is required"@,
            ),
        }
    } else if cmd == "/name"@ {
        match arg_of(m) {
            Some(arg) => {
                &&& s2.id == s.id && s2.hb == s.hb && s2.room == s.room && s2.pending is None
                &&& s2.name matches Some(nm) && nm@ == arg
                &&& sys_reply(acts[0], "You are now known as: "@ + arg)
                &&& match s.room {
                    Some(r) => acts.len() == 2 && (acts[1]
                        matches SessionAction::SendNameChanged { room, msg } && room == r),
                    None => acts.len() == 1,
                }
            },
            None => s2 == s && acts.len() == 1 && sys_reply(acts[0], "!!! name is required"@),
        }
    } else {
        s2 == s && acts.len() == 1 && sys_reply(acts[0], "!!! unknown command: "@ + m)
    }
}

/// Outcome of a content line: forwarded to the current room, or refused
/// with a notice when the session has no room yet.
pub open spec fn content_outcome(
    s: WsChatSession,
    m: Seq<char>,
    s2: WsChatSession,
    acts: Seq<SessionAction>,
) -> bool {
    match s.room {
        Some(r) => {
            &&& s2 == s
            &&& acts.len() == 1
            &&& acts[0] matches SessionAction::SendClientMessage { room, msg } && room == r
                && msg.id == s.id && chat_payload(msg.msg, m, s.name->0@)
        },
        None => s2 == s && acts.len() == 1 && sys_reply(
            acts[0],
            "You have to join a room before sending messages (i.e. /join Main)"@,
        ),
    }
}

/// Everything one inbound text line may do to a session: the nameless are
/// turned away unless the raw line opens with `/name`; a trimmed line
/// starting with `/` is a command; anything else is content for the
/// current room.
pub open spec fn text_outcome(
    s: WsChatSession,
    raw: Seq<char>,
    s2: WsChatSession,
    acts: Seq<SessionAction>,
) -> bool {
    let m = trimmed(raw);
    if s.name is None && !starts_with(raw, "/name"@) {
        &&& s2 == s
        &&& acts.len() == 1
        &&& sys_reply(
            acts[0],
            "You need to set a name before doing anything else (i.e. /name ABC)"@,
        )
    } else if m.len() > 0 && m[0] == '/' {
        command_outcome(s, m, s2, acts)
    } else {
        content_outcome(s, m, s2, acts)
    }
}

/// Outcome of one inbound frame: ping and pong refresh the liveness
/// signal, text is handled as a line, close and a broken continuation
/// stop the session.
pub open spec fn frame_outcome(
    s: WsChatSession,
    frame: ClientFrame,
    now: u64,
    s2: WsChatSession,
    acts: Seq<SessionAction>,
) -> bool {
    match frame {
        ClientFrame::Ping => s2 == WsChatSession { hb: now, ..s } && acts.len() == 1 && acts[0]
            is Pong,
        ClientFrame::Pong => s2 == WsChatSession { hb: now, ..s } && acts.len() == 0,
        ClientFrame::Text(t) => text_outcome(s, t@, s2, acts),
        ClientFrame::Binary => s2 == s && acts.len() == 0,
        ClientFrame::Close => s2 == s && acts.len() == 1 && acts[0] is Stop,
        ClientFrame::Continuation => s2 == s && acts.len() == 1 && acts[0] is Stop,
        ClientFrame::Nop => s2 == s && acts.len() == 0,
    }
}

// ---------------------------------------------------------------------------
// Trim and split lemmas
// ---------------------------------------------------------------------------

proof fn lemma_trim_front_skip(s: Seq<char>, a: int)
    requires
        0 <= a <= s.len(),
        forall|j: int| 0 <= j < a ==> is_space(#[trigger] s[j]),
        a == s.len() || !is_space(s[a]),
    ensures
        trim_front(s) == s.skip(a),
    decreases a,
{
    if a == 0 {
        assert(s.skip(0) =~= s);
    } else {
        let t = s.drop_first();
        assert(forall|j: int| 0 <= j < a - 1 ==> t[j] == s[j + 1]);
        lemma_trim_front_skip(t, a - 1);
        assert(t.skip(a - 1) =~= s.skip(a));
    }
}

proof fn lemma_trim_back_take(s: Seq<char>, b: int)
    requires
        0 <= b <= s.len(),
        forall|j: int| b <= j < s.len() ==> is_space(#[trigger] s[j]),
        b == 0 || !is_space(s[b - 1]),
    ensures
        trim_back(s) == s.take(b),
    decreases s.len() - b,
{
    if b == s.len() {
        assert(s.take(b) =~= s);
    } else {
        let t = s.drop_last();
        lemma_trim_back_take(t, b);
        assert(t.take(b) =~= s.take(b));
    }
}

// ---------------------------------------------------------------------------
// Executable text helpers
// ---------------------------------------------------------------------------

fn is_space_char(c: char) -> (r: bool)
    ensures
        r == is_space(c),
{
    c == ' ' || c == '\t' || c == '\n' || c == '\r'
}

/// The line with surrounding whitespace removed.
fn trim_str<'a>(s: &'a str) -> (r: &'a str)
    ensures
        r@ == trimmed(s@),
{
    let n = s.unicode_len();
    let mut a: usize = 0;
    while a < n && is_space_char(s.get_char(a))
        invariant
            n == s@.len(),
            a <= n,
            forall|j: int| 0 <= j < a ==> is_space(#[trigger] s@[j]),
        decreases n - a,
    {
        a = a + 1;
    }
    let mut b: usize = n;
    while b > a && is_space_char(s.get_char(b - 1))
        invariant
            n == s@.len(),
            a <= b <= n,
            forall|j: int| b <= j < n ==> is_space(#[trigger] s@[j]),
        decreases b,
    {
        b = b - 1;
    }
    proof {
        lemma_trim_front_skip(s@, a as int);
        let t = s@.skip(a as int);
        assert(forall|j: int| b - a <= j < t.len() ==> t[j] == s@[j + a]);
        lemma_trim_back_take(t, b - a);
        assert(t.take(b - a) =~= s@.subrange(a as int, b as int));
    }
    s.substring_char(a, b)
}

/// Character-wise string comparison.
fn str_eq(a: &str, b: &str) -> (r: bool)
    ensures
        r == (a@ == b@),
{
    let n = a.unicode_len();
    let m = b.unicode_len();
    if n != m {
        return false;
    }
    for i in 0..n
        invariant
            n == a@.len(),
            n == b@.len(),
            forall|j: int| 0 <= j < i ==> a@[j] == b@[j],
    {
        if a.get_char(i) != b.get_char(i) {
            return false;
        }
    }
    proof {
        assert(a@ =~= b@);
    }
    true
}

/// True when the raw line opens with the five characters of `/name`.
fn opens_with_name_cmd(s: &str) -> (r: bool)
    ensures
        r == starts_with(s@, "/name"@),
{
    proof {
        reveal_strlit("/name");
    }
    let n = s.unicode_len();
    if n < 5 {
        return false;
    }
    let r = s.get_char(0) == '/' && s.get_char(1) == 'n' && s.get_char(2) == 'a' && s.get_char(3)
        == 'm' && s.get_char(4) == 'e';
    proof {
        if r {
            assert(s@.take(5) =~= "/name"@);
        } else {
            if s@.take(5) == "/name"@ {
                assert(s@[0] == "/name"@[0]);
                assert(s@[1] == "/name"@[1]);
                assert(s@[2] == "/name"@[2]);
                assert(s@[3] == "/name"@[3]);
                assert(s@[4] == "/name"@[4]);
            }
        }
    }
    r
}

/// The index of the first space of `s`, if any.
fn find_space(s: &str) -> (r: Option<usize>)
    ensures
        match r {
            Some(i) => first_index_of(s@, ' ') == i && i < s@.len(),
            None => first_index_of(s@, ' ') == -1,
        },
{
    let n = s.unicode_len();
    for i in 0..n
        invariant
            n == s@.len(),
            forall|j: int| 0 <= j < i ==> s@[j] != ' ',
    {
        if s.get_char(i) == ' ' {
            proof {
                lemma_first_index_found(s@, ' ', i as int);
            }
            return Some(i);
        }
    }
    proof {
        lemma_first_index_none(s@, ' ');
    }
    None
}

// ---------------------------------------------------------------------------
// The session itself
// ---------------------------------------------------------------------------

impl WsChatSession {
    /// A session in a room always carries a display name: a member only
    /// ever enters a room through `/join`, which the nameless cannot
    /// reach.
    pub open spec fn wf(&self) -> bool {
        self.room is Some ==> self.name is Some
    }

    /// A fresh, unnamed session; the id is assigned at registration.
    pub fn new(now: u64) -> (s: Self)
        ensures
            s == (WsChatSession {
                id: 0,
                hb: now,
                name: None::<String>,
                room: None::<u64>,
                pending: None::<PendingRequest>,
            }),
            s.wf(),
    {
        WsChatSession { id: 0, hb: now, name: None, room: None, pending: None }
    }

    /// Registration answered: the session now holds its directory id.
    pub fn on_connected(&mut self, id: u64)
        ensures
            *final(self) == (WsChatSession { id, ..*old(self) }),
    {
        self.id = id;
    }

    /// The display name, owed to the room's roster gather.  Only sessions
    /// with a name set are ever asked — room members always have one.
    pub fn current_name(&self) -> (r: String)
        requires
            self.name is Some,
        ensures
            r@ == self.name->0@,
    {
        match &self.name {
            Some(n) => n.clone(),
            None => {
                proof {
                    assert(false);
                }
                String::new()
            },
        }
    }

    /// Handles one inbound frame.  Only called while no directory round
    /// trip is outstanding: the transport defers frames while `pending`
    /// is set, which keeps one client's lines in send order.
    pub fn handle_frame(&mut self, frame: ClientFrame, now: u64) -> (acts: Vec<SessionAction>)
        requires
            old(self).pending is None,
            old(self).wf(),
        ensures
            frame_outcome(*old(self), frame, now, *final(self), acts@),
            final(self).wf(),
    {
        match frame {
            ClientFrame::Ping => {
                self.hb = now;
                let mut acts: Vec<SessionAction> = Vec::new();
                acts.push(SessionAction::Pong);
                acts
            },
            ClientFrame::Pong => {
                self.hb = now;
                Vec::new()
            },
            ClientFrame::Text(t) => self.handle_text(t.as_str()),
            ClientFrame::Binary => Vec::new(),
            ClientFrame::Close => {
                let mut acts: Vec<SessionAction> = Vec::new();
                acts.push(SessionAction::Stop);
                acts
            },
            ClientFrame::Continuation => {
                let mut acts: Vec<SessionAction> = Vec::new();
                acts.push(SessionAction::Stop);
                acts
            },
            ClientFrame::Nop => Vec::new(),
        }
    }

    /// Handles one inbound text line: commands steer the session, all
    /// other content goes to the current room.
    pub fn handle_text(&mut self, text: &str) -> (acts: Vec<SessionAction>)
        requires
            old(self).pending is None,
            old(self).wf(),
        ensures
            text_outcome(*old(self), text@, *final(self), acts@),
            final(self).wf(),
    {
        let mut acts: Vec<SessionAction> = Vec::new();
        if self.name.is_none() && !opens_with_name_cmd(text) {
            acts.push(
                SessionAction::Reply(
                    system_message(
                        "You need to set a name before doing anything else (i.e. /name ABC)",
                    ),
                ),
            );
            return acts;
        }
        let m = trim_str(text);
        let n = m.unicode_len();
        if n > 0 && m.get_char(0) == '/' {
            let sp = find_space(m);
            let cmd = match sp {
                Some(i) => m.substring_char(0, i),
                None => m,
            };
            proof {
                assert(cmd@ =~= cmd_of(m@));
            }
            if str_eq(cmd, "/list") {
                self.pending = Some(PendingRequest::RoomList);
                acts.push(SessionAction::SendListRooms(ListRooms));
            } else if str_eq(cmd, "/join") {
                match sp {
                    Some(i) => {
                        let arg = m.substring_char(i + 1, n);
                        proof {
                            assert(arg_of(m@) == Some(arg@));
                        }
                        if let Some(r) = self.room {
                            let nm = self.current_name();
                            acts.push(
                                SessionAction::SendLeaveRoom {
                                    room: r,
                                    msg: LeaveRoomMessage { name: nm, id: self.id },
                                },
                            );
                        }
                        acts.push(
                            SessionAction::SendRequestRoom(RequestRoom { name: arg.to_owned() }),
                        );
                        self.pending = Some(
                            PendingRequest::RoomJoin { room_name: arg.to_owned() },
                        );
                    },
                    None => {
                        acts.push(SessionAction::Reply(system_message("!!! room name is required")));
                    },
                }
            } else if str_eq(cmd, "/name") {
                match sp {
                    Some(i) => {
                        let arg = m.substring_char(i + 1, n);
                        proof {
                            assert(arg_of(m@) == Some(arg@));
                        }
                        self.name = Some(arg.to_owned());
                        let confirm = String::from_str("You are now known as: ").concat(arg);
                        acts.push(SessionAction::Reply(system_message(confirm.as_str())));
                        if let Some(r) = self.room {
                            acts.push(
                                SessionAction::SendNameChanged {
                                    room: r,
                                    msg: NameChangedMessage,
                                },
                            );
                        }
                    },
                    None => {
                        acts.push(SessionAction::Reply(system_message("!!! name is required")));
                    },
                }
            } else {
                let mut txt = String::from_str("!!! unknown command: ");
                txt.append(m);
                acts.push(SessionAction::Reply(system_message(txt.as_str())));
            }
        } else {
            match self.room {
                Some(r) => {
                    let sender = self.current_name();
                    let msg = if n > 0 && m.get_char(0) == '!' {
                        let rest = m.substring_char(1, n);
                        proof {
                            assert(rest@ =~= m@.skip(1));
                        }
                        let results = get_results(rest);
                        TextMessageDTO::dice_result(m, &results, sender.as_str())
                    } else {
                        TextMessageDTO::chat(m, sender.as_str())
                    };
                    acts.push(
                        SessionAction::SendClientMessage {
                            room: r,
                            msg: ClientMessage { id: self.id, msg },
                        },
                    );
                },
                None => {
                    acts.push(
                        SessionAction::Reply(
                            system_message(
                                "You have to join a room before sending messages (i.e. /join Main)",
                            ),
                        ),
                    );
                },
            }
        }
        acts
    }

    /// The directory answered `/list`: one system line per room name, in
    /// the order the directory gave them; the session stops waiting.
    pub fn on_rooms_list(&mut self, rooms: Vec<String>) -> (acts: Vec<SessionAction>)
        requires
            old(self).pending matches Some(PendingRequest::RoomList),
        ensures
            *final(self) == (WsChatSession { pending: None::<PendingRequest>, ..*old(self) }),
            acts@.len() == rooms@.len(),
            forall|i: int| 0 <= i < acts@.len() ==> sys_reply(#[trigger] acts@[i], rooms@[i]@),
    {
        self.pending = None;
        let mut acts: Vec<SessionAction> = Vec::new();
        let n = rooms.len();
        for i in 0..n
            invariant
                n == rooms@.len(),
                acts@.len() == i,
                forall|j: int| 0 <= j < i ==> sys_reply(#[trigger] acts@[j], rooms@[j]@),
        {
            acts.push(SessionAction::Reply(system_message(rooms[i].as_str())));
        }
        acts
    }

    /// The directory answered `/join` with the room's handle: the session
    /// enters the room, announces itself there and confirms to its own
    /// client.
    pub fn on_room_joined(&mut self, room: u64) -> (acts: Vec<SessionAction>)
        requires
            old(self).pending matches Some(PendingRequest::RoomJoin { .. }),
            old(self).name is Some,
        ensures
            final(self).id == old(self).id && final(self).hb == old(self).hb && final(self).name
                == old(self).name,
            final(self).room == Some(room),
            final(self).pending is None,
            final(self).wf(),
            acts@.len() == 2,
            acts@[0] matches SessionAction::SendJoinRoom { room: r, msg } && r == room && msg.id
                == old(self).id && msg.name@ == old(self).name->0@ && msg.session == old(self).id,
            sys_reply(
                acts@[1],
                "You joined room "@ + old(self).pending->0->RoomJoin_room_name@,
            ),
    {
        let room_name = match &self.pending {
            Some(PendingRequest::RoomJoin { room_name }) => room_name.clone(),
            _ => {
                proof {
                    assert(false);
                }
                String::new()
            },
        };
        self.pending = None;
        self.room = Some(room);
        let nm = self.current_name();
        let mut acts: Vec<SessionAction> = Vec::new();
        acts.push(
            SessionAction::SendJoinRoom {
                room,
                msg: JoinRoomMessage { id: self.id, name: nm, session: self.id },
            },
        );
        let confirm = String::from_str("You joined room ").concat(room_name.as_str());
        acts.push(SessionAction::Reply(system_message(confirm.as_str())));
        acts
    }

    /// What closing the session owes the rest of the system: the
    /// directory drops the registration and, when the session sits in a
    /// room, that room is left.  Run on disconnect and on liveness
    /// timeout alike; deregistering twice is harmless.
    pub fn cleanup_actions(&self) -> (acts: Vec<SessionAction>)
        requires
            self.wf(),
        ensures
            acts@.len() == if self.room is Some {
                2int
            } else {
                1int
            },
            acts@[0] matches SessionAction::SendDisconnect(d) && d.id == self.id,
            self.room matches Some(r) ==> leave_act(acts@[1], r, self.id, self.name->0@),
    {
        let mut acts: Vec<SessionAction> = Vec::new();
        acts.push(SessionAction::SendDisconnect(Disconnect { id: self.id }));
        if let Some(r) = self.room {
            let nm = self.current_name();
            acts.push(
                SessionAction::SendLeaveRoom { room: r, msg: LeaveRoomMessage { name: nm, id: self.id } },
            );
        }
        acts
    }

    /// One tick of the periodic liveness probe: when the client stayed
    /// silent longer than the timeout the session must close, otherwise a
    /// ping goes out.
    pub fn probe_tick(&self, now: u64) -> (r: ProbeStep)
        requires
            now >= self.hb,
        ensures
            r is Timeout <==> now - self.hb > CLIENT_TIMEOUT_MS,
            r is SendPing <==> now - self.hb <= CLIENT_TIMEOUT_MS,
    {
        if now - self.hb > CLIENT_TIMEOUT_MS {
            ProbeStep::Timeout
        } else {
            ProbeStep::SendPing
        }
    }
}

/// What one liveness-probe tick decides.
pub enum ProbeStep {
    /// Send a ping and keep going.
    SendPing,
    /// The client is gone: clean up and stop.
    Timeout,
}

// ---------------------------------------------------------------------------
// The inbox model: one client's lines are handled in send order
// ---------------------------------------------------------------------------

/// One observable event at a session's inbox.
pub enum InboxEvent {
    /// A line from the client arrives and queues up.
    Arrive { line: Seq<char> },
    /// The session takes the oldest queued line — only when it is not
    /// awaiting a directory answer.  Handling may open a round trip.
    Process { opens_request: bool },
    /// The awaited directory answer lands.
    Answer,
}

pub struct InboxState {
    pub queue: Seq<Seq<char>>,
    pub handled: Seq<Seq<char>>,
    pub awaiting: bool,
}

pub open spec fn inbox_init() -> InboxState {
    InboxState { queue: Seq::empty(), handled: Seq::empty(), awaiting: false }
}

pub open spec fn inbox_step(s: InboxState, e: InboxEvent) -> InboxState {
    match e {
        InboxEvent::Arrive { line } => InboxState { queue: s.queue.push(line), ..s },
        InboxEvent::Process { opens_request } => if !s.awaiting && s.queue.len() > 0 {
            InboxState {
                queue: s.queue.drop_first(),
                handled: s.handled.push(s.queue[0]),
                awaiting: opens_request,
            }
        } else {
            s
        },
        InboxEvent::Answer => InboxState { awaiting: false, ..s },
    }
}

pub open spec fn inbox_run(es: Seq<InboxEvent>) -> InboxState
    decreases es.len(),
{
    if es.len() == 0 {
        inbox_init()
    } else {
        inbox_step(inbox_run(es.drop_last()), es.last())
    }
}

/// The lines that arrived, in arrival order.
pub open spec fn arrivals(es: Seq<InboxEvent>) -> Seq<Seq<char>>
    decreases es.len(),
{
    if es.len() == 0 {
        Seq::empty()
    } else {
        match es.last() {
            InboxEvent::Arrive { line } => arrivals(es.drop_last()).push(line),
            _ => arrivals(es.drop_last()),
        }
    }
}

/// Lines from one client are never handled out of send order, even while
/// a `/list` or `/join` round trip is outstanding: after any run of
/// events, the handled lines followed by the still-queued lines are
/// exactly the arrived lines — so what was handled is a prefix of what
/// was sent, in order.
pub proof fn lemma_inbox_fifo(es: Seq<InboxEvent>)
    ensures
        inbox_run(es).handled + inbox_run(es).queue == arrivals(es),
        inbox_run(es).handled == arrivals(es).take(inbox_run(es).handled.len() as int),
    decreases es.len(),
{
    if es.len() == 0 {
        assert(inbox_run(es).handled + inbox_run(es).queue =~= arrivals(es));
    } else {
        lemma_inbox_fifo(es.drop_last());
        let s = inbox_run(es.drop_last());
        match es.last() {
            InboxEvent::Arrive { line } => {
                assert(s.handled + s.queue.push(line) =~= (s.handled + s.queue).push(line));
            },
            InboxEvent::Process { opens_request } => {
                if !s.awaiting && s.queue.len() > 0 {
                    assert(s.handled.push(s.queue[0]) + s.queue.drop_first() =~= s.handled
                        + s.queue);
                }
            },
            InboxEvent::Answer => {},
        }
    }
    let t = inbox_run(es);
    assert(t.handled =~= arrivals(es).take(t.handled.len() as int)) by {
        assert(forall|i: int|
            0 <= i < t.handled.len() ==> arrivals(es)[i] == (t.handled + t.queue)[i]);
    }
}

} // verus!
