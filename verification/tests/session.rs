use dice_chat::greet::welcome_message;
use dice_chat::messages::OutgoingMessageDTO;
use dice_chat::session::{ClientFrame, ProbeStep, SessionAction, WsChatSession,
    CLIENT_TIMEOUT_MS};

fn system_text(a: &SessionAction) -> String {
    match a {
        SessionAction::Reply(OutgoingMessageDTO::TextMessage(t)) => {
            assert!(t.name.is_none());
            assert!(t.dice_results.is_none());
            t.message.clone()
        }
        _ => panic!("expected a system reply"),
    }
}

#[test]
fn welcome_text() {
    assert_eq!("Welcome to the Earthdawn Dice Roll Chat.", welcome_message());
}

#[test]
fn nameless_sessions_are_turned_away() {
    let mut s = WsChatSession::new(0);
    let acts = s.handle_text("hello");
    assert_eq!(1, acts.len());
    assert_eq!(
        "You need to set a name before doing anything else (i.e. /name ABC)",
        system_text(&acts[0])
    );
    assert!(s.name.is_none());

    let acts = s.handle_text("/list");
    assert_eq!(
        "You need to set a name before doing anything else (i.e. /name ABC)",
        system_text(&acts[0])
    );
    assert!(s.pending.is_none());
}

#[test]
fn naming_confirms_and_is_idempotent() {
    let mut s = WsChatSession::new(0);
    let acts = s.handle_text("/name Alice");
    assert_eq!(1, acts.len());
    assert_eq!("You are now known as: Alice", system_text(&acts[0]));
    assert_eq!(Some("Alice".to_string()), s.name);

    // renaming to the same value just re-asserts the name
    let acts = s.handle_text("/name Alice");
    assert_eq!("You are now known as: Alice", system_text(&acts[0]));
    assert_eq!(Some("Alice".to_string()), s.name);
}

#[test]
fn name_requires_an_argument() {
    let mut s = WsChatSession::new(0);
    let acts = s.handle_text("/name");
    assert_eq!("!!! name is required", system_text(&acts[0]));
    assert!(s.name.is_none());
}

#[test]
fn join_requires_an_argument() {
    let mut s = WsChatSession::new(0);
    s.handle_text("/name Alice");
    let acts = s.handle_text("/join");
    assert_eq!("!!! room name is required", system_text(&acts[0]));
    assert!(s.pending.is_none());
}

#[test]
fn unknown_commands_are_echoed() {
    let mut s = WsChatSession::new(0);
    s.handle_text("/name Alice");
    let acts = s.handle_text("/frobnicate now");
    assert_eq!("!!! unknown command: /frobnicate now", system_text(&acts[0]));
}

#[test]
fn content_without_a_room_is_refused() {
    let mut s = WsChatSession::new(0);
    s.handle_text("/name Alice");
    let acts = s.handle_text("hello");
    assert_eq!(
        "You have to join a room before sending messages (i.e. /join Main)",
        system_text(&acts[0])
    );
}

#[test]
fn join_round_trip_enters_the_room() {
    let mut s = WsChatSession::new(0);
    s.on_connected(42);
    s.handle_text("/name Alice");
    let acts = s.handle_text("/join Main");
    assert_eq!(1, acts.len());
    match &acts[0] {
        SessionAction::SendRequestRoom(rq) => assert_eq!("Main", rq.name),
        _ => panic!("expected a room request"),
    }
    assert!(s.pending.is_some());

    let acts = s.on_room_joined(0);
    assert_eq!(2, acts.len());
    match &acts[0] {
        SessionAction::SendJoinRoom { room, msg } => {
            assert_eq!(0, *room);
            assert_eq!(42, msg.id);
            assert_eq!("Alice", msg.name);
        }
        _ => panic!("expected a join message"),
    }
    assert_eq!("You joined room Main", system_text(&acts[1]));
    assert_eq!(Some(0), s.room);
    assert!(s.pending.is_none());
}

#[test]
fn joining_another_room_leaves_the_old_one_first() {
    let mut s = WsChatSession::new(0);
    s.on_connected(42);
    s.handle_text("/name Alice");
    s.handle_text("/join Main");
    s.on_room_joined(0);
    let acts = s.handle_text("/join Lobby");
    assert_eq!(2, acts.len());
    match &acts[0] {
        SessionAction::SendLeaveRoom { room, msg } => {
            assert_eq!(0, *room);
            assert_eq!(42, msg.id);
            assert_eq!("Alice", msg.name);
        }
        _ => panic!("expected a leave message"),
    }
    match &acts[1] {
        SessionAction::SendRequestRoom(rq) => assert_eq!("Lobby", rq.name),
        _ => panic!("expected a room request"),
    }
}

#[test]
fn renaming_in_a_room_notifies_the_room() {
    let mut s = WsChatSession::new(0);
    s.on_connected(42);
    s.handle_text("/name Alice");
    s.handle_text("/join Main");
    s.on_room_joined(0);
    let acts = s.handle_text("/name Alicia");
    assert_eq!(2, acts.len());
    assert_eq!("You are now known as: Alicia", system_text(&acts[0]));
    assert!(matches!(&acts[1], SessionAction::SendNameChanged { room: 0, .. }));
    assert_eq!("Alicia", s.current_name());
}

#[test]
fn list_answers_flow_back_in_order() {
    let mut s = WsChatSession::new(0);
    s.handle_text("/name Alice");
    let acts = s.handle_text("/list");
    assert_eq!(1, acts.len());
    assert!(matches!(&acts[0], SessionAction::SendListRooms(_)));
    assert!(s.pending.is_some());

    let acts = s.on_rooms_list(vec!["Main".to_string(), "Lobby".to_string()]);
    assert!(s.pending.is_none());
    let lines: Vec<String> = acts.iter().map(system_text).collect();
    assert_eq!(vec!["Main".to_string(), "Lobby".to_string()], lines);
}

#[test]
fn chat_lines_are_trimmed_and_forwarded() {
    let mut s = WsChatSession::new(0);
    s.on_connected(42);
    s.handle_text("/name Alice");
    s.handle_text("/join Main");
    s.on_room_joined(0);
    let acts = s.handle_text("  hello there  ");
    assert_eq!(1, acts.len());
    match &acts[0] {
        SessionAction::SendClientMessage { room, msg } => {
            assert_eq!(0, *room);
            assert_eq!(42, msg.id);
            assert_eq!("hello there", msg.msg.message);
            assert_eq!(Some("Alice".to_string()), msg.msg.name);
            assert!(msg.msg.dice_results.is_none());
        }
        _ => panic!("expected a client message"),
    }
}

#[test]
fn dice_lines_carry_their_results() {
    let mut s = WsChatSession::new(0);
    s.on_connected(42);
    s.handle_text("/name Alice");
    s.handle_text("/join Main");
    s.on_room_joined(0);
    let acts = s.handle_text("!1d1");
    match &acts[0] {
        SessionAction::SendClientMessage { msg, .. } => {
            assert_eq!("!1d1", msg.msg.message);
            assert_eq!(Some("Alice".to_string()), msg.msg.name);
            assert_eq!(Some(vec![1]), msg.msg.dice_results);
        }
        _ => panic!("expected a client message"),
    }
}

#[test]
fn liveness_signals_refresh_the_heartbeat() {
    let mut s = WsChatSession::new(0);
    let acts = s.handle_frame(ClientFrame::Ping, 100);
    assert_eq!(100, s.hb);
    assert!(matches!(acts[0], SessionAction::Pong));

    let acts = s.handle_frame(ClientFrame::Pong, 250);
    assert_eq!(250, s.hb);
    assert!(acts.is_empty());
}

#[test]
fn probe_tick_times_out_silent_clients() {
    let mut s = WsChatSession::new(0);
    s.handle_frame(ClientFrame::Pong, 1000);
    assert!(matches!(s.probe_tick(1000 + CLIENT_TIMEOUT_MS), ProbeStep::SendPing));
    assert!(matches!(s.probe_tick(1000 + CLIENT_TIMEOUT_MS + 1), ProbeStep::Timeout));
}

#[test]
fn cleanup_deregisters_and_leaves_the_room() {
    let mut s = WsChatSession::new(0);
    s.on_connected(42);
    s.handle_text("/name Alice");
    s.handle_text("/join Main");
    s.on_room_joined(0);
    let acts = s.cleanup_actions();
    assert_eq!(2, acts.len());
    match &acts[0] {
        SessionAction::SendDisconnect(d) => assert_eq!(42, d.id),
        _ => panic!("expected a disconnect"),
    }
    match &acts[1] {
        SessionAction::SendLeaveRoom { room, msg } => {
            assert_eq!(0, *room);
            assert_eq!("Alice", msg.name);
        }
        _ => panic!("expected a leave message"),
    }

    let lonely = WsChatSession::new(0);
    assert_eq!(1, lonely.cleanup_actions().len());
}

#[test]
fn close_frames_stop_the_session() {
    let mut s = WsChatSession::new(0);
    let acts = s.handle_frame(ClientFrame::Close, 0);
    assert!(matches!(acts[0], SessionAction::Stop));
    let acts = s.handle_frame(ClientFrame::Continuation, 0);
    assert!(matches!(acts[0], SessionAction::Stop));
    let acts = s.handle_frame(ClientFrame::Nop, 0);
    assert!(acts.is_empty());
}
