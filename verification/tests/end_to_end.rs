//! The full path of a chat line: two clients connect, name themselves,
//! join the default room, and exchange a chat line and a dice line.

use dice_chat::messages::OutgoingMessageDTO;
use dice_chat::room::{ChatRoom, JoinRoomMessage, RoomEffect};
use dice_chat::server::{ChatServer, Connect, RequestRoom};
use dice_chat::session::{SessionAction, WsChatSession};

/// Drives one session through connect, `/name` and `/join Main`.
fn enter_main(
    dir: &mut ChatServer,
    room: &mut ChatRoom,
    name: &str,
) -> WsChatSession {
    let mut s = WsChatSession::new(0);
    let id = dir.connect(Connect);
    s.on_connected(id);
    s.handle_text(&format!("/name {}", name));
    let acts = s.handle_text("/join Main");
    let room_handle = match &acts[acts.len() - 1] {
        SessionAction::SendRequestRoom(rq) => {
            let (handle, created) = dir.request_room(RequestRoom { name: rq.name.clone() });
            assert!(!created, "Main is seeded at startup");
            handle
        }
        _ => panic!("expected a room request"),
    };
    let acts = s.on_room_joined(room_handle);
    match &acts[0] {
        SessionAction::SendJoinRoom { msg, .. } => {
            room.join(JoinRoomMessage {
                id: msg.id,
                name: msg.name.clone(),
                session: msg.session,
            });
        }
        _ => panic!("expected a join message"),
    }
    s
}

#[test]
fn chat_and_dice_reach_every_member() {
    let mut dir = ChatServer::new();
    let mut room = ChatRoom::new("Main".to_string());
    let a = enter_main(&mut dir, &mut room, "A");
    let b = enter_main(&mut dir, &mut room, "B");
    assert_eq!(vec![a.id, b.id], room.members);

    // client A sends "hello"
    let mut a = a;
    let mut acts = a.handle_text("hello");
    let eff = match acts.remove(0) {
        SessionAction::SendClientMessage { msg, .. } => room.post(msg),
        _ => panic!("expected a client message"),
    };
    match eff {
        RoomEffect::Send { to, msg } => {
            // every member receives the line, the sender included
            assert_eq!(vec![a.id, b.id], to);
            match msg.0 {
                OutgoingMessageDTO::TextMessage(t) => {
                    assert_eq!("hello", t.message);
                    assert_eq!(Some("A".to_string()), t.name);
                    assert!(t.dice_results.is_none());
                }
                _ => panic!("expected a text message"),
            }
        }
        _ => panic!("expected a send effect"),
    }

    // client A rolls "!1d1"
    let mut acts = a.handle_text("!1d1");
    let eff = match acts.remove(0) {
        SessionAction::SendClientMessage { msg, .. } => room.post(msg),
        _ => panic!("expected a client message"),
    };
    match eff {
        RoomEffect::Send { to, msg } => {
            assert_eq!(vec![a.id, b.id], to);
            match msg.0 {
                OutgoingMessageDTO::TextMessage(t) => {
                    assert_eq!("!1d1", t.message);
                    assert_eq!(Some("A".to_string()), t.name);
                    assert_eq!(Some(vec![1]), t.dice_results);
                }
                _ => panic!("expected a text message"),
            }
        }
        _ => panic!("expected a send effect"),
    }
}
