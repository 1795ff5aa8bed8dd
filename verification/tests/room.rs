use dice_chat::messages::{OutgoingMessageDTO, TextMessageDTO};
use dice_chat::room::{ChatRoom, ClientMessage, JoinRoomMessage, LeaveRoomMessage,
    NameChangedMessage, RoomEffect};

fn join_msg(id: u64, name: &str) -> JoinRoomMessage {
    JoinRoomMessage { id, name: name.to_string(), session: id }
}

#[test]
fn join_inserts_and_notifies_current_members() {
    let mut room = ChatRoom::new("Main".to_string());
    let (effs, gather) = room.join(join_msg(1, "A"));
    assert_eq!(vec![1u64], room.members);
    assert_eq!(2, effs.len());
    match &effs[0] {
        RoomEffect::Send { to, msg } => {
            // the joiner is not yet a member, so nobody receives the notice
            assert!(to.is_empty());
            match &msg.0 {
                OutgoingMessageDTO::TextMessage(t) => {
                    assert_eq!("'A' joined the room", t.message);
                    assert!(t.name.is_none());
                }
                _ => panic!("expected a text message"),
            }
        }
        _ => panic!("expected a send effect"),
    }
    match &effs[1] {
        RoomEffect::QueryNames { to } => assert_eq!(&vec![1u64], to),
        _ => panic!("expected a name query"),
    }
    assert_eq!(vec![1u64], gather.pending);
    assert!(gather.collected.is_empty());

    let (effs2, _) = room.join(join_msg(2, "B"));
    assert_eq!(vec![1u64, 2], room.members);
    match &effs2[0] {
        RoomEffect::Send { to, .. } => assert_eq!(&vec![1u64], to),
        _ => panic!("expected a send effect"),
    }
}

#[test]
fn rejoining_does_not_duplicate_membership() {
    let mut room = ChatRoom::new("Main".to_string());
    room.join(join_msg(7, "A"));
    room.join(join_msg(7, "A"));
    assert_eq!(vec![7u64], room.members);
}

#[test]
fn name_change_only_refreshes_roster() {
    let mut room = ChatRoom::new("Main".to_string());
    room.join(join_msg(1, "A"));
    let (gather, query) = room.name_changed(NameChangedMessage);
    assert_eq!(vec![1u64], room.members);
    assert_eq!(vec![1u64], gather.pending);
    match query {
        RoomEffect::QueryNames { to } => assert_eq!(vec![1u64], to),
        _ => panic!("expected a name query"),
    }
}

#[test]
fn leave_removes_and_notifies_remaining() {
    let mut room = ChatRoom::new("Main".to_string());
    room.join(join_msg(1, "A"));
    room.join(join_msg(2, "B"));
    let (effs, _) = room.leave(LeaveRoomMessage { name: "A".to_string(), id: 1 });
    assert_eq!(vec![2u64], room.members);
    match &effs[0] {
        RoomEffect::Send { to, msg } => {
            assert_eq!(&vec![2u64], to);
            match &msg.0 {
                OutgoingMessageDTO::TextMessage(t) => {
                    assert_eq!("'A' left the room", t.message)
                }
                _ => panic!("expected a text message"),
            }
        }
        _ => panic!("expected a send effect"),
    }
    // leaving again is harmless
    let (_, _) = room.leave(LeaveRoomMessage { name: "A".to_string(), id: 1 });
    assert_eq!(vec![2u64], room.members);
}

#[test]
fn post_broadcasts_verbatim_to_all_members() {
    let mut room = ChatRoom::new("Main".to_string());
    room.join(join_msg(1, "A"));
    room.join(join_msg(2, "B"));
    let payload = TextMessageDTO::chat("hello", "A");
    let eff = room.post(ClientMessage { id: 1, msg: payload });
    match eff {
        RoomEffect::Send { to, msg } => {
            assert_eq!(vec![1u64, 2], to);
            match msg.0 {
                OutgoingMessageDTO::TextMessage(t) => {
                    assert_eq!("hello", t.message);
                    assert_eq!(Some("A".to_string()), t.name);
                    assert!(t.dice_results.is_none());
                }
                _ => panic!("expected a text message"),
            }
        }
        _ => panic!("expected a send effect"),
    }
}

#[test]
fn completed_gather_reflects_membership_exactly() {
    let mut room = ChatRoom::new("Main".to_string());
    room.join(join_msg(1, "A"));
    room.join(join_msg(2, "B"));
    room.join(join_msg(3, "C"));
    let (mut gather, _) = room.name_changed(NameChangedMessage);
    assert_eq!(vec![1u64, 2, 3], gather.pending);
    // replies arrive out of membership order
    assert!(!gather.add_reply(2, "B".to_string()));
    assert!(!gather.add_reply(3, "C".to_string()));
    assert!(gather.add_reply(1, "A".to_string()));
    assert_eq!(vec!["B".to_string(), "C".to_string(), "A".to_string()], gather.collected);
    let eff = gather.roster_message(&room);
    match eff {
        RoomEffect::Send { to, msg } => {
            assert_eq!(vec![1u64, 2, 3], to);
            match msg.0 {
                OutgoingMessageDTO::RoomState(rs) => {
                    assert_eq!("Main", rs.room_name);
                    assert_eq!(vec!["B".to_string(), "C".to_string(), "A".to_string()], rs.members);
                }
                _ => panic!("expected a roster snapshot"),
            }
        }
        _ => panic!("expected a send effect"),
    }
}

#[test]
fn unreachable_member_counts_with_placeholder() {
    let mut room = ChatRoom::new("Main".to_string());
    room.join(join_msg(1, "A"));
    room.join(join_msg(2, "B"));
    let (mut gather, _) = room.name_changed(NameChangedMessage);
    assert!(!gather.add_reply(1, "A".to_string()));
    assert!(gather.add_reply(2, "<<unknown name>>".to_string()));
    assert_eq!(vec!["A".to_string(), "<<unknown name>>".to_string()], gather.collected);
}

#[test]
fn renaming_and_rejoining_do_not_duplicate_roster_entries() {
    let mut room = ChatRoom::new("Main".to_string());
    room.join(join_msg(7, "A"));
    room.name_changed(NameChangedMessage);
    room.join(join_msg(7, "A"));
    let (mut gather, _) = room.name_changed(NameChangedMessage);
    assert!(gather.add_reply(7, "A".to_string()));
    let eff = gather.roster_message(&room);
    match eff {
        RoomEffect::Send { msg, .. } => match msg.0 {
            OutgoingMessageDTO::RoomState(rs) => {
                assert_eq!(vec!["A".to_string()], rs.members)
            }
            _ => panic!("expected a roster snapshot"),
        },
        _ => panic!("expected a send effect"),
    }
}

#[test]
fn roster_after_churn_reflects_the_live_set() {
    let mut room = ChatRoom::new("Main".to_string());
    room.join(join_msg(1, "A"));
    room.join(join_msg(2, "B"));
    room.join(join_msg(3, "C"));
    room.leave(LeaveRoomMessage { name: "B".to_string(), id: 2 });
    let (mut gather, _) = room.name_changed(NameChangedMessage);
    assert_eq!(vec![1u64, 3], gather.pending);
    assert!(!gather.add_reply(1, "A".to_string()));
    assert!(gather.add_reply(3, "C".to_string()));
    assert_eq!(vec!["A".to_string(), "C".to_string()], gather.collected);
}
