use dice_chat::server::{ChatServer, Connect, Disconnect, ListRooms, RequestRoom};

#[test]
fn new_directory_holds_the_default_room() {
    let dir = ChatServer::new();
    assert_eq!(1, dir.rooms.len());
    assert_eq!("Main", dir.rooms[0].name);
    assert_eq!(0, dir.rooms[0].id);
    assert!(dir.sessions.is_empty());
}

#[test]
fn connect_assigns_fresh_unique_ids() {
    let mut dir = ChatServer::new();
    let a = dir.connect(Connect);
    let b = dir.connect(Connect);
    let c = dir.connect(Connect);
    assert!(a != b && b != c && a != c);
    assert_eq!(vec![a, b, c], dir.sessions);
}

#[test]
fn disconnect_is_idempotent() {
    let mut dir = ChatServer::new();
    let a = dir.connect(Connect);
    let b = dir.connect(Connect);
    dir.disconnect(Disconnect { id: a });
    assert_eq!(vec![b], dir.sessions);
    dir.disconnect(Disconnect { id: a });
    assert_eq!(vec![b], dir.sessions);
}

#[test]
fn request_room_reuses_an_existing_room() {
    let mut dir = ChatServer::new();
    let (id, created) = dir.request_room(RequestRoom { name: "Main".to_string() });
    assert_eq!(0, id);
    assert!(!created);
    assert_eq!(1, dir.rooms.len());
}

#[test]
fn first_reference_creates_then_everyone_agrees() {
    let mut dir = ChatServer::new();
    let (first, created) = dir.request_room(RequestRoom { name: "Lobby".to_string() });
    assert!(created);
    // a second request for the same unknown name resolves to the same room
    let (second, created_again) = dir.request_room(RequestRoom { name: "Lobby".to_string() });
    assert!(!created_again);
    assert_eq!(first, second);
    assert_eq!(2, dir.rooms.len());
}

#[test]
fn list_rooms_names_every_room() {
    let mut dir = ChatServer::new();
    dir.request_room(RequestRoom { name: "Lobby".to_string() });
    dir.request_room(RequestRoom { name: "Dice".to_string() });
    let names = dir.list_rooms(ListRooms);
    assert_eq!(
        vec!["Main".to_string(), "Lobby".to_string(), "Dice".to_string()],
        names
    );
}
