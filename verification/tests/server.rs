use chat::msg::{FromClient, FromServer};
use chat::peer::Peer;
use chat::room_id::RoomId;
use chat::room_name::RoomName;
use chat::server::Server;

fn peer(n: u16) -> Peer {
    Peer::V4 { ip: 0x7f00_0001, port: n }
}

fn said(name: &str, msg: &str) -> FromServer {
    FromServer::Message { name: name.to_string(), msg: msg.to_string() }
}

fn members(server: &Server, id: u32) -> Vec<Peer> {
    server.lookup(RoomId::new(id)).expect("room").1
}

#[test]
fn a_new_relay_knows_nothing() {
    let mut server = Server::new();
    assert_eq!(server.lookup(RoomId::new(0)), None);
    assert_eq!(server.room_of(peer(1)), None);
    assert_eq!(server.name_of(peer(1)), "unknown");
    assert_eq!(server.send_all_from(peer(1)), Vec::new());
}

#[test]
fn a_message_reaches_every_member_exactly_once() {
    let mut server = Server::new();
    let (a, b, c, d) = (peer(1), peer(2), peer(3), peer(4));
    server.rename(a, "alice".to_string());
    server.create(a, RoomName::from("Lobby"), RoomId::new(7));
    server.join(b, RoomId::new(7));
    server.join(c, RoomId::new(7));
    server.create(d, RoomName::from("Other"), RoomId::new(8));

    assert_eq!(server.route_message(a, "hi".to_string()), FromServer::Sent);

    assert_eq!(server.send_all_from(a), vec![said("alice", "hi")]);
    assert_eq!(server.send_all_from(b), vec![said("alice", "hi")]);
    assert_eq!(server.send_all_from(c), vec![said("alice", "hi")]);
    assert_eq!(server.send_all_from(d), Vec::new());
}

#[test]
fn messages_wait_in_the_order_in_which_they_came() {
    let mut server = Server::new();
    let (a, b) = (peer(1), peer(2));
    server.connect_with(a, 1);
    server.connect_with(b, 2);
    server.process_incoming(FromClient::Create(RoomName::from("Lobby")), a);
    let id = match server.send_all_from(a).pop() {
        Some(FromServer::NewRoom(id)) => id,
        other => panic!("{:?}", other),
    };
    server.process_incoming(FromClient::Join(id), b);
    server.process_incoming(FromClient::Message("one".to_string()), a);
    server.process_incoming(FromClient::Message("two".to_string()), b);
    server.process_incoming(FromClient::Message("three".to_string()), a);

    assert_eq!(
        server.send_all_from(a),
        vec![
            said("user-1", "one"),
            FromServer::Sent,
            said("user-2", "two"),
            said("user-1", "three"),
            FromServer::Sent,
        ]
    );
    assert_eq!(
        server.send_all_from(b),
        vec![
            FromServer::Joined(RoomName::from("Lobby")),
            said("user-1", "one"),
            said("user-2", "two"),
            FromServer::Sent,
            said("user-1", "three"),
        ]
    );
}

#[test]
fn joining_another_room_moves_the_peer() {
    let mut server = Server::new();
    let (a, b, p) = (peer(1), peer(2), peer(3));
    server.create(a, RoomName::from("R1"), RoomId::new(1));
    server.create(b, RoomName::from("R2"), RoomId::new(2));
    assert_eq!(server.join(p, RoomId::new(1)), FromServer::Joined(RoomName::from("R1")));
    assert_eq!(members(&server, 1), vec![a, p]);

    assert_eq!(server.join(p, RoomId::new(2)), FromServer::Joined(RoomName::from("R2")));

    assert_eq!(members(&server, 1), vec![a]);
    assert_eq!(members(&server, 2), vec![b, p]);
    assert_eq!(server.room_of(p), Some((RoomName::from("R2"), vec![b, p])));
}

#[test]
fn joining_the_same_room_again_does_not_duplicate_the_entry() {
    let mut server = Server::new();
    let (a, p, c) = (peer(1), peer(2), peer(3));
    server.create(a, RoomName::from("R"), RoomId::new(1));
    server.join(p, RoomId::new(1));
    server.join(c, RoomId::new(1));
    assert_eq!(members(&server, 1), vec![a, p, c]);

    assert_eq!(server.join(p, RoomId::new(1)), FromServer::Joined(RoomName::from("R")));
    assert_eq!(members(&server, 1), vec![a, c, p]);

    assert_eq!(server.join(p, RoomId::new(1)), FromServer::Joined(RoomName::from("R")));
    assert_eq!(members(&server, 1), vec![a, c, p]);

    server.route_message(a, "x".to_string());
    assert_eq!(server.send_all_from(p).len(), 1);
}

#[test]
fn joining_an_unknown_room_changes_nothing() {
    let mut server = Server::new();
    let (a, p) = (peer(1), peer(2));
    server.create(a, RoomName::from("R"), RoomId::new(1));
    server.join(p, RoomId::new(1));
    assert_eq!(server.join(p, RoomId::new(99)), FromServer::RoomNotFound);
    assert_eq!(members(&server, 1), vec![a, p]);
    assert_eq!(server.room_of(p).map(|room| room.0), Some(RoomName::from("R")));
}

#[test]
fn creating_a_room_moves_the_creator_into_it() {
    let mut server = Server::new();
    let (a, p) = (peer(1), peer(2));
    server.create(a, RoomName::from("R1"), RoomId::new(1));
    server.join(p, RoomId::new(1));
    assert_eq!(
        server.create(p, RoomName::from("R2"), RoomId::new(2)),
        FromServer::NewRoom(RoomId::new(2))
    );
    assert_eq!(members(&server, 1), vec![a]);
    assert_eq!(server.lookup(RoomId::new(2)), Some((RoomName::from("R2"), vec![p])));
}

#[test]
fn the_last_member_leaves_an_empty_room_behind() {
    let mut server = Server::new();
    let a = peer(1);
    server.create(a, RoomName::from("R1"), RoomId::new(1));
    server.create(a, RoomName::from("R2"), RoomId::new(2));
    assert_eq!(server.lookup(RoomId::new(1)), Some((RoomName::from("R1"), Vec::new())));
    assert_eq!(members(&server, 2), vec![a]);
}

#[test]
fn an_identifier_given_out_twice_stands_for_the_later_room() {
    let mut server = Server::new();
    let (a, b, c) = (peer(1), peer(2), peer(3));
    server.process_msg_with(FromClient::Create(RoomName::from("old")), a, RoomId::new(5));
    server.process_msg_with(FromClient::Create(RoomName::from("new")), b, RoomId::new(5));

    assert_eq!(server.lookup(RoomId::new(5)), Some((RoomName::from("new"), vec![b])));
    assert_eq!(server.room_of(a), Some((RoomName::from("old"), vec![a])));

    server.join(c, RoomId::new(5));
    server.route_message(a, "alone".to_string());
    assert_eq!(server.send_all_from(a).len(), 1);
    assert_eq!(server.send_all_from(b), Vec::new());
    assert_eq!(server.send_all_from(c), Vec::new());
}

#[test]
fn a_message_outside_any_room_is_not_joined_and_goes_nowhere() {
    let mut server = Server::new();
    let (a, p) = (peer(1), peer(2));
    server.create(a, RoomName::from("R"), RoomId::new(1));
    assert_eq!(server.route_message(p, "hello?".to_string()), FromServer::NotJoined);
    assert_eq!(
        server.process_msg(FromClient::Message("hello?".to_string()), p),
        FromServer::NotJoined
    );
    assert_eq!(server.send_all_from(a), Vec::new());
    assert_eq!(server.send_all_from(p), Vec::new());

    server.process_incoming(FromClient::Message("hello?".to_string()), p);
    assert_eq!(server.send_all_from(a), Vec::new());
    assert_eq!(server.send_all_from(p), vec![FromServer::NotJoined]);
}

#[test]
fn leaving_clears_the_membership_entry() {
    let mut server = Server::new();
    let (a, p) = (peer(1), peer(2));
    assert_eq!(server.leave(p), FromServer::NotJoined);

    server.create(a, RoomName::from("R"), RoomId::new(1));
    server.join(p, RoomId::new(1));
    assert_eq!(server.process_msg(FromClient::Leave, p), FromServer::Left);
    assert_eq!(server.room_of(p), None);
    assert_eq!(members(&server, 1), vec![a]);

    assert_eq!(server.process_msg(FromClient::Leave, p), FromServer::NotJoined);
    assert_eq!(server.route_message(p, "x".to_string()), FromServer::NotJoined);
    assert_eq!(members(&server, 1), vec![a]);
}

#[test]
fn a_created_room_gets_an_identifier_under_which_it_is_found() {
    let mut server = Server::new();
    let a = peer(1);
    let id = match server.process_msg(FromClient::Create(RoomName::from("Lobby")), a) {
        FromServer::NewRoom(id) => id,
        other => panic!("{:?}", other),
    };
    assert_eq!(server.lookup(id), Some((RoomName::from("Lobby"), vec![a])));
}

#[test]
fn a_room_created_under_a_blank_name_has_a_generated_one() {
    let mut server = Server::new();
    let a = peer(1);
    let command = FromClient::from_str("!create   ").expect("command");
    server.process_msg_with(command, a, RoomId::new(3));
    let (name, _) = server.lookup(RoomId::new(3)).expect("room");
    assert!(!name.to_string().trim().is_empty());
    assert!(name.to_string().starts_with("room-"));

    let command = FromClient::from_str("!create Lobby").expect("command");
    server.process_msg_with(command, a, RoomId::new(4));
    assert_eq!(server.lookup(RoomId::new(4)).expect("room").0.as_str(), "Lobby");
}

#[test]
fn display_names_default_and_change() {
    let mut server = Server::new();
    let (a, b) = (peer(1), peer(2));
    assert_eq!(server.name_of(a), "unknown");
    server.connect_with(a, 0);
    assert_eq!(server.name_of(a), "user-0");
    server.connect_with(a, 4_294_967_295);
    assert_eq!(server.name_of(a), "user-4294967295");
    server.connect(b);
    let name = server.name_of(b);
    let number = name.strip_prefix("user-").expect("default name");
    assert_eq!(number.parse::<u32>().map(|n| n.to_string()), Ok(number.to_string()));

    assert_eq!(
        server.process_msg(FromClient::Name("bob".to_string()), b),
        FromServer::Renamed
    );
    assert_eq!(server.name_of(b), "bob");
    assert_eq!(server.name_of(a), "user-4294967295");
}

#[test]
fn a_name_outlives_leaving_and_joining() {
    let mut server = Server::new();
    let a = peer(1);
    server.rename(a, "alice".to_string());
    server.create(a, RoomName::from("R"), RoomId::new(1));
    server.leave(a);
    server.join(a, RoomId::new(1));
    server.route_message(a, "back".to_string());
    assert_eq!(server.send_all_from(a), vec![said("alice", "back")]);
}

#[test]
fn a_peer_without_a_name_speaks_as_unknown() {
    let mut server = Server::new();
    let a = peer(1);
    server.create(a, RoomName::from("R"), RoomId::new(1));
    server.route_message(a, "hi".to_string());
    assert_eq!(server.send_all_from(a), vec![said("unknown", "hi")]);
}

#[test]
fn a_drained_mailbox_is_empty_and_fills_again() {
    let mut server = Server::new();
    let a = peer(1);
    server.process_incoming(FromClient::Leave, a);
    server.process_incoming(FromClient::Name("a".to_string()), a);
    assert_eq!(server.send_all_from(a), vec![FromServer::NotJoined, FromServer::Renamed]);
    assert_eq!(server.send_all_from(a), Vec::new());
    server.process_incoming(FromClient::Leave, a);
    assert_eq!(server.send_all_from(a), vec![FromServer::NotJoined]);
}

#[test]
fn peers_are_told_apart_by_every_part_of_their_address() {
    let mut server = Server::new();
    let peers = [
        Peer::V4 { ip: 1, port: 1 },
        Peer::V4 { ip: 1, port: 2 },
        Peer::V4 { ip: 2, port: 1 },
        Peer::V6 { ip: 1, port: 1, flowinfo: 0, scope_id: 0 },
        Peer::V6 { ip: 1, port: 1, flowinfo: 1, scope_id: 0 },
        Peer::V6 { ip: 1, port: 1, flowinfo: 0, scope_id: 1 },
        Peer::V6 { ip: 1 << 100, port: 1, flowinfo: 0, scope_id: 0 },
    ];
    server.create(peers[0], RoomName::from("R"), RoomId::new(1));
    for p in &peers[1..] {
        server.join(*p, RoomId::new(1));
    }
    assert_eq!(members(&server, 1), peers.to_vec());
    server.route_message(peers[3], "x".to_string());
    for p in peers {
        assert_eq!(server.send_all_from(p).len(), 1);
    }
    server.leave(peers[4]);
    assert_eq!(members(&server, 1).len(), 6);
    assert!(!members(&server, 1).contains(&peers[4]));
}
