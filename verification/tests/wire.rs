use chat::msg::{FromClient, FromServer};
use chat::room_id::{RoomId, RoomIdParseError};
use chat::room_name::RoomName;
use chat::wire::{frame, ClientRecord, ServerRecord};

#[test]
fn every_client_message_reads_back_from_its_record() {
    let messages = [
        FromClient::Name("bob".to_string()),
        FromClient::Name(String::new()),
        FromClient::Message("hello \"there\"\n".to_string()),
        FromClient::Create(RoomName::from("Lobby")),
        FromClient::Create(RoomName::from("  padded  ")),
        FromClient::Create(RoomName::with_fallback("", 5)),
        FromClient::Join(RoomId::new(0)),
        FromClient::Join(RoomId::new(26)),
        FromClient::Join(RoomId::new(u32::MAX)),
        FromClient::Leave,
    ];
    for m in messages.iter() {
        assert_eq!(FromClient::from_record(m.to_record()).as_ref(), Ok(m));
    }
}

#[test]
fn every_server_message_reads_back_from_its_record() {
    let messages = [
        FromServer::NewRoom(RoomId::new(0)),
        FromServer::NewRoom(RoomId::new(0xdead_beef)),
        FromServer::Joined(RoomName::from("Lobby")),
        FromServer::Joined(RoomName::with_fallback(" ", 12)),
        FromServer::Message { name: "bob".to_string(), msg: "hi: there".to_string() },
        FromServer::Message { name: String::new(), msg: String::new() },
        FromServer::Sent,
        FromServer::Left,
        FromServer::RoomNotFound,
        FromServer::NotJoined,
        FromServer::Renamed,
        FromServer::Error,
    ];
    for m in messages.iter() {
        assert_eq!(FromServer::from_record(m.to_record()).as_ref(), Ok(m));
        assert_eq!(&m.clone(), m);
    }
}

#[test]
fn an_identifier_travels_in_hex() {
    assert_eq!(
        FromClient::Join(RoomId::new(26)).to_record(),
        ClientRecord::Join("1a".to_string())
    );
    assert_eq!(
        FromServer::NewRoom(RoomId::new(255)).to_record(),
        ServerRecord::NewRoom("ff".to_string())
    );
    assert_eq!(
        FromClient::from_record(ClientRecord::Join("1A".to_string())),
        Ok(FromClient::Join(RoomId::new(26)))
    );
}

#[test]
fn a_record_with_a_bad_identifier_does_not_read() {
    assert_eq!(
        FromClient::from_record(ClientRecord::Join("zz".to_string())),
        Err(RoomIdParseError)
    );
    assert_eq!(FromClient::from_record(ClientRecord::Join(String::new())), Err(RoomIdParseError));
    assert_eq!(
        FromServer::from_record(ServerRecord::NewRoom("100000000".to_string())),
        Err(RoomIdParseError)
    );
}

#[test]
fn a_blank_room_name_is_replaced_when_the_record_is_read() {
    match FromClient::from_record(ClientRecord::Create("  ".to_string())) {
        Ok(FromClient::Create(name)) => assert!(name.as_str().starts_with("room-")),
        other => panic!("{:?}", other),
    }
    match FromServer::from_record(ServerRecord::Joined(String::new())) {
        Ok(FromServer::Joined(name)) => assert!(name.as_str().starts_with("room-")),
        other => panic!("{:?}", other),
    }
    assert_eq!(
        FromClient::from_record(ClientRecord::Create("Lobby".to_string())),
        Ok(FromClient::Create(RoomName::from("Lobby")))
    );
}

#[test]
fn records_keep_their_texts() {
    assert_eq!(
        FromClient::Name("bob".to_string()).to_record(),
        ClientRecord::Name("bob".to_string())
    );
    assert_eq!(
        FromClient::Message("hi".to_string()).to_record(),
        ClientRecord::Message("hi".to_string())
    );
    assert_eq!(
        FromClient::Create(RoomName::from("Lobby")).to_record(),
        ClientRecord::Create("Lobby".to_string())
    );
    assert_eq!(FromClient::Leave.to_record(), ClientRecord::Leave);
    assert_eq!(
        FromServer::Joined(RoomName::from("Lobby")).to_record(),
        ServerRecord::Joined("Lobby".to_string())
    );
    assert_eq!(
        FromServer::Message { name: "a".to_string(), msg: "b".to_string() }.to_record(),
        ServerRecord::Message { name: "a".to_string(), msg: "b".to_string() }
    );
    assert_eq!(FromServer::Sent.to_record(), ServerRecord::Sent);
    assert_eq!(FromServer::Error.to_record(), ServerRecord::Error);
}

#[test]
fn a_line_ends_with_a_line_feed() {
    assert_eq!(frame("\"Sent\"".to_string()), "\"Sent\"\n");
    assert_eq!(frame(String::new()), "\n");
}
