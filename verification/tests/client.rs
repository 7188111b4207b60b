use chat::client::{process_incoming, Notice};
use chat::conn::{after_write, Inbound, Next, Written};
use chat::line_input::{Key, LineInput, Step};
use chat::msg::{FromClient, FromServer};
use chat::peer::Peer;
use chat::room_id::RoomId;
use chat::room_name::RoomName;
use chat::server::Server;

fn info(s: &str) -> Notice {
    Notice::Info(s.to_string())
}

fn error(s: &str) -> Notice {
    Notice::Error(s.to_string())
}

#[test]
fn each_message_from_the_server_has_its_line() {
    assert_eq!(
        process_incoming(&FromServer::Joined(RoomName::from("Lobby"))),
        info("Joined: Lobby")
    );
    assert_eq!(process_incoming(&FromServer::Left), info("Left room"));
    assert_eq!(
        process_incoming(&FromServer::Message { name: "bob".to_string(), msg: "hi".to_string() }),
        info("bob: hi")
    );
    assert_eq!(
        process_incoming(&FromServer::NewRoom(RoomId::new(26))),
        info("Created new room: 1a")
    );
    assert_eq!(
        process_incoming(&FromServer::NewRoom(RoomId::new(0))),
        info("Created new room: 0")
    );
    assert_eq!(process_incoming(&FromServer::RoomNotFound), error("Couldn't find this room"));
    assert_eq!(process_incoming(&FromServer::NotJoined), error("You need to join to a room"));
    assert_eq!(process_incoming(&FromServer::Renamed), info("Successfully changed name"));
    assert_eq!(process_incoming(&FromServer::Sent), Notice::Nothing);
    assert_eq!(process_incoming(&FromServer::Error), error("Server couldn't respond"));
}

#[test]
fn typed_characters_make_the_line() {
    let mut line = LineInput::new("> ");
    assert_eq!(line.shown(), "> ");
    assert_eq!(line.press(Key::Char('h')), Step::Echo('h'));
    assert_eq!(line.press(Key::Char('é')), Step::Echo('é'));
    assert_eq!(line.press(Key::Other), Step::Ignore);
    assert_eq!(line.shown(), "> hé");
    assert_eq!(line.press(Key::Enter), Step::Done("hé".to_string()));
}

#[test]
fn backspace_takes_the_last_character_off() {
    let mut line = LineInput::new("> ");
    assert_eq!(line.press(Key::Backspace), Step::Ignore);
    assert_eq!(line.shown(), "> ");
    line.press(Key::Char('a'));
    line.press(Key::Char('b'));
    assert_eq!(line.press(Key::Backspace), Step::Erase);
    assert_eq!(line.shown(), "> a");
    assert_eq!(line.press(Key::Backspace), Step::Erase);
    assert_eq!(line.press(Key::Backspace), Step::Ignore);
    assert_eq!(line.press(Key::Enter), Step::Done(String::new()));
}

#[test]
fn only_a_reset_stops_the_writer() {
    assert_eq!(after_write(Written::Done), Next::Continue);
    assert_eq!(after_write(Written::Failed), Next::Continue);
    assert_eq!(after_write(Written::Closed), Next::Stop);
}

#[test]
fn only_a_closed_connection_stops_the_reader() {
    let mut server = Server::new();
    let p = Peer::V4 { ip: 1, port: 1 };
    assert_eq!(server.after_read(p, Inbound::Malformed), Next::Continue);
    assert_eq!(server.after_read(p, Inbound::Failed), Next::Continue);
    assert_eq!(server.send_all_from(p), Vec::new());
    assert_eq!(
        server.after_read(p, Inbound::Command(FromClient::Name("bob".to_string()))),
        Next::Continue
    );
    assert_eq!(server.name_of(p), "bob");
    assert_eq!(server.send_all_from(p), vec![FromServer::Renamed]);
    assert_eq!(server.after_read(p, Inbound::Closed), Next::Stop);
    assert_eq!(server.name_of(p), "bob");
    assert_eq!(server.send_all_from(p), Vec::new());
}
