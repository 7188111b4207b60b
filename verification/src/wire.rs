//! Messages as they travel: a record is a tag with its payload as plain text,
//! and goes over the connection as one line. A room identifier travels in its
//! text form, a room name as it reads.

use crate::msg::{FromClient, FromClientView, FromServer, FromServerView};
use crate::room_id::{RoomId, RoomIdParseError};
use crate::room_name::{name_for, RoomName};
use crate::text::{hex, is_blank, lemma_hex_roundtrip, parse_hex_u32};
use vstd::prelude::*;

verus! {

/// What a client sends, as it travels.
#[derive(Debug, PartialEq, Eq)]
pub enum ClientRecord {
    Name(String),
    Message(String),
    Create(String),
    Join(String),
    Leave,
}

/// What the server sends, as it travels.
#[derive(Debug, PartialEq, Eq)]
pub enum ServerRecord {
    NewRoom(String),
    Joined(String),
    Message { name: String, msg: String },
    Sent,
    Left,
    RoomNotFound,
    NotJoined,
    Renamed,
    Error,
}

/// A `ClientRecord` with its texts as character sequences.
pub enum ClientRecordView {
    Name(Seq<char>),
    Message(Seq<char>),
    Create(Seq<char>),
    Join(Seq<char>),
    Leave,
}

/// A `ServerRecord` with its texts as character sequences.
pub enum ServerRecordView {
    NewRoom(Seq<char>),
    Joined(Seq<char>),
    Message { name: Seq<char>, msg: Seq<char> },
    Sent,
    Left,
    RoomNotFound,
    NotJoined,
    Renamed,
    Error,
}

impl View for ClientRecord {
    type V = ClientRecordView;

    open spec fn view(&self) -> ClientRecordView {
        match self {
            ClientRecord::Name(name) => ClientRecordView::Name(name@),
            ClientRecord::Message(msg) => ClientRecordView::Message(msg@),
            ClientRecord::Create(name) => ClientRecordView::Create(name@),
            ClientRecord::Join(id) => ClientRecordView::Join(id@),
            ClientRecord::Leave => ClientRecordView::Leave,
        }
    }
}

impl View for ServerRecord {
    type V = ServerRecordView;

    open spec fn view(&self) -> ServerRecordView {
        match self {
            ServerRecord::NewRoom(id) => ServerRecordView::NewRoom(id@),
            ServerRecord::Joined(name) => ServerRecordView::Joined(name@),
            ServerRecord::Message { name, msg } => ServerRecordView::Message {
                name: name@,
                msg: msg@,
            },
            ServerRecord::Sent => ServerRecordView::Sent,
            ServerRecord::Left => ServerRecordView::Left,
            ServerRecord::RoomNotFound => ServerRecordView::RoomNotFound,
            ServerRecord::NotJoined => ServerRecordView::NotJoined,
            ServerRecord::Renamed => ServerRecordView::Renamed,
            ServerRecord::Error => ServerRecordView::Error,
        }
    }
}

/// The record that the client's message `msg` travels as.
pub open spec fn client_record(msg: FromClientView) -> ClientRecordView {
    match msg {
        FromClientView::Name(name) => ClientRecordView::Name(name),
        FromClientView::Message(text) => ClientRecordView::Message(text),
        FromClientView::Create(name) => ClientRecordView::Create(name),
        FromClientView::Join(id) => ClientRecordView::Join(hex(id as nat)),
        FromClientView::Leave => ClientRecordView::Leave,
    }
}

/// The client's message that the record `record` stands for. A room that is
/// to be created under a blank name gets a generated one, from the number
/// `n`. A record with a room identifier that does not read is an error.
pub open spec fn read_client_record(record: ClientRecordView, n: nat) -> Result<
    FromClientView,
    RoomIdParseError,
> {
    match record {
        ClientRecordView::Name(name) => Ok(FromClientView::Name(name)),
        ClientRecordView::Message(text) => Ok(FromClientView::Message(text)),
        ClientRecordView::Create(name) => Ok(FromClientView::Create(name_for(name, n))),
        ClientRecordView::Join(id) => match parse_hex_u32(id) {
            Some(id) => Ok(FromClientView::Join(id)),
            None => Err(RoomIdParseError),
        },
        ClientRecordView::Leave => Ok(FromClientView::Leave),
    }
}

/// The record that the server's message `msg` travels as.
pub open spec fn server_record(msg: FromServerView) -> ServerRecordView {
    match msg {
        FromServerView::NewRoom(id) => ServerRecordView::NewRoom(hex(id as nat)),
        FromServerView::Joined(name) => ServerRecordView::Joined(name),
        FromServerView::Message { name, msg } => ServerRecordView::Message { name, msg },
        FromServerView::Sent => ServerRecordView::Sent,
        FromServerView::Left => ServerRecordView::Left,
        FromServerView::RoomNotFound => ServerRecordView::RoomNotFound,
        FromServerView::NotJoined => ServerRecordView::NotJoined,
        FromServerView::Renamed => ServerRecordView::Renamed,
        FromServerView::Error => ServerRecordView::Error,
    }
}

/// The server's message that the record `record` stands for. A blank room
/// name is replaced by a generated one, from the number `n`. A record with a
/// room identifier that does not read is an error.
pub open spec fn read_server_record(record: ServerRecordView, n: nat) -> Result<
    FromServerView,
    RoomIdParseError,
> {
    match record {
        ServerRecordView::NewRoom(id) => match parse_hex_u32(id) {
            Some(id) => Ok(FromServerView::NewRoom(id)),
            None => Err(RoomIdParseError),
        },
        ServerRecordView::Joined(name) => Ok(FromServerView::Joined(name_for(name, n))),
        ServerRecordView::Message { name, msg } => Ok(FromServerView::Message { name, msg }),
        ServerRecordView::Sent => Ok(FromServerView::Sent),
        ServerRecordView::Left => Ok(FromServerView::Left),
        ServerRecordView::RoomNotFound => Ok(FromServerView::RoomNotFound),
        ServerRecordView::NotJoined => Ok(FromServerView::NotJoined),
        ServerRecordView::Renamed => Ok(FromServerView::Renamed),
        ServerRecordView::Error => Ok(FromServerView::Error),
    }
}

/// Whether `msg` can be the view of a client's message: the name of a room to
/// be created is not blank.
pub open spec fn client_message_valid(msg: FromClientView) -> bool {
    msg matches FromClientView::Create(name) ==> !is_blank(name)
}

/// Whether `msg` can be the view of a server's message: the name of a room
/// that was joined is not blank.
pub open spec fn server_message_valid(msg: FromServerView) -> bool {
    msg matches FromServerView::Joined(name) ==> !is_blank(name)
}

/// The result of reading a record, with the message, if there is one, as its
/// view.
pub open spec fn client_read_view(r: Result<FromClient, RoomIdParseError>) -> Result<
    FromClientView,
    RoomIdParseError,
> {
    match r {
        Ok(msg) => Ok(msg@),
        Err(e) => Err(e),
    }
}

/// The result of reading a record, with the message, if there is one, as its
/// view.
pub open spec fn server_read_view(r: Result<FromServer, RoomIdParseError>) -> Result<
    FromServerView,
    RoomIdParseError,
> {
    match r {
        Ok(msg) => Ok(msg@),
        Err(e) => Err(e),
    }
}

/// A client's message that was turned into a record reads back as it was.
pub proof fn lemma_client_roundtrip(msg: FromClientView, n: nat)
    requires
        client_message_valid(msg),
    ensures
        read_client_record(client_record(msg), n) == Ok::<FromClientView, RoomIdParseError>(msg),
{
    if let FromClientView::Join(id) = msg {
        lemma_hex_roundtrip(id as nat);
    }
}

/// A server's message that was turned into a record reads back as it was.
pub proof fn lemma_server_roundtrip(msg: FromServerView, n: nat)
    requires
        server_message_valid(msg),
    ensures
        read_server_record(server_record(msg), n) == Ok::<FromServerView, RoomIdParseError>(msg),
{
    if let FromServerView::NewRoom(id) = msg {
        lemma_hex_roundtrip(id as nat);
    }
}

impl FromClient {
    /// The record that the message travels as. It reads back as the message:
    /// no message holds a blank room name.
    pub fn to_record(&self) -> (record: ClientRecord)
        ensures
            record@ == client_record(self@),
            client_message_valid(self@),
    {
        match self {
            FromClient::Name(name) => ClientRecord::Name(name.clone()),
            FromClient::Message(text) => ClientRecord::Message(text.clone()),
            FromClient::Create(name) => ClientRecord::Create(name.to_string()),
            FromClient::Join(id) => ClientRecord::Join(id.to_string()),
            FromClient::Leave => ClientRecord::Leave,
        }
    }

    /// The message that `record` stands for. Where a room name has to be
    /// generated, its number is drawn at random.
    pub fn from_record(record: ClientRecord) -> (r: Result<FromClient, RoomIdParseError>)
        ensures
            exists|n: usize| client_read_view(r) == read_client_record(record@, n as nat),
    {
        let ghost seen = record@;
        match record {
            ClientRecord::Create(name) => {
                let name = RoomName::from(name.as_str());
                let ghost n = choose|n: usize| name@ == name_for(seen->Create_0, n as nat);
                let r = Ok(FromClient::Create(name));
                assert(client_read_view(r) == read_client_record(seen, n as nat));
                r
            },
            ClientRecord::Name(name) => {
                let r = Ok(FromClient::Name(name));
                assert(client_read_view(r) == read_client_record(seen, 0usize as nat));
                r
            },
            ClientRecord::Message(text) => {
                let r = Ok(FromClient::Message(text));
                assert(client_read_view(r) == read_client_record(seen, 0usize as nat));
                r
            },
            ClientRecord::Join(id) => {
                let r = match RoomId::from_str(id.as_str()) {
                    Ok(id) => Ok(FromClient::Join(id)),
                    Err(e) => Err(e),
                };
                assert(client_read_view(r) == read_client_record(seen, 0usize as nat));
                r
            },
            ClientRecord::Leave => {
                let r = Ok(FromClient::Leave);
                assert(client_read_view(r) == read_client_record(seen, 0usize as nat));
                r
            },
        }
    }
}

impl FromServer {
    /// The record that the message travels as. It reads back as the message:
    /// no message holds a blank room name.
    pub fn to_record(&self) -> (record: ServerRecord)
        ensures
            record@ == server_record(self@),
            server_message_valid(self@),
    {
        match self {
            FromServer::NewRoom(id) => ServerRecord::NewRoom(id.to_string()),
            FromServer::Joined(name) => ServerRecord::Joined(name.to_string()),
            FromServer::Message { name, msg } => ServerRecord::Message {
                name: name.clone(),
                msg: msg.clone(),
            },
            FromServer::Sent => ServerRecord::Sent,
            FromServer::Left => ServerRecord::Left,
            FromServer::RoomNotFound => ServerRecord::RoomNotFound,
            FromServer::NotJoined => ServerRecord::NotJoined,
            FromServer::Renamed => ServerRecord::Renamed,
            FromServer::Error => ServerRecord::Error,
        }
    }

    /// The message that `record` stands for. Where a room name has to be
    /// generated, its number is drawn at random.
    pub fn from_record(record: ServerRecord) -> (r: Result<FromServer, RoomIdParseError>)
        ensures
            exists|n: usize| server_read_view(r) == read_server_record(record@, n as nat),
    {
        let ghost seen = record@;
        match record {
            ServerRecord::Joined(name) => {
                let name = RoomName::from(name.as_str());
                let ghost n = choose|n: usize| name@ == name_for(seen->Joined_0, n as nat);
                let r = Ok(FromServer::Joined(name));
                assert(server_read_view(r) == read_server_record(seen, n as nat));
                r
            },
            ServerRecord::NewRoom(id) => {
                let r = match RoomId::from_str(id.as_str()) {
                    Ok(id) => Ok(FromServer::NewRoom(id)),
                    Err(e) => Err(e),
                };
                assert(server_read_view(r) == read_server_record(seen, 0usize as nat));
                r
            },
            other => {
                let r = Ok(
                    match other {
                        ServerRecord::Message { name, msg } => FromServer::Message { name, msg },
                        ServerRecord::Sent => FromServer::Sent,
                        ServerRecord::Left => FromServer::Left,
                        ServerRecord::RoomNotFound => FromServer::RoomNotFound,
                        ServerRecord::NotJoined => FromServer::NotJoined,
                        ServerRecord::Renamed => FromServer::Renamed,
                        _ => FromServer::Error,
                    },
                );
                assert(server_read_view(r) == read_server_record(seen, 0usize as nat));
                r
            },
        }
    }
}

/// The line that the encoded record `text` goes out as: `text` and a line
/// feed.
pub fn frame(text: String) -> (line: String)
    ensures
        line@ == text@.push('\n'),
{
    let mut line = text;
    line.push('\n');
    line
}

} // verus!
