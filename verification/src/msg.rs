//! The messages that travel between client and server, and the command
//! grammar that turns a typed line into a message for the server.

use crate::room_id::{RoomId, RoomIdParseError};
use crate::room_name::{name_for, RoomName};
use crate::text::{chars_of, has_prefix, parse_hex, parse_hex_u32, string_of, trim, trim_bounds};
use vstd::prelude::*;
use vstd::string::StringExecFns;

verus! {

/// What a client sends to the server.
#[derive(Debug, PartialEq, Eq)]
pub enum FromClient {
    /// Take this display name.
    Name(String),
    /// Say this to everyone in my room.
    Message(String),
    /// Open a room of this name and put me in it.
    Create(RoomName),
    /// Put me in the room with this identifier.
    Join(RoomId),
    /// Take me out of my room.
    Leave,
}

/// A `FromClient` with its texts as character sequences.
pub enum FromClientView {
    Name(Seq<char>),
    Message(Seq<char>),
    Create(Seq<char>),
    Join(u32),
    Leave,
}

/// Why a typed line is no command.
#[derive(Copy, Clone, Debug, PartialEq, Eq, Structural)]
pub enum ClientMessageParseError {
    /// The word after `!` is no command.
    Unknown,
    /// What follows `!join` is no room identifier.
    RoomIdParseError(RoomIdParseError),
    /// Something follows `!leave`.
    TooManyArgs,
}

/// What the server sends to a client.
#[derive(Debug, PartialEq, Eq)]
pub enum FromServer {
    /// The room you asked for exists now, under this identifier.
    NewRoom(RoomId),
    /// You are now in the room of this name.
    Joined(RoomName),
    /// Somebody in your room, of this display name, said this.
    Message { name: String, msg: String },
    /// What you said went out to your room.
    Sent,
    /// You are out of your room.
    Left,
    /// No room has that identifier.
    RoomNotFound,
    /// You are in no room.
    NotJoined,
    /// You have your new display name.
    Renamed,
    /// The server could not answer.
    Error,
}

/// A `FromServer` with its texts as character sequences.
pub enum FromServerView {
    NewRoom(u32),
    Joined(Seq<char>),
    Message { name: Seq<char>, msg: Seq<char> },
    Sent,
    Left,
    RoomNotFound,
    NotJoined,
    Renamed,
    Error,
}

impl View for FromClient {
    type V = FromClientView;

    open spec fn view(&self) -> FromClientView {
        match self {
            FromClient::Name(name) => FromClientView::Name(name@),
            FromClient::Message(msg) => FromClientView::Message(msg@),
            FromClient::Create(name) => FromClientView::Create(name@),
            FromClient::Join(id) => FromClientView::Join(id@),
            FromClient::Leave => FromClientView::Leave,
        }
    }
}

impl View for FromServer {
    type V = FromServerView;

    open spec fn view(&self) -> FromServerView {
        match self {
            FromServer::NewRoom(id) => FromServerView::NewRoom(id@),
            FromServer::Joined(name) => FromServerView::Joined(name@),
            FromServer::Message { name, msg } => FromServerView::Message { name: name@, msg: msg@ },
            FromServer::Sent => FromServerView::Sent,
            FromServer::Left => FromServerView::Left,
            FromServer::RoomNotFound => FromServerView::RoomNotFound,
            FromServer::NotJoined => FromServerView::NotJoined,
            FromServer::Renamed => FromServerView::Renamed,
            FromServer::Error => FromServerView::Error,
        }
    }
}

impl Clone for FromServer {
    /// A message that reads the same.
    fn clone(&self) -> (r: Self)
        ensures
            r@ == self@,
    {
        match self {
            FromServer::NewRoom(id) => FromServer::NewRoom(*id),
            FromServer::Joined(name) => FromServer::Joined(name.clone()),
            FromServer::Message { name, msg } => FromServer::Message {
                name: name.clone(),
                msg: msg.clone(),
            },
            FromServer::Sent => FromServer::Sent,
            FromServer::Left => FromServer::Left,
            FromServer::RoomNotFound => FromServer::RoomNotFound,
            FromServer::NotJoined => FromServer::NotJoined,
            FromServer::Renamed => FromServer::Renamed,
            FromServer::Error => FromServer::Error,
        }
    }
}

impl Clone for FromClient {
    /// A message that reads the same.
    fn clone(&self) -> (r: Self)
        ensures
            r@ == self@,
    {
        match self {
            FromClient::Name(name) => FromClient::Name(name.clone()),
            FromClient::Message(msg) => FromClient::Message(msg.clone()),
            FromClient::Create(name) => FromClient::Create(name.clone()),
            FromClient::Join(id) => FromClient::Join(*id),
            FromClient::Leave => FromClient::Leave,
        }
    }
}

/// The command word `create`, as it stands after the `!`.
pub open spec fn word_create() -> Seq<char> {
    seq!['c', 'r', 'e', 'a', 't', 'e']
}

/// The command word `join`.
pub open spec fn word_join() -> Seq<char> {
    seq!['j', 'o', 'i', 'n']
}

/// The command word `leave`.
pub open spec fn word_leave() -> Seq<char> {
    seq!['l', 'e', 'a', 'v', 'e']
}

/// The command word `name`.
pub open spec fn word_name() -> Seq<char> {
    seq!['n', 'a', 'm', 'e']
}

/// What the typed line `s` means. A line that does not begin with `!` is a
/// message as it stands, and one that begins with `!!` is a message without
/// those two characters. Any other line is a command: `!`, a command word, and
/// directly behind the word its argument, which is trimmed. `n` is the number
/// at hand for a generated room name, used where `!create` comes with a blank
/// argument.
pub open spec fn parse_command(s: Seq<char>, n: nat) -> Result<
    FromClientView,
    ClientMessageParseError,
> {
    if seq!['!', '!'].is_prefix_of(s) {
        Ok(FromClientView::Message(s.skip(2)))
    } else if !seq!['!'].is_prefix_of(s) {
        Ok(FromClientView::Message(s))
    } else {
        let rest = s.skip(1);
        if word_create().is_prefix_of(rest) {
            Ok(FromClientView::Create(name_for(trim(rest.skip(6)), n)))
        } else if word_join().is_prefix_of(rest) {
            match parse_hex_u32(trim(rest.skip(4))) {
                Some(id) => Ok(FromClientView::Join(id)),
                None => Err(ClientMessageParseError::RoomIdParseError(RoomIdParseError)),
            }
        } else if word_leave().is_prefix_of(rest) {
            if trim(rest.skip(5)).len() == 0 {
                Ok(FromClientView::Leave)
            } else {
                Err(ClientMessageParseError::TooManyArgs)
            }
        } else if word_name().is_prefix_of(rest) {
            Ok(FromClientView::Name(trim(rest.skip(4))))
        } else {
            Err(ClientMessageParseError::Unknown)
        }
    }
}

/// The result of a parse with the message, if there is one, as its view.
pub open spec fn parsed_view(r: Result<FromClient, ClientMessageParseError>) -> Result<
    FromClientView,
    ClientMessageParseError,
> {
    match r {
        Ok(msg) => Ok(msg@),
        Err(e) => Err(e),
    }
}

impl FromClient {
    /// Reads the typed line `s`. Where a room name has to be generated, its
    /// number is drawn at random.
    pub fn from_str(s: &str) -> (r: Result<FromClient, ClientMessageParseError>)
        ensures
            exists|n: usize| parsed_view(r) == parse_command(s@, n as nat),
    {
        Self::parse(s, None)
    }

    /// Reads the typed line `s`. Where a room name has to be generated, it is
    /// generated from `n`.
    pub fn from_str_with(s: &str, n: usize) -> (r: Result<FromClient, ClientMessageParseError>)
        ensures
            parsed_view(r) == parse_command(s@, n as nat),
    {
        Self::parse(s, Some(n))
    }

    /// Reads the typed line `s`. A generated room name is made from the
    /// number in `fallback`, or from one drawn at random where there is none.
    fn parse(s: &str, fallback: Option<usize>) -> (r: Result<FromClient, ClientMessageParseError>)
        ensures
            match fallback {
                Some(n) => parsed_view(r) == parse_command(s@, n as nat),
                None => exists|n: usize| parsed_view(r) == parse_command(s@, n as nat),
            },
    {
        proof {
            reveal_strlit("!!");
            reveal_strlit("!");
            reveal_strlit("create");
            reveal_strlit("join");
            reveal_strlit("leave");
            reveal_strlit("name");
            assert("!!"@ =~= seq!['!', '!']);
            assert("!"@ =~= seq!['!']);
            assert("create"@ =~= word_create());
            assert("join"@ =~= word_join());
            assert("leave"@ =~= word_leave());
            assert("name"@ =~= word_name());
        }
        let cs = chars_of(s);
        let len = cs.len();
        assert(cs@.skip(0) =~= s@);
        if has_prefix(&cs, 0, "!!") {
            let msg = string_of(&cs, 2, len);
            assert(msg@ =~= s@.skip(2));
            let r = Ok(FromClient::Message(msg));
            assert(parsed_view(r) == parse_command(s@, 0usize as nat));
            return r;
        }
        if !has_prefix(&cs, 0, "!") {
            let r = Ok(FromClient::Message(String::from_str(s)));
            assert(parsed_view(r) == parse_command(s@, 0usize as nat));
            return r;
        }
        let ghost rest = s@.skip(1);
        assert(cs@.skip(1) =~= rest);
        let r = if has_prefix(&cs, 1, "create") {
            let (a, b) = trim_bounds(&cs, 7, len);
            assert(cs@.subrange(7, len as int) =~= rest.skip(6));
            let arg = string_of(&cs, a, b);
            match fallback {
                Some(n) => Ok(FromClient::Create(RoomName::with_fallback(arg.as_str(), n))),
                None => {
                    let name = RoomName::from(arg.as_str());
                    let ghost n = choose|n: usize| name@ == name_for(arg@, n as nat);
                    let r = Ok(FromClient::Create(name));
                    assert(parsed_view(r) == parse_command(s@, n as nat));
                    return r;
                },
            }
        } else if has_prefix(&cs, 1, "join") {
            let (a, b) = trim_bounds(&cs, 5, len);
            assert(cs@.subrange(5, len as int) =~= rest.skip(4));
            match parse_hex(&cs, a, b) {
                Some(id) => Ok(FromClient::Join(RoomId::new(id))),
                None => Err(ClientMessageParseError::RoomIdParseError(RoomIdParseError)),
            }
        } else if has_prefix(&cs, 1, "leave") {
            let (a, b) = trim_bounds(&cs, 6, len);
            assert(cs@.subrange(6, len as int) =~= rest.skip(5));
            if a == b {
                Ok(FromClient::Leave)
            } else {
                Err(ClientMessageParseError::TooManyArgs)
            }
        } else if has_prefix(&cs, 1, "name") {
            let (a, b) = trim_bounds(&cs, 5, len);
            assert(cs@.subrange(5, len as int) =~= rest.skip(4));
            Ok(FromClient::Name(string_of(&cs, a, b)))
        } else {
            Err(ClientMessageParseError::Unknown)
        };
        let ghost n: usize = match fallback {
            Some(n) => n,
            None => 0,
        };
        assert(parsed_view(r) == parse_command(s@, n as nat));
        r
    }
}

impl ClientMessageParseError {
    /// The sentence that tells a user of the error.
    pub open spec fn text(self) -> Seq<char> {
        match self {
            ClientMessageParseError::Unknown => "Unknown command"@,
            ClientMessageParseError::RoomIdParseError(_) => "Invalid room id"@,
            ClientMessageParseError::TooManyArgs => "Too many arguments"@,
        }
    }

    /// The sentence that tells a user of the error.
    pub fn to_string(&self) -> (s: String)
        ensures
            s@ == self.text(),
    {
        match self {
            ClientMessageParseError::Unknown => String::from_str("Unknown command"),
            ClientMessageParseError::RoomIdParseError(_) => String::from_str("Invalid room id"),
            ClientMessageParseError::TooManyArgs => String::from_str("Too many arguments"),
        }
    }
}

} // verus!
