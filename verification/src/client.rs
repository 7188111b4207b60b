//! What a client shows for what the server sends.

use crate::msg::{FromServer, FromServerView};
use crate::text::{hex, push_digits};
use vstd::prelude::*;
use vstd::string::StringExecFns;

verus! {

/// What to show the user.
#[derive(Debug, PartialEq, Eq)]
pub enum Notice {
    /// A line of good or neutral news.
    Info(String),
    /// A line that tells of a failure.
    Error(String),
    /// Nothing at all.
    Nothing,
}

/// A `Notice` with its text as a character sequence.
pub enum NoticeView {
    Info(Seq<char>),
    Error(Seq<char>),
    Nothing,
}

impl View for Notice {
    type V = NoticeView;

    open spec fn view(&self) -> NoticeView {
        match self {
            Notice::Info(line) => NoticeView::Info(line@),
            Notice::Error(line) => NoticeView::Error(line@),
            Notice::Nothing => NoticeView::Nothing,
        }
    }
}

/// What the user is shown for the message `msg` from the server. A room
/// identifier is shown in its text form. The acknowledgment `Sent` shows
/// nothing.
pub open spec fn notice_for(msg: FromServerView) -> NoticeView {
    match msg {
        FromServerView::Joined(name) => NoticeView::Info("Joined: "@ + name),
        FromServerView::Left => NoticeView::Info("Left room"@),
        FromServerView::Message { name, msg } => NoticeView::Info(name + ": "@ + msg),
        FromServerView::NewRoom(id) => NoticeView::Info("Created new room: "@ + hex(id as nat)),
        FromServerView::RoomNotFound => NoticeView::Error("Couldn't find this room"@),
        FromServerView::NotJoined => NoticeView::Error("You need to join to a room"@),
        FromServerView::Renamed => NoticeView::Info("Successfully changed name"@),
        FromServerView::Sent => NoticeView::Nothing,
        FromServerView::Error => NoticeView::Error("Server couldn't respond"@),
    }
}

/// What to show the user for the message `msg` from the server.
pub fn process_incoming(msg: &FromServer) -> (notice: Notice)
    ensures
        notice@ == notice_for(msg@),
{
    match msg {
        FromServer::Joined(name) => {
            let mut line = String::from_str("Joined: ");
            line.append(name.as_str());
            Notice::Info(line)
        },
        FromServer::Left => Notice::Info(String::from_str("Left room")),
        FromServer::Message { name, msg } => {
            let mut line = name.clone();
            line.append(": ");
            line.append(msg.as_str());
            Notice::Info(line)
        },
        FromServer::NewRoom(id) => {
            let mut line = String::from_str("Created new room: ");
            push_digits(&mut line, id.as_u32() as u64, 16);
            Notice::Info(line)
        },
        FromServer::RoomNotFound => Notice::Error(String::from_str("Couldn't find this room")),
        FromServer::NotJoined => Notice::Error(String::from_str("You need to join to a room")),
        FromServer::Renamed => Notice::Info(String::from_str("Successfully changed name")),
        FromServer::Sent => Notice::Nothing,
        FromServer::Error => Notice::Error(String::from_str("Server couldn't respond")),
    }
}

} // verus!
