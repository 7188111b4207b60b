//! A multi-room chat relay: identifiers, the command grammar, the messages that
//! travel between client and server, and the server's room and mailbox state.

pub mod client;
pub mod conn;
pub mod line_input;
pub mod mailbox;
pub mod model;
pub mod msg;
pub mod peer;
mod peer_map;
mod random;
pub mod room_id;
pub mod room_name;
pub mod server;
pub mod text;
pub mod wire;
