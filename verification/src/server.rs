//! The relay itself: the rooms, the membership index, the name directory and
//! the mailboxes, and the commands that change them.

use crate::mailbox::{drained, messages_view, pending, Mailboxes};
use crate::model::{
    all_without, default_name, delivered, lemma_all_without, lemma_apply_wf, lemma_create_wf,
    lemma_delivered_step, lemma_join_wf, lemma_leave_wf, lemma_without_contains,
    lemma_without_is_remove, unknown_name, without, RoomView, ServerView,
};
use crate::msg::{FromClient, FromServer, FromServerView};
use crate::peer::Peer;
use crate::peer_map::PeerMap;
use crate::random::random_u32;
use crate::room_id::RoomId;
use crate::room_name::RoomName;
use crate::text::push_digits;
use std::collections::HashMap;
use vstd::prelude::*;
use vstd::string::StringExecFns;

verus! {

/// A room: its name and its members, in the order in which they came.
pub(crate) struct Room {
    pub(crate) name: RoomName,
    pub(crate) members: Vec<Peer>,
}

impl View for Room {
    type V = RoomView;

    closed spec fn view(&self) -> RoomView {
        RoomView { name: self.name@, members: self.members@ }
    }
}

/// The state of the relay. Rooms are kept in the order of their creation and
/// never deleted; the registry and the membership index refer to a room by
/// its place in that order.
pub struct Server {
    rooms: Vec<Room>,
    ids: HashMap<u32, usize>,
    membership: PeerMap<usize>,
    names: PeerMap<String>,
    mailboxes: Mailboxes,
}

impl View for Server {
    type V = ServerView;

    closed spec fn view(&self) -> ServerView {
        ServerView {
            rooms: self.rooms@.map_values(|room: Room| room@),
            by_id: self.ids@.map_values(|i: usize| i as nat),
            room_of: self.membership.map().map_values(|i: usize| i as nat),
            names: self.names.map().map_values(|name: String| name@),
            outbox: self.mailboxes@,
        }
    }
}

/// The text `user-` and `n` in decimal.
fn default_name_of(n: u32) -> (name: String)
    ensures
        name@ == default_name(n as nat),
{
    let mut name = String::from_str("user-");
    proof {
        reveal_strlit("user-");
        assert(name@ =~= seq!['u', 's', 'e', 'r', '-']);
    }
    push_digits(&mut name, n as u64, 10);
    name
}

impl Server {
    /// Whether the state is in order: see `ServerView::wf`. Every state
    /// that the functions below make is.
    pub closed spec fn wf(&self) -> bool {
        &&& self.membership.wf()
        &&& self.names.wf()
        &&& self.mailboxes.wf()
        &&& self@.wf()
    }

    /// A state that is in order is so as mathematics too.
    pub proof fn lemma_wf(&self)
        requires
            self.wf(),
        ensures
            self@.wf(),
    {
    }

    /// A relay without rooms, peers or messages.
    pub fn new() -> (server: Self)
        ensures
            server.wf(),
            server@ == ServerView::empty(),
    {
        let server = Server {
            rooms: Vec::new(),
            ids: HashMap::new(),
            membership: PeerMap::new(),
            names: PeerMap::new(),
            mailboxes: Mailboxes::new(),
        };
        proof {
            let v = server@;
            assert(v.rooms =~= Seq::<RoomView>::empty());
            assert(v.by_id =~= Map::<u32, nat>::empty());
            assert(v.room_of =~= Map::<Peer, nat>::empty());
            assert(v.names =~= Map::<Peer, Seq<char>>::empty());
        }
        server
    }

    /// Takes note of a peer that has connected: it gets the default display
    /// name, with a number drawn at random.
    pub fn connect(&mut self, peer: Peer)
        requires
            old(self).wf(),
        ensures
            final(self).wf(),
            exists|n: u32| final(self)@ == old(self)@.connect(peer, n as nat),
    {
        let n = random_u32();
        self.connect_with(peer, n);
    }

    /// Takes note of a peer that has connected: it gets the default display
    /// name with the number `n`.
    pub fn connect_with(&mut self, peer: Peer, n: u32)
        requires
            old(self).wf(),
        ensures
            final(self).wf(),
            final(self)@ == old(self)@.connect(peer, n as nat),
    {
        let name = default_name_of(n);
        self.names.insert(peer, name);
        assert(self@.names =~= old(self)@.names.insert(peer, default_name(n as nat)));
        assert(self@ == old(self)@.connect(peer, n as nat));
    }

    /// Gives `peer` the display name `name`.
    pub fn rename(&mut self, peer: Peer, name: String) -> (reply: FromServer)
        requires
            old(self).wf(),
        ensures
            final(self).wf(),
            final(self)@ == old(self)@.rename(peer, name@),
            reply@ == FromServerView::Renamed,
    {
        let ghost text = name@;
        self.names.insert(peer, name);
        assert(self@.names =~= old(self)@.names.insert(peer, text));
        assert(self@ == old(self)@.rename(peer, text));
        FromServer::Renamed
    }

    /// Takes `peer` off the member list of the room that it is in, if it is
    /// in one, and leaves the membership index as it is.
    fn depart(&mut self, peer: Peer)
        requires
            old(self).wf(),
        ensures
            final(self).ids == old(self).ids,
            final(self).membership == old(self).membership,
            final(self).names == old(self).names,
            final(self).mailboxes == old(self).mailboxes,
            final(self).rooms.len() == old(self).rooms.len(),
            final(self)@.rooms == all_without(old(self)@.rooms, peer),
    {
        let previous: Option<usize> = match self.membership.get(peer) {
            Some(room) => Some(*room),
            None => None,
        };
        proof {
            lemma_all_without(old(self)@.rooms, peer);
        }
        match previous {
            Some(room) => {
                assert(old(self)@.room_of.contains_key(peer));
                assert(old(self)@.rooms[room as int].members.no_duplicates());
                remove_member(&mut self.rooms, room, peer);
                assert forall|i: int| 0 <= i < self.rooms.len() implies self@.rooms[i]
                    == all_without(old(self)@.rooms, peer)[i] by {
                    if i != room {
                        assert(self.rooms[i] == old(self).rooms[i]);
                        if old(self)@.rooms[i].members.contains(peer) {
                            assert(old(self)@.room_of[peer] == i);
                        }
                    }
                }
            },
            None => {
                assert forall|i: int| 0 <= i < self.rooms.len() implies self@.rooms[i]
                    == all_without(old(self)@.rooms, peer)[i] by {
                    if old(self)@.rooms[i].members.contains(peer) {
                        assert(old(self)@.room_of.contains_key(peer));
                    }
                }
            },
        }
        assert(self@.rooms =~= all_without(old(self)@.rooms, peer));
    }

    /// Opens a room of the name `name` under the identifier `id`, with `peer`
    /// as its one member. `peer` leaves the room it was in. A room that had
    /// the identifier before is no longer found under it.
    pub fn create(&mut self, peer: Peer, name: RoomName, id: RoomId) -> (reply: FromServer)
        requires
            old(self).wf(),
        ensures
            final(self).wf(),
            final(self)@ == old(self)@.create(peer, name@, id@),
            reply@ == FromServerView::NewRoom(id@),
    {
        let ghost label = name@;
        self.depart(peer);
        let index = self.rooms.len();
        let mut members: Vec<Peer> = Vec::new();
        members.push(peer);
        self.rooms.push(Room { name, members });
        self.ids.insert(id.as_u32(), index);
        self.membership.insert(peer, index);
        proof {
            let goal = old(self)@.create(peer, label, id@);
            assert(self.rooms[index as int]@.members =~= seq![peer]);
            assert(self@.rooms =~= goal.rooms);
            assert(self@.by_id =~= goal.by_id);
            assert(self@.room_of =~= goal.room_of);
            assert(self@ == goal);
            lemma_create_wf(old(self)@, peer, label, id@);
        }
        FromServer::NewRoom(id)
    }

    /// Puts `peer` into the room that `id` stands for, as its last member,
    /// and takes it out of the room it was in. Where `id` stands for no room,
    /// nothing changes.
    pub fn join(&mut self, peer: Peer, id: RoomId) -> (reply: FromServer)
        requires
            old(self).wf(),
        ensures
            final(self).wf(),
            (final(self)@, reply@) == if old(self)@.by_id.contains_key(id@) {
                (
                    old(self)@.join(peer, id@),
                    FromServerView::Joined(old(self)@.rooms[old(self)@.by_id[id@] as int].name),
                )
            } else {
                (old(self)@, FromServerView::RoomNotFound)
            },
    {
        let key = id.as_u32();
        let room: usize = match self.ids.get(&key) {
            Some(room) => *room,
            None => {
                return FromServer::RoomNotFound;
            },
        };
        assert(old(self)@.by_id.contains_key(id@) && old(self)@.by_id[id@] == room);
        self.depart(peer);
        self.rooms[room].members.push(peer);
        self.membership.insert(peer, room);
        let reply = FromServer::Joined(self.rooms[room].name.clone());
        proof {
            let goal = old(self)@.join(peer, id@);
            lemma_all_without(old(self)@.rooms, peer);
            assert(self@.rooms =~= goal.rooms);
            assert(self@.room_of =~= goal.room_of);
            assert(self@ == goal);
            lemma_join_wf(old(self)@, peer, id@);
        }
        reply
    }

    /// Takes `peer` out of the room that it is in. Where it is in none,
    /// nothing changes.
    pub fn leave(&mut self, peer: Peer) -> (reply: FromServer)
        requires
            old(self).wf(),
        ensures
            final(self).wf(),
            (final(self)@, reply@) == if old(self)@.room_of.contains_key(peer) {
                (old(self)@.leave(peer), FromServerView::Left)
            } else {
                (old(self)@, FromServerView::NotJoined)
            },
    {
        if self.membership.get(peer).is_none() {
            return FromServer::NotJoined;
        }
        self.depart(peer);
        self.membership.remove(peer);
        proof {
            let goal = old(self)@.leave(peer);
            assert(self@.room_of =~= goal.room_of);
            assert(self@ == goal);
            lemma_leave_wf(old(self)@, peer);
        }
        FromServer::Left
    }

    /// The room that `id` stands for, if any: its name and its members, in
    /// the order in which they came.
    pub fn lookup(&self, id: RoomId) -> (found: Option<(RoomName, Vec<Peer>)>)
        requires
            self.wf(),
        ensures
            match found {
                Some((name, members)) => {
                    &&& self@.by_id.contains_key(id@)
                    &&& name@ == self@.rooms[self@.by_id[id@] as int].name
                    &&& members@ == self@.rooms[self@.by_id[id@] as int].members
                },
                None => !self@.by_id.contains_key(id@),
            },
    {
        let key = id.as_u32();
        match self.ids.get(&key) {
            Some(room) => {
                assert(self@.by_id.contains_key(id@) && self@.by_id[id@] == *room);
                Some(self.room_at(*room))
            },
            None => None,
        }
    }

    /// The room that `peer` is in, if any: its name and its members, in the
    /// order in which they came.
    pub fn room_of(&self, peer: Peer) -> (found: Option<(RoomName, Vec<Peer>)>)
        requires
            self.wf(),
        ensures
            match found {
                Some((name, members)) => {
                    &&& self@.room_of.contains_key(peer)
                    &&& name@ == self@.rooms[self@.room_of[peer] as int].name
                    &&& members@ == self@.roommates(peer)
                },
                None => !self@.room_of.contains_key(peer),
            },
    {
        match self.membership.get(peer) {
            Some(room) => {
                assert(self@.room_of.contains_key(peer) && self@.room_of[peer] == *room);
                Some(self.room_at(*room))
            },
            None => None,
        }
    }

    /// The name and the members of the room at `room`.
    fn room_at(&self, room: usize) -> (found: (RoomName, Vec<Peer>))
        requires
            room < self.rooms.len(),
        ensures
            found.0@ == self@.rooms[room as int].name,
            found.1@ == self@.rooms[room as int].members,
    {
        let name = self.rooms[room].name.clone();
        let members = self.rooms[room].members.clone();
        assert(members@ =~= self.rooms[room as int].members@);
        (name, members)
    }

    /// The name under which `peer` speaks: the one on record, or `unknown`
    /// where there is none.
    pub fn name_of(&self, peer: Peer) -> (name: String)
        requires
            self.wf(),
        ensures
            name@ == self@.display_name(peer),
    {
        match self.names.get(peer) {
            Some(name) => name.clone(),
            None => {
                proof {
                    reveal_strlit("unknown");
                    assert("unknown"@ =~= unknown_name());
                }
                String::from_str("unknown")
            },
        }
    }

    /// Hands what `sender` says to its room: every member, `sender` too, gets
    /// one message with the display name of `sender` in its mailbox. Where
    /// `sender` is in no room, nothing changes.
    pub fn route_message(&mut self, sender: Peer, text: String) -> (reply: FromServer)
        requires
            old(self).wf(),
        ensures
            final(self).wf(),
            (final(self)@, reply@) == if old(self)@.room_of.contains_key(sender) {
                (old(self)@.route(sender, text@), FromServerView::Sent)
            } else {
                (old(self)@, FromServerView::NotJoined)
            },
    {
        let room: usize = match self.membership.get(sender) {
            Some(room) => *room,
            None => {
                return FromServer::NotJoined;
            },
        };
        let name = self.name_of(sender);
        let ghost before = old(self)@;
        let ghost msg = before.spoken(sender, text@);
        let ghost to = before.roommates(sender);
        assert(name@ == before.display_name(sender));
        assert(before.room_of.contains_key(sender) && before.room_of[sender] == room);
        assert(before.rooms[room as int] == self.rooms[room as int]@);
        assert(to == self.rooms[room as int].members@);
        let n = self.rooms[room].members.len();
        let mut i: usize = 0;
        while i < n
            invariant
                self.rooms == old(self).rooms,
                self.ids == old(self).ids,
                self.membership == old(self).membership,
                self.names == old(self).names,
                self.mailboxes.wf(),
                room < self.rooms.len(),
                to == self.rooms[room as int].members@,
                to.no_duplicates(),
                n == to.len(),
                i <= n,
                msg == (FromServerView::Message { name: name@, msg: text@ }),
                self.mailboxes@ == delivered(old(self).mailboxes@, to.take(i as int), msg),
            decreases n - i,
        {
            let member = self.rooms[room].members[i];
            proof {
                lemma_delivered_step(old(self).mailboxes@, to, i as int, msg);
            }
            self.mailboxes.enqueue(
                member,
                FromServer::Message { name: name.clone(), msg: text.clone() },
            );
            i += 1;
        }
        proof {
            if n > 0 {
                lemma_delivered_step(old(self).mailboxes@, to, 0, msg);
            } else {
                assert(to.take(0) =~= to);
            }
            assert(self@ == before.route(sender, text@));
        }
        FromServer::Sent
    }

    /// Carries out the command `msg` of `peer` and hands back the answer that
    /// `peer` is owed. A new room gets an identifier drawn at random, whether
    /// or not another room has it.
    pub fn process_msg(&mut self, msg: FromClient, peer: Peer) -> (reply: FromServer)
        requires
            old(self).wf(),
        ensures
            final(self).wf(),
            exists|fresh: u32| (final(self)@, reply@) == old(self)@.apply(msg@, peer, fresh),
    {
        self.dispatch(msg, peer, None)
    }

    /// Carries out the command `msg` of `peer` and hands back the answer that
    /// `peer` is owed. A new room gets the identifier `fresh`.
    pub fn process_msg_with(&mut self, msg: FromClient, peer: Peer, fresh: RoomId) -> (reply:
        FromServer)
        requires
            old(self).wf(),
        ensures
            final(self).wf(),
            (final(self)@, reply@) == old(self)@.apply(msg@, peer, fresh@),
    {
        self.dispatch(msg, peer, Some(fresh))
    }

    /// Carries out the command `msg` of `peer`. A new room gets the
    /// identifier in `fresh`, or one drawn at random where there is none.
    fn dispatch(&mut self, msg: FromClient, peer: Peer, fresh: Option<RoomId>) -> (reply:
        FromServer)
        requires
            old(self).wf(),
        ensures
            final(self).wf(),
            match fresh {
                Some(id) => (final(self)@, reply@) == old(self)@.apply(msg@, peer, id@),
                None => exists|id: u32| (final(self)@, reply@) == old(self)@.apply(msg@, peer, id),
            },
    {
        let ghost command = msg@;
        match msg {
            FromClient::Create(name) => {
                let id = match fresh {
                    Some(id) => id,
                    None => RoomId::new(random_u32()),
                };
                let reply = self.create(peer, name, id);
                assert((self@, reply@) == old(self)@.apply(command, peer, id@));
                reply
            },
            FromClient::Name(name) => {
                let reply = self.rename(peer, name);
                assert((self@, reply@) == old(self)@.apply(command, peer, 0u32));
                reply
            },
            FromClient::Join(id) => {
                let reply = self.join(peer, id);
                assert((self@, reply@) == old(self)@.apply(command, peer, 0u32));
                reply
            },
            FromClient::Leave => {
                let reply = self.leave(peer);
                assert((self@, reply@) == old(self)@.apply(command, peer, 0u32));
                reply
            },
            FromClient::Message(text) => {
                let reply = self.route_message(peer, text);
                assert((self@, reply@) == old(self)@.apply(command, peer, 0u32));
                reply
            },
        }
    }

    /// Carries out the command `msg` of `peer` and puts the answer into the
    /// mailbox of `peer`, behind what the command itself may have put there.
    pub fn process_incoming(&mut self, msg: FromClient, peer: Peer)
        requires
            old(self).wf(),
        ensures
            final(self).wf(),
            exists|fresh: u32| final(self)@ == old(self)@.receive(msg@, peer, fresh),
    {
        let ghost command = msg@;
        let reply = self.process_msg(msg, peer);
        let ghost fresh = choose|fresh: u32|
            (self@, reply@) == old(self)@.apply(command, peer, fresh);
        let ghost middle = self@;
        self.mailboxes.enqueue(peer, reply);
        proof {
            assert(self@ == middle.enqueue(peer, reply@));
            assert(self@ == old(self)@.receive(command, peer, fresh));
            lemma_apply_wf(old(self)@, command, peer, fresh);
        }
    }

    /// Takes all that waits for `peer`, oldest first, to be written to its
    /// connection. The mailbox of `peer`, if it has one, stays, and is empty.
    pub fn send_all_from(&mut self, peer: Peer) -> (taken: Vec<FromServer>)
        requires
            old(self).wf(),
        ensures
            final(self).wf(),
            messages_view(taken@) == pending(old(self)@.outbox, peer),
            final(self)@ == (ServerView { outbox: drained(old(self)@.outbox, peer), ..old(self)@ }),
    {
        let taken = self.mailboxes.drain(peer);
        assert(self@ == (ServerView { outbox: drained(old(self)@.outbox, peer), ..old(self)@ }));
        taken
    }
}

/// Takes `peer` off the member list of the room at `room`.
fn remove_member(rooms: &mut Vec<Room>, room: usize, peer: Peer)
    requires
        room < old(rooms).len(),
        old(rooms)[room as int]@.members.no_duplicates(),
    ensures
        final(rooms).len() == old(rooms).len(),
        final(rooms)[room as int]@.name == old(rooms)[room as int]@.name,
        final(rooms)[room as int]@.members == without(old(rooms)[room as int]@.members, peer),
        forall|j: int| 0 <= j < old(rooms).len() && j != room ==> final(rooms)[j] == old(rooms)[j],
{
    let n = rooms[room].members.len();
    let mut i: usize = 0;
    while i < n
        invariant
            *rooms == *old(rooms),
            room < rooms.len(),
            n == rooms[room as int].members.len(),
            rooms[room as int].members@.no_duplicates(),
            i <= n,
            forall|j: int| 0 <= j < i ==> rooms[room as int].members@[j] != peer,
        decreases n - i,
    {
        if rooms[room].members[i] == peer {
            proof {
                lemma_without_is_remove(rooms[room as int].members@, i as int);
            }
            rooms[room].members.remove(i);
            return;
        }
        i += 1;
    }
    proof {
        lemma_without_contains(rooms[room as int].members@, peer);
    }
}

} // verus!
