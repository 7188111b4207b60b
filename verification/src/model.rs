//! The relay's state as plain mathematics: rooms, the index that tells which
//! room a peer is in, display names and mailboxes; what each command does to
//! them; and what holds of every state that the commands can lead to.

use crate::mailbox::{enqueued, pending};
use crate::msg::{FromClientView, FromServerView};
use crate::peer::Peer;
use crate::text::decimal;
use vstd::prelude::*;

verus! {

/// A room: its name, which never changes, and its members in the order in
/// which they came.
pub struct RoomView {
    pub name: Seq<char>,
    pub members: Seq<Peer>,
}

/// All that the relay knows.
pub struct ServerView {
    /// Every room ever created, oldest first. A room is never deleted, and its
    /// place in this sequence is what the two indexes below refer to.
    pub rooms: Seq<RoomView>,
    /// The room registry: which room an identifier stands for. Where an
    /// identifier is given out twice, it stands for the later room.
    pub by_id: Map<u32, nat>,
    /// The membership index: which room a peer is in.
    pub room_of: Map<Peer, nat>,
    /// The name directory.
    pub names: Map<Peer, Seq<char>>,
    /// The outbound mailboxes: what waits to be written to each peer.
    pub outbox: Map<Peer, Seq<FromServerView>>,
}

/// The members `s` other than `p`, in their order.
pub open spec fn without(s: Seq<Peer>, p: Peer) -> Seq<Peer>
    decreases s.len(),
{
    if s.len() == 0 {
        s
    } else if s.last() == p {
        without(s.drop_last(), p)
    } else {
        without(s.drop_last(), p).push(s.last())
    }
}

/// The rooms `rooms` with `p` taken off every member list.
pub open spec fn all_without(rooms: Seq<RoomView>, p: Peer) -> Seq<RoomView> {
    Seq::new(
        rooms.len(),
        |i: int| RoomView { name: rooms[i].name, members: without(rooms[i].members, p) },
    )
}

/// `outbox` after `msg` was put into the mailbox of each peer of `to`.
pub open spec fn delivered(
    outbox: Map<Peer, Seq<FromServerView>>,
    to: Seq<Peer>,
    msg: FromServerView,
) -> Map<Peer, Seq<FromServerView>> {
    Map::new(
        |p: Peer| outbox.contains_key(p) || to.contains(p),
        |p: Peer|
            if to.contains(p) {
                pending(outbox, p).push(msg)
            } else {
                outbox[p]
            },
    )
}

/// The display name under which a peer speaks that has none on record.
pub open spec fn unknown_name() -> Seq<char> {
    seq!['u', 'n', 'k', 'n', 'o', 'w', 'n']
}

/// The display name that a peer gets when it connects and `n` is the number
/// at hand: `user-` and `n` in decimal.
pub open spec fn default_name(n: nat) -> Seq<char> {
    seq!['u', 's', 'e', 'r', '-'] + decimal(n)
}

impl ServerView {
    /// What holds of the relay at all times: both indexes point at rooms that
    /// exist, no member list names a peer twice, and a peer stands in a member
    /// list exactly if the membership index maps it to that room. So a peer
    /// is in one room at most.
    pub open spec fn wf(self) -> bool {
        &&& forall|id: u32| #[trigger]
            self.by_id.contains_key(id) ==> self.by_id[id] < self.rooms.len()
        &&& forall|p: Peer| #[trigger]
            self.room_of.contains_key(p) ==> {
                &&& self.room_of[p] < self.rooms.len()
                &&& self.rooms[self.room_of[p] as int].members.contains(p)
            }
        &&& forall|i: int|
            0 <= i < self.rooms.len() ==> (#[trigger] self.rooms[i]).members.no_duplicates()
        &&& forall|i: int, p: Peer|
            0 <= i < self.rooms.len() && #[trigger] self.rooms[i].members.contains(p) ==> {
                &&& self.room_of.contains_key(p)
                &&& self.room_of[p] == i
            }
    }

    /// The relay before anything happened.
    pub open spec fn empty() -> ServerView {
        ServerView {
            rooms: Seq::empty(),
            by_id: Map::empty(),
            room_of: Map::empty(),
            names: Map::empty(),
            outbox: Map::empty(),
        }
    }

    /// The name under which `peer` speaks.
    pub open spec fn display_name(self, peer: Peer) -> Seq<char> {
        if self.names.contains_key(peer) {
            self.names[peer]
        } else {
            unknown_name()
        }
    }

    /// The members of the room that `peer` is in.
    pub open spec fn roommates(self, peer: Peer) -> Seq<Peer>
        recommends
            self.room_of.contains_key(peer),
    {
        self.rooms[self.room_of[peer] as int].members
    }

    /// `peer` has connected, and `n` is the number drawn for its default name.
    pub open spec fn connect(self, peer: Peer, n: nat) -> ServerView {
        ServerView { names: self.names.insert(peer, default_name(n)), ..self }
    }

    /// `peer` takes the display name `name`.
    pub open spec fn rename(self, peer: Peer, name: Seq<char>) -> ServerView {
        ServerView { names: self.names.insert(peer, name), ..self }
    }

    /// `peer` opens a room of the name `name` under the identifier `id`: it
    /// leaves the room it was in, and is the one member of the new room.
    pub open spec fn create(self, peer: Peer, name: Seq<char>, id: u32) -> ServerView {
        ServerView {
            rooms: all_without(self.rooms, peer).push(RoomView { name, members: seq![peer] }),
            by_id: self.by_id.insert(id, self.rooms.len()),
            room_of: self.room_of.insert(peer, self.rooms.len()),
            ..self
        }
    }

    /// `peer` joins the room that `id` stands for: it leaves the room it was
    /// in, which may be the same, and becomes the last member of that room.
    pub open spec fn join(self, peer: Peer, id: u32) -> ServerView
        recommends
            self.by_id.contains_key(id),
    {
        let r = self.by_id[id] as int;
        let left = all_without(self.rooms, peer);
        ServerView {
            rooms: left.update(
                r,
                RoomView { name: left[r].name, members: left[r].members.push(peer) },
            ),
            room_of: self.room_of.insert(peer, r as nat),
            ..self
        }
    }

    /// `peer` leaves the room it is in.
    pub open spec fn leave(self, peer: Peer) -> ServerView {
        ServerView {
            rooms: all_without(self.rooms, peer),
            room_of: self.room_of.remove(peer),
            ..self
        }
    }

    /// The message that the room of `sender` gets when `sender` says `text`.
    pub open spec fn spoken(self, sender: Peer, text: Seq<char>) -> FromServerView {
        FromServerView::Message { name: self.display_name(sender), msg: text }
    }

    /// `sender` says `text`: every member of its room, `sender` too, gets one
    /// message in its mailbox, behind all that waits there.
    pub open spec fn route(self, sender: Peer, text: Seq<char>) -> ServerView
        recommends
            self.room_of.contains_key(sender),
    {
        ServerView {
            outbox: delivered(self.outbox, self.roommates(sender), self.spoken(sender, text)),
            ..self
        }
    }

    /// `msg` is put into the mailbox of `peer`.
    pub open spec fn enqueue(self, peer: Peer, msg: FromServerView) -> ServerView {
        ServerView { outbox: enqueued(self.outbox, peer, msg), ..self }
    }

    /// What the command `msg` of `peer` does to the relay, and the answer that
    /// `peer` is owed. `fresh` is the identifier at hand for a new room.
    pub open spec fn apply(self, msg: FromClientView, peer: Peer, fresh: u32) -> (
        ServerView,
        FromServerView,
    ) {
        match msg {
            FromClientView::Name(name) => (self.rename(peer, name), FromServerView::Renamed),
            FromClientView::Create(name) => (
                self.create(peer, name, fresh),
                FromServerView::NewRoom(fresh),
            ),
            FromClientView::Join(id) => if self.by_id.contains_key(id) {
                (
                    self.join(peer, id),
                    FromServerView::Joined(self.rooms[self.by_id[id] as int].name),
                )
            } else {
                (self, FromServerView::RoomNotFound)
            },
            FromClientView::Leave => if self.room_of.contains_key(peer) {
                (self.leave(peer), FromServerView::Left)
            } else {
                (self, FromServerView::NotJoined)
            },
            FromClientView::Message(text) => if self.room_of.contains_key(peer) {
                (self.route(peer, text), FromServerView::Sent)
            } else {
                (self, FromServerView::NotJoined)
            },
        }
    }

    /// The relay after the command `msg` of `peer` was carried out and the
    /// answer put into the mailbox of `peer`.
    pub open spec fn receive(self, msg: FromClientView, peer: Peer, fresh: u32) -> ServerView {
        let (next, reply) = self.apply(msg, peer, fresh);
        next.enqueue(peer, reply)
    }
}

/// What `without` keeps and what it drops.
pub proof fn lemma_without_contains(s: Seq<Peer>, p: Peer)
    ensures
        !without(s, p).contains(p),
        forall|q: Peer| q != p ==> (#[trigger] without(s, p).contains(q) <==> s.contains(q)),
        s.no_duplicates() ==> without(s, p).no_duplicates(),
        !s.contains(p) ==> without(s, p) == s,
    decreases s.len(),
{
    if s.len() > 0 {
        let front = s.drop_last();
        let w = without(front, p);
        lemma_without_contains(front, p);
        assert forall|q: Peer| s.contains(q) <==> (front.contains(q) || q == s.last()) by {
            if s.contains(q) {
                let i = s.index_of(q);
                if i < front.len() {
                    assert(front[i] == q);
                }
            }
            if front.contains(q) {
                assert(s[front.index_of(q)] == q);
            }
            assert(s[s.len() - 1] == s.last());
        }
        if s.last() == p {
            if s.no_duplicates() {
                assert(front.no_duplicates());
            }
        } else {
            let r = w.push(s.last());
            assert forall|q: Peer| r.contains(q) <==> (w.contains(q) || q == s.last()) by {
                if r.contains(q) {
                    let i = r.index_of(q);
                    if i < w.len() {
                        assert(w[i] == q);
                    }
                }
                if w.contains(q) {
                    assert(r[w.index_of(q)] == q);
                }
                assert(r[r.len() - 1] == s.last());
            }
            if s.no_duplicates() {
                assert(front.no_duplicates());
                assert(!front.contains(s.last())) by {
                    if front.contains(s.last()) {
                        let i = front.index_of(s.last());
                        assert(s[i] == s[s.len() - 1]);
                    }
                }
                assert forall|a: int, b: int|
                    0 <= a < r.len() && 0 <= b < r.len() && a != b implies r[a] != r[b] by {
                    if a < w.len() {
                        assert(w.contains(w[a]));
                    }
                    if b < w.len() {
                        assert(w.contains(w[b]));
                    }
                }
            }
            if !s.contains(p) {
                assert(w.push(s.last()) =~= s);
            }
        }
    }
}

/// Taking out of a list without repetition the one place where `p` stands
/// is taking `p` off the list.
pub proof fn lemma_without_is_remove(s: Seq<Peer>, i: int)
    requires
        s.no_duplicates(),
        0 <= i < s.len(),
    ensures
        without(s, s[i]) == s.remove(i),
    decreases s.len(),
{
    let p = s[i];
    let front = s.drop_last();
    assert(front.no_duplicates());
    if i == s.len() - 1 {
        assert(!front.contains(p)) by {
            if front.contains(p) {
                let j = front.index_of(p);
                assert(s[j] == s[i]);
            }
        }
        lemma_without_contains(front, p);
        assert(s.remove(i) =~= front);
    } else {
        assert(front[i] == p);
        lemma_without_is_remove(front, i);
        assert(s.last() != p);
        assert(front.remove(i).push(s.last()) =~= s.remove(i));
    }
}

/// Taking `p` off every member list keeps the lists free of repetition, and
/// leaves `p` in none of them.
pub proof fn lemma_all_without(rooms: Seq<RoomView>, p: Peer)
    ensures
        all_without(rooms, p).len() == rooms.len(),
        forall|i: int|
            0 <= i < rooms.len() ==> {
                let room = #[trigger] all_without(rooms, p)[i];
                &&& room.name == rooms[i].name
                &&& room.members == without(rooms[i].members, p)
                &&& !room.members.contains(p)
                &&& rooms[i].members.no_duplicates() ==> room.members.no_duplicates()
                &&& !rooms[i].members.contains(p) ==> room == rooms[i]
                &&& forall|q: Peer|
                    q != p ==> (#[trigger] room.members.contains(q) <==> rooms[i].members.contains(
                        q,
                    ))
            },
{
    assert forall|i: int| 0 <= i < rooms.len() implies {
        let room = #[trigger] all_without(rooms, p)[i];
        &&& room.name == rooms[i].name
        &&& room.members == without(rooms[i].members, p)
        &&& !room.members.contains(p)
        &&& rooms[i].members.no_duplicates() ==> room.members.no_duplicates()
        &&& !rooms[i].members.contains(p) ==> room == rooms[i]
        &&& forall|q: Peer|
            q != p ==> (#[trigger] room.members.contains(q) <==> rooms[i].members.contains(q))
    } by {
        lemma_without_contains(rooms[i].members, p);
    }
}

/// A list with one more member holds that member and those it held.
pub proof fn lemma_push_contains(s: Seq<Peer>, p: Peer)
    ensures
        forall|q: Peer| #[trigger] s.push(p).contains(q) <==> (s.contains(q) || q == p),
        s.no_duplicates() && !s.contains(p) ==> s.push(p).no_duplicates(),
{
    let r = s.push(p);
    assert forall|q: Peer| #[trigger] r.contains(q) <==> (s.contains(q) || q == p) by {
        if r.contains(q) {
            let i = r.index_of(q);
            if i < s.len() {
                assert(s[i] == q);
            }
        }
        if s.contains(q) {
            assert(r[s.index_of(q)] == q);
        }
        assert(r[r.len() - 1] == p);
    }
    if s.no_duplicates() && !s.contains(p) {
        assert forall|a: int, b: int| 0 <= a < r.len() && 0 <= b < r.len() && a != b implies r[a]
            != r[b] by {
            if a < s.len() {
                assert(s.contains(s[a]));
            }
            if b < s.len() {
                assert(s.contains(s[b]));
            }
        }
    }
}

/// Delivering to the members of a list one by one is delivering to the list:
/// with nobody served yet the mailboxes are as they were, and serving the next
/// member serves one more of the list.
pub proof fn lemma_delivered_step(
    outbox: Map<Peer, Seq<FromServerView>>,
    to: Seq<Peer>,
    i: int,
    msg: FromServerView,
)
    requires
        to.no_duplicates(),
        0 <= i < to.len(),
    ensures
        delivered(outbox, to.take(0), msg) == outbox,
        enqueued(delivered(outbox, to.take(i), msg), to[i], msg) == delivered(
            outbox,
            to.take(i + 1),
            msg,
        ),
        to.take(to.len() as int) == to,
{
    let served = to.take(i);
    let more = to.take(i + 1);
    assert(delivered(outbox, to.take(0), msg) =~= outbox);
    assert(to.take(to.len() as int) =~= to);
    assert(!served.contains(to[i])) by {
        if served.contains(to[i]) {
            let j = served.index_of(to[i]);
            assert(to[j] == to[i]);
        }
    }
    assert forall|q: Peer| more.contains(q) <==> (served.contains(q) || q == to[i]) by {
        if more.contains(q) {
            let j = more.index_of(q);
            if j < i {
                assert(served[j] == q);
            }
        }
        if served.contains(q) {
            assert(more[served.index_of(q)] == q);
        }
        assert(more[i] == to[i]);
    }
    assert(enqueued(delivered(outbox, served, msg), to[i], msg) =~= delivered(outbox, more, msg));
}

/// Nothing is wrong with the relay before anything happened.
pub proof fn lemma_empty_wf()
    ensures
        ServerView::empty().wf(),
{
}

/// Opening a room leaves the relay in order.
pub proof fn lemma_create_wf(s: ServerView, peer: Peer, name: Seq<char>, id: u32)
    requires
        s.wf(),
    ensures
        s.create(peer, name, id).wf(),
{
    let next = s.create(peer, name, id);
    let n = s.rooms.len() as int;
    lemma_all_without(s.rooms, peer);
    let left = all_without(s.rooms, peer);
    assert(next.rooms[n].members =~= seq![peer]);
    assert(seq![peer][0] == peer);
    assert forall|i: int| 0 <= i < next.rooms.len() implies (#[trigger] next.rooms[i])
        .members.no_duplicates() by {
        if i < n {
            assert(next.rooms[i] == left[i]);
        }
    }
    assert forall|i: int, p: Peer|
        0 <= i < next.rooms.len() && #[trigger] next.rooms[i].members.contains(p) implies {
        &&& next.room_of.contains_key(p)
        &&& next.room_of[p] == i
    } by {
        if i < n {
            assert(next.rooms[i] == left[i]);
            assert(s.rooms[i].members.contains(p));
        }
    }
    assert forall|p: Peer| #[trigger] next.room_of.contains_key(p) implies {
        &&& next.room_of[p] < next.rooms.len()
        &&& next.rooms[next.room_of[p] as int].members.contains(p)
    } by {
        if p != peer {
            let i = s.room_of[p] as int;
            assert(next.rooms[i] == left[i]);
            assert(s.rooms[i].members.contains(p));
        }
    }
}

/// Joining a room leaves the relay in order.
pub proof fn lemma_join_wf(s: ServerView, peer: Peer, id: u32)
    requires
        s.wf(),
        s.by_id.contains_key(id),
    ensures
        s.join(peer, id).wf(),
{
    let next = s.join(peer, id);
    let r = s.by_id[id] as int;
    lemma_all_without(s.rooms, peer);
    let left = all_without(s.rooms, peer);
    lemma_push_contains(left[r].members, peer);
    assert forall|i: int| 0 <= i < next.rooms.len() implies (#[trigger] next.rooms[i])
        .members.no_duplicates() by {
        if i != r {
            assert(next.rooms[i] == left[i]);
        }
    }
    assert forall|i: int, p: Peer|
        0 <= i < next.rooms.len() && #[trigger] next.rooms[i].members.contains(p) implies {
        &&& next.room_of.contains_key(p)
        &&& next.room_of[p] == i
    } by {
        if i != r {
            assert(next.rooms[i] == left[i]);
        }
        if p != peer {
            assert(left[i].members.contains(p));
            assert(s.rooms[i].members.contains(p));
        }
    }
    assert forall|p: Peer| #[trigger] next.room_of.contains_key(p) implies {
        &&& next.room_of[p] < next.rooms.len()
        &&& next.rooms[next.room_of[p] as int].members.contains(p)
    } by {
        if p != peer {
            let i = s.room_of[p] as int;
            assert(s.rooms[i].members.contains(p));
            assert(left[i].members.contains(p));
            if i != r {
                assert(next.rooms[i] == left[i]);
            }
        }
    }
}

/// Leaving a room leaves the relay in order.
pub proof fn lemma_leave_wf(s: ServerView, peer: Peer)
    requires
        s.wf(),
    ensures
        s.leave(peer).wf(),
{
    let next = s.leave(peer);
    lemma_all_without(s.rooms, peer);
    assert forall|i: int, p: Peer|
        0 <= i < next.rooms.len() && #[trigger] next.rooms[i].members.contains(p) implies {
        &&& next.room_of.contains_key(p)
        &&& next.room_of[p] == i
    } by {
        assert(s.rooms[i].members.contains(p));
    }
    assert forall|p: Peer| #[trigger] next.room_of.contains_key(p) implies {
        &&& next.room_of[p] < next.rooms.len()
        &&& next.rooms[next.room_of[p] as int].members.contains(p)
    } by {
        let i = s.room_of[p] as int;
        assert(s.rooms[i].members.contains(p));
    }
}

/// Whatever command comes from whichever peer, the relay stays in order:
/// carried out alone, and with the answer put into the sender's mailbox.
pub proof fn lemma_apply_wf(s: ServerView, msg: FromClientView, peer: Peer, fresh: u32)
    requires
        s.wf(),
    ensures
        s.apply(msg, peer, fresh).0.wf(),
        s.receive(msg, peer, fresh).wf(),
{
    match msg {
        FromClientView::Name(name) => {},
        FromClientView::Create(name) => {
            lemma_create_wf(s, peer, name, fresh);
        },
        FromClientView::Join(id) => {
            if s.by_id.contains_key(id) {
                lemma_join_wf(s, peer, id);
            }
        },
        FromClientView::Leave => {
            lemma_leave_wf(s, peer);
        },
        FromClientView::Message(text) => {},
    }
}

/// A message from a peer that is in a room reaches every member of that room,
/// the sender among them, exactly once: each member's mailbox holds what it
/// held, in the same order, and the message behind it. No other mailbox
/// changes, and neither does anything else; the sender is answered `Sent`.
pub proof fn lemma_message_reaches_each_member_once(
    s: ServerView,
    sender: Peer,
    text: Seq<char>,
    fresh: u32,
)
    requires
        s.wf(),
        s.room_of.contains_key(sender),
    ensures
        ({
            let (next, reply) = s.apply(FromClientView::Message(text), sender, fresh);
            let members = s.roommates(sender);
            &&& reply == FromServerView::Sent
            &&& members.contains(sender)
            &&& members.no_duplicates()
            &&& forall|q: Peer|
                members.contains(q) ==> #[trigger] next.outbox.contains_key(q) && next.outbox[q]
                    == pending(s.outbox, q).push(s.spoken(sender, text))
            &&& forall|q: Peer|
                !members.contains(q) ==> (#[trigger] next.outbox.contains_key(q)
                    <==> s.outbox.contains_key(q)) && pending(next.outbox, q) == pending(
                    s.outbox,
                    q,
                )
            &&& next.rooms == s.rooms
            &&& next.by_id == s.by_id
            &&& next.room_of == s.room_of
            &&& next.names == s.names
        }),
{
}

/// A peer that joins a room stands in that room's member list exactly once,
/// as its last member, and in no other list, whether it was in another room
/// before, in none, or in that very room.
pub proof fn lemma_join_moves_peer(s: ServerView, peer: Peer, id: u32, fresh: u32)
    requires
        s.wf(),
        s.by_id.contains_key(id),
    ensures
        ({
            let (next, reply) = s.apply(FromClientView::Join(id), peer, fresh);
            let r = s.by_id[id] as int;
            &&& reply == FromServerView::Joined(s.rooms[r].name)
            &&& next.room_of.contains_key(peer) && next.room_of[peer] == r
            &&& next.rooms.len() == s.rooms.len()
            &&& next.rooms[r].members == without(s.rooms[r].members, peer).push(peer)
            &&& next.rooms[r].members.contains(peer)
            &&& next.rooms[r].members.no_duplicates()
            &&& forall|i: int|
                0 <= i < next.rooms.len() && i != r ==> !(#[trigger] next.rooms[i])
                    .members.contains(peer)
        }),
{
    let next = s.join(peer, id);
    let r = s.by_id[id] as int;
    lemma_join_wf(s, peer, id);
    lemma_all_without(s.rooms, peer);
    assert forall|i: int| 0 <= i < next.rooms.len() && i != r implies !(#[trigger] next.rooms[i])
        .members.contains(peer) by {
        if next.rooms[i].members.contains(peer) {
            assert(next.room_of[peer] == i);
        }
    }
}

/// A message from a peer that is in no room is answered `NotJoined` and
/// changes nothing: no mailbox gets anything.
pub proof fn lemma_message_outside_any_room(s: ServerView, peer: Peer, text: Seq<char>, fresh: u32)
    requires
        !s.room_of.contains_key(peer),
    ensures
        s.apply(FromClientView::Message(text), peer, fresh) == (s, FromServerView::NotJoined),
{
}

/// A peer that is in no room and leaves is answered `NotJoined`, and nothing
/// changes. A peer that is in a room and leaves is answered `Left`; after that
/// the membership index has no entry for it and no member list holds it.
pub proof fn lemma_leave(s: ServerView, peer: Peer, fresh: u32)
    requires
        s.wf(),
    ensures
        ({
            let (next, reply) = s.apply(FromClientView::Leave, peer, fresh);
            if s.room_of.contains_key(peer) {
                &&& reply == FromServerView::Left
                &&& !next.room_of.contains_key(peer)
                &&& next.rooms.len() == s.rooms.len()
                &&& forall|i: int|
                    0 <= i < next.rooms.len() ==> !(#[trigger] next.rooms[i]).members.contains(peer)
            } else {
                &&& reply == FromServerView::NotJoined
                &&& next == s
            }
        }),
{
    lemma_all_without(s.rooms, peer);
}

/// Each command has its answers, and never another: a new name is answered
/// `Renamed`, a new room `NewRoom` with its identifier, a join `Joined` with
/// the room's name or `RoomNotFound`, a leave `Left` or `NotJoined`, a message
/// `Sent` or `NotJoined`. A command that is answered `RoomNotFound` or
/// `NotJoined` has changed nothing.
pub proof fn lemma_command_outcomes(s: ServerView, msg: FromClientView, peer: Peer, fresh: u32)
    ensures
        ({
            let (next, reply) = s.apply(msg, peer, fresh);
            &&& match msg {
                FromClientView::Name(_) => reply == FromServerView::Renamed,
                FromClientView::Create(_) => reply == FromServerView::NewRoom(fresh),
                FromClientView::Join(_) => reply is Joined || reply == FromServerView::RoomNotFound,
                FromClientView::Leave => reply == FromServerView::Left || reply
                    == FromServerView::NotJoined,
                FromClientView::Message(_) => reply == FromServerView::Sent || reply
                    == FromServerView::NotJoined,
            }
            &&& reply == FromServerView::RoomNotFound || reply == FromServerView::NotJoined ==> next
                == s
        }),
{
}

/// No command deletes a room or changes a room's name, takes an entry out of
/// the name directory, or takes anything out of a mailbox: what waited for a
/// peer still waits, in its order, before anything that the command added.
pub proof fn lemma_nothing_is_forgotten(s: ServerView, msg: FromClientView, peer: Peer, fresh: u32)
    requires
        s.wf(),
    ensures
        ({
            let next = s.receive(msg, peer, fresh);
            &&& s.rooms.len() <= next.rooms.len()
            &&& forall|i: int|
                0 <= i < s.rooms.len() ==> (#[trigger] next.rooms[i]).name == s.rooms[i].name
            &&& forall|p: Peer| #[trigger]
                s.names.contains_key(p) ==> next.names.contains_key(p)
            &&& forall|p: Peer| #[trigger]
                s.outbox.contains_key(p) ==> next.outbox.contains_key(p)
                    && s.outbox[p].is_prefix_of(next.outbox[p])
        }),
{
    let (middle, reply) = s.apply(msg, peer, fresh);
    let next = s.receive(msg, peer, fresh);
    lemma_all_without(s.rooms, peer);
    assert(next.rooms == middle.rooms);
    assert forall|i: int| 0 <= i < s.rooms.len() implies (#[trigger] next.rooms[i]).name
        == s.rooms[i].name by {
        let left = all_without(s.rooms, peer);
        assert(left[i].name == s.rooms[i].name);
    }
    assert forall|p: Peer| #[trigger] s.outbox.contains_key(p) implies next.outbox.contains_key(p)
        && s.outbox[p].is_prefix_of(next.outbox[p]) by {
        let before = s.outbox[p];
        let between = middle.outbox[p];
        assert(before =~= between.subrange(0, before.len() as int));
        assert(between =~= next.outbox[p].subrange(0, between.len() as int));
        assert(before =~= next.outbox[p].subrange(0, before.len() as int));
    }
}

} // verus!
