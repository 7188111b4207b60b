//! The queue of outbound messages that each peer has.

use crate::msg::{FromServer, FromServerView};
use crate::peer::Peer;
use crate::peer_map::PeerMap;
use vstd::prelude::*;

verus! {

/// The messages of `s`, each as its view.
pub open spec fn messages_view(s: Seq<FromServer>) -> Seq<FromServerView> {
    s.map_values(|m: FromServer| m@)
}

/// What waits for `peer` in `outbox`: nothing where it has no queue yet.
pub open spec fn pending(outbox: Map<Peer, Seq<FromServerView>>, peer: Peer) -> Seq<
    FromServerView,
> {
    if outbox.contains_key(peer) {
        outbox[peer]
    } else {
        Seq::empty()
    }
}

/// `outbox` with `msg` behind all that waits for `peer`.
pub open spec fn enqueued(
    outbox: Map<Peer, Seq<FromServerView>>,
    peer: Peer,
    msg: FromServerView,
) -> Map<Peer, Seq<FromServerView>> {
    outbox.insert(peer, pending(outbox, peer).push(msg))
}

/// `outbox` with the queue of `peer` emptied; a peer without a queue gets none.
pub open spec fn drained(outbox: Map<Peer, Seq<FromServerView>>, peer: Peer) -> Map<
    Peer,
    Seq<FromServerView>,
> {
    if outbox.contains_key(peer) {
        outbox.insert(peer, Seq::empty())
    } else {
        outbox
    }
}

/// For each peer that was ever sent anything, the messages that wait to be
/// written to its connection, oldest first.
pub(crate) struct Mailboxes {
    queues: PeerMap<Vec<FromServer>>,
}

impl View for Mailboxes {
    type V = Map<Peer, Seq<FromServerView>>;

    closed spec fn view(&self) -> Map<Peer, Seq<FromServerView>> {
        self.queues.map().map_values(|q: Vec<FromServer>| messages_view(q@))
    }
}

impl Mailboxes {
    /// Whether the queues are kept in order.
    pub(crate) closed spec fn wf(&self) -> bool {
        self.queues.wf()
    }

    /// No queue for anybody.
    pub(crate) fn new() -> (m: Self)
        ensures
            m.wf(),
            m@ == Map::<Peer, Seq<FromServerView>>::empty(),
    {
        let m = Mailboxes { queues: PeerMap::new() };
        assert(m@ =~= Map::<Peer, Seq<FromServerView>>::empty());
        m
    }

    /// Puts `msg` behind all that waits for `peer`, in a new queue if `peer`
    /// has none.
    pub(crate) fn enqueue(&mut self, peer: Peer, msg: FromServer)
        requires
            old(self).wf(),
        ensures
            final(self).wf(),
            final(self)@ == enqueued(old(self)@, peer, msg@),
    {
        match self.queues.get_mut(peer) {
            Some(queue) => {
                queue.push(msg);
                assert(messages_view(queue@) =~= messages_view(old(self).queues.map()[peer]@).push(
                    msg@,
                ));
            },
            None => {
                let mut queue = Vec::new();
                queue.push(msg);
                assert(messages_view(queue@) =~= Seq::<FromServerView>::empty().push(msg@));
                self.queues.insert(peer, queue);
            },
        }
        assert(self@ =~= enqueued(old(self)@, peer, msg@));
    }

    /// Takes all that waits for `peer`, oldest first, and leaves its queue,
    /// if it has one, empty.
    pub(crate) fn drain(&mut self, peer: Peer) -> (taken: Vec<FromServer>)
        requires
            old(self).wf(),
        ensures
            final(self).wf(),
            messages_view(taken@) == pending(old(self)@, peer),
            final(self)@ == drained(old(self)@, peer),
    {
        let mut taken = Vec::new();
        match self.queues.get_mut(peer) {
            Some(queue) => {
                taken.append(queue);
                assert(taken@ =~= old(self).queues.map()[peer]@);
                assert(messages_view(queue@) =~= Seq::<FromServerView>::empty());
            },
            None => {
                assert(messages_view(taken@) =~= Seq::<FromServerView>::empty());
            },
        }
        assert(self@ =~= drained(old(self)@, peer));
        taken
    }
}

} // verus!
