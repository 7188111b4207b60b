//! What the handler of a connection does about what the connection gives it.
//! Reading and writing are the caller's; what follows from their outcome is
//! decided here. Only a connection that was reset or closed ends its handler:
//! a line that does not decode and a transfer that fails otherwise cost that
//! one line, and the handler goes on.

use crate::msg::{FromClient, FromClientView};
use crate::peer::Peer;
use crate::server::Server;
use vstd::prelude::*;

verus! {

/// What a read from the connection gave.
#[derive(Debug, PartialEq, Eq)]
pub enum Inbound {
    /// A line that decoded to this command.
    Command(FromClient),
    /// A line that did not decode.
    Malformed,
    /// Nothing: the read failed, though the connection was not reset.
    Failed,
    /// Nothing: the peer has reset or closed the connection.
    Closed,
}

/// How a write to the connection ended.
#[derive(Copy, Clone, Debug, PartialEq, Eq, Structural)]
pub enum Written {
    /// The line is out.
    Done,
    /// The write failed, though the connection was not reset.
    Failed,
    /// The peer has reset the connection.
    Closed,
}

/// What a loop of the handler does next.
#[derive(Copy, Clone, Debug, PartialEq, Eq, Structural)]
pub enum Next {
    Continue,
    Stop,
}

/// An `Inbound` with its command, if it holds one, as its view.
pub enum InboundView {
    Command(FromClientView),
    Malformed,
    Failed,
    Closed,
}

impl View for Inbound {
    type V = InboundView;

    open spec fn view(&self) -> InboundView {
        match self {
            Inbound::Command(msg) => InboundView::Command(msg@),
            Inbound::Malformed => InboundView::Malformed,
            Inbound::Failed => InboundView::Failed,
            Inbound::Closed => InboundView::Closed,
        }
    }
}

/// What the writing loop does after a write that ended as `outcome`.
pub open spec fn next_after_write(outcome: Written) -> Next {
    match outcome {
        Written::Closed => Next::Stop,
        _ => Next::Continue,
    }
}

/// What the reading loop does after a read that gave `event`.
pub open spec fn next_after_read(event: InboundView) -> Next {
    match event {
        InboundView::Closed => Next::Stop,
        _ => Next::Continue,
    }
}

/// What the writing loop does after a write that ended as `outcome`.
pub fn after_write(outcome: Written) -> (next: Next)
    ensures
        next == next_after_write(outcome),
{
    match outcome {
        Written::Closed => Next::Stop,
        _ => Next::Continue,
    }
}

impl Server {
    /// Takes what a read from the connection of `peer` gave. A command is
    /// carried out and answered into the mailbox of `peer`; anything else
    /// changes nothing.
    pub fn after_read(&mut self, peer: Peer, event: Inbound) -> (next: Next)
        requires
            old(self).wf(),
        ensures
            final(self).wf(),
            next == next_after_read(event@),
            match event@ {
                InboundView::Command(msg) => exists|fresh: u32|
                    final(self)@ == old(self)@.receive(msg, peer, fresh),
                _ => final(self)@ == old(self)@,
            },
    {
        match event {
            Inbound::Command(msg) => {
                self.process_incoming(msg, peer);
                Next::Continue
            },
            Inbound::Closed => Next::Stop,
            _ => Next::Continue,
        }
    }
}

} // verus!
