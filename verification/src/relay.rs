//! An in-process relay: a first-in-first-out queue of frames that stands in for
//! a link where no pair of interfaces is at hand. It never blocks: where a
//! sender would have to wait for room, or a receiver for a frame, it says so
//! and leaves the waiting to the caller.

use std::collections::VecDeque;
use vstd::prelude::*;

verus! {

/// What a relay holds: the frames on their way, oldest first, the number of
/// frames it has room for (`None`: no bound), and whether it was closed.
pub struct RelayView {
    pub pending: Seq<Seq<u8>>,
    pub capacity: Option<nat>,
    pub closed: bool,
}

impl RelayView {
    /// Whether the relay takes one more frame: it is open and has room.
    pub open spec fn accepts(self) -> bool {
        !self.closed && match self.capacity {
            Some(room) => self.pending.len() < room,
            None => true,
        }
    }

    /// The relay after a frame was offered: the frame stands last in line where
    /// the relay accepts it, and nothing has changed where it does not.
    pub open spec fn offered(self, frame: Seq<u8>) -> RelayView {
        if self.accepts() {
            RelayView { pending: self.pending.push(frame), ..self }
        } else {
            self
        }
    }

    /// The relay after a frame was asked for: the oldest frame has left, if
    /// there was one.
    pub open spec fn taken(self) -> RelayView {
        if self.pending.len() > 0 {
            RelayView { pending: self.pending.skip(1), ..self }
        } else {
            self
        }
    }

    /// The relay after it was closed. The frames on their way stay.
    pub open spec fn shut(self) -> RelayView {
        RelayView { closed: true, ..self }
    }
}

/// What became of a frame that was offered to a relay.
#[derive(Debug)]
pub enum Offer {
    /// The frame stands in line.
    Accepted,
    /// The relay is full. The frame comes back; the sender may wait and offer
    /// it again.
    Full(Vec<u8>),
    /// The relay is closed. The frame comes back.
    Closed(Vec<u8>),
}

/// What a relay gave when asked for a frame.
#[derive(Debug)]
pub enum Take {
    /// The oldest frame.
    Frame(Vec<u8>),
    /// No frame is in line yet; the receiver may wait and ask again.
    Empty,
    /// No frame is in line and none will come: the relay is closed.
    Closed,
}

/// A first-in-first-out queue of frames between one side that sends and one
/// that receives.
#[derive(Debug)]
pub struct Relay {
    queue: VecDeque<Vec<u8>>,
    capacity: Option<usize>,
    closed: bool,
}

impl View for Relay {
    type V = RelayView;

    closed spec fn view(&self) -> RelayView {
        RelayView {
            pending: self.queue@.map_values(|frame: Vec<u8>| frame@),
            capacity: match self.capacity {
                Some(room) => Some(room as nat),
                None => None,
            },
            closed: self.closed,
        }
    }
}

impl Relay {
    /// An open, empty relay without a bound.
    pub fn unbounded() -> (relay: Relay)
        ensures
            relay@ == (RelayView { pending: Seq::empty(), capacity: None, closed: false }),
    {
        let relay = Relay { queue: VecDeque::new(), capacity: None, closed: false };
        assert(relay@.pending =~= Seq::empty());
        relay
    }

    /// An open, empty relay with room for `room` frames.
    pub fn bounded(room: usize) -> (relay: Relay)
        ensures
            relay@ == (RelayView {
                pending: Seq::empty(),
                capacity: Some(room as nat),
                closed: false,
            }),
    {
        let relay = Relay { queue: VecDeque::new(), capacity: Some(room), closed: false };
        assert(relay@.pending =~= Seq::empty());
        relay
    }

    /// The number of frames in line.
    pub fn len(&self) -> (len: usize)
        ensures
            len == self@.pending.len(),
    {
        self.queue.len()
    }

    /// Whether the relay was closed.
    pub fn is_closed(&self) -> (closed: bool)
        ensures
            closed == self@.closed,
    {
        self.closed
    }

    /// Offers a frame. An open relay with room puts it last in line; a closed
    /// or full relay hands it back and stays as it is.
    pub fn offer(&mut self, frame: Vec<u8>) -> (offer: Offer)
        ensures
            final(self)@ == old(self)@.offered(frame@),
            match offer {
                Offer::Accepted => old(self)@.accepts(),
                Offer::Full(back) => !old(self)@.closed && !old(self)@.accepts() && back == frame,
                Offer::Closed(back) => old(self)@.closed && back == frame,
            },
    {
        if self.closed {
            return Offer::Closed(frame);
        }
        let full: bool = match self.capacity {
            Some(room) => self.queue.len() >= room,
            None => false,
        };
        if full {
            return Offer::Full(frame);
        }
        let ghost before = self.queue@;
        self.queue.push_back(frame);
        assert(self.queue@.map_values(|frame: Vec<u8>| frame@) =~= before.map_values(
            |frame: Vec<u8>| frame@,
        ).push(frame@));
        Offer::Accepted
    }

    /// Asks for the oldest frame. Frames that stand in line are handed out
    /// also after the relay was closed; only an empty closed relay answers
    /// `Closed`.
    pub fn take(&mut self) -> (take: Take)
        ensures
            final(self)@ == old(self)@.taken(),
            match take {
                Take::Frame(frame) => old(self)@.pending.len() > 0 && frame@
                    == old(self)@.pending[0],
                Take::Empty => old(self)@.pending.len() == 0 && !old(self)@.closed,
                Take::Closed => old(self)@.pending.len() == 0 && old(self)@.closed,
            },
    {
        let ghost before = self.queue@;
        match self.queue.pop_front() {
            Some(frame) => {
                assert(self.queue@.map_values(|frame: Vec<u8>| frame@) =~= before.map_values(
                    |frame: Vec<u8>| frame@,
                ).skip(1));
                Take::Frame(frame)
            },
            None => {
                if self.closed {
                    Take::Closed
                } else {
                    Take::Empty
                }
            },
        }
    }

    /// Closes the relay: it accepts no frame any more. The frames in line stay
    /// for the receiver.
    pub fn close(&mut self)
        ensures
            final(self)@ == old(self)@.shut(),
    {
        self.closed = true;
    }
}

/// One thing that is done to a relay.
pub enum RelayOp {
    Offer(Seq<u8>),
    Take,
    Close,
}

/// A relay together with the record of what it accepted and what it handed
/// out, each in the order in which it happened.
pub struct RelayRun {
    pub relay: RelayView,
    pub accepted: Seq<Seq<u8>>,
    pub delivered: Seq<Seq<u8>>,
}

/// The run after one more thing was done to the relay.
pub open spec fn relay_apply(run: RelayRun, op: RelayOp) -> RelayRun {
    match op {
        RelayOp::Offer(frame) => RelayRun {
            relay: run.relay.offered(frame),
            accepted: if run.relay.accepts() {
                run.accepted.push(frame)
            } else {
                run.accepted
            },
            delivered: run.delivered,
        },
        RelayOp::Take => RelayRun {
            relay: run.relay.taken(),
            accepted: run.accepted,
            delivered: if run.relay.pending.len() > 0 {
                run.delivered.push(run.relay.pending[0])
            } else {
                run.delivered
            },
        },
        RelayOp::Close => RelayRun {
            relay: run.relay.shut(),
            accepted: run.accepted,
            delivered: run.delivered,
        },
    }
}

/// The run that results from doing `ops`, in order, to the relay `start`.
pub open spec fn relay_run(start: RelayView, ops: Seq<RelayOp>) -> RelayRun
    decreases ops.len(),
{
    if ops.len() == 0 {
        RelayRun { relay: start, accepted: Seq::empty(), delivered: Seq::empty() }
    } else {
        relay_apply(relay_run(start, ops.drop_last()), ops.last())
    }
}

/// Transport fidelity of the relay. Whatever is done to a relay and in
/// whatever order, the frames that it handed out, followed by those still in
/// line, are the frames that were in line at the start followed by those it
/// accepted since: no frame is lost, doubled, altered or overtaken. A bounded
/// relay that started within its bound stays within it, and a closed relay
/// accepts nothing.
pub proof fn lemma_relay_fifo(start: RelayView, ops: Seq<RelayOp>)
    ensures
        relay_run(start, ops).delivered + relay_run(start, ops).relay.pending == start.pending
            + relay_run(start, ops).accepted,
        relay_run(start, ops).relay.capacity == start.capacity,
        start.closed ==> relay_run(start, ops).relay.closed && relay_run(start, ops).accepted.len()
            == 0,
        start.capacity is Some && start.pending.len() <= start.capacity->0 ==> relay_run(
            start,
            ops,
        ).relay.pending.len() <= start.capacity->0,
    decreases ops.len(),
{
    let run = relay_run(start, ops);
    if ops.len() == 0 {
        assert(run.delivered + run.relay.pending =~= start.pending + run.accepted);
    } else {
        let before = relay_run(start, ops.drop_last());
        lemma_relay_fifo(start, ops.drop_last());
        assert(before.delivered + before.relay.pending == start.pending + before.accepted);
        match ops.last() {
            RelayOp::Offer(frame) => {
                if before.relay.accepts() {
                    assert(run.delivered + run.relay.pending =~= (before.delivered
                        + before.relay.pending).push(frame));
                    assert(start.pending + run.accepted =~= (start.pending
                        + before.accepted).push(frame));
                }
            },
            RelayOp::Take => {
                if before.relay.pending.len() > 0 {
                    assert(run.delivered + run.relay.pending =~= before.delivered
                        + before.relay.pending);
                }
            },
            RelayOp::Close => {},
        }
    }
}

} // verus!
