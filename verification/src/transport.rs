//! The decisions of the raw link transport: which interface to open, whether
//! the channel that the system gave can be used, what a sender reports, and
//! the states of a receiver. The calls into the system are the caller's; what
//! they return is judged here.

use vstd::prelude::*;
use crate::error::Error;
use crate::text::same_text;

verus! {

/// What the system answered when asked for a link-layer channel on an
/// interface.
#[derive(Clone, Copy, PartialEq, Eq, Structural, Debug)]
pub enum ChannelOutcome {
    /// A channel that carries whole Ethernet frames.
    Ethernet,
    /// A channel of a kind that carries something else.
    Unsupported,
    /// No channel: the system refused to create one.
    Refused,
}

/// What the link answered when a frame was handed to it.
#[derive(Clone, Copy, PartialEq, Eq, Structural, Debug)]
pub enum SendOutcome {
    /// The frame was handed to the network stack.
    Sent,
    /// The link had no room for the frame and did not take it.
    NoRoom,
    /// The write failed.
    Failed,
}

/// The states of a receiver.
#[derive(Clone, Copy, PartialEq, Eq, Structural, Debug)]
pub enum ReceiverState {
    /// Nobody waits for a frame.
    Idle,
    /// The caller waits for the next frame.
    Blocked,
    /// The link failed; no frame will come any more.
    Terminated,
}

/// What happens to a receiver.
#[derive(Clone, Copy, PartialEq, Eq, Structural, Debug)]
pub enum ReceiverEvent {
    /// The caller asks for the next frame.
    Requested,
    /// The link delivered a frame.
    FrameArrived,
    /// The link reported an error.
    ReadFailed,
}

/// What a receiver does in answer to an event.
#[derive(Clone, Copy, PartialEq, Eq, Structural, Debug)]
pub enum ReceiverAction {
    /// Wait on the link for the next frame.
    Wait,
    /// Hand the frame that arrived to the caller, who owns it from then on.
    Deliver,
    /// Report `ReadError` to the caller.
    Fail,
    /// Nothing: the event came out of turn.
    Ignore,
}

/// The state that follows an event, and the receiver's answer to it. A request
/// blocks an idle receiver; a frame frees a blocked one; an error terminates a
/// blocked one; a terminated receiver stays terminated and fails every request.
pub open spec fn receiver_step(state: ReceiverState, event: ReceiverEvent) -> (
    ReceiverState,
    ReceiverAction,
) {
    match (state, event) {
        (ReceiverState::Terminated, _) => (ReceiverState::Terminated, ReceiverAction::Fail),
        (ReceiverState::Idle, ReceiverEvent::Requested) => (
            ReceiverState::Blocked,
            ReceiverAction::Wait,
        ),
        (ReceiverState::Blocked, ReceiverEvent::FrameArrived) => (
            ReceiverState::Idle,
            ReceiverAction::Deliver,
        ),
        (ReceiverState::Blocked, ReceiverEvent::ReadFailed) => (
            ReceiverState::Terminated,
            ReceiverAction::Fail,
        ),
        (ReceiverState::Idle, _) => (ReceiverState::Idle, ReceiverAction::Ignore),
        (ReceiverState::Blocked, ReceiverEvent::Requested) => (
            ReceiverState::Blocked,
            ReceiverAction::Ignore,
        ),
    }
}

/// The index of the first interface named `wanted`. Fails with
/// `InterfaceUnavailable` where no interface has that name.
pub fn select_interface(names: &[String], wanted: &str) -> (chosen: Result<usize, Error>)
    ensures
        match chosen {
            Ok(i) => i < names@.len() && names@[i as int]@ == wanted@ && forall|j: int|
                0 <= j < i ==> (#[trigger] names@[j])@ != wanted@,
            Err(e) => e == Error::InterfaceUnavailable && forall|j: int|
                0 <= j < names@.len() ==> (#[trigger] names@[j])@ != wanted@,
        },
{
    let mut i: usize = 0;
    while i < names.len()
        invariant
            i <= names@.len(),
            forall|j: int| 0 <= j < i ==> (#[trigger] names@[j])@ != wanted@,
        decreases names.len() - i,
    {
        if same_text(names[i].as_str(), wanted) {
            return Ok(i);
        }
        i += 1;
    }
    Err(Error::InterfaceUnavailable)
}

/// Whether the channel that the system gave can carry frames: only an Ethernet
/// channel can. Any other answer is `InterfaceUnavailable`.
pub fn accept_channel(outcome: ChannelOutcome) -> (accepted: Result<(), Error>)
    ensures
        accepted == match outcome {
            ChannelOutcome::Ethernet => Ok::<(), Error>(()),
            _ => Err::<(), Error>(Error::InterfaceUnavailable),
        },
{
    match outcome {
        ChannelOutcome::Ethernet => Ok(()),
        _ => Err(Error::InterfaceUnavailable),
    }
}

/// What a sender reports for a frame: success where the link took it, and
/// `WriteError` where the link had no room or the write failed. A frame that
/// was not taken is never passed over in silence.
pub fn report_send(outcome: SendOutcome) -> (reported: Result<(), Error>)
    ensures
        reported == match outcome {
            SendOutcome::Sent => Ok::<(), Error>(()),
            _ => Err::<(), Error>(Error::WriteError),
        },
{
    match outcome {
        SendOutcome::Sent => Ok(()),
        _ => Err(Error::WriteError),
    }
}

/// A receiver's state, moved on by what happens to it.
#[derive(Debug)]
pub struct Receiver {
    state: ReceiverState,
}

impl View for Receiver {
    type V = ReceiverState;

    closed spec fn view(&self) -> ReceiverState {
        self.state
    }
}

impl Receiver {
    /// An idle receiver.
    pub fn new() -> (receiver: Receiver)
        ensures
            receiver@ == ReceiverState::Idle,
    {
        Receiver { state: ReceiverState::Idle }
    }

    /// The state that the receiver is in.
    pub fn state(&self) -> (state: ReceiverState)
        ensures
            state == self@,
    {
        self.state
    }

    /// Moves the receiver on by one event and says what to do about it.
    pub fn step(&mut self, event: ReceiverEvent) -> (action: ReceiverAction)
        ensures
            (final(self)@, action) == receiver_step(old(self)@, event),
    {
        let (next, action): (ReceiverState, ReceiverAction) = match (self.state, event) {
            (ReceiverState::Terminated, _) => (ReceiverState::Terminated, ReceiverAction::Fail),
            (ReceiverState::Idle, ReceiverEvent::Requested) => (
                ReceiverState::Blocked,
                ReceiverAction::Wait,
            ),
            (ReceiverState::Blocked, ReceiverEvent::FrameArrived) => (
                ReceiverState::Idle,
                ReceiverAction::Deliver,
            ),
            (ReceiverState::Blocked, ReceiverEvent::ReadFailed) => (
                ReceiverState::Terminated,
                ReceiverAction::Fail,
            ),
            (ReceiverState::Idle, _) => (ReceiverState::Idle, ReceiverAction::Ignore),
            (ReceiverState::Blocked, ReceiverEvent::Requested) => (
                ReceiverState::Blocked,
                ReceiverAction::Ignore,
            ),
        };
        self.state = next;
        action
    }

    /// The caller asks for the next frame. `Ok` means: wait on the link now.
    /// A receiver that cannot take the request, above all a terminated one,
    /// answers `ReadError` at once, so that nobody waits on a link that is
    /// gone.
    pub fn request(&mut self) -> (go: Result<(), Error>)
        ensures
            final(self)@ == receiver_step(old(self)@, ReceiverEvent::Requested).0,
            match go {
                Ok(()) => old(self)@ == ReceiverState::Idle && final(self)@
                    == ReceiverState::Blocked,
                Err(e) => e == Error::ReadError && old(self)@ != ReceiverState::Idle,
            },
    {
        match self.step(ReceiverEvent::Requested) {
            ReceiverAction::Wait => Ok(()),
            _ => Err(Error::ReadError),
        }
    }

    /// The link answered the wait: `Ok` with the frame it delivered, or `Err`
    /// for a read error. A blocked receiver hands the frame on unchanged and is
    /// idle again, or reports `ReadError` and is terminated. An answer that
    /// nobody waited for is `ReadError` too and changes no state.
    pub fn complete(&mut self, answer: Result<Vec<u8>, ()>) -> (frame: Result<Vec<u8>, Error>)
        ensures
            final(self)@ == receiver_step(
                old(self)@,
                if answer is Ok {
                    ReceiverEvent::FrameArrived
                } else {
                    ReceiverEvent::ReadFailed
                },
            ).0,
            match frame {
                Ok(bytes) => old(self)@ == ReceiverState::Blocked && answer == Ok::<Vec<u8>, ()>(
                    bytes,
                ) && final(self)@ == ReceiverState::Idle,
                Err(e) => e == Error::ReadError && (old(self)@ != ReceiverState::Blocked
                    || answer is Err),
            },
    {
        match answer {
            Ok(bytes) => match self.step(ReceiverEvent::FrameArrived) {
                ReceiverAction::Deliver => Ok(bytes),
                _ => Err(Error::ReadError),
            },
            Err(_) => {
                let _ = self.step(ReceiverEvent::ReadFailed);
                Err(Error::ReadError)
            },
        }
    }
}

/// A terminated receiver stays terminated: whatever happens, it fails and
/// remains where it is. And a frame is delivered in one way only, to a blocked
/// receiver, which is idle afterwards.
pub proof fn lemma_receiver_states(state: ReceiverState, event: ReceiverEvent)
    ensures
        state == ReceiverState::Terminated ==> receiver_step(state, event) == (
            ReceiverState::Terminated,
            ReceiverAction::Fail,
        ),
        receiver_step(state, event).1 == ReceiverAction::Deliver <==> state
            == ReceiverState::Blocked && event == ReceiverEvent::FrameArrived,
        receiver_step(state, event).1 == ReceiverAction::Deliver ==> receiver_step(state, event).0
            == ReceiverState::Idle,
        receiver_step(state, event).0 == ReceiverState::Terminated <==> state
            == ReceiverState::Terminated || (state == ReceiverState::Blocked && event
            == ReceiverEvent::ReadFailed),
{
}

} // verus!
