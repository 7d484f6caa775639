//! The exchange harness: how a frame is produced under each construction
//! strategy, how an observed frame is judged, and the course of an exchange of
//! a given number of frames. Sending, receiving and timing are the caller's;
//! over the in-process relay a whole exchange runs here.

use vstd::prelude::*;
use vstd::slice::slice_to_vec;
use crate::builder::{described_all, lemma_described_valid, HeaderSpec};
use crate::error::Error;
use crate::layer::{
    lemma_value_fits, lemma_with_field, lemma_with_same_value, LayerFields, Protocol,
};
use crate::relay::{Offer, Relay, RelayView, Take};
use crate::stack::{lemma_position_none, located, position, PacketStack, StackView};

verus! {

/// The ways of coming by the packet for the next frame.
#[derive(Clone, Copy, PartialEq, Eq, Structural, Debug)]
pub enum Strategy {
    /// The template packet as it stands, again and again.
    Same,
    /// A packet built anew from the descriptions.
    New,
    /// A clone of the template packet.
    Clone,
    /// The template packet with one field set, and then a clone of it.
    UpdateClone,
}

/// The field that the update strategy sets: the named field of the first
/// header of the named protocol.
#[derive(Debug)]
pub struct FieldTarget {
    pub protocol: String,
    pub field: String,
}

/// The bytes that a strategy produces, and the template packet afterwards. Only
/// the update strategy changes the template, and only the targeted field.
pub open spec fn produced(
    strategy: Strategy,
    template: StackView,
    specs: Seq<HeaderSpec>,
    target: FieldTarget,
    value: u64,
) -> Result<(Seq<u8>, StackView), Error> {
    match strategy {
        Strategy::Same => Ok((template.wire(), template)),
        Strategy::Clone => Ok((template.wire(), template)),
        Strategy::New => match described_all(specs) {
            Some(layers) => Ok(
                ((StackView { layers, payload: template.payload }).wire(), template),
            ),
            None => Err(Error::MalformedStack),
        },
        Strategy::UpdateClone => match template.field_set(
            target.protocol@,
            target.field@,
            value,
        ) {
            Ok(changed) => Ok((changed.wire(), changed)),
            Err(e) => Err(e),
        },
    }
}

/// The frame for the next round under the given strategy. `specs` is what the
/// `New` strategy builds from, with the template's payload; `target` and
/// `value` are what the `UpdateClone` strategy sets on the template before it
/// clones it. Where it fails the template is left as it is.
pub fn produce(
    strategy: Strategy,
    template: &mut PacketStack,
    specs: &[HeaderSpec],
    target: &FieldTarget,
    value: u64,
) -> (frame: Result<Vec<u8>, Error>)
    ensures
        match produced(strategy, old(template)@, specs@, *target, value) {
            Ok((bytes, after)) => frame is Ok && frame->Ok_0@ == bytes && final(template)@
                == after,
            Err(e) => frame == Err::<Vec<u8>, Error>(e) && final(template)@ == old(template)@,
        },
        old(template)@.valid() ==> final(template)@.valid(),
{
    match strategy {
        Strategy::Same => Ok(template.to_bytes()),
        Strategy::Clone => {
            let copy: PacketStack = template.clone();
            Ok(copy.to_bytes())
        },
        Strategy::New => {
            let payload: Vec<u8> = slice_to_vec(template.payload());
            match PacketStack::build(specs, payload) {
                Ok(fresh) => Ok(fresh.to_bytes()),
                Err(e) => Err(e),
            }
        },
        Strategy::UpdateClone => {
            match template.set_field(target.protocol.as_str(), target.field.as_str(), value) {
                Ok(()) => {
                    let copy: PacketStack = template.clone();
                    Ok(copy.to_bytes())
                },
                Err(e) => Err(e),
            }
        },
    }
}

/// The value that the update strategy sets in a round: the round's number,
/// wrapped into the range of a field whose largest value is `max`.
pub open spec fn round_value(round: u64, max: u64) -> u64 {
    if max == u64::MAX {
        round
    } else {
        (round as int % (max + 1)) as u64
    }
}

/// The round's number wrapped into the range of a field whose largest value is
/// `max`.
pub fn wrap_round(round: u64, max: u64) -> (value: u64)
    ensures
        value == round_value(round, max),
        value <= max,
{
    if max == u64::MAX {
        round
    } else {
        round % (max + 1)
    }
}

/// What an exchange of `rounds` frames over the in-process relay comes to. It
/// fails only on what it is given: descriptions that describe no packet, or,
/// under the update strategy, a target that the packet does not have. Else
/// every frame comes out of the relay as it went in, and all are verified.
pub open spec fn relay_exchange(
    strategy: Strategy,
    specs: Seq<HeaderSpec>,
    target: FieldTarget,
    rounds: u64,
) -> Result<u64, Error> {
    match described_all(specs) {
        None => Err(Error::MalformedStack),
        Some(layers) => if strategy == Strategy::UpdateClone && rounds > 0 {
            match located(layers, target.protocol@) {
                None => Err(Error::LayerNotFound),
                Some(i) => if layers[i].max_value(target.field@) is Some {
                    Ok(rounds)
                } else {
                    Err(Error::InvalidField)
                },
            }
        } else {
            Ok(rounds)
        },
    }
}

/// Runs an exchange of `rounds` frames over an in-process relay, in one
/// thread of control: each round produces a frame under `strategy`, offers it
/// to the relay, takes it out again and verifies it against the template
/// packet, which is built from `specs` and `payload`. Under the update
/// strategy round `n` sets the target field to `n` wrapped into the field's
/// range. Returns the number of frames verified, which is `rounds`.
pub fn run_over_relay(
    strategy: Strategy,
    specs: &[HeaderSpec],
    payload: Vec<u8>,
    target: &FieldTarget,
    rounds: u64,
) -> (verified: Result<u64, Error>)
    ensures
        verified == relay_exchange(strategy, specs@, *target, rounds),
{
    let mut template: PacketStack = match PacketStack::build(specs, payload) {
        Ok(template) => template,
        Err(e) => {
            return Err(e);
        },
    };
    let mut relay: Relay = Relay::unbounded();
    let ghost built = template@.layers;
    proof {
        lemma_described_valid(specs@);
    }
    let mut round: u64 = 0;
    while round < rounds
        invariant
            round <= rounds,
            relay@ == (RelayView { pending: Seq::empty(), capacity: None, closed: false }),
            described_all(specs@) == Some(built),
            template@.layers.len() == built.len(),
            forall|j: int|
                0 <= j < built.len() ==> (#[trigger] template@.layers[j]).protocol()
                    == built[j].protocol() && template@.layers[j].valid(),
            !(strategy is UpdateClone) ==> template@.layers == built,
            round > 0 ==> relay_exchange(strategy, specs@, *target, rounds) == Ok::<u64, Error>(
                rounds,
            ),
        decreases rounds - round,
    {
        let ghost before = template@;
        proof {
            lemma_position_by_protocols(
                before.layers,
                built,
                Protocol::named(target.protocol@),
            );
        }
        let mut value: u64 = 0;
        match strategy {
            Strategy::UpdateClone => {
                let max: u64 = match template.get_layer(target.protocol.as_str()) {
                    Ok(layer) => match layer.field_max(target.field.as_str()) {
                        Some(max) => max,
                        None => {
                            return Err(Error::InvalidField);
                        },
                    },
                    Err(e) => {
                        return Err(e);
                    },
                };
                value = wrap_round(round, max);
                proof {
                    let i = located(before.layers, target.protocol@)->0;
                    lemma_with_field(before.layers[i], target.field@, value);
                }
            },
            _ => {},
        }
        let frame: Vec<u8> = match produce(strategy, &mut template, specs, target, value) {
            Ok(frame) => frame,
            Err(e) => {
                return Err(e);
            },
        };
        let ghost sent = frame@;
        assert(sent == template@.wire()) by {
            assert(before == (StackView { layers: before.layers, payload: before.payload }));
        }
        match relay.offer(frame) {
            Offer::Accepted => {},
            _ => {
                return Err(Error::WriteError);
            },
        }
        let observed: Vec<u8> = match relay.take() {
            Take::Frame(observed) => observed,
            _ => {
                return Err(Error::ReadError);
            },
        };
        assert(relay@.pending =~= Seq::empty());
        match verify_frame(&template, observed.as_slice()) {
            Ok(()) => {},
            Err(e) => {
                return Err(e);
            },
        }
        round += 1;
    }
    Ok(rounds)
}

/// Strategy equivalence. Where the template packet is what the descriptions
/// describe, and the update sets its field to the value that the field has,
/// every strategy produces the bytes of the template as it stands and leaves
/// the template as it is: rebuilding, cloning, and cloning after the update
/// all give what reusing the packet gives.
pub proof fn lemma_strategy_equivalence(
    template: StackView,
    specs: Seq<HeaderSpec>,
    target: FieldTarget,
    value: u64,
    strategy: Strategy,
)
    requires
        template.valid(),
        described_all(specs) == Some(template.layers),
        located(template.layers, target.protocol@) matches Some(index)
            && template.layers[index].max_value(target.field@) is Some && value
            == template.layers[index].get(target.field@),
    ensures
        produced(strategy, template, specs, target, value) == Ok::<(Seq<u8>, StackView), Error>(
            (template.wire(), template),
        ),
{
    let index = located(template.layers, target.protocol@)->0;
    lemma_position_none(template.layers, Protocol::named(target.protocol@)->0);
    lemma_value_fits(template.layers[index], target.field@);
    lemma_with_same_value(template.layers[index], target.field@);
    assert(template.layers.update(index, template.layers[index]) =~= template.layers);
    assert(template == (StackView { layers: template.layers, payload: template.payload }));
}

/// Two stacks whose headers are of the same kinds, place by place, have the
/// first header of any kind at the same place.
proof fn lemma_position_by_protocols(
    a: Seq<LayerFields>,
    b: Seq<LayerFields>,
    protocol: Option<Protocol>,
)
    requires
        a.len() == b.len(),
        forall|j: int| 0 <= j < a.len() ==> (#[trigger] a[j]).protocol() == b[j].protocol(),
    ensures
        protocol matches Some(p) ==> position(a, p) == position(b, p),
    decreases a.len(),
{
    if a.len() > 0 && protocol is Some {
        assert(a[0].protocol() == b[0].protocol());
        assert forall|j: int| 0 <= j < a.skip(1).len() implies (#[trigger] a.skip(1)[j]).protocol()
            == b.skip(1)[j].protocol() by {
            assert(a.skip(1)[j] == a[j + 1]);
            assert(b.skip(1)[j] == b[j + 1]);
        }
        lemma_position_by_protocols(a.skip(1), b.skip(1), protocol);
    }
}

/// What happens in an exchange.
#[derive(Clone, Copy, PartialEq, Eq, Structural, Debug)]
pub enum ExchangeEvent {
    /// The frame was handed to the sender.
    Sent,
    /// The sender reported a write error.
    SendFailed,
    /// The observed frame is, byte for byte, the expected one.
    Matched,
    /// The observed frame differs from the expected one.
    Mismatched,
    /// The receiver reported a read error.
    ReadFailed,
}

/// Judges an observed frame against the packet that was sent: `Matched` where
/// the frame is exactly the packet's bytes, `Mismatched` else.
pub fn check_frame(expected: &PacketStack, observed: &[u8]) -> (event: ExchangeEvent)
    ensures
        event == if expected@.wire() == observed@ {
            ExchangeEvent::Matched
        } else {
            ExchangeEvent::Mismatched
        },
{
    if expected.compare_with_bytes(observed) {
        ExchangeEvent::Matched
    } else {
        ExchangeEvent::Mismatched
    }
}

/// Verifies an observed frame against the packet that was sent. Fails with
/// `VerificationMismatch` where the two differ in any byte or in length.
pub fn verify_frame(expected: &PacketStack, observed: &[u8]) -> (verified: Result<(), Error>)
    ensures
        match verified {
            Ok(()) => expected@.wire() == observed@,
            Err(e) => expected@.wire() != observed@ && e == Error::VerificationMismatch,
        },
{
    if expected.compare_with_bytes(observed) {
        Ok(())
    } else {
        Err(Error::VerificationMismatch)
    }
}

/// Where an exchange of `total` frames stands.
#[derive(Clone, Copy, PartialEq, Eq, Structural, Debug)]
pub enum ExchangeState {
    /// `done` frames were verified; the next one is to be produced and sent.
    Sending { done: u64 },
    /// `done` frames were verified; one more was sent and is awaited.
    Awaiting { done: u64 },
    /// All frames were sent and verified.
    Finished,
    /// The exchange stopped on a failure.
    Failed { error: Error },
}

/// What is to be done next in an exchange.
#[derive(Clone, Copy, PartialEq, Eq, Structural, Debug)]
pub enum ExchangeAction {
    /// Produce the next frame and hand it to the sender.
    Send,
    /// Wait for the next frame at the receiver and judge it.
    Receive,
    /// Stop: every frame was verified.
    Finish,
    /// Stop and report the failure.
    Abort { error: Error },
}

/// The state in which an exchange of `total` frames begins.
pub open spec fn exchange_start(total: u64) -> ExchangeState {
    if total == 0 {
        ExchangeState::Finished
    } else {
        ExchangeState::Sending { done: 0 }
    }
}

/// The state that follows an event. A frame is sent, then awaited, then
/// verified, one at a time; any failure ends the exchange for good, and so
/// does the last verified frame. An event out of turn changes nothing.
pub open spec fn exchange_step(total: u64, state: ExchangeState, event: ExchangeEvent)
    -> ExchangeState {
    match (state, event) {
        (ExchangeState::Sending { done }, ExchangeEvent::Sent) => ExchangeState::Awaiting { done },
        (ExchangeState::Sending { .. }, ExchangeEvent::SendFailed) => ExchangeState::Failed {
            error: Error::WriteError,
        },
        (ExchangeState::Awaiting { done }, ExchangeEvent::Matched) => if done + 1 >= total {
            ExchangeState::Finished
        } else {
            ExchangeState::Sending { done: (done + 1) as u64 }
        },
        (ExchangeState::Awaiting { .. }, ExchangeEvent::Mismatched) => ExchangeState::Failed {
            error: Error::VerificationMismatch,
        },
        (ExchangeState::Awaiting { .. }, ExchangeEvent::ReadFailed) => ExchangeState::Failed {
            error: Error::ReadError,
        },
        _ => state,
    }
}

/// What a state asks for.
pub open spec fn exchange_action(state: ExchangeState) -> ExchangeAction {
    match state {
        ExchangeState::Sending { .. } => ExchangeAction::Send,
        ExchangeState::Awaiting { .. } => ExchangeAction::Receive,
        ExchangeState::Finished => ExchangeAction::Finish,
        ExchangeState::Failed { error } => ExchangeAction::Abort { error },
    }
}

/// The number of frames that were verified when an exchange of `total` frames
/// stands in `state`; a failed exchange does not say.
pub open spec fn exchange_verified(total: u64, state: ExchangeState) -> Option<u64> {
    match state {
        ExchangeState::Sending { done } => Some(done),
        ExchangeState::Awaiting { done } => Some(done),
        ExchangeState::Finished => Some(total),
        ExchangeState::Failed { .. } => None,
    }
}

/// The states in which an exchange of `total` frames can stand: fewer frames
/// are verified than are asked for, unless it has finished or failed.
pub open spec fn exchange_sound(total: u64, state: ExchangeState) -> bool {
    match state {
        ExchangeState::Sending { done } => done < total,
        ExchangeState::Awaiting { done } => done < total,
        _ => true,
    }
}

/// The course of an exchange of a fixed number of frames.
#[derive(Debug)]
pub struct Exchange {
    total: u64,
    state: ExchangeState,
}

impl Exchange {
    #[verifier::type_invariant]
    spec fn well_formed(self) -> bool {
        exchange_sound(self.total, self.state)
    }

    /// The number of frames that the exchange is about.
    pub closed spec fn total(self) -> u64 {
        self.total
    }

    /// Where the exchange stands.
    pub closed spec fn state(self) -> ExchangeState {
        self.state
    }

    /// An exchange of `total` frames, at its start.
    pub fn new(total: u64) -> (exchange: Exchange)
        ensures
            exchange.total() == total,
            exchange.state() == exchange_start(total),
    {
        if total == 0 {
            Exchange { total, state: ExchangeState::Finished }
        } else {
            Exchange { total, state: ExchangeState::Sending { done: 0 } }
        }
    }

    /// Where the exchange stands.
    pub fn current(&self) -> (state: ExchangeState)
        ensures
            state == self.state(),
            exchange_sound(self.total(), state),
    {
        proof {
            use_type_invariant(self);
        }
        self.state
    }

    /// What is to be done next.
    pub fn action(&self) -> (action: ExchangeAction)
        ensures
            action == exchange_action(self.state()),
    {
        match self.state {
            ExchangeState::Sending { .. } => ExchangeAction::Send,
            ExchangeState::Awaiting { .. } => ExchangeAction::Receive,
            ExchangeState::Finished => ExchangeAction::Finish,
            ExchangeState::Failed { error } => ExchangeAction::Abort { error },
        }
    }

    /// Moves the exchange on by one event and says what is to be done next.
    pub fn step(&mut self, event: ExchangeEvent) -> (action: ExchangeAction)
        ensures
            final(self).total() == old(self).total(),
            final(self).state() == exchange_step(old(self).total(), old(self).state(), event),
            action == exchange_action(final(self).state()),
    {
        proof {
            use_type_invariant(&*self);
        }
        let next: ExchangeState = match (self.state, event) {
            (ExchangeState::Sending { done }, ExchangeEvent::Sent) => ExchangeState::Awaiting {
                done,
            },
            (ExchangeState::Sending { .. }, ExchangeEvent::SendFailed) => ExchangeState::Failed {
                error: Error::WriteError,
            },
            (ExchangeState::Awaiting { done }, ExchangeEvent::Matched) => {
                if done + 1 >= self.total {
                    ExchangeState::Finished
                } else {
                    ExchangeState::Sending { done: done + 1 }
                }
            },
            (ExchangeState::Awaiting { .. }, ExchangeEvent::Mismatched) => ExchangeState::Failed {
                error: Error::VerificationMismatch,
            },
            (ExchangeState::Awaiting { .. }, ExchangeEvent::ReadFailed) => ExchangeState::Failed {
                error: Error::ReadError,
            },
            (state, _) => state,
        };
        self.state = next;
        self.action()
    }
}

/// The course of an exchange is sound. From a state in which an exchange can
/// stand every event leads to such a state again; a finished or failed
/// exchange stays as it is; the count of verified frames grows by one on a
/// match and on nothing else; and a mismatch, a read error or a write error
/// ends the exchange with that very failure.
pub proof fn lemma_exchange_course(total: u64, state: ExchangeState, event: ExchangeEvent)
    requires
        exchange_sound(total, state),
    ensures
        exchange_sound(total, exchange_start(total)),
        exchange_sound(total, exchange_step(total, state, event)),
        state is Finished || state is Failed ==> exchange_step(total, state, event) == state,
        exchange_verified(total, state) matches Some(before) ==> match exchange_verified(
            total,
            exchange_step(total, state, event),
        ) {
            Some(after) => after == if state is Awaiting && event == ExchangeEvent::Matched {
                before + 1
            } else {
                before as int
            },
            None => (state is Sending && event == ExchangeEvent::SendFailed) || (state is Awaiting
                && (event == ExchangeEvent::Mismatched || event == ExchangeEvent::ReadFailed)),
        },
        state is Awaiting && event == ExchangeEvent::Mismatched ==> exchange_step(
            total,
            state,
            event,
        ) == (ExchangeState::Failed { error: Error::VerificationMismatch }),
        state is Awaiting && event == ExchangeEvent::ReadFailed ==> exchange_step(
            total,
            state,
            event,
        ) == (ExchangeState::Failed { error: Error::ReadError }),
        state is Sending && event == ExchangeEvent::SendFailed ==> exchange_step(
            total,
            state,
            event,
        ) == (ExchangeState::Failed { error: Error::WriteError }),
{
}

/// The state of an exchange of `total` frames after the given events, in
/// order, from its start.
pub open spec fn exchange_run(total: u64, events: Seq<ExchangeEvent>) -> ExchangeState
    decreases events.len(),
{
    if events.len() == 0 {
        exchange_start(total)
    } else {
        exchange_step(total, exchange_run(total, events.drop_last()), events.last())
    }
}

/// How often an event occurs among the given events.
pub open spec fn occurrences(events: Seq<ExchangeEvent>, event: ExchangeEvent) -> nat
    decreases events.len(),
{
    if events.len() == 0 {
        0
    } else {
        occurrences(events.drop_last(), event) + if events.last() == event {
            1nat
        } else {
            0nat
        }
    }
}

/// An exchange counts no frame that was not sent and matched: whatever events
/// come, the frames counted as verified are no more than the frames sent and
/// no more than the matches seen, so that an exchange that finished has sent
/// and matched every one of its frames. It fails on a failure only: a state of
/// failure names an error whose event occurred.
pub proof fn lemma_exchange_run(total: u64, events: Seq<ExchangeEvent>)
    ensures
        exchange_sound(total, exchange_run(total, events)),
        match exchange_run(total, events) {
            ExchangeState::Sending { done } => done <= occurrences(events, ExchangeEvent::Matched)
                && done <= occurrences(events, ExchangeEvent::Sent),
            ExchangeState::Awaiting { done } => done <= occurrences(events, ExchangeEvent::Matched)
                && done < occurrences(events, ExchangeEvent::Sent),
            ExchangeState::Finished => total <= occurrences(events, ExchangeEvent::Matched)
                && total <= occurrences(events, ExchangeEvent::Sent),
            ExchangeState::Failed { error } => match error {
                Error::WriteError => occurrences(events, ExchangeEvent::SendFailed) > 0,
                Error::ReadError => occurrences(events, ExchangeEvent::ReadFailed) > 0,
                Error::VerificationMismatch => occurrences(events, ExchangeEvent::Mismatched) > 0,
                _ => false,
            },
        },
    decreases events.len(),
{
    if events.len() > 0 {
        lemma_exchange_run(total, events.drop_last());
    }
}

} // verus!
