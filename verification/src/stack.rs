//! A packet: an ordered stack of headers and a payload behind them.

use vstd::prelude::*;
use crate::error::Error;
use crate::layer::{lemma_field_is_local, lemma_wire_len, HeaderLayer, LayerFields, Protocol};

verus! {

/// The bytes of a sequence of headers: each header's bytes, in order.
pub open spec fn layers_wire(layers: Seq<LayerFields>) -> Seq<u8>
    decreases layers.len(),
{
    if layers.len() == 0 {
        Seq::empty()
    } else {
        layers_wire(layers.drop_last()) + layers.last().wire()
    }
}

/// The number of bytes that a sequence of headers takes: the sum of the lengths
/// of their kinds.
pub open spec fn headers_len(layers: Seq<LayerFields>) -> nat
    decreases layers.len(),
{
    if layers.len() == 0 {
        0
    } else {
        headers_len(layers.drop_last()) + layers.last().protocol().header_len()
    }
}

/// The index of the first header of the given kind, `None` where there is none.
pub open spec fn position(layers: Seq<LayerFields>, protocol: Protocol) -> Option<int>
    decreases layers.len(),
{
    if layers.len() == 0 {
        None
    } else if layers[0].protocol() == protocol {
        Some(0)
    } else {
        match position(layers.skip(1), protocol) {
            Some(i) => Some(i + 1),
            None => None,
        }
    }
}

/// The index of the first header of the kind that `name` stands for, `None`
/// where the name stands for no protocol or the stack has no such header.
pub open spec fn located(layers: Seq<LayerFields>, name: Seq<char>) -> Option<int> {
    match Protocol::named(name) {
        Some(protocol) => position(layers, protocol),
        None => None,
    }
}

/// Where the bytes of the header at `index` begin in the bytes of the stack.
pub open spec fn offset_of(layers: Seq<LayerFields>, index: int) -> int {
    layers_wire(layers.take(index)).len() as int
}

/// Whether two byte strings of one length differ, if at all, only in the bytes
/// from `from` up to but not including `to`.
pub open spec fn same_outside(a: Seq<u8>, b: Seq<u8>, from: int, to: int) -> bool {
    &&& a.len() == b.len()
    &&& 0 <= from <= to <= a.len()
    &&& forall|k: int| 0 <= k < a.len() && !(from <= k < to) ==> a[k] == b[k]
}

/// What a packet holds: its headers' field values, outermost first, and its
/// payload.
pub struct StackView {
    pub layers: Seq<LayerFields>,
    pub payload: Seq<u8>,
}

impl StackView {
    /// The packet's bytes: each header's bytes in stack order, then the payload.
    pub open spec fn wire(self) -> Seq<u8> {
        layers_wire(self.layers) + self.payload
    }

    /// The packet's length in bytes: the sum of its headers' lengths and the
    /// length of its payload.
    pub open spec fn len(self) -> nat {
        headers_len(self.layers) + self.payload.len()
    }

    /// Every header's fields fit their widths.
    pub open spec fn valid(self) -> bool {
        forall|i: int| 0 <= i < self.layers.len() ==> (#[trigger] self.layers[i]).valid()
    }

    /// The bytes behind the header at `index`: the headers that follow it and
    /// the payload.
    pub open spec fn behind(self, index: int) -> Seq<u8> {
        layers_wire(self.layers.skip(index + 1)) + self.payload
    }

    /// The header in front of the header at `index`, if there is one.
    pub open spec fn before(self, index: int) -> Option<LayerFields> {
        if 0 < index <= self.layers.len() {
            Some(self.layers[index - 1])
        } else {
            None
        }
    }

    /// The packet with the header at `index` replaced.
    pub open spec fn with_layer(self, index: int, layer: LayerFields) -> StackView {
        StackView { layers: self.layers.update(index, layer), payload: self.payload }
    }

    /// Where in the packet's bytes the named field of the first header of the
    /// named protocol stands: its first byte and the one behind its last.
    pub open spec fn field_place(self, protocol: Seq<char>, field: Seq<char>) -> Option<
        (int, int),
    > {
        match located(self.layers, protocol) {
            Some(index) => match self.layers[index].field_span(field) {
                Some(span) => Some(
                    (
                        offset_of(self.layers, index) + span.0,
                        offset_of(self.layers, index) + span.1,
                    ),
                ),
                None => None,
            },
            None => None,
        }
    }

    /// The packet after one field was set on the first header of the kind
    /// that `protocol` names: `LayerNotFound` where there is no such header,
    /// `InvalidField` where that header has no such field or the value does
    /// not fit it.
    pub open spec fn field_set(self, protocol: Seq<char>, field: Seq<char>, value: u64) -> Result<
        StackView,
        Error,
    > {
        match located(self.layers, protocol) {
            None => Err(Error::LayerNotFound),
            Some(i) => if self.layers[i].accepts(field, value) {
                Ok(self.with_layer(i, self.layers[i].with(field, value)))
            } else {
                Err(Error::InvalidField)
            },
        }
    }
}

/// An ordered stack of headers and the payload that follows them.
#[derive(Debug)]
pub struct PacketStack {
    layers: Vec<HeaderLayer>,
    payload: Vec<u8>,
}

impl View for PacketStack {
    type V = StackView;

    closed spec fn view(&self) -> StackView {
        StackView {
            layers: self.layers@.map_values(|layer: HeaderLayer| layer@),
            payload: self.payload@,
        }
    }
}

impl PacketStack {
    /// A packet of the given headers, outermost first, and payload.
    pub fn new(layers: Vec<HeaderLayer>, payload: Vec<u8>) -> (stack: PacketStack)
        ensures
            stack@.layers == layers@.map_values(|layer: HeaderLayer| layer@),
            stack@.payload == payload@,
    {
        PacketStack { layers, payload }
    }

    /// The number of headers.
    pub fn layer_count(&self) -> (count: usize)
        ensures
            count == self@.layers.len(),
    {
        self.layers.len()
    }

    /// The payload.
    pub fn payload(&self) -> (payload: &[u8])
        ensures
            payload@ == self@.payload,
    {
        self.payload.as_slice()
    }

    /// The packet's bytes: each header's bytes in stack order, then the payload.
    /// Nothing is computed on the way and the packet is left as it is.
    pub fn to_bytes(&self) -> (bytes: Vec<u8>)
        ensures
            bytes@ == self@.wire(),
            bytes@.len() == self@.len(),
    {
        proof {
            lemma_stack_wire_len(self@);
        }
        let mut bytes: Vec<u8> = Vec::new();
        let mut i: usize = 0;
        while i < self.layers.len()
            invariant
                i <= self.layers.len(),
                bytes@ == layers_wire(self@.layers.take(i as int)),
            decreases self.layers.len() - i,
        {
            assert(self@.layers.take(i + 1).drop_last() =~= self@.layers.take(i as int));
            self.layers[i].write_to(&mut bytes);
            i += 1;
        }
        assert(self@.layers.take(i as int) =~= self@.layers);
        bytes.extend_from_slice(self.payload.as_slice());
        assert(bytes@ =~= layers_wire(self@.layers) + self@.payload);
        bytes
    }

    /// Whether `raw` is, byte for byte, what the packet serializes to.
    pub fn compare_with_bytes(&self, raw: &[u8]) -> (same: bool)
        ensures
            same == (self@.wire() == raw@),
    {
        let bytes: Vec<u8> = self.to_bytes();
        if bytes.len() != raw.len() {
            return false;
        }
        let mut i: usize = 0;
        while i < bytes.len()
            invariant
                i <= bytes.len() == raw@.len(),
                bytes@ == self@.wire(),
                bytes@.take(i as int) == raw@.take(i as int),
            decreases bytes.len() - i,
        {
            if bytes[i] != raw[i] {
                return false;
            }
            assert(bytes@.take(i + 1) =~= bytes@.take(i as int).push(bytes@[i as int]));
            assert(raw@.take(i + 1) =~= raw@.take(i as int).push(raw@[i as int]));
            i += 1;
        }
        assert(bytes@.take(i as int) =~= bytes@);
        assert(raw@.take(i as int) =~= raw@);
        true
    }

    /// The first header of the kind that `protocol_name` stands for, for
    /// reading. Fails with `LayerNotFound` where the name stands for no
    /// protocol or the packet has no such header.
    pub fn get_layer(&self, protocol_name: &str) -> (found: Result<&HeaderLayer, Error>)
        ensures
            match found {
                Ok(layer) => located(self@.layers, protocol_name@) matches Some(i) && 0 <= i
                    < self@.layers.len() && layer@ == self@.layers[i],
                Err(e) => located(self@.layers, protocol_name@) is None && e
                    == Error::LayerNotFound,
            },
    {
        match self.find(protocol_name) {
            Some(i) => Ok(&self.layers[i]),
            None => Err(Error::LayerNotFound),
        }
    }

    /// The first header of the kind that `protocol_name` stands for, for
    /// changing in place: what is done to it is done to the packet's header at
    /// that place and to nothing else. Fails with `LayerNotFound`, and leaves
    /// the packet as it is, where the name stands for no protocol or the packet
    /// has no such header.
    pub fn get_layer_mut(&mut self, protocol_name: &str) -> (found: Result<
        &mut HeaderLayer,
        Error,
    >)
        ensures
            match found {
                Ok(layer) => located(old(self)@.layers, protocol_name@) matches Some(i) && 0 <= i
                    < old(self)@.layers.len() && layer@ == old(self)@.layers[i] && final(self)@
                    == old(self)@.with_layer(i, final(layer)@),
                Err(e) => located(old(self)@.layers, protocol_name@) is None && e
                    == Error::LayerNotFound && final(self)@ == old(self)@,
            },
    {
        match self.find(protocol_name) {
            Some(i) => {
                let ghost before = self.layers@;
                let layer: &mut HeaderLayer = &mut self.layers[i];
                proof {
                    assert(before.update(i as int, *final(layer)).map_values(
                        |layer: HeaderLayer| layer@,
                    ) =~= before.map_values(|layer: HeaderLayer| layer@).update(
                        i as int,
                        final(layer)@,
                    ));
                }
                Ok(layer)
            },
            None => Err(Error::LayerNotFound),
        }
    }

    /// Sets one field of the first header of the kind that `protocol_name`
    /// stands for, and nothing else. Fails with `LayerNotFound` where the
    /// packet has no such header and with `InvalidField` where that header has
    /// no such field or the value does not fit it; the packet is then left as
    /// it is.
    pub fn set_field(&mut self, protocol_name: &str, field_name: &str, value: u64) -> (done:
        Result<(), Error>)
        ensures
            match old(self)@.field_set(protocol_name@, field_name@, value) {
                Ok(changed) => done is Ok && final(self)@ == changed,
                Err(e) => done == Err::<(), Error>(e) && final(self)@ == old(self)@,
            },
            old(self)@.valid() ==> final(self)@.valid(),
    {
        match self.get_layer_mut(protocol_name) {
            Ok(layer) => {
                let done = layer.set_field(field_name, value);
                proof {
                    if done is Err {
                        let i = located(old(self)@.layers, protocol_name@)->0;
                        assert(old(self)@.layers.update(i, old(self)@.layers[i])
                            =~= old(self)@.layers);
                    }
                }
                done
            },
            Err(e) => Err(e),
        }
    }

    /// The header at `index`.
    pub(crate) fn layer_at(&self, index: usize) -> (layer: HeaderLayer)
        requires
            index < self@.layers.len(),
        ensures
            layer@ == self@.layers[index as int],
    {
        self.layers[index]
    }

    /// Replaces the header at `index`.
    pub(crate) fn replace_layer(&mut self, index: usize, layer: HeaderLayer)
        requires
            index < old(self)@.layers.len(),
        ensures
            final(self)@ == old(self)@.with_layer(index as int, layer@),
    {
        let ghost before = self.layers@;
        self.layers.set(index, layer);
        assert(self.layers@.map_values(|layer: HeaderLayer| layer@) =~= before.map_values(
            |layer: HeaderLayer| layer@,
        ).update(index as int, layer@));
    }

    /// The bytes of the headers from `index` on and of the payload.
    pub(crate) fn bytes_from(&self, index: usize) -> (bytes: Vec<u8>)
        requires
            index <= self@.layers.len(),
        ensures
            bytes@ == layers_wire(self@.layers.skip(index as int)) + self@.payload,
    {
        let mut bytes: Vec<u8> = Vec::new();
        let mut i: usize = index;
        while i < self.layers.len()
            invariant
                index <= i <= self.layers.len(),
                bytes@ == layers_wire(self@.layers.subrange(index as int, i as int)),
            decreases self.layers.len() - i,
        {
            assert(self@.layers.subrange(index as int, i + 1).drop_last()
                =~= self@.layers.subrange(index as int, i as int));
            self.layers[i].write_to(&mut bytes);
            i += 1;
        }
        assert(self@.layers.subrange(index as int, i as int) =~= self@.layers.skip(index as int));
        bytes.extend_from_slice(self.payload.as_slice());
        assert(bytes@ =~= layers_wire(self@.layers.skip(index as int)) + self@.payload);
        bytes
    }

    /// The index of the first header of the kind that `protocol_name` stands
    /// for.
    fn find(&self, protocol_name: &str) -> (index: Option<usize>)
        ensures
            match index {
                Some(i) => located(self@.layers, protocol_name@) == Some(i as int) && i
                    < self.layers@.len(),
                None => located(self@.layers, protocol_name@) is None,
            },
    {
        let protocol: Protocol = match Protocol::from_name(protocol_name) {
            Some(protocol) => protocol,
            None => {
                return None;
            },
        };
        let mut i: usize = 0;
        while i < self.layers.len()
            invariant
                i <= self.layers.len(),
                Protocol::named(protocol_name@) == Some(protocol),
                forall|j: int| 0 <= j < i ==> (#[trigger] self@.layers[j]).protocol() != protocol,
            decreases self.layers.len() - i,
        {
            if self.layers[i].protocol() == protocol {
                proof {
                    assert(self@.layers[i as int] == self.layers@[i as int]@);
                    lemma_position(self@.layers, protocol, i as int);
                }
                return Some(i);
            }
            i += 1;
        }
        proof {
            lemma_position_none(self@.layers, protocol);
        }
        None
    }
}

impl Clone for PacketStack {
    /// A deep copy: it holds what the packet holds and shares nothing with it.
    fn clone(&self) -> (copy: PacketStack)
        ensures
            copy@ == self@,
    {
        let layers: Vec<HeaderLayer> = self.layers.clone();
        assert(layers@ =~= self.layers@);
        let payload: Vec<u8> = self.payload.clone();
        assert(payload@ =~= self.payload@);
        PacketStack { layers, payload }
    }
}

/// Where the first header of a kind stands: no header before it is of that
/// kind.
pub proof fn lemma_position(layers: Seq<LayerFields>, protocol: Protocol, index: int)
    requires
        0 <= index < layers.len(),
        layers[index].protocol() == protocol,
        forall|j: int| 0 <= j < index ==> (#[trigger] layers[j]).protocol() != protocol,
    ensures
        position(layers, protocol) == Some(index),
    decreases layers.len(),
{
    if index > 0 {
        let rest = layers.skip(1);
        assert forall|j: int| 0 <= j < index - 1 implies (#[trigger] rest[j]).protocol()
            != protocol by {
            assert(rest[j] == layers[j + 1]);
        }
        lemma_position(rest, protocol, index - 1);
    }
}

/// A stack without a header of a kind has no first header of that kind, and the
/// reverse.
pub proof fn lemma_position_none(layers: Seq<LayerFields>, protocol: Protocol)
    ensures
        position(layers, protocol) is None <==> forall|j: int|
            0 <= j < layers.len() ==> (#[trigger] layers[j]).protocol() != protocol,
        position(layers, protocol) matches Some(i) ==> 0 <= i < layers.len() && layers[i].protocol()
            == protocol,
    decreases layers.len(),
{
    if layers.len() > 0 {
        let rest = layers.skip(1);
        lemma_position_none(rest, protocol);
        if layers[0].protocol() != protocol {
            if position(rest, protocol) is None {
                assert forall|j: int| 0 <= j < layers.len() implies (#[trigger] layers[
                    j
                ]).protocol() != protocol by {
                    if j > 0 {
                        assert(rest[j - 1] == layers[j]);
                    }
                }
            } else {
                let i = position(rest, protocol)->0;
                assert(rest[i] == layers[i + 1]);
            }
        }
    }
}

/// The bytes of two runs of headers, one behind the other, are the bytes of the
/// first run and then those of the second.
pub proof fn lemma_layers_wire_concat(a: Seq<LayerFields>, b: Seq<LayerFields>)
    ensures
        layers_wire(a + b) == layers_wire(a) + layers_wire(b),
    decreases b.len(),
{
    if b.len() == 0 {
        assert(a + b =~= a);
        assert(layers_wire(a) + layers_wire(b) =~= layers_wire(a));
    } else {
        assert((a + b).drop_last() =~= a + b.drop_last());
        lemma_layers_wire_concat(a, b.drop_last());
        assert(layers_wire(a + b) =~= layers_wire(a) + layers_wire(b));
    }
}

/// A packet's bytes are as many as the lengths of its headers and of its
/// payload add up to, whatever the headers' fields hold.
pub proof fn lemma_stack_wire_len(stack: StackView)
    ensures
        stack.wire().len() == stack.len(),
        layers_wire(stack.layers).len() == headers_len(stack.layers),
    decreases stack.layers.len(),
{
    if stack.layers.len() > 0 {
        lemma_stack_wire_len(
            StackView { layers: stack.layers.drop_last(), payload: stack.payload },
        );
        lemma_wire_len(stack.layers.last());
    }
}

/// One more header adds the length of its kind to the bytes of a stack.
pub proof fn lemma_wire_len_one_more(layers: Seq<LayerFields>, layer: LayerFields)
    ensures
        layers_wire(layers.push(layer)).len() == layers_wire(layers).len()
            + layer.protocol().header_len(),
{
    assert(layers.push(layer).drop_last() =~= layers);
    lemma_wire_len(layer);
}

/// The bytes of a packet in three parts: what stands before the header at
/// `index`, that header, and what stands behind it. Replacing the header
/// replaces the middle part and nothing else.
pub proof fn lemma_layer_change_is_local(stack: StackView, index: int, layer: LayerFields)
    requires
        0 <= index < stack.layers.len(),
    ensures
        stack.wire() == layers_wire(stack.layers.take(index)) + stack.layers[index].wire() + (
        layers_wire(stack.layers.skip(index + 1)) + stack.payload),
        stack.with_layer(index, layer).wire() == layers_wire(stack.layers.take(index))
            + layer.wire() + (layers_wire(stack.layers.skip(index + 1)) + stack.payload),
{
    let before = stack.layers.take(index);
    let behind = stack.layers.skip(index + 1);
    let changed = stack.with_layer(index, layer);
    assert(stack.layers =~= before.push(stack.layers[index]) + behind);
    assert(changed.layers =~= before.push(layer) + behind);
    assert(before.push(stack.layers[index]).drop_last() =~= before);
    assert(before.push(layer).drop_last() =~= before);
    lemma_layers_wire_concat(before.push(stack.layers[index]), behind);
    lemma_layers_wire_concat(before.push(layer), behind);
    assert(stack.wire() =~= layers_wire(before) + stack.layers[index].wire() + (layers_wire(behind)
        + stack.payload));
    assert(changed.wire() =~= layers_wire(before) + layer.wire() + (layers_wire(behind)
        + stack.payload));
}

/// Layer lookup correctness: a change to one header, which stays of its kind,
/// shows in that header's byte region and nowhere else. The packet keeps its
/// length, the region holds the changed header's bytes, and every byte before
/// and behind the region is what it was.
pub proof fn lemma_layer_change_keeps_other_bytes(
    stack: StackView,
    index: int,
    layer: LayerFields,
)
    requires
        0 <= index < stack.layers.len(),
        layer.protocol() == stack.layers[index].protocol(),
    ensures
        same_outside(
            stack.with_layer(index, layer).wire(),
            stack.wire(),
            offset_of(stack.layers, index),
            offset_of(stack.layers, index) + layer.protocol().header_len(),
        ),
        stack.with_layer(index, layer).wire().subrange(
            offset_of(stack.layers, index),
            offset_of(stack.layers, index) + layer.protocol().header_len(),
        ) == layer.wire(),
{
    lemma_layer_change_is_local(stack, index, layer);
    lemma_wire_len(layer);
    lemma_wire_len(stack.layers[index]);
    let start = offset_of(stack.layers, index);
    let end = start + layer.protocol().header_len();
    assert(stack.with_layer(index, layer).wire().subrange(start, end) =~= layer.wire());
}

/// A field that is set shows in the bytes that hold it and nowhere else in the
/// packet: the packet keeps its length, and every byte outside the field's
/// place is what it was.
pub proof fn lemma_field_change_is_local(
    stack: StackView,
    protocol: Seq<char>,
    field: Seq<char>,
    value: u64,
)
    requires
        stack.field_set(protocol, field, value) is Ok,
    ensures
        stack.field_place(protocol, field) matches Some(place) && same_outside(
            stack.field_set(protocol, field, value)->Ok_0.wire(),
            stack.wire(),
            place.0,
            place.1,
        ),
{
    let index = located(stack.layers, protocol)->0;
    lemma_position_none(stack.layers, Protocol::named(protocol)->0);
    let old_layer = stack.layers[index];
    let new_layer = old_layer.with(field, value);
    let changed = stack.with_layer(index, new_layer);
    assert(new_layer.protocol() == old_layer.protocol());
    lemma_field_is_local(old_layer, field, value);
    lemma_wire_len(old_layer);
    lemma_wire_len(new_layer);
    lemma_layer_change_keeps_other_bytes(stack, index, new_layer);
    lemma_layer_change_keeps_other_bytes(stack, index, old_layer);
    assert(stack.with_layer(index, old_layer).layers =~= stack.layers);
    let start = offset_of(stack.layers, index);
    let span = old_layer.field_span(field)->0;
    let length = old_layer.protocol().header_len() as int;
    assert forall|k: int|
        0 <= k < stack.wire().len() && !(start + span.0 <= k < start + span.1)
            implies #[trigger] changed.wire()[k] == stack.wire()[k] by {
        if start <= k < start + length {
            assert(changed.wire()[k] == changed.wire().subrange(start, start + length)[k - start]);
            assert(stack.wire()[k] == stack.wire().subrange(start, start + length)[k - start]);
            assert(new_layer.wire()[k - start] == old_layer.wire()[k - start]);
        }
    }
}

/// Mutation isolation: a clone holds what the packet holds, so it serializes to
/// the same bytes, and a packet's bytes depend on its own headers and payload
/// alone. So a field that is set in the clone shows in the clone's bytes only:
/// the packet cloned from serializes as before, and the changed clone differs
/// from it in the field's place and nowhere else.
pub proof fn lemma_clone_isolated(
    packet: StackView,
    copy: StackView,
    protocol: Seq<char>,
    field: Seq<char>,
    value: u64,
)
    requires
        copy == packet,
        copy.field_set(protocol, field, value) is Ok,
    ensures
        copy.wire() == packet.wire(),
        copy.field_place(protocol, field) matches Some(place) && same_outside(
            copy.field_set(protocol, field, value)->Ok_0.wire(),
            packet.wire(),
            place.0,
            place.1,
        ),
{
    lemma_field_change_is_local(copy, protocol, field, value);
}

} // verus!
