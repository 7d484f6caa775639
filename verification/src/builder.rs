//! Building a packet from an ordered list of header descriptions.

use vstd::prelude::*;
use crate::error::Error;
use crate::layer::{lemma_with_field, lemma_with_same_value, HeaderLayer, LayerFields, Protocol};
use crate::stack::PacketStack;

verus! {

/// The description of one header: the name of its protocol and the fields to
/// set, in the order in which they are set. A field that is not set keeps the
/// value that the protocol's initial header gives it.
#[derive(Debug)]
pub struct HeaderSpec {
    pub protocol: String,
    pub fields: Vec<(String, u64)>,
}

/// The header that results from setting the given fields, one after the other,
/// on `start`; `None` where one of them is no field of the header or its value
/// does not fit.
pub open spec fn assigned(start: LayerFields, fields: Seq<(String, u64)>) -> Option<LayerFields>
    decreases fields.len(),
{
    if fields.len() == 0 {
        Some(start)
    } else {
        match assigned(start, fields.drop_last()) {
            Some(before) => if before.accepts(fields.last().0@, fields.last().1) {
                Some(before.with(fields.last().0@, fields.last().1))
            } else {
                None
            },
            None => None,
        }
    }
}

/// The header that a description describes; `None` where its protocol name is
/// unknown or one of its fields cannot be set.
pub open spec fn described(spec: HeaderSpec) -> Option<LayerFields> {
    match Protocol::named(spec.protocol@) {
        Some(protocol) => assigned(LayerFields::initial(protocol), spec.fields@),
        None => None,
    }
}

/// The headers that a list of descriptions describes, in the list's order;
/// `None` where one of the descriptions describes no header.
pub open spec fn described_all(specs: Seq<HeaderSpec>) -> Option<Seq<LayerFields>>
    decreases specs.len(),
{
    if specs.len() == 0 {
        Some(Seq::empty())
    } else {
        match (described_all(specs.drop_last()), described(specs.last())) {
            (Some(layers), Some(layer)) => Some(layers.push(layer)),
            _ => None,
        }
    }
}

impl HeaderSpec {
    /// A description of a header of the named protocol that sets no field yet.
    pub fn new(protocol: &str) -> (spec: HeaderSpec)
        ensures
            spec.protocol@ == protocol@,
            spec.fields@.len() == 0,
    {
        HeaderSpec { protocol: protocol.to_owned(), fields: Vec::new() }
    }

    /// The description with one more field to set, after those it already sets.
    pub fn with(self, name: &str, value: u64) -> (spec: HeaderSpec)
        ensures
            spec.protocol@ == self.protocol@,
            spec.fields@.len() == self.fields@.len() + 1,
            spec.fields@.drop_last() == self.fields@,
            spec.fields@.last().0@ == name@,
            spec.fields@.last().1 == value,
    {
        let mut spec: HeaderSpec = self;
        spec.fields.push((name.to_owned(), value));
        assert(spec.fields@.drop_last() =~= self.fields@);
        spec
    }

    /// The header that this description describes, `None` where its protocol
    /// name is unknown or one of its fields cannot be set.
    pub fn layer(&self) -> (layer: Option<HeaderLayer>)
        ensures
            match layer {
                Some(l) => described(*self) == Some(l@) && l@.valid(),
                None => described(*self) is None,
            },
    {
        let protocol: Protocol = match Protocol::from_name(self.protocol.as_str()) {
            Some(protocol) => protocol,
            None => {
                return None;
            },
        };
        let mut layer: HeaderLayer = HeaderLayer::initial(protocol);
        let mut k: usize = 0;
        while k < self.fields.len()
            invariant
                k <= self.fields.len(),
                Protocol::named(self.protocol@) == Some(protocol),
                assigned(LayerFields::initial(protocol), self.fields@.take(k as int)) == Some(
                    layer@,
                ),
                layer@.valid(),
            decreases self.fields.len() - k,
        {
            assert(self.fields@.take(k + 1).drop_last() =~= self.fields@.take(k as int));
            match layer.set_field(self.fields[k].0.as_str(), self.fields[k].1) {
                Ok(()) => {},
                Err(_) => {
                    proof {
                        lemma_assigned_prefix(
                            LayerFields::initial(protocol),
                            self.fields@,
                            k + 1,
                        );
                    }
                    return None;
                },
            }
            k += 1;
        }
        assert(self.fields@.take(k as int) =~= self.fields@);
        Some(layer)
    }
}

impl PacketStack {
    /// The packet that the descriptions describe, header by header in their
    /// order, with `payload` behind the last header. Fails with
    /// `MalformedStack` where a description names no known protocol, sets a
    /// field that its protocol does not have, or sets a value that does not
    /// fit its field.
    pub fn build(specs: &[HeaderSpec], payload: Vec<u8>) -> (built: Result<PacketStack, Error>)
        ensures
            match built {
                Ok(stack) => described_all(specs@) == Some(stack@.layers) && stack@.payload
                    == payload@ && stack@.valid(),
                Err(e) => described_all(specs@) is None && e == Error::MalformedStack,
            },
    {
        let mut layers: Vec<HeaderLayer> = Vec::new();
        let mut i: usize = 0;
        while i < specs.len()
            invariant
                i <= specs.len(),
                described_all(specs@.take(i as int)) == Some(
                    layers@.map_values(|layer: HeaderLayer| layer@),
                ),
            decreases specs.len() - i,
        {
            assert(specs@.take(i + 1).drop_last() =~= specs@.take(i as int));
            match specs[i].layer() {
                Some(layer) => {
                    let ghost before = layers@;
                    layers.push(layer);
                    assert(layers@.map_values(|layer: HeaderLayer| layer@) =~= before.map_values(
                        |layer: HeaderLayer| layer@,
                    ).push(layer@));
                },
                None => {
                    proof {
                        lemma_described_prefix(specs@, i + 1);
                    }
                    return Err(Error::MalformedStack);
                },
            }
            i += 1;
        }
        assert(specs@.take(i as int) =~= specs@);
        proof {
            lemma_described_valid(specs@);
        }
        Ok(PacketStack::new(layers, payload))
    }
}

/// Once a field cannot be set, no later field mends it: where the first
/// `count` fields yield no header, all of them yield none.
proof fn lemma_assigned_prefix(start: LayerFields, fields: Seq<(String, u64)>, count: int)
    requires
        0 <= count <= fields.len(),
        assigned(start, fields.take(count)) is None,
    ensures
        assigned(start, fields) is None,
    decreases fields.len() - count,
{
    if count < fields.len() {
        assert(fields.take(count + 1).drop_last() =~= fields.take(count));
        lemma_assigned_prefix(start, fields, count + 1);
    } else {
        assert(fields.take(count) =~= fields);
    }
}

/// Once a description describes no header, no later description mends it:
/// where the first `count` descriptions yield no stack, all of them yield none.
proof fn lemma_described_prefix(specs: Seq<HeaderSpec>, count: int)
    requires
        0 <= count <= specs.len(),
        described_all(specs.take(count)) is None,
    ensures
        described_all(specs) is None,
    decreases specs.len() - count,
{
    if count < specs.len() {
        assert(specs.take(count + 1).drop_last() =~= specs.take(count));
        lemma_described_prefix(specs, count + 1);
    } else {
        assert(specs.take(count) =~= specs);
    }
}

/// The headers that descriptions describe are valid and as many as the
/// descriptions.
pub proof fn lemma_described_valid(specs: Seq<HeaderSpec>)
    requires
        described_all(specs) is Some,
    ensures
        described_all(specs)->0.len() == specs.len(),
        forall|i: int|
            0 <= i < specs.len() ==> (#[trigger] described_all(specs)->0[i]).valid()
                && described_all(specs)->0[i].protocol() == Protocol::named(specs[i].protocol@)->0
                && described(specs[i]) == Some(described_all(specs)->0[i]),
    decreases specs.len(),
{
    if specs.len() > 0 {
        lemma_described_valid(specs.drop_last());
        let last = specs.last();
        lemma_assigned_valid(
            LayerFields::initial(Protocol::named(last.protocol@)->0),
            last.fields@,
        );
    }
}

/// Setting fields on a valid header yields a valid header of the same kind.
proof fn lemma_assigned_valid(start: LayerFields, fields: Seq<(String, u64)>)
    requires
        start.valid(),
        assigned(start, fields) is Some,
    ensures
        assigned(start, fields)->0.valid(),
        assigned(start, fields)->0.protocol() == start.protocol(),
    decreases fields.len(),
{
    if fields.len() > 0 {
        lemma_assigned_valid(start, fields.drop_last());
        lemma_with_field(assigned(start, fields.drop_last())->0, fields.last().0@, fields.last().1);
    }
}

/// A field that a description sets last is a field set after building. Building
/// from descriptions of which one sets a further field last gives the headers
/// that building without that field and setting it afterwards gives; and where
/// the field already had that value, those are the headers of the packet that
/// was never changed. So a packet rebuilt with the final field values and a
/// packet, or a clone of it, on which the fields were set afterwards hold the
/// same headers and serialize alike.
pub proof fn lemma_build_then_set(
    specs: Seq<HeaderSpec>,
    extended: Seq<HeaderSpec>,
    index: int,
    name: Seq<char>,
    value: u64,
)
    requires
        described_all(specs) is Some,
        0 <= index < specs.len(),
        extended.len() == specs.len(),
        forall|j: int| 0 <= j < specs.len() && j != index ==> extended[j] == specs[j],
        extended[index].protocol@ == specs[index].protocol@,
        extended[index].fields@.len() == specs[index].fields@.len() + 1,
        extended[index].fields@.drop_last() == specs[index].fields@,
        extended[index].fields@.last().0@ == name,
        extended[index].fields@.last().1 == value,
        described_all(specs)->0[index].accepts(name, value),
    ensures
        described_all(specs)->0.len() == specs.len(),
        described_all(extended) == Some(
            described_all(specs)->0.update(index, described_all(specs)->0[index].with(name, value)),
        ),
        value == described_all(specs)->0[index].get(name) ==> described_all(extended)
            == described_all(specs),
    decreases specs.len(),
{
    lemma_described_valid(specs);
    let layers = described_all(specs)->0;
    let changed = layers.update(index, layers[index].with(name, value));
    if index == specs.len() - 1 {
        assert(extended.drop_last() =~= specs.drop_last());
        assert(described_all(extended)->0 =~= changed);
    } else {
        let fewer = specs.drop_last();
        let fewer_extended = extended.drop_last();
        lemma_described_valid(fewer);
        lemma_build_then_set(fewer, fewer_extended, index, name, value);
        assert(described_all(extended)->0 =~= changed);
    }
    if value == layers[index].get(name) {
        lemma_with_same_value(layers[index], name);
        assert(changed =~= layers);
    }
}

} // verus!
