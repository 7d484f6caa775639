//! Reading a packet back from its bytes.
//!
//! A frame is read outermost header first. An Ethernet header is read where the
//! frame holds one; an IPv4 header behind it where the ethertype announces one;
//! a TCP header behind that where the IPv4 header has no options and announces
//! TCP. What is left is payload. Nothing is dropped or altered on the way, so a
//! packet read from a frame serializes to that frame again.

use vstd::prelude::*;
use vstd::slice::{slice_subrange, slice_to_vec};
use crate::layer::{
    lemma_parse_wire, lemma_wire_len, lemma_wire_parse, HeaderLayer, LayerFields, Protocol,
};
use crate::stack::{layers_wire, PacketStack, StackView};

verus! {

/// The packet that a frame's bytes denote.
pub open spec fn dissect(raw: Seq<u8>) -> StackView {
    if raw.len() < 14 {
        StackView { layers: Seq::empty(), payload: raw }
    } else {
        let ethernet = LayerFields::parse(Protocol::Ethernet, raw.subrange(0, 14));
        if ethernet.announces() != Some(Protocol::Ipv4) || raw.len() < 34 {
            StackView { layers: seq![ethernet], payload: raw.subrange(14, raw.len() as int) }
        } else {
            let ipv4 = LayerFields::parse(Protocol::Ipv4, raw.subrange(14, 34));
            if ipv4.announces() != Some(Protocol::Tcp) || raw.len() < 54 {
                StackView {
                    layers: seq![ethernet, ipv4],
                    payload: raw.subrange(34, raw.len() as int),
                }
            } else {
                let tcp = LayerFields::parse(Protocol::Tcp, raw.subrange(34, 54));
                StackView {
                    layers: seq![ethernet, ipv4, tcp],
                    payload: raw.subrange(54, raw.len() as int),
                }
            }
        }
    }
}

impl PacketStack {
    /// The packet that the frame `raw` denotes. Every frame denotes one, and
    /// that packet's bytes are the frame.
    pub fn from_bytes(raw: &[u8]) -> (stack: PacketStack)
        ensures
            stack@ == dissect(raw@),
            stack@.wire() == raw@,
            stack@.valid(),
    {
        proof {
            lemma_dissect_wire(raw@);
        }
        let mut layers: Vec<HeaderLayer> = Vec::new();
        let ghost read = dissect(raw@);
        let ethernet: HeaderLayer = match HeaderLayer::decode(Protocol::Ethernet, raw, 0) {
            Some(layer) => layer,
            None => {
                assert(layers@.map_values(|layer: HeaderLayer| layer@) =~= read.layers);
                assert(raw@.subrange(0, raw@.len() as int) =~= raw@);
                return Self::with_rest(layers, raw, 0);
            },
        };
        layers.push(ethernet);
        let ipv4: HeaderLayer = match Self::announced(&ethernet, Protocol::Ipv4, raw, 14) {
            Some(layer) => layer,
            None => {
                assert(layers@.map_values(|layer: HeaderLayer| layer@) =~= read.layers);
                return Self::with_rest(layers, raw, 14);
            },
        };
        layers.push(ipv4);
        let tcp: HeaderLayer = match Self::announced(&ipv4, Protocol::Tcp, raw, 34) {
            Some(layer) => layer,
            None => {
                assert(layers@.map_values(|layer: HeaderLayer| layer@) =~= read.layers);
                return Self::with_rest(layers, raw, 34);
            },
        };
        layers.push(tcp);
        assert(layers@.map_values(|layer: HeaderLayer| layer@) =~= read.layers);
        Self::with_rest(layers, raw, 54)
    }

    /// The header of kind `protocol` at `offset`, where `front` announces that
    /// kind and the frame holds a whole header there.
    fn announced(front: &HeaderLayer, protocol: Protocol, raw: &[u8], offset: usize) -> (layer:
        Option<HeaderLayer>)
        ensures
            match layer {
                Some(l) => front@.announces() == Some(protocol) && offset + protocol.header_len()
                    <= raw@.len() && l@ == LayerFields::parse(
                    protocol,
                    raw@.subrange(offset as int, offset + protocol.header_len()),
                ),
                None => front@.announces() != Some(protocol) || offset + protocol.header_len()
                    > raw@.len(),
            },
    {
        match front.announces() {
            Some(next) if next == protocol => HeaderLayer::decode(protocol, raw, offset),
            _ => None,
        }
    }

    /// The packet of the given headers with the frame's bytes from `offset` on
    /// as payload.
    fn with_rest(layers: Vec<HeaderLayer>, raw: &[u8], offset: usize) -> (stack: PacketStack)
        requires
            offset <= raw@.len(),
        ensures
            stack@.layers == layers@.map_values(|layer: HeaderLayer| layer@),
            stack@.payload == raw@.subrange(offset as int, raw@.len() as int),
    {
        let payload: Vec<u8> = slice_to_vec(slice_subrange(raw, offset, raw.len()));
        PacketStack::new(layers, payload)
    }
}

/// The bytes of one, two and three headers, written out.
pub proof fn lemma_layers_wire_short(a: LayerFields, b: LayerFields, c: LayerFields)
    ensures
        layers_wire(Seq::empty()) == Seq::<u8>::empty(),
        layers_wire(seq![a]) == a.wire(),
        layers_wire(seq![a, b]) == a.wire() + b.wire(),
        layers_wire(seq![a, b, c]) == a.wire() + b.wire() + c.wire(),
{
    reveal_with_fuel(layers_wire, 4);
    assert(seq![a].drop_last() =~= Seq::<LayerFields>::empty());
    assert(seq![a, b].drop_last() =~= seq![a]);
    assert(seq![a, b, c].drop_last() =~= seq![a, b]);
    assert(layers_wire(seq![a]) =~= a.wire());
    assert(layers_wire(seq![a, b]) =~= a.wire() + b.wire());
    assert(layers_wire(seq![a, b, c]) =~= a.wire() + b.wire() + c.wire());
}

/// Reading loses nothing: the packet that a frame denotes holds valid headers
/// only and serializes to exactly that frame.
pub proof fn lemma_dissect_wire(raw: Seq<u8>)
    ensures
        dissect(raw).valid(),
        dissect(raw).wire() == raw,
{
    let read = dissect(raw);
    if raw.len() < 14 {
        assert(layers_wire(read.layers) =~= Seq::<u8>::empty());
        assert(read.wire() =~= raw);
    } else {
        let e = LayerFields::parse(Protocol::Ethernet, raw.subrange(0, 14));
        lemma_wire_parse(Protocol::Ethernet, raw.subrange(0, 14));
        if e.announces() != Some(Protocol::Ipv4) || raw.len() < 34 {
            lemma_layers_wire_short(e, e, e);
            assert(read.wire() =~= raw);
        } else {
            let i = LayerFields::parse(Protocol::Ipv4, raw.subrange(14, 34));
            lemma_wire_parse(Protocol::Ipv4, raw.subrange(14, 34));
            if i.announces() != Some(Protocol::Tcp) || raw.len() < 54 {
                lemma_layers_wire_short(e, i, i);
                assert(read.wire() =~= raw);
            } else {
                let t = LayerFields::parse(Protocol::Tcp, raw.subrange(34, 54));
                lemma_wire_parse(Protocol::Tcp, raw.subrange(34, 54));
                lemma_layers_wire_short(e, i, t);
                assert(read.wire() =~= raw);
            }
        }
    }
}

/// Round-trip fidelity: reading back the bytes of any packet gives a packet
/// with the same bytes. Serialization is a fixed point of reading and writing.
pub proof fn lemma_round_trip(stack: StackView)
    ensures
        dissect(stack.wire()).wire() == stack.wire(),
{
    lemma_dissect_wire(stack.wire());
}

/// Whether a packet is layered as a frame is read: each header is of the kind
/// that the header in front of it announces, the outermost being Ethernet, and
/// the headers end only where the last one announces nothing or the payload is
/// too short to hold the header that it announces.
pub open spec fn well_layered(stack: StackView) -> bool {
    let front = if stack.layers.len() == 0 {
        Some(Protocol::Ethernet)
    } else {
        stack.layers.last().announces()
    };
    &&& stack.layers.len() <= 3
    &&& forall|i: int|
        0 <= i < stack.layers.len() ==> (#[trigger] stack.layers[i]).protocol() == if i == 0 {
            Protocol::Ethernet
        } else if i == 1 {
            Protocol::Ipv4
        } else {
            Protocol::Tcp
        }
    &&& forall|i: int|
        0 < i < stack.layers.len() ==> stack.layers[i - 1].announces() == Some(
            (#[trigger] stack.layers[i]).protocol(),
        )
    &&& front matches Some(next) ==> stack.payload.len() < next.header_len()
}

/// What is read from a frame is layered as a frame is read.
pub proof fn lemma_dissect_well_layered(raw: Seq<u8>)
    ensures
        well_layered(dissect(raw)),
{
}

/// A valid packet that is layered as a frame is read reads back as itself,
/// headers and payload: reading undoes serialization exactly.
pub proof fn lemma_dissect_exact(stack: StackView)
    requires
        stack.valid(),
        well_layered(stack),
    ensures
        dissect(stack.wire()) == stack,
{
    if stack.layers.len() == 0 {
        assert(layers_wire(stack.layers) =~= Seq::<u8>::empty());
        assert(stack.wire() =~= stack.payload);
        assert(dissect(stack.wire()).layers =~= stack.layers);
    } else if stack.layers.len() == 1 {
        let e = stack.layers[0];
        assert(stack.layers =~= seq![e]);
        lemma_dissect_one(e, stack.payload);
    } else if stack.layers.len() == 2 {
        let e = stack.layers[0];
        let i = stack.layers[1];
        assert(stack.layers =~= seq![e, i]);
        lemma_dissect_two(e, i, stack.payload);
    } else {
        let e = stack.layers[0];
        let i = stack.layers[1];
        let t = stack.layers[2];
        assert(stack.layers =~= seq![e, i, t]);
        lemma_dissect_three(e, i, t, stack.payload);
    }
}

/// An Ethernet header that announces nothing that the payload could hold reads
/// back as itself.
proof fn lemma_dissect_one(e: LayerFields, payload: Seq<u8>)
    requires
        e.valid(),
        e is Ethernet,
        e.announces() is None || payload.len() < 20,
    ensures
        dissect((StackView { layers: seq![e], payload }).wire()) == (StackView {
            layers: seq![e],
            payload,
        }),
{
    let stack = StackView { layers: seq![e], payload };
    let raw = stack.wire();
    lemma_layers_wire_short(e, e, e);
    lemma_wire_len(e);
    lemma_parse_wire(e);
    assert(raw.subrange(0, 14) =~= e.wire());
    assert(raw.subrange(14, raw.len() as int) =~= payload);
    assert(dissect(raw).layers =~= stack.layers);
}

/// An Ethernet and an IPv4 header of which the second announces nothing that
/// the payload could hold read back as themselves.
proof fn lemma_dissect_two(e: LayerFields, i: LayerFields, payload: Seq<u8>)
    requires
        e.valid(),
        i.valid(),
        e is Ethernet,
        i is Ipv4,
        e.announces() == Some(Protocol::Ipv4),
        i.announces() is None || payload.len() < 20,
    ensures
        dissect((StackView { layers: seq![e, i], payload }).wire()) == (StackView {
            layers: seq![e, i],
            payload,
        }),
{
    let stack = StackView { layers: seq![e, i], payload };
    let raw = stack.wire();
    lemma_layers_wire_short(e, i, i);
    lemma_wire_len(e);
    lemma_wire_len(i);
    lemma_parse_wire(e);
    lemma_parse_wire(i);
    assert(raw.subrange(0, 14) =~= e.wire());
    assert(raw.subrange(14, 34) =~= i.wire());
    assert(raw.subrange(34, raw.len() as int) =~= payload);
    assert(dissect(raw).layers =~= stack.layers);
}

/// An Ethernet, an IPv4 and a TCP header, each announced by the one in front
/// of it, read back as themselves, whatever the payload holds.
proof fn lemma_dissect_three(e: LayerFields, i: LayerFields, t: LayerFields, payload: Seq<u8>)
    requires
        e.valid(),
        i.valid(),
        t.valid(),
        e is Ethernet,
        i is Ipv4,
        t is Tcp,
        e.announces() == Some(Protocol::Ipv4),
        i.announces() == Some(Protocol::Tcp),
    ensures
        dissect((StackView { layers: seq![e, i, t], payload }).wire()) == (StackView {
            layers: seq![e, i, t],
            payload,
        }),
{
    let stack = StackView { layers: seq![e, i, t], payload };
    let raw = stack.wire();
    lemma_layers_wire_short(e, i, t);
    lemma_wire_len(e);
    lemma_wire_len(i);
    lemma_wire_len(t);
    lemma_parse_wire(e);
    lemma_parse_wire(i);
    lemma_parse_wire(t);
    assert(raw.subrange(0, 14) =~= e.wire());
    assert(raw.subrange(14, 34) =~= i.wire());
    assert(raw.subrange(34, 54) =~= t.wire());
    assert(raw.subrange(54, raw.len() as int) =~= payload);
    assert(dissect(raw).layers =~= stack.layers);
}

} // verus!
