//! Recomputing the fields of a packet that depend on the rest of the packet:
//! lengths and checksums.
//!
//! Serialization writes every field as it was last set. A checksum or a length
//! that should agree with the packet's contents is made to agree here, when it
//! is asked for, and stands until the next change.

use vstd::prelude::*;
use crate::checksum::checksum_holds;
use crate::ipv4::IPV4_LEN;
use crate::layer::{
    lemma_finalized_again, lemma_finalized_within, same_addresses, HeaderLayer, LayerFields,
};
use crate::stack::{
    layers_wire, lemma_layers_wire_concat, lemma_wire_len_one_more, PacketStack, StackView,
};
use crate::tcp::TCP_LEN;

verus! {

/// The headers from `index` on, each with the fields recomputed that depend on
/// its place in the packet. The last header comes first, so that every header
/// sees behind it the bytes as they are after recomputation.
pub open spec fn finalized_from(layers: Seq<LayerFields>, payload: Seq<u8>, index: int) -> Seq<
    LayerFields,
>
    decreases layers.len() - index,
{
    if index < 0 || index >= layers.len() {
        Seq::empty()
    } else {
        let rest = finalized_from(layers, payload, index + 1);
        let before = if index > 0 {
            Some(layers[index - 1])
        } else {
            None
        };
        seq![layers[index].finalized_within(before, layers_wire(rest) + payload)] + rest
    }
}

impl StackView {
    /// The packet with every header's dependent fields recomputed for its
    /// place: the total length and checksum of each IPv4 header, and the
    /// checksum of each TCP header that stands right behind an IPv4 header.
    pub open spec fn finalized(self) -> StackView {
        StackView {
            layers: finalized_from(self.layers, self.payload, 0),
            payload: self.payload,
        }
    }
}

impl PacketStack {
    /// Recomputes, in every header, the fields that depend on the rest of the
    /// packet: each IPv4 header gets its total length and its checksum, each
    /// TCP header right behind an IPv4 header its checksum. Serialization never
    /// does this by itself; it writes the fields as they stand.
    pub fn finalize(&mut self)
        ensures
            final(self)@ == old(self)@.finalized(),
            old(self)@.valid() ==> final(self)@.valid(),
    {
        let ghost start = self@;
        proof {
            if start.valid() {
                lemma_finalized_stack(start);
            }
        }
        let mut index: usize = self.layer_count();
        assert(self@.layers =~= start.layers.take(index as int) + finalized_from(
            start.layers,
            start.payload,
            index as int,
        ));
        while index > 0
            invariant
                index <= self@.layers.len() == start.layers.len(),
                self@.payload == start.payload,
                self@.layers == start.layers.take(index as int) + finalized_from(
                    start.layers,
                    start.payload,
                    index as int,
                ),
            decreases index,
        {
            let ghost held = self@.layers;
            index -= 1;
            let behind: Vec<u8> = self.bytes_from(index + 1);
            let before: Option<LayerFields> = if index > 0 {
                Some(self.layer_at(index - 1).fields())
            } else {
                None
            };
            let mut layer: HeaderLayer = self.layer_at(index);
            layer.finalize_within(before, behind.as_slice());
            self.replace_layer(index, layer);
            proof {
                lemma_finalized_step(held, start.layers, start.payload, index as int, layer@);
            }
        }
        assert(start.layers.take(0) + finalized_from(start.layers, start.payload, 0)
            =~= finalized_from(start.layers, start.payload, 0));
    }
}

/// One step of recomputation, from the last header towards the first: where
/// the headers behind `index` are recomputed already, recomputing the header
/// at `index` for its place makes the headers from `index` on recomputed.
proof fn lemma_finalized_step(
    held: Seq<LayerFields>,
    layers: Seq<LayerFields>,
    payload: Seq<u8>,
    index: int,
    layer: LayerFields,
)
    requires
        0 <= index < layers.len(),
        held == layers.take(index + 1) + finalized_from(layers, payload, index + 1),
        layer == held[index].finalized_within(
            if index > 0 {
                Some(held[index - 1])
            } else {
                None
            },
            layers_wire(held.skip(index + 1)) + payload,
        ),
    ensures
        held.update(index, layer) == layers.take(index) + finalized_from(layers, payload, index),
{
    let rest = finalized_from(layers, payload, index + 1);
    lemma_finalized_from_len(layers, payload, index + 1);
    assert(held.len() == layers.len());
    assert(held.skip(index + 1) =~= rest);
    assert(held[index] == layers[index]);
    if index > 0 {
        assert(held[index - 1] == layers[index - 1]);
    }
    assert(held.update(index, layer) =~= layers.take(index) + (seq![layer] + rest));
}

/// What holds of the header at `index` of a packet `done` that came of
/// recomputing the dependent fields of `stack`: it is the header it was,
/// recomputed for the bytes that now stand behind it, of the same kind, with as
/// many bytes behind it as before; an IPv4 header verifies and states the
/// length of what it heads; and a TCP segment right behind an IPv4 header
/// verifies; each where the lengths fit their 16 bits.
pub open spec fn recomputed_at(stack: StackView, done: StackView, index: int) -> bool {
    &&& done.layers[index] == stack.layers[index].finalized_within(
        stack.before(index),
        done.behind(index),
    )
    &&& done.layers[index].protocol() == stack.layers[index].protocol()
    &&& done.behind(index).len() == stack.behind(index).len()
    &&& done.layers[index] matches LayerFields::Ipv4(ip) ==> checksum_holds(ip.wire()) && (
    IPV4_LEN + done.behind(index).len() <= 0xFFFF ==> ip.total_length == IPV4_LEN + done.behind(
        index,
    ).len())
    &&& done.layers[index] matches LayerFields::Tcp(tcp) ==> (done.before(
        index,
    ) matches Some(LayerFields::Ipv4(ip)) ==> TCP_LEN + done.behind(index).len() <= 0xFFFF
        ==> checksum_holds(tcp.covered(ip.src, ip.dst, done.behind(index))))
}

/// What recomputation does to one header: the header at `index` afterwards is
/// the header that stood there, recomputed for the bytes that stand behind it
/// afterwards. It stays valid and of its kind, and an IPv4 header keeps its
/// addresses.
proof fn lemma_finalized_at(layers: Seq<LayerFields>, payload: Seq<u8>, index: int)
    requires
        0 <= index < layers.len(),
        layers[index].valid(),
    ensures
        finalized_from(layers, payload, 0).len() == layers.len(),
        finalized_from(layers, payload, 0)[index] == layers[index].finalized_within(
            if index > 0 {
                Some(layers[index - 1])
            } else {
                None
            },
            layers_wire(finalized_from(layers, payload, 0).skip(index + 1)) + payload,
        ),
        finalized_from(layers, payload, 0)[index].valid(),
        finalized_from(layers, payload, 0)[index].protocol() == layers[index].protocol(),
        same_addresses(Some(layers[index]), Some(finalized_from(layers, payload, 0)[index])),
{
    let all = finalized_from(layers, payload, 0);
    let here = finalized_from(layers, payload, index);
    let rest = finalized_from(layers, payload, index + 1);
    lemma_finalized_from_len(layers, payload, 0);
    lemma_finalized_from_len(layers, payload, index);
    lemma_finalized_from_len(layers, payload, index + 1);
    lemma_finalized_from_suffix(layers, payload, 0, index);
    lemma_finalized_from_suffix(layers, payload, 0, index + 1);
    let before = if index > 0 {
        Some(layers[index - 1])
    } else {
        None
    };
    let behind = layers_wire(rest) + payload;
    assert(here[0] == layers[index].finalized_within(before, behind));
    assert(all[index] == here[0]);
    lemma_finalized_within(layers[index], before, behind);
    lemma_finalized_again(layers[index], before, before, behind);
}

/// Recomputation changes no header's length, so the headers from `index` on
/// take as many bytes afterwards as before.
proof fn lemma_finalized_wire_len(layers: Seq<LayerFields>, payload: Seq<u8>, index: int)
    requires
        0 <= index <= layers.len(),
        forall|i: int| 0 <= i < layers.len() ==> (#[trigger] layers[i]).valid(),
    ensures
        layers_wire(finalized_from(layers, payload, index)).len() == layers_wire(
            layers.skip(index),
        ).len(),
    decreases layers.len() - index,
{
    let here = finalized_from(layers, payload, index);
    if index < layers.len() {
        let rest = finalized_from(layers, payload, index + 1);
        lemma_finalized_wire_len(layers, payload, index + 1);
        lemma_finalized_at(layers, payload, index);
        lemma_finalized_from_suffix(layers, payload, 0, index);
        lemma_finalized_from_len(layers, payload, 0);
        assert(here[0] == finalized_from(layers, payload, 0)[index]);
        assert(here =~= seq![here[0]] + rest);
        lemma_layers_wire_concat(seq![here[0]], rest);
        assert(layers.skip(index) =~= seq![layers[index]] + layers.skip(index + 1));
        lemma_layers_wire_concat(seq![layers[index]], layers.skip(index + 1));
        lemma_wire_len_one_more(Seq::empty(), here[0]);
        lemma_wire_len_one_more(Seq::empty(), layers[index]);
        assert(Seq::<LayerFields>::empty().push(here[0]) =~= seq![here[0]]);
        assert(Seq::<LayerFields>::empty().push(layers[index]) =~= seq![layers[index]]);
    } else {
        assert(layers.skip(index) =~= Seq::<LayerFields>::empty());
    }
}

/// Recomputing what is recomputed already changes nothing.
proof fn lemma_finalized_from_again(layers: Seq<LayerFields>, payload: Seq<u8>, index: int)
    requires
        0 <= index <= layers.len(),
        forall|i: int| 0 <= i < layers.len() ==> (#[trigger] layers[i]).valid(),
    ensures
        finalized_from(finalized_from(layers, payload, 0), payload, index) == finalized_from(
            layers,
            payload,
            0,
        ).skip(index),
    decreases layers.len() - index,
{
    let done = finalized_from(layers, payload, 0);
    lemma_finalized_from_len(layers, payload, 0);
    if index < layers.len() {
        lemma_finalized_from_again(layers, payload, index + 1);
        lemma_finalized_at(layers, payload, index);
        let rest = done.skip(index + 1);
        let before = if index > 0 {
            Some(layers[index - 1])
        } else {
            None
        };
        let again = if index > 0 {
            Some(done[index - 1])
        } else {
            None
        };
        let behind = layers_wire(rest) + payload;
        if index > 0 {
            lemma_finalized_at(layers, payload, index - 1);
        }
        lemma_finalized_again(layers[index], before, again, behind);
        assert(finalized_from(done, payload, index) =~= seq![done[index]] + rest);
        assert(finalized_from(done, payload, index) =~= done.skip(index));
    } else {
        assert(done.skip(index) =~= Seq::<LayerFields>::empty());
    }
}

/// What recomputation comes to for a whole packet. The packet keeps its
/// headers' number and kinds, its payload and its length, and stays valid.
/// Afterwards every IPv4 header verifies and states the length of what it
/// heads, and every TCP segment right behind an IPv4 header verifies, where
/// the lengths fit their 16 bits. A second recomputation changes nothing.
pub proof fn lemma_finalized_stack(stack: StackView)
    requires
        stack.valid(),
    ensures
        stack.finalized().valid(),
        stack.finalized().payload == stack.payload,
        stack.finalized().layers.len() == stack.layers.len(),
        stack.finalized().wire().len() == stack.wire().len(),
        stack.finalized().finalized() == stack.finalized(),
        forall|i: int|
            0 <= i < stack.layers.len() ==> #[trigger] recomputed_at(stack, stack.finalized(), i),
{
    let done = stack.finalized();
    lemma_finalized_from_len(stack.layers, stack.payload, 0);
    lemma_finalized_from_again(stack.layers, stack.payload, 0);
    lemma_finalized_wire_len(stack.layers, stack.payload, 0);
    assert(done.layers.skip(0) =~= done.layers);
    assert(stack.layers.skip(0) =~= stack.layers);
    assert forall|i: int| 0 <= i < stack.layers.len() implies (#[trigger] done.layers[i]).valid(
    ) by {
        lemma_finalized_at(stack.layers, stack.payload, i);
    }
    assert forall|i: int| 0 <= i < stack.layers.len() implies #[trigger] recomputed_at(
        stack,
        done,
        i,
    ) by {
        lemma_recomputed_at(stack, i);
    }
}

/// What holds of one header after recomputation.
proof fn lemma_recomputed_at(stack: StackView, index: int)
    requires
        stack.valid(),
        0 <= index < stack.layers.len(),
    ensures
        recomputed_at(stack, stack.finalized(), index),
{
    let done = stack.finalized();
    lemma_finalized_at(stack.layers, stack.payload, index);
    lemma_finalized_within(stack.layers[index], stack.before(index), done.behind(index));
    if index > 0 {
        lemma_finalized_at(stack.layers, stack.payload, index - 1);
    }
    lemma_finalized_from_suffix(stack.layers, stack.payload, 0, index + 1);
    lemma_finalized_wire_len(stack.layers, stack.payload, index + 1);
}

/// The recomputed headers from a later index on are the later part of the
/// recomputed headers from an earlier index on.
proof fn lemma_finalized_from_suffix(
    layers: Seq<LayerFields>,
    payload: Seq<u8>,
    from: int,
    to: int,
)
    requires
        0 <= from <= to <= layers.len(),
    ensures
        finalized_from(layers, payload, to) == finalized_from(layers, payload, from).skip(
            to - from,
        ),
    decreases to - from,
{
    if from < to {
        lemma_finalized_from_suffix(layers, payload, from + 1, to);
        lemma_finalized_from_len(layers, payload, from + 1);
        let rest = finalized_from(layers, payload, from + 1);
        assert(finalized_from(layers, payload, from).skip(to - from) =~= rest.skip(to - from - 1));
    } else {
        assert(finalized_from(layers, payload, from).skip(0) =~= finalized_from(
            layers,
            payload,
            from,
        ));
    }
}

/// Recomputation keeps the number of headers.
proof fn lemma_finalized_from_len(layers: Seq<LayerFields>, payload: Seq<u8>, index: int)
    requires
        0 <= index <= layers.len(),
    ensures
        finalized_from(layers, payload, index).len() == layers.len() - index,
    decreases layers.len() - index,
{
    if index < layers.len() {
        lemma_finalized_from_len(layers, payload, index + 1);
    }
}

} // verus!
