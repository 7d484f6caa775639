//! The Ethernet II header: destination and source address and the ethertype,
//! fourteen bytes in all.

use vstd::prelude::*;
use crate::text::same_text;
use crate::wire::{
    be_bytes, be_value, get_be, lemma_be_bytes_len, lemma_be_bytes_of_value, lemma_be_value_bound,
    lemma_be_value_of_bytes, lemma_limit_values, put_be,
};

verus! {

/// The length of an Ethernet header on the wire.
pub const ETHERNET_LEN: usize = 14;

/// The largest 48-bit value, the largest hardware address.
pub const MAC_MAX: u64 = 0xFFFF_FFFF_FFFF;

/// The ethertype that announces an IPv4 header.
pub const ETHERTYPE_IPV4: u16 = 0x0800;

/// The fields of an Ethernet header, in wire order.
#[derive(Clone, Copy, PartialEq, Eq, Structural, Debug)]
pub enum EthernetField {
    /// The destination address.
    Dst,
    /// The source address.
    Src,
    /// The type of what follows the header.
    Ethertype,
}

impl EthernetField {
    /// The field that a name stands for; `None` for a name that is no field of
    /// this header.
    pub open spec fn named(name: Seq<char>) -> Option<EthernetField> {
        if name == "dst"@ {
            Some(EthernetField::Dst)
        } else if name == "src"@ {
            Some(EthernetField::Src)
        } else if name == "ethertype"@ {
            Some(EthernetField::Ethertype)
        } else {
            None
        }
    }

    /// The largest value that the field accepts.
    pub open spec fn max(self) -> u64 {
        match self {
            EthernetField::Dst => MAC_MAX,
            EthernetField::Src => MAC_MAX,
            EthernetField::Ethertype => 0xFFFFu64,
        }
    }

    /// The bytes of the header that hold the field, and no other byte does:
    /// the first of them and the one behind the last.
    pub open spec fn span(self) -> (int, int) {
        match self {
            EthernetField::Dst => (0int, 6int),
            EthernetField::Src => (6int, 12int),
            EthernetField::Ethertype => (12int, 14int),
        }
    }

    /// The field that `name` stands for, `None` for any other name.
    pub fn from_name(name: &str) -> (field: Option<EthernetField>)
        ensures
            field == EthernetField::named(name@),
    {
        if same_text(name, "dst") {
            Some(EthernetField::Dst)
        } else if same_text(name, "src") {
            Some(EthernetField::Src)
        } else if same_text(name, "ethertype") {
            Some(EthernetField::Ethertype)
        } else {
            None
        }
    }

    /// The largest value that the field accepts.
    pub fn largest(self) -> (max: u64)
        ensures
            max == self.max(),
    {
        match self {
            EthernetField::Dst => MAC_MAX,
            EthernetField::Src => MAC_MAX,
            EthernetField::Ethertype => 0xFFFF,
        }
    }
}

/// The field values of an Ethernet header. The addresses are 48-bit numbers,
/// the first byte on the wire being the most significant.
#[derive(Clone, Copy, PartialEq, Eq, Structural, Debug)]
pub struct EthernetFields {
    pub dst: u64,
    pub src: u64,
    pub ethertype: u16,
}

impl EthernetFields {
    /// Every field fits its width on the wire.
    pub open spec fn valid(self) -> bool {
        self.dst <= MAC_MAX && self.src <= MAC_MAX
    }

    /// The fourteen bytes of the header.
    pub open spec fn wire(self) -> Seq<u8> {
        be_bytes(self.dst as nat, 6) + be_bytes(self.src as nat, 6) + be_bytes(
            self.ethertype as nat,
            2,
        )
    }

    /// The header that fourteen bytes denote.
    pub open spec fn parse(bytes: Seq<u8>) -> EthernetFields {
        EthernetFields {
            dst: be_value(bytes.subrange(0, 6)) as u64,
            src: be_value(bytes.subrange(6, 12)) as u64,
            ethertype: be_value(bytes.subrange(12, 14)) as u16,
        }
    }

    /// The value of a field.
    pub open spec fn value_of(self, field: EthernetField) -> u64 {
        match field {
            EthernetField::Dst => self.dst,
            EthernetField::Src => self.src,
            EthernetField::Ethertype => self.ethertype as u64,
        }
    }

    /// The header with a field replaced by `value`.
    pub open spec fn with_field(self, field: EthernetField, value: u64) -> EthernetFields {
        match field {
            EthernetField::Dst => EthernetFields { dst: value, ..self },
            EthernetField::Src => EthernetFields { src: value, ..self },
            EthernetField::Ethertype => EthernetFields { ethertype: value as u16, ..self },
        }
    }

    /// The bytes that hold the named field; `None` for a name that is no field
    /// of this header.
    pub open spec fn field_span(name: Seq<char>) -> Option<(int, int)> {
        match EthernetField::named(name) {
            Some(field) => Some(field.span()),
            None => None,
        }
    }

    /// The largest value that the named field accepts; `None` for a name that is
    /// no field of this header.
    pub open spec fn max_value(name: Seq<char>) -> Option<u64> {
        match EthernetField::named(name) {
            Some(field) => Some(field.max()),
            None => None,
        }
    }

    /// The value of the named field; 0 for a name that is no field.
    pub open spec fn get(self, name: Seq<char>) -> u64 {
        match EthernetField::named(name) {
            Some(field) => self.value_of(field),
            None => 0,
        }
    }

    /// The header with the named field replaced by `value`; the header itself
    /// for a name that is no field.
    pub open spec fn with(self, name: Seq<char>, value: u64) -> EthernetFields {
        match EthernetField::named(name) {
            Some(field) => self.with_field(field, value),
            None => self,
        }
    }

    /// The header that a description starts from: every field zero.
    pub open spec fn initial() -> EthernetFields {
        EthernetFields { dst: 0, src: 0, ethertype: 0 }
    }

    /// The header that a description starts from.
    pub fn new() -> (fields: EthernetFields)
        ensures
            fields == EthernetFields::initial(),
    {
        EthernetFields { dst: 0, src: 0, ethertype: 0 }
    }

    /// Whether every field fits its width.
    pub fn is_valid(&self) -> (ok: bool)
        ensures
            ok == self.valid(),
    {
        self.dst <= MAC_MAX && self.src <= MAC_MAX
    }

    /// The value of a field.
    pub fn value(&self, field: EthernetField) -> (value: u64)
        ensures
            value == self.value_of(field),
    {
        match field {
            EthernetField::Dst => self.dst,
            EthernetField::Src => self.src,
            EthernetField::Ethertype => self.ethertype as u64,
        }
    }

    /// The header with a field replaced by `value`, `None` where the value
    /// exceeds the field's largest value.
    pub fn set(&self, field: EthernetField, value: u64) -> (changed: Option<EthernetFields>)
        ensures
            changed == if value <= field.max() {
                Some(self.with_field(field, value))
            } else {
                None
            },
    {
        if value > field.largest() {
            return None;
        }
        let mut changed: EthernetFields = *self;
        match field {
            EthernetField::Dst => {
                changed.dst = value;
            },
            EthernetField::Src => {
                changed.src = value;
            },
            EthernetField::Ethertype => {
                changed.ethertype = value as u16;
            },
        }
        Some(changed)
    }

    /// The largest value that the named field accepts, `None` for a name that is
    /// no field.
    pub fn field_max(name: &str) -> (max: Option<u64>)
        ensures
            max == EthernetFields::max_value(name@),
    {
        match EthernetField::from_name(name) {
            Some(field) => Some(field.largest()),
            None => None,
        }
    }

    /// The value of the named field, `None` for a name that is no field.
    pub fn field(&self, name: &str) -> (value: Option<u64>)
        ensures
            value == if EthernetFields::max_value(name@) is Some {
                Some(self.get(name@))
            } else {
                None
            },
    {
        match EthernetField::from_name(name) {
            Some(field) => Some(self.value(field)),
            None => None,
        }
    }

    /// The header with the named field replaced, `None` where the header has no
    /// such field or the value exceeds the field's largest value.
    pub fn assign(&self, name: &str, value: u64) -> (changed: Option<EthernetFields>)
        ensures
            changed == match EthernetFields::max_value(name@) {
                Some(max) if value <= max => Some(self.with(name@, value)),
                _ => None,
            },
    {
        match EthernetField::from_name(name) {
            Some(field) => self.set(field, value),
            None => None,
        }
    }

    /// Appends the header's bytes to `out`.
    pub fn encode(&self, out: &mut Vec<u8>)
        ensures
            final(out)@ == old(out)@ + self.wire(),
    {
        put_be(out, self.dst, 6);
        put_be(out, self.src, 6);
        put_be(out, self.ethertype as u64, 2);
        assert(out@ =~= old(out)@ + self.wire());
    }

    /// Reads a header from the fourteen bytes at `offset`, `None` where `bytes`
    /// ends before that.
    pub fn decode(bytes: &[u8], offset: usize) -> (fields: Option<EthernetFields>)
        ensures
            match fields {
                Some(f) => offset + ETHERNET_LEN <= bytes@.len() && f == EthernetFields::parse(
                    bytes@.subrange(offset as int, offset + ETHERNET_LEN),
                ) && f.valid(),
                None => offset + ETHERNET_LEN > bytes@.len(),
            },
    {
        let total: usize = bytes.len();
        if total < ETHERNET_LEN || offset > total - ETHERNET_LEN {
            return None;
        }
        let ghost header = bytes@.subrange(offset as int, offset + ETHERNET_LEN);
        proof {
            assert(header.subrange(0, 6) =~= bytes@.subrange(offset as int, offset + 6));
            assert(header.subrange(6, 12) =~= bytes@.subrange(offset + 6, offset + 12));
            assert(header.subrange(12, 14) =~= bytes@.subrange(offset + 12, offset + 14));
            lemma_be_value_bound(header.subrange(0, 6));
            lemma_be_value_bound(header.subrange(6, 12));
            lemma_be_value_bound(header.subrange(12, 14));
            lemma_limit_values();
        }
        let dst: u64 = get_be(bytes, offset, 6);
        let src: u64 = get_be(bytes, offset + 6, 6);
        let ethertype: u64 = get_be(bytes, offset + 12, 2);
        Some(EthernetFields { dst, src, ethertype: ethertype as u16 })
    }
}

/// The field names differ from each other, so that each names its own field.
pub proof fn lemma_ethernet_names()
    ensures
        EthernetField::named("dst"@) == Some(EthernetField::Dst),
        EthernetField::named("src"@) == Some(EthernetField::Src),
        EthernetField::named("ethertype"@) == Some(EthernetField::Ethertype),
{
    reveal_strlit("dst");
    reveal_strlit("src");
    reveal_strlit("ethertype");
    assert("dst"@.len() == 3);
    assert("src"@.len() == 3);
    assert("ethertype"@.len() == 9);
    assert("dst"@[0] == 'd' && "dst"@[1] == 's');
    assert("src"@[0] == 's' && "src"@[1] == 'r');
}

/// A header's bytes are fourteen, whatever its fields hold.
pub proof fn lemma_ethernet_wire_len(fields: EthernetFields)
    ensures
        fields.wire().len() == ETHERNET_LEN,
{
    lemma_be_bytes_len(fields.dst as nat, 6);
    lemma_be_bytes_len(fields.src as nat, 6);
    lemma_be_bytes_len(fields.ethertype as nat, 2);
}

/// Parsing the bytes of a valid header gives the header back.
pub proof fn lemma_ethernet_parse_wire(fields: EthernetFields)
    requires
        fields.valid(),
    ensures
        EthernetFields::parse(fields.wire()) == fields,
{
    lemma_ethernet_wire_layout(fields);
    lemma_limit_values();
    lemma_be_value_of_bytes(fields.dst as nat, 6);
    lemma_be_value_of_bytes(fields.src as nat, 6);
    lemma_be_value_of_bytes(fields.ethertype as nat, 2);
}

/// Any fourteen bytes parse to a valid header whose bytes are those fourteen.
pub proof fn lemma_ethernet_wire_parse(bytes: Seq<u8>)
    requires
        bytes.len() == ETHERNET_LEN,
    ensures
        EthernetFields::parse(bytes).valid(),
        EthernetFields::parse(bytes).wire() == bytes,
{
    let a = bytes.subrange(0, 6);
    let b = bytes.subrange(6, 12);
    let c = bytes.subrange(12, 14);
    lemma_be_value_bound(a);
    lemma_be_value_bound(b);
    lemma_be_value_bound(c);
    lemma_limit_values();
    lemma_be_bytes_of_value(a);
    lemma_be_bytes_of_value(b);
    lemma_be_bytes_of_value(c);
    assert(EthernetFields::parse(bytes).wire() =~= bytes);
}

/// Where each field's bytes stand in a header's bytes.
pub proof fn lemma_ethernet_wire_layout(fields: EthernetFields)
    ensures
        fields.wire().len() == ETHERNET_LEN,
        fields.wire().subrange(0, 6) == be_bytes(fields.dst as nat, 6),
        fields.wire().subrange(6, 12) == be_bytes(fields.src as nat, 6),
        fields.wire().subrange(12, 14) == be_bytes(fields.ethertype as nat, 2),
{
    let w = fields.wire();
    lemma_be_bytes_len(fields.dst as nat, 6);
    lemma_be_bytes_len(fields.src as nat, 6);
    lemma_be_bytes_len(fields.ethertype as nat, 2);
    assert(w.subrange(0, 6) =~= be_bytes(fields.dst as nat, 6));
    assert(w.subrange(6, 12) =~= be_bytes(fields.src as nat, 6));
    assert(w.subrange(12, 14) =~= be_bytes(fields.ethertype as nat, 2));
}

/// Setting a field changes the bytes that hold the field and no other byte.
pub proof fn lemma_ethernet_field_is_local(fields: EthernetFields, name: Seq<char>, value: u64)
    ensures
        EthernetFields::field_span(name) matches Some(span) ==> forall|k: int|
            0 <= k < ETHERNET_LEN && !(span.0 <= k < span.1) ==> #[trigger] fields.with(
                name,
                value,
            ).wire()[k] == fields.wire()[k],
{
    let changed = fields.with(name, value);
    let w = fields.wire();
    let c = changed.wire();
    lemma_ethernet_wire_layout(fields);
    lemma_ethernet_wire_layout(changed);
    if changed.dst == fields.dst {
        assert forall|k: int| 0 <= k < 6 implies c[k] == w[k] by {
            assert(c[k] == c.subrange(0, 6)[k]);
            assert(w[k] == w.subrange(0, 6)[k]);
        }
    }
    if changed.src == fields.src {
        assert forall|k: int| 6 <= k < 12 implies c[k] == w[k] by {
            assert(c[k] == c.subrange(6, 12)[k - 6]);
            assert(w[k] == w.subrange(6, 12)[k - 6]);
        }
    }
    if changed.ethertype == fields.ethertype {
        assert forall|k: int| 12 <= k < 14 implies c[k] == w[k] by {
            assert(c[k] == c.subrange(12, 14)[k - 12]);
            assert(w[k] == w.subrange(12, 14)[k - 12]);
        }
    }
}

} // verus!
