//! The TCP header without options: twenty bytes.

use vstd::prelude::*;
use crate::checksum::{
    checksum_holds, checksum_of, internet_checksum, lemma_fold16_value,
    lemma_fold16_with_complement, lemma_pair_sum_word, lemma_word_sum_concat, word_sum,
};
use crate::ipv4::PROTOCOL_TCP;
use crate::text::same_text;
use crate::wire::{
    be_bytes, be_value, get_be, lemma_be_bytes_len, lemma_be_bytes_of_value, lemma_be_single,
    lemma_be_value_bound, lemma_be_value_of_bytes, lemma_limit_values, put_be,
};

verus! {

/// The length of a TCP header without options on the wire.
pub const TCP_LEN: usize = 20;

/// The pseudo header that a TCP checksum covers before the segment itself: the
/// two addresses of the IPv4 header, a zero byte, the protocol number and the
/// length of the segment.
pub open spec fn pseudo_header(src: u32, dst: u32, length: nat) -> Seq<u8> {
    be_bytes(src as nat, 4) + be_bytes(dst as nat, 4) + be_bytes(PROTOCOL_TCP as nat, 2)
        + be_bytes(length, 2)
}

/// The fields of a TCP header, in wire order.
#[derive(Clone, Copy, PartialEq, Eq, Structural, Debug)]
pub enum TcpField {
    /// The source port.
    Srcport,
    /// The destination port.
    Dstport,
    /// The sequence number.
    Sequence,
    /// The acknowledgment number.
    Acknowledgment,
    /// The header length in 32-bit words, four bits.
    DataOffset,
    /// The reserved bits, four of them.
    Reserved,
    /// The flags.
    Flags,
    /// The window.
    Window,
    /// The checksum.
    Checksum,
    /// The urgent pointer.
    UrgentPtr,
}

impl TcpField {
    /// The field that a name stands for; `None` for a name that is no field of
    /// this header.
    pub open spec fn named(name: Seq<char>) -> Option<TcpField> {
        if name == "srcport"@ {
            Some(TcpField::Srcport)
        } else if name == "dstport"@ {
            Some(TcpField::Dstport)
        } else if name == "seq"@ {
            Some(TcpField::Sequence)
        } else if name == "ack"@ {
            Some(TcpField::Acknowledgment)
        } else if name == "data_offset"@ {
            Some(TcpField::DataOffset)
        } else if name == "reserved"@ {
            Some(TcpField::Reserved)
        } else if name == "flags"@ {
            Some(TcpField::Flags)
        } else if name == "window"@ {
            Some(TcpField::Window)
        } else if name == "checksum"@ {
            Some(TcpField::Checksum)
        } else if name == "urgent_ptr"@ {
            Some(TcpField::UrgentPtr)
        } else {
            None
        }
    }

    /// The largest value that the field accepts.
    pub open spec fn max(self) -> u64 {
        match self {
            TcpField::Srcport => 0xFFFFu64,
            TcpField::Dstport => 0xFFFFu64,
            TcpField::Sequence => 0xFFFF_FFFFu64,
            TcpField::Acknowledgment => 0xFFFF_FFFFu64,
            TcpField::DataOffset => 15u64,
            TcpField::Reserved => 15u64,
            TcpField::Flags => 0xFFu64,
            TcpField::Window => 0xFFFFu64,
            TcpField::Checksum => 0xFFFFu64,
            TcpField::UrgentPtr => 0xFFFFu64,
        }
    }

    /// The bytes of the header that hold the field, and no other byte does:
    /// the first of them and the one behind the last.
    pub open spec fn span(self) -> (int, int) {
        match self {
            TcpField::Srcport => (0int, 2int),
            TcpField::Dstport => (2int, 4int),
            TcpField::Sequence => (4int, 8int),
            TcpField::Acknowledgment => (8int, 12int),
            TcpField::DataOffset => (12int, 13int),
            TcpField::Reserved => (12int, 13int),
            TcpField::Flags => (13int, 14int),
            TcpField::Window => (14int, 16int),
            TcpField::Checksum => (16int, 18int),
            TcpField::UrgentPtr => (18int, 20int),
        }
    }

    /// The field that `name` stands for, `None` for any other name.
    pub fn from_name(name: &str) -> (field: Option<TcpField>)
        ensures
            field == TcpField::named(name@),
    {
        if same_text(name, "srcport") {
            Some(TcpField::Srcport)
        } else if same_text(name, "dstport") {
            Some(TcpField::Dstport)
        } else if same_text(name, "seq") {
            Some(TcpField::Sequence)
        } else if same_text(name, "ack") {
            Some(TcpField::Acknowledgment)
        } else if same_text(name, "data_offset") {
            Some(TcpField::DataOffset)
        } else if same_text(name, "reserved") {
            Some(TcpField::Reserved)
        } else if same_text(name, "flags") {
            Some(TcpField::Flags)
        } else if same_text(name, "window") {
            Some(TcpField::Window)
        } else if same_text(name, "checksum") {
            Some(TcpField::Checksum)
        } else if same_text(name, "urgent_ptr") {
            Some(TcpField::UrgentPtr)
        } else {
            None
        }
    }

    /// The largest value that the field accepts.
    pub fn largest(self) -> (max: u64)
        ensures
            max == self.max(),
    {
        match self {
            TcpField::Srcport => 0xFFFF,
            TcpField::Dstport => 0xFFFF,
            TcpField::Sequence => 0xFFFF_FFFF,
            TcpField::Acknowledgment => 0xFFFF_FFFF,
            TcpField::DataOffset => 15,
            TcpField::Reserved => 15,
            TcpField::Flags => 0xFF,
            TcpField::Window => 0xFFFF,
            TcpField::Checksum => 0xFFFF,
            TcpField::UrgentPtr => 0xFFFF,
        }
    }
}

/// The field values of a TCP header, in wire order. `data_offset` and
/// `reserved` share the thirteenth byte.
#[derive(Clone, Copy, PartialEq, Eq, Structural, Debug)]
pub struct TcpFields {
    pub srcport: u16,
    pub dstport: u16,
    pub seq: u32,
    pub ack: u32,
    pub data_offset: u8,
    pub reserved: u8,
    pub flags: u8,
    pub window: u16,
    pub checksum: u16,
    pub urgent_ptr: u16,
}

impl TcpFields {
    /// Every field fits its width on the wire.
    pub open spec fn valid(self) -> bool {
        self.data_offset <= 15 && self.reserved <= 15
    }

    /// The twenty bytes of the header. The checksum is the field's value as it
    /// stands; nothing is computed here.
    pub open spec fn wire(self) -> Seq<u8> {
        be_bytes(self.srcport as nat, 2) + be_bytes(self.dstport as nat, 2) + be_bytes(
            self.seq as nat,
            4,
        ) + be_bytes(self.ack as nat, 4) + be_bytes(
            (self.data_offset * 16 + self.reserved) as nat,
            1,
        ) + be_bytes(self.flags as nat, 1) + be_bytes(self.window as nat, 2) + be_bytes(
            self.checksum as nat,
            2,
        ) + be_bytes(self.urgent_ptr as nat, 2)
    }

    /// The header that twenty bytes denote.
    pub open spec fn parse(bytes: Seq<u8>) -> TcpFields {
        TcpFields {
            srcport: be_value(bytes.subrange(0, 2)) as u16,
            dstport: be_value(bytes.subrange(2, 4)) as u16,
            seq: be_value(bytes.subrange(4, 8)) as u32,
            ack: be_value(bytes.subrange(8, 12)) as u32,
            data_offset: bytes[12] / 16,
            reserved: bytes[12] % 16,
            flags: bytes[13],
            window: be_value(bytes.subrange(14, 16)) as u16,
            checksum: be_value(bytes.subrange(16, 18)) as u16,
            urgent_ptr: be_value(bytes.subrange(18, 20)) as u16,
        }
    }

    /// The value of a field.
    pub open spec fn value_of(self, field: TcpField) -> u64 {
        match field {
            TcpField::Srcport => self.srcport as u64,
            TcpField::Dstport => self.dstport as u64,
            TcpField::Sequence => self.seq as u64,
            TcpField::Acknowledgment => self.ack as u64,
            TcpField::DataOffset => self.data_offset as u64,
            TcpField::Reserved => self.reserved as u64,
            TcpField::Flags => self.flags as u64,
            TcpField::Window => self.window as u64,
            TcpField::Checksum => self.checksum as u64,
            TcpField::UrgentPtr => self.urgent_ptr as u64,
        }
    }

    /// The header with a field replaced by `value`.
    pub open spec fn with_field(self, field: TcpField, value: u64) -> TcpFields {
        match field {
            TcpField::Srcport => TcpFields { srcport: value as u16, ..self },
            TcpField::Dstport => TcpFields { dstport: value as u16, ..self },
            TcpField::Sequence => TcpFields { seq: value as u32, ..self },
            TcpField::Acknowledgment => TcpFields { ack: value as u32, ..self },
            TcpField::DataOffset => TcpFields { data_offset: value as u8, ..self },
            TcpField::Reserved => TcpFields { reserved: value as u8, ..self },
            TcpField::Flags => TcpFields { flags: value as u8, ..self },
            TcpField::Window => TcpFields { window: value as u16, ..self },
            TcpField::Checksum => TcpFields { checksum: value as u16, ..self },
            TcpField::UrgentPtr => TcpFields { urgent_ptr: value as u16, ..self },
        }
    }

    /// The bytes that hold the named field; `None` for a name that is no field
    /// of this header.
    pub open spec fn field_span(name: Seq<char>) -> Option<(int, int)> {
        match TcpField::named(name) {
            Some(field) => Some(field.span()),
            None => None,
        }
    }

    /// The largest value that the named field accepts; `None` for a name that is
    /// no field of this header.
    pub open spec fn max_value(name: Seq<char>) -> Option<u64> {
        match TcpField::named(name) {
            Some(field) => Some(field.max()),
            None => None,
        }
    }

    /// The value of the named field; 0 for a name that is no field.
    pub open spec fn get(self, name: Seq<char>) -> u64 {
        match TcpField::named(name) {
            Some(field) => self.value_of(field),
            None => 0,
        }
    }

    /// The header with the named field replaced by `value`; the header itself
    /// for a name that is no field.
    pub open spec fn with(self, name: Seq<char>, value: u64) -> TcpFields {
        match TcpField::named(name) {
            Some(field) => self.with_field(field, value),
            None => self,
        }
    }

    /// The header that a description starts from: a data offset of five words,
    /// every other field zero.
    pub open spec fn initial() -> TcpFields {
        TcpFields {
            srcport: 0,
            dstport: 0,
            seq: 0,
            ack: 0,
            data_offset: 5,
            reserved: 0,
            flags: 0,
            window: 0,
            checksum: 0,
            urgent_ptr: 0,
        }
    }

    /// What the checksum of a segment covers: the pseudo header, the header and
    /// the bytes behind the header.
    pub open spec fn covered(self, src: u32, dst: u32, behind: Seq<u8>) -> Seq<u8> {
        pseudo_header(src, dst, TCP_LEN as nat + behind.len()) + (self.wire() + behind)
    }

    /// The header with its checksum recomputed for a segment that travels
    /// between the given addresses with `behind` behind the header: the
    /// Internet checksum of what the checksum covers, taken with a checksum
    /// field of zero. A segment too long for the pseudo header's 16-bit length
    /// keeps the checksum it has.
    pub open spec fn finalized(self, src: u32, dst: u32, behind: Seq<u8>) -> TcpFields {
        if TCP_LEN + behind.len() <= 0xFFFF {
            TcpFields {
                checksum: checksum_of(
                    (TcpFields { checksum: 0, ..self }).covered(src, dst, behind),
                ),
                ..self
            }
        } else {
            self
        }
    }

    /// The header that a description starts from.
    pub fn new() -> (fields: TcpFields)
        ensures
            fields == TcpFields::initial(),
    {
        TcpFields {
            srcport: 0,
            dstport: 0,
            seq: 0,
            ack: 0,
            data_offset: 5,
            reserved: 0,
            flags: 0,
            window: 0,
            checksum: 0,
            urgent_ptr: 0,
        }
    }

    /// Whether every field fits its width.
    pub fn is_valid(&self) -> (ok: bool)
        ensures
            ok == self.valid(),
    {
        self.data_offset <= 15 && self.reserved <= 15
    }

    /// The value of a field.
    pub fn value(&self, field: TcpField) -> (value: u64)
        ensures
            value == self.value_of(field),
    {
        match field {
            TcpField::Srcport => self.srcport as u64,
            TcpField::Dstport => self.dstport as u64,
            TcpField::Sequence => self.seq as u64,
            TcpField::Acknowledgment => self.ack as u64,
            TcpField::DataOffset => self.data_offset as u64,
            TcpField::Reserved => self.reserved as u64,
            TcpField::Flags => self.flags as u64,
            TcpField::Window => self.window as u64,
            TcpField::Checksum => self.checksum as u64,
            TcpField::UrgentPtr => self.urgent_ptr as u64,
        }
    }

    /// The header with a field replaced by `value`, `None` where the value
    /// exceeds the field's largest value.
    pub fn set(&self, field: TcpField, value: u64) -> (changed: Option<TcpFields>)
        ensures
            changed == if value <= field.max() {
                Some(self.with_field(field, value))
            } else {
                None
            },
    {
        if value > field.largest() {
            return None;
        }
        let mut changed: TcpFields = *self;
        match field {
            TcpField::Srcport => {
                changed.srcport = value as u16;
            },
            TcpField::Dstport => {
                changed.dstport = value as u16;
            },
            TcpField::Sequence => {
                changed.seq = value as u32;
            },
            TcpField::Acknowledgment => {
                changed.ack = value as u32;
            },
            TcpField::DataOffset => {
                changed.data_offset = value as u8;
            },
            TcpField::Reserved => {
                changed.reserved = value as u8;
            },
            TcpField::Flags => {
                changed.flags = value as u8;
            },
            TcpField::Window => {
                changed.window = value as u16;
            },
            TcpField::Checksum => {
                changed.checksum = value as u16;
            },
            TcpField::UrgentPtr => {
                changed.urgent_ptr = value as u16;
            },
        }
        Some(changed)
    }

    /// The largest value that the named field accepts, `None` for a name that is
    /// no field.
    pub fn field_max(name: &str) -> (max: Option<u64>)
        ensures
            max == TcpFields::max_value(name@),
    {
        match TcpField::from_name(name) {
            Some(field) => Some(field.largest()),
            None => None,
        }
    }

    /// The value of the named field, `None` for a name that is no field.
    pub fn field(&self, name: &str) -> (value: Option<u64>)
        ensures
            value == if TcpFields::max_value(name@) is Some {
                Some(self.get(name@))
            } else {
                None
            },
    {
        match TcpField::from_name(name) {
            Some(field) => Some(self.value(field)),
            None => None,
        }
    }

    /// The header with the named field replaced, `None` where the header has no
    /// such field or the value exceeds the field's largest value.
    pub fn assign(&self, name: &str, value: u64) -> (changed: Option<TcpFields>)
        ensures
            changed == match TcpFields::max_value(name@) {
                Some(max) if value <= max => Some(self.with(name@, value)),
                _ => None,
            },
    {
        match TcpField::from_name(name) {
            Some(field) => self.set(field, value),
            None => None,
        }
    }

    /// Appends the header's bytes to `out`.
    pub fn encode(&self, out: &mut Vec<u8>)
        ensures
            final(out)@ == old(out)@ + self.wire(),
    {
        put_be(out, self.srcport as u64, 2);
        put_be(out, self.dstport as u64, 2);
        put_be(out, self.seq as u64, 4);
        put_be(out, self.ack as u64, 4);
        put_be(out, self.data_offset as u64 * 16 + self.reserved as u64, 1);
        put_be(out, self.flags as u64, 1);
        put_be(out, self.window as u64, 2);
        put_be(out, self.checksum as u64, 2);
        put_be(out, self.urgent_ptr as u64, 2);
        assert(out@ =~= old(out)@ + self.wire());
    }

    /// Reads a header from the twenty bytes at `offset`, `None` where `bytes`
    /// ends before that.
    pub fn decode(bytes: &[u8], offset: usize) -> (fields: Option<TcpFields>)
        ensures
            match fields {
                Some(f) => offset + TCP_LEN <= bytes@.len() && f == TcpFields::parse(
                    bytes@.subrange(offset as int, offset + TCP_LEN),
                ) && f.valid(),
                None => offset + TCP_LEN > bytes@.len(),
            },
    {
        let total: usize = bytes.len();
        if total < TCP_LEN || offset > total - TCP_LEN {
            return None;
        }
        let ghost header = bytes@.subrange(offset as int, offset + TCP_LEN);
        proof {
            assert(header.subrange(0, 2) =~= bytes@.subrange(offset as int, offset + 2));
            assert(header.subrange(2, 4) =~= bytes@.subrange(offset + 2, offset + 4));
            assert(header.subrange(4, 8) =~= bytes@.subrange(offset + 4, offset + 8));
            assert(header.subrange(8, 12) =~= bytes@.subrange(offset + 8, offset + 12));
            assert(header.subrange(14, 16) =~= bytes@.subrange(offset + 14, offset + 16));
            assert(header.subrange(16, 18) =~= bytes@.subrange(offset + 16, offset + 18));
            assert(header.subrange(18, 20) =~= bytes@.subrange(offset + 18, offset + 20));
            lemma_be_value_bound(header.subrange(0, 2));
            lemma_be_value_bound(header.subrange(2, 4));
            lemma_be_value_bound(header.subrange(4, 8));
            lemma_be_value_bound(header.subrange(8, 12));
            lemma_be_value_bound(header.subrange(14, 16));
            lemma_be_value_bound(header.subrange(16, 18));
            lemma_be_value_bound(header.subrange(18, 20));
            lemma_limit_values();
        }
        let srcport: u64 = get_be(bytes, offset, 2);
        let dstport: u64 = get_be(bytes, offset + 2, 2);
        let seq: u64 = get_be(bytes, offset + 4, 4);
        let ack: u64 = get_be(bytes, offset + 8, 4);
        let packed: u8 = bytes[offset + 12];
        let window: u64 = get_be(bytes, offset + 14, 2);
        let checksum: u64 = get_be(bytes, offset + 16, 2);
        let urgent_ptr: u64 = get_be(bytes, offset + 18, 2);
        Some(
            TcpFields {
                srcport: srcport as u16,
                dstport: dstport as u16,
                seq: seq as u32,
                ack: ack as u32,
                data_offset: packed / 16,
                reserved: packed % 16,
                flags: bytes[offset + 13],
                window: window as u16,
                checksum: checksum as u16,
                urgent_ptr: urgent_ptr as u16,
            },
        )
    }

    /// The header with its checksum recomputed for a segment between the given
    /// addresses, with `behind` behind the header.
    pub fn finalize(&self, src: u32, dst: u32, behind: &[u8]) -> (done: TcpFields)
        ensures
            done == self.finalized(src, dst, behind@),
    {
        let extra: usize = behind.len();
        if extra > 0xFFFF - TCP_LEN {
            return *self;
        }
        let mut blank: TcpFields = *self;
        blank.checksum = 0;
        let mut bytes: Vec<u8> = Vec::new();
        put_be(&mut bytes, src as u64, 4);
        put_be(&mut bytes, dst as u64, 4);
        put_be(&mut bytes, PROTOCOL_TCP as u64, 2);
        put_be(&mut bytes, (TCP_LEN + extra) as u64, 2);
        assert(bytes@ =~= pseudo_header(src, dst, TCP_LEN as nat + behind@.len()));
        blank.encode(&mut bytes);
        bytes.extend_from_slice(behind);
        assert(bytes@ =~= blank.covered(src, dst, behind@));
        let mut done: TcpFields = *self;
        done.checksum = internet_checksum(bytes.as_slice());
        done
    }
}

/// The field names differ from each other, so that each names its own field.
pub proof fn lemma_tcp_names()
    ensures
        TcpField::named("srcport"@) == Some(TcpField::Srcport),
        TcpField::named("dstport"@) == Some(TcpField::Dstport),
        TcpField::named("seq"@) == Some(TcpField::Sequence),
        TcpField::named("ack"@) == Some(TcpField::Acknowledgment),
        TcpField::named("data_offset"@) == Some(TcpField::DataOffset),
        TcpField::named("reserved"@) == Some(TcpField::Reserved),
        TcpField::named("flags"@) == Some(TcpField::Flags),
        TcpField::named("window"@) == Some(TcpField::Window),
        TcpField::named("checksum"@) == Some(TcpField::Checksum),
        TcpField::named("urgent_ptr"@) == Some(TcpField::UrgentPtr),
{
    reveal_strlit("srcport");
    reveal_strlit("dstport");
    reveal_strlit("seq");
    reveal_strlit("ack");
    reveal_strlit("data_offset");
    reveal_strlit("reserved");
    reveal_strlit("flags");
    reveal_strlit("window");
    reveal_strlit("checksum");
    reveal_strlit("urgent_ptr");
    assert("srcport"@.len() == 7);
    assert("dstport"@.len() == 7);
    assert("seq"@.len() == 3);
    assert("ack"@.len() == 3);
    assert("data_offset"@.len() == 11);
    assert("reserved"@.len() == 8);
    assert("flags"@.len() == 5);
    assert("window"@.len() == 6);
    assert("checksum"@.len() == 8);
    assert("urgent_ptr"@.len() == 10);
    assert("srcport"@[0] == 's' && "srcport"@[1] == 'r');
    assert("dstport"@[0] == 'd' && "dstport"@[1] == 's');
    assert("seq"@[0] == 's' && "seq"@[1] == 'e');
    assert("ack"@[0] == 'a' && "ack"@[1] == 'c');
    assert("reserved"@[0] == 'r' && "reserved"@[1] == 'e');
    assert("checksum"@[0] == 'c' && "checksum"@[1] == 'h');
}

/// A header's bytes are twenty, whatever its fields hold.
pub proof fn lemma_tcp_wire_len(fields: TcpFields)
    ensures
        fields.wire().len() == TCP_LEN,
{
    lemma_be_bytes_len(fields.srcport as nat, 2);
    lemma_be_bytes_len(fields.dstport as nat, 2);
    lemma_be_bytes_len(fields.seq as nat, 4);
    lemma_be_bytes_len(fields.ack as nat, 4);
    lemma_be_bytes_len((fields.data_offset * 16 + fields.reserved) as nat, 1);
    lemma_be_bytes_len(fields.flags as nat, 1);
    lemma_be_bytes_len(fields.window as nat, 2);
    lemma_be_bytes_len(fields.checksum as nat, 2);
    lemma_be_bytes_len(fields.urgent_ptr as nat, 2);
}

/// Where each field's bytes stand in a header's bytes.
pub proof fn lemma_tcp_wire_layout(fields: TcpFields)
    ensures
        fields.wire().len() == TCP_LEN,
        fields.wire().subrange(0, 2) == be_bytes(fields.srcport as nat, 2),
        fields.wire().subrange(2, 4) == be_bytes(fields.dstport as nat, 2),
        fields.wire().subrange(4, 8) == be_bytes(fields.seq as nat, 4),
        fields.wire().subrange(8, 12) == be_bytes(fields.ack as nat, 4),
        fields.wire().subrange(12, 13) == be_bytes(
            (fields.data_offset * 16 + fields.reserved) as nat,
            1,
        ),
        fields.wire().subrange(13, 14) == be_bytes(fields.flags as nat, 1),
        fields.wire().subrange(14, 16) == be_bytes(fields.window as nat, 2),
        fields.wire().subrange(16, 18) == be_bytes(fields.checksum as nat, 2),
        fields.wire().subrange(18, 20) == be_bytes(fields.urgent_ptr as nat, 2),
{
    let w = fields.wire();
    lemma_be_bytes_len(fields.srcport as nat, 2);
    lemma_be_bytes_len(fields.dstport as nat, 2);
    lemma_be_bytes_len(fields.seq as nat, 4);
    lemma_be_bytes_len(fields.ack as nat, 4);
    lemma_be_bytes_len((fields.data_offset * 16 + fields.reserved) as nat, 1);
    lemma_be_bytes_len(fields.flags as nat, 1);
    lemma_be_bytes_len(fields.window as nat, 2);
    lemma_be_bytes_len(fields.checksum as nat, 2);
    lemma_be_bytes_len(fields.urgent_ptr as nat, 2);
    assert(w.subrange(0, 2) =~= be_bytes(fields.srcport as nat, 2));
    assert(w.subrange(2, 4) =~= be_bytes(fields.dstport as nat, 2));
    assert(w.subrange(4, 8) =~= be_bytes(fields.seq as nat, 4));
    assert(w.subrange(8, 12) =~= be_bytes(fields.ack as nat, 4));
    assert(w.subrange(12, 13) =~= be_bytes(
        (fields.data_offset * 16 + fields.reserved) as nat,
        1,
    ));
    assert(w.subrange(13, 14) =~= be_bytes(fields.flags as nat, 1));
    assert(w.subrange(14, 16) =~= be_bytes(fields.window as nat, 2));
    assert(w.subrange(16, 18) =~= be_bytes(fields.checksum as nat, 2));
    assert(w.subrange(18, 20) =~= be_bytes(fields.urgent_ptr as nat, 2));
}

/// Parsing the bytes of a valid header gives the header back.
pub proof fn lemma_tcp_parse_wire(fields: TcpFields)
    requires
        fields.valid(),
    ensures
        TcpFields::parse(fields.wire()) == fields,
{
    let w = fields.wire();
    lemma_tcp_wire_layout(fields);
    lemma_limit_values();
    lemma_be_single((fields.data_offset * 16 + fields.reserved) as nat, 0);
    lemma_be_single(fields.flags as nat, 0);
    assert(w[12] == w.subrange(12, 13)[0]);
    assert(w[13] == w.subrange(13, 14)[0]);
    lemma_be_value_of_bytes(fields.srcport as nat, 2);
    lemma_be_value_of_bytes(fields.dstport as nat, 2);
    lemma_be_value_of_bytes(fields.seq as nat, 4);
    lemma_be_value_of_bytes(fields.ack as nat, 4);
    lemma_be_value_of_bytes(fields.window as nat, 2);
    lemma_be_value_of_bytes(fields.checksum as nat, 2);
    lemma_be_value_of_bytes(fields.urgent_ptr as nat, 2);
}

/// Any twenty bytes parse to a valid header whose bytes are those twenty.
pub proof fn lemma_tcp_wire_parse(bytes: Seq<u8>)
    requires
        bytes.len() == TCP_LEN,
    ensures
        TcpFields::parse(bytes).valid(),
        TcpFields::parse(bytes).wire() == bytes,
{
    let f = TcpFields::parse(bytes);
    lemma_limit_values();
    lemma_be_value_bound(bytes.subrange(0, 2));
    lemma_be_value_bound(bytes.subrange(2, 4));
    lemma_be_value_bound(bytes.subrange(4, 8));
    lemma_be_value_bound(bytes.subrange(8, 12));
    lemma_be_value_bound(bytes.subrange(14, 16));
    lemma_be_value_bound(bytes.subrange(16, 18));
    lemma_be_value_bound(bytes.subrange(18, 20));
    lemma_be_bytes_of_value(bytes.subrange(0, 2));
    lemma_be_bytes_of_value(bytes.subrange(2, 4));
    lemma_be_bytes_of_value(bytes.subrange(4, 8));
    lemma_be_bytes_of_value(bytes.subrange(8, 12));
    lemma_be_bytes_of_value(bytes.subrange(14, 16));
    lemma_be_bytes_of_value(bytes.subrange(16, 18));
    lemma_be_bytes_of_value(bytes.subrange(18, 20));
    lemma_be_single((f.data_offset * 16 + f.reserved) as nat, 0);
    lemma_be_single(f.flags as nat, 0);
    lemma_tcp_wire_len(f);
    assert(f.wire() =~= bytes);
}

/// A segment whose checksum was recomputed verifies: what the checksum covers,
/// the checksum itself included, folds to sixteen one bits. Recomputing it
/// again changes nothing, and the header stays valid.
pub proof fn lemma_tcp_finalized_holds(fields: TcpFields, src: u32, dst: u32, behind: Seq<u8>)
    ensures
        TCP_LEN + behind.len() <= 0xFFFF ==> checksum_holds(
            fields.finalized(src, dst, behind).covered(src, dst, behind),
        ),
        fields.finalized(src, dst, behind).finalized(src, dst, behind) == fields.finalized(
            src,
            dst,
            behind,
        ),
        fields.valid() ==> fields.finalized(src, dst, behind).valid(),
{
    if TCP_LEN + behind.len() <= 0xFFFF {
        let blank = TcpFields { checksum: 0, ..fields };
        let done = fields.finalized(src, dst, behind);
        let length = TCP_LEN as nat + behind.len();
        let head = pseudo_header(src, dst, length) + (be_bytes(fields.srcport as nat, 2) + be_bytes(
            fields.dstport as nat,
            2,
        ) + be_bytes(fields.seq as nat, 4) + be_bytes(fields.ack as nat, 4) + be_bytes(
            (fields.data_offset * 16 + fields.reserved) as nat,
            1,
        ) + be_bytes(fields.flags as nat, 1) + be_bytes(fields.window as nat, 2));
        let tail = be_bytes(fields.urgent_ptr as nat, 2) + behind;
        lemma_be_bytes_len(src as nat, 4);
        lemma_be_bytes_len(dst as nat, 4);
        lemma_be_bytes_len(PROTOCOL_TCP as nat, 2);
        lemma_be_bytes_len(length, 2);
        lemma_be_bytes_len(fields.srcport as nat, 2);
        lemma_be_bytes_len(fields.dstport as nat, 2);
        lemma_be_bytes_len(fields.seq as nat, 4);
        lemma_be_bytes_len(fields.ack as nat, 4);
        lemma_be_bytes_len((fields.data_offset * 16 + fields.reserved) as nat, 1);
        lemma_be_bytes_len(fields.flags as nat, 1);
        lemma_be_bytes_len(fields.window as nat, 2);
        lemma_be_bytes_len(0, 2);
        lemma_be_bytes_len(done.checksum as nat, 2);
        assert(head.len() == 28);
        assert(blank.covered(src, dst, behind) =~= head + (be_bytes(0, 2) + tail));
        assert(done.covered(src, dst, behind) =~= head + (be_bytes(done.checksum as nat, 2)
            + tail));
        lemma_word_sum_concat(be_bytes(0, 2), tail);
        lemma_word_sum_concat(head, be_bytes(0, 2) + tail);
        lemma_word_sum_concat(be_bytes(done.checksum as nat, 2), tail);
        lemma_word_sum_concat(head, be_bytes(done.checksum as nat, 2) + tail);
        lemma_pair_sum_word(0);
        lemma_pair_sum_word(done.checksum as nat);
        lemma_fold16_value(word_sum(blank.covered(src, dst, behind)));
        lemma_fold16_with_complement(
            word_sum(blank.covered(src, dst, behind)),
            done.checksum as nat,
        );
    }
}

/// Setting a field changes the bytes that hold the field and no other byte.
pub proof fn lemma_tcp_field_is_local(fields: TcpFields, name: Seq<char>, value: u64)
    ensures
        TcpFields::field_span(name) matches Some(span) ==> forall|k: int|
            0 <= k < TCP_LEN && !(span.0 <= k < span.1) ==> #[trigger] fields.with(
                name,
                value,
            ).wire()[k] == fields.wire()[k],
{
    let changed = fields.with(name, value);
    let w = fields.wire();
    let c = changed.wire();
    lemma_tcp_wire_layout(fields);
    lemma_tcp_wire_layout(changed);
    if changed.srcport == fields.srcport {
        assert forall|k: int| 0 <= k < 2 implies c[k] == w[k] by {
            assert(c[k] == c.subrange(0, 2)[k]);
            assert(w[k] == w.subrange(0, 2)[k]);
        }
    }
    if changed.dstport == fields.dstport {
        assert forall|k: int| 2 <= k < 4 implies c[k] == w[k] by {
            assert(c[k] == c.subrange(2, 4)[k - 2]);
            assert(w[k] == w.subrange(2, 4)[k - 2]);
        }
    }
    if changed.seq == fields.seq {
        assert forall|k: int| 4 <= k < 8 implies c[k] == w[k] by {
            assert(c[k] == c.subrange(4, 8)[k - 4]);
            assert(w[k] == w.subrange(4, 8)[k - 4]);
        }
    }
    if changed.ack == fields.ack {
        assert forall|k: int| 8 <= k < 12 implies c[k] == w[k] by {
            assert(c[k] == c.subrange(8, 12)[k - 8]);
            assert(w[k] == w.subrange(8, 12)[k - 8]);
        }
    }
    if changed.data_offset == fields.data_offset && changed.reserved == fields.reserved {
        assert forall|k: int| 12 <= k < 13 implies c[k] == w[k] by {
            assert(c[k] == c.subrange(12, 13)[k - 12]);
            assert(w[k] == w.subrange(12, 13)[k - 12]);
        }
    }
    if changed.flags == fields.flags {
        assert forall|k: int| 13 <= k < 14 implies c[k] == w[k] by {
            assert(c[k] == c.subrange(13, 14)[k - 13]);
            assert(w[k] == w.subrange(13, 14)[k - 13]);
        }
    }
    if changed.window == fields.window {
        assert forall|k: int| 14 <= k < 16 implies c[k] == w[k] by {
            assert(c[k] == c.subrange(14, 16)[k - 14]);
            assert(w[k] == w.subrange(14, 16)[k - 14]);
        }
    }
    if changed.checksum == fields.checksum {
        assert forall|k: int| 16 <= k < 18 implies c[k] == w[k] by {
            assert(c[k] == c.subrange(16, 18)[k - 16]);
            assert(w[k] == w.subrange(16, 18)[k - 16]);
        }
    }
    if changed.urgent_ptr == fields.urgent_ptr {
        assert forall|k: int| 18 <= k < 20 implies c[k] == w[k] by {
            assert(c[k] == c.subrange(18, 20)[k - 18]);
            assert(w[k] == w.subrange(18, 20)[k - 18]);
        }
    }
}

} // verus!
