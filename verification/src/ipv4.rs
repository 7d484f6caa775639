//! The IPv4 header without options: twenty bytes.

use vstd::prelude::*;
use crate::checksum::{
    checksum_holds, checksum_of, internet_checksum, lemma_fold16_value,
    lemma_fold16_with_complement, lemma_pair_sum_concat, lemma_pair_sum_word, word_sum,
};
use crate::text::same_text;
use crate::wire::{
    be_bytes, be_value, get_be, lemma_be_bytes_len, lemma_be_bytes_of_value, lemma_be_single,
    lemma_be_value_bound, lemma_be_value_of_bytes, lemma_limit_values, put_be,
};

verus! {

/// The length of an IPv4 header without options on the wire.
pub const IPV4_LEN: usize = 20;

/// The protocol number that announces a TCP header.
pub const PROTOCOL_TCP: u8 = 6;

/// The fields of an IPv4 header, in wire order.
#[derive(Clone, Copy, PartialEq, Eq, Structural, Debug)]
pub enum Ipv4Field {
    /// The version, four bits.
    Version,
    /// The header length in 32-bit words, four bits.
    Ihl,
    /// The type of service.
    Tos,
    /// The length of the header and of all that follows it.
    TotalLength,
    /// The identification.
    Identification,
    /// The flags, three bits.
    Flags,
    /// The fragment offset, thirteen bits.
    FragmentOffset,
    /// The time to live.
    Ttl,
    /// The number of the protocol that follows.
    Protocol,
    /// The header checksum.
    Checksum,
    /// The source address.
    Src,
    /// The destination address.
    Dst,
}

impl Ipv4Field {
    /// The field that a name stands for; `None` for a name that is no field of
    /// this header.
    pub open spec fn named(name: Seq<char>) -> Option<Ipv4Field> {
        if name == "version"@ {
            Some(Ipv4Field::Version)
        } else if name == "ihl"@ {
            Some(Ipv4Field::Ihl)
        } else if name == "tos"@ {
            Some(Ipv4Field::Tos)
        } else if name == "total_length"@ {
            Some(Ipv4Field::TotalLength)
        } else if name == "identification"@ {
            Some(Ipv4Field::Identification)
        } else if name == "flags"@ {
            Some(Ipv4Field::Flags)
        } else if name == "fragment_offset"@ {
            Some(Ipv4Field::FragmentOffset)
        } else if name == "ttl"@ {
            Some(Ipv4Field::Ttl)
        } else if name == "protocol"@ {
            Some(Ipv4Field::Protocol)
        } else if name == "checksum"@ {
            Some(Ipv4Field::Checksum)
        } else if name == "src"@ {
            Some(Ipv4Field::Src)
        } else if name == "dst"@ {
            Some(Ipv4Field::Dst)
        } else {
            None
        }
    }

    /// The largest value that the field accepts.
    pub open spec fn max(self) -> u64 {
        match self {
            Ipv4Field::Version => 15u64,
            Ipv4Field::Ihl => 15u64,
            Ipv4Field::Tos => 0xFFu64,
            Ipv4Field::TotalLength => 0xFFFFu64,
            Ipv4Field::Identification => 0xFFFFu64,
            Ipv4Field::Flags => 7u64,
            Ipv4Field::FragmentOffset => 8191u64,
            Ipv4Field::Ttl => 0xFFu64,
            Ipv4Field::Protocol => 0xFFu64,
            Ipv4Field::Checksum => 0xFFFFu64,
            Ipv4Field::Src => 0xFFFF_FFFFu64,
            Ipv4Field::Dst => 0xFFFF_FFFFu64,
        }
    }

    /// The bytes of the header that hold the field, and no other byte does:
    /// the first of them and the one behind the last.
    pub open spec fn span(self) -> (int, int) {
        match self {
            Ipv4Field::Version => (0int, 1int),
            Ipv4Field::Ihl => (0int, 1int),
            Ipv4Field::Tos => (1int, 2int),
            Ipv4Field::TotalLength => (2int, 4int),
            Ipv4Field::Identification => (4int, 6int),
            Ipv4Field::Flags => (6int, 7int),
            Ipv4Field::FragmentOffset => (6int, 8int),
            Ipv4Field::Ttl => (8int, 9int),
            Ipv4Field::Protocol => (9int, 10int),
            Ipv4Field::Checksum => (10int, 12int),
            Ipv4Field::Src => (12int, 16int),
            Ipv4Field::Dst => (16int, 20int),
        }
    }

    /// The field that `name` stands for, `None` for any other name.
    pub fn from_name(name: &str) -> (field: Option<Ipv4Field>)
        ensures
            field == Ipv4Field::named(name@),
    {
        if same_text(name, "version") {
            Some(Ipv4Field::Version)
        } else if same_text(name, "ihl") {
            Some(Ipv4Field::Ihl)
        } else if same_text(name, "tos") {
            Some(Ipv4Field::Tos)
        } else if same_text(name, "total_length") {
            Some(Ipv4Field::TotalLength)
        } else if same_text(name, "identification") {
            Some(Ipv4Field::Identification)
        } else if same_text(name, "flags") {
            Some(Ipv4Field::Flags)
        } else if same_text(name, "fragment_offset") {
            Some(Ipv4Field::FragmentOffset)
        } else if same_text(name, "ttl") {
            Some(Ipv4Field::Ttl)
        } else if same_text(name, "protocol") {
            Some(Ipv4Field::Protocol)
        } else if same_text(name, "checksum") {
            Some(Ipv4Field::Checksum)
        } else if same_text(name, "src") {
            Some(Ipv4Field::Src)
        } else if same_text(name, "dst") {
            Some(Ipv4Field::Dst)
        } else {
            None
        }
    }

    /// The largest value that the field accepts.
    pub fn largest(self) -> (max: u64)
        ensures
            max == self.max(),
    {
        match self {
            Ipv4Field::Version => 15,
            Ipv4Field::Ihl => 15,
            Ipv4Field::Tos => 0xFF,
            Ipv4Field::TotalLength => 0xFFFF,
            Ipv4Field::Identification => 0xFFFF,
            Ipv4Field::Flags => 7,
            Ipv4Field::FragmentOffset => 8191,
            Ipv4Field::Ttl => 0xFF,
            Ipv4Field::Protocol => 0xFF,
            Ipv4Field::Checksum => 0xFFFF,
            Ipv4Field::Src => 0xFFFF_FFFF,
            Ipv4Field::Dst => 0xFFFF_FFFF,
        }
    }
}

/// The field values of an IPv4 header, in wire order. `version` and `ihl` share
/// the first byte, `flags` and `fragment_offset` the seventh and eighth.
#[derive(Clone, Copy, PartialEq, Eq, Structural, Debug)]
pub struct Ipv4Fields {
    pub version: u8,
    pub ihl: u8,
    pub tos: u8,
    pub total_length: u16,
    pub identification: u16,
    pub flags: u8,
    pub fragment_offset: u16,
    pub ttl: u8,
    pub protocol: u8,
    pub checksum: u16,
    pub src: u32,
    pub dst: u32,
}

impl Ipv4Fields {
    /// Every field fits its width on the wire.
    pub open spec fn valid(self) -> bool {
        self.version <= 15 && self.ihl <= 15 && self.flags <= 7 && self.fragment_offset <= 8191
    }

    /// The twenty bytes of the header. The checksum is the field's value as it
    /// stands; nothing is computed here.
    pub open spec fn wire(self) -> Seq<u8> {
        be_bytes((self.version * 16 + self.ihl) as nat, 1) + be_bytes(self.tos as nat, 1)
            + be_bytes(self.total_length as nat, 2) + be_bytes(self.identification as nat, 2)
            + be_bytes((self.flags * 8192 + self.fragment_offset) as nat, 2) + be_bytes(
            self.ttl as nat,
            1,
        ) + be_bytes(self.protocol as nat, 1) + be_bytes(self.checksum as nat, 2) + be_bytes(
            self.src as nat,
            4,
        ) + be_bytes(self.dst as nat, 4)
    }

    /// The header that twenty bytes denote.
    pub open spec fn parse(bytes: Seq<u8>) -> Ipv4Fields {
        Ipv4Fields {
            version: bytes[0] / 16,
            ihl: bytes[0] % 16,
            tos: bytes[1],
            total_length: be_value(bytes.subrange(2, 4)) as u16,
            identification: be_value(bytes.subrange(4, 6)) as u16,
            flags: (be_value(bytes.subrange(6, 8)) / 8192) as u8,
            fragment_offset: (be_value(bytes.subrange(6, 8)) % 8192) as u16,
            ttl: bytes[8],
            protocol: bytes[9],
            checksum: be_value(bytes.subrange(10, 12)) as u16,
            src: be_value(bytes.subrange(12, 16)) as u32,
            dst: be_value(bytes.subrange(16, 20)) as u32,
        }
    }

    /// The value of a field.
    pub open spec fn value_of(self, field: Ipv4Field) -> u64 {
        match field {
            Ipv4Field::Version => self.version as u64,
            Ipv4Field::Ihl => self.ihl as u64,
            Ipv4Field::Tos => self.tos as u64,
            Ipv4Field::TotalLength => self.total_length as u64,
            Ipv4Field::Identification => self.identification as u64,
            Ipv4Field::Flags => self.flags as u64,
            Ipv4Field::FragmentOffset => self.fragment_offset as u64,
            Ipv4Field::Ttl => self.ttl as u64,
            Ipv4Field::Protocol => self.protocol as u64,
            Ipv4Field::Checksum => self.checksum as u64,
            Ipv4Field::Src => self.src as u64,
            Ipv4Field::Dst => self.dst as u64,
        }
    }

    /// The header with a field replaced by `value`.
    pub open spec fn with_field(self, field: Ipv4Field, value: u64) -> Ipv4Fields {
        match field {
            Ipv4Field::Version => Ipv4Fields { version: value as u8, ..self },
            Ipv4Field::Ihl => Ipv4Fields { ihl: value as u8, ..self },
            Ipv4Field::Tos => Ipv4Fields { tos: value as u8, ..self },
            Ipv4Field::TotalLength => Ipv4Fields { total_length: value as u16, ..self },
            Ipv4Field::Identification => Ipv4Fields { identification: value as u16, ..self },
            Ipv4Field::Flags => Ipv4Fields { flags: value as u8, ..self },
            Ipv4Field::FragmentOffset => Ipv4Fields { fragment_offset: value as u16, ..self },
            Ipv4Field::Ttl => Ipv4Fields { ttl: value as u8, ..self },
            Ipv4Field::Protocol => Ipv4Fields { protocol: value as u8, ..self },
            Ipv4Field::Checksum => Ipv4Fields { checksum: value as u16, ..self },
            Ipv4Field::Src => Ipv4Fields { src: value as u32, ..self },
            Ipv4Field::Dst => Ipv4Fields { dst: value as u32, ..self },
        }
    }

    /// The bytes that hold the named field; `None` for a name that is no field
    /// of this header.
    pub open spec fn field_span(name: Seq<char>) -> Option<(int, int)> {
        match Ipv4Field::named(name) {
            Some(field) => Some(field.span()),
            None => None,
        }
    }

    /// The largest value that the named field accepts; `None` for a name that is
    /// no field of this header.
    pub open spec fn max_value(name: Seq<char>) -> Option<u64> {
        match Ipv4Field::named(name) {
            Some(field) => Some(field.max()),
            None => None,
        }
    }

    /// The value of the named field; 0 for a name that is no field.
    pub open spec fn get(self, name: Seq<char>) -> u64 {
        match Ipv4Field::named(name) {
            Some(field) => self.value_of(field),
            None => 0,
        }
    }

    /// The header with the named field replaced by `value`; the header itself
    /// for a name that is no field.
    pub open spec fn with(self, name: Seq<char>, value: u64) -> Ipv4Fields {
        match Ipv4Field::named(name) {
            Some(field) => self.with_field(field, value),
            None => self,
        }
    }

    /// The header that a description starts from: version 4, a header length of
    /// five words, every other field zero.
    pub open spec fn initial() -> Ipv4Fields {
        Ipv4Fields {
            version: 4,
            ihl: 5,
            tos: 0,
            total_length: 0,
            identification: 0,
            flags: 0,
            fragment_offset: 0,
            ttl: 0,
            protocol: 0,
            checksum: 0,
            src: 0,
            dst: 0,
        }
    }

    /// The header with its checksum recomputed: the Internet checksum of the
    /// twenty bytes taken with a checksum field of zero.
    pub open spec fn finalized(self) -> Ipv4Fields {
        Ipv4Fields { checksum: checksum_of((Ipv4Fields { checksum: 0, ..self }).wire()), ..self }
    }

    /// The header with the fields recomputed that depend on what follows it in
    /// a packet: the total length, which counts the header and the `behind`
    /// bytes behind it, and then the checksum. A packet too long for the 16-bit
    /// length keeps the length it has.
    pub open spec fn finalized_within(self, behind: nat) -> Ipv4Fields {
        if IPV4_LEN + behind <= 0xFFFF {
            (Ipv4Fields { total_length: (IPV4_LEN + behind) as u16, ..self }).finalized()
        } else {
            self.finalized()
        }
    }

    /// The header that a description starts from.
    pub fn new() -> (fields: Ipv4Fields)
        ensures
            fields == Ipv4Fields::initial(),
    {
        Ipv4Fields {
            version: 4,
            ihl: 5,
            tos: 0,
            total_length: 0,
            identification: 0,
            flags: 0,
            fragment_offset: 0,
            ttl: 0,
            protocol: 0,
            checksum: 0,
            src: 0,
            dst: 0,
        }
    }

    /// Whether every field fits its width.
    pub fn is_valid(&self) -> (ok: bool)
        ensures
            ok == self.valid(),
    {
        self.version <= 15 && self.ihl <= 15 && self.flags <= 7 && self.fragment_offset <= 8191
    }

    /// The value of a field.
    pub fn value(&self, field: Ipv4Field) -> (value: u64)
        ensures
            value == self.value_of(field),
    {
        match field {
            Ipv4Field::Version => self.version as u64,
            Ipv4Field::Ihl => self.ihl as u64,
            Ipv4Field::Tos => self.tos as u64,
            Ipv4Field::TotalLength => self.total_length as u64,
            Ipv4Field::Identification => self.identification as u64,
            Ipv4Field::Flags => self.flags as u64,
            Ipv4Field::FragmentOffset => self.fragment_offset as u64,
            Ipv4Field::Ttl => self.ttl as u64,
            Ipv4Field::Protocol => self.protocol as u64,
            Ipv4Field::Checksum => self.checksum as u64,
            Ipv4Field::Src => self.src as u64,
            Ipv4Field::Dst => self.dst as u64,
        }
    }

    /// The header with a field replaced by `value`, `None` where the value
    /// exceeds the field's largest value.
    pub fn set(&self, field: Ipv4Field, value: u64) -> (changed: Option<Ipv4Fields>)
        ensures
            changed == if value <= field.max() {
                Some(self.with_field(field, value))
            } else {
                None
            },
    {
        if value > field.largest() {
            return None;
        }
        let mut changed: Ipv4Fields = *self;
        match field {
            Ipv4Field::Version => {
                changed.version = value as u8;
            },
            Ipv4Field::Ihl => {
                changed.ihl = value as u8;
            },
            Ipv4Field::Tos => {
                changed.tos = value as u8;
            },
            Ipv4Field::TotalLength => {
                changed.total_length = value as u16;
            },
            Ipv4Field::Identification => {
                changed.identification = value as u16;
            },
            Ipv4Field::Flags => {
                changed.flags = value as u8;
            },
            Ipv4Field::FragmentOffset => {
                changed.fragment_offset = value as u16;
            },
            Ipv4Field::Ttl => {
                changed.ttl = value as u8;
            },
            Ipv4Field::Protocol => {
                changed.protocol = value as u8;
            },
            Ipv4Field::Checksum => {
                changed.checksum = value as u16;
            },
            Ipv4Field::Src => {
                changed.src = value as u32;
            },
            Ipv4Field::Dst => {
                changed.dst = value as u32;
            },
        }
        Some(changed)
    }

    /// The largest value that the named field accepts, `None` for a name that is
    /// no field.
    pub fn field_max(name: &str) -> (max: Option<u64>)
        ensures
            max == Ipv4Fields::max_value(name@),
    {
        match Ipv4Field::from_name(name) {
            Some(field) => Some(field.largest()),
            None => None,
        }
    }

    /// The value of the named field, `None` for a name that is no field.
    pub fn field(&self, name: &str) -> (value: Option<u64>)
        ensures
            value == if Ipv4Fields::max_value(name@) is Some {
                Some(self.get(name@))
            } else {
                None
            },
    {
        match Ipv4Field::from_name(name) {
            Some(field) => Some(self.value(field)),
            None => None,
        }
    }

    /// The header with the named field replaced, `None` where the header has no
    /// such field or the value exceeds the field's largest value.
    pub fn assign(&self, name: &str, value: u64) -> (changed: Option<Ipv4Fields>)
        ensures
            changed == match Ipv4Fields::max_value(name@) {
                Some(max) if value <= max => Some(self.with(name@, value)),
                _ => None,
            },
    {
        match Ipv4Field::from_name(name) {
            Some(field) => self.set(field, value),
            None => None,
        }
    }

    /// Appends the header's bytes to `out`.
    pub fn encode(&self, out: &mut Vec<u8>)
        ensures
            final(out)@ == old(out)@ + self.wire(),
    {
        put_be(out, self.version as u64 * 16 + self.ihl as u64, 1);
        put_be(out, self.tos as u64, 1);
        put_be(out, self.total_length as u64, 2);
        put_be(out, self.identification as u64, 2);
        put_be(out, self.flags as u64 * 8192 + self.fragment_offset as u64, 2);
        put_be(out, self.ttl as u64, 1);
        put_be(out, self.protocol as u64, 1);
        put_be(out, self.checksum as u64, 2);
        put_be(out, self.src as u64, 4);
        put_be(out, self.dst as u64, 4);
        assert(out@ =~= old(out)@ + self.wire());
    }

    /// Reads a header from the twenty bytes at `offset`, `None` where `bytes`
    /// ends before that.
    pub fn decode(bytes: &[u8], offset: usize) -> (fields: Option<Ipv4Fields>)
        ensures
            match fields {
                Some(f) => offset + IPV4_LEN <= bytes@.len() && f == Ipv4Fields::parse(
                    bytes@.subrange(offset as int, offset + IPV4_LEN),
                ) && f.valid(),
                None => offset + IPV4_LEN > bytes@.len(),
            },
    {
        let total: usize = bytes.len();
        if total < IPV4_LEN || offset > total - IPV4_LEN {
            return None;
        }
        let ghost header = bytes@.subrange(offset as int, offset + IPV4_LEN);
        proof {
            assert(header.subrange(2, 4) =~= bytes@.subrange(offset + 2, offset + 4));
            assert(header.subrange(4, 6) =~= bytes@.subrange(offset + 4, offset + 6));
            assert(header.subrange(6, 8) =~= bytes@.subrange(offset + 6, offset + 8));
            assert(header.subrange(10, 12) =~= bytes@.subrange(offset + 10, offset + 12));
            assert(header.subrange(12, 16) =~= bytes@.subrange(offset + 12, offset + 16));
            assert(header.subrange(16, 20) =~= bytes@.subrange(offset + 16, offset + 20));
            lemma_be_value_bound(header.subrange(2, 4));
            lemma_be_value_bound(header.subrange(4, 6));
            lemma_be_value_bound(header.subrange(6, 8));
            lemma_be_value_bound(header.subrange(10, 12));
            lemma_be_value_bound(header.subrange(12, 16));
            lemma_be_value_bound(header.subrange(16, 20));
            lemma_limit_values();
        }
        let first: u8 = bytes[offset];
        let total_length: u64 = get_be(bytes, offset + 2, 2);
        let identification: u64 = get_be(bytes, offset + 4, 2);
        let fragment: u64 = get_be(bytes, offset + 6, 2);
        let checksum: u64 = get_be(bytes, offset + 10, 2);
        let src: u64 = get_be(bytes, offset + 12, 4);
        let dst: u64 = get_be(bytes, offset + 16, 4);
        Some(
            Ipv4Fields {
                version: first / 16,
                ihl: first % 16,
                tos: bytes[offset + 1],
                total_length: total_length as u16,
                identification: identification as u16,
                flags: (fragment / 8192) as u8,
                fragment_offset: (fragment % 8192) as u16,
                ttl: bytes[offset + 8],
                protocol: bytes[offset + 9],
                checksum: checksum as u16,
                src: src as u32,
                dst: dst as u32,
            },
        )
    }

    /// The header with its total length set for `behind` bytes behind it, and
    /// its checksum recomputed.
    pub fn finalize_within(&self, behind: usize) -> (done: Ipv4Fields)
        ensures
            done == self.finalized_within(behind as nat),
    {
        let mut sized: Ipv4Fields = *self;
        if behind <= 0xFFFF - IPV4_LEN {
            sized.total_length = (IPV4_LEN + behind) as u16;
        }
        sized.finalize()
    }

    /// The header with its checksum recomputed from the other fields.
    pub fn finalize(&self) -> (done: Ipv4Fields)
        ensures
            done == self.finalized(),
    {
        let mut blank: Ipv4Fields = *self;
        blank.checksum = 0;
        let mut bytes: Vec<u8> = Vec::new();
        blank.encode(&mut bytes);
        assert(bytes@ =~= blank.wire());
        let mut done: Ipv4Fields = *self;
        done.checksum = internet_checksum(bytes.as_slice());
        done
    }
}

/// The field names differ from each other, so that each names its own field.
pub proof fn lemma_ipv4_names()
    ensures
        Ipv4Field::named("version"@) == Some(Ipv4Field::Version),
        Ipv4Field::named("ihl"@) == Some(Ipv4Field::Ihl),
        Ipv4Field::named("tos"@) == Some(Ipv4Field::Tos),
        Ipv4Field::named("total_length"@) == Some(Ipv4Field::TotalLength),
        Ipv4Field::named("identification"@) == Some(Ipv4Field::Identification),
        Ipv4Field::named("flags"@) == Some(Ipv4Field::Flags),
        Ipv4Field::named("fragment_offset"@) == Some(Ipv4Field::FragmentOffset),
        Ipv4Field::named("ttl"@) == Some(Ipv4Field::Ttl),
        Ipv4Field::named("protocol"@) == Some(Ipv4Field::Protocol),
        Ipv4Field::named("checksum"@) == Some(Ipv4Field::Checksum),
        Ipv4Field::named("src"@) == Some(Ipv4Field::Src),
        Ipv4Field::named("dst"@) == Some(Ipv4Field::Dst),
{
    reveal_strlit("version");
    reveal_strlit("ihl");
    reveal_strlit("tos");
    reveal_strlit("total_length");
    reveal_strlit("identification");
    reveal_strlit("flags");
    reveal_strlit("fragment_offset");
    reveal_strlit("ttl");
    reveal_strlit("protocol");
    reveal_strlit("checksum");
    reveal_strlit("src");
    reveal_strlit("dst");
    assert("version"@.len() == 7);
    assert("ihl"@.len() == 3);
    assert("tos"@.len() == 3);
    assert("total_length"@.len() == 12);
    assert("identification"@.len() == 14);
    assert("flags"@.len() == 5);
    assert("fragment_offset"@.len() == 15);
    assert("ttl"@.len() == 3);
    assert("protocol"@.len() == 8);
    assert("checksum"@.len() == 8);
    assert("src"@.len() == 3);
    assert("dst"@.len() == 3);
    assert("ihl"@[0] == 'i' && "ihl"@[1] == 'h');
    assert("tos"@[0] == 't' && "tos"@[1] == 'o');
    assert("ttl"@[0] == 't' && "ttl"@[1] == 't');
    assert("protocol"@[0] == 'p' && "protocol"@[1] == 'r');
    assert("checksum"@[0] == 'c' && "checksum"@[1] == 'h');
    assert("src"@[0] == 's' && "src"@[1] == 'r');
    assert("dst"@[0] == 'd' && "dst"@[1] == 's');
}

/// A header's bytes are twenty, whatever its fields hold.
pub proof fn lemma_ipv4_wire_len(fields: Ipv4Fields)
    ensures
        fields.wire().len() == IPV4_LEN,
{
    lemma_be_bytes_len((fields.version * 16 + fields.ihl) as nat, 1);
    lemma_be_bytes_len(fields.tos as nat, 1);
    lemma_be_bytes_len(fields.total_length as nat, 2);
    lemma_be_bytes_len(fields.identification as nat, 2);
    lemma_be_bytes_len((fields.flags * 8192 + fields.fragment_offset) as nat, 2);
    lemma_be_bytes_len(fields.ttl as nat, 1);
    lemma_be_bytes_len(fields.protocol as nat, 1);
    lemma_be_bytes_len(fields.checksum as nat, 2);
    lemma_be_bytes_len(fields.src as nat, 4);
    lemma_be_bytes_len(fields.dst as nat, 4);
}

/// Where each field's bytes stand in a header's bytes.
pub proof fn lemma_ipv4_wire_layout(fields: Ipv4Fields)
    ensures
        fields.wire().len() == IPV4_LEN,
        fields.wire().subrange(0, 1) == be_bytes((fields.version * 16 + fields.ihl) as nat, 1),
        fields.wire().subrange(1, 2) == be_bytes(fields.tos as nat, 1),
        fields.wire().subrange(2, 4) == be_bytes(fields.total_length as nat, 2),
        fields.wire().subrange(4, 6) == be_bytes(fields.identification as nat, 2),
        fields.wire().subrange(6, 8) == be_bytes(
            (fields.flags * 8192 + fields.fragment_offset) as nat,
            2,
        ),
        fields.wire().subrange(8, 9) == be_bytes(fields.ttl as nat, 1),
        fields.wire().subrange(9, 10) == be_bytes(fields.protocol as nat, 1),
        fields.wire().subrange(10, 12) == be_bytes(fields.checksum as nat, 2),
        fields.wire().subrange(12, 16) == be_bytes(fields.src as nat, 4),
        fields.wire().subrange(16, 20) == be_bytes(fields.dst as nat, 4),
{
    let w = fields.wire();
    lemma_ipv4_wire_len(fields);
    lemma_be_bytes_len((fields.version * 16 + fields.ihl) as nat, 1);
    lemma_be_bytes_len(fields.tos as nat, 1);
    lemma_be_bytes_len(fields.total_length as nat, 2);
    lemma_be_bytes_len(fields.identification as nat, 2);
    lemma_be_bytes_len((fields.flags * 8192 + fields.fragment_offset) as nat, 2);
    lemma_be_bytes_len(fields.ttl as nat, 1);
    lemma_be_bytes_len(fields.protocol as nat, 1);
    lemma_be_bytes_len(fields.checksum as nat, 2);
    lemma_be_bytes_len(fields.src as nat, 4);
    lemma_be_bytes_len(fields.dst as nat, 4);
    assert(w.subrange(0, 1) =~= be_bytes((fields.version * 16 + fields.ihl) as nat, 1));
    assert(w.subrange(1, 2) =~= be_bytes(fields.tos as nat, 1));
    assert(w.subrange(2, 4) =~= be_bytes(fields.total_length as nat, 2));
    assert(w.subrange(4, 6) =~= be_bytes(fields.identification as nat, 2));
    assert(w.subrange(6, 8) =~= be_bytes(
        (fields.flags * 8192 + fields.fragment_offset) as nat,
        2,
    ));
    assert(w.subrange(8, 9) =~= be_bytes(fields.ttl as nat, 1));
    assert(w.subrange(9, 10) =~= be_bytes(fields.protocol as nat, 1));
    assert(w.subrange(10, 12) =~= be_bytes(fields.checksum as nat, 2));
    assert(w.subrange(12, 16) =~= be_bytes(fields.src as nat, 4));
    assert(w.subrange(16, 20) =~= be_bytes(fields.dst as nat, 4));
}

/// Parsing the bytes of a valid header gives the header back.
pub proof fn lemma_ipv4_parse_wire(fields: Ipv4Fields)
    requires
        fields.valid(),
    ensures
        Ipv4Fields::parse(fields.wire()) == fields,
{
    let w = fields.wire();
    lemma_ipv4_wire_layout(fields);
    lemma_limit_values();
    lemma_be_single((fields.version * 16 + fields.ihl) as nat, 0);
    lemma_be_single(fields.tos as nat, 0);
    lemma_be_single(fields.ttl as nat, 0);
    lemma_be_single(fields.protocol as nat, 0);
    assert(w[0] == w.subrange(0, 1)[0]);
    assert(w[1] == w.subrange(1, 2)[0]);
    assert(w[8] == w.subrange(8, 9)[0]);
    assert(w[9] == w.subrange(9, 10)[0]);
    lemma_be_value_of_bytes(fields.total_length as nat, 2);
    lemma_be_value_of_bytes(fields.identification as nat, 2);
    lemma_be_value_of_bytes((fields.flags * 8192 + fields.fragment_offset) as nat, 2);
    lemma_be_value_of_bytes(fields.checksum as nat, 2);
    lemma_be_value_of_bytes(fields.src as nat, 4);
    lemma_be_value_of_bytes(fields.dst as nat, 4);
}

/// Any twenty bytes parse to a valid header whose bytes are those twenty.
pub proof fn lemma_ipv4_wire_parse(bytes: Seq<u8>)
    requires
        bytes.len() == IPV4_LEN,
    ensures
        Ipv4Fields::parse(bytes).valid(),
        Ipv4Fields::parse(bytes).wire() == bytes,
{
    let f = Ipv4Fields::parse(bytes);
    lemma_limit_values();
    lemma_be_value_bound(bytes.subrange(2, 4));
    lemma_be_value_bound(bytes.subrange(4, 6));
    lemma_be_value_bound(bytes.subrange(6, 8));
    lemma_be_value_bound(bytes.subrange(10, 12));
    lemma_be_value_bound(bytes.subrange(12, 16));
    lemma_be_value_bound(bytes.subrange(16, 20));
    lemma_be_bytes_of_value(bytes.subrange(2, 4));
    lemma_be_bytes_of_value(bytes.subrange(4, 6));
    lemma_be_bytes_of_value(bytes.subrange(6, 8));
    lemma_be_bytes_of_value(bytes.subrange(10, 12));
    lemma_be_bytes_of_value(bytes.subrange(12, 16));
    lemma_be_bytes_of_value(bytes.subrange(16, 20));
    lemma_be_single((f.version * 16 + f.ihl) as nat, 0);
    lemma_be_single(f.tos as nat, 0);
    lemma_be_single(f.ttl as nat, 0);
    lemma_be_single(f.protocol as nat, 0);
    lemma_ipv4_wire_len(f);
    assert(f.wire() =~= bytes);
}

/// A header whose checksum was recomputed verifies, and recomputing it again
/// changes nothing.
pub proof fn lemma_ipv4_finalized_holds(fields: Ipv4Fields)
    ensures
        checksum_holds(fields.finalized().wire()),
        fields.finalized().finalized() == fields.finalized(),
        fields.valid() ==> fields.finalized().valid(),
{
    let blank = Ipv4Fields { checksum: 0, ..fields };
    let done = fields.finalized();
    let head = be_bytes((fields.version * 16 + fields.ihl) as nat, 1) + be_bytes(
        fields.tos as nat,
        1,
    ) + be_bytes(fields.total_length as nat, 2) + be_bytes(fields.identification as nat, 2)
        + be_bytes((fields.flags * 8192 + fields.fragment_offset) as nat, 2) + be_bytes(
        fields.ttl as nat,
        1,
    ) + be_bytes(fields.protocol as nat, 1);
    let tail = be_bytes(fields.src as nat, 4) + be_bytes(fields.dst as nat, 4);
    lemma_be_bytes_len((fields.version * 16 + fields.ihl) as nat, 1);
    lemma_be_bytes_len(fields.tos as nat, 1);
    lemma_be_bytes_len(fields.total_length as nat, 2);
    lemma_be_bytes_len(fields.identification as nat, 2);
    lemma_be_bytes_len((fields.flags * 8192 + fields.fragment_offset) as nat, 2);
    lemma_be_bytes_len(fields.ttl as nat, 1);
    lemma_be_bytes_len(fields.protocol as nat, 1);
    lemma_be_bytes_len(fields.src as nat, 4);
    lemma_be_bytes_len(fields.dst as nat, 4);
    lemma_be_bytes_len(0, 2);
    lemma_be_bytes_len(done.checksum as nat, 2);
    assert(blank.wire() =~= head + (be_bytes(0, 2) + tail));
    assert(done.wire() =~= head + (be_bytes(done.checksum as nat, 2) + tail));
    lemma_pair_sum_concat(be_bytes(0, 2), tail);
    lemma_pair_sum_concat(head, be_bytes(0, 2) + tail);
    lemma_pair_sum_concat(be_bytes(done.checksum as nat, 2), tail);
    lemma_pair_sum_concat(head, be_bytes(done.checksum as nat, 2) + tail);
    lemma_pair_sum_word(0);
    lemma_pair_sum_word(done.checksum as nat);
    lemma_fold16_value(word_sum(blank.wire()));
    lemma_fold16_with_complement(word_sum(blank.wire()), done.checksum as nat);
}

/// Setting a field changes the bytes that hold the field and no other byte.
pub proof fn lemma_ipv4_field_is_local(fields: Ipv4Fields, name: Seq<char>, value: u64)
    ensures
        Ipv4Fields::field_span(name) matches Some(span) ==> forall|k: int|
            0 <= k < IPV4_LEN && !(span.0 <= k < span.1) ==> #[trigger] fields.with(
                name,
                value,
            ).wire()[k] == fields.wire()[k],
{
    let changed = fields.with(name, value);
    let w = fields.wire();
    let c = changed.wire();
    lemma_ipv4_wire_layout(fields);
    lemma_ipv4_wire_layout(changed);
    if changed.version == fields.version && changed.ihl == fields.ihl {
        assert forall|k: int| 0 <= k < 1 implies c[k] == w[k] by {
            assert(c[k] == c.subrange(0, 1)[k]);
            assert(w[k] == w.subrange(0, 1)[k]);
        }
    }
    if changed.tos == fields.tos {
        assert forall|k: int| 1 <= k < 2 implies c[k] == w[k] by {
            assert(c[k] == c.subrange(1, 2)[k - 1]);
            assert(w[k] == w.subrange(1, 2)[k - 1]);
        }
    }
    if changed.total_length == fields.total_length {
        assert forall|k: int| 2 <= k < 4 implies c[k] == w[k] by {
            assert(c[k] == c.subrange(2, 4)[k - 2]);
            assert(w[k] == w.subrange(2, 4)[k - 2]);
        }
    }
    if changed.identification == fields.identification {
        assert forall|k: int| 4 <= k < 6 implies c[k] == w[k] by {
            assert(c[k] == c.subrange(4, 6)[k - 4]);
            assert(w[k] == w.subrange(4, 6)[k - 4]);
        }
    }
    if changed.flags == fields.flags && changed.fragment_offset == fields.fragment_offset {
        assert forall|k: int| 6 <= k < 8 implies c[k] == w[k] by {
            assert(c[k] == c.subrange(6, 8)[k - 6]);
            assert(w[k] == w.subrange(6, 8)[k - 6]);
        }
    }
    if changed.ttl == fields.ttl {
        assert forall|k: int| 8 <= k < 9 implies c[k] == w[k] by {
            assert(c[k] == c.subrange(8, 9)[k - 8]);
            assert(w[k] == w.subrange(8, 9)[k - 8]);
        }
    }
    if changed.protocol == fields.protocol {
        assert forall|k: int| 9 <= k < 10 implies c[k] == w[k] by {
            assert(c[k] == c.subrange(9, 10)[k - 9]);
            assert(w[k] == w.subrange(9, 10)[k - 9]);
        }
    }
    if changed.checksum == fields.checksum {
        assert forall|k: int| 10 <= k < 12 implies c[k] == w[k] by {
            assert(c[k] == c.subrange(10, 12)[k - 10]);
            assert(w[k] == w.subrange(10, 12)[k - 10]);
        }
    }
    if changed.src == fields.src {
        assert forall|k: int| 12 <= k < 16 implies c[k] == w[k] by {
            assert(c[k] == c.subrange(12, 16)[k - 12]);
            assert(w[k] == w.subrange(12, 16)[k - 12]);
        }
    }
    if changed.dst == fields.dst {
        assert forall|k: int| 16 <= k < 20 implies c[k] == w[k] by {
            assert(c[k] == c.subrange(16, 20)[k - 16]);
            assert(w[k] == w.subrange(16, 20)[k - 16]);
        }
    }
    if changed.fragment_offset == fields.fragment_offset {
        // the flags stand in the upper bits of the first of the two bytes
        let before = (fields.flags * 8192 + fields.fragment_offset) as nat;
        let after = (changed.flags * 8192 + changed.fragment_offset) as nat;
        reveal_with_fuel(be_bytes, 3);
        assert(be_bytes(before, 2)[1] == (before % 256) as u8);
        assert(be_bytes(after, 2)[1] == (after % 256) as u8);
        assert(before % 256 == after % 256);
        assert(c[7] == c.subrange(6, 8)[1]);
        assert(w[7] == w.subrange(6, 8)[1]);
    }
}

} // verus!
