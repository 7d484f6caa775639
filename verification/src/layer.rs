//! One header of a packet: a tagged choice among the header kinds, with field
//! access by name, serialization and recomputation of dependent fields.

use vstd::prelude::*;
use crate::checksum::checksum_holds;
use crate::error::Error;
use crate::ethernet::{
    lemma_ethernet_field_is_local, lemma_ethernet_parse_wire, lemma_ethernet_wire_len,
    lemma_ethernet_wire_parse, ETHERNET_LEN, ETHERTYPE_IPV4, EthernetFields,
};
use crate::ipv4::{
    lemma_ipv4_field_is_local, lemma_ipv4_finalized_holds, lemma_ipv4_parse_wire,
    lemma_ipv4_wire_len, lemma_ipv4_wire_parse, IPV4_LEN, PROTOCOL_TCP, Ipv4Fields,
};
use crate::tcp::{
    lemma_tcp_field_is_local, lemma_tcp_finalized_holds, lemma_tcp_parse_wire, lemma_tcp_wire_len,
    lemma_tcp_wire_parse, TCP_LEN, TcpFields,
};
use crate::text::same_text;

verus! {

/// The header kinds that a packet can be made of.
#[derive(Clone, Copy, PartialEq, Eq, Structural, Debug)]
pub enum Protocol {
    Ethernet,
    Ipv4,
    Tcp,
}

impl Protocol {
    /// The protocol that a name stands for: `"Ethernet"`, `"IPv4"` or `"TCP"`,
    /// spelled exactly so.
    pub open spec fn named(name: Seq<char>) -> Option<Protocol> {
        if name == "Ethernet"@ {
            Some(Protocol::Ethernet)
        } else if name == "IPv4"@ {
            Some(Protocol::Ipv4)
        } else if name == "TCP"@ {
            Some(Protocol::Tcp)
        } else {
            None
        }
    }

    /// The number of bytes that a header of this protocol takes on the wire.
    pub open spec fn header_len(self) -> nat {
        match self {
            Protocol::Ethernet => ETHERNET_LEN as nat,
            Protocol::Ipv4 => IPV4_LEN as nat,
            Protocol::Tcp => TCP_LEN as nat,
        }
    }

    /// The protocol that `name` stands for, `None` for any other name.
    pub fn from_name(name: &str) -> (protocol: Option<Protocol>)
        ensures
            protocol == Protocol::named(name@),
    {
        if same_text(name, "Ethernet") {
            Some(Protocol::Ethernet)
        } else if same_text(name, "IPv4") {
            Some(Protocol::Ipv4)
        } else if same_text(name, "TCP") {
            Some(Protocol::Tcp)
        } else {
            None
        }
    }

    /// The name that stands for this protocol.
    pub fn name(self) -> (name: &'static str)
        ensures
            Protocol::named(name@) == Some(self),
    {
        proof {
            lemma_protocol_names();
        }
        match self {
            Protocol::Ethernet => "Ethernet",
            Protocol::Ipv4 => "IPv4",
            Protocol::Tcp => "TCP",
        }
    }

    /// The number of bytes that a header of this protocol takes on the wire.
    pub fn len(self) -> (len: usize)
        ensures
            len == self.header_len(),
    {
        match self {
            Protocol::Ethernet => ETHERNET_LEN,
            Protocol::Ipv4 => IPV4_LEN,
            Protocol::Tcp => TCP_LEN,
        }
    }
}

/// The field values of one header, of whichever kind.
#[derive(Clone, Copy, PartialEq, Eq, Structural, Debug)]
pub enum LayerFields {
    Ethernet(EthernetFields),
    Ipv4(Ipv4Fields),
    Tcp(TcpFields),
}

impl LayerFields {
    /// The kind of header that these fields belong to.
    pub open spec fn protocol(self) -> Protocol {
        match self {
            LayerFields::Ethernet(_) => Protocol::Ethernet,
            LayerFields::Ipv4(_) => Protocol::Ipv4,
            LayerFields::Tcp(_) => Protocol::Tcp,
        }
    }

    /// Every field fits its width on the wire.
    pub open spec fn valid(self) -> bool {
        match self {
            LayerFields::Ethernet(f) => f.valid(),
            LayerFields::Ipv4(f) => f.valid(),
            LayerFields::Tcp(f) => f.valid(),
        }
    }

    /// The header's bytes.
    pub open spec fn wire(self) -> Seq<u8> {
        match self {
            LayerFields::Ethernet(f) => f.wire(),
            LayerFields::Ipv4(f) => f.wire(),
            LayerFields::Tcp(f) => f.wire(),
        }
    }

    /// The header of the given kind that a byte string of the kind's length
    /// denotes.
    pub open spec fn parse(protocol: Protocol, bytes: Seq<u8>) -> LayerFields {
        match protocol {
            Protocol::Ethernet => LayerFields::Ethernet(EthernetFields::parse(bytes)),
            Protocol::Ipv4 => LayerFields::Ipv4(Ipv4Fields::parse(bytes)),
            Protocol::Tcp => LayerFields::Tcp(TcpFields::parse(bytes)),
        }
    }

    /// The largest value that the named field of this header accepts; `None`
    /// where this kind of header has no field of that name.
    pub open spec fn max_value(self, name: Seq<char>) -> Option<u64> {
        match self {
            LayerFields::Ethernet(_) => EthernetFields::max_value(name),
            LayerFields::Ipv4(_) => Ipv4Fields::max_value(name),
            LayerFields::Tcp(_) => TcpFields::max_value(name),
        }
    }

    /// The bytes of the header that hold the named field: the first of them
    /// and the one behind the last. `None` where this kind of header has no
    /// field of that name.
    pub open spec fn field_span(self, name: Seq<char>) -> Option<(int, int)> {
        match self {
            LayerFields::Ethernet(_) => EthernetFields::field_span(name),
            LayerFields::Ipv4(_) => Ipv4Fields::field_span(name),
            LayerFields::Tcp(_) => TcpFields::field_span(name),
        }
    }

    /// Whether the header has a field of that name and the value fits it.
    pub open spec fn accepts(self, name: Seq<char>, value: u64) -> bool {
        match self.max_value(name) {
            Some(max) => value <= max,
            None => false,
        }
    }

    /// The value of the named field; 0 where the header has no such field.
    pub open spec fn get(self, name: Seq<char>) -> u64 {
        match self {
            LayerFields::Ethernet(f) => f.get(name),
            LayerFields::Ipv4(f) => f.get(name),
            LayerFields::Tcp(f) => f.get(name),
        }
    }

    /// The header with the named field replaced by `value`.
    pub open spec fn with(self, name: Seq<char>, value: u64) -> LayerFields {
        match self {
            LayerFields::Ethernet(f) => LayerFields::Ethernet(f.with(name, value)),
            LayerFields::Ipv4(f) => LayerFields::Ipv4(f.with(name, value)),
            LayerFields::Tcp(f) => LayerFields::Tcp(f.with(name, value)),
        }
    }

    /// The kind of header that this header announces behind itself, if any: an
    /// Ethernet header announces IPv4 by its ethertype, an IPv4 header without
    /// options announces TCP by its protocol number.
    pub open spec fn announces(self) -> Option<Protocol> {
        match self {
            LayerFields::Ethernet(f) => if f.ethertype == ETHERTYPE_IPV4 {
                Some(Protocol::Ipv4)
            } else {
                None
            },
            LayerFields::Ipv4(f) => if f.protocol == PROTOCOL_TCP && f.ihl == 5 {
                Some(Protocol::Tcp)
            } else {
                None
            },
            LayerFields::Tcp(_) => None,
        }
    }

    /// The header of the given kind that a description starts from.
    pub open spec fn initial(protocol: Protocol) -> LayerFields {
        match protocol {
            Protocol::Ethernet => LayerFields::Ethernet(EthernetFields::initial()),
            Protocol::Ipv4 => LayerFields::Ipv4(Ipv4Fields::initial()),
            Protocol::Tcp => LayerFields::Tcp(TcpFields::initial()),
        }
    }

    /// The header with the fields recomputed that depend on the header's own
    /// contents: the checksum of an IPv4 header. The other kinds have none.
    pub open spec fn finalized(self) -> LayerFields {
        match self {
            LayerFields::Ipv4(f) => LayerFields::Ipv4(f.finalized()),
            _ => self,
        }
    }

    /// The header with the fields recomputed that depend on its place in a
    /// packet, where `before` is the header in front of it, if there is one,
    /// and `behind` are the bytes that follow it. An IPv4 header gets its total
    /// length and its checksum; a TCP header right behind an IPv4 header gets
    /// its checksum, which covers that header's addresses; any other header
    /// stays as it is.
    pub open spec fn finalized_within(self, before: Option<LayerFields>, behind: Seq<u8>)
        -> LayerFields {
        match self {
            LayerFields::Ethernet(_) => self,
            LayerFields::Ipv4(f) => LayerFields::Ipv4(f.finalized_within(behind.len())),
            LayerFields::Tcp(f) => match before {
                Some(LayerFields::Ipv4(ip)) => LayerFields::Tcp(
                    f.finalized(ip.src, ip.dst, behind),
                ),
                _ => self,
            },
        }
    }
}

/// One header of a packet. Its fields always fit their widths, so its bytes
/// say exactly what its fields hold.
#[derive(Clone, Copy, PartialEq, Eq, Structural, Debug)]
pub struct HeaderLayer {
    fields: LayerFields,
}

impl View for HeaderLayer {
    type V = LayerFields;

    closed spec fn view(&self) -> LayerFields {
        self.fields
    }
}

impl HeaderLayer {
    #[verifier::type_invariant]
    spec fn well_formed(self) -> bool {
        self.fields.valid()
    }

    /// A header with the given field values, or `InvalidField` where one of them
    /// does not fit its width.
    pub fn new(fields: LayerFields) -> (made: Result<HeaderLayer, Error>)
        ensures
            match made {
                Ok(layer) => fields.valid() && layer@ == fields,
                Err(e) => !fields.valid() && e == Error::InvalidField,
            },
    {
        let ok: bool = match &fields {
            LayerFields::Ethernet(f) => f.is_valid(),
            LayerFields::Ipv4(f) => f.is_valid(),
            LayerFields::Tcp(f) => f.is_valid(),
        };
        if ok {
            Ok(HeaderLayer { fields })
        } else {
            Err(Error::InvalidField)
        }
    }

    /// The header of the given kind that a description starts from.
    pub fn initial(protocol: Protocol) -> (layer: HeaderLayer)
        ensures
            layer@ == LayerFields::initial(protocol),
            layer@.valid(),
    {
        let fields: LayerFields = match protocol {
            Protocol::Ethernet => LayerFields::Ethernet(EthernetFields::new()),
            Protocol::Ipv4 => LayerFields::Ipv4(Ipv4Fields::new()),
            Protocol::Tcp => LayerFields::Tcp(TcpFields::new()),
        };
        HeaderLayer { fields }
    }

    /// Reads a header of the given kind from `bytes` at `offset`, `None` where
    /// `bytes` ends before the header does.
    pub fn decode(protocol: Protocol, bytes: &[u8], offset: usize) -> (layer: Option<HeaderLayer>)
        ensures
            match layer {
                Some(l) => offset + protocol.header_len() <= bytes@.len() && l@
                    == LayerFields::parse(
                    protocol,
                    bytes@.subrange(offset as int, offset + protocol.header_len()),
                ) && l@.valid(),
                None => offset + protocol.header_len() > bytes@.len(),
            },
    {
        match protocol {
            Protocol::Ethernet => match EthernetFields::decode(bytes, offset) {
                Some(f) => Some(HeaderLayer { fields: LayerFields::Ethernet(f) }),
                None => None,
            },
            Protocol::Ipv4 => match Ipv4Fields::decode(bytes, offset) {
                Some(f) => Some(HeaderLayer { fields: LayerFields::Ipv4(f) }),
                None => None,
            },
            Protocol::Tcp => match TcpFields::decode(bytes, offset) {
                Some(f) => Some(HeaderLayer { fields: LayerFields::Tcp(f) }),
                None => None,
            },
        }
    }

    /// The kind of this header.
    pub fn protocol(&self) -> (protocol: Protocol)
        ensures
            protocol == self@.protocol(),
    {
        match &self.fields {
            LayerFields::Ethernet(_) => Protocol::Ethernet,
            LayerFields::Ipv4(_) => Protocol::Ipv4,
            LayerFields::Tcp(_) => Protocol::Tcp,
        }
    }

    /// The kind of header that this header announces behind itself, if any.
    pub fn announces(&self) -> (next: Option<Protocol>)
        ensures
            next == self@.announces(),
    {
        match &self.fields {
            LayerFields::Ethernet(f) => if f.ethertype == ETHERTYPE_IPV4 {
                Some(Protocol::Ipv4)
            } else {
                None
            },
            LayerFields::Ipv4(f) => if f.protocol == PROTOCOL_TCP && f.ihl == 5 {
                Some(Protocol::Tcp)
            } else {
                None
            },
            LayerFields::Tcp(_) => None,
        }
    }

    /// The field values, which fit their widths.
    pub fn fields(&self) -> (fields: LayerFields)
        ensures
            fields == self@,
            fields.valid(),
    {
        proof {
            use_type_invariant(self);
        }
        self.fields
    }

    /// The number of bytes that the header takes on the wire, which depends on
    /// its kind alone.
    pub fn len(&self) -> (len: usize)
        ensures
            len == self@.wire().len(),
            len == self@.protocol().header_len(),
    {
        proof {
            lemma_wire_len(self@);
        }
        self.protocol().len()
    }

    /// Appends the header's bytes to `out`. No field is computed on the way: the
    /// bytes hold the checksum as it was last set.
    pub fn write_to(&self, out: &mut Vec<u8>)
        ensures
            final(out)@ == old(out)@ + self@.wire(),
    {
        match &self.fields {
            LayerFields::Ethernet(f) => f.encode(out),
            LayerFields::Ipv4(f) => f.encode(out),
            LayerFields::Tcp(f) => f.encode(out),
        }
    }

    /// The header's bytes.
    pub fn to_bytes(&self) -> (bytes: Vec<u8>)
        ensures
            bytes@ == self@.wire(),
            bytes@.len() == self@.protocol().header_len(),
    {
        let mut bytes: Vec<u8> = Vec::new();
        self.write_to(&mut bytes);
        proof {
            lemma_wire_len(self@);
            assert(bytes@ =~= self@.wire());
        }
        bytes
    }

    /// The largest value that the named field accepts, `None` where this kind
    /// of header has no field of that name.
    pub fn field_max(&self, name: &str) -> (max: Option<u64>)
        ensures
            max == self@.max_value(name@),
    {
        match &self.fields {
            LayerFields::Ethernet(_) => EthernetFields::field_max(name),
            LayerFields::Ipv4(_) => Ipv4Fields::field_max(name),
            LayerFields::Tcp(_) => TcpFields::field_max(name),
        }
    }

    /// The value of the named field, or `InvalidField` where this kind of header
    /// has no field of that name.
    pub fn get_field(&self, name: &str) -> (value: Result<u64, Error>)
        ensures
            match value {
                Ok(v) => self@.max_value(name@) is Some && v == self@.get(name@),
                Err(e) => self@.max_value(name@) is None && e == Error::InvalidField,
            },
    {
        let found: Option<u64> = match &self.fields {
            LayerFields::Ethernet(f) => f.field(name),
            LayerFields::Ipv4(f) => f.field(name),
            LayerFields::Tcp(f) => f.field(name),
        };
        match found {
            Some(v) => Ok(v),
            None => Err(Error::InvalidField),
        }
    }

    /// Sets the named field. Fails with `InvalidField`, and changes nothing,
    /// where this kind of header has no field of that name or the value does
    /// not fit the field.
    pub fn set_field(&mut self, name: &str, value: u64) -> (done: Result<(), Error>)
        ensures
            final(self)@.valid(),
            match done {
                Ok(()) => old(self)@.accepts(name@, value) && final(self)@ == old(self)@.with(
                    name@,
                    value,
                ),
                Err(e) => !old(self)@.accepts(name@, value) && e == Error::InvalidField
                    && final(self)@ == old(self)@,
            },
    {
        proof {
            use_type_invariant(&*self);
        }
        let changed: Option<LayerFields> = match &self.fields {
            LayerFields::Ethernet(f) => match f.assign(name, value) {
                Some(g) => Some(LayerFields::Ethernet(g)),
                None => None,
            },
            LayerFields::Ipv4(f) => match f.assign(name, value) {
                Some(g) => Some(LayerFields::Ipv4(g)),
                None => None,
            },
            LayerFields::Tcp(f) => match f.assign(name, value) {
                Some(g) => Some(LayerFields::Tcp(g)),
                None => None,
            },
        };
        match changed {
            Some(fields) => {
                proof {
                    lemma_with_field(self.fields, name@, value);
                }
                self.fields = fields;
                Ok(())
            },
            None => Err(Error::InvalidField),
        }
    }

    /// Recomputes the fields that depend on the header's place in a packet,
    /// where `before` is the header in front of it, if there is one, and
    /// `behind` are the bytes that follow it.
    pub fn finalize_within(&mut self, before: Option<LayerFields>, behind: &[u8])
        ensures
            final(self)@ == old(self)@.finalized_within(before, behind@),
            final(self)@.valid(),
    {
        proof {
            use_type_invariant(&*self);
            lemma_finalized_within(self.fields, before, behind@);
        }
        let done: LayerFields = match &self.fields {
            LayerFields::Ethernet(f) => LayerFields::Ethernet(*f),
            LayerFields::Ipv4(f) => LayerFields::Ipv4(f.finalize_within(behind.len())),
            LayerFields::Tcp(f) => match before {
                Some(LayerFields::Ipv4(ip)) => LayerFields::Tcp(f.finalize(ip.src, ip.dst, behind)),
                _ => LayerFields::Tcp(*f),
            },
        };
        self.fields = done;
    }

    /// Recomputes the fields that depend on the header's own contents: the
    /// checksum of an IPv4 header. The other kinds are left as they are; the
    /// checksum of a TCP header depends on more than the header and is
    /// recomputed for a whole packet.
    pub fn finalize(&mut self)
        ensures
            final(self)@ == old(self)@.finalized(),
            final(self)@.valid(),
    {
        proof {
            use_type_invariant(&*self);
            lemma_finalized(self.fields);
        }
        let done: LayerFields = match &self.fields {
            LayerFields::Ipv4(f) => LayerFields::Ipv4(f.finalize()),
            LayerFields::Ethernet(f) => LayerFields::Ethernet(*f),
            LayerFields::Tcp(f) => LayerFields::Tcp(*f),
        };
        self.fields = done;
    }
}

/// The three protocol names differ from each other, so each stands for its own
/// protocol.
pub proof fn lemma_protocol_names()
    ensures
        Protocol::named("Ethernet"@) == Some(Protocol::Ethernet),
        Protocol::named("IPv4"@) == Some(Protocol::Ipv4),
        Protocol::named("TCP"@) == Some(Protocol::Tcp),
{
    reveal_strlit("Ethernet");
    reveal_strlit("IPv4");
    reveal_strlit("TCP");
    assert("Ethernet"@.len() == 8);
    assert("IPv4"@.len() == 4);
    assert("TCP"@.len() == 3);
}

/// A header's length on the wire depends on its kind alone.
pub proof fn lemma_wire_len(fields: LayerFields)
    ensures
        fields.wire().len() == fields.protocol().header_len(),
{
    match fields {
        LayerFields::Ethernet(f) => lemma_ethernet_wire_len(f),
        LayerFields::Ipv4(f) => lemma_ipv4_wire_len(f),
        LayerFields::Tcp(f) => lemma_tcp_wire_len(f),
    }
}

/// Parsing undoes serialization: the bytes of a valid header parse back to it.
pub proof fn lemma_parse_wire(fields: LayerFields)
    requires
        fields.valid(),
    ensures
        LayerFields::parse(fields.protocol(), fields.wire()) == fields,
{
    match fields {
        LayerFields::Ethernet(f) => lemma_ethernet_parse_wire(f),
        LayerFields::Ipv4(f) => lemma_ipv4_parse_wire(f),
        LayerFields::Tcp(f) => lemma_tcp_parse_wire(f),
    }
}

/// Serialization undoes parsing: any byte string of a kind's length parses to a
/// valid header of that kind whose bytes are that string.
pub proof fn lemma_wire_parse(protocol: Protocol, bytes: Seq<u8>)
    requires
        bytes.len() == protocol.header_len(),
    ensures
        LayerFields::parse(protocol, bytes).protocol() == protocol,
        LayerFields::parse(protocol, bytes).valid(),
        LayerFields::parse(protocol, bytes).wire() == bytes,
{
    match protocol {
        Protocol::Ethernet => lemma_ethernet_wire_parse(bytes),
        Protocol::Ipv4 => lemma_ipv4_wire_parse(bytes),
        Protocol::Tcp => lemma_tcp_wire_parse(bytes),
    }
}

/// Setting a field that accepts the value keeps the header valid and of its
/// kind, makes the field read as the value, and leaves every other field as it
/// was.
pub proof fn lemma_with_field(fields: LayerFields, name: Seq<char>, value: u64)
    requires
        fields.valid(),
        fields.accepts(name, value),
    ensures
        fields.with(name, value).valid(),
        fields.with(name, value).protocol() == fields.protocol(),
        fields.with(name, value).get(name) == value,
        forall|other: Seq<char>|
            other != name ==> #[trigger] fields.with(name, value).get(other) == fields.get(other),
{
}

/// Setting a field changes the bytes that hold the field and no other byte of
/// the header. Every field that has a largest value has its bytes, and they lie
/// within the header.
pub proof fn lemma_field_is_local(fields: LayerFields, name: Seq<char>, value: u64)
    ensures
        fields.max_value(name) is Some <==> fields.field_span(name) is Some,
        fields.field_span(name) matches Some(span) ==> 0 <= span.0 < span.1
            <= fields.protocol().header_len(),
        fields.field_span(name) matches Some(span) ==> forall|k: int|
            0 <= k < fields.protocol().header_len() && !(span.0 <= k < span.1)
                ==> #[trigger] fields.with(name, value).wire()[k] == fields.wire()[k],
{
    match fields {
        LayerFields::Ethernet(f) => lemma_ethernet_field_is_local(f, name, value),
        LayerFields::Ipv4(f) => lemma_ipv4_field_is_local(f, name, value),
        LayerFields::Tcp(f) => lemma_tcp_field_is_local(f, name, value),
    }
}

/// A valid header's fields hold values that they accept.
pub proof fn lemma_value_fits(fields: LayerFields, name: Seq<char>)
    requires
        fields.valid(),
        fields.max_value(name) is Some,
    ensures
        fields.accepts(name, fields.get(name)),
{
}

/// Setting a field to the value it already holds changes nothing.
pub proof fn lemma_with_same_value(fields: LayerFields, name: Seq<char>)
    ensures
        fields.with(name, fields.get(name)) == fields,
{
}

/// Recomputing the dependent fields keeps the header valid and of its kind; an
/// IPv4 header then verifies; and doing it twice is doing it once.
pub proof fn lemma_finalized(fields: LayerFields)
    requires
        fields.valid(),
    ensures
        fields.finalized().valid(),
        fields.finalized().protocol() == fields.protocol(),
        fields.finalized().finalized() == fields.finalized(),
        fields is Ipv4 ==> checksum_holds(fields.finalized().wire()),
{
    match fields {
        LayerFields::Ipv4(f) => lemma_ipv4_finalized_holds(f),
        _ => {},
    }
}

/// Recomputing the fields that depend on a header's place keeps the header
/// valid and of its kind and changes no IPv4 address. An IPv4 header then
/// verifies, and so does a TCP segment behind an IPv4 header that is not too
/// long. Doing it twice in the same place is doing it once.
pub proof fn lemma_finalized_within(
    fields: LayerFields,
    before: Option<LayerFields>,
    behind: Seq<u8>,
)
    requires
        fields.valid(),
    ensures
        fields.finalized_within(before, behind).valid(),
        fields.finalized_within(before, behind).protocol() == fields.protocol(),
        fields.finalized_within(before, behind).finalized_within(before, behind)
            == fields.finalized_within(before, behind),
        fields matches LayerFields::Ipv4(f) ==> fields.finalized_within(
            before,
            behind,
        ) matches LayerFields::Ipv4(g) && g.src == f.src && g.dst == f.dst && checksum_holds(
            g.wire(),
        ) && (IPV4_LEN + behind.len() <= 0xFFFF ==> g.total_length == IPV4_LEN + behind.len()),
        fields matches LayerFields::Tcp(f) ==> fields.finalized_within(
            before,
            behind,
        ) matches LayerFields::Tcp(g) && (before matches Some(LayerFields::Ipv4(ip)) ==> TCP_LEN
            + behind.len() <= 0xFFFF ==> checksum_holds(g.covered(ip.src, ip.dst, behind))),
{
    match fields {
        LayerFields::Ethernet(_) => {},
        LayerFields::Ipv4(f) => {
            let sized = if IPV4_LEN + behind.len() <= 0xFFFF {
                Ipv4Fields { total_length: (IPV4_LEN + behind.len()) as u16, ..f }
            } else {
                f
            };
            lemma_ipv4_finalized_holds(sized);
            lemma_ipv4_finalized_holds(sized.finalized());
        },
        LayerFields::Tcp(f) => match before {
            Some(LayerFields::Ipv4(ip)) => lemma_tcp_finalized_holds(f, ip.src, ip.dst, behind),
            _ => {},
        },
    }
}

/// Whether two headers in front of a TCP header mean the same to its
/// checksum: both are IPv4 headers with the same addresses, or neither is an
/// IPv4 header.
pub open spec fn same_addresses(a: Option<LayerFields>, b: Option<LayerFields>) -> bool {
    match (a, b) {
        (Some(LayerFields::Ipv4(f)), Some(LayerFields::Ipv4(g))) => f.src == g.src && f.dst
            == g.dst,
        (Some(LayerFields::Ipv4(_)), _) => false,
        (_, Some(LayerFields::Ipv4(_))) => false,
        _ => true,
    }
}

/// A header recomputed for its place is recomputed for every place with the
/// same bytes behind it and the same addresses in front of it: recomputing it
/// there again changes nothing.
pub proof fn lemma_finalized_again(
    fields: LayerFields,
    before: Option<LayerFields>,
    again: Option<LayerFields>,
    behind: Seq<u8>,
)
    requires
        fields.valid(),
        same_addresses(before, again),
    ensures
        fields.finalized_within(before, behind).finalized_within(again, behind)
            == fields.finalized_within(before, behind),
        fields.finalized_within(again, behind) == fields.finalized_within(before, behind),
        same_addresses(
            Some(fields),
            Some(fields.finalized_within(before, behind)),
        ),
{
    lemma_finalized_within(fields, before, behind);
    lemma_finalized_within(fields, again, behind);
}

} // verus!
