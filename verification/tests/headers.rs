use dataplane::checksum::{internet_checksum, verify_checksum};
use dataplane::error::Error;
use dataplane::ethernet::{EthernetField, EthernetFields};
use dataplane::ipv4::{Ipv4Field, Ipv4Fields};
use dataplane::layer::{HeaderLayer, LayerFields, Protocol};
use dataplane::tcp::{TcpField, TcpFields};

fn sample_ethernet() -> EthernetFields {
    EthernetFields { dst: 0x0006_0708_090a, src: 0x0011_1111_1111, ethertype: 0x0800 }
}

fn sample_ipv4() -> Ipv4Fields {
    Ipv4Fields {
        version: 4,
        ihl: 5,
        tos: 0,
        total_length: 115,
        identification: 0,
        flags: 2,
        fragment_offset: 0,
        ttl: 64,
        protocol: 17,
        checksum: 0,
        src: 0xC0A8_0001,
        dst: 0xC0A8_00C7,
    }
}

fn sample_tcp() -> TcpFields {
    TcpFields {
        srcport: 8888,
        dstport: 9090,
        seq: 100,
        ack: 101,
        data_offset: 5,
        reserved: 0,
        flags: 2,
        window: 5,
        checksum: 0xABCD,
        urgent_ptr: 7,
    }
}

#[test]
fn ethernet_header_bytes_are_exact() {
    let fields = sample_ethernet();
    let mut out: Vec<u8> = Vec::new();
    fields.encode(&mut out);
    assert_eq!(
        out,
        vec![0x00, 0x06, 0x07, 0x08, 0x09, 0x0a, 0x00, 0x11, 0x11, 0x11, 0x11, 0x11, 0x08, 0x00]
    );
    assert_eq!(EthernetFields::decode(&out, 0), Some(fields));
    assert_eq!(EthernetFields::decode(&out, 1), None);
    assert_eq!(EthernetFields::decode(&[], 0), None);
    assert_eq!(EthernetFields::decode(&out, usize::MAX), None);
}

#[test]
fn ethernet_encode_appends_to_what_is_there() {
    let mut out: Vec<u8> = vec![0xEE, 0xFF];
    sample_ethernet().encode(&mut out);
    assert_eq!(out.len(), 16);
    assert_eq!(&out[..2], &[0xEE, 0xFF]);
    assert_eq!(EthernetFields::decode(&out, 2), Some(sample_ethernet()));
}

#[test]
fn ipv4_header_bytes_are_exact() {
    let fields = sample_ipv4();
    let mut out: Vec<u8> = Vec::new();
    fields.encode(&mut out);
    assert_eq!(
        out,
        vec![
            0x45, 0x00, 0x00, 0x73, 0x00, 0x00, 0x40, 0x00, 0x40, 0x11, 0x00, 0x00, 0xc0, 0xa8,
            0x00, 0x01, 0xc0, 0xa8, 0x00, 0xc7
        ]
    );
    assert_eq!(Ipv4Fields::decode(&out, 0), Some(fields));
    assert_eq!(Ipv4Fields::decode(&out[..19], 0), None);
}

#[test]
fn ipv4_flags_and_fragment_offset_share_two_bytes() {
    let mut fields = sample_ipv4();
    fields.flags = 5;
    fields.fragment_offset = 0x1234;
    let mut out: Vec<u8> = Vec::new();
    fields.encode(&mut out);
    assert_eq!(out[6], 0xB2);
    assert_eq!(out[7], 0x34);
    assert_eq!(Ipv4Fields::decode(&out, 0), Some(fields));
}

#[test]
fn ipv4_finalize_computes_the_known_checksum() {
    let done = sample_ipv4().finalize();
    assert_eq!(done.checksum, 0xb861);
    let mut out: Vec<u8> = Vec::new();
    done.encode(&mut out);
    assert_eq!(&out[10..12], &[0xb8, 0x61]);
    assert!(verify_checksum(&out));
    assert_eq!(done.finalize(), done);
    let mut stale = done;
    stale.ttl = 63;
    let mut out: Vec<u8> = Vec::new();
    stale.encode(&mut out);
    assert!(!verify_checksum(&out));
}

#[test]
fn tcp_header_bytes_are_exact() {
    let fields = sample_tcp();
    let mut out: Vec<u8> = Vec::new();
    fields.encode(&mut out);
    assert_eq!(
        out,
        vec![
            0x22, 0xb8, 0x23, 0x82, 0x00, 0x00, 0x00, 0x64, 0x00, 0x00, 0x00, 0x65, 0x50, 0x02,
            0x00, 0x05, 0xab, 0xcd, 0x00, 0x07
        ]
    );
    assert_eq!(TcpFields::decode(&out, 0), Some(fields));
    assert_eq!(TcpFields::decode(&out, 1), None);
}

#[test]
fn checksum_of_known_bytes() {
    assert_eq!(internet_checksum(&[]), 0xFFFF);
    assert_eq!(internet_checksum(&[0x00, 0x01]), 0xFFFE);
    assert_eq!(internet_checksum(&[0xFF, 0xFF]), 0x0000);
    // an odd last byte is the high byte of a last word
    assert_eq!(internet_checksum(&[0x12]), 0xEDFF);
    assert_eq!(internet_checksum(&[0x00, 0x01, 0x12]), 0xEDFE);
    // carries are added back in: 0xFFFF + 0x0002 folds to 0x0002
    assert_eq!(internet_checksum(&[0xFF, 0xFF, 0x00, 0x02]), 0xFFFD);
    assert_eq!(
        internet_checksum(&[0x00, 0x01, 0xf2, 0x03, 0xf4, 0xf5, 0xf6, 0xf7]),
        0x220d
    );
    assert!(verify_checksum(&[0x00, 0x01, 0xf2, 0x03, 0xf4, 0xf5, 0xf6, 0xf7, 0x22, 0x0d]));
    assert!(!verify_checksum(&[0x00, 0x01, 0xf2, 0x03, 0xf4, 0xf5, 0xf6, 0xf7, 0x22, 0x0e]));
}

#[test]
fn protocol_names_are_exact() {
    assert_eq!(Protocol::from_name("Ethernet"), Some(Protocol::Ethernet));
    assert_eq!(Protocol::from_name("IPv4"), Some(Protocol::Ipv4));
    assert_eq!(Protocol::from_name("TCP"), Some(Protocol::Tcp));
    assert_eq!(Protocol::from_name("tcp"), None);
    assert_eq!(Protocol::from_name("UDP"), None);
    assert_eq!(Protocol::from_name(""), None);
    for protocol in [Protocol::Ethernet, Protocol::Ipv4, Protocol::Tcp] {
        assert_eq!(Protocol::from_name(protocol.name()), Some(protocol));
    }
    assert_eq!(Protocol::Ethernet.len(), 14);
    assert_eq!(Protocol::Ipv4.len(), 20);
    assert_eq!(Protocol::Tcp.len(), 20);
}

#[test]
fn initial_headers() {
    assert_eq!(
        HeaderLayer::initial(Protocol::Ethernet).fields(),
        LayerFields::Ethernet(EthernetFields { dst: 0, src: 0, ethertype: 0 })
    );
    assert_eq!(HeaderLayer::initial(Protocol::Ethernet).to_bytes(), vec![0u8; 14]);
    let mut ipv4 = vec![0u8; 20];
    ipv4[0] = 0x45;
    assert_eq!(HeaderLayer::initial(Protocol::Ipv4).to_bytes(), ipv4);
    let mut tcp = vec![0u8; 20];
    tcp[12] = 0x50;
    assert_eq!(HeaderLayer::initial(Protocol::Tcp).to_bytes(), tcp);
}

#[test]
fn header_rejects_fields_that_do_not_fit() {
    let too_wide = EthernetFields { dst: 0x1_0000_0000_0000, src: 0, ethertype: 0 };
    assert_eq!(HeaderLayer::new(LayerFields::Ethernet(too_wide)), Err(Error::InvalidField));
    let mut ipv4 = sample_ipv4();
    ipv4.version = 16;
    assert_eq!(HeaderLayer::new(LayerFields::Ipv4(ipv4)), Err(Error::InvalidField));
    let mut ipv4 = sample_ipv4();
    ipv4.fragment_offset = 8192;
    assert_eq!(HeaderLayer::new(LayerFields::Ipv4(ipv4)), Err(Error::InvalidField));
    let mut tcp = sample_tcp();
    tcp.reserved = 16;
    assert_eq!(HeaderLayer::new(LayerFields::Tcp(tcp)), Err(Error::InvalidField));
    let layer = HeaderLayer::new(LayerFields::Tcp(sample_tcp())).unwrap();
    assert_eq!(layer.fields(), LayerFields::Tcp(sample_tcp()));
    assert_eq!(layer.protocol(), Protocol::Tcp);
    assert_eq!(layer.len(), 20);
}

#[test]
fn set_field_by_name() {
    let mut layer = HeaderLayer::initial(Protocol::Ethernet);
    assert_eq!(layer.set_field("src", 0x0011_1111_1111), Ok(()));
    assert_eq!(layer.set_field("dst", 0x0006_0708_090a), Ok(()));
    assert_eq!(layer.set_field("ethertype", 0x0800), Ok(()));
    assert_eq!(layer.fields(), LayerFields::Ethernet(sample_ethernet()));
    assert_eq!(layer.get_field("src"), Ok(0x0011_1111_1111));
    assert_eq!(layer.get_field("dst"), Ok(0x0006_0708_090a));
    assert_eq!(layer.get_field("ethertype"), Ok(0x0800));
    assert_eq!(layer.to_bytes().len(), 14);
}

#[test]
fn set_field_fails_on_unknown_name_and_wide_value() {
    let mut layer = HeaderLayer::new(LayerFields::Ethernet(sample_ethernet())).unwrap();
    let before = layer;
    assert_eq!(layer.set_field("ttl", 1), Err(Error::InvalidField));
    assert_eq!(layer.set_field("Ethertype", 1), Err(Error::InvalidField));
    assert_eq!(layer.set_field("", 1), Err(Error::InvalidField));
    assert_eq!(layer.set_field("ethertype", 0x1_0000), Err(Error::InvalidField));
    assert_eq!(layer.set_field("dst", 0x1_0000_0000_0000), Err(Error::InvalidField));
    assert_eq!(layer.get_field("ttl"), Err(Error::InvalidField));
    assert_eq!(layer, before);
    assert_eq!(layer.set_field("ethertype", 0xFFFF), Ok(()));
    assert_eq!(layer.set_field("dst", 0xFFFF_FFFF_FFFF), Ok(()));
    assert_eq!(layer.field_max("dst"), Some(0xFFFF_FFFF_FFFF));
    assert_eq!(layer.field_max("ethertype"), Some(0xFFFF));
    assert_eq!(layer.field_max("nothing"), None);
}

#[test]
fn every_ipv4_field_is_set_and_read_by_its_name() {
    let names: [(&str, u64, u64); 12] = [
        ("version", 6, 15),
        ("ihl", 7, 15),
        ("tos", 0x2e, 0xFF),
        ("total_length", 1500, 0xFFFF),
        ("identification", 115, 0xFFFF),
        ("flags", 3, 7),
        ("fragment_offset", 8191, 8191),
        ("ttl", 64, 0xFF),
        ("protocol", 6, 0xFF),
        ("checksum", 0xBEEF, 0xFFFF),
        ("src", 0x0A0A_0A01, 0xFFFF_FFFF),
        ("dst", 0x0B0B_0B01, 0xFFFF_FFFF),
    ];
    let mut layer = HeaderLayer::initial(Protocol::Ipv4);
    for (name, value, max) in names {
        assert_eq!(layer.field_max(name), Some(max));
        assert_eq!(layer.set_field(name, max + 1), Err(Error::InvalidField));
        assert_eq!(layer.set_field(name, value), Ok(()));
    }
    for (name, value, _) in names {
        assert_eq!(layer.get_field(name), Ok(value));
    }
    assert_eq!(
        layer.fields(),
        LayerFields::Ipv4(Ipv4Fields {
            version: 6,
            ihl: 7,
            tos: 0x2e,
            total_length: 1500,
            identification: 115,
            flags: 3,
            fragment_offset: 8191,
            ttl: 64,
            protocol: 6,
            checksum: 0xBEEF,
            src: 0x0A0A_0A01,
            dst: 0x0B0B_0B01,
        })
    );
    assert_eq!(
        layer.to_bytes(),
        vec![
            0x67, 0x2e, 0x05, 0xdc, 0x00, 0x73, 0x7f, 0xff, 0x40, 0x06, 0xbe, 0xef, 0x0a, 0x0a,
            0x0a, 0x01, 0x0b, 0x0b, 0x0b, 0x01
        ]
    );
}

#[test]
fn every_tcp_field_is_set_and_read_by_its_name() {
    let names: [(&str, u64, u64); 10] = [
        ("srcport", 8888, 0xFFFF),
        ("dstport", 9090, 0xFFFF),
        ("seq", 100, 0xFFFF_FFFF),
        ("ack", 101, 0xFFFF_FFFF),
        ("data_offset", 5, 15),
        ("reserved", 0, 15),
        ("flags", 2, 0xFF),
        ("window", 5, 0xFFFF),
        ("checksum", 0xABCD, 0xFFFF),
        ("urgent_ptr", 7, 0xFFFF),
    ];
    let mut layer = HeaderLayer::initial(Protocol::Tcp);
    for (name, value, max) in names {
        assert_eq!(layer.field_max(name), Some(max));
        assert_eq!(layer.set_field(name, max + 1), Err(Error::InvalidField));
        assert_eq!(layer.set_field(name, value), Ok(()));
    }
    for (name, value, _) in names {
        assert_eq!(layer.get_field(name), Ok(value));
    }
    assert_eq!(layer.fields(), LayerFields::Tcp(sample_tcp()));
    assert_eq!(layer.set_field("src", 1), Err(Error::InvalidField));
}

#[test]
fn finalize_recomputes_the_ipv4_checksum_only() {
    let mut layer = HeaderLayer::new(LayerFields::Ipv4(sample_ipv4())).unwrap();
    layer.finalize();
    assert_eq!(layer.get_field("checksum"), Ok(0xb861));
    assert!(verify_checksum(&layer.to_bytes()));
    // a change leaves the checksum as it was set: nothing is computed unasked
    assert_eq!(layer.set_field("ttl", 63), Ok(()));
    assert_eq!(layer.get_field("checksum"), Ok(0xb861));
    assert!(!verify_checksum(&layer.to_bytes()));
    layer.finalize();
    assert_eq!(layer.get_field("checksum"), Ok(0xb961));
    assert!(verify_checksum(&layer.to_bytes()));

    let mut ethernet = HeaderLayer::new(LayerFields::Ethernet(sample_ethernet())).unwrap();
    ethernet.finalize();
    assert_eq!(ethernet.fields(), LayerFields::Ethernet(sample_ethernet()));
    let mut tcp = HeaderLayer::new(LayerFields::Tcp(sample_tcp())).unwrap();
    tcp.finalize();
    assert_eq!(tcp.fields(), LayerFields::Tcp(sample_tcp()));
}

#[test]
fn decode_reads_a_header_at_an_offset() {
    let mut bytes: Vec<u8> = vec![0xAA; 3];
    sample_tcp().encode(&mut bytes);
    let layer = HeaderLayer::decode(Protocol::Tcp, &bytes, 3).unwrap();
    assert_eq!(layer.fields(), LayerFields::Tcp(sample_tcp()));
    assert_eq!(HeaderLayer::decode(Protocol::Tcp, &bytes, 4), None);
    assert_eq!(HeaderLayer::decode(Protocol::Ethernet, &bytes, 9).map(|l| l.len()), Some(14));
    assert_eq!(HeaderLayer::decode(Protocol::Ethernet, &bytes, 10), None);
}

#[test]
fn fields_are_named_and_typed() {
    assert_eq!(EthernetField::from_name("dst"), Some(EthernetField::Dst));
    assert_eq!(EthernetField::from_name("src"), Some(EthernetField::Src));
    assert_eq!(EthernetField::from_name("ethertype"), Some(EthernetField::Ethertype));
    assert_eq!(EthernetField::from_name("ttl"), None);
    assert_eq!(EthernetField::Dst.largest(), 0xFFFF_FFFF_FFFF);
    assert_eq!(Ipv4Field::from_name("fragment_offset"), Some(Ipv4Field::FragmentOffset));
    assert_eq!(Ipv4Field::from_name("fragment"), None);
    assert_eq!(Ipv4Field::FragmentOffset.largest(), 8191);
    assert_eq!(Ipv4Field::Flags.largest(), 7);
    assert_eq!(TcpField::from_name("seq"), Some(TcpField::Sequence));
    assert_eq!(TcpField::from_name("ack"), Some(TcpField::Acknowledgment));
    assert_eq!(TcpField::from_name("urgent_ptr"), Some(TcpField::UrgentPtr));
    assert_eq!(TcpField::from_name("Seq"), None);
    assert_eq!(TcpField::Reserved.largest(), 15);

    let tcp = sample_tcp();
    assert_eq!(tcp.value(TcpField::Window), 5);
    assert_eq!(tcp.set(TcpField::Window, 0x1_0000), None);
    let changed = tcp.set(TcpField::Window, 0xFFFF).unwrap();
    assert_eq!(changed.window, 0xFFFF);
    assert_eq!(TcpFields { window: 5, ..changed }, tcp);
    assert_eq!(tcp.assign("window", 6).map(|t| t.window), Some(6));
    assert_eq!(tcp.assign("windows", 6), None);
    assert_eq!(tcp.field("dstport"), Some(9090));
    assert_eq!(tcp.field("port"), None);
    assert_eq!(TcpFields::field_max("flags"), Some(0xFF));

    let ipv4 = sample_ipv4();
    assert_eq!(ipv4.value(Ipv4Field::Src), 0xC0A8_0001);
    assert_eq!(ipv4.set(Ipv4Field::Version, 16), None);
    assert_eq!(ipv4.set(Ipv4Field::Version, 15).map(|f| f.version), Some(15));
    let ethernet = sample_ethernet();
    assert_eq!(ethernet.value(EthernetField::Src), 0x0011_1111_1111);
    assert_eq!(ethernet.set(EthernetField::Src, 1 << 48), None);
    assert!(ethernet.is_valid());
    assert!(!EthernetFields { src: 1 << 48, ..ethernet }.is_valid());
    assert!(ipv4.is_valid());
    assert!(!Ipv4Fields { flags: 8, ..ipv4 }.is_valid());
    assert!(tcp.is_valid());
    assert!(!TcpFields { data_offset: 16, ..tcp }.is_valid());
}

#[test]
fn a_header_is_recomputed_for_its_place() {
    let ip = sample_ipv4();
    // an IPv4 header counts itself and what follows it
    let done = ip.finalize_within(100);
    assert_eq!(done.total_length, 120);
    assert_eq!(done, Ipv4Fields { total_length: 120, ..ip }.finalize());
    let too_long = ip.finalize_within(65516);
    assert_eq!(too_long.total_length, ip.total_length);
    assert_eq!(too_long, ip.finalize());

    // a TCP checksum covers the addresses, the header and what follows
    let tcp = TcpFields { checksum: 0x1111, ..sample_tcp() };
    let done = tcp.finalize(0x0A0A_0A01, 0x0B0B_0B01, &[1, 2, 3, 4]);
    assert_eq!(TcpFields { checksum: 0x1111, ..done }, tcp);
    let mut covered: Vec<u8> = vec![0x0a, 0x0a, 0x0a, 0x01, 0x0b, 0x0b, 0x0b, 0x01, 0, 6, 0, 24];
    done.encode(&mut covered);
    covered.extend_from_slice(&[1, 2, 3, 4]);
    assert!(verify_checksum(&covered));
    assert_eq!(tcp.finalize(0, 0, &vec![0u8; 65516]), tcp);
    assert_ne!(tcp.finalize(0, 0, &vec![0u8; 65515]), tcp);

    // a header by itself
    let mut layer = HeaderLayer::new(LayerFields::Tcp(tcp)).unwrap();
    layer.finalize_within(None, &[1, 2, 3, 4]);
    assert_eq!(layer.fields(), LayerFields::Tcp(tcp));
    layer.finalize_within(Some(LayerFields::Ethernet(sample_ethernet())), &[1, 2, 3, 4]);
    assert_eq!(layer.fields(), LayerFields::Tcp(tcp));
    let front = Ipv4Fields { src: 0x0A0A_0A01, dst: 0x0B0B_0B01, ..ip };
    layer.finalize_within(Some(LayerFields::Ipv4(front)), &[1, 2, 3, 4]);
    assert_eq!(layer.fields(), LayerFields::Tcp(done));
}

#[test]
fn a_header_announces_what_follows_it() {
    let ethernet = HeaderLayer::new(LayerFields::Ethernet(sample_ethernet())).unwrap();
    assert_eq!(ethernet.announces(), Some(Protocol::Ipv4));
    assert_eq!(HeaderLayer::initial(Protocol::Ethernet).announces(), None);
    let udp = HeaderLayer::new(LayerFields::Ipv4(sample_ipv4())).unwrap();
    assert_eq!(udp.announces(), None);
    let mut ipv4 = udp;
    assert_eq!(ipv4.set_field("protocol", 6), Ok(()));
    assert_eq!(ipv4.announces(), Some(Protocol::Tcp));
    // with options the TCP header does not stand right behind the header
    assert_eq!(ipv4.set_field("ihl", 6), Ok(()));
    assert_eq!(ipv4.announces(), None);
    assert_eq!(HeaderLayer::initial(Protocol::Tcp).announces(), None);
}
