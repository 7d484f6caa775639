use dataplane::builder::HeaderSpec;
use dataplane::error::Error;
use dataplane::ethernet::EthernetFields;
use dataplane::ipv4::Ipv4Fields;
use dataplane::layer::{HeaderLayer, LayerFields, Protocol};
use dataplane::stack::PacketStack;
use dataplane::tcp::TcpFields;

const MAC_A: u64 = 0x0011_1111_1111;
const MAC_B: u64 = 0x0006_0708_090a;
const IP_A: u64 = 0x0A0A_0A01;
const IP_B: u64 = 0x0B0B_0B01;

fn scenario_specs() -> Vec<HeaderSpec> {
    vec![
        HeaderSpec::new("Ethernet").with("src", MAC_A).with("dst", MAC_B),
        HeaderSpec::new("IPv4").with("src", IP_A).with("dst", IP_B).with("ttl", 64),
        HeaderSpec::new("TCP")
            .with("srcport", 8888)
            .with("dstport", 9090)
            .with("seq", 100)
            .with("ack", 101)
            .with("window", 5),
    ]
}

fn scenario_bytes() -> Vec<u8> {
    vec![
        // Ethernet
        0x00, 0x06, 0x07, 0x08, 0x09, 0x0a, 0x00, 0x11, 0x11, 0x11, 0x11, 0x11, 0x00, 0x00,
        // IPv4
        0x45, 0x00, 0x00, 0x00, 0x00, 0x00, 0x00, 0x00, 0x40, 0x00, 0x00, 0x00, 0x0a, 0x0a, 0x0a,
        0x01, 0x0b, 0x0b, 0x0b, 0x01,
        // TCP
        0x22, 0xb8, 0x23, 0x82, 0x00, 0x00, 0x00, 0x64, 0x00, 0x00, 0x00, 0x65, 0x50, 0x00, 0x00,
        0x05, 0x00, 0x00, 0x00, 0x00,
    ]
}

fn tcp_packet(payload: Vec<u8>) -> PacketStack {
    let specs = vec![
        HeaderSpec::new("Ethernet").with("src", MAC_A).with("dst", MAC_B).with("ethertype", 0x0800),
        HeaderSpec::new("IPv4")
            .with("src", IP_A)
            .with("dst", IP_B)
            .with("ttl", 64)
            .with("identification", 115)
            .with("protocol", 6),
        HeaderSpec::new("TCP")
            .with("srcport", 8888)
            .with("dstport", 9090)
            .with("seq", 100)
            .with("ack", 101)
            .with("flags", 2)
            .with("window", 5),
    ];
    PacketStack::build(&specs, payload).unwrap()
}

fn layer_fields(stack: &PacketStack, name: &str) -> LayerFields {
    stack.get_layer(name).unwrap().fields()
}

#[test]
fn concrete_scenario() {
    let mut stack = PacketStack::build(&scenario_specs(), Vec::new()).unwrap();
    let first = stack.to_bytes();
    assert_eq!(first.len(), 14 + 20 + 20);
    assert_eq!(first, scenario_bytes());

    let ethernet = stack.get_layer_mut("Ethernet").unwrap();
    assert_eq!(ethernet.set_field("ethertype", 0x0800), Ok(()));
    let second = stack.to_bytes();
    assert_eq!(second.len(), first.len());
    for i in 0..first.len() {
        if i == 12 || i == 13 {
            continue;
        }
        assert_eq!(first[i], second[i], "byte {} changed", i);
    }
    assert_eq!(&first[12..14], &[0x00, 0x00]);
    assert_eq!(&second[12..14], &[0x08, 0x00]);
}

#[test]
fn build_takes_headers_in_the_order_given() {
    let stack = PacketStack::build(&scenario_specs(), vec![1, 2, 3]).unwrap();
    assert_eq!(stack.layer_count(), 3);
    assert_eq!(stack.payload(), &[1, 2, 3]);
    assert_eq!(
        layer_fields(&stack, "Ethernet"),
        LayerFields::Ethernet(EthernetFields { dst: MAC_B, src: MAC_A, ethertype: 0 })
    );
    let mut bytes = scenario_bytes();
    bytes.extend_from_slice(&[1, 2, 3]);
    assert_eq!(stack.to_bytes(), bytes);

    // any order is a stack; the bytes follow the order
    let specs = vec![HeaderSpec::new("TCP"), HeaderSpec::new("Ethernet")];
    let odd = PacketStack::build(&specs, vec![9]).unwrap();
    let bytes = odd.to_bytes();
    assert_eq!(bytes.len(), 20 + 14 + 1);
    assert_eq!(bytes[12], 0x50);
    assert_eq!(bytes[34], 9);

    let empty = PacketStack::build(&[], vec![7, 8]).unwrap();
    assert_eq!(empty.layer_count(), 0);
    assert_eq!(empty.to_bytes(), vec![7, 8]);
}

#[test]
fn build_sets_fields_in_order_so_the_last_value_stands() {
    let specs = vec![HeaderSpec::new("IPv4").with("ttl", 1).with("ttl", 2)];
    let stack = PacketStack::build(&specs, Vec::new()).unwrap();
    assert_eq!(stack.get_layer("IPv4").unwrap().get_field("ttl"), Ok(2));
}

#[test]
fn build_fails_on_a_malformed_description() {
    let unknown = vec![HeaderSpec::new("Ethernet"), HeaderSpec::new("UDP")];
    assert_eq!(PacketStack::build(&unknown, Vec::new()).err(), Some(Error::MalformedStack));
    let lower = vec![HeaderSpec::new("ethernet")];
    assert_eq!(PacketStack::build(&lower, Vec::new()).err(), Some(Error::MalformedStack));
    let no_such_field = vec![HeaderSpec::new("Ethernet").with("ttl", 64)];
    assert_eq!(PacketStack::build(&no_such_field, Vec::new()).err(), Some(Error::MalformedStack));
    let too_wide = vec![HeaderSpec::new("IPv4").with("ttl", 256)];
    assert_eq!(PacketStack::build(&too_wide, Vec::new()).err(), Some(Error::MalformedStack));
    let bad_then_good = vec![HeaderSpec::new("IPv4").with("ttl", 256).with("ttl", 1)];
    assert_eq!(PacketStack::build(&bad_then_good, Vec::new()).err(), Some(Error::MalformedStack));
    assert_eq!(HeaderSpec::new("UDP").layer(), None);
    assert_eq!(
        HeaderSpec::new("TCP").with("window", 5).layer().map(|l| l.get_field("window")),
        Some(Ok(5))
    );
}

#[test]
fn lookup_finds_the_first_layer_of_a_kind() {
    let specs = vec![
        HeaderSpec::new("IPv4").with("ttl", 1),
        HeaderSpec::new("Ethernet"),
        HeaderSpec::new("IPv4").with("ttl", 2),
    ];
    let mut stack = PacketStack::build(&specs, Vec::new()).unwrap();
    assert_eq!(stack.get_layer("IPv4").unwrap().get_field("ttl"), Ok(1));
    assert_eq!(stack.get_layer_mut("IPv4").unwrap().set_field("ttl", 9), Ok(()));
    let bytes = stack.to_bytes();
    assert_eq!(bytes[8], 9);
    assert_eq!(bytes[20 + 14 + 8], 2);
}

#[test]
fn lookup_fails_where_the_layer_is_absent() {
    let specs = vec![HeaderSpec::new("Ethernet"), HeaderSpec::new("IPv4")];
    let mut stack = PacketStack::build(&specs, vec![5]).unwrap();
    let before = stack.to_bytes();
    assert_eq!(stack.get_layer_mut("TCP").err(), Some(Error::LayerNotFound));
    assert_eq!(stack.get_layer_mut("UDP").err(), Some(Error::LayerNotFound));
    assert_eq!(stack.get_layer_mut("").err(), Some(Error::LayerNotFound));
    assert_eq!(stack.get_layer("TCP").err(), Some(Error::LayerNotFound));
    assert_eq!(stack.set_field("TCP", "window", 1), Err(Error::LayerNotFound));
    assert_eq!(stack.set_field("IPv4", "window", 1), Err(Error::InvalidField));
    assert_eq!(stack.set_field("IPv4", "ttl", 256), Err(Error::InvalidField));
    assert_eq!(stack.to_bytes(), before);
    assert_eq!(stack.set_field("IPv4", "ttl", 255), Ok(()));
    assert_eq!(stack.to_bytes()[14 + 8], 255);
}

#[test]
fn layer_lookup_changes_the_tcp_region_only() {
    let mut stack = PacketStack::build(&scenario_specs(), vec![0xDE, 0xAD]).unwrap();
    let before = stack.to_bytes();
    let tcp = stack.get_layer_mut("TCP").unwrap();
    assert_eq!(tcp.protocol(), Protocol::Tcp);
    assert_eq!(tcp.set_field("seq", 0xFFFF_FFFF), Ok(()));
    assert_eq!(tcp.set_field("window", 0x1234), Ok(()));
    assert_eq!(tcp.set_field("flags", 0x12), Ok(()));
    let after = stack.to_bytes();
    assert_eq!(after.len(), before.len());
    assert_eq!(&after[..34], &before[..34]);
    assert_eq!(&after[54..], &before[54..]);
    assert_ne!(&after[34..54], &before[34..54]);
    assert_eq!(
        &after[34..54],
        &[
            0x22, 0xb8, 0x23, 0x82, 0xff, 0xff, 0xff, 0xff, 0x00, 0x00, 0x00, 0x65, 0x50, 0x12,
            0x12, 0x34, 0x00, 0x00, 0x00, 0x00
        ]
    );
}

#[test]
fn a_layer_handle_can_replace_the_whole_header() {
    let mut stack = PacketStack::build(&scenario_specs(), vec![1]).unwrap();
    let replacement = HeaderLayer::new(LayerFields::Ipv4(Ipv4Fields {
        version: 4,
        ihl: 5,
        tos: 1,
        total_length: 2,
        identification: 3,
        flags: 4,
        fragment_offset: 5,
        ttl: 6,
        protocol: 7,
        checksum: 8,
        src: 9,
        dst: 10,
    }))
    .unwrap();
    *stack.get_layer_mut("IPv4").unwrap() = replacement;
    let bytes = stack.to_bytes();
    assert_eq!(&bytes[..14], &scenario_bytes()[..14]);
    assert_eq!(&bytes[14..34], replacement.to_bytes().as_slice());
    assert_eq!(&bytes[34..54], &scenario_bytes()[34..]);
}

#[test]
fn mutation_of_a_clone_leaves_the_packet_alone() {
    let packet = tcp_packet(vec![1, 2, 3, 4]);
    let before = packet.to_bytes();
    let mut copy = packet.clone();
    assert_eq!(copy.to_bytes(), before);
    assert_eq!(copy.set_field("Ethernet", "ethertype", 0x86DD), Ok(()));
    assert_eq!(copy.set_field("IPv4", "ttl", 1), Ok(()));
    assert_eq!(copy.get_layer_mut("TCP").unwrap().set_field("seq", 7), Ok(()));
    assert_ne!(copy.to_bytes(), before);
    assert_eq!(packet.to_bytes(), before);
    assert_eq!(packet.get_layer("IPv4").unwrap().get_field("ttl"), Ok(64));
    // and the other way round
    let mut packet = packet;
    let copy_bytes = copy.to_bytes();
    assert_eq!(packet.set_field("TCP", "window", 0), Ok(()));
    assert_eq!(copy.to_bytes(), copy_bytes);
}

#[test]
fn compare_is_exact() {
    let stack = PacketStack::build(&scenario_specs(), vec![1, 2]).unwrap();
    let bytes = stack.to_bytes();
    assert!(stack.compare_with_bytes(&bytes));
    assert!(!stack.compare_with_bytes(&bytes[..bytes.len() - 1]));
    let mut longer = bytes.clone();
    longer.push(0);
    assert!(!stack.compare_with_bytes(&longer));
    for i in 0..bytes.len() {
        let mut changed = bytes.clone();
        changed[i] ^= 1;
        assert!(!stack.compare_with_bytes(&changed), "byte {}", i);
    }
    assert!(!stack.compare_with_bytes(&[]));
    let empty = PacketStack::new(Vec::new(), Vec::new());
    assert!(empty.compare_with_bytes(&[]));
    assert!(!empty.compare_with_bytes(&[0]));
}

#[test]
fn round_trip_of_a_tcp_packet_is_exact() {
    let packet = tcp_packet(vec![0x10, 0x20, 0x30]);
    let bytes = packet.to_bytes();
    let read = PacketStack::from_bytes(&bytes);
    assert_eq!(read.to_bytes(), bytes);
    assert_eq!(read.layer_count(), 3);
    assert_eq!(read.payload(), &[0x10, 0x20, 0x30]);
    for name in ["Ethernet", "IPv4", "TCP"] {
        assert_eq!(layer_fields(&read, name), layer_fields(&packet, name));
    }
    assert_eq!(
        layer_fields(&read, "TCP"),
        LayerFields::Tcp(TcpFields {
            srcport: 8888,
            dstport: 9090,
            seq: 100,
            ack: 101,
            data_offset: 5,
            reserved: 0,
            flags: 2,
            window: 5,
            checksum: 0,
            urgent_ptr: 0,
        })
    );
}

#[test]
fn round_trip_keeps_the_bytes_of_any_stack() {
    // the ethertype announces nothing: what follows is payload on reading
    let stack = PacketStack::build(&scenario_specs(), vec![7; 5]).unwrap();
    let bytes = stack.to_bytes();
    let read = PacketStack::from_bytes(&bytes);
    assert_eq!(read.layer_count(), 1);
    assert_eq!(read.payload().len(), 45);
    assert_eq!(read.to_bytes(), bytes);

    // headers in an order that no frame has
    let specs = vec![HeaderSpec::new("TCP"), HeaderSpec::new("IPv4"), HeaderSpec::new("TCP")];
    let odd = PacketStack::build(&specs, vec![1, 2, 3]).unwrap();
    let bytes = odd.to_bytes();
    assert_eq!(PacketStack::from_bytes(&bytes).to_bytes(), bytes);
}

#[test]
fn from_bytes_reads_what_the_frame_holds() {
    for len in [0usize, 1, 13] {
        let raw = vec![0xAB; len];
        let read = PacketStack::from_bytes(&raw);
        assert_eq!(read.layer_count(), 0);
        assert_eq!(read.payload(), raw.as_slice());
        assert_eq!(read.to_bytes(), raw);
    }
    let full = tcp_packet(vec![0x55; 4]).to_bytes();
    // Ethernet only: the rest is too short for an IPv4 header
    let read = PacketStack::from_bytes(&full[..33]);
    assert_eq!(read.layer_count(), 1);
    assert_eq!(read.payload().len(), 19);
    assert_eq!(read.to_bytes(), &full[..33]);
    // Ethernet and IPv4: the rest is too short for a TCP header
    let read = PacketStack::from_bytes(&full[..53]);
    assert_eq!(read.layer_count(), 2);
    assert_eq!(read.payload().len(), 19);
    assert_eq!(read.to_bytes(), &full[..53]);
    // exactly the three headers
    let read = PacketStack::from_bytes(&full[..54]);
    assert_eq!(read.layer_count(), 3);
    assert_eq!(read.payload().len(), 0);
    // an IPv4 header with options is followed by payload, not by TCP
    let mut options = full.clone();
    options[14] = 0x46;
    let read = PacketStack::from_bytes(&options);
    assert_eq!(read.layer_count(), 2);
    assert_eq!(read.get_layer("IPv4").unwrap().get_field("ihl"), Ok(6));
    assert_eq!(read.to_bytes(), options);
    // another protocol behind IPv4
    let mut udp = full.clone();
    udp[14 + 9] = 17;
    let read = PacketStack::from_bytes(&udp);
    assert_eq!(read.layer_count(), 2);
    assert_eq!(read.to_bytes(), udp);
}

#[test]
fn round_trip_of_every_single_byte_value() {
    for value in 0..=255u8 {
        let raw = vec![value; 60];
        assert_eq!(PacketStack::from_bytes(&raw).to_bytes(), raw);
    }
}

#[test]
fn strategies_give_the_same_bytes() {
    let mut with_ethertype = scenario_specs();
    with_ethertype[0] = HeaderSpec::new("Ethernet")
        .with("src", MAC_A)
        .with("dst", MAC_B)
        .with("ethertype", 0x0800);
    let baseline = PacketStack::build(&with_ethertype, vec![1, 2, 3]).unwrap();
    let expected = baseline.to_bytes();

    // built anew
    let rebuilt = PacketStack::build(&with_ethertype, vec![1, 2, 3]).unwrap();
    assert_eq!(rebuilt.to_bytes(), expected);
    // a clone
    assert_eq!(baseline.clone().to_bytes(), expected);
    // a clone with the field set to the value it has
    let mut same = baseline.clone();
    assert_eq!(same.set_field("Ethernet", "ethertype", 0x0800), Ok(()));
    assert_eq!(same.to_bytes(), expected);
    // a clone of a packet built without the field, with the field set afterwards
    let mut later = PacketStack::build(&scenario_specs(), vec![1, 2, 3]).unwrap().clone();
    assert_ne!(later.to_bytes(), expected);
    assert_eq!(later.set_field("Ethernet", "ethertype", 0x0800), Ok(()));
    assert_eq!(later.to_bytes(), expected);
}

#[test]
fn new_takes_layers_as_given() {
    let ethernet = HeaderLayer::initial(Protocol::Ethernet);
    let tcp = HeaderLayer::initial(Protocol::Tcp);
    let stack = PacketStack::new(vec![tcp, ethernet], vec![0xFF]);
    assert_eq!(stack.layer_count(), 2);
    let bytes = stack.to_bytes();
    assert_eq!(bytes.len(), 35);
    assert_eq!(bytes[12], 0x50);
    assert_eq!(bytes[34], 0xFF);
}

fn hex(text: &str) -> Vec<u8> {
    let digits: Vec<u8> = text.bytes().map(|c| (c as char).to_digit(16).unwrap() as u8).collect();
    digits.chunks(2).map(|pair| pair[0] * 16 + pair[1]).collect()
}

#[test]
fn finalize_recomputes_lengths_and_checksums() {
    let mut packet = tcp_packet(vec![0x10, 0x20, 0x30]);
    let stale = packet.to_bytes();
    packet.finalize();
    let bytes = packet.to_bytes();
    assert_eq!(bytes, hex(&finalized_hex()));
    assert_eq!(packet.get_layer("IPv4").unwrap().get_field("total_length"), Ok(43));
    assert_eq!(packet.get_layer("IPv4").unwrap().get_field("checksum"), Ok(0x5044));
    assert_eq!(packet.get_layer("TCP").unwrap().get_field("checksum"), Ok(0xfea0));
    // nothing else has changed
    for i in 0..bytes.len() {
        if [16, 17, 24, 25, 50, 51].contains(&i) {
            continue;
        }
        assert_eq!(bytes[i], stale[i], "byte {}", i);
    }
    // the IPv4 header verifies by itself
    assert!(dataplane::checksum::verify_checksum(&bytes[14..34]));
    // once more changes nothing
    packet.finalize();
    assert_eq!(packet.to_bytes(), bytes);
    // and what was read back is the same packet
    let mut read = PacketStack::from_bytes(&bytes);
    read.finalize();
    assert_eq!(read.to_bytes(), bytes);
}

fn finalized_hex() -> String {
    [
        "00060708090a0011111111110800",
        "4500002b00730000400650440a0a0a010b0b0b01",
        "22b82382000000640000006550020005fea00000",
        "102030",
    ]
    .concat()
}

#[test]
fn finalize_follows_a_change() {
    let mut packet = tcp_packet(vec![1, 2, 3, 4]);
    packet.finalize();
    assert_eq!(packet.get_layer("TCP").unwrap().get_field("checksum"), Ok(0x3aba));
    assert_eq!(packet.get_layer("IPv4").unwrap().get_field("total_length"), Ok(44));
    assert_eq!(packet.set_field("TCP", "seq", 101), Ok(()));
    // the checksum is as it was set until it is asked for again
    assert_eq!(packet.get_layer("TCP").unwrap().get_field("checksum"), Ok(0x3aba));
    packet.finalize();
    assert_eq!(packet.get_layer("TCP").unwrap().get_field("checksum"), Ok(0x3ab9));
}

#[test]
fn finalize_leaves_alone_what_has_nothing_to_recompute() {
    // a TCP header without an IPv4 header in front has no addresses to cover
    let specs = vec![HeaderSpec::new("Ethernet"), HeaderSpec::new("TCP").with("checksum", 0x1234)];
    let mut packet = PacketStack::build(&specs, vec![1, 2, 3]).unwrap();
    let before = packet.to_bytes();
    packet.finalize();
    assert_eq!(packet.to_bytes(), before);

    let mut empty = PacketStack::new(Vec::new(), vec![1]);
    empty.finalize();
    assert_eq!(empty.to_bytes(), vec![1]);
}

#[test]
fn finalize_keeps_a_length_that_does_not_fit() {
    let specs = vec![
        HeaderSpec::new("IPv4").with("total_length", 7).with("protocol", 6),
        HeaderSpec::new("TCP").with("checksum", 0x4321),
    ];
    // 20 + 20 + 65496 = 65536 bytes from the IPv4 header on: one too many
    let mut packet = PacketStack::build(&specs, vec![0; 65496]).unwrap();
    packet.finalize();
    assert_eq!(packet.get_layer("IPv4").unwrap().get_field("total_length"), Ok(7));
    assert!(dataplane::checksum::verify_checksum(&packet.to_bytes()[..20]));
    // the TCP segment is 65516 bytes and still fits
    assert_ne!(packet.get_layer("TCP").unwrap().get_field("checksum"), Ok(0x4321));

    // 20 + 65516 = 65536 bytes from the TCP header on: one too many
    let mut packet = PacketStack::build(&specs, vec![0; 65516]).unwrap();
    packet.finalize();
    assert_eq!(packet.get_layer("TCP").unwrap().get_field("checksum"), Ok(0x4321));
    assert_eq!(packet.get_layer("IPv4").unwrap().get_field("total_length"), Ok(7));

    // the longest that fits
    let mut packet = PacketStack::build(&specs, vec![0; 65495]).unwrap();
    packet.finalize();
    assert_eq!(packet.get_layer("IPv4").unwrap().get_field("total_length"), Ok(65535));
}
