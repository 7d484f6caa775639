use dataplane::builder::HeaderSpec;
use dataplane::error::Error;
use dataplane::harness::{
    check_frame, produce, run_over_relay, verify_frame, wrap_round, Exchange, ExchangeAction,
    ExchangeEvent, ExchangeState, FieldTarget, Strategy,
};
use dataplane::relay::{Offer, Relay, Take};
use dataplane::stack::PacketStack;

fn packet_specs() -> Vec<HeaderSpec> {
    vec![
        HeaderSpec::new("Ethernet")
            .with("src", 0x0011_1111_1111)
            .with("dst", 0x0006_0708_090a)
            .with("ethertype", 0x0800),
        HeaderSpec::new("IPv4")
            .with("ihl", 5)
            .with("src", 0x0A0A_0A01)
            .with("dst", 0x0B0B_0B01)
            .with("tos", 0)
            .with("ttl", 64)
            .with("identification", 115)
            .with("fragment_offset", 0)
            .with("protocol", 6),
        HeaderSpec::new("TCP")
            .with("srcport", 8888)
            .with("dstport", 9090)
            .with("seq", 100)
            .with("ack", 101)
            .with("data_offset", 5)
            .with("reserved", 0)
            .with("flags", 2)
            .with("window", 5)
            .with("urgent_ptr", 0),
    ]
}

fn packet_payload() -> Vec<u8> {
    (0..46u8).collect()
}

fn ethertype() -> FieldTarget {
    FieldTarget { protocol: "Ethernet".to_string(), field: "ethertype".to_string() }
}

#[test]
fn packet_gen_test() {
    let mut relay = Relay::unbounded();
    let specs = packet_specs();
    let target = ethertype();
    let mut pkt = PacketStack::build(&specs, packet_payload()).unwrap();
    assert_eq!(pkt.to_bytes().len(), 100);

    let cnt: u64 = 100000;
    for strategy in [Strategy::Same, Strategy::New, Strategy::Clone, Strategy::UpdateClone] {
        for i in 0..cnt {
            let frame = produce(strategy, &mut pkt, &specs, &target, i % 0xFFFF).unwrap();
            assert!(matches!(relay.offer(frame), Offer::Accepted));
            match relay.take() {
                Take::Frame(observed) => assert!(pkt.compare_with_bytes(&observed)),
                other => panic!("the relay gave {:?}", other),
            }
        }
    }
    assert_eq!(
        pkt.get_layer("Ethernet").unwrap().get_field("ethertype"),
        Ok((cnt - 1) % 0xFFFF)
    );
}

#[test]
fn produce_says_what_each_strategy_yields() {
    let specs = packet_specs();
    let target = ethertype();
    let mut template = PacketStack::build(&specs, vec![1, 2]).unwrap();
    let baseline = template.to_bytes();

    for strategy in [Strategy::Same, Strategy::New, Strategy::Clone] {
        assert_eq!(produce(strategy, &mut template, &specs, &target, 0x1234), Ok(baseline.clone()));
        assert_eq!(template.to_bytes(), baseline);
    }
    // the value that stands already: every strategy agrees with the baseline
    assert_eq!(
        produce(Strategy::UpdateClone, &mut template, &specs, &target, 0x0800),
        Ok(baseline.clone())
    );
    // another value shows in the ethertype's bytes and stays in the template
    let updated = produce(Strategy::UpdateClone, &mut template, &specs, &target, 0x1234).unwrap();
    assert_eq!(&updated[..12], &baseline[..12]);
    assert_eq!(&updated[12..14], &[0x12, 0x34]);
    assert_eq!(&updated[14..], &baseline[14..]);
    assert_eq!(template.to_bytes(), updated);
    assert_eq!(produce(Strategy::Same, &mut template, &specs, &target, 0), Ok(updated.clone()));
    assert_eq!(produce(Strategy::Clone, &mut template, &specs, &target, 0), Ok(updated.clone()));
    // built anew, the packet is what the descriptions say, with the template's payload
    assert_eq!(produce(Strategy::New, &mut template, &specs, &target, 0), Ok(baseline));
}

#[test]
fn produce_fails_on_what_it_cannot_build_or_set() {
    let specs = packet_specs();
    let mut template = PacketStack::build(&specs, Vec::new()).unwrap();
    let before = template.to_bytes();
    let bad = vec![HeaderSpec::new("ARP")];
    assert_eq!(
        produce(Strategy::New, &mut template, &bad, &ethertype(), 0),
        Err(Error::MalformedStack)
    );
    assert_eq!(produce(Strategy::Same, &mut template, &bad, &ethertype(), 0), Ok(before.clone()));
    let absent = FieldTarget { protocol: "UDP".to_string(), field: "ethertype".to_string() };
    assert_eq!(
        produce(Strategy::UpdateClone, &mut template, &specs, &absent, 0),
        Err(Error::LayerNotFound)
    );
    let unknown = FieldTarget { protocol: "TCP".to_string(), field: "ethertype".to_string() };
    assert_eq!(
        produce(Strategy::UpdateClone, &mut template, &specs, &unknown, 0),
        Err(Error::InvalidField)
    );
    assert_eq!(
        produce(Strategy::UpdateClone, &mut template, &specs, &ethertype(), 0x1_0000),
        Err(Error::InvalidField)
    );
    assert_eq!(template.to_bytes(), before);
}

#[test]
fn an_observed_frame_is_verified_byte_for_byte() {
    let packet = PacketStack::build(&packet_specs(), packet_payload()).unwrap();
    let bytes = packet.to_bytes();
    assert_eq!(verify_frame(&packet, &bytes), Ok(()));
    assert_eq!(check_frame(&packet, &bytes), ExchangeEvent::Matched);
    let mut changed = bytes.clone();
    changed[99] ^= 0x80;
    assert_eq!(verify_frame(&packet, &changed), Err(Error::VerificationMismatch));
    assert_eq!(check_frame(&packet, &changed), ExchangeEvent::Mismatched);
    assert_eq!(verify_frame(&packet, &bytes[..99]), Err(Error::VerificationMismatch));
    assert_eq!(verify_frame(&packet, &[]), Err(Error::VerificationMismatch));
}

#[test]
fn exchange_of_a_hundred_frames_runs_to_the_end() {
    let mut exchange = Exchange::new(100);
    let mut sent = 0u64;
    let mut received = 0u64;
    loop {
        match exchange.action() {
            ExchangeAction::Send => {
                sent += 1;
                assert_eq!(exchange.current(), ExchangeState::Sending { done: received });
                assert_eq!(exchange.step(ExchangeEvent::Sent), ExchangeAction::Receive);
            }
            ExchangeAction::Receive => {
                assert_eq!(exchange.current(), ExchangeState::Awaiting { done: received });
                received += 1;
                exchange.step(ExchangeEvent::Matched);
            }
            ExchangeAction::Finish => break,
            ExchangeAction::Abort { error } => panic!("aborted with {:?}", error),
        }
    }
    assert_eq!((sent, received), (100, 100));
    assert_eq!(exchange.current(), ExchangeState::Finished);
    assert_eq!(exchange.step(ExchangeEvent::Sent), ExchangeAction::Finish);
    assert_eq!(exchange.step(ExchangeEvent::Mismatched), ExchangeAction::Finish);
}

#[test]
fn exchange_of_no_frames_is_finished_at_once() {
    let exchange = Exchange::new(0);
    assert_eq!(exchange.action(), ExchangeAction::Finish);
    assert_eq!(exchange.current(), ExchangeState::Finished);
    assert_eq!(Exchange::new(1).action(), ExchangeAction::Send);
}

#[test]
fn exchange_stops_on_the_first_failure() {
    let mut exchange = Exchange::new(3);
    assert_eq!(
        exchange.step(ExchangeEvent::SendFailed),
        ExchangeAction::Abort { error: Error::WriteError }
    );
    assert_eq!(
        exchange.step(ExchangeEvent::Sent),
        ExchangeAction::Abort { error: Error::WriteError }
    );

    let mut exchange = Exchange::new(3);
    exchange.step(ExchangeEvent::Sent);
    assert_eq!(exchange.step(ExchangeEvent::Matched), ExchangeAction::Send);
    exchange.step(ExchangeEvent::Sent);
    assert_eq!(
        exchange.step(ExchangeEvent::Mismatched),
        ExchangeAction::Abort { error: Error::VerificationMismatch }
    );
    assert_eq!(
        exchange.current(),
        ExchangeState::Failed { error: Error::VerificationMismatch }
    );
    assert_eq!(
        exchange.step(ExchangeEvent::Matched),
        ExchangeAction::Abort { error: Error::VerificationMismatch }
    );

    let mut exchange = Exchange::new(3);
    exchange.step(ExchangeEvent::Sent);
    assert_eq!(
        exchange.step(ExchangeEvent::ReadFailed),
        ExchangeAction::Abort { error: Error::ReadError }
    );
}

#[test]
fn exchange_ignores_events_out_of_turn() {
    let mut exchange = Exchange::new(2);
    assert_eq!(exchange.step(ExchangeEvent::Matched), ExchangeAction::Send);
    assert_eq!(exchange.step(ExchangeEvent::ReadFailed), ExchangeAction::Send);
    assert_eq!(exchange.current(), ExchangeState::Sending { done: 0 });
    assert_eq!(exchange.step(ExchangeEvent::Sent), ExchangeAction::Receive);
    assert_eq!(exchange.step(ExchangeEvent::Sent), ExchangeAction::Receive);
    assert_eq!(exchange.step(ExchangeEvent::SendFailed), ExchangeAction::Receive);
    assert_eq!(exchange.current(), ExchangeState::Awaiting { done: 0 });
}

#[test]
fn round_numbers_wrap_into_the_field() {
    assert_eq!(wrap_round(0, 0xFFFF), 0);
    assert_eq!(wrap_round(0xFFFF, 0xFFFF), 0xFFFF);
    assert_eq!(wrap_round(0x1_0000, 0xFFFF), 0);
    assert_eq!(wrap_round(0x1_2345, 0xFFFF), 0x2345);
    assert_eq!(wrap_round(17, 15), 1);
    assert_eq!(wrap_round(u64::MAX, u64::MAX), u64::MAX);
    assert_eq!(wrap_round(5, 0), 0);
}

#[test]
fn an_exchange_over_the_relay_verifies_every_frame() {
    let specs = packet_specs();
    for strategy in [Strategy::Same, Strategy::New, Strategy::Clone, Strategy::UpdateClone] {
        assert_eq!(
            run_over_relay(strategy, &specs, packet_payload(), &ethertype(), 1000),
            Ok(1000)
        );
        assert_eq!(run_over_relay(strategy, &specs, Vec::new(), &ethertype(), 0), Ok(0));
    }
    // wraps past the field's range
    assert_eq!(
        run_over_relay(Strategy::UpdateClone, &specs, Vec::new(), &ethertype(), 70000),
        Ok(70000)
    );
}

#[test]
fn an_exchange_over_the_relay_fails_on_what_it_is_given_only() {
    let specs = packet_specs();
    let bad = vec![HeaderSpec::new("Ethernet").with("ethertype", 0x1_0000)];
    for strategy in [Strategy::Same, Strategy::New, Strategy::Clone, Strategy::UpdateClone] {
        assert_eq!(
            run_over_relay(strategy, &bad, Vec::new(), &ethertype(), 0),
            Err(Error::MalformedStack)
        );
    }
    let absent = FieldTarget { protocol: "ARP".to_string(), field: "ethertype".to_string() };
    let unknown = FieldTarget { protocol: "IPv4".to_string(), field: "ethertype".to_string() };
    assert_eq!(
        run_over_relay(Strategy::UpdateClone, &specs, Vec::new(), &absent, 5),
        Err(Error::LayerNotFound)
    );
    assert_eq!(
        run_over_relay(Strategy::UpdateClone, &specs, Vec::new(), &unknown, 5),
        Err(Error::InvalidField)
    );
    // the target is looked at only where a frame is updated
    assert_eq!(run_over_relay(Strategy::UpdateClone, &specs, Vec::new(), &absent, 0), Ok(0));
    assert_eq!(run_over_relay(Strategy::Clone, &specs, Vec::new(), &absent, 5), Ok(5));
}
