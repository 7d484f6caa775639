use dataplane::relay::{Offer, Relay, Take};

fn frame(n: u8) -> Vec<u8> {
    vec![n, n.wrapping_add(1), n.wrapping_add(2)]
}

fn taken(relay: &mut Relay) -> Option<Vec<u8>> {
    match relay.take() {
        Take::Frame(frame) => Some(frame),
        _ => None,
    }
}

#[test]
fn relay_hands_frames_out_in_the_order_sent() {
    let mut relay = Relay::unbounded();
    for n in 0..100u8 {
        assert!(matches!(relay.offer(frame(n)), Offer::Accepted));
    }
    assert_eq!(relay.len(), 100);
    for n in 0..100u8 {
        assert_eq!(taken(&mut relay), Some(frame(n)));
    }
    assert_eq!(relay.len(), 0);
    assert!(matches!(relay.take(), Take::Empty));
}

#[test]
fn relay_keeps_order_when_sends_and_receives_alternate() {
    let mut relay = Relay::unbounded();
    let mut next_out = 0u8;
    for n in 0..60u8 {
        assert!(matches!(relay.offer(frame(n)), Offer::Accepted));
        if n % 3 == 2 {
            for _ in 0..2 {
                assert_eq!(taken(&mut relay), Some(frame(next_out)));
                next_out += 1;
            }
        }
    }
    while let Some(out) = taken(&mut relay) {
        assert_eq!(out, frame(next_out));
        next_out += 1;
    }
    assert_eq!(next_out, 60);
}

#[test]
fn a_bounded_relay_hands_back_what_it_has_no_room_for() {
    let mut relay = Relay::bounded(2);
    assert!(matches!(relay.offer(frame(1)), Offer::Accepted));
    assert!(matches!(relay.offer(frame(2)), Offer::Accepted));
    match relay.offer(frame(3)) {
        Offer::Full(back) => assert_eq!(back, frame(3)),
        other => panic!("expected Full, got {:?}", other),
    }
    assert_eq!(relay.len(), 2);
    assert_eq!(taken(&mut relay), Some(frame(1)));
    assert!(matches!(relay.offer(frame(3)), Offer::Accepted));
    assert_eq!(taken(&mut relay), Some(frame(2)));
    assert_eq!(taken(&mut relay), Some(frame(3)));
    assert!(matches!(relay.take(), Take::Empty));

    let mut none = Relay::bounded(0);
    assert!(matches!(none.offer(frame(1)), Offer::Full(_)));
    assert_eq!(none.len(), 0);
}

#[test]
fn a_closed_relay_drains_and_then_says_closed() {
    let mut relay = Relay::unbounded();
    assert!(!relay.is_closed());
    assert!(matches!(relay.offer(frame(1)), Offer::Accepted));
    assert!(matches!(relay.offer(frame(2)), Offer::Accepted));
    relay.close();
    assert!(relay.is_closed());
    match relay.offer(frame(3)) {
        Offer::Closed(back) => assert_eq!(back, frame(3)),
        other => panic!("expected Closed, got {:?}", other),
    }
    assert_eq!(taken(&mut relay), Some(frame(1)));
    assert_eq!(taken(&mut relay), Some(frame(2)));
    assert!(matches!(relay.take(), Take::Closed));
    assert!(matches!(relay.take(), Take::Closed));

    // closed wins over full
    let mut bounded = Relay::bounded(1);
    assert!(matches!(bounded.offer(frame(1)), Offer::Accepted));
    bounded.close();
    assert!(matches!(bounded.offer(frame(2)), Offer::Closed(_)));
}
