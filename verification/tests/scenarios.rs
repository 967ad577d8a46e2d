use signature_accumulator::{
    content_hash, Digest256, PublicInfo, RoutingMessage, Signature, SignatureAccumulator,
    SignedMessage, ACCUMULATION_TIMEOUT_MILLIS, ACCUMULATION_TIMEOUT_SECS,
};

fn peer(n: u8) -> PublicInfo {
    PublicInfo::new([n; 32])
}

fn sig(n: u8) -> Signature {
    Signature::new([n; 64])
}

fn peers(count: u8) -> Vec<PublicInfo> {
    (1..=count).map(peer).collect()
}

fn content(tag: u8) -> RoutingMessage {
    RoutingMessage::new([1; 32], [2; 32], vec![tag, tag, tag])
}

fn hash_of(msg: &RoutingMessage) -> Digest256 {
    content_hash(msg).expect("content can be encoded")
}

#[test]
fn window_is_thirty_seconds() {
    assert_eq!(ACCUMULATION_TIMEOUT_SECS, 30);
    assert_eq!(ACCUMULATION_TIMEOUT_MILLIS, 30_000);
    assert_eq!(ACCUMULATION_TIMEOUT_MILLIS, ACCUMULATION_TIMEOUT_SECS * 1000);
}

#[test]
fn eight_signatures_then_message_completes_at_once() {
    let mut acc = SignatureAccumulator::new();
    let routing = content(7);
    let hash = hash_of(&routing);
    for n in 1..=8u8 {
        assert!(acc.add_signature_at(u64::from(n), 9, hash, sig(n), peer(n)).is_none());
    }
    assert_eq!(acc.pending_signature_entries(), 1);
    assert_eq!(acc.pending_signatures(&hash), 8);
    assert_eq!(acc.pending_messages(), 0);

    let msg = SignedMessage::new(routing.clone(), peers(9));
    let (returned, route) = acc.add_message_at(20, msg, 9, 5).expect("eight of nine is a quorum");
    assert_eq!(route, 5);
    assert_eq!(returned.routing_message(), &routing);
    assert_eq!(returned.signature_count(), 8);
    for n in 1..=8u8 {
        assert!(returned.signed_by(&peer(n)));
    }
    assert!(!returned.signed_by(&peer(9)));
    assert_eq!(acc.pending_signature_entries(), 0);
    assert_eq!(acc.pending_messages(), 0);
}

#[test]
fn message_then_signatures_completes_on_the_seventh() {
    let mut acc = SignatureAccumulator::new();
    let routing = content(8);
    let hash = hash_of(&routing);
    let msg = SignedMessage::new(routing.clone(), peers(9));
    assert!(acc.add_message_at(0, msg, 9, 3).is_none());
    assert_eq!(acc.pending_messages(), 1);
    assert_eq!(acc.pending_route(&hash), Some(3));

    for n in 1..=6u8 {
        assert!(acc.add_signature_at(u64::from(n), 9, hash, sig(n), peer(n)).is_none());
        let pending = acc.pending_message(&hash).expect("still pending");
        assert_eq!(pending.signature_count(), usize::from(n));
    }
    let (returned, route) =
        acc.add_signature_at(7, 9, hash, sig(7), peer(7)).expect("seven of nine is a quorum");
    assert_eq!(route, 3);
    assert_eq!(returned.signature_count(), 7);
    assert_eq!(returned.routing_message(), &routing);
    assert_eq!(acc.pending_messages(), 0);

    // The state machine starts over: late signatures wait for a message again.
    assert!(acc.add_signature_at(8, 9, hash, sig(8), peer(8)).is_none());
    assert!(acc.add_signature_at(9, 9, hash, sig(9), peer(9)).is_none());
    assert_eq!(acc.pending_messages(), 0);
    assert_eq!(acc.pending_signatures(&hash), 2);
}

#[test]
fn duplicate_message_keeps_first_tag_and_arrival_and_merges_signatures() {
    let mut acc = SignatureAccumulator::new();
    let routing = content(9);
    let hash = hash_of(&routing);

    let mut first = SignedMessage::new(routing.clone(), peers(9));
    first.add_signature(peer(1), sig(1));
    let mut second = SignedMessage::new(routing.clone(), peers(9));
    second.add_signature(peer(2), sig(2));
    second.add_signature(peer(3), sig(3));

    assert!(acc.add_message_at(100, first, 9, 1).is_none());
    assert!(acc.add_message_at(200, second, 9, 2).is_none());

    assert_eq!(acc.pending_messages(), 1);
    assert_eq!(acc.pending_route(&hash), Some(1));
    assert_eq!(acc.pending_arrival(&hash), Some(100));
    let pending = acc.pending_message(&hash).expect("still pending");
    assert_eq!(pending.signature_count(), 3);
    assert!(pending.signed_by(&peer(1)));
    assert!(pending.signed_by(&peer(2)));
    assert!(pending.signed_by(&peer(3)));
}

#[test]
fn duplicate_message_can_complete_the_pending_one() {
    let mut acc = SignatureAccumulator::new();
    let routing = content(10);
    let mut first = SignedMessage::new(routing.clone(), peers(3));
    first.add_signature(peer(1), sig(1));
    let mut second = SignedMessage::new(routing.clone(), peers(3));
    second.add_signature(peer(2), sig(2));
    second.add_signature(peer(3), sig(3));

    assert!(acc.add_message_at(100, first, 3, 1).is_none());
    let (returned, route) = acc.add_message_at(200, second, 3, 2).expect("three of three");
    assert_eq!(route, 1);
    assert_eq!(returned.signature_count(), 3);
    assert_eq!(acc.pending_messages(), 0);
}

#[test]
fn expired_signature_is_not_drained_into_late_message() {
    let mut acc = SignatureAccumulator::new();
    let routing = content(11);
    let hash = hash_of(&routing);
    assert!(acc.add_signature_at(0, 1, hash, sig(1), peer(1)).is_none());
    assert_eq!(acc.pending_signatures(&hash), 1);

    let msg = SignedMessage::new(routing, peers(1));
    assert!(acc.add_message_at(ACCUMULATION_TIMEOUT_MILLIS + 1, msg, 1, 4).is_none());
    assert_eq!(acc.pending_signature_entries(), 0);
    assert_eq!(acc.pending_messages(), 1);
    let pending = acc.pending_message(&hash).expect("the message waits");
    assert_eq!(pending.signature_count(), 0);
    assert_eq!(acc.pending_arrival(&hash), Some(ACCUMULATION_TIMEOUT_MILLIS + 1));

    // Quorum is rebuilt from nothing.
    let (returned, route) = acc
        .add_signature_at(ACCUMULATION_TIMEOUT_MILLIS + 2, 1, hash, sig(1), peer(1))
        .expect("one of one");
    assert_eq!(route, 4);
    assert_eq!(returned.signature_count(), 1);
}

#[test]
fn signature_in_time_is_drained_into_message() {
    let mut acc = SignatureAccumulator::new();
    let routing = content(12);
    let hash = hash_of(&routing);
    assert!(acc.add_signature_at(0, 1, hash, sig(1), peer(1)).is_none());
    let msg = SignedMessage::new(routing, peers(1));
    let (returned, route) =
        acc.add_message_at(ACCUMULATION_TIMEOUT_MILLIS, msg, 1, 4).expect("one of one");
    assert_eq!(route, 4);
    assert!(returned.signed_by(&peer(1)));
    assert_eq!(acc.pending_signature_entries(), 0);
    assert_eq!(acc.pending_messages(), 0);
}

#[test]
fn message_without_hash_is_dropped_after_the_sweep() {
    let mut acc = SignatureAccumulator::new();
    let old_hash = [9u8; 32];
    assert!(acc.add_signature_at(0, 1, old_hash, sig(1), peer(1)).is_none());
    let mut msg = SignedMessage::new(content(13), peers(1));
    msg.add_signature(peer(1), sig(1));
    assert!(msg.check_fully_signed(1));

    assert!(acc.add_hashed_message_at(10, None, msg.clone(), 1, 0).is_none());
    assert_eq!(acc.pending_messages(), 0);
    assert_eq!(acc.pending_signature_entries(), 1);

    assert!(acc
        .add_hashed_message_at(ACCUMULATION_TIMEOUT_MILLIS + 1, None, msg, 1, 0)
        .is_none());
    assert_eq!(acc.pending_messages(), 0);
    assert_eq!(acc.pending_signature_entries(), 0);
}

#[test]
fn message_with_its_own_quorum_is_returned_at_once() {
    let mut acc = SignatureAccumulator::new();
    let routing = content(14);
    let mut msg = SignedMessage::new(routing.clone(), peers(3));
    msg.add_signature(peer(1), sig(1));
    msg.add_signature(peer(2), sig(2));
    msg.add_signature(peer(3), sig(3));
    let (returned, route) = acc.add_message_at(1, msg, 3, 200).expect("three of three");
    assert_eq!(route, 200);
    assert_eq!(returned.routing_message(), &routing);
    assert_eq!(acc.pending_messages(), 0);
}

#[test]
fn hashes_are_accumulated_apart() {
    let mut acc = SignatureAccumulator::new();
    let one = content(15);
    let two = content(16);
    assert!(acc.add_signature_at(0, 1, hash_of(&one), sig(1), peer(1)).is_none());
    let msg = SignedMessage::new(two.clone(), peers(1));
    assert!(acc.add_message_at(1, msg, 1, 0).is_none());
    assert_eq!(acc.pending_signature_entries(), 1);
    assert_eq!(acc.pending_messages(), 1);
    assert_eq!(acc.pending_signatures(&hash_of(&two)), 0);
    assert!(acc.pending_message(&hash_of(&one)).is_none());
}

#[test]
fn completion_check_takes_out_only_a_complete_message() {
    let mut acc = SignatureAccumulator::new();
    let routing = content(17);
    let hash = hash_of(&routing);
    assert!(acc.remove_if_complete(9, &hash).is_none());

    let mut msg = SignedMessage::new(routing.clone(), peers(9));
    msg.add_signature(peer(1), sig(1));
    msg.add_signature(peer(2), sig(2));
    assert!(acc.add_message_at(0, msg, 9, 77).is_none());

    assert!(acc.remove_if_complete(9, &hash).is_none());
    assert!(acc.remove_if_complete(3, &hash).is_none());
    assert_eq!(acc.pending_messages(), 1);
    assert!(acc.remove_if_complete(2, &[0; 32]).is_none());

    // Two of the nine senders are a quorum when only two of them have a vote.
    let (returned, route) = acc.remove_if_complete(2, &hash).expect("two of two");
    assert_eq!(route, 77);
    assert_eq!(returned.signature_count(), 2);
    assert_eq!(acc.pending_messages(), 0);
    assert!(acc.remove_if_complete(2, &hash).is_none());
}
