use signature_accumulator::{
    content_hash, Digest256, PublicInfo, RoutingMessage, Signature, SignatureAccumulator,
    SignedMessage, ACCUMULATION_TIMEOUT_MILLIS,
};

fn peer(n: u8) -> PublicInfo {
    PublicInfo::new([n; 32])
}

fn sig(n: u8) -> Signature {
    Signature::new([n; 64])
}

fn peers(count: u8) -> Vec<PublicInfo> {
    (1..=count).map(peer).collect()
}

fn content() -> RoutingMessage {
    RoutingMessage::new([5; 32], [6; 32], vec![1, 2, 3, 4])
}

fn hash_of(msg: &RoutingMessage) -> Digest256 {
    content_hash(msg).expect("content can be encoded")
}

/// Hands in the signatures of the peers in `before`, then the message, then the
/// signatures of the peers in `after`, and returns what the last call returned.
fn interleave(before: &[u8], after: &[u8]) -> Option<(SignedMessage, u8)> {
    let mut acc = SignatureAccumulator::new();
    let routing = content();
    let hash = hash_of(&routing);
    let mut now = 1000;
    let mut last = None;
    for &n in before {
        last = acc.add_signature_at(now, 9, hash, sig(n), peer(n));
        assert!(last.is_none());
        now += 10;
    }
    let arrived = acc.add_message_at(now, SignedMessage::new(routing, peers(9)), 9, 42);
    if after.is_empty() {
        return arrived;
    }
    assert!(arrived.is_none());
    for (i, &n) in after.iter().enumerate() {
        now += 10;
        last = acc.add_signature_at(now, 9, hash, sig(n), peer(n));
        if i + 1 < after.len() {
            assert!(last.is_none());
        }
    }
    last
}

fn signers(msg: &SignedMessage) -> Vec<u8> {
    (1..=9u8).filter(|&n| msg.signed_by(&peer(n))).collect()
}

#[test]
fn order_of_arrival_does_not_matter() {
    let orders: [(&[u8], &[u8]); 5] = [
        (&[], &[1, 2, 3, 4, 5, 6, 7]),
        (&[1, 2, 3, 4, 5, 6, 7], &[]),
        (&[7, 6, 5], &[4, 3, 2, 1]),
        (&[2, 4, 6], &[1, 3, 5, 7]),
        (&[3, 1, 2, 7, 5, 6], &[4]),
    ];
    for (before, after) in orders {
        let (msg, route) = interleave(before, after).expect("seven of nine is a quorum");
        assert_eq!(route, 42);
        assert_eq!(signers(&msg), vec![1, 2, 3, 4, 5, 6, 7]);
        assert_eq!(msg.signature_count(), 7);
        assert_eq!(msg.routing_message(), &content());
    }
}

#[test]
fn order_of_arrival_does_not_matter_below_quorum() {
    assert!(interleave(&[1, 2, 3], &[4, 5, 6]).is_none());
    assert!(interleave(&[], &[6, 5, 4, 3, 2, 1]).is_none());
    assert!(interleave(&[4, 5, 6, 1, 2, 3], &[]).is_none());
}

#[test]
fn nothing_is_handed_out_twice() {
    let mut acc = SignatureAccumulator::new();
    let routing = content();
    let hash = hash_of(&routing);
    let mut msg = SignedMessage::new(routing.clone(), peers(3));
    msg.add_signature(peer(1), sig(1));
    msg.add_signature(peer(2), sig(2));
    assert!(acc.add_message_at(0, msg, 3, 1).is_none());
    assert!(acc.add_signature_at(1, 3, hash, sig(3), peer(3)).is_some());

    // The same evidence again, without the message: nothing comes out.
    assert!(acc.add_signature_at(2, 3, hash, sig(3), peer(3)).is_none());
    assert!(acc.add_signature_at(3, 3, hash, sig(2), peer(2)).is_none());
    assert!(acc.add_signature_at(4, 3, hash, sig(1), peer(1)).is_none());
    assert_eq!(acc.pending_messages(), 0);
    assert_eq!(acc.pending_signatures(&hash), 3);

    // Once everything held for the hash has expired, a bare message finds
    // nothing of the earlier evidence.
    let bare = SignedMessage::new(routing, peers(3));
    assert!(acc.add_message_at(ACCUMULATION_TIMEOUT_MILLIS + 3, bare, 3, 9).is_none());
    assert_eq!(acc.pending_message(&hash).expect("pending").signature_count(), 0);
}

#[test]
fn same_signer_counts_once_in_a_pending_message() {
    let mut acc = SignatureAccumulator::new();
    let routing = content();
    let hash = hash_of(&routing);
    assert!(acc.add_message_at(0, SignedMessage::new(routing, peers(9)), 9, 1).is_none());
    for round in 0..20u64 {
        assert!(acc.add_signature_at(round, 9, hash, sig(1), peer(1)).is_none());
        assert_eq!(acc.pending_message(&hash).expect("pending").signature_count(), 1);
    }
}

#[test]
fn same_signer_counts_once_when_signatures_come_first() {
    let mut acc = SignatureAccumulator::new();
    let routing = content();
    let hash = hash_of(&routing);
    for round in 0..20u64 {
        assert!(acc.add_signature_at(round, 9, hash, sig(1), peer(1)).is_none());
    }
    assert_eq!(acc.pending_signatures(&hash), 20);
    assert!(acc.add_message_at(30, SignedMessage::new(routing, peers(9)), 9, 1).is_none());
    assert_eq!(acc.pending_message(&hash).expect("pending").signature_count(), 1);
    assert_eq!(acc.pending_signature_entries(), 0);
}

#[test]
fn later_signature_of_a_signer_replaces_the_earlier() {
    let mut msg = SignedMessage::new(content(), peers(2));
    msg.add_signature(peer(1), sig(1));
    msg.add_signature(peer(1), sig(7));
    assert_eq!(msg.signature_count(), 1);
    assert!(msg.signed_by(&peer(1)));
}

#[test]
fn entry_at_the_window_boundary_is_kept() {
    let mut acc = SignatureAccumulator::new();
    let routing = content();
    let hash = hash_of(&routing);
    let other = [0u8; 32];
    assert!(acc.add_signature_at(500, 9, other, sig(1), peer(1)).is_none());
    assert!(acc.add_message_at(500, SignedMessage::new(routing, peers(9)), 9, 1).is_none());

    acc.remove_expired_at(500 + ACCUMULATION_TIMEOUT_MILLIS);
    assert_eq!(acc.pending_signature_entries(), 1);
    assert_eq!(acc.pending_messages(), 1);
    assert_eq!(acc.pending_arrival(&hash), Some(500));
    assert_eq!(acc.pending_arrival(&other), Some(500));

    acc.remove_expired_at(500 + ACCUMULATION_TIMEOUT_MILLIS + 1);
    assert_eq!(acc.pending_signature_entries(), 0);
    assert_eq!(acc.pending_messages(), 0);
    assert_eq!(acc.pending_arrival(&hash), None);
}

#[test]
fn either_call_sweeps_first() {
    let stale = [1u8; 32];
    let routing = content();

    let mut acc = SignatureAccumulator::new();
    assert!(acc.add_signature_at(0, 9, stale, sig(1), peer(1)).is_none());
    assert!(acc
        .add_signature_at(ACCUMULATION_TIMEOUT_MILLIS, 9, [2u8; 32], sig(1), peer(1))
        .is_none());
    assert_eq!(acc.pending_signature_entries(), 2);
    assert!(acc
        .add_signature_at(ACCUMULATION_TIMEOUT_MILLIS + 1, 9, [3u8; 32], sig(1), peer(1))
        .is_none());
    assert_eq!(acc.pending_signatures(&stale), 0);
    assert_eq!(acc.pending_signature_entries(), 2);

    let mut acc = SignatureAccumulator::new();
    assert!(acc.add_signature_at(0, 9, stale, sig(1), peer(1)).is_none());
    let msg = SignedMessage::new(routing, peers(9));
    assert!(acc.add_message_at(ACCUMULATION_TIMEOUT_MILLIS + 1, msg, 9, 0).is_none());
    assert_eq!(acc.pending_signature_entries(), 0);
    assert_eq!(acc.pending_messages(), 1);
}

#[test]
fn merging_does_not_refresh_the_arrival_time() {
    let mut acc = SignatureAccumulator::new();
    let routing = content();
    let hash = hash_of(&routing);
    assert!(acc.add_message_at(100, SignedMessage::new(routing, peers(9)), 9, 1).is_none());
    assert!(acc.add_signature_at(20_000, 9, hash, sig(1), peer(1)).is_none());
    assert_eq!(acc.pending_arrival(&hash), Some(100));
    // Past the window of the message, though within that of the signature.
    assert!(acc.add_signature_at(30_101, 9, hash, sig(2), peer(2)).is_none());
    assert_eq!(acc.pending_messages(), 0);
    assert_eq!(acc.pending_signatures(&hash), 1);
    assert_eq!(acc.pending_arrival(&hash), Some(30_101));
}

#[test]
fn pending_signatures_keep_the_arrival_time_of_the_first() {
    let mut acc = SignatureAccumulator::new();
    let hash = [8u8; 32];
    assert!(acc.add_signature_at(10, 9, hash, sig(1), peer(1)).is_none());
    assert!(acc.add_signature_at(20_000, 9, hash, sig(2), peer(2)).is_none());
    assert_eq!(acc.pending_arrival(&hash), Some(10));
    assert!(acc.add_signature_at(30_011, 9, hash, sig(3), peer(3)).is_none());
    assert_eq!(acc.pending_signatures(&hash), 1);
}

#[test]
fn clock_that_runs_backwards_expires_nothing() {
    let mut acc = SignatureAccumulator::new();
    let hash = [8u8; 32];
    assert!(acc.add_signature_at(1_000_000, 9, hash, sig(1), peer(1)).is_none());
    acc.remove_expired_at(0);
    assert_eq!(acc.pending_signatures(&hash), 1);
}
