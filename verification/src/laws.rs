//! What holds of the accumulator whatever it is fed: the laws of the state
//! machine of [`crate::model`], which every call of the accumulator follows.

use crate::identity::{Digest256, PublicInfo, Signature};
use crate::message::SignedMessageView;
use crate::model::{emitted_alone, AccumulatorView, Phase, ACCUMULATION_TIMEOUT_MILLIS};
use vstd::prelude::*;

verus! {

/// No call ever leaves a hash with both pending signatures and a pending
/// message, and the sweep does not either.
pub proof fn lemma_calls_keep_valid(
    s: AccumulatorView,
    now: u64,
    group_size: nat,
    hash: Digest256,
    signer: PublicInfo,
    sig: Signature,
    msg: SignedMessageView,
    route: u8,
)
    requires
        s.valid(),
    ensures
        s.swept(now).valid(),
        s.completed(group_size, hash).state.valid(),
        s.after_signature(now, group_size, hash, signer, sig).state.valid(),
        s.after_message(now, group_size, hash, msg, route).state.valid(),
{
}

/// A call for one hash leaves alone what is held for any other: it stays as the
/// sweep leaves it.
pub proof fn lemma_calls_touch_one_hash(
    s: AccumulatorView,
    now: u64,
    group_size: nat,
    hash: Digest256,
    signer: PublicInfo,
    sig: Signature,
    msg: SignedMessageView,
    route: u8,
    other: Digest256,
)
    requires
        other != hash,
    ensures
        ({
            let fresh = s.swept(now);
            let signed = s.after_signature(now, group_size, hash, signer, sig).state;
            let arrived = s.after_message(now, group_size, hash, msg, route).state;
            &&& signed.sigs.contains_key(other) == fresh.sigs.contains_key(other)
            &&& signed.msgs.contains_key(other) == fresh.msgs.contains_key(other)
            &&& arrived.sigs.contains_key(other) == fresh.sigs.contains_key(other)
            &&& arrived.msgs.contains_key(other) == fresh.msgs.contains_key(other)
            &&& fresh.sigs.contains_key(other) ==> signed.sigs[other] == fresh.sigs[other]
                && arrived.sigs[other] == fresh.sigs[other]
            &&& fresh.msgs.contains_key(other) ==> signed.msgs[other] == fresh.msgs[other]
                && arrived.msgs[other] == fresh.msgs[other]
        }),
{
}

/// The life of a hash. The sweep leaves a hash where it stands or makes it
/// absent. From where the sweep leaves it, a signature makes an absent hash wait
/// with pending signatures, leaves pending signatures pending, and leaves a
/// pending message pending unless the message is handed out; a message makes
/// the hash wait with a pending message unless the message is handed out. A
/// hash is absent after a call for it exactly if that call handed out its
/// message, and only a call that found or brought the message hands one out.
pub proof fn lemma_life_of_a_hash(
    s: AccumulatorView,
    now: u64,
    group_size: nat,
    hash: Digest256,
    signer: PublicInfo,
    sig: Signature,
    msg: SignedMessageView,
    route: u8,
)
    requires
        s.valid(),
    ensures
        s.swept(now).phase(hash) == s.phase(hash) || s.swept(now).phase(hash) == Phase::Absent,
        ({
            let before = s.swept(now).phase(hash);
            let signed = s.after_signature(now, group_size, hash, signer, sig);
            match before {
                Phase::Absent | Phase::SignaturesPending => {
                    &&& signed.emitted is None
                    &&& signed.state.phase(hash) == Phase::SignaturesPending
                },
                Phase::MessagePending => {
                    if signed.emitted is None {
                        signed.state.phase(hash) == Phase::MessagePending
                    } else {
                        signed.state.phase(hash) == Phase::Absent
                    }
                },
            }
        }),
        ({
            let arrived = s.after_message(now, group_size, hash, msg, route);
            if arrived.emitted is None {
                arrived.state.phase(hash) == Phase::MessagePending
            } else {
                arrived.state.phase(hash) == Phase::Absent
            }
        }),
{
}

/// Exactly-once emission. A call that hands out the message for `hash` leaves
/// nothing behind for `hash`. While nothing is held for `hash`, a signature for
/// it hands out nothing, and a message for it hands out only itself, and only if
/// it carries a quorum of its own: nothing of the evidence that led to the
/// earlier emission is handed out again.
pub proof fn lemma_exactly_once(
    s: AccumulatorView,
    now: u64,
    group_size: nat,
    hash: Digest256,
    signer: PublicInfo,
    sig: Signature,
    msg: SignedMessageView,
    route: u8,
)
    requires
        s.valid(),
    ensures
        s.completed(group_size, hash).emitted.is_some() ==> s.completed(
            group_size,
            hash,
        ).state.absent(hash),
        s.after_signature(now, group_size, hash, signer, sig).emitted.is_some()
            ==> s.after_signature(now, group_size, hash, signer, sig).state.absent(hash),
        s.after_message(now, group_size, hash, msg, route).emitted.is_some() ==> s.after_message(
            now,
            group_size,
            hash,
            msg,
            route,
        ).state.absent(hash),
        s.absent(hash) ==> s.after_signature(now, group_size, hash, signer, sig).emitted.is_none(),
        s.absent(hash) ==> s.after_message(now, group_size, hash, msg, route).emitted
            == emitted_alone(msg, route, group_size),
{
    if s.absent(hash) {
        assert(msg.with_records(Seq::empty()) == msg);
    }
}

/// Idempotent merge. When `signer` hands in a signature for a hash for which a
/// signature of `signer` is already held, no peer is added to those that have
/// signed for the hash, so their number does not grow: a message that is handed
/// out carries exactly the signers held before, and evidence that stays behind
/// has no signer that was not there.
pub proof fn lemma_resubmission_adds_no_signer(
    s: AccumulatorView,
    now: u64,
    group_size: nat,
    hash: Digest256,
    signer: PublicInfo,
    sig: Signature,
)
    requires
        s.valid(),
        s.signers(hash).contains(signer),
    ensures
        ({
            let after = s.after_signature(now, group_size, hash, signer, sig);
            &&& after.state.signers(hash).subset_of(s.signers(hash))
            &&& after.emitted matches Some((handed_out, _)) ==> handed_out.signatures.dom()
                == s.signers(hash)
            &&& s.signers(hash).finite() ==> after.state.signers(hash).len() <= s.signers(
                hash,
            ).len()
        }),
{
    let fresh = s.swept(now);
    let after = s.after_signature(now, group_size, hash, signer, sig);
    if fresh.msgs.contains_key(hash) {
        let held = fresh.msgs[hash].value.msg;
        assert(held.with_signature(signer, sig).signatures.dom() =~= held.signatures.dom());
    } else if fresh.sigs.contains_key(hash) {
        let records = fresh.sigs[hash].value;
        let grown = records.push((signer, sig));
        assert forall|p: PublicInfo| after.state.signers(hash).contains(p) implies s.signers(
            hash,
        ).contains(p) by {
            let i = choose|i: int| 0 <= i < grown.len() && (#[trigger] grown[i]).0 == p;
            if i < records.len() {
                assert(records[i].0 == p);
            }
        }
    } else {
        let grown = Seq::<(PublicInfo, Signature)>::empty().push((signer, sig));
        assert forall|p: PublicInfo| after.state.signers(hash).contains(p) implies s.signers(
            hash,
        ).contains(p) by {
            let i = choose|i: int| 0 <= i < grown.len() && (#[trigger] grown[i]).0 == p;
            assert(p == signer);
        }
    }
    if s.signers(hash).finite() {
        vstd::set_lib::lemma_len_subset(after.state.signers(hash), s.signers(hash));
    }
}

/// Idempotent merge of a message. When a message arrives for a hash for which
/// a message is pending, and all its signatures are of peers whose signature
/// the pending message holds already, no peer is added to those that have
/// signed.
pub proof fn lemma_redelivery_adds_no_signer(
    s: AccumulatorView,
    now: u64,
    group_size: nat,
    hash: Digest256,
    msg: SignedMessageView,
    route: u8,
)
    requires
        s.valid(),
        s.swept(now).msgs.contains_key(hash),
        msg.signatures.dom().subset_of(s.signers(hash)),
    ensures
        ({
            let after = s.after_message(now, group_size, hash, msg, route);
            &&& after.emitted is None ==> after.state.signers(hash) == s.signers(hash)
            &&& after.emitted matches Some((handed_out, _)) ==> handed_out.signatures.dom()
                == s.signers(hash)
        }),
{
    let held = s.swept(now).msgs[hash].value.msg;
    assert(held.with_signatures(msg.signatures).signatures.dom() =~= held.signatures.dom());
}

/// Expiry boundary. At `now`, an entry whose age is at most the accumulation
/// window, the boundary included, is kept by the sweep as it is, and an older
/// one is dropped. Both calls see only what the sweep has left, so after a call
/// past the window whatever is held for the entry's hash was made by that call,
/// from the evidence that came with it.
pub proof fn lemma_expiry_boundary(
    s: AccumulatorView,
    held: Digest256,
    now: u64,
    group_size: nat,
    hash: Digest256,
    signer: PublicInfo,
    sig: Signature,
    msg: SignedMessageView,
    route: u8,
)
    requires
        s.valid(),
        !s.absent(held),
    ensures
        now - s.arrival(held) <= ACCUMULATION_TIMEOUT_MILLIS ==> {
            &&& s.swept(now).sigs.contains_key(held) == s.sigs.contains_key(held)
            &&& s.swept(now).msgs.contains_key(held) == s.msgs.contains_key(held)
            &&& s.sigs.contains_key(held) ==> s.swept(now).sigs[held] == s.sigs[held]
            &&& s.msgs.contains_key(held) ==> s.swept(now).msgs[held] == s.msgs[held]
        },
        now - s.arrival(held) > ACCUMULATION_TIMEOUT_MILLIS ==> s.swept(now).absent(held),
        s.after_signature(now, group_size, hash, signer, sig) == s.swept(now).after_signature(
            now,
            group_size,
            hash,
            signer,
            sig,
        ),
        s.after_message(now, group_size, hash, msg, route) == s.swept(now).after_message(
            now,
            group_size,
            hash,
            msg,
            route,
        ),
        now - s.arrival(held) > ACCUMULATION_TIMEOUT_MILLIS ==> {
            let signed = s.after_signature(now, group_size, hash, signer, sig).state;
            let arrived = s.after_message(now, group_size, hash, msg, route).state;
            &&& held != hash ==> signed.absent(held) && arrived.absent(held)
            &&& !signed.absent(held) ==> signed.arrival(held) == now
            &&& !arrived.absent(held) ==> arrived.arrival(held) == now
            &&& held == hash ==> {
                &&& s.after_signature(now, group_size, hash, signer, sig).emitted.is_none()
                &&& s.after_message(now, group_size, hash, msg, route).emitted == emitted_alone(
                    msg,
                    route,
                    group_size,
                )
            }
        },
{
    let fresh = s.swept(now);
    assert(fresh.swept(now) =~= fresh);
    if now - s.arrival(held) > ACCUMULATION_TIMEOUT_MILLIS {
        assert(fresh.absent(held));
        if held == hash {
            assert(msg.with_records(Seq::empty()) == msg);
        }
    }
}

/// Nothing outlives the window. After the sweep at `now`, and so after either
/// call at `now`, nothing that is held is older than the accumulation window.
pub proof fn lemma_nothing_stale_is_held(
    s: AccumulatorView,
    now: u64,
    group_size: nat,
    hash: Digest256,
    signer: PublicInfo,
    sig: Signature,
    msg: SignedMessageView,
    route: u8,
    held: Digest256,
)
    ensures
        ({
            let fresh = s.swept(now);
            let signed = s.after_signature(now, group_size, hash, signer, sig).state;
            let arrived = s.after_message(now, group_size, hash, msg, route).state;
            &&& !fresh.absent(held) ==> now - fresh.arrival(held) <= ACCUMULATION_TIMEOUT_MILLIS
            &&& !signed.absent(held) ==> now - signed.arrival(held) <= ACCUMULATION_TIMEOUT_MILLIS
            &&& !arrived.absent(held) ==> now - arrived.arrival(held)
                <= ACCUMULATION_TIMEOUT_MILLIS
        }),
{
}

/// An arrival time is set once. What is held for a hash before a call and
/// still held after it, in the same store, has kept its arrival time.
pub proof fn lemma_arrival_is_kept(
    s: AccumulatorView,
    now: u64,
    group_size: nat,
    hash: Digest256,
    signer: PublicInfo,
    sig: Signature,
    msg: SignedMessageView,
    route: u8,
    held: Digest256,
)
    requires
        s.valid(),
    ensures
        ({
            let signed = s.after_signature(now, group_size, hash, signer, sig).state;
            let arrived = s.after_message(now, group_size, hash, msg, route).state;
            &&& s.swept(now).sigs.contains_key(held) && signed.sigs.contains_key(held)
                ==> signed.sigs[held].arrival == s.sigs[held].arrival
            &&& s.swept(now).msgs.contains_key(held) && signed.msgs.contains_key(held)
                ==> signed.msgs[held].arrival == s.msgs[held].arrival
            &&& s.swept(now).sigs.contains_key(held) && arrived.sigs.contains_key(held)
                ==> arrived.sigs[held].arrival == s.sigs[held].arrival
            &&& s.swept(now).msgs.contains_key(held) && arrived.msgs.contains_key(held) ==> {
                &&& arrived.msgs[held].arrival == s.msgs[held].arrival
                &&& arrived.msgs[held].value.route == s.msgs[held].value.route
            }
        }),
{
}

} // verus!
