//! Order independence: what the accumulator makes of a message and of the
//! signatures for it depends on which of them have been handed in, not on the
//! order in which they came.

use crate::assoc::{distinct_keys, keyed, lemma_keyed_same_entries};
use crate::identity::{Digest256, PublicInfo, Signature, SignatureRecord};
use crate::message::{lemma_with_records_is_with_signatures, SignedMessageView};
use crate::model::{emitted_alone, AccumulatorView, Outcome, PendingMessageView, ACCUMULATION_TIMEOUT_MILLIS};
use crate::store::Stamped;
use vstd::prelude::*;

verus! {

/// One signature as it is handed in: when, by whom, and the signature.
pub struct Submission {
    pub at: u64,
    pub signer: PublicInfo,
    pub sig: Signature,
}

/// The signature records of `subs`, in order.
pub open spec fn records_of(subs: Seq<Submission>) -> Seq<SignatureRecord> {
    subs.map_values(|sub: Submission| (sub.signer, sub.sig))
}

/// Every submission of `subs` is made within one accumulation window that
/// begins at `start`.
pub open spec fn within_window(start: u64, subs: Seq<Submission>) -> bool {
    forall|i: int|
        0 <= i < subs.len() ==> start <= (#[trigger] subs[i]).at <= start
            + ACCUMULATION_TIMEOUT_MILLIS
}

/// What becomes of the accumulator when the signatures of `subs` are handed in
/// for `hash`, one call each, first to last; with it, what the last call hands
/// out.
pub open spec fn after_signatures(
    s: AccumulatorView,
    group_size: nat,
    hash: Digest256,
    subs: Seq<Submission>,
) -> Outcome
    decreases subs.len(),
{
    if subs.len() == 0 {
        Outcome { state: s, emitted: None }
    } else {
        after_signatures(s, group_size, hash, subs.drop_last()).state.after_signature(
            subs.last().at,
            group_size,
            hash,
            subs.last().signer,
            subs.last().sig,
        )
    }
}

/// None of the calls that hand in `subs` hands anything out.
pub open spec fn quiet(
    s: AccumulatorView,
    group_size: nat,
    hash: Digest256,
    subs: Seq<Submission>,
) -> bool
    decreases subs.len(),
{
    subs.len() == 0 || (quiet(s, group_size, hash, subs.drop_last()) && after_signatures(
        s,
        group_size,
        hash,
        subs,
    ).emitted is None)
}

/// The accumulator when the message arrives after the signatures of `before`,
/// and what that call hands out.
pub open spec fn arrived(
    s: AccumulatorView,
    group_size: nat,
    hash: Digest256,
    before: Seq<Submission>,
    at: u64,
    msg: SignedMessageView,
    route: u8,
) -> Outcome {
    after_signatures(s, group_size, hash, before).state.after_message(
        at,
        group_size,
        hash,
        msg,
        route,
    )
}

/// One interleaving of a message with signatures for it: the signatures of
/// `before` are handed in, then the message arrives at `at`, then the signatures
/// of `after` are handed in. The result is what the last of these calls leaves
/// behind and hands out.
pub open spec fn run(
    s: AccumulatorView,
    group_size: nat,
    hash: Digest256,
    before: Seq<Submission>,
    at: u64,
    msg: SignedMessageView,
    route: u8,
    after: Seq<Submission>,
) -> Outcome {
    let arrival = arrived(s, group_size, hash, before, at, msg, route);
    if after.len() == 0 {
        arrival
    } else {
        after_signatures(arrival.state, group_size, hash, after)
    }
}

/// No call of the interleaving but the last hands anything out.
pub open spec fn quiet_before_last(
    s: AccumulatorView,
    group_size: nat,
    hash: Digest256,
    before: Seq<Submission>,
    at: u64,
    msg: SignedMessageView,
    route: u8,
    after: Seq<Submission>,
) -> bool {
    let arrival = arrived(s, group_size, hash, before, at, msg, route);
    after.len() > 0 ==> arrival.emitted is None && quiet(
        arrival.state,
        group_size,
        hash,
        after.drop_last(),
    )
}

/// Handing in two runs of records one after the other is handing in their
/// concatenation.
pub proof fn lemma_with_records_concat(
    msg: SignedMessageView,
    first: Seq<SignatureRecord>,
    second: Seq<SignatureRecord>,
)
    ensures
        msg.with_records(first).with_records(second) == msg.with_records(first + second),
    decreases second.len(),
{
    if second.len() == 0 {
        assert(first + second =~= first);
    } else {
        lemma_with_records_concat(msg, first, second.drop_last());
        assert((first + second).drop_last() =~= first + second.drop_last());
        assert((first + second).last() == second.last());
    }
}

proof fn lemma_records_of_front(subs: Seq<Submission>)
    requires
        subs.len() > 0,
    ensures
        records_of(subs).drop_last() == records_of(subs.drop_last()),
        records_of(subs).last() == (subs.last().signer, subs.last().sig),
        records_of(subs) == records_of(subs.drop_last()).push((subs.last().signer, subs.last().sig)),
{
    assert(records_of(subs).drop_last() =~= records_of(subs.drop_last()));
    assert(records_of(subs) =~= records_of(subs.drop_last()).push(
        (subs.last().signer, subs.last().sig),
    ));
}

/// Signatures without their message wait. Handed in within one window for a
/// hash for which nothing is held, they hand out nothing and are all held as
/// pending signatures, in the order in which they came.
pub proof fn lemma_lone_signatures_wait(
    s: AccumulatorView,
    group_size: nat,
    hash: Digest256,
    start: u64,
    subs: Seq<Submission>,
)
    requires
        s.valid(),
        s.absent(hash),
        within_window(start, subs),
    ensures
        ({
            let last = after_signatures(s, group_size, hash, subs);
            &&& last.emitted is None
            &&& quiet(s, group_size, hash, subs)
            &&& last.state.valid()
            &&& !last.state.msgs.contains_key(hash)
            &&& subs.len() == 0 ==> last.state == s
            &&& subs.len() > 0 ==> {
                &&& last.state.sigs.contains_key(hash)
                &&& last.state.sigs[hash].value == records_of(subs)
                &&& start <= last.state.sigs[hash].arrival <= start + ACCUMULATION_TIMEOUT_MILLIS
            }
        }),
    decreases subs.len(),
{
    if subs.len() > 0 {
        let front = subs.drop_last();
        assert forall|i: int| 0 <= i < front.len() implies start <= (#[trigger] front[i]).at
            <= start + ACCUMULATION_TIMEOUT_MILLIS by {
            assert(front[i] == subs[i]);
        }
        lemma_lone_signatures_wait(s, group_size, hash, start, front);
        lemma_records_of_front(subs);
        let sub = subs[subs.len() - 1];
        assert(start <= sub.at <= start + ACCUMULATION_TIMEOUT_MILLIS);
        if front.len() == 0 {
            assert(records_of(front) =~= Seq::<SignatureRecord>::empty());
        }
    }
}

/// A signature that meets its pending message within the window is merged into
/// it, and the message is handed out if that completes it.
proof fn lemma_signature_meets_message(
    s: AccumulatorView,
    group_size: nat,
    hash: Digest256,
    start: u64,
    sub: Submission,
)
    requires
        s.valid(),
        s.msgs.contains_key(hash),
        start <= s.msgs[hash].arrival <= start + ACCUMULATION_TIMEOUT_MILLIS,
        start <= sub.at <= start + ACCUMULATION_TIMEOUT_MILLIS,
    ensures
        ({
            let held = s.msgs[hash];
            let merged = held.value.msg.with_signature(sub.signer, sub.sig);
            let step = s.after_signature(sub.at, group_size, hash, sub.signer, sub.sig);
            &&& step.state.valid()
            &&& step.emitted == emitted_alone(merged, held.value.route, group_size)
            &&& step.emitted is None ==> {
                &&& step.state.msgs.contains_key(hash)
                &&& step.state.msgs[hash] == Stamped {
                    value: PendingMessageView { msg: merged, route: held.value.route },
                    arrival: held.arrival,
                }
            }
            &&& step.emitted is Some ==> step.state.absent(hash)
        }),
{
}

/// While nothing is handed out, signatures that meet their pending message
/// within the window are all merged into it.
proof fn lemma_quiet_signatures_merge(
    s: AccumulatorView,
    group_size: nat,
    hash: Digest256,
    start: u64,
    subs: Seq<Submission>,
)
    requires
        s.valid(),
        s.msgs.contains_key(hash),
        start <= s.msgs[hash].arrival <= start + ACCUMULATION_TIMEOUT_MILLIS,
        within_window(start, subs),
        quiet(s, group_size, hash, subs),
    ensures
        ({
            let held = s.msgs[hash];
            let last = after_signatures(s, group_size, hash, subs);
            &&& last.state.valid()
            &&& last.state.msgs.contains_key(hash)
            &&& last.state.msgs[hash] == Stamped {
                value: PendingMessageView {
                    msg: held.value.msg.with_records(records_of(subs)),
                    route: held.value.route,
                },
                arrival: held.arrival,
            }
        }),
    decreases subs.len(),
{
    if subs.len() > 0 {
        let front = subs.drop_last();
        assert forall|i: int| 0 <= i < front.len() implies start <= (#[trigger] front[i]).at
            <= start + ACCUMULATION_TIMEOUT_MILLIS by {
            assert(front[i] == subs[i]);
        }
        lemma_quiet_signatures_merge(s, group_size, hash, start, front);
        lemma_records_of_front(subs);
        let sub = subs[subs.len() - 1];
        assert(start <= sub.at <= start + ACCUMULATION_TIMEOUT_MILLIS);
        lemma_signature_meets_message(
            after_signatures(s, group_size, hash, front).state,
            group_size,
            hash,
            start,
            sub,
        );
    } else {
        assert(records_of(subs) =~= Seq::<SignatureRecord>::empty());
    }
}

/// The outcome depends on the evidence alone. Take a hash for which nothing is
/// held, and an interleaving of one message with signatures for it, all handed
/// in within one accumulation window, in which no call but the last hands
/// anything out. Then the last call hands out the message exactly if the
/// message with all the signatures merged into it has a quorum, and what it
/// hands out is that merged message with the routing tag the message arrived
/// with. Otherwise the merged message is what stays pending, stamped with the
/// arrival time of the message.
pub proof fn lemma_outcome_of_evidence(
    s: AccumulatorView,
    group_size: nat,
    hash: Digest256,
    start: u64,
    before: Seq<Submission>,
    at: u64,
    msg: SignedMessageView,
    route: u8,
    after: Seq<Submission>,
)
    requires
        s.valid(),
        s.absent(hash),
        within_window(start, before),
        start <= at <= start + ACCUMULATION_TIMEOUT_MILLIS,
        within_window(start, after),
        quiet_before_last(s, group_size, hash, before, at, msg, route, after),
    ensures
        ({
            let merged = msg.with_records(records_of(before + after));
            let last = run(s, group_size, hash, before, at, msg, route, after);
            &&& last.state.valid()
            &&& last.emitted == emitted_alone(merged, route, group_size)
            &&& last.emitted is None ==> {
                &&& !last.state.sigs.contains_key(hash)
                &&& last.state.msgs.contains_key(hash)
                &&& last.state.msgs[hash] == Stamped {
                    value: PendingMessageView { msg: merged, route },
                    arrival: at,
                }
            }
            &&& last.emitted is Some ==> last.state.absent(hash)
        }),
{
    lemma_lone_signatures_wait(s, group_size, hash, start, before);
    let waiting = after_signatures(s, group_size, hash, before).state;
    let arrival = arrived(s, group_size, hash, before, at, msg, route);
    let with_before = msg.with_records(records_of(before));
    if before.len() == 0 {
        assert(records_of(before) =~= Seq::<SignatureRecord>::empty());
    }
    assert(arrival.emitted == emitted_alone(with_before, route, group_size));
    assert(records_of(before + after) =~= records_of(before) + records_of(after));
    if after.len() == 0 {
        assert(records_of(after) =~= Seq::<SignatureRecord>::empty());
        assert(records_of(before) + records_of(after) =~= records_of(before));
    } else {
        let front = after.drop_last();
        let sub = after[after.len() - 1];
        assert forall|i: int| 0 <= i < front.len() implies start <= (#[trigger] front[i]).at
            <= start + ACCUMULATION_TIMEOUT_MILLIS by {
            assert(front[i] == after[i]);
        }
        assert(start <= sub.at <= start + ACCUMULATION_TIMEOUT_MILLIS);
        lemma_quiet_signatures_merge(arrival.state, group_size, hash, start, front);
        let merging = after_signatures(arrival.state, group_size, hash, front).state;
        lemma_signature_meets_message(merging, group_size, hash, start, sub);
        lemma_records_of_front(after);
        lemma_with_records_concat(msg, records_of(before), records_of(after));
        assert(!merging.sigs.contains_key(hash));
    }
}

/// Order independence. Two interleavings of the same message with the same
/// signatures, of distinct signers, each handed in within one accumulation
/// window for a hash for which nothing was held, and in neither of which a
/// call before the last hands anything out, end alike: both hand out the
/// message, with the same signatures merged into it and the same routing tag, or
/// neither does, and then the same merged message stays pending in both.
pub proof fn lemma_order_independence(
    group_size: nat,
    hash: Digest256,
    msg: SignedMessageView,
    route: u8,
    s1: AccumulatorView,
    start1: u64,
    before1: Seq<Submission>,
    at1: u64,
    after1: Seq<Submission>,
    s2: AccumulatorView,
    start2: u64,
    before2: Seq<Submission>,
    at2: u64,
    after2: Seq<Submission>,
)
    requires
        s1.valid(),
        s1.absent(hash),
        within_window(start1, before1),
        start1 <= at1 <= start1 + ACCUMULATION_TIMEOUT_MILLIS,
        within_window(start1, after1),
        quiet_before_last(s1, group_size, hash, before1, at1, msg, route, after1),
        s2.valid(),
        s2.absent(hash),
        within_window(start2, before2),
        start2 <= at2 <= start2 + ACCUMULATION_TIMEOUT_MILLIS,
        within_window(start2, after2),
        quiet_before_last(s2, group_size, hash, before2, at2, msg, route, after2),
        distinct_keys(records_of(before1 + after1)),
        distinct_keys(records_of(before2 + after2)),
        records_of(before1 + after1).to_set() == records_of(before2 + after2).to_set(),
    ensures
        ({
            let last1 = run(s1, group_size, hash, before1, at1, msg, route, after1);
            let last2 = run(s2, group_size, hash, before2, at2, msg, route, after2);
            &&& last1.emitted == last2.emitted
            &&& last1.emitted is None ==> {
                &&& last1.state.msgs.contains_key(hash)
                &&& last2.state.msgs.contains_key(hash)
                &&& last1.state.msgs[hash].value == last2.state.msgs[hash].value
            }
            &&& last1.emitted is Some ==> last1.state.absent(hash) && last2.state.absent(hash)
        }),
{
    let records1 = records_of(before1 + after1);
    let records2 = records_of(before2 + after2);
    lemma_outcome_of_evidence(s1, group_size, hash, start1, before1, at1, msg, route, after1);
    lemma_outcome_of_evidence(s2, group_size, hash, start2, before2, at2, msg, route, after2);
    lemma_with_records_is_with_signatures(msg, records1);
    lemma_with_records_is_with_signatures(msg, records2);
    lemma_keyed_same_entries(records1, records2);
    assert(keyed(records1) == keyed(records2));
}

} // verus!
