//! The accumulator as a state machine over mathematical values: what it holds,
//! and what each call makes of it.

use crate::identity::{Digest256, PublicInfo, Signature, SignatureRecord};
use crate::message::SignedMessageView;
use crate::store::{unexpired, Stamped};
use vstd::prelude::*;

verus! {

/// Time (in seconds) within which a message and a quorum of signatures need to arrive to
/// accumulate.
pub const ACCUMULATION_TIMEOUT_SECS: u64 = 30;

/// The accumulation window in milliseconds, the unit of all arrival times.
pub const ACCUMULATION_TIMEOUT_MILLIS: u64 = ACCUMULATION_TIMEOUT_SECS * 1000;

/// A message that waits for more signatures, and the routing tag it arrived with.
#[verifier::ext_equal]
pub struct PendingMessageView {
    pub msg: SignedMessageView,
    pub route: u8,
}

/// A message that has reached its quorum, and its routing tag; or nothing.
pub type Emitted = Option<(SignedMessageView, u8)>;

/// What a call leaves behind and what it hands out.
#[verifier::ext_equal]
pub struct Outcome {
    pub state: AccumulatorView,
    pub emitted: Emitted,
}

/// What the accumulator holds: for each content hash, either the signatures that
/// arrived before their message, in order of arrival, or the message with the
/// signatures merged into it, or nothing.
#[verifier::ext_equal]
pub struct AccumulatorView {
    pub sigs: Map<Digest256, Stamped<Seq<SignatureRecord>>>,
    pub msgs: Map<Digest256, Stamped<PendingMessageView>>,
}

/// Where the accumulation for one content hash stands. A message that has been
/// handed out leaves nothing behind, so its hash is `Absent` again.
pub enum Phase {
    /// Nothing is held for the hash.
    Absent,
    /// Signatures wait for their message.
    SignaturesPending,
    /// The message waits for more signatures.
    MessagePending,
}

/// The peers that signed one of `records`.
pub open spec fn signers_of(records: Seq<SignatureRecord>) -> Set<PublicInfo> {
    Set::new(
        |signer: PublicInfo|
            exists|i: int| 0 <= i < records.len() && (#[trigger] records[i]).0 == signer,
    )
}

/// What a message hands out when it arrives and nothing is held for its hash:
/// itself, if it carries a quorum of signatures already.
pub open spec fn emitted_alone(msg: SignedMessageView, route: u8, group_size: nat) -> Emitted {
    if msg.fully_signed(group_size) {
        Some((msg, route))
    } else {
        None
    }
}

impl AccumulatorView {
    /// The accumulator that holds nothing.
    pub open spec fn empty() -> AccumulatorView {
        AccumulatorView { sigs: Map::empty(), msgs: Map::empty() }
    }

    /// No hash has both pending signatures and a pending message.
    pub open spec fn valid(self) -> bool {
        forall|hash: Digest256| !(self.sigs.contains_key(hash) && self.msgs.contains_key(hash))
    }

    /// Nothing is held for `hash`.
    pub open spec fn absent(self, hash: Digest256) -> bool {
        !self.sigs.contains_key(hash) && !self.msgs.contains_key(hash)
    }

    /// Where the accumulation for `hash` stands.
    pub open spec fn phase(self, hash: Digest256) -> Phase {
        if self.msgs.contains_key(hash) {
            Phase::MessagePending
        } else if self.sigs.contains_key(hash) {
            Phase::SignaturesPending
        } else {
            Phase::Absent
        }
    }

    /// The arrival time of what is held for `hash`.
    pub open spec fn arrival(self, hash: Digest256) -> u64
        recommends
            !self.absent(hash),
    {
        if self.msgs.contains_key(hash) {
            self.msgs[hash].arrival
        } else {
            self.sigs[hash].arrival
        }
    }

    /// The peers whose signature for `hash` is held, lone or merged into the
    /// message.
    pub open spec fn signers(self, hash: Digest256) -> Set<PublicInfo> {
        if self.msgs.contains_key(hash) {
            self.msgs[hash].value.msg.signatures.dom()
        } else if self.sigs.contains_key(hash) {
            signers_of(self.sigs[hash].value)
        } else {
            Set::empty()
        }
    }

    /// What is left at `now` once every entry older than the accumulation window
    /// is dropped. An entry whose age is exactly the window stays.
    pub open spec fn swept(self, now: u64) -> AccumulatorView {
        AccumulatorView {
            sigs: unexpired(self.sigs, now, ACCUMULATION_TIMEOUT_MILLIS),
            msgs: unexpired(self.msgs, now, ACCUMULATION_TIMEOUT_MILLIS),
        }
    }

    /// The completion check: a pending message for `hash` that a quorum has
    /// signed leaves the accumulator and is handed out with its routing tag.
    /// Otherwise nothing changes and nothing is handed out.
    pub open spec fn completed(self, group_size: nat, hash: Digest256) -> Outcome {
        if self.msgs.contains_key(hash) && self.msgs[hash].value.msg.fully_signed(group_size) {
            Outcome {
                state: AccumulatorView { msgs: self.msgs.remove(hash), ..self },
                emitted: Some((self.msgs[hash].value.msg, self.msgs[hash].value.route)),
            }
        } else {
            Outcome { state: self, emitted: None }
        }
    }

    /// What becomes of the accumulator when, at `now`, `signer` hands in `sig`
    /// for `hash`. After the sweep, a pending message takes the signature in and
    /// is checked for completion; without one, the signature joins the pending
    /// signatures for `hash`, which keep the arrival time of the first of them.
    pub open spec fn after_signature(
        self,
        now: u64,
        group_size: nat,
        hash: Digest256,
        signer: PublicInfo,
        sig: Signature,
    ) -> Outcome {
        let fresh = self.swept(now);
        if fresh.msgs.contains_key(hash) {
            let entry = fresh.msgs[hash];
            let merged = PendingMessageView {
                msg: entry.value.msg.with_signature(signer, sig),
                route: entry.value.route,
            };
            AccumulatorView {
                msgs: fresh.msgs.insert(hash, Stamped { value: merged, arrival: entry.arrival }),
                ..fresh
            }.completed(group_size, hash)
        } else {
            let entry = if fresh.sigs.contains_key(hash) {
                fresh.sigs[hash]
            } else {
                Stamped { value: Seq::empty(), arrival: now }
            };
            Outcome {
                state: AccumulatorView {
                    sigs: fresh.sigs.insert(
                        hash,
                        Stamped { value: entry.value.push((signer, sig)), arrival: entry.arrival },
                    ),
                    ..fresh
                },
                emitted: None,
            }
        }
    }

    /// What becomes of the accumulator when, at `now`, the message `msg` with
    /// the content hash `hash` arrives with the routing tag `route`. After the
    /// sweep, a message that is already pending for `hash` takes in the
    /// signatures of `msg` and keeps its own arrival time and routing tag.
    /// Otherwise `msg` takes in the pending signatures for `hash`, which leave
    /// their store, and becomes the pending message, stamped `now`. Either way
    /// the pending message is then checked for completion.
    pub open spec fn after_message(
        self,
        now: u64,
        group_size: nat,
        hash: Digest256,
        msg: SignedMessageView,
        route: u8,
    ) -> Outcome {
        let fresh = self.swept(now);
        if fresh.msgs.contains_key(hash) {
            let entry = fresh.msgs[hash];
            let merged = PendingMessageView {
                msg: entry.value.msg.with_signatures(msg.signatures),
                route: entry.value.route,
            };
            AccumulatorView {
                msgs: fresh.msgs.insert(hash, Stamped { value: merged, arrival: entry.arrival }),
                ..fresh
            }.completed(group_size, hash)
        } else {
            let records = if fresh.sigs.contains_key(hash) {
                fresh.sigs[hash].value
            } else {
                Seq::empty()
            };
            let pending = PendingMessageView { msg: msg.with_records(records), route };
            AccumulatorView {
                sigs: fresh.sigs.remove(hash),
                msgs: fresh.msgs.insert(hash, Stamped { value: pending, arrival: now }),
            }.completed(group_size, hash)
        }
    }

    /// What becomes of the accumulator when a message arrives whose content
    /// hash came out as `hash`: a message whose content could not be hashed is
    /// dropped after the sweep.
    pub open spec fn after_hashed_message(
        self,
        now: u64,
        group_size: nat,
        hash: Option<Digest256>,
        msg: SignedMessageView,
        route: u8,
    ) -> Outcome {
        match hash {
            Some(h) => self.after_message(now, group_size, h, msg, route),
            None => Outcome { state: self.swept(now), emitted: None },
        }
    }
}

} // verus!
