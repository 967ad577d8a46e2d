//! The accumulator itself: two stores of pending evidence, kept in step with the
//! state machine of [`crate::model`].

use crate::clock::Clock;
use crate::hashing::{content_hash, message_hash};
use crate::identity::{Digest256, PublicInfo, Signature, SignatureRecord};
use crate::message::SignedMessage;
use crate::model::{AccumulatorView, Emitted, Outcome, PendingMessageView, ACCUMULATION_TIMEOUT_MILLIS};
use crate::store::{PendingStore, Stamped};
use vstd::prelude::*;

verus! {

/// A message that waits for more signatures, and the routing tag it arrived with.
pub struct PendingMessage {
    pub msg: SignedMessage,
    pub route: u8,
}

impl View for PendingMessage {
    type V = PendingMessageView;

    open spec fn view(&self) -> PendingMessageView {
        PendingMessageView { msg: self.msg@, route: self.route }
    }
}

/// What a store of pending signatures holds.
pub open spec fn signatures_view(
    store: Map<Digest256, Stamped<Vec<SignatureRecord>>>,
) -> Map<Digest256, Stamped<Seq<SignatureRecord>>> {
    store.map_values(
        |entry: Stamped<Vec<SignatureRecord>>|
            Stamped { value: entry.value@, arrival: entry.arrival },
    )
}

/// What a store of pending messages holds.
pub open spec fn messages_view(store: Map<Digest256, Stamped<PendingMessage>>) -> Map<
    Digest256,
    Stamped<PendingMessageView>,
> {
    store.map_values(
        |entry: Stamped<PendingMessage>| Stamped { value: entry.value@, arrival: entry.arrival },
    )
}

/// What a call hands out, as the state machine sees it.
pub open spec fn emitted_view(out: Option<(SignedMessage, u8)>) -> Emitted {
    match out {
        Some((msg, route)) => Some((msg@, route)),
        None => None,
    }
}

/// Collects signatures from a quorum of distinct peers over a message and hands
/// the message out once the quorum is there.
pub struct SignatureAccumulator {
    sigs: PendingStore<Vec<SignatureRecord>>,
    msgs: PendingStore<PendingMessage>,
    clock: Clock,
}

impl View for SignatureAccumulator {
    type V = AccumulatorView;

    closed spec fn view(&self) -> AccumulatorView {
        AccumulatorView { sigs: signatures_view(self.sigs@), msgs: messages_view(self.msgs@) }
    }
}

impl SignatureAccumulator {
    #[verifier::type_invariant]
    spec fn well_formed(self) -> bool {
        forall|hash: Digest256| !(self.sigs@.contains_key(hash) && self.msgs@.contains_key(hash))
    }

    /// The clock from which the accumulator reads the time of a call.
    pub closed spec fn clock(&self) -> Clock {
        self.clock
    }

    /// The accumulator that holds nothing and reads the time from `clock`.
    pub fn with_clock(clock: Clock) -> (acc: SignatureAccumulator)
        ensures
            acc@ == AccumulatorView::empty(),
            acc@.valid(),
            acc.clock() == clock,
    {
        let acc = SignatureAccumulator {
            sigs: PendingStore::new(),
            msgs: PendingStore::new(),
            clock,
        };
        assert(acc@ =~= AccumulatorView::empty());
        acc
    }

    /// The accumulator that holds nothing and reads the machine's monotonic
    /// clock.
    pub fn new() -> (acc: SignatureAccumulator)
        ensures
            acc@ == AccumulatorView::empty(),
            acc@.valid(),
            !acc.clock().is_simulated(),
    {
        SignatureAccumulator::with_clock(Clock::monotonic())
    }

    /// Adds the given signature to the list of pending signatures or to the
    /// appropriate `SignedMessage`. Returns the message, if it has enough
    /// signatures now. The call is stamped with the time that the accumulator's
    /// clock shows.
    pub fn add_signature(
        &mut self,
        group_size: usize,
        hash: Digest256,
        sig: Signature,
        pub_info: PublicInfo,
    ) -> (out: Option<(SignedMessage, u8)>)
        ensures
            exists|now: u64|
                (Outcome { state: final(self)@, emitted: emitted_view(out) }) == old(
                    self,
                )@.after_signature(now, group_size as nat, hash, pub_info, sig),
            final(self)@.valid(),
            final(self).clock() == old(self).clock(),
    {
        let now = self.clock.now();
        self.add_signature_at(now, group_size, hash, sig, pub_info)
    }

    /// Adds the given message to the list of pending messages. Returns it if it
    /// has enough signatures. The call is stamped with the time that the
    /// accumulator's clock shows.
    pub fn add_message(&mut self, msg: SignedMessage, group_size: usize, route: u8) -> (out: Option<
        (SignedMessage, u8),
    >)
        ensures
            exists|now: u64|
                (Outcome { state: final(self)@, emitted: emitted_view(out) }) == old(
                    self,
                )@.after_hashed_message(
                    now,
                    group_size as nat,
                    message_hash(msg@.content),
                    msg@,
                    route,
                ),
            final(self)@.valid(),
            final(self).clock() == old(self).clock(),
    {
        let now = self.clock.now();
        self.add_message_at(now, msg, group_size, route)
    }

    /// Drops every entry that is older than the accumulation window at the time
    /// that the accumulator's clock shows.
    pub fn remove_expired(&mut self)
        ensures
            exists|now: u64| final(self)@ == old(self)@.swept(now),
            final(self)@.valid(),
            final(self).clock() == old(self).clock(),
    {
        let now = self.clock.now();
        self.remove_expired_at(now);
    }

    /// For how many hashes a message is pending.
    pub fn pending_messages(&self) -> (count: usize)
        ensures
            self@.valid(),
            self@.msgs.dom().finite(),
            count == self@.msgs.dom().len(),
    {
        proof {
            use_type_invariant(self);
        }
        let count = self.msgs.len();
        assert(self@.msgs.dom() =~= self.msgs@.dom());
        count
    }

    /// For how many hashes signatures wait for their message.
    pub fn pending_signature_entries(&self) -> (count: usize)
        ensures
            self@.valid(),
            self@.sigs.dom().finite(),
            count == self@.sigs.dom().len(),
    {
        proof {
            use_type_invariant(self);
        }
        let count = self.sigs.len();
        assert(self@.sigs.dom() =~= self.sigs@.dom());
        count
    }

    /// How many signatures wait for the message with the given hash.
    pub fn pending_signatures(&self, hash: &Digest256) -> (count: usize)
        ensures
            count == if self@.sigs.contains_key(*hash) {
                self@.sigs[*hash].value.len()
            } else {
                0
            },
    {
        match self.sigs.get(hash) {
            Some(entry) => entry.value.len(),
            None => 0,
        }
    }

    /// The message that is pending for `hash`, if there is one.
    pub fn pending_message(&self, hash: &Digest256) -> (pending: Option<&SignedMessage>)
        ensures
            match pending {
                Some(msg) => self@.msgs.contains_key(*hash) && msg@ == self@.msgs[*hash].value.msg,
                None => !self@.msgs.contains_key(*hash),
            },
    {
        match self.msgs.get(hash) {
            Some(entry) => Some(&entry.value.msg),
            None => None,
        }
    }

    /// The routing tag of the message that is pending for `hash`, if there is
    /// one.
    pub fn pending_route(&self, hash: &Digest256) -> (route: Option<u8>)
        ensures
            route == if self@.msgs.contains_key(*hash) {
                Some(self@.msgs[*hash].value.route)
            } else {
                None
            },
    {
        match self.msgs.get(hash) {
            Some(entry) => Some(entry.value.route),
            None => None,
        }
    }

    /// The arrival time of what is held for `hash`, message or signatures, if
    /// anything is.
    pub fn pending_arrival(&self, hash: &Digest256) -> (arrival: Option<u64>)
        ensures
            arrival == if self@.msgs.contains_key(*hash) {
                Some(self@.msgs[*hash].arrival)
            } else if self@.sigs.contains_key(*hash) {
                Some(self@.sigs[*hash].arrival)
            } else {
                None
            },
    {
        match self.msgs.get(hash) {
            Some(entry) => Some(entry.arrival),
            None => match self.sigs.get(hash) {
                Some(entry) => Some(entry.arrival),
                None => None,
            },
        }
    }

    /// Drops every entry that is older than the accumulation window at `now`.
    pub fn remove_expired_at(&mut self, now: u64)
        ensures
            final(self)@ == old(self)@.swept(now),
            final(self)@.valid(),
            final(self).clock() == old(self).clock(),
    {
        proof {
            use_type_invariant(&*self);
        }
        let mut sigs: PendingStore<Vec<SignatureRecord>> = PendingStore::new();
        std::mem::swap(&mut sigs, &mut self.sigs);
        sigs.remove_expired(now, ACCUMULATION_TIMEOUT_MILLIS);
        self.sigs = sigs;
        let mut msgs: PendingStore<PendingMessage> = PendingStore::new();
        std::mem::swap(&mut msgs, &mut self.msgs);
        msgs.remove_expired(now, ACCUMULATION_TIMEOUT_MILLIS);
        self.msgs = msgs;
        assert(self@ =~= old(self)@.swept(now));
    }

    /// The completion check for `hash`: a pending message that a quorum of its
    /// voters has signed, for a group of `group_size` members, leaves the
    /// accumulator and is returned with its routing tag.
    pub fn remove_if_complete(&mut self, group_size: usize, hash: &Digest256) -> (out: Option<
        (SignedMessage, u8),
    >)
        ensures
            (Outcome { state: final(self)@, emitted: emitted_view(out) }) == old(self)@.completed(
                group_size as nat,
                *hash,
            ),
            final(self)@.valid(),
            final(self).clock() == old(self).clock(),
    {
        proof {
            use_type_invariant(&*self);
        }
        match self.msgs.get(hash) {
            None => {
                return None;
            },
            Some(entry) => {
                if !entry.value.msg.check_fully_signed(group_size) {
                    return None;
                }
            },
        }
        let mut msgs: PendingStore<PendingMessage> = PendingStore::new();
        std::mem::swap(&mut msgs, &mut self.msgs);
        let taken = msgs.remove(hash);
        self.msgs = msgs;
        assert(self@ =~= old(self)@.completed(group_size as nat, *hash).state);
        match taken {
            Some(entry) => Some((entry.value.msg, entry.value.route)),
            None => None,
        }
    }

    /// Adds the given signature, handed in at `now`, to the list of pending
    /// signatures or to the pending message for `hash`. Returns the message, if
    /// it has enough signatures now.
    pub fn add_signature_at(
        &mut self,
        now: u64,
        group_size: usize,
        hash: Digest256,
        sig: Signature,
        pub_info: PublicInfo,
    ) -> (out: Option<(SignedMessage, u8)>)
        ensures
            (Outcome { state: final(self)@, emitted: emitted_view(out) }) == old(
                self,
            )@.after_signature(now, group_size as nat, hash, pub_info, sig),
            final(self)@.valid(),
            final(self).clock() == old(self).clock(),
    {
        self.remove_expired_at(now);
        proof {
            use_type_invariant(&*self);
        }
        let ghost fresh = self@;
        let mut msgs: PendingStore<PendingMessage> = PendingStore::new();
        std::mem::swap(&mut msgs, &mut self.msgs);
        match msgs.remove(&hash) {
            Some(entry) => {
                let mut pending = entry.value;
                pending.msg.add_signature(pub_info, sig);
                msgs.insert(hash, pending, entry.arrival);
                self.msgs = msgs;
                assert(self@ =~= (AccumulatorView {
                    msgs: fresh.msgs.insert(
                        hash,
                        Stamped {
                            value: PendingMessageView {
                                msg: fresh.msgs[hash].value.msg.with_signature(pub_info, sig),
                                route: fresh.msgs[hash].value.route,
                            },
                            arrival: fresh.msgs[hash].arrival,
                        },
                    ),
                    ..fresh
                }));
                self.remove_if_complete(group_size, &hash)
            },
            None => {
                self.msgs = msgs;
                assert(self@ =~= fresh);
                let mut sigs: PendingStore<Vec<SignatureRecord>> = PendingStore::new();
                std::mem::swap(&mut sigs, &mut self.sigs);
                let (mut records, arrival) = match sigs.remove(&hash) {
                    Some(entry) => (entry.value, entry.arrival),
                    None => (Vec::new(), now),
                };
                records.push((pub_info, sig));
                sigs.insert(hash, records, arrival);
                self.sigs = sigs;
                assert(self@ =~= old(self)@.after_signature(
                    now,
                    group_size as nat,
                    hash,
                    pub_info,
                    sig,
                ).state);
                None
            },
        }
    }

    /// Adds the given message, which arrived at `now` and whose content hash
    /// came out as `hash`, to the list of pending messages. Returns it if it has
    /// enough signatures. A message without a hash is dropped.
    pub fn add_hashed_message_at(
        &mut self,
        now: u64,
        hash: Option<Digest256>,
        msg: SignedMessage,
        group_size: usize,
        route: u8,
    ) -> (out: Option<(SignedMessage, u8)>)
        ensures
            (Outcome { state: final(self)@, emitted: emitted_view(out) }) == old(
                self,
            )@.after_hashed_message(now, group_size as nat, hash, msg@, route),
            final(self)@.valid(),
            final(self).clock() == old(self).clock(),
    {
        self.remove_expired_at(now);
        let hash = match hash {
            Some(hash) => hash,
            None => {
                return None;
            },
        };
        proof {
            use_type_invariant(&*self);
        }
        let ghost fresh = self@;
        let mut msgs: PendingStore<PendingMessage> = PendingStore::new();
        std::mem::swap(&mut msgs, &mut self.msgs);
        match msgs.remove(&hash) {
            Some(entry) => {
                let mut pending = entry.value;
                pending.msg.add_signatures(msg);
                msgs.insert(hash, pending, entry.arrival);
                self.msgs = msgs;
                assert(self@ =~= (AccumulatorView {
                    msgs: fresh.msgs.insert(
                        hash,
                        Stamped {
                            value: PendingMessageView {
                                msg: fresh.msgs[hash].value.msg.with_signatures(msg@.signatures),
                                route: fresh.msgs[hash].value.route,
                            },
                            arrival: fresh.msgs[hash].arrival,
                        },
                    ),
                    ..fresh
                }));
            },
            None => {
                let mut sigs: PendingStore<Vec<SignatureRecord>> = PendingStore::new();
                std::mem::swap(&mut sigs, &mut self.sigs);
                let records = match sigs.remove(&hash) {
                    Some(entry) => entry.value,
                    None => Vec::new(),
                };
                let mut msg = msg;
                let ghost arrived = msg@;
                let mut i: usize = 0;
                while i < records.len()
                    invariant
                        i <= records.len(),
                        msg@ == arrived.with_records(records@.subrange(0, i as int)),
                    decreases records.len() - i,
                {
                    let record = records[i];
                    proof {
                        let next = records@.subrange(0, i + 1);
                        assert(next.drop_last() =~= records@.subrange(0, i as int));
                        assert(next.last() == record);
                    }
                    msg.add_signature(record.0, record.1);
                    i += 1;
                }
                assert(records@.subrange(0, i as int) =~= records@);
                self.sigs = sigs;
                msgs.insert(hash, PendingMessage { msg, route }, now);
                self.msgs = msgs;
                assert(self@ =~= (AccumulatorView {
                    sigs: fresh.sigs.remove(hash),
                    msgs: fresh.msgs.insert(
                        hash,
                        Stamped {
                            value: PendingMessageView {
                                msg: arrived.with_records(
                                    if fresh.sigs.contains_key(hash) {
                                        fresh.sigs[hash].value
                                    } else {
                                        Seq::empty()
                                    },
                                ),
                                route,
                            },
                            arrival: now,
                        },
                    ),
                }));
            },
        }
        self.remove_if_complete(group_size, &hash)
    }

    /// Adds the given message, which arrived at `now`, to the list of pending
    /// messages. Returns it if it has enough signatures. A message whose content
    /// cannot be encoded is dropped.
    pub fn add_message_at(&mut self, now: u64, msg: SignedMessage, group_size: usize, route: u8) -> (out:
        Option<(SignedMessage, u8)>)
        ensures
            (Outcome { state: final(self)@, emitted: emitted_view(out) }) == old(
                self,
            )@.after_hashed_message(
                now,
                group_size as nat,
                message_hash(msg@.content),
                msg@,
                route,
            ),
            final(self)@.valid(),
            final(self).clock() == old(self).clock(),
    {
        let hash = content_hash(msg.routing_message());
        self.add_hashed_message_at(now, hash, msg, group_size, route)
    }
}

impl Default for SignatureAccumulator {
    fn default() -> (acc: SignatureAccumulator)
        ensures
            acc@ == AccumulatorView::empty(),
            acc@.valid(),
            !acc.clock().is_simulated(),
    {
        SignatureAccumulator::new()
    }
}

} // verus!
