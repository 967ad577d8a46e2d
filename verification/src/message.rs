//! The message record: routable content, the peers entitled to sign it, and the
//! signatures gathered so far, at most one per peer.

use crate::assoc::{distinct_keys, keyed, lemma_keyed_empty, lemma_keyed_len, lemma_keyed_push, lemma_keyed_remove};
use crate::identity::{PublicInfo, Signature, SignatureRecord};
use vstd::prelude::*;

verus! {

/// A quorum is strictly more than `QUORUM_NUMERATOR / QUORUM_DENOMINATOR` of the
/// voters.
pub const QUORUM_NUMERATOR: usize = 2;

/// See [`QUORUM_NUMERATOR`].
pub const QUORUM_DENOMINATOR: usize = 3;

/// Whether `votes` out of `voters` is a quorum: strictly more than two thirds.
pub open spec fn quorum(votes: nat, voters: nat) -> bool {
    votes * QUORUM_DENOMINATOR > voters * QUORUM_NUMERATOR
}

/// The routable content of a message: where it comes from, where it goes, and
/// its payload. Signatures are made over this and are no part of it.
#[derive(Debug, PartialEq, Eq)]
pub struct RoutingMessage {
    pub src: [u8; 32],
    pub dst: [u8; 32],
    pub content: Vec<u8>,
}

/// What a [`RoutingMessage`] holds.
#[verifier::ext_equal]
pub struct RoutingMessageView {
    pub src: [u8; 32],
    pub dst: [u8; 32],
    pub content: Seq<u8>,
}

impl View for RoutingMessage {
    type V = RoutingMessageView;

    open spec fn view(&self) -> RoutingMessageView {
        RoutingMessageView { src: self.src, dst: self.dst, content: self.content@ }
    }
}

/// A copy of `bytes`.
fn copy_bytes(bytes: &Vec<u8>) -> (copy: Vec<u8>)
    ensures
        copy@ == bytes@,
{
    let mut copy: Vec<u8> = Vec::new();
    let mut i: usize = 0;
    while i < bytes.len()
        invariant
            i <= bytes.len(),
            copy@ == bytes@.subrange(0, i as int),
        decreases bytes.len() - i,
    {
        copy.push(bytes[i]);
        assert(bytes@.subrange(0, i + 1) =~= bytes@.subrange(0, i as int).push(bytes@[i as int]));
        i += 1;
    }
    assert(bytes@.subrange(0, i as int) =~= bytes@);
    copy
}

impl Clone for RoutingMessage {
    fn clone(&self) -> (copy: RoutingMessage)
        ensures
            copy@ == self@,
    {
        RoutingMessage { src: self.src, dst: self.dst, content: copy_bytes(&self.content) }
    }
}

impl RoutingMessage {
    /// The message from `src` to `dst` with the payload `content`.
    pub fn new(src: [u8; 32], dst: [u8; 32], content: Vec<u8>) -> (msg: RoutingMessage)
        ensures
            msg@ == (RoutingMessageView { src, dst, content: content@ }),
    {
        RoutingMessage { src, dst, content }
    }
}

/// What a [`SignedMessage`] holds: its content, the set of its senders, and the
/// signature of each sender that has signed.
#[verifier::ext_equal]
pub struct SignedMessageView {
    pub content: RoutingMessageView,
    pub senders: Set<PublicInfo>,
    pub signatures: Map<PublicInfo, Signature>,
}

impl SignedMessageView {
    /// Every signature is a sender's, and there are finitely many of both.
    pub open spec fn valid(self) -> bool {
        &&& self.senders.finite()
        &&& self.signatures.dom().finite()
        &&& self.signatures.dom().subset_of(self.senders)
    }

    /// The record after `signer` has handed in `sig`: a sender's signature takes
    /// the place of any earlier one of the same sender, and anyone else's is
    /// ignored.
    pub open spec fn with_signature(self, signer: PublicInfo, sig: Signature) -> SignedMessageView {
        if self.senders.contains(signer) {
            SignedMessageView { signatures: self.signatures.insert(signer, sig), ..self }
        } else {
            self
        }
    }

    /// The record after the signatures of `records` have been handed in one by
    /// one, first to last.
    pub open spec fn with_records(self, records: Seq<SignatureRecord>) -> SignedMessageView
        decreases records.len(),
    {
        if records.len() == 0 {
            self
        } else {
            self.with_records(records.drop_last()).with_signature(
                records.last().0,
                records.last().1,
            )
        }
    }

    /// The record after all of `signatures` have been handed in: those of senders
    /// are taken over, the others ignored.
    pub open spec fn with_signatures(
        self,
        signatures: Map<PublicInfo, Signature>,
    ) -> SignedMessageView {
        SignedMessageView {
            signatures: self.signatures.union_prefer_right(signatures.restrict(self.senders)),
            ..self
        }
    }

    /// How many peers have a vote when the group has `group_size` members: the
    /// senders, but no more than `group_size` of them.
    pub open spec fn voters(self, group_size: nat) -> nat {
        if self.senders.len() <= group_size {
            self.senders.len()
        } else {
            group_size
        }
    }

    /// Whether a quorum of the voters has signed.
    pub open spec fn fully_signed(self, group_size: nat) -> bool {
        quorum(self.signatures.dom().len(), self.voters(group_size))
    }
}

/// Handing in records with distinct signers one by one comes to the same as
/// handing in the map they stand for, so the order of the records does not
/// matter.
pub proof fn lemma_with_records_is_with_signatures(
    msg: SignedMessageView,
    records: Seq<SignatureRecord>,
)
    requires
        distinct_keys(records),
    ensures
        msg.with_records(records) == msg.with_signatures(keyed(records)),
    decreases records.len(),
{
    if records.len() == 0 {
        lemma_keyed_empty::<PublicInfo, Signature>();
        assert(msg.with_signatures(keyed(records)).signatures =~= msg.signatures);
    } else {
        let front = records.drop_last();
        let last = records.last();
        assert(front == records.remove(records.len() - 1));
        lemma_keyed_remove(records, records.len() - 1);
        lemma_with_records_is_with_signatures(msg, front);
        assert(keyed(records) =~= keyed(front).insert(last.0, last.1)) by {
            crate::assoc::lemma_keyed_at(records, records.len() - 1);
        }
        assert(msg.with_records(records).signatures =~= msg.with_signatures(
            keyed(records),
        ).signatures);
    }
}

/// Why a message does not pass [`SignedMessage::check_integrity`].
#[derive(Clone, Copy, Debug, PartialEq, Eq)]
pub enum IntegrityError {
    /// Fewer than a quorum of the voters have signed.
    NotEnoughSignatures,
}

/// A message together with the signatures gathered for it.
#[derive(Debug)]
pub struct SignedMessage {
    content: RoutingMessage,
    senders: Vec<PublicInfo>,
    signatures: Vec<SignatureRecord>,
}

impl View for SignedMessage {
    type V = SignedMessageView;

    closed spec fn view(&self) -> SignedMessageView {
        SignedMessageView {
            content: self.content@,
            senders: self.senders@.to_set(),
            signatures: keyed(self.signatures@),
        }
    }
}

/// Whether `list` holds `info`.
fn contains_info(list: &Vec<PublicInfo>, info: &PublicInfo) -> (found: bool)
    ensures
        found == list@.contains(*info),
{
    let mut i: usize = 0;
    while i < list.len()
        invariant
            i <= list.len(),
            forall|j: int| 0 <= j < i ==> list@[j] != *info,
        decreases list.len() - i,
    {
        if list[i].same_as(info) {
            return true;
        }
        i += 1;
    }
    false
}

/// Where `records` holds a signature of `signer`, if it does.
fn signer_position(records: &Vec<SignatureRecord>, signer: &PublicInfo) -> (pos: Option<usize>)
    ensures
        match pos {
            Some(i) => i < records.len() && records@[i as int].0 == *signer,
            None => !keyed(records@).contains_key(*signer),
        },
{
    let mut i: usize = 0;
    while i < records.len()
        invariant
            i <= records.len(),
            forall|j: int| 0 <= j < i ==> (#[trigger] records@[j]).0 != *signer,
        decreases records.len() - i,
    {
        if records[i].0.same_as(signer) {
            return Some(i);
        }
        i += 1;
    }
    None
}

impl Clone for SignedMessage {
    fn clone(&self) -> (copy: SignedMessage)
        ensures
            copy@ == self@,
    {
        proof {
            use_type_invariant(self);
        }
        let mut senders: Vec<PublicInfo> = Vec::new();
        let mut i: usize = 0;
        while i < self.senders.len()
            invariant
                i <= self.senders.len(),
                senders@ == self.senders@.subrange(0, i as int),
            decreases self.senders.len() - i,
        {
            senders.push(self.senders[i]);
            assert(self.senders@.subrange(0, i + 1) =~= self.senders@.subrange(0, i as int).push(
                self.senders@[i as int],
            ));
            i += 1;
        }
        let mut signatures: Vec<SignatureRecord> = Vec::new();
        let mut j: usize = 0;
        while j < self.signatures.len()
            invariant
                j <= self.signatures.len(),
                signatures@ == self.signatures@.subrange(0, j as int),
            decreases self.signatures.len() - j,
        {
            signatures.push(self.signatures[j]);
            assert(self.signatures@.subrange(0, j + 1) =~= self.signatures@.subrange(
                0,
                j as int,
            ).push(self.signatures@[j as int]));
            j += 1;
        }
        proof {
            assert(self.senders@.subrange(0, i as int) =~= self.senders@);
            assert(self.signatures@.subrange(0, j as int) =~= self.signatures@);
        }
        SignedMessage { content: self.content.clone(), senders, signatures }
    }
}

impl SignedMessage {
    #[verifier::type_invariant]
    spec fn well_formed(self) -> bool {
        &&& self.senders@.no_duplicates()
        &&& distinct_keys(self.signatures@)
        &&& forall|i: int|
            0 <= i < self.signatures@.len() ==> self.senders@.contains(
                (#[trigger] self.signatures@[i]).0,
            )
    }

    /// The message `content` as sent by the peers in `senders`, with no signature
    /// yet. A peer listed twice counts once.
    pub fn new(content: RoutingMessage, senders: Vec<PublicInfo>) -> (msg: SignedMessage)
        ensures
            msg@.content == content@,
            msg@.senders == senders@.to_set(),
            msg@.signatures == Map::<PublicInfo, Signature>::empty(),
            msg@.valid(),
    {
        let mut listed: Vec<PublicInfo> = Vec::new();
        let mut i: usize = 0;
        while i < senders.len()
            invariant
                i <= senders.len(),
                listed@.no_duplicates(),
                forall|p: PublicInfo|
                    listed@.contains(p) <==> senders@.subrange(0, i as int).contains(p),
            decreases senders.len() - i,
        {
            let info = senders[i];
            let ghost before = listed@;
            if !contains_info(&listed, &info) {
                listed.push(info);
            }
            proof {
                let seen = senders@.subrange(0, i as int);
                let seen_next = senders@.subrange(0, i + 1);
                assert(seen_next[i as int] == info);
                assert forall|p: PublicInfo|
                    listed@.contains(p) <==> seen_next.contains(p) by {
                    if listed@.contains(p) {
                        let j = choose|j: int| 0 <= j < listed@.len() && listed@[j] == p;
                        if j < before.len() {
                            assert(before[j] == p);
                            assert(before.contains(p));
                            assert(seen.contains(p));
                            let k = choose|k: int| 0 <= k < seen.len() && seen[k] == p;
                            assert(seen_next[k] == p);
                        }
                    }
                    if seen_next.contains(p) {
                        let k = choose|k: int| 0 <= k < seen_next.len() && seen_next[k] == p;
                        if k < i {
                            assert(seen[k] == p);
                            assert(before.contains(p));
                            let j = choose|j: int| 0 <= j < before.len() && before[j] == p;
                            assert(listed@[j] == p);
                        } else {
                            assert(p == info);
                            if before.contains(info) {
                                let j = choose|j: int| 0 <= j < before.len() && before[j] == p;
                                assert(listed@[j] == p);
                            } else {
                                assert(listed@[before.len() as int] == p);
                            }
                        }
                    }
                }
            }
            i += 1;
        }
        proof {
            assert(senders@.subrange(0, i as int) =~= senders@);
            assert(listed@.to_set() =~= senders@.to_set());
            lemma_keyed_empty::<PublicInfo, Signature>();
            vstd::seq_lib::seq_to_set_is_finite(listed@);
        }
        SignedMessage { content, senders: listed, signatures: Vec::new() }
    }

    /// The routable content.
    pub fn routing_message(&self) -> (content: &RoutingMessage)
        ensures
            content@ == self@.content,
    {
        &self.content
    }

    /// Takes in `sig` as the signature of `pub_info`, without validating it. A
    /// sender's signature replaces any earlier one of the same sender; the
    /// signature of a peer that is no sender is ignored.
    pub fn add_signature(&mut self, pub_info: PublicInfo, sig: Signature)
        ensures
            final(self)@ == old(self)@.with_signature(pub_info, sig),
            final(self)@.valid(),
    {
        proof {
            use_type_invariant(&*self);
            lemma_keyed_len(self.signatures@);
            vstd::seq_lib::seq_to_set_is_finite(self.senders@);
            self.lemma_signers_are_senders();
        }
        if !contains_info(&self.senders, &pub_info) {
            return ;
        }
        let mut signatures: Vec<SignatureRecord> = Vec::new();
        proof {
            lemma_keyed_empty::<PublicInfo, Signature>();
        }
        std::mem::swap(&mut signatures, &mut self.signatures);
        let ghost before = signatures@;
        match signer_position(&signatures, &pub_info) {
            Some(i) => {
                proof {
                    lemma_keyed_remove(before, i as int);
                }
                let _ = signatures.remove(i);
            },
            None => {},
        }
        proof {
            lemma_keyed_push(signatures@, pub_info, sig);
            assert(keyed(signatures@.push((pub_info, sig))) =~= keyed(before).insert(pub_info, sig));
            let after = signatures@.push((pub_info, sig));
            assert forall|i: int| 0 <= i < after.len() implies self.senders@.contains(
                (#[trigger] after[i]).0,
            ) by {
                if i < signatures@.len() {
                    assert(keyed(signatures@).contains_key(signatures@[i].0)) by {
                        crate::assoc::lemma_keyed_at(signatures@, i);
                    }
                    assert(keyed(before).contains_key(after[i].0));
                }
            }
            lemma_keyed_len(after);
        }
        signatures.push((pub_info, sig));
        self.signatures = signatures;
    }

    /// Takes in all signatures of `msg`, without validating them: those of this
    /// message's senders are taken over, replacing earlier ones of the same
    /// sender, and the others are ignored.
    pub fn add_signatures(&mut self, msg: SignedMessage)
        ensures
            final(self)@ == old(self)@.with_signatures(msg@.signatures),
            final(self)@.valid(),
    {
        proof {
            use_type_invariant(&*self);
            use_type_invariant(&msg);
            lemma_keyed_len(self.signatures@);
            vstd::seq_lib::seq_to_set_is_finite(self.senders@);
            self.lemma_signers_are_senders();
        }
        let mut i: usize = 0;
        while i < msg.signatures.len()
            invariant
                i <= msg.signatures.len(),
                self@ == old(self)@.with_records(msg.signatures@.subrange(0, i as int)),
                self@.valid(),
            decreases msg.signatures.len() - i,
        {
            let record = msg.signatures[i];
            proof {
                let next = msg.signatures@.subrange(0, i + 1);
                assert(next.drop_last() =~= msg.signatures@.subrange(0, i as int));
                assert(next.last() == record);
            }
            self.add_signature(record.0, record.1);
            i += 1;
        }
        proof {
            assert(msg.signatures@.subrange(0, i as int) =~= msg.signatures@);
            lemma_with_records_is_with_signatures(old(self)@, msg.signatures@);
        }
    }

    /// Whether `pub_info` has signed.
    pub fn signed_by(&self, pub_info: &PublicInfo) -> (signed: bool)
        ensures
            signed == self@.signatures.contains_key(*pub_info),
    {
        signer_position(&self.signatures, pub_info).is_some()
    }

    /// How many peers have signed.
    pub fn signature_count(&self) -> (count: usize)
        ensures
            self@.signatures.dom().finite(),
            count == self@.signatures.dom().len(),
    {
        proof {
            use_type_invariant(self);
            lemma_keyed_len(self.signatures@);
        }
        self.signatures.len()
    }

    /// How many senders the message lists.
    pub fn sender_count(&self) -> (count: usize)
        ensures
            self@.senders.finite(),
            count == self@.senders.len(),
    {
        proof {
            use_type_invariant(self);
            self.senders@.unique_seq_to_set();
            vstd::seq_lib::seq_to_set_is_finite(self.senders@);
        }
        self.senders.len()
    }

    /// Whether a quorum of the voters has signed, for a group of `group_size`
    /// members.
    pub fn check_fully_signed(&self, group_size: usize) -> (full: bool)
        ensures
            full == self@.fully_signed(group_size as nat),
    {
        let votes = self.signature_count();
        let listed = self.sender_count();
        let voters = if listed <= group_size {
            listed
        } else {
            group_size
        };
        (votes as u128) * (QUORUM_DENOMINATOR as u128) > (voters as u128) * (QUORUM_NUMERATOR as u128)
    }

    /// `Ok` when a quorum of the voters has signed, for a group of `group_size`
    /// members, and the reason otherwise.
    pub fn check_integrity(&self, group_size: usize) -> (checked: Result<(), IntegrityError>)
        ensures
            checked.is_ok() == self@.fully_signed(group_size as nat),
            checked.is_err() ==> checked == Err::<(), IntegrityError>(
                IntegrityError::NotEnoughSignatures,
            ),
    {
        if self.check_fully_signed(group_size) {
            Ok(())
        } else {
            Err(IntegrityError::NotEnoughSignatures)
        }
    }

    proof fn lemma_signers_are_senders(self)
        requires
            self.well_formed(),
        ensures
            self@.signatures.dom().subset_of(self@.senders),
    {
        assert forall|p: PublicInfo| self@.signatures.dom().contains(p) implies self@.senders.contains(
            p,
        ) by {
            crate::assoc::lemma_keyed_position(self.signatures@, p);
        }
    }
}

} // verus!
