//! The identity hasher: the content hash of a message is the SHA3-256 digest of
//! the canonical encoding of its routable content. Signatures are no part of
//! what is hashed, so signing never changes a message's hash.

use crate::identity::Digest256;
use crate::message::{RoutingMessage, RoutingMessageView};
use maidsafe_utilities::serialisation::SerialisationError;
use vstd::prelude::*;

verus! {

/// The canonical encoding of a message with the given source, destination and
/// payload, as `maidsafe_utilities::serialisation::serialise` produces it for
/// the three taken as a tuple; `None` where it reports an error.
pub uninterp spec fn serialised_message(src: Seq<u8>, dst: Seq<u8>, content: Seq<u8>) -> Option<
    Seq<u8>,
>;

/// The SHA3-256 digest of `data`, as `tiny_keccak::sha3_256` computes it.
pub uninterp spec fn sha3_256_digest(data: Seq<u8>) -> Digest256;

/// The content hash of a message, where its content can be encoded.
pub open spec fn message_hash(msg: RoutingMessageView) -> Option<Digest256> {
    match serialised_message(msg.src@, msg.dst@, msg.content) {
        Some(encoded) => Some(sha3_256_digest(encoded)),
        None => None,
    }
}

/// The error type of `maidsafe_utilities::serialisation`.
#[verifier::external_type_specification]
#[verifier::external_body]
pub struct ExSerialisationError(SerialisationError);

/// Calls `maidsafe_utilities::serialisation::serialise` on the message's source,
/// destination and payload, taken as a tuple. Trusted: the encoding depends on
/// these three values alone, so the outcome is the one that
/// [`serialised_message`] names.
#[verifier::external_body]
fn serialise(msg: &RoutingMessage) -> (encoded: Result<Vec<u8>, SerialisationError>)
    ensures
        match encoded {
            Ok(bytes) => serialised_message(msg.src@, msg.dst@, msg.content@) == Some(bytes@),
            Err(_) => serialised_message(msg.src@, msg.dst@, msg.content@).is_none(),
        },
{
    maidsafe_utilities::serialisation::serialise(&(&msg.src, &msg.dst, &msg.content))
}

/// Calls `tiny_keccak::sha3_256`. Trusted: the digest depends on the bytes
/// alone, so it is the one that [`sha3_256_digest`] names.
#[verifier::external_body]
fn sha3_256(data: &Vec<u8>) -> (digest: Digest256)
    ensures
        digest == sha3_256_digest(data@),
{
    tiny_keccak::sha3_256(data)
}

/// The content hash of `msg`, or `None` where its content cannot be encoded.
pub fn content_hash(msg: &RoutingMessage) -> (hash: Option<Digest256>)
    ensures
        hash == message_hash(msg@),
{
    match serialise(msg) {
        Ok(encoded) => Some(sha3_256(&encoded)),
        Err(_) => None,
    }
}

} // verus!
