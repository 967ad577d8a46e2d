//! Content hashes, signer identities and signatures: the fixed-width byte values
//! that the accumulator keys and compares.

use vstd::prelude::*;

verus! {

/// A 256-bit content hash. It identifies a message across out-of-order delivery:
/// two messages with the same hash are treated as the same message.
pub type Digest256 = [u8; 32];

/// Whether two content hashes hold the same bytes.
pub fn digest_eq(a: &Digest256, b: &Digest256) -> (same: bool)
    ensures
        same == (*a == *b),
{
    let mut i: usize = 0;
    while i < 32
        invariant
            i <= 32,
            forall|j: int| 0 <= j < i ==> a[j] == b[j],
        decreases 32 - i,
    {
        if a[i] != b[i] {
            return false;
        }
        i += 1;
    }
    assert(*a =~= *b);
    true
}

/// The public identity of one peer: its public signing key. Two values name the
/// same peer exactly when their keys are equal.
#[derive(Clone, Copy, Debug, PartialEq, Eq, PartialOrd, Ord, Hash)]
pub struct PublicInfo {
    pub key: [u8; 32],
}

impl PublicInfo {
    /// The identity with the given public signing key.
    pub fn new(key: [u8; 32]) -> (info: PublicInfo)
        ensures
            info.key == key,
    {
        PublicInfo { key }
    }

    /// Whether `self` and `other` name the same peer.
    pub fn same_as(&self, other: &PublicInfo) -> (same: bool)
        ensures
            same == (*self == *other),
    {
        digest_eq(&self.key, &other.key)
    }
}

/// A detached signature over a message's routable content. The accumulator
/// carries it and never looks inside.
#[derive(Clone, Copy, Debug, PartialEq, Eq)]
pub struct Signature {
    pub bytes: [u8; 64],
}

impl Signature {
    /// The signature with the given bytes.
    pub fn new(bytes: [u8; 64]) -> (sig: Signature)
        ensures
            sig.bytes == bytes,
    {
        Signature { bytes }
    }
}

/// One peer's endorsement: who signed, and the signature.
pub type SignatureRecord = (PublicInfo, Signature);

} // verus!
