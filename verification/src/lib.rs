//! A threshold-signature accumulator: it gathers signatures from distinct peers
//! over one message, whichever of message and signatures arrives first, and hands
//! the message back, with the routing tag it came with, as soon as a quorum of its
//! senders has signed it. Evidence that does not reach a quorum within the
//! accumulation window is dropped.

pub mod accumulator;
pub mod assoc;
pub mod clock;
pub mod hashing;
pub mod identity;
pub mod laws;
pub mod message;
pub mod model;
pub mod order;
pub mod store;

pub use accumulator::SignatureAccumulator;
pub use clock::Clock;
pub use hashing::content_hash;
pub use identity::{digest_eq, Digest256, PublicInfo, Signature, SignatureRecord};
pub use message::{IntegrityError, RoutingMessage, SignedMessage};
pub use model::{ACCUMULATION_TIMEOUT_MILLIS, ACCUMULATION_TIMEOUT_SECS};
