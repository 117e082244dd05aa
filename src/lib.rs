//! Header digest logs: a five-variant tagged item model, its binary codec,
//! selector-based queries over items, and an ordered log of items.

pub mod item;
pub mod compact;
pub mod codec;
pub mod query;
pub mod digest;

pub use codec::DecodeError;
pub use digest::Digest;
pub use item::{ConsensusEngineId, DigestItem, DigestItemRef, DigestItemType, OpaqueDigestItemId};
