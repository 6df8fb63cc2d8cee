//! Storage and distribution core of a peer-to-peer network: content-addressed
//! shards, the partition of a payload into shards, a reversible byte encoding
//! of shards, and the client-side operation queue with its quorum rules.

pub mod client;
pub mod codec;
pub mod digits;
pub mod error;
pub mod hash;
pub mod shard;
pub mod store;
