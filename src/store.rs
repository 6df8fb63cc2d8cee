//! The capabilities that the local shard store asks of its keys and values.
use crate::codec::CanSerialize;
use crate::shard::{Shard, ShardID};
use vstd::prelude::*;

verus! {

/// A type that can serve as a lookup key in the local shard store: its
/// values compare by content and have stable bytes.
pub trait IsKey {}

/// A type that can serve as a value in the local shard store: its values
/// have a reversible byte encoding.
pub trait IsValue: CanSerialize {}

impl IsKey for ShardID {}

impl IsValue for Shard {}

} // verus!
