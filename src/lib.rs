//! A ranked table of targets that collect staked balances from contributors,
//! with lazy proportional sharing of the rewards injected into each target.
pub mod record;
pub mod reward_sharing;
pub mod table_data;
pub mod table;
pub mod registry;

use vstd::prelude::*;

verus! {

/// Identifier of a contributor (a voter account).
pub type AccountId = u64;

/// Identifier of a target that receives votes.
pub type TargetId = u64;

/// An amount of the table's asset.
pub type Balance = u64;

/// A reward accounting period.
pub type Period = u64;

/// Identifier of a table.
pub type TableId = u64;

/// Identifier of the asset a table votes and rewards with.
pub type AssetId = u64;

} // verus!
