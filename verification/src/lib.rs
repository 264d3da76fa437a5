//! Verified models of the Borlaug pallets: identity, groups, asset registry and audits.
use vstd::prelude::*;

pub mod asset_registry;
pub mod audits;
pub mod catalogs;
pub mod collective;
pub mod collective_proposals;
pub mod groups;
pub mod hashing;
pub mod identity;
pub mod identity_queries;
pub mod primitives;
pub mod table;
pub mod weight_inputs;

verus! {
} // verus!
