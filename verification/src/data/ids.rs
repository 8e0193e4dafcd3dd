//! Identifiers of regions.

use vstd::prelude::*;

verus! {

/// Identifies a region for the lifetime of a session: the 128-bit value of
/// the region's UUID.
pub type RegionId = u128;

/// Identifies a region across sessions; the type used in cache keys.
pub type PersistentRegionId = u128;

} // verus!
