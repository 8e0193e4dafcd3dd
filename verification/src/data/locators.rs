//! Locations by grid, region and patch.

use vstd::prelude::*;
use crate::data::terrain::PatchPosition;

verus! {

/// The column and row of a region on its grid.
#[derive(Clone, Copy, Debug, PartialEq, Eq, Structural)]
pub struct GridPosition {
    pub x: u32,
    pub y: u32,
}

/// Points to a specific region on a specific grid.
#[derive(Debug)]
pub struct RegionLocator {
    /// The grid's address.
    pub grid: String,
    /// Where the region lies on the grid.
    pub reg_pos: GridPosition,
}

/// Locates a patch in a region.
#[derive(Debug)]
pub struct PatchLocator {
    pub region: RegionLocator,
    pub patch_pos: PatchPosition,
}

} // verus!
