//! The regions the viewer knows of and the state of their connections.

use std::collections::HashMap;
use vstd::prelude::*;
use vstd::std_specs::hash::group_hash_axioms;
use crate::data::ids::RegionId;
use crate::data::terrain::PatchPosition;

verus! {

broadcast use group_hash_axioms;

/// Why a region could not be served.
#[derive(Clone, Copy, Debug, PartialEq, Eq, Structural)]
pub enum StorageError {
    /// Region not registered at all.
    NotRegistered(RegionId),
}

/// The extent of a region.
#[derive(Clone, Copy, Debug, PartialEq, Eq, Structural)]
pub struct RegionDimensions {
    /// Side length of the region in meters.
    pub side_meters: u32,
    /// Number of patches per side.
    pub patches_per_side: u8,
    /// Number of height samples along one side of a patch.
    pub patch_size_axis: u8,
}

impl RegionDimensions {
    /// The patch that the point `x_meters`, `y_meters` of the region lies in.
    /// Patches are squares of `side_meters / patches_per_side` meters; a
    /// point beyond the last patch counts to the last patch. A region without
    /// patches, or with patches of less than a meter, has all points in
    /// patch (0, 0).
    pub open spec fn patch_of(self, x_meters: u32, y_meters: u32) -> PatchPosition {
        PatchPosition {
            x: self.patch_along(x_meters),
            y: self.patch_along(y_meters),
        }
    }

    /// The patch coordinate of a coordinate in meters.
    pub open spec fn patch_along(self, meters: u32) -> u8 {
        if self.patches_per_side == 0 || self.side_meters / (self.patches_per_side as u32) == 0 {
            0
        } else if meters / (self.side_meters / (self.patches_per_side as u32))
            >= self.patches_per_side {
            (self.patches_per_side - 1) as u8
        } else {
            (meters / (self.side_meters / (self.patches_per_side as u32))) as u8
        }
    }

    fn along(&self, meters: u32) -> (patch: u8)
        ensures
            patch == self.patch_along(meters),
    {
        if self.patches_per_side == 0 {
            return 0;
        }
        let patch_meters: u32 = self.side_meters / (self.patches_per_side as u32);
        if patch_meters == 0 {
            return 0;
        }
        let index: u32 = meters / patch_meters;
        if index >= self.patches_per_side as u32 {
            self.patches_per_side - 1
        } else {
            index as u8
        }
    }

    /// The patch that a point of the region lies in; see [`Self::patch_of`].
    pub fn patch_at(&self, x_meters: u32, y_meters: u32) -> (position: PatchPosition)
        ensures
            position == self.patch_of(x_meters, y_meters),
    {
        PatchPosition { x: self.along(x_meters), y: self.along(y_meters) }
    }
}

/// A region the viewer is connected to.
#[derive(Clone, Copy, Debug, PartialEq, Eq, Structural)]
pub struct Region {
    /// The UUID of the region on the simulator.
    pub uuid: u128,
    /// The id of the region in the viewer.
    pub id: RegionId,
    /// Dimensions of this region.
    pub dimensions: RegionDimensions,
}

impl Region {
    /// A region with the given identifiers and dimensions.
    pub fn new(uuid: u128, id: RegionId, dimensions: RegionDimensions) -> (region: Self)
        ensures
            region == (Region { uuid, id, dimensions }),
    {
        Region { uuid, id, dimensions }
    }

    /// Dimensions of this region.
    pub fn dimensions(&self) -> (dimensions: &RegionDimensions)
        ensures
            *dimensions == self.dimensions,
    {
        &self.dimensions
    }
}

/// The state of the connection to a region.
#[derive(Clone, Copy, Debug, PartialEq, Eq, Structural)]
pub enum Connection {
    /// The connection to the region is not yet established.
    Pending,
    /// Connecting to the region failed.
    Failed,
    /// The connection to the region is established.
    Connected(Region),
    /// The connection to the region was dropped.
    Disconnected,
}

impl Connection {
    /// The region, while the connection is established.
    pub fn clone_region(&self) -> (region: Option<Region>)
        ensures
            region == match *self {
                Connection::Connected(r) => Some(r),
                _ => None::<Region>,
            },
    {
        match self {
            Connection::Connected(region) => Some(*region),
            _ => None,
        }
    }
}

/// The connection state of every region the viewer was told of.
pub struct RegionStorage {
    regions: HashMap<RegionId, Connection>,
}

impl View for RegionStorage {
    type V = Map<RegionId, Connection>;

    closed spec fn view(&self) -> Map<RegionId, Connection> {
        self.regions@
    }
}

impl RegionStorage {
    /// A storage that knows no region.
    pub fn new() -> (storage: Self)
        ensures
            storage@ == Map::<RegionId, Connection>::empty(),
    {
        RegionStorage { regions: HashMap::new() }
    }

    /// The connection state of the region `id`, as it is now. A region that
    /// was never put is not registered.
    pub fn get(&self, id: &RegionId) -> (connection: Result<Connection, StorageError>)
        ensures
            connection == if self@.contains_key(*id) {
                Ok::<Connection, StorageError>(self@[*id])
            } else {
                Err::<Connection, StorageError>(StorageError::NotRegistered(*id))
            },
    {
        match self.regions.get(id) {
            Some(connection) => Ok(*connection),
            None => Err(StorageError::NotRegistered(*id)),
        }
    }

    /// Sets the connection state of the region `id`.
    pub fn put(&mut self, id: RegionId, connection: Connection)
        ensures
            final(self)@ == old(self)@.insert(id, connection),
    {
        self.regions.insert(id, connection);
    }
}

} // verus!
