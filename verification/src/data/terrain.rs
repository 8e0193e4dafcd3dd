//! Terrain patches and the two-tier storage that serves them.

use vstd::prelude::*;
use crate::cache::CacheError;
use crate::data::ids::RegionId;

pub mod codec;
pub mod request;
pub mod storage;

pub use self::request::PatchRequest;
pub use self::storage::TerrainStorage;

verus! {

/// The coordinate of a patch inside its region, on a grid of at most
/// 256 x 256 patches.
#[derive(Clone, Copy, Debug, PartialEq, Eq, Hash, Structural)]
pub struct PatchPosition {
    pub x: u8,
    pub y: u8,
}

/// Edge length of a patch, in height samples.
pub type PatchSize = usize;

/// Addresses one patch of one region.
pub type PatchHandle = (RegionId, PatchPosition);

/// Whether two handles address the same patch.
pub fn same_handle(a: &PatchHandle, b: &PatchHandle) -> (same: bool)
    ensures
        same == (*a == *b),
{
    a.0 == b.0 && a.1.x == b.1.x && a.1.y == b.1.y
}

/// The mathematical content of a [`TerrainPatch`].
pub struct PatchModel {
    /// The region the patch belongs to.
    pub region: RegionId,
    /// Edge length in samples.
    pub size: nat,
    /// Where the patch lies in its region.
    pub position: PatchPosition,
    /// The height samples as IEEE 754 single-precision bit patterns; the
    /// sample in row `x` and column `y` is at `x * size + y`.
    pub heights: Seq<u32>,
}

impl PatchModel {
    /// The grid is square: there are `size * size` samples.
    pub open spec fn wf(self) -> bool {
        self.heights.len() == self.size * self.size
    }

    /// The sample in row `x` and column `y`.
    pub open spec fn height_at(self, x: nat, y: nat) -> u32
        recommends
            x < self.size,
            y < self.size,
    {
        self.heights[(x * self.size + y) as int]
    }
}

/// A square tile of terrain heights. Immutable once constructed.
///
/// Heights are held as the bit patterns of 32-bit floats: the library moves
/// and stores them, and never does arithmetic on them.
#[derive(Debug)]
pub struct TerrainPatch {
    region: RegionId,
    size: PatchSize,
    position: PatchPosition,
    land_heightmap: Vec<u32>,
}

impl View for TerrainPatch {
    type V = PatchModel;

    closed spec fn view(&self) -> PatchModel {
        PatchModel {
            region: self.region,
            size: self.size as nat,
            position: self.position,
            heights: self.land_heightmap@,
        }
    }
}

/// Row `x`, column `y` of a `size` x `size` grid lies inside the grid's
/// `size * size` cells.
pub proof fn lemma_cell_in_grid(size: nat, x: nat, y: nat)
    requires
        x < size,
        y < size,
    ensures
        x * size + y < size * size,
{
    assert(x * size + y < size * size) by (nonlinear_arith)
        requires
            x + 1 <= size,
            y < size,
    ;
}

impl TerrainPatch {
    /// Every patch is square.
    #[verifier::type_invariant]
    pub open spec fn is_square(&self) -> bool {
        self@.wf()
    }

    /// A patch of `size` x `size` samples, given row by row in
    /// `land_heightmap`. There is no patch unless the number of samples is
    /// `size * size`.
    pub fn new(
        region: RegionId,
        size: PatchSize,
        position: PatchPosition,
        land_heightmap: Vec<u32>,
    ) -> (patch: Option<TerrainPatch>)
        ensures
            patch.is_some() <==> land_heightmap@.len() == size * size,
            patch matches Some(p) ==> p@ == (PatchModel {
                region,
                size: size as nat,
                position,
                heights: land_heightmap@,
            }),
    {
        let samples = land_heightmap.len();
        match size.checked_mul(size) {
            Some(cells) => {
                if samples == cells {
                    Some(Self::from_square(region, size, position, land_heightmap))
                } else {
                    None
                }
            },
            None => None,
        }
    }

    /// A patch from samples that are known to form a square.
    pub(crate) fn from_square(
        region: RegionId,
        size: PatchSize,
        position: PatchPosition,
        land_heightmap: Vec<u32>,
    ) -> (patch: TerrainPatch)
        requires
            land_heightmap@.len() == size * size,
        ensures
            patch@ == (PatchModel { region, size: size as nat, position, heights: land_heightmap@ }),
    {
        TerrainPatch { region, size, position, land_heightmap }
    }

    /// The region the patch belongs to.
    pub fn region(&self) -> (region: RegionId)
        ensures
            region == self@.region,
    {
        self.region
    }

    /// The handle under which the patch is stored: its region and position.
    pub fn handle(&self) -> (handle: PatchHandle)
        ensures
            handle == (self@.region, self@.position),
    {
        (self.region, self.position)
    }

    /// Returns the size of the patch.
    pub fn size(&self) -> (size: &PatchSize)
        ensures
            *size == self@.size,
    {
        &self.size
    }

    /// Returns the position of the patch.
    pub fn position(&self) -> (position: &PatchPosition)
        ensures
            *position == self@.position,
    {
        &self.position
    }

    /// The height samples, row by row.
    pub fn land_heightmap(&self) -> (heights: &Vec<u32>)
        ensures
            heights@ == self@.heights,
            self@.wf(),
    {
        proof {
            use_type_invariant(self);
        }
        &self.land_heightmap
    }

    /// The sample in row `x` and column `y` of the patch.
    pub(crate) fn sample(&self, x: usize, y: usize) -> (height: u32)
        requires
            x < self@.size,
            y < self@.size,
        ensures
            height == self@.height_at(x as nat, y as nat),
    {
        proof {
            use_type_invariant(self);
        }
        let cells = self.land_heightmap.len();
        proof {
            lemma_cell_in_grid(self.size as nat, x as nat, y as nat);
            assert(0 <= x * self.size <= x * self.size + y < cells) by (nonlinear_arith)
                requires
                    0 <= x,
                    0 <= y,
                    0 <= self.size,
                    (x as nat) * (self.size as nat) + (y as nat) < cells,
            ;
        }
        self.land_heightmap[x * self.size + y]
    }

    /// The sample in row `x` and column `y`, if the patch has such a cell.
    pub fn height_at(&self, x: usize, y: usize) -> (height: Option<u32>)
        ensures
            height == if x < self@.size && y < self@.size {
                Some(self@.height_at(x as nat, y as nat))
            } else {
                None::<u32>
            },
    {
        if x < self.size && y < self.size {
            Some(self.sample(x, y))
        } else {
            None
        }
    }
}

impl Clone for TerrainPatch {
    fn clone(&self) -> (copy: Self)
        ensures
            copy@ == self@,
    {
        proof {
            use_type_invariant(self);
        }
        let land_heightmap = self.land_heightmap.clone();
        assert(land_heightmap@ =~= self.land_heightmap@);
        TerrainPatch {
            region: self.region,
            size: self.size,
            position: self.position,
            land_heightmap,
        }
    }
}

/// Why a patch could not be served or stored.
#[derive(Clone, Copy, Debug, PartialEq, Eq, Structural)]
pub enum StorageError {
    /// The patch is in neither tier. Expected and recoverable: it may arrive
    /// later.
    NotFound,
    /// The disk tier failed.
    Cache(CacheError),
}

impl StorageError {
    /// Whether trying again later can help: it can for a patch that is not
    /// there yet, and cannot for a storage that is broken.
    pub fn is_recoverable(&self) -> (recoverable: bool)
        ensures
            recoverable == (*self == StorageError::NotFound),
    {
        match self {
            StorageError::NotFound => true,
            StorageError::Cache(_) => false,
        }
    }

    /// The error in words, for display.
    pub fn message(&self) -> (text: &'static str)
        ensures
            text@ == match *self {
                StorageError::NotFound => "Patch was not found."@,
                StorageError::Cache(CacheError::Io) => "Cache error: a file operation failed."@,
                StorageError::Cache(CacheError::Serialization) =>
                    "Cache error: stored data could not be decoded."@,
            },
    {
        match self {
            StorageError::NotFound => "Patch was not found.",
            StorageError::Cache(CacheError::Io) => "Cache error: a file operation failed.",
            StorageError::Cache(CacheError::Serialization) => {
                "Cache error: stored data could not be decoded."
            },
        }
    }
}

} // verus!
