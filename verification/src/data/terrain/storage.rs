//! The two-tier terrain storage: patches near the observer in memory, all
//! patches in the disk cache.
//!
//! The storage holds the memory tier and the index of the disk tier. Reading
//! and writing the files of the disk tier is the caller's part:
//!
//! - to store a patch, the caller writes [`encode`](super::codec::encode)`(patch)`
//!   to the file numbered [`TerrainStorage::next_file_id`], hands the outcome
//!   to [`TerrainStorage::put_patch`], and deletes the files it returns;
//! - to fetch a patch, the caller asks [`TerrainStorage::get_patch`]; where
//!   the answer is a file, it reads the file and hands the outcome to
//!   [`TerrainStorage::load_patch`].

use std::collections::HashMap;
use vstd::prelude::*;
use vstd::std_specs::hash::group_hash_axioms;
use crate::cache::laws::lemma_put_then_get;
use crate::cache::model::entry_of;
use crate::cache::{CacheConfig, CacheEntry, CacheError, CacheIndex, IndexModel};
use crate::data::ids::RegionId;
use crate::data::terrain::codec::{decode, decoded, lemma_decode_encode, patch_bytes};
use crate::data::terrain::request::{PatchRequest, RequestPhase};
use crate::data::terrain::{PatchHandle, PatchModel, PatchPosition, StorageError, TerrainPatch};

verus! {

broadcast use group_hash_axioms;

/// Capacity of the terrain disk cache: 128 MiB.
pub const TERRAIN_CACHE_MAX_BYTES: u64 = 128 * 1024 * 1024;

/// The configuration of the terrain disk cache.
pub fn terrain_cache_config() -> (config: CacheConfig)
    ensures
        config == (CacheConfig { max_bytes: TERRAIN_CACHE_MAX_BYTES, subdirs_per_level: 20 }),
{
    CacheConfig { max_bytes: TERRAIN_CACHE_MAX_BYTES, subdirs_per_level: 20 }
}

/// Decides which patches are near enough to the observer to be kept in
/// memory.
pub trait RangePolicy {
    /// Whether a patch at `position` is in range of an observer at
    /// `observer`.
    spec fn covers(&self, observer: PatchPosition, position: PatchPosition) -> bool;

    /// Computes [`Self::covers`].
    fn within_range(&self, observer: &PatchPosition, position: &PatchPosition) -> (inside: bool)
        ensures
            inside == self.covers(*observer, *position),
    ;
}

/// Keeps every patch in memory, wherever the observer is.
#[derive(Clone, Copy, Debug)]
pub struct Everywhere;

impl RangePolicy for Everywhere {
    open spec fn covers(&self, observer: PatchPosition, position: PatchPosition) -> bool {
        true
    }

    fn within_range(&self, observer: &PatchPosition, position: &PatchPosition) -> (inside: bool) {
        true
    }
}

/// Keeps the patches of a square around the observer: those whose row and
/// column each differ from the observer's by at most `radius`.
#[derive(Clone, Copy, Debug)]
pub struct SquareRange {
    pub radius: u8,
}

/// The radius, in patches, of the square that the viewer keeps in memory.
pub const MEMORY_RADIUS: u8 = 4;

/// Distance between two coordinates.
pub open spec fn gap(a: u8, b: u8) -> int {
    if a <= b {
        b - a
    } else {
        a - b
    }
}

impl RangePolicy for SquareRange {
    open spec fn covers(&self, observer: PatchPosition, position: PatchPosition) -> bool {
        gap(observer.x, position.x) <= self.radius && gap(observer.y, position.y) <= self.radius
    }

    fn within_range(&self, observer: &PatchPosition, position: &PatchPosition) -> (inside: bool) {
        let dx: u8 = if observer.x <= position.x {
            position.x - observer.x
        } else {
            observer.x - position.x
        };
        let dy: u8 = if observer.y <= position.y {
            position.y - observer.y
        } else {
            observer.y - position.y
        };
        dx <= self.radius && dy <= self.radius
    }
}

/// Where a patch was found.
#[derive(Debug)]
pub enum PatchSource {
    /// In the memory tier: here it is.
    Memory(TerrainPatch),
    /// In the disk tier only: the caller reads the file of this entry.
    Disk(CacheEntry),
}

/// What a lookup finds, in terms of the model.
pub enum Lookup {
    /// The memory tier holds the patch.
    Memory(PatchModel),
    /// Only the disk tier holds the patch, in this entry's file.
    Disk(CacheEntry),
    /// Neither tier holds the patch.
    NotFound,
}

/// The mathematical content of a [`TerrainStorage`].
pub struct StorageModel {
    /// The position that ranges are measured from.
    pub observer: PatchPosition,
    /// The memory tier.
    pub hot: Map<PatchHandle, PatchModel>,
    /// The index of the disk tier.
    pub disk: IndexModel,
}

impl StorageModel {
    /// Where the patch `handle` is found: the memory tier is asked first.
    pub open spec fn lookup(self, handle: PatchHandle) -> Lookup {
        if self.hot.contains_key(handle) {
            Lookup::Memory(self.hot[handle])
        } else {
            match entry_of(self.disk.entries, handle) {
                Some(entry) => Lookup::Disk(entry),
                None => Lookup::NotFound,
            }
        }
    }

    /// The storage after `patch`, written as `size_bytes` bytes, is stored
    /// under `handle`: always in the disk tier, and in the memory tier too
    /// where `in_range` holds. The memory tier loses nothing.
    pub open spec fn store(
        self,
        handle: PatchHandle,
        patch: PatchModel,
        size_bytes: u64,
        in_range: bool,
    ) -> StorageModel {
        StorageModel {
            observer: self.observer,
            hot: if in_range {
                self.hot.insert(handle, patch)
            } else {
                self.hot
            },
            disk: self.disk.put(handle, size_bytes),
        }
    }

    /// The storage after the patch `handle` was read from its file.
    pub open spec fn loaded(self, handle: PatchHandle) -> StorageModel {
        StorageModel { observer: self.observer, hot: self.hot, disk: self.disk.touch(handle) }
    }
}

/// The number that stands for a position in the memory tier's tables.
pub open spec fn pack(position: PatchPosition) -> u16 {
    (position.x * 256 + position.y) as u16
}

fn pack_position(position: &PatchPosition) -> (code: u16)
    ensures
        code == pack(*position),
{
    let row: u16 = position.x as u16;
    let column: u16 = position.y as u16;
    row * 256 + column
}

/// The terrain storage manages both the terrain data for patches close to
/// the observer, in memory, and the index of a disk cache for all patches.
pub struct TerrainStorage<R: RangePolicy> {
    range: R,
    observer: PatchPosition,
    mem_storage: HashMap<RegionId, HashMap<u16, TerrainPatch>>,
    disk_storage: CacheIndex,
}

/// The memory tier as one map from handles to patches.
pub closed spec fn hot_map(tables: Map<RegionId, HashMap<u16, TerrainPatch>>) -> Map<
    PatchHandle,
    PatchModel,
> {
    Map::new(
        |h: PatchHandle| tables.contains_key(h.0) && tables[h.0]@.contains_key(pack(h.1)),
        |h: PatchHandle| tables[h.0]@[pack(h.1)]@,
    )
}

impl<R: RangePolicy> View for TerrainStorage<R> {
    type V = StorageModel;

    closed spec fn view(&self) -> StorageModel {
        StorageModel {
            observer: self.observer,
            hot: hot_map(self.mem_storage@),
            disk: self.disk_storage@,
        }
    }
}

impl<R: RangePolicy> TerrainStorage<R> {
    /// Validity of the storage: its disk index is valid.
    pub closed spec fn wf(&self) -> bool {
        self.disk_storage.wf()
    }

    /// The policy that decides what stays in memory.
    pub closed spec fn range(&self) -> R {
        self.range
    }

    /// An empty storage with a disk cache of [`TERRAIN_CACHE_MAX_BYTES`].
    pub fn new(range: R, observer: PatchPosition) -> (storage: Self)
        ensures
            storage.wf(),
            storage.range() == range,
            storage@.observer == observer,
            storage@.hot == Map::<PatchHandle, PatchModel>::empty(),
            storage@.disk.max_bytes == TERRAIN_CACHE_MAX_BYTES,
            storage@.disk.next_file_id == 0,
            storage@.disk.entries == Seq::<(PatchHandle, CacheEntry)>::empty(),
    {
        Self::with_index(CacheIndex::new(terrain_cache_config().max_bytes), range, observer)
    }

    /// A storage with an empty memory tier over an existing disk index.
    pub fn with_index(index: CacheIndex, range: R, observer: PatchPosition) -> (storage: Self)
        requires
            index.wf(),
        ensures
            storage.wf(),
            storage.range() == range,
            storage@.observer == observer,
            storage@.hot == Map::<PatchHandle, PatchModel>::empty(),
            storage@.disk == index@,
    {
        let storage = TerrainStorage {
            range,
            observer,
            mem_storage: HashMap::new(),
            disk_storage: index,
        };
        assert(storage@.hot =~= Map::<PatchHandle, PatchModel>::empty());
        storage
    }

    /// The index of the disk tier, for persisting it.
    pub fn disk_index(&self) -> (index: &CacheIndex)
        ensures
            index@ == self@.disk,
            self.wf() ==> index.wf(),
    {
        &self.disk_storage
    }

    /// The file that the next stored patch is written to.
    pub fn next_file_id(&self) -> (id: u64)
        ensures
            id == self@.disk.next_file_id,
    {
        self.disk_storage.next_file_id()
    }

    /// The position that ranges are measured from.
    pub fn observer(&self) -> (observer: PatchPosition)
        ensures
            observer == self@.observer,
    {
        self.observer
    }

    /// Moves the observer. Neither tier changes: patches that are no longer
    /// in range stay in memory.
    pub fn set_observer(&mut self, observer: PatchPosition)
        ensures
            final(self)@ == (StorageModel { observer, ..old(self)@ }),
            final(self).range() == old(self).range(),
            final(self).wf() == old(self).wf(),
    {
        self.observer = observer;
    }

    /// Returns true if a patch is within the relevant distance from the
    /// observer to be kept in memory.
    pub fn within_range(&self, p_pos: &PatchPosition) -> (inside: bool)
        ensures
            inside == self.range().covers(self@.observer, *p_pos),
    {
        self.range.within_range(&self.observer, p_pos)
    }

    /// The patch that the memory tier holds under `handle`.
    fn recall(&self, handle: &PatchHandle) -> (found: Option<&TerrainPatch>)
        ensures
            match found {
                Some(patch) => self@.hot.contains_key(*handle) && patch@ == self@.hot[*handle],
                None => !self@.hot.contains_key(*handle),
            },
    {
        match self.mem_storage.get(&handle.0) {
            Some(table) => {
                let code = pack_position(&handle.1);
                table.get(&code)
            },
            None => None,
        }
    }

    /// Puts `patch` into the memory tier under `handle`.
    fn remember(&mut self, handle: PatchHandle, patch: TerrainPatch)
        ensures
            final(self)@.hot == old(self)@.hot.insert(handle, patch@),
            final(self)@.observer == old(self)@.observer,
            final(self)@.disk == old(self)@.disk,
            final(self).range() == old(self).range(),
            final(self).wf() == old(self).wf(),
    {
        let ghost before = self.mem_storage@;
        let code = pack_position(&handle.1);
        let mut table = match self.mem_storage.remove(&handle.0) {
            Some(table) => table,
            None => HashMap::new(),
        };
        table.insert(code, patch);
        self.mem_storage.insert(handle.0, table);
        proof {
            let after = self.mem_storage@;
            assert forall|h: PatchHandle| pack(h.1) == code implies h.1 == handle.1 by {}
            assert(hot_map(after) =~= hot_map(before).insert(handle, patch@));
        }
    }

    /// Stores a patch, after the caller has written its encoded form to the
    /// file numbered [`Self::next_file_id`]. `written` is the outcome of that
    /// write: the number of bytes, or the failure.
    ///
    /// After a failed write nothing changes and the failure is returned.
    /// After a successful one the patch is admitted to the disk tier, and to
    /// the memory tier as well if `patch_pos` is within range of the
    /// observer. The files that the disk tier no longer refers to are
    /// returned; the caller deletes them.
    pub fn put_patch(
        &mut self,
        region: RegionId,
        patch_pos: PatchPosition,
        patch: TerrainPatch,
        written: Result<u64, CacheError>,
    ) -> (done: Result<Vec<u64>, StorageError>)
        requires
            old(self).wf(),
            old(self)@.disk.next_file_id < u64::MAX,
        ensures
            final(self).wf(),
            final(self).range() == old(self).range(),
            match written {
                Ok(size_bytes) => {
                    &&& final(self)@ == old(self)@.store(
                        (region, patch_pos),
                        patch@,
                        size_bytes,
                        old(self).range().covers(old(self)@.observer, patch_pos),
                    )
                    &&& done matches Ok(discarded) && discarded@ == old(self)@.disk.put_discards(
                        (region, patch_pos),
                        size_bytes,
                    )
                },
                Err(e) => {
                    &&& final(self)@ == old(self)@
                    &&& done == Err::<Vec<u64>, StorageError>(StorageError::Cache(e))
                },
            },
    {
        match written {
            Ok(size_bytes) => {
                let handle: PatchHandle = (region, patch_pos);
                let outcome = self.disk_storage.put(&handle, size_bytes);
                if self.within_range(&patch_pos) {
                    self.remember(handle, patch);
                }
                Ok(outcome.discarded)
            },
            Err(e) => Err(StorageError::Cache(e)),
        }
    }

    /// A request for the patch at `position` in `region`, to be polled until
    /// the patch is there.
    pub fn request_patch(&self, region: RegionId, position: PatchPosition) -> (request:
        PatchRequest)
        ensures
            request.target() == (region, position),
            request.phase() == RequestPhase::Issued,
    {
        PatchRequest::new(region, position)
    }

    /// Looks a patch up, the memory tier first. A patch in memory is
    /// returned; for one in the disk tier only, the entry that names its
    /// file is returned; a patch in neither tier is `NotFound`. Nothing
    /// changes.
    pub fn get_patch(&self, patch_handle: &PatchHandle) -> (found: Result<
        PatchSource,
        StorageError,
    >)
        requires
            self.wf(),
        ensures
            match self@.lookup(*patch_handle) {
                Lookup::Memory(m) => found matches Ok(PatchSource::Memory(patch)) && patch@ == m,
                Lookup::Disk(entry) => found matches Ok(PatchSource::Disk(e)) && e == entry,
                Lookup::NotFound => found matches Err(StorageError::NotFound),
            },
    {
        match self.recall(patch_handle) {
            Some(patch) => Ok(PatchSource::Memory(patch.clone())),
            None => match self.disk_storage.get(patch_handle) {
                Some(entry) => Ok(PatchSource::Disk(entry)),
                None => Err(StorageError::NotFound),
            },
        }
    }

    /// Completes a lookup that [`Self::get_patch`] answered with a file.
    /// `read` is the outcome of reading that file: its bytes, or the failure.
    ///
    /// A failed read, and bytes that are no stored patch, are errors of the
    /// disk tier and change nothing. Otherwise the patch is returned and its
    /// entry becomes the most recently used one.
    pub fn load_patch(&mut self, patch_handle: &PatchHandle, read: Result<Vec<u8>, CacheError>) -> (
        loaded: Result<TerrainPatch, StorageError>
    )
        requires
            old(self).wf(),
        ensures
            final(self).wf(),
            final(self).range() == old(self).range(),
            match read {
                Ok(bytes) => match decoded(bytes@) {
                    Some(m) => {
                        &&& loaded matches Ok(patch) && patch@ == m
                        &&& final(self)@ == old(self)@.loaded(*patch_handle)
                    },
                    None => {
                        &&& loaded matches Err(StorageError::Cache(CacheError::Serialization))
                        &&& final(self)@ == old(self)@
                    },
                },
                Err(e) => {
                    &&& loaded matches Err(StorageError::Cache(f)) && f == e
                    &&& final(self)@ == old(self)@
                },
            },
    {
        match read {
            Ok(bytes) => match decode(bytes.as_slice()) {
                Ok(patch) => {
                    self.disk_storage.touch(patch_handle);
                    Ok(patch)
                },
                Err(e) => Err(StorageError::Cache(e)),
            },
            Err(e) => Err(StorageError::Cache(e)),
        }
    }
}

/// One change of a storage.
pub enum StorageStep {
    /// A patch was stored, as by [`TerrainStorage::put_patch`] after a
    /// successful write.
    Store { handle: PatchHandle, patch: PatchModel, size_bytes: u64, in_range: bool },
    /// A patch was read from its file, as by [`TerrainStorage::load_patch`].
    Load { handle: PatchHandle },
    /// The observer moved.
    Observe { observer: PatchPosition },
}

impl StorageStep {
    /// Whether the step puts a patch into the memory tier under `handle`.
    pub open spec fn writes_memory(self, handle: PatchHandle) -> bool {
        self matches StorageStep::Store { handle: h, in_range, .. } && h == handle && in_range
    }
}

impl StorageModel {
    /// The storage after one step.
    pub open spec fn step(self, step: StorageStep) -> StorageModel {
        match step {
            StorageStep::Store { handle, patch, size_bytes, in_range } => self.store(
                handle,
                patch,
                size_bytes,
                in_range,
            ),
            StorageStep::Load { handle } => self.loaded(handle),
            StorageStep::Observe { observer } => StorageModel { observer, ..self },
        }
    }

    /// The storage after `steps`, in order.
    pub open spec fn run(self, steps: Seq<StorageStep>) -> StorageModel
        decreases steps.len(),
    {
        if steps.len() == 0 {
            self
        } else {
            self.run(steps.drop_last()).step(steps.last())
        }
    }
}

/// A store is found again. Right after a patch is stored under a handle, a
/// lookup of that handle finds the patch in memory if it was in range. If it
/// was not, the lookup finds what the memory tier held under the handle
/// before, if anything (the memory tier is never cleaned), and otherwise the
/// file that the patch was written to. The stored form of the patch decodes
/// to the patch.
pub proof fn lemma_store_then_lookup(
    s: StorageModel,
    handle: PatchHandle,
    patch: PatchModel,
    size_bytes: u64,
    in_range: bool,
)
    requires
        s.disk.wf(),
        s.disk.next_file_id < u64::MAX,
        patch.wf(),
        patch.size <= u64::MAX,
    ensures
        s.store(handle, patch, size_bytes, in_range).lookup(handle) == if in_range {
            Lookup::Memory(patch)
        } else if s.hot.contains_key(handle) {
            Lookup::Memory(s.hot[handle])
        } else {
            Lookup::Disk(s.disk.fresh_entry(size_bytes))
        },
        decoded(patch_bytes(patch)) == Some(patch),
{
    lemma_put_then_get(s.disk, handle, size_bytes);
    lemma_decode_encode(patch);
}

/// Layering, memory tier. A patch that the memory tier holds is served from
/// memory after any further steps that do not store into memory under the
/// same handle: eviction from the disk tier does not reach it.
pub proof fn lemma_memory_tier_keeps(s: StorageModel, handle: PatchHandle, steps: Seq<StorageStep>)
    requires
        s.hot.contains_key(handle),
        forall|i: int| 0 <= i < steps.len() ==> !(#[trigger] steps[i]).writes_memory(handle),
    ensures
        s.run(steps).lookup(handle) == Lookup::Memory(s.hot[handle]),
    decreases steps.len(),
{
    if steps.len() > 0 {
        let front = steps.drop_last();
        assert forall|i: int| 0 <= i < front.len() implies !(#[trigger] front[i]).writes_memory(
            handle,
        ) by {
            assert(front[i] == steps[i]);
        }
        lemma_memory_tier_keeps(s, handle, front);
        assert(!steps[steps.len() - 1].writes_memory(handle));
    }
}

/// Running steps one after the other is running them in two parts.
pub proof fn lemma_run_in_parts(s: StorageModel, steps: Seq<StorageStep>, k: int)
    requires
        0 <= k <= steps.len(),
    ensures
        s.run(steps) == s.run(steps.take(k)).run(steps.skip(k)),
    decreases steps.len() - k,
{
    if k == steps.len() {
        assert(steps.take(k) =~= steps);
        assert(steps.skip(k) =~= Seq::<StorageStep>::empty());
    } else {
        lemma_run_in_parts(s, steps, k + 1);
        let first = steps.take(k + 1);
        assert(first.drop_last() =~= steps.take(k));
        assert(first.last() == steps[k]);
        lemma_run_first(s.run(steps.take(k)), steps.skip(k));
        assert(steps.skip(k).drop_first() =~= steps.skip(k + 1));
    }
}

/// Running steps is taking the first step and running the others.
pub proof fn lemma_run_first(s: StorageModel, steps: Seq<StorageStep>)
    requires
        steps.len() > 0,
    ensures
        s.run(steps) == s.step(steps[0]).run(steps.drop_first()),
    decreases steps.len(),
{
    let front = steps.drop_last();
    let tail = steps.drop_first();
    if steps.len() == 1 {
        assert(s.run(front) == s);
        assert(s.step(steps[0]).run(tail) == s.step(steps[0]));
    } else {
        lemma_run_first(s, front);
        assert(front.drop_first() =~= tail.drop_last());
        assert(front[0] == steps[0]);
        assert(tail.last() == steps.last());
        assert(s.step(steps[0]).run(tail) == s.step(steps[0]).run(tail.drop_last()).step(
            tail.last(),
        ));
    }
}

/// Layering, whole history. After any steps, a handle's patch is served
/// from memory if some step stored it in range, and the patch served is the
/// one of the last such step: neither eviction in the disk tier, nor stores
/// out of range, nor moves of the observer take it away.
pub proof fn lemma_last_store_in_range_is_served(
    s: StorageModel,
    handle: PatchHandle,
    steps: Seq<StorageStep>,
    last: int,
)
    requires
        0 <= last < steps.len(),
        steps[last].writes_memory(handle),
        forall|i: int| last < i < steps.len() ==> !(#[trigger] steps[i]).writes_memory(handle),
    ensures
        s.run(steps).lookup(handle) == Lookup::Memory(steps[last]->Store_patch),
{
    let upto = steps.take(last + 1);
    let later = steps.skip(last + 1);
    lemma_run_in_parts(s, steps, last + 1);
    assert(upto.drop_last() =~= steps.take(last));
    assert(upto.last() == steps[last]);
    assert forall|i: int| 0 <= i < later.len() implies !(#[trigger] later[i]).writes_memory(
        handle,
    ) by {
        assert(later[i] == steps[i + last + 1]);
    }
    lemma_memory_tier_keeps(s.run(upto), handle, later);
}

/// Layering, disk tier. A patch that the memory tier does not hold, and that
/// no further step stores into memory, is found exactly while the disk tier
/// has an entry for it: then the lookup names that entry's file, and
/// otherwise the patch is not found.
pub proof fn lemma_disk_tier_only(s: StorageModel, handle: PatchHandle, steps: Seq<StorageStep>)
    requires
        !s.hot.contains_key(handle),
        forall|i: int| 0 <= i < steps.len() ==> !(#[trigger] steps[i]).writes_memory(handle),
    ensures
        !s.run(steps).hot.contains_key(handle),
        s.run(steps).lookup(handle) == match entry_of(s.run(steps).disk.entries, handle) {
            Some(entry) => Lookup::Disk(entry),
            None => Lookup::NotFound,
        },
    decreases steps.len(),
{
    if steps.len() > 0 {
        let front = steps.drop_last();
        assert forall|i: int| 0 <= i < front.len() implies !(#[trigger] front[i]).writes_memory(
            handle,
        ) by {
            assert(front[i] == steps[i]);
        }
        lemma_disk_tier_only(s, handle, front);
        assert(!steps[steps.len() - 1].writes_memory(handle));
    }
}

/// What a fetch gives: a patch in memory is returned; for a patch in the
/// disk tier, `file` is the outcome of reading its file, and the patch is
/// what the bytes decode to; a patch in neither tier is not found.
pub open spec fn fetch(s: StorageModel, handle: PatchHandle, file: Result<Seq<u8>, CacheError>)
    -> Result<PatchModel, StorageError> {
    match s.lookup(handle) {
        Lookup::Memory(patch) => Ok(patch),
        Lookup::Disk(_) => match file {
            Ok(bytes) => match decoded(bytes) {
                Some(patch) => Ok(patch),
                None => Err(StorageError::Cache(CacheError::Serialization)),
            },
            Err(e) => Err(StorageError::Cache(e)),
        },
        Lookup::NotFound => Err(StorageError::NotFound),
    }
}

/// Round trip through the storage. A patch that is stored and fetched again
/// at once, its file holding what was written, comes back unchanged, unless
/// it was stored out of range while the memory tier held an older patch
/// under its handle: then that older patch is served.
pub proof fn lemma_store_then_fetch(
    s: StorageModel,
    handle: PatchHandle,
    patch: PatchModel,
    size_bytes: u64,
    in_range: bool,
)
    requires
        s.disk.wf(),
        s.disk.next_file_id < u64::MAX,
        patch.wf(),
        patch.size <= u64::MAX,
    ensures
        fetch(s.store(handle, patch, size_bytes, in_range), handle, Ok(patch_bytes(patch))) == Ok::<
            PatchModel,
            StorageError,
        >(
            if !in_range && s.hot.contains_key(handle) {
                s.hot[handle]
            } else {
                patch
            },
        ),
{
    lemma_store_then_lookup(s, handle, patch, size_bytes, in_range);
}

} // verus!
