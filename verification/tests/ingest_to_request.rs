use std::collections::HashMap;

use crossbeam_channel::bounded;
use opensim_viewer::cache::{CacheError, CacheIndex};
use opensim_viewer::data::terrain::codec::encode;
use opensim_viewer::data::terrain::request::{PatchRequest, RequestState};
use opensim_viewer::data::terrain::storage::{PatchSource, SquareRange, TerrainStorage};
use opensim_viewer::data::terrain::{PatchPosition, StorageError, TerrainPatch};
use opensim_viewer::networking::{RawPatch, RegionManager};

struct Viewer {
    manager: RegionManager,
    storage: TerrainStorage<SquareRange>,
    files: HashMap<u64, Vec<u8>>,
}

impl Viewer {
    fn drain(&mut self) -> Result<(), StorageError> {
        for patch in self.manager.drain_all().patches {
            let bytes = encode(&patch);
            let size = bytes.len() as u64;
            self.files.insert(self.storage.next_file_id(), bytes);
            let (region, position) = patch.handle();
            for id in self.storage.put_patch(region, position, patch, Ok(size))? {
                self.files.remove(&id);
            }
        }
        Ok(())
    }

    fn lookup(&mut self, request: &PatchRequest) -> Result<TerrainPatch, StorageError> {
        let handle = request.handle();
        match self.storage.get_patch(&handle)? {
            PatchSource::Memory(p) => Ok(p),
            PatchSource::Disk(entry) => {
                let read = self.files.get(&entry.file_id).cloned().ok_or(CacheError::Io);
                self.storage.load_patch(&handle, read)
            }
        }
    }

    fn poll(&mut self, request: &mut PatchRequest) {
        if request.begin_poll() {
            let outcome = self.drain().and_then(|_| self.lookup(request));
            request.finish_poll(outcome);
        }
    }
}

#[test]
fn request_resolves_once_the_batch_with_its_patch_arrives() {
    let (send, recv) = bounded::<Vec<RawPatch>>(8);
    let mut viewer = Viewer {
        manager: RegionManager::start(),
        storage: TerrainStorage::with_index(
            CacheIndex::new(100_000),
            SquareRange { radius: 1 },
            PatchPosition { x: 0, y: 0 },
        ),
        files: HashMap::new(),
    };
    viewer.manager.setup_sim(7, recv);

    // One request near the observer, one far away.
    let mut near = PatchRequest::new(7, PatchPosition { x: 1, y: 1 });
    let mut far = PatchRequest::new(7, PatchPosition { x: 9, y: 9 });
    viewer.poll(&mut near);
    viewer.poll(&mut far);
    assert!(matches!(near.state(), RequestState::Pending));
    assert!(matches!(far.state(), RequestState::Pending));

    let side = 4usize;
    let patch = |x: u32, y: u32, fill: u32| RawPatch {
        grid_x: x,
        grid_y: y,
        rows: side,
        cols: side,
        heights: vec![fill; side * side],
    };
    send.send(vec![patch(1, 1, 111), patch(9, 9, 999)]).unwrap();

    viewer.poll(&mut near);
    assert_eq!(near.patch().unwrap().land_heightmap(), &vec![111; 16]);
    viewer.poll(&mut far);
    assert_eq!(far.patch().unwrap().land_heightmap(), &vec![999; 16]);
    assert_eq!(*far.patch().unwrap().position(), PatchPosition { x: 9, y: 9 });
}
