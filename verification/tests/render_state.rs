use opensim_viewer::cache::CacheError;
use opensim_viewer::data::region::RegionDimensions;
use opensim_viewer::data::terrain::{PatchPosition, StorageError, TerrainPatch};
use opensim_viewer::render::terrain_land::{RenderState, Vertex};

fn dims(patches_per_side: u8, patch_size_axis: u8) -> RegionDimensions {
    RegionDimensions { side_meters: 256, patches_per_side, patch_size_axis }
}

fn pos(x: u8, y: u8) -> PatchPosition {
    PatchPosition { x, y }
}

fn v(x: usize, y: usize, height: u32) -> Vertex {
    Vertex { x, y, height }
}

#[test]
fn new_state_has_every_patch_pending_row_by_row() {
    let state = RenderState::new(5, &dims(2, 3));
    assert_eq!(state.region_id(), 5);
    assert_eq!(state.patches_pending(), &vec![pos(0, 0), pos(0, 1), pos(1, 0), pos(1, 1)]);
    assert_eq!(state.vertices_offset(), 0);
}

#[test]
fn new_state_has_room_for_six_vertices_per_cell() {
    // 2 x 2 patches of 3 x 3 samples: 4 patches of 4 cells of 6 vertices.
    let state = RenderState::new(5, &dims(2, 3));
    assert_eq!(state.vertices().len(), 96);
    assert!(state.vertices().iter().all(|x| *x == v(0, 0, 0)));
    // The usual region: 16 x 16 patches of 16 x 16 samples.
    let state = RenderState::new(5, &dims(16, 16));
    assert_eq!(state.vertices().len(), 16 * 16 * 6 * 15 * 15);
    assert_eq!(state.patches_pending().len(), 256);
    // One sample per side makes no cell.
    assert_eq!(RenderState::new(5, &dims(3, 1)).vertices().len(), 0);
    assert_eq!(RenderState::new(5, &dims(0, 16)).patches_pending().len(), 0);
}

#[test]
fn update_writes_two_triangles_per_cell() {
    let mut state = RenderState::new(5, &dims(2, 2));
    // Patch (1, 0) with samples 10 11 / 12 13.
    let patch = TerrainPatch::new(5, 2, pos(1, 0), vec![10, 11, 12, 13]).unwrap();
    let fetched = vec![Err(StorageError::NotFound), Err(StorageError::NotFound), Ok(patch)];
    assert_eq!(state.update(&fetched), Ok(true));
    assert_eq!(state.vertices_offset(), 6);
    assert_eq!(
        &state.vertices()[..6],
        &[v(2, 0, 10), v(3, 0, 12), v(2, 1, 11), v(3, 1, 13), v(2, 1, 11), v(3, 0, 12)]
    );
    assert!(state.vertices()[6..].iter().all(|x| *x == v(0, 0, 0)));
    assert_eq!(state.patches_pending(), &vec![pos(0, 0), pos(0, 1), pos(1, 1)]);
}

#[test]
fn update_takes_cells_row_by_row() {
    let mut state = RenderState::new(5, &dims(1, 3));
    let patch = TerrainPatch::new(5, 3, pos(0, 0), (0..9).collect()).unwrap();
    assert_eq!(state.update(&vec![Ok(patch)]), Ok(true));
    let firsts: Vec<Vertex> = state.vertices().iter().step_by(6).copied().collect();
    assert_eq!(firsts, vec![v(0, 0, 0), v(0, 1, 1), v(1, 0, 3), v(1, 1, 4)]);
    let fourths: Vec<Vertex> = state.vertices().iter().skip(3).step_by(6).copied().collect();
    assert_eq!(fourths, vec![v(1, 1, 4), v(1, 2, 5), v(2, 1, 7), v(2, 2, 8)]);
    assert!(state.patches_pending().is_empty());
    assert_eq!(state.vertices_offset(), 24);
}

#[test]
fn update_without_news_returns_false() {
    let mut state = RenderState::new(5, &dims(2, 2));
    let fetched = vec![
        Err(StorageError::NotFound),
        Err(StorageError::NotFound),
        Err(StorageError::NotFound),
        Err(StorageError::NotFound),
    ];
    assert_eq!(state.update(&fetched), Ok(false));
    assert_eq!(state.patches_pending().len(), 4);
    assert_eq!(state.update(&vec![]), Ok(false));
    assert_eq!(state.patches_pending().len(), 4);
}

#[test]
fn update_reports_the_last_failure_and_still_adds_what_was_found() {
    let mut state = RenderState::new(5, &dims(2, 2));
    let patch = TerrainPatch::new(5, 2, pos(0, 1), vec![1, 2, 3, 4]).unwrap();
    let fetched = vec![
        Err(StorageError::Cache(CacheError::Io)),
        Ok(patch),
        Err(StorageError::Cache(CacheError::Serialization)),
    ];
    assert_eq!(state.update(&fetched), Err(StorageError::Cache(CacheError::Serialization)));
    assert_eq!(state.vertices_offset(), 6);
    assert_eq!(state.vertices()[0], v(0, 2, 1));
    // The failed ones and the one not asked for stay pending.
    assert_eq!(state.patches_pending(), &vec![pos(0, 0), pos(1, 0), pos(1, 1)]);
}

#[test]
fn update_leaves_a_patch_pending_that_has_no_room() {
    let mut state = RenderState::new(5, &dims(1, 2));
    assert_eq!(state.vertices().len(), 6);
    let big = TerrainPatch::new(5, 3, pos(0, 0), vec![0; 9]).unwrap();
    assert_eq!(state.update(&vec![Ok(big)]), Ok(false));
    assert_eq!(state.vertices_offset(), 0);
    assert_eq!(state.patches_pending(), &vec![pos(0, 0)]);
    let empty = TerrainPatch::new(5, 0, pos(0, 0), vec![]).unwrap();
    assert_eq!(state.update(&vec![Ok(empty)]), Ok(false));
    assert_eq!(state.patches_pending(), &vec![pos(0, 0)]);
    let right = TerrainPatch::new(5, 2, pos(0, 0), vec![0; 4]).unwrap();
    assert_eq!(state.update(&vec![Ok(right)]), Ok(true));
    assert!(state.patches_pending().is_empty());
}

#[test]
fn update_appends_patches_in_the_order_they_arrive() {
    let mut state = RenderState::new(5, &dims(2, 2));
    let a = TerrainPatch::new(5, 2, pos(1, 1), vec![1; 4]).unwrap();
    assert_eq!(
        state.update(&vec![
            Err(StorageError::NotFound),
            Err(StorageError::NotFound),
            Err(StorageError::NotFound),
            Ok(a)
        ]),
        Ok(true)
    );
    let b = TerrainPatch::new(5, 2, pos(0, 0), vec![2; 4]).unwrap();
    assert_eq!(state.update(&vec![Ok(b)]), Ok(true));
    assert_eq!(state.vertices_offset(), 12);
    assert_eq!(state.vertices()[0], v(2, 2, 1));
    assert_eq!(state.vertices()[6], v(0, 0, 2));
    assert_eq!(state.patches_pending(), &vec![pos(0, 1), pos(1, 0)]);
}

#[test]
fn can_hold_needs_a_sample_per_side() {
    assert!(RenderState::can_hold(&dims(16, 16)));
    assert!(RenderState::can_hold(&dims(0, 16)));
    assert!(RenderState::can_hold(&dims(16, 1)));
    assert!(!RenderState::can_hold(&dims(16, 0)));
    assert!(!RenderState::can_hold(&dims(0, 0)));
    // The largest region takes 255 * 255 * 6 * 254 * 254 vertices.
    assert_eq!(RenderState::can_hold(&dims(255, 255)), usize::MAX as u128 >= 25_170_416_100);
}
