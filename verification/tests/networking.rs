use crossbeam_channel::bounded;
use opensim_viewer::data::terrain::PatchPosition;
use opensim_viewer::networking::{
    absorb, convert_patch, DrainReport, RawPatch, ReceiveOutcome, RegionManager,
};

fn raw(grid_x: u32, grid_y: u32, side: usize, fill: u32) -> RawPatch {
    RawPatch { grid_x, grid_y, rows: side, cols: side, heights: vec![fill; side * side] }
}

#[test]
fn convert_keeps_region_size_and_heights() {
    let patch = convert_patch(9, raw(3, 4, 2, 7)).unwrap();
    assert_eq!(patch.region(), 9);
    assert_eq!(*patch.size(), 2);
    assert_eq!(*patch.position(), PatchPosition { x: 3, y: 4 });
    assert_eq!(patch.land_heightmap(), &vec![7; 4]);
}

#[test]
fn convert_reduces_the_grid_position_to_one_byte() {
    let patch = convert_patch(9, raw(256 + 5, 0xffff_ffff, 1, 0)).unwrap();
    assert_eq!(*patch.position(), PatchPosition { x: 5, y: 255 });
    let patch = convert_patch(9, raw(255, 256, 1, 0)).unwrap();
    assert_eq!(*patch.position(), PatchPosition { x: 255, y: 0 });
}

#[test]
fn convert_hands_back_a_matrix_that_is_not_square() {
    let bad = RawPatch { grid_x: 1, grid_y: 2, rows: 2, cols: 3, heights: vec![0; 6] };
    let back = convert_patch(9, bad).unwrap_err();
    assert_eq!((back.rows, back.cols, back.heights.len()), (2, 3, 6));
    let short = RawPatch { grid_x: 1, grid_y: 2, rows: 2, cols: 2, heights: vec![0; 3] };
    assert!(convert_patch(9, short).is_err());
    let huge = RawPatch { grid_x: 1, grid_y: 2, rows: usize::MAX, cols: usize::MAX, heights: vec![] };
    assert!(convert_patch(9, huge).is_err());
}

#[test]
fn absorb_enters_a_batch_in_order() {
    let mut report = DrainReport::new();
    let bad = RawPatch { grid_x: 9, grid_y: 9, rows: 1, cols: 2, heights: vec![0; 2] };
    let batch = vec![raw(1, 0, 1, 10), bad, raw(2, 0, 1, 20), raw(3, 0, 1, 30)];
    assert!(absorb(5, ReceiveOutcome::Batch(batch), &mut report));
    let xs: Vec<u8> = report.patches.iter().map(|p| p.position().x).collect();
    assert_eq!(xs, vec![1, 2, 3]);
    assert!(report.patches.iter().all(|p| p.region() == 5));
    assert_eq!(report.rejected.len(), 1);
    assert_eq!(report.rejected[0].grid_x, 9);
    assert!(report.disconnected.is_empty());
}

#[test]
fn absorb_of_nothing_changes_nothing() {
    let mut report = DrainReport::new();
    assert!(absorb(5, ReceiveOutcome::Empty, &mut report));
    assert!(absorb(5, ReceiveOutcome::Batch(vec![]), &mut report));
    assert!(report.patches.is_empty() && report.rejected.is_empty());
    assert!(report.disconnected.is_empty());
}

#[test]
fn absorb_reports_a_closed_channel() {
    let mut report = DrainReport::new();
    assert!(!absorb(5, ReceiveOutcome::Disconnected, &mut report));
    assert_eq!(report.disconnected, vec![5]);
}

#[test]
fn drain_takes_one_batch_from_every_region() {
    let mut manager = RegionManager::start();
    assert_eq!(manager.len(), 0);
    let (send_a, recv_a) = bounded::<Vec<RawPatch>>(4);
    let (send_b, recv_b) = bounded::<Vec<RawPatch>>(4);
    manager.setup_sim(1, recv_a);
    manager.setup_sim(2, recv_b);
    assert!(manager.is_registered(1) && manager.is_registered(2) && !manager.is_registered(3));

    send_a.send(vec![raw(1, 1, 2, 11), raw(1, 2, 2, 12)]).unwrap();
    send_a.send(vec![raw(1, 3, 2, 13)]).unwrap();
    send_b.send(vec![raw(2, 1, 2, 21)]).unwrap();

    let report = manager.drain_all();
    let got: Vec<(u128, u8, u8, u32)> = report
        .patches
        .iter()
        .map(|p| (p.region(), p.position().x, p.position().y, p.land_heightmap()[0]))
        .collect();
    assert_eq!(got, vec![(1, 1, 1, 11), (1, 1, 2, 12), (2, 2, 1, 21)]);
    assert!(report.rejected.is_empty() && report.disconnected.is_empty());

    // The second batch of region 1 waits for the next pass.
    let report = manager.drain_all();
    assert_eq!(report.patches.len(), 1);
    assert_eq!(report.patches[0].land_heightmap()[0], 13);

    // Then nothing is left, and draining again is harmless.
    let report = manager.drain_all();
    assert!(report.patches.is_empty());
    assert_eq!(manager.len(), 2);
}

#[test]
fn drain_forgets_a_region_whose_channel_is_closed() {
    let mut manager = RegionManager::start();
    let (send_a, recv_a) = bounded::<Vec<RawPatch>>(4);
    let (send_b, recv_b) = bounded::<Vec<RawPatch>>(4);
    let (send_c, recv_c) = bounded::<Vec<RawPatch>>(4);
    manager.setup_sim(1, recv_a);
    manager.setup_sim(2, recv_b);
    manager.setup_sim(3, recv_c);

    send_b.send(vec![raw(0, 0, 1, 5)]).unwrap();
    drop(send_b);
    drop(send_a);
    send_c.send(vec![raw(0, 0, 1, 6)]).unwrap();

    // What was sent before the close is still delivered.
    let report = manager.drain_all();
    assert_eq!(report.disconnected, vec![1]);
    let fills: Vec<u32> = report.patches.iter().map(|p| p.land_heightmap()[0]).collect();
    assert_eq!(fills, vec![5, 6]);
    assert!(!manager.is_registered(1));
    assert_eq!(manager.len(), 2);

    let report = manager.drain_all();
    assert_eq!(report.disconnected, vec![2]);
    assert!(report.patches.is_empty());
    assert!(!manager.is_registered(2) && manager.is_registered(3));
    assert_eq!(manager.len(), 1);
}

#[test]
fn drain_of_no_region_reports_nothing() {
    let mut manager = RegionManager::start();
    let report = manager.drain_all();
    assert!(report.patches.is_empty() && report.rejected.is_empty());
    assert!(report.disconnected.is_empty());
}
