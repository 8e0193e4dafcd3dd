use opensim_viewer::cache::CacheError;
use opensim_viewer::data::terrain::codec::{decode, encode, PATCH_HEADER_BYTES};
use opensim_viewer::data::terrain::{same_handle, PatchPosition, TerrainPatch};

fn heights(values: &[f32]) -> Vec<u32> {
    values.iter().map(|v| v.to_bits()).collect()
}

fn sample_patch() -> TerrainPatch {
    TerrainPatch::new(
        0x0102_0304_0506_0708_090a_0b0c_0d0e_0f10,
        2,
        PatchPosition { x: 3, y: 4 },
        heights(&[1.0, 2.5, -3.0, 24.8]),
    )
    .unwrap()
}

#[test]
fn new_keeps_what_it_is_given() {
    let patch = sample_patch();
    assert_eq!(patch.region(), 0x0102_0304_0506_0708_090a_0b0c_0d0e_0f10);
    assert_eq!(*patch.size(), 2);
    assert_eq!(*patch.position(), PatchPosition { x: 3, y: 4 });
    assert_eq!(patch.land_heightmap(), &heights(&[1.0, 2.5, -3.0, 24.8]));
    assert_eq!(
        patch.handle(),
        (0x0102_0304_0506_0708_090a_0b0c_0d0e_0f10, PatchPosition { x: 3, y: 4 })
    );
}

#[test]
fn new_refuses_a_grid_that_is_not_square() {
    let p = PatchPosition { x: 0, y: 0 };
    assert!(TerrainPatch::new(1, 2, p, vec![0; 3]).is_none());
    assert!(TerrainPatch::new(1, 2, p, vec![0; 5]).is_none());
    assert!(TerrainPatch::new(1, 0, p, vec![0; 1]).is_none());
    assert!(TerrainPatch::new(1, usize::MAX, p, vec![0; 1]).is_none());
    assert!(TerrainPatch::new(1, 0, p, vec![]).is_some());
    assert!(TerrainPatch::new(1, 16, p, vec![0; 256]).is_some());
}

#[test]
fn height_at_reads_row_by_row() {
    let patch = sample_patch();
    assert_eq!(patch.height_at(0, 0), Some(1.0f32.to_bits()));
    assert_eq!(patch.height_at(0, 1), Some(2.5f32.to_bits()));
    assert_eq!(patch.height_at(1, 0), Some((-3.0f32).to_bits()));
    assert_eq!(patch.height_at(1, 1), Some(24.8f32.to_bits()));
    assert_eq!(patch.height_at(2, 0), None);
    assert_eq!(patch.height_at(0, 2), None);
}

#[test]
fn clone_is_equal_in_every_part() {
    let patch = sample_patch();
    let copy = patch.clone();
    assert_eq!(copy.region(), patch.region());
    assert_eq!(copy.size(), patch.size());
    assert_eq!(copy.position(), patch.position());
    assert_eq!(copy.land_heightmap(), patch.land_heightmap());
}

#[test]
fn same_handle_compares_region_and_position() {
    let a = (1u128, PatchPosition { x: 1, y: 2 });
    assert!(same_handle(&a, &(1u128, PatchPosition { x: 1, y: 2 })));
    assert!(!same_handle(&a, &(2u128, PatchPosition { x: 1, y: 2 })));
    assert!(!same_handle(&a, &(1u128, PatchPosition { x: 2, y: 2 })));
    assert!(!same_handle(&a, &(1u128, PatchPosition { x: 1, y: 1 })));
}

#[test]
fn encode_gives_the_documented_layout() {
    let patch = TerrainPatch::new(
        0x0102_0304_0506_0708_090a_0b0c_0d0e_0f10,
        1,
        PatchPosition { x: 3, y: 4 },
        vec![0x4142_4344],
    )
    .unwrap();
    let expected: Vec<u8> = vec![
        // region, little-endian
        0x10, 0x0f, 0x0e, 0x0d, 0x0c, 0x0b, 0x0a, 0x09, 0x08, 0x07, 0x06, 0x05, 0x04, 0x03, 0x02,
        0x01, // edge length
        1, 0, 0, 0, 0, 0, 0, 0, // position
        3, 4, // the one sample
        0x44, 0x43, 0x42, 0x41,
    ];
    assert_eq!(encode(&patch), expected);
}

#[test]
fn encoded_length_is_header_plus_four_bytes_per_sample() {
    let patch = TerrainPatch::new(9, 16, PatchPosition { x: 0, y: 0 }, vec![7; 256]).unwrap();
    assert_eq!(PATCH_HEADER_BYTES, 26);
    assert_eq!(encode(&patch).len(), 26 + 4 * 256);
}

#[test]
fn decode_reverses_encode() {
    let patch = sample_patch();
    let back = decode(&encode(&patch)).unwrap();
    assert_eq!(back.region(), patch.region());
    assert_eq!(back.size(), patch.size());
    assert_eq!(back.position(), patch.position());
    assert_eq!(back.land_heightmap(), patch.land_heightmap());
    let floats: Vec<f32> = back.land_heightmap().iter().map(|b| f32::from_bits(*b)).collect();
    assert_eq!(floats, vec![1.0, 2.5, -3.0, 24.8]);
}

#[test]
fn decode_reverses_encode_for_an_empty_patch() {
    let patch = TerrainPatch::new(0, 0, PatchPosition { x: 255, y: 255 }, vec![]).unwrap();
    let bytes = encode(&patch);
    assert_eq!(bytes.len(), 26);
    let back = decode(&bytes).unwrap();
    assert_eq!(*back.size(), 0);
    assert_eq!(*back.position(), PatchPosition { x: 255, y: 255 });
}

#[test]
fn encode_reverses_decode() {
    let mut bytes = vec![0u8; 26 + 16];
    for (i, b) in bytes.iter_mut().enumerate() {
        *b = (i * 7 % 251) as u8;
    }
    bytes[16..24].copy_from_slice(&2u64.to_le_bytes());
    let patch = decode(&bytes).unwrap();
    assert_eq!(encode(&patch), bytes);
}

#[test]
fn decode_rejects_what_is_no_stored_patch() {
    let good = encode(&sample_patch());
    // Too short for a header.
    assert_eq!(decode(&[]).err(), Some(CacheError::Serialization));
    assert_eq!(decode(&good[..25]).err(), Some(CacheError::Serialization));
    // A sample cut short.
    assert_eq!(decode(&good[..good.len() - 1]).err(), Some(CacheError::Serialization));
    // A sample missing.
    assert_eq!(decode(&good[..good.len() - 4]).err(), Some(CacheError::Serialization));
    // A sample too many.
    let mut long = good.clone();
    long.extend_from_slice(&[0, 0, 0, 0]);
    assert_eq!(decode(&long).err(), Some(CacheError::Serialization));
    // An edge length that no file can hold.
    let mut huge = good.clone();
    huge[16..24].copy_from_slice(&u64::MAX.to_le_bytes());
    assert_eq!(decode(&huge).err(), Some(CacheError::Serialization));
    assert!(decode(&good).is_ok());
}
