use opensim_viewer::util::bimap::BiMap;

#[test]
fn new_map_is_empty() {
    let map: BiMap<u64, u32> = BiMap::new();
    assert_eq!(map.len(), 0);
    assert!(!map.contains_key(&1));
    assert!(!map.contains_val(&1));
    assert_eq!(map.get_val(&1), None);
    assert_eq!(map.get_key(&1), None);
}

#[test]
fn insert_maps_both_ways() {
    let mut map: BiMap<u64, u32> = BiMap::new();
    map.insert(10, 1);
    map.insert(20, 2);
    assert_eq!(map.len(), 2);
    assert_eq!(map.get_val(&10), Some(&1));
    assert_eq!(map.get_key(&2), Some(&20));
    assert!(map.contains_key(&20) && map.contains_val(&1));
    assert!(!map.contains_key(&1) && !map.contains_val(&10));
}

#[test]
fn remove_key_removes_both_directions() {
    let mut map: BiMap<u64, u32> = BiMap::new();
    map.insert(10, 1);
    map.insert(20, 2);
    assert_eq!(map.remove_key(&10), Some(1));
    assert_eq!(map.remove_key(&10), None);
    assert!(!map.contains_key(&10) && !map.contains_val(&1));
    assert_eq!(map.get_key(&2), Some(&20));
    assert_eq!(map.len(), 1);
}

#[test]
fn remove_val_removes_both_directions() {
    let mut map: BiMap<u64, u32> = BiMap::new();
    map.insert(10, 1);
    map.insert(20, 2);
    assert_eq!(map.remove_val(&2), Some(20));
    assert_eq!(map.remove_val(&2), None);
    assert!(!map.contains_key(&20) && !map.contains_val(&2));
    assert_eq!(map.get_val(&10), Some(&1));
}

#[test]
fn clear_empties_both_directions() {
    let mut map: BiMap<u64, u32> = BiMap::new();
    map.insert(10, 1);
    map.clear();
    assert_eq!(map.len(), 0);
    assert!(!map.contains_key(&10) && !map.contains_val(&1));
}

#[test]
fn insert_over_a_present_key_leaves_the_old_value_behind() {
    let mut map: BiMap<u64, u32> = BiMap::new();
    map.insert(10, 1);
    map.insert(10, 2);
    assert_eq!(map.get_val(&10), Some(&2));
    assert_eq!(map.get_key(&2), Some(&10));
    // The old value still points at the key.
    assert_eq!(map.get_key(&1), Some(&10));
    assert_eq!(map.len(), 1);
}

#[test]
fn works_with_region_ids() {
    let mut map: BiMap<u128, usize> = BiMap::new();
    map.insert(0xffff_ffff_ffff_ffff_ffff, 0);
    map.insert(7, 1);
    assert_eq!(map.get_key(&0), Some(&0xffff_ffff_ffff_ffff_ffff));
    assert_eq!(map.get_val(&7), Some(&1));
}
