use opensim_viewer::cache::{CacheEntry, CacheError, CacheIndex, CacheKey};
use opensim_viewer::data::terrain::PatchPosition;

fn key(n: u8) -> CacheKey {
    (7u128, PatchPosition { x: n, y: 0 })
}

fn keys_of(index: &CacheIndex) -> Vec<CacheKey> {
    index.entries().iter().map(|slot| slot.0).collect()
}

#[test]
fn lru_example_scenario() {
    let (a, b, c, d, e) = (key(1), key(2), key(3), key(4), key(5));
    let mut index = CacheIndex::new(300);
    assert!(index.put(&a, 100).discarded.is_empty());
    assert!(index.put(&b, 100).discarded.is_empty());
    assert!(index.put(&c, 100).discarded.is_empty());
    assert_eq!(index.current_size_bytes(), 300);

    let outcome = index.put(&d, 100);
    assert_eq!(outcome.file_id, 3);
    assert_eq!(outcome.discarded, vec![0]);
    assert_eq!(keys_of(&index), vec![b, c, d]);
    assert_eq!(index.current_size_bytes(), 300);

    assert_eq!(index.get(&b), Some(CacheEntry { size_bytes: 100, file_id: 1 }));
    assert!(index.touch(&b));
    assert_eq!(keys_of(&index), vec![c, d, b]);

    let outcome = index.put(&e, 100);
    assert_eq!(outcome.file_id, 4);
    assert_eq!(outcome.discarded, vec![2]);
    assert_eq!(keys_of(&index), vec![d, b, e]);
    assert_eq!(index.current_size_bytes(), 300);
    assert!(!index.contains_key(&c));
    assert!(!index.contains_key(&a));
}

#[test]
fn new_index_is_empty() {
    let index = CacheIndex::new(1024);
    assert_eq!(index.max_bytes(), 1024);
    assert_eq!(index.current_size_bytes(), 0);
    assert_eq!(index.next_file_id(), 0);
    assert_eq!(index.len(), 0);
    assert_eq!(index.get(&key(1)), None);
}

#[test]
fn put_then_get_finds_the_new_file() {
    let mut index = CacheIndex::new(1000);
    let outcome = index.put(&key(9), 40);
    assert_eq!(outcome.file_id, 0);
    assert_eq!(index.get(&key(9)), Some(CacheEntry { size_bytes: 40, file_id: 0 }));
    assert_eq!(index.next_file_id(), 1);
}

#[test]
fn replacing_a_key_discards_its_old_file_and_uses_a_new_one() {
    let mut index = CacheIndex::new(1000);
    index.put(&key(1), 100);
    index.put(&key(2), 200);
    let outcome = index.put(&key(1), 50);
    assert_eq!(outcome.file_id, 2);
    assert_eq!(outcome.discarded, vec![0]);
    assert_eq!(index.current_size_bytes(), 250);
    assert_eq!(keys_of(&index), vec![key(2), key(1)]);
    assert_eq!(index.get(&key(1)), Some(CacheEntry { size_bytes: 50, file_id: 2 }));
}

#[test]
fn oversized_value_evicts_everything_else_and_stays() {
    let mut index = CacheIndex::new(300);
    index.put(&key(1), 100);
    index.put(&key(2), 100);
    let outcome = index.put(&key(3), 301);
    assert_eq!(outcome.discarded, vec![0, 1]);
    assert_eq!(keys_of(&index), vec![key(3)]);
    assert_eq!(index.current_size_bytes(), 301);

    // The next value pushes the oversized one out.
    let outcome = index.put(&key(4), 10);
    assert_eq!(outcome.discarded, vec![2]);
    assert_eq!(index.current_size_bytes(), 10);
}

#[test]
fn replaced_file_comes_first_among_the_discarded() {
    let mut index = CacheIndex::new(300);
    index.put(&key(1), 100);
    index.put(&key(2), 100);
    index.put(&key(3), 100);
    let outcome = index.put(&key(2), 250);
    assert_eq!(outcome.discarded, vec![1, 0, 2]);
    assert_eq!(keys_of(&index), vec![key(2)]);
    assert_eq!(index.current_size_bytes(), 250);
}

#[test]
fn size_is_the_sum_of_live_entries_after_every_put() {
    let mut index = CacheIndex::new(1000);
    let sizes = [300u64, 450, 10, 700, 0, 999, 1, 1, 500, 500];
    for (i, size) in sizes.iter().enumerate() {
        index.put(&key((i % 4) as u8), *size);
        let sum: u64 = index.entries().iter().map(|slot| slot.1.size_bytes).sum();
        assert_eq!(index.current_size_bytes(), sum);
        assert!(sum <= 1000);
    }
}

#[test]
fn touch_of_an_absent_key_changes_nothing() {
    let mut index = CacheIndex::new(1000);
    index.put(&key(1), 1);
    index.put(&key(2), 2);
    assert!(!index.touch(&key(3)));
    assert_eq!(keys_of(&index), vec![key(1), key(2)]);
}

#[test]
fn keys_differ_by_region_and_by_position() {
    let mut index = CacheIndex::new(1000);
    let a: CacheKey = (1, PatchPosition { x: 1, y: 2 });
    let b: CacheKey = (2, PatchPosition { x: 1, y: 2 });
    let c: CacheKey = (1, PatchPosition { x: 2, y: 1 });
    index.put(&a, 1);
    index.put(&b, 2);
    index.put(&c, 3);
    assert_eq!(index.len(), 3);
    assert_eq!(index.get(&b).map(|e| e.size_bytes), Some(2));
}

#[test]
fn restore_accepts_what_an_index_holds() {
    let mut index = CacheIndex::new(300);
    for n in 0..5u8 {
        index.put(&key(n), 100);
    }
    let restored = CacheIndex::restore(
        300,
        index.current_size_bytes(),
        index.next_file_id(),
        index.entries().clone(),
    )
    .unwrap();
    assert_eq!(restored.entries(), index.entries());
    assert_eq!(restored.next_file_id(), 5);
    assert_eq!(restored.current_size_bytes(), 300);
}

#[test]
fn restore_rejects_a_corrupt_index() {
    let e = |size_bytes, file_id| CacheEntry { size_bytes, file_id };
    // Wrong byte count.
    let r = CacheIndex::restore(100, 5, 2, vec![(key(1), e(3, 0)), (key(2), e(3, 1))]);
    assert_eq!(r.err(), Some(CacheError::Serialization));
    // A key twice.
    let r = CacheIndex::restore(100, 6, 2, vec![(key(1), e(3, 0)), (key(1), e(3, 1))]);
    assert_eq!(r.err(), Some(CacheError::Serialization));
    // A file twice.
    let r = CacheIndex::restore(100, 6, 2, vec![(key(1), e(3, 1)), (key(2), e(3, 1))]);
    assert_eq!(r.err(), Some(CacheError::Serialization));
    // A file id that was never handed out.
    let r = CacheIndex::restore(100, 6, 1, vec![(key(1), e(3, 0)), (key(2), e(3, 1))]);
    assert_eq!(r.err(), Some(CacheError::Serialization));
    // Sizes that do not fit the counter.
    let r = CacheIndex::restore(100, 0, 2, vec![(key(1), e(u64::MAX, 0)), (key(2), e(1, 1))]);
    assert_eq!(r.err(), Some(CacheError::Serialization));
    // A sound one.
    assert!(CacheIndex::restore(100, 6, 2, vec![(key(1), e(3, 0)), (key(2), e(3, 1))]).is_ok());
}

#[test]
fn restored_index_over_capacity_shrinks_at_the_next_put() {
    let e = |size_bytes, file_id| CacheEntry { size_bytes, file_id };
    let mut index =
        CacheIndex::restore(100, 300, 3, vec![(key(1), e(100, 0)), (key(2), e(100, 1)), (key(3), e(100, 2))])
            .unwrap();
    let outcome = index.put(&key(4), 50);
    assert_eq!(outcome.discarded, vec![0, 1, 2]);
    assert_eq!(index.current_size_bytes(), 50);
}

#[test]
fn filling_beyond_capacity_evicts_the_first_stored() {
    // Room for exactly four values of 25 bytes.
    let mut index = CacheIndex::new(100);
    for n in 0..4u8 {
        assert!(index.put(&key(n), 25).discarded.is_empty());
    }
    assert_eq!(keys_of(&index), vec![key(0), key(1), key(2), key(3)]);
    let outcome = index.put(&key(4), 25);
    assert_eq!(outcome.discarded, vec![0]);
    assert_eq!(keys_of(&index), vec![key(1), key(2), key(3), key(4)]);
    let ids: Vec<u64> = index.entries().iter().map(|slot| slot.1.file_id).collect();
    assert_eq!(ids, vec![1, 2, 3, 4]);
}

#[test]
fn a_read_defers_eviction() {
    let mut index = CacheIndex::new(100);
    for n in 0..4u8 {
        index.put(&key(n), 25);
    }
    // Key 0 is the oldest; reading it makes key 1 the next to go.
    assert!(index.touch(&key(0)));
    assert_eq!(index.put(&key(4), 25).discarded, vec![1]);
    assert_eq!(keys_of(&index), vec![key(2), key(3), key(0), key(4)]);
    assert_eq!(index.put(&key(5), 25).discarded, vec![2]);
    assert!(index.contains_key(&key(0)));
}

#[test]
fn capacity_that_is_not_a_multiple_of_the_size() {
    // 110 bytes hold four values of 25 bytes and not five.
    let mut index = CacheIndex::new(110);
    for n in 0..5u8 {
        index.put(&key(n), 25);
    }
    assert_eq!(keys_of(&index), vec![key(1), key(2), key(3), key(4)]);
    assert_eq!(index.current_size_bytes(), 100);
}

#[test]
fn zero_capacity_keeps_only_the_newest() {
    let mut index = CacheIndex::new(0);
    assert!(index.put(&key(1), 5).discarded.is_empty());
    assert_eq!(index.put(&key(2), 5).discarded, vec![0]);
    assert_eq!(keys_of(&index), vec![key(2)]);
    // A value of no bytes fits even a cache of no bytes.
    assert_eq!(index.put(&key(3), 0).discarded, vec![1]);
    assert_eq!(index.current_size_bytes(), 0);
    assert!(index.put(&key(4), 0).discarded.is_empty());
    assert_eq!(keys_of(&index), vec![key(3), key(4)]);
}
