//! Laws of the index: what holds of every valid index and every sequence of
//! stores and reads.

use vstd::prelude::*;
use crate::cache::model::{
    entry_of, file_ids, files_distinct, has_key, key_index, lemma_file_ids_refer,
    lemma_key_index_unique, lemma_put_keeps_valid, lemma_refers_to_push, lemma_refers_to_split,
    lemma_refers_to_without_key, lemma_shed_fits, lemma_shed_is_suffix, lemma_total_size_push,
    lemma_total_size_split, lemma_total_size_uniform, lemma_touch_keeps_valid,
    lemma_without_key_valid, refers_to, shed, total_size, uniform, without_key, IndexModel,
};
use crate::cache::{CacheEntry, CacheKey, Slot};

verus! {

/// The index after the values `puts` (key and size) are stored one after the
/// other.
pub open spec fn put_all(m: IndexModel, puts: Seq<(CacheKey, u64)>) -> IndexModel
    decreases puts.len(),
{
    if puts.len() == 0 {
        m
    } else {
        put_all(m, puts.drop_last()).put(puts.last().0, puts.last().1)
    }
}

/// Size bound of a single store: afterwards the live entries fit the
/// capacity, unless the stored value alone is larger than the capacity, in
/// which case it is the only entry left.
pub proof fn lemma_put_within_capacity(m: IndexModel, key: CacheKey, size_bytes: u64)
    requires
        m.wf(),
        m.next_file_id < u64::MAX,
    ensures
        m.put(key, size_bytes).wf(),
        m.put(key, size_bytes).current_size_bytes() <= m.max_bytes || (size_bytes > m.max_bytes
            && m.put(key, size_bytes).entries == seq![(key, m.fresh_entry(size_bytes))]),
{
    let admitted = m.admitted(key, size_bytes);
    let kept = shed(admitted, m.max_bytes as int);
    lemma_put_keeps_valid(m, key, size_bytes);
    lemma_shed_is_suffix(admitted, m.max_bytes as int);
    lemma_shed_fits(admitted, m.max_bytes as int);
    if total_size(kept) > m.max_bytes {
        assert(kept =~= seq![(key, m.fresh_entry(size_bytes))]);
        assert(kept.drop_last() =~= Seq::<Slot>::empty());
        assert(total_size(kept) == total_size(kept.drop_last()) + size_bytes);
    }
}

/// Size invariant over any sequence of stores: after the last of them the
/// index is valid, so its byte count is the exact sum of the live entries'
/// sizes, and that sum is within the capacity unless a single entry larger
/// than the capacity is all that is left.
pub proof fn lemma_puts_within_capacity(m: IndexModel, puts: Seq<(CacheKey, u64)>)
    requires
        m.wf(),
        m.next_file_id + puts.len() <= u64::MAX,
    ensures
        put_all(m, puts).wf(),
        put_all(m, puts).max_bytes == m.max_bytes,
        put_all(m, puts).next_file_id == m.next_file_id + puts.len(),
        puts.len() > 0 ==> put_all(m, puts).current_size_bytes() <= m.max_bytes || (put_all(
            m,
            puts,
        ).entries.len() == 1 && puts.last().1 > m.max_bytes),
    decreases puts.len(),
{
    if puts.len() > 0 {
        lemma_puts_within_capacity(m, puts.drop_last());
        lemma_put_within_capacity(put_all(m, puts.drop_last()), puts.last().0, puts.last().1);
    }
}

/// A stored value is found again: right after a store its key has the entry
/// that the store created, and that entry is the most recently used one.
pub proof fn lemma_put_then_get(m: IndexModel, key: CacheKey, size_bytes: u64)
    requires
        m.wf(),
        m.next_file_id < u64::MAX,
    ensures
        entry_of(m.put(key, size_bytes).entries, key) == Some(m.fresh_entry(size_bytes)),
        m.put(key, size_bytes).entries.last() == (key, m.fresh_entry(size_bytes)),
{
    let admitted = m.admitted(key, size_bytes);
    let kept = shed(admitted, m.max_bytes as int);
    lemma_put_keeps_valid(m, key, size_bytes);
    lemma_shed_is_suffix(admitted, m.max_bytes as int);
    lemma_key_index_unique(kept, kept.len() - 1);
}

/// File accounting of a store. The files that the index refers to afterwards
/// are the new file and the files it referred to before, less the discarded
/// ones. Every discarded file had an entry before and has none afterwards,
/// and the new file is never discarded.
pub proof fn lemma_put_file_accounting(m: IndexModel, key: CacheKey, size_bytes: u64, file_id: u64)
    requires
        m.wf(),
        m.next_file_id < u64::MAX,
    ensures
        refers_to(m.put(key, size_bytes).entries, file_id) <==> (file_id == m.next_file_id || (
        refers_to(m.entries, file_id) && !m.put_discards(key, size_bytes).contains(file_id))),
        m.put_discards(key, size_bytes).contains(file_id) ==> refers_to(m.entries, file_id),
        !m.put_discards(key, size_bytes).contains(m.next_file_id),
{
    lemma_discards_had_entries(m, key, size_bytes, file_id);
    lemma_discards_had_entries(m, key, size_bytes, m.next_file_id);
    let rest = without_key(m.entries, key);
    let slot = (key, m.fresh_entry(size_bytes));
    let admitted = m.admitted(key, size_bytes);
    let kept = shed(admitted, m.max_bytes as int);
    let k = admitted.len() - kept.len();
    lemma_shed_is_suffix(admitted, m.max_bytes as int);
    lemma_admitted_valid(m, key, size_bytes);
    lemma_refers_to_split(admitted, k, file_id);
    lemma_refers_to_push(rest, slot, file_id);
    lemma_refers_to_without_key(m.entries, key, file_id);
    lemma_discards_split(m, key, size_bytes, file_id);
}

/// The directory and the index are in step: the files in the directory are
/// exactly the files that entries refer to.
pub open spec fn in_step(files: Set<u64>, entries: Seq<Slot>) -> bool {
    forall|file_id: u64| files.contains(file_id) <==> refers_to(entries, file_id)
}

/// The files in the directory once the caller has done its part of a store:
/// the new file is written and the discarded files are deleted.
pub open spec fn files_after_put(
    files: Set<u64>,
    m: IndexModel,
    key: CacheKey,
    size_bytes: u64,
) -> Set<u64> {
    files.insert(m.next_file_id).difference(m.put_discards(key, size_bytes).to_set())
}

/// A store keeps directory and index in step: afterwards the index refers
/// to no deleted file, and every file in the directory has an entry.
pub proof fn lemma_put_keeps_in_step(files: Set<u64>, m: IndexModel, key: CacheKey, size_bytes: u64)
    requires
        m.wf(),
        m.next_file_id < u64::MAX,
        in_step(files, m.entries),
    ensures
        in_step(files_after_put(files, m, key, size_bytes), m.put(key, size_bytes).entries),
{
    let after = files_after_put(files, m, key, size_bytes);
    assert forall|file_id: u64| after.contains(file_id) <==> refers_to(
        m.put(key, size_bytes).entries,
        file_id,
    ) by {
        lemma_put_file_accounting(m, key, size_bytes, file_id);
    }
}

/// A read keeps directory and index in step: it changes the order of the
/// entries and not the files they refer to.
pub proof fn lemma_touch_keeps_in_step(files: Set<u64>, m: IndexModel, key: CacheKey)
    requires
        m.wf(),
        in_step(files, m.entries),
    ensures
        in_step(files, m.touch(key).entries),
{
    assert forall|file_id: u64| files.contains(file_id) <==> refers_to(
        m.touch(key).entries,
        file_id,
    ) by {
        if has_key(m.entries, key) {
            let slot = (key, entry_of(m.entries, key).unwrap());
            lemma_key_index_unique(m.entries, key_index(m.entries, key));
            lemma_refers_to_push(without_key(m.entries, key), slot, file_id);
            lemma_refers_to_without_key(m.entries, key, file_id);
            if slot.1.file_id == file_id {
                assert(m.entries[key_index(m.entries, key)].1.file_id == file_id);
            }
        }
    }
}

/// The admitted entries, before eviction, have distinct files.
proof fn lemma_admitted_valid(m: IndexModel, key: CacheKey, size_bytes: u64)
    requires
        m.wf(),
    ensures
        files_distinct(m.admitted(key, size_bytes)),
{
    let rest = without_key(m.entries, key);
    let admitted = m.admitted(key, size_bytes);
    lemma_without_key_valid(m, key);
    assert forall|i: int, j: int| 0 <= i < j < admitted.len() implies (
    #[trigger] admitted[i]).1.file_id != (#[trigger] admitted[j]).1.file_id by {
        assert(admitted[i] == rest[i]);
        if j < rest.len() {
            assert(admitted[j] == rest[j]);
        }
    }
}

/// A discarded file is the file of the replaced entry or of an evicted one.
proof fn lemma_discards_split(m: IndexModel, key: CacheKey, size_bytes: u64, file_id: u64)
    ensures
        m.put_discards(key, size_bytes).contains(file_id) <==> (entry_of(m.entries, key) matches Some(
            replaced,
        ) && replaced.file_id == file_id) || file_ids(
            m.admitted(key, size_bytes).take(
                m.admitted(key, size_bytes).len() - m.put(key, size_bytes).entries.len(),
            ),
        ).contains(file_id),
{
    let admitted = m.admitted(key, size_bytes);
    let kept = m.put(key, size_bytes).entries;
    let evicted = file_ids(admitted.take(admitted.len() - kept.len()));
    let discards = m.put_discards(key, size_bytes);
    match entry_of(m.entries, key) {
        Some(replaced) => {
            assert(discards[0] == replaced.file_id);
            if discards.contains(file_id) {
                let i = choose|i: int| 0 <= i < discards.len() && discards[i] == file_id;
                if i > 0 {
                    assert(evicted[i - 1] == file_id);
                }
            }
            if evicted.contains(file_id) {
                let i = choose|i: int| 0 <= i < evicted.len() && evicted[i] == file_id;
                assert(discards[i + 1] == file_id);
            }
        },
        None => {},
    }
}

/// A discarded file had an entry, and so is not the new file.
proof fn lemma_discards_had_entries(m: IndexModel, key: CacheKey, size_bytes: u64, file_id: u64)
    requires
        m.wf(),
    ensures
        m.put_discards(key, size_bytes).contains(file_id) ==> refers_to(m.entries, file_id)
            && file_id < m.next_file_id,
{
    if m.put_discards(key, size_bytes).contains(file_id) {
        let rest = without_key(m.entries, key);
        let admitted = m.admitted(key, size_bytes);
        let kept = shed(admitted, m.max_bytes as int);
        let k = admitted.len() - kept.len();
        lemma_shed_is_suffix(admitted, m.max_bytes as int);
        lemma_discards_split(m, key, size_bytes, file_id);
        if file_ids(admitted.take(k)).contains(file_id) {
            assert(admitted.take(k) =~= rest.take(k));
            lemma_file_ids_refer(rest, k, file_id);
            lemma_refers_to_without_key(m.entries, key, file_id);
        } else {
            lemma_key_index_unique(m.entries, key_index(m.entries, key));
        }
        let i = choose|i: int|
            0 <= i < m.entries.len() && (#[trigger] m.entries[i]).1.file_id == file_id;
    }
}

/// Least-recently-used order. In a cache whose capacity holds exactly its
/// entries, all of one size, storing a value of that size under a new key
/// evicts exactly the oldest entry: its file is the one discarded, and the
/// other entries keep their order with the new one behind them.
pub proof fn lemma_put_evicts_least_recent(m: IndexModel, key: CacheKey, size_bytes: u64)
    requires
        m.wf(),
        m.next_file_id < u64::MAX,
        m.entries.len() >= 1,
        uniform(m.entries, size_bytes),
        !has_key(m.entries, key),
        m.entries.len() * size_bytes <= m.max_bytes < (m.entries.len() + 1) * size_bytes,
    ensures
        m.put(key, size_bytes).entries == m.entries.drop_first().push(
            (key, m.fresh_entry(size_bytes)),
        ),
        m.put_discards(key, size_bytes) == seq![m.entries[0].1.file_id],
{
    let slot = (key, m.fresh_entry(size_bytes));
    let admitted = m.admitted(key, size_bytes);
    let max = m.max_bytes as int;
    assert(admitted == m.entries.push(slot));
    lemma_total_size_uniform(m.entries, size_bytes);
    lemma_total_size_push(m.entries, slot);
    assert((m.entries.len() + 1) * size_bytes == m.entries.len() * size_bytes + size_bytes)
        by (nonlinear_arith);
    let after = admitted.drop_first();
    assert(after =~= m.entries.drop_first().push(slot));
    lemma_total_size_split(admitted, 1);
    let single = admitted.take(1);
    assert(single.drop_last() =~= Seq::<Slot>::empty());
    assert(single.last() == m.entries[0]);
    assert(total_size(single) == total_size(single.drop_last()) + size_bytes);
    assert(admitted.skip(1) =~= after);
    assert(total_size(after) <= max);
    assert(shed(after, max) == after);
    assert(shed(admitted, max) == after);
    assert(file_ids(admitted.take(1)) =~= seq![m.entries[0].1.file_id]);
}

/// A read defers eviction. In a full cache of equally sized entries, reading
/// `read` and then storing a value under a new key evicts the oldest of the
/// other entries; the entry that was read stays, whatever its age was.
pub proof fn lemma_touch_defers_eviction(
    m: IndexModel,
    read: CacheKey,
    key: CacheKey,
    size_bytes: u64,
)
    requires
        m.wf(),
        m.next_file_id < u64::MAX,
        m.entries.len() >= 2,
        uniform(m.entries, size_bytes),
        has_key(m.entries, read),
        !has_key(m.entries, key),
        m.entries.len() * size_bytes <= m.max_bytes < (m.entries.len() + 1) * size_bytes,
    ensures
        has_key(m.touch(read).put(key, size_bytes).entries, read),
        m.touch(read).put_discards(key, size_bytes) == seq![
            without_key(m.entries, read)[0].1.file_id,
        ],
        m.touch(read).put(key, size_bytes).entries == without_key(
            m.entries,
            read,
        ).drop_first().push((read, entry_of(m.entries, read).unwrap())).push(
            (key, m.fresh_entry(size_bytes)),
        ),
{
    let t = m.touch(read);
    lemma_touch_keeps_valid(m, read);
    lemma_put_evicts_least_recent(t, key, size_bytes);
    let rest = without_key(m.entries, read);
    let slot = (read, entry_of(m.entries, read).unwrap());
    assert(t.entries == rest.push(slot));
    assert(t.entries.drop_first() =~= rest.drop_first().push(slot));
    let result = t.put(key, size_bytes).entries;
    assert(result[result.len() - 2] == slot);
}

/// A store that fits evicts nothing: if the entries of the other keys and
/// the new value are together within the capacity, the new entry is added
/// behind them, and only the file of the entry that the key had, if any, is
/// discarded.
pub proof fn lemma_put_without_eviction(m: IndexModel, key: CacheKey, size_bytes: u64)
    requires
        m.wf(),
        total_size(without_key(m.entries, key)) + size_bytes <= m.max_bytes,
    ensures
        m.put(key, size_bytes).entries == m.admitted(key, size_bytes),
        m.put_discards(key, size_bytes) == match entry_of(m.entries, key) {
            Some(replaced) => seq![replaced.file_id],
            None => Seq::<u64>::empty(),
        },
{
    let admitted = m.admitted(key, size_bytes);
    lemma_total_size_push(without_key(m.entries, key), (key, m.fresh_entry(size_bytes)));
    assert(shed(admitted, m.max_bytes as int) == admitted);
    assert(admitted.take(0) =~= Seq::<Slot>::empty());
    assert(file_ids(admitted.take(0)) =~= Seq::<u64>::empty());
    match entry_of(m.entries, key) {
        Some(replaced) => {
            assert(seq![replaced.file_id] + Seq::<u64>::empty() =~= seq![replaced.file_id]);
        },
        None => {},
    }
}

/// The entries that `puts` create in an empty index that has room for all of
/// them: one per store, in order, with the file ids counted from zero.
pub open spec fn filled(puts: Seq<(CacheKey, u64)>) -> Seq<Slot> {
    Seq::new(
        puts.len(),
        |i: int| (puts[i].0, CacheEntry { size_bytes: puts[i].1, file_id: i as u64 }),
    )
}

/// No two stores have the same key.
pub open spec fn puts_distinct(puts: Seq<(CacheKey, u64)>) -> bool {
    forall|i: int, j: int| 0 <= i < j < puts.len() ==> (#[trigger] puts[i]).0 != (#[trigger] puts[j]).0
}

/// Every store has the size `size_bytes`.
pub open spec fn puts_uniform(puts: Seq<(CacheKey, u64)>, size_bytes: u64) -> bool {
    forall|i: int| 0 <= i < puts.len() ==> (#[trigger] puts[i]).1 == size_bytes
}

/// The empty index of capacity `max_bytes`.
pub open spec fn empty_index(max_bytes: u64) -> IndexModel {
    IndexModel { max_bytes, next_file_id: 0, entries: Seq::empty() }
}

/// Filling an empty cache. Values of one size under distinct keys, as many
/// as the capacity holds or fewer, are all kept, in the order in which they
/// were stored.
pub proof fn lemma_fill_keeps_all(max_bytes: u64, puts: Seq<(CacheKey, u64)>, size_bytes: u64)
    requires
        puts.len() <= u64::MAX,
        puts_distinct(puts),
        puts_uniform(puts, size_bytes),
        puts.len() * size_bytes <= max_bytes,
    ensures
        put_all(empty_index(max_bytes), puts).entries == filled(puts),
        put_all(empty_index(max_bytes), puts).wf(),
        put_all(empty_index(max_bytes), puts).next_file_id == puts.len(),
        put_all(empty_index(max_bytes), puts).max_bytes == max_bytes,
    decreases puts.len(),
{
    let start = empty_index(max_bytes);
    if puts.len() == 0 {
        assert(filled(puts) =~= Seq::<Slot>::empty());
    } else {
        let front = puts.drop_last();
        let (key, size) = puts.last();
        assert(front.len() * size_bytes <= puts.len() * size_bytes) by (nonlinear_arith)
            requires
                front.len() <= puts.len(),
                0 <= size_bytes,
        ;
        assert(puts.len() * size_bytes == front.len() * size_bytes + size_bytes)
            by (nonlinear_arith)
            requires
                puts.len() == front.len() + 1,
        ;
        assert forall|i: int, j: int| 0 <= i < j < front.len() implies (#[trigger] front[i]).0 != (
        #[trigger] front[j]).0 by {
            assert(front[i] == puts[i] && front[j] == puts[j]);
        }
        assert forall|i: int| 0 <= i < front.len() implies (#[trigger] front[i]).1
            == size_bytes by {
            assert(front[i] == puts[i]);
        }
        lemma_fill_keeps_all(max_bytes, front, size_bytes);
        let before = put_all(start, front);
        assert(!has_key(before.entries, key)) by {
            if has_key(before.entries, key) {
                let i = key_index(before.entries, key);
                assert(before.entries[i].0 == puts[i].0);
                assert(puts[i].0 != puts[puts.len() - 1].0);
            }
        }
        assert forall|i: int| 0 <= i < before.entries.len() implies (
        #[trigger] before.entries[i]).1.size_bytes == size_bytes by {
            assert(front[i] == puts[i]);
        }
        lemma_total_size_uniform(before.entries, size_bytes);
        lemma_put_without_eviction(before, key, size);
        lemma_put_keeps_valid(before, key, size);
        assert(before.put(key, size).entries =~= filled(puts));
    }
}

/// Least-recently-used order from an empty cache. With room for exactly `n`
/// values of one size, storing `n + 1` values of that size under distinct
/// keys evicts exactly the first of them: the others are kept in the order
/// in which they were stored.
pub proof fn lemma_overfill_evicts_first(
    max_bytes: u64,
    puts: Seq<(CacheKey, u64)>,
    size_bytes: u64,
)
    requires
        puts.len() >= 2,
        puts.len() <= u64::MAX,
        puts_distinct(puts),
        puts_uniform(puts, size_bytes),
        (puts.len() - 1) * size_bytes <= max_bytes < puts.len() * size_bytes,
    ensures
        put_all(empty_index(max_bytes), puts).entries == filled(puts).drop_first(),
        !has_key(put_all(empty_index(max_bytes), puts).entries, puts[0].0),
{
    let start = empty_index(max_bytes);
    let front = puts.drop_last();
    let (key, size) = puts.last();
    assert forall|i: int, j: int| 0 <= i < j < front.len() implies (#[trigger] front[i]).0 != (
    #[trigger] front[j]).0 by {
        assert(front[i] == puts[i] && front[j] == puts[j]);
    }
    assert forall|i: int| 0 <= i < front.len() implies (#[trigger] front[i]).1 == size_bytes by {
        assert(front[i] == puts[i]);
    }
    lemma_fill_keeps_all(max_bytes, front, size_bytes);
    let before = put_all(start, front);
    assert(!has_key(before.entries, key)) by {
        if has_key(before.entries, key) {
            let i = key_index(before.entries, key);
            assert(before.entries[i].0 == puts[i].0);
            assert(puts[i].0 != puts[puts.len() - 1].0);
        }
    }
    assert forall|i: int| 0 <= i < before.entries.len() implies (
    #[trigger] before.entries[i]).1.size_bytes == size_bytes by {
        assert(front[i] == puts[i]);
    }
    lemma_put_evicts_least_recent(before, key, size);
    let after = before.put(key, size).entries;
    assert(after =~= filled(puts).drop_first());
    assert(!has_key(after, puts[0].0)) by {
        if has_key(after, puts[0].0) {
            let i = key_index(after, puts[0].0);
            assert(after[i].0 == puts[i + 1].0);
            assert(puts[0].0 != puts[i + 1].0);
        }
    }
}

} // verus!
