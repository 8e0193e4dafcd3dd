//! The index as a mathematical value: a capacity, a file counter and the
//! entries in order of use, with the functions that say what storing and
//! reading do to them.

use vstd::prelude::*;
use crate::cache::{CacheEntry, CacheKey, Slot};

verus! {

/// Sum of the sizes of `entries`.
pub open spec fn total_size(entries: Seq<Slot>) -> int
    decreases entries.len(),
{
    if entries.len() == 0 {
        0
    } else {
        total_size(entries.drop_last()) + entries.last().1.size_bytes
    }
}

/// Whether some entry has the key `key`.
pub open spec fn has_key(entries: Seq<Slot>, key: CacheKey) -> bool {
    exists|i: int| 0 <= i < entries.len() && (#[trigger] entries[i]).0 == key
}

/// The place of an entry with the key `key`; meaningful where one exists.
pub open spec fn key_index(entries: Seq<Slot>, key: CacheKey) -> int {
    choose|i: int| 0 <= i < entries.len() && (#[trigger] entries[i]).0 == key
}

/// The entry stored under `key`, if any.
pub open spec fn entry_of(entries: Seq<Slot>, key: CacheKey) -> Option<CacheEntry> {
    if has_key(entries, key) {
        Some(entries[key_index(entries, key)].1)
    } else {
        None
    }
}

/// `entries` with the entry of `key`, if any, taken out.
pub open spec fn without_key(entries: Seq<Slot>, key: CacheKey) -> Seq<Slot> {
    if has_key(entries, key) {
        entries.remove(key_index(entries, key))
    } else {
        entries
    }
}

/// What eviction leaves of `entries`: the oldest entry is dropped for as long
/// as the total exceeds `max_bytes` and more than one entry is left. The
/// newest entry is therefore never dropped.
pub open spec fn shed(entries: Seq<Slot>, max_bytes: int) -> Seq<Slot>
    decreases entries.len(),
{
    if entries.len() > 1 && total_size(entries) > max_bytes {
        shed(entries.drop_first(), max_bytes)
    } else {
        entries
    }
}

/// The file ids of `entries`, in order.
pub open spec fn file_ids(entries: Seq<Slot>) -> Seq<u64> {
    Seq::new(entries.len(), |i: int| entries[i].1.file_id)
}

/// No two entries share a key.
pub open spec fn keys_distinct(entries: Seq<Slot>) -> bool {
    forall|i: int, j: int|
        0 <= i < j < entries.len() ==> (#[trigger] entries[i]).0 != (#[trigger] entries[j]).0
}

/// No two entries share a file.
pub open spec fn files_distinct(entries: Seq<Slot>) -> bool {
    forall|i: int, j: int|
        0 <= i < j < entries.len() ==> (#[trigger] entries[i]).1.file_id != (
        #[trigger] entries[j]).1.file_id
}

/// The mathematical content of a [`CacheIndex`].
pub struct IndexModel {
    /// Capacity in bytes.
    pub max_bytes: u64,
    /// The id the next stored value gets.
    pub next_file_id: u64,
    /// The live entries, least recently used first.
    pub entries: Seq<Slot>,
}

impl IndexModel {
    /// The bytes that the live entries occupy.
    pub open spec fn current_size_bytes(self) -> int {
        total_size(self.entries)
    }

    /// The entry that `put` creates.
    pub open spec fn fresh_entry(self, size_bytes: u64) -> CacheEntry {
        CacheEntry { size_bytes, file_id: self.next_file_id }
    }

    /// The entries once the new one is admitted and before eviction runs.
    pub open spec fn admitted(self, key: CacheKey, size_bytes: u64) -> Seq<Slot> {
        without_key(self.entries, key).push((key, self.fresh_entry(size_bytes)))
    }

    /// The index after a value of `size_bytes` bytes is stored under `key`.
    pub open spec fn put(self, key: CacheKey, size_bytes: u64) -> IndexModel {
        IndexModel {
            max_bytes: self.max_bytes,
            next_file_id: (self.next_file_id + 1) as u64,
            entries: shed(self.admitted(key, size_bytes), self.max_bytes as int),
        }
    }

    /// The files that storing a value under `key` leaves without an entry:
    /// first the file of the entry that `key` had, then the files of the
    /// evicted entries, oldest first.
    pub open spec fn put_discards(self, key: CacheKey, size_bytes: u64) -> Seq<u64> {
        let admitted = self.admitted(key, size_bytes);
        let kept = shed(admitted, self.max_bytes as int);
        let evicted = file_ids(admitted.take(admitted.len() - kept.len()));
        match entry_of(self.entries, key) {
            Some(replaced) => seq![replaced.file_id] + evicted,
            None => evicted,
        }
    }

    /// The index after a successful read of `key`: its entry becomes the most
    /// recently used one. Without an entry for `key` nothing changes.
    pub open spec fn touch(self, key: CacheKey) -> IndexModel {
        match entry_of(self.entries, key) {
            Some(entry) => IndexModel {
                max_bytes: self.max_bytes,
                next_file_id: self.next_file_id,
                entries: without_key(self.entries, key).push((key, entry)),
            },
            None => self,
        }
    }

    /// Validity: keys and files are unique, every file id was handed out
    /// before, and the total fits the counter.
    pub open spec fn wf(self) -> bool {
        &&& keys_distinct(self.entries)
        &&& files_distinct(self.entries)
        &&& forall|i: int|
            0 <= i < self.entries.len() ==> (#[trigger] self.entries[i]).1.file_id
                < self.next_file_id
        &&& total_size(self.entries) <= u64::MAX
    }
}

/// Whether persisted parts form a valid index with the given byte count.
pub open spec fn restorable(current_size_bytes: u64, next_file_id: u64, entries: Seq<Slot>) -> bool {
    &&& keys_distinct(entries)
    &&& files_distinct(entries)
    &&& forall|i: int| 0 <= i < entries.len() ==> (#[trigger] entries[i]).1.file_id < next_file_id
    &&& total_size(entries) == current_size_bytes
}

/// Adding an entry at the end adds its size.
pub proof fn lemma_total_size_push(entries: Seq<Slot>, slot: Slot)
    ensures
        total_size(entries.push(slot)) == total_size(entries) + slot.1.size_bytes,
{
    assert(entries.push(slot).drop_last() =~= entries);
}

/// The total of a sequence is the total of a prefix plus that of the rest.
pub proof fn lemma_total_size_split(entries: Seq<Slot>, k: int)
    requires
        0 <= k <= entries.len(),
    ensures
        total_size(entries) == total_size(entries.take(k)) + total_size(entries.skip(k)),
    decreases entries.len(),
{
    if k == entries.len() {
        assert(entries.take(k) =~= entries);
        assert(entries.skip(k) =~= Seq::<Slot>::empty());
    } else {
        let front = entries.drop_last();
        lemma_total_size_split(front, k);
        assert(front.take(k) =~= entries.take(k));
        assert(front.skip(k) =~= entries.skip(k).drop_last());
        assert(entries.skip(k).last() == entries.last());
    }
}

/// Sizes are never negative.
pub proof fn lemma_total_size_nonnegative(entries: Seq<Slot>)
    ensures
        total_size(entries) >= 0,
    decreases entries.len(),
{
    if entries.len() > 0 {
        lemma_total_size_nonnegative(entries.drop_last());
    }
}

/// Taking one entry out takes its size out.
pub proof fn lemma_total_size_remove(entries: Seq<Slot>, i: int)
    requires
        0 <= i < entries.len(),
    ensures
        total_size(entries.remove(i)) == total_size(entries) - entries[i].1.size_bytes,
{
    lemma_total_size_split(entries, i);
    lemma_total_size_split(entries.skip(i), 1);
    lemma_total_size_split(entries.remove(i), i);
    assert(entries.remove(i).take(i) =~= entries.take(i));
    assert(entries.remove(i).skip(i) =~= entries.skip(i).skip(1));
    let single = entries.skip(i).take(1);
    assert(single.drop_last() =~= Seq::<Slot>::empty());
    assert(single.last() == entries[i]);
    assert(total_size(single) == total_size(single.drop_last()) + entries[i].1.size_bytes);
}

/// In a sequence with unique keys an entry's place is determined by its key.
pub proof fn lemma_key_index_unique(entries: Seq<Slot>, i: int)
    requires
        keys_distinct(entries),
        0 <= i < entries.len(),
    ensures
        has_key(entries, entries[i].0),
        key_index(entries, entries[i].0) == i,
        entry_of(entries, entries[i].0) == Some(entries[i].1),
{
    let key = entries[i].0;
    let j = key_index(entries, key);
    assert(0 <= j < entries.len() && entries[j].0 == key);
    if j < i {
        assert(entries[j].0 != entries[i].0);
    } else if i < j {
        assert(entries[i].0 != entries[j].0);
    }
}

/// Eviction keeps a suffix of the entries: the `len - kept` oldest go.
pub proof fn lemma_shed_is_suffix(entries: Seq<Slot>, max_bytes: int)
    ensures
        shed(entries, max_bytes).len() <= entries.len(),
        entries.len() > 0 ==> shed(entries, max_bytes).len() > 0,
        shed(entries, max_bytes) == entries.skip(
            entries.len() - shed(entries, max_bytes).len(),
        ),
    decreases entries.len(),
{
    if entries.len() > 1 && total_size(entries) > max_bytes {
        let rest = entries.drop_first();
        lemma_shed_is_suffix(rest, max_bytes);
        let kept = shed(rest, max_bytes);
        assert(rest.skip(rest.len() - kept.len()) =~= entries.skip(entries.len() - kept.len()));
    } else {
        assert(entries.skip(0) =~= entries);
    }
}

/// After eviction the entries fit the capacity, or a single entry is left.
pub proof fn lemma_shed_fits(entries: Seq<Slot>, max_bytes: int)
    ensures
        total_size(shed(entries, max_bytes)) <= max_bytes || shed(entries, max_bytes).len() <= 1,
    decreases entries.len(),
{
    if entries.len() > 1 && total_size(entries) > max_bytes {
        lemma_shed_fits(entries.drop_first(), max_bytes);
    }
}

/// Taking the entry of a key out keeps the sequence valid, and the key is
/// gone from it.
pub proof fn lemma_without_key_valid(m: IndexModel, key: CacheKey)
    requires
        m.wf(),
    ensures
        keys_distinct(without_key(m.entries, key)),
        files_distinct(without_key(m.entries, key)),
        !has_key(without_key(m.entries, key), key),
        forall|i: int|
            0 <= i < without_key(m.entries, key).len() ==> (#[trigger] without_key(
                m.entries,
                key,
            )[i]).1.file_id < m.next_file_id,
        total_size(without_key(m.entries, key)) <= total_size(m.entries),
{
    let rest = without_key(m.entries, key);
    if has_key(m.entries, key) {
        let at = key_index(m.entries, key);
        lemma_total_size_remove(m.entries, at);
        assert forall|i: int| 0 <= i < rest.len() implies (#[trigger] rest[i]).0 != key by {
            if i < at {
                assert(rest[i] == m.entries[i]);
                assert(m.entries[i].0 != m.entries[at].0);
            } else {
                assert(rest[i] == m.entries[i + 1]);
                assert(m.entries[at].0 != m.entries[i + 1].0);
            }
        }
        assert forall|i: int, j: int| 0 <= i < j < rest.len() implies (#[trigger] rest[i]).0 != (
        #[trigger] rest[j]).0 && rest[i].1.file_id != rest[j].1.file_id by {
            let a = if i < at { i } else { i + 1 };
            let b = if j < at { j } else { j + 1 };
            assert(rest[i] == m.entries[a]);
            assert(rest[j] == m.entries[b]);
        }
        assert forall|i: int| 0 <= i < rest.len() implies (#[trigger] rest[i]).1.file_id
            < m.next_file_id by {
            let a = if i < at { i } else { i + 1 };
            assert(rest[i] == m.entries[a]);
        }
    }
}

/// Storing a value keeps the index valid.
pub proof fn lemma_put_keeps_valid(m: IndexModel, key: CacheKey, size_bytes: u64)
    requires
        m.wf(),
        m.next_file_id < u64::MAX,
    ensures
        m.put(key, size_bytes).wf(),
{
    let rest = without_key(m.entries, key);
    let slot = (key, m.fresh_entry(size_bytes));
    let admitted = m.admitted(key, size_bytes);
    let kept = shed(admitted, m.max_bytes as int);
    lemma_without_key_valid(m, key);
    lemma_shed_is_suffix(admitted, m.max_bytes as int);
    lemma_shed_fits(admitted, m.max_bytes as int);
    let k = admitted.len() - kept.len();
    assert forall|i: int, j: int| 0 <= i < j < kept.len() implies (#[trigger] kept[i]).0 != (
    #[trigger] kept[j]).0 && kept[i].1.file_id != kept[j].1.file_id by {
        assert(kept[i] == rest[i + k]);
        if j + k < rest.len() {
            assert(kept[j] == rest[j + k]);
        } else {
            assert(kept[j] == slot);
        }
    }
    assert forall|i: int| 0 <= i < kept.len() implies (#[trigger] kept[i]).1.file_id < m.put(
        key,
        size_bytes,
    ).next_file_id by {
        if i + k < rest.len() {
            assert(kept[i] == rest[i + k]);
        } else {
            assert(kept[i] == slot);
        }
    }
    if kept.len() <= 1 {
        assert(kept =~= seq![slot]);
        assert(kept.drop_last() =~= Seq::<Slot>::empty());
        assert(total_size(kept) == total_size(kept.drop_last()) + slot.1.size_bytes);
    }
}

/// Whether some entry refers to the file `file_id`.
pub open spec fn refers_to(entries: Seq<Slot>, file_id: u64) -> bool {
    exists|i: int| 0 <= i < entries.len() && (#[trigger] entries[i]).1.file_id == file_id
}

/// Every entry has the size `size_bytes`.
pub open spec fn uniform(entries: Seq<Slot>, size_bytes: u64) -> bool {
    forall|i: int| 0 <= i < entries.len() ==> (#[trigger] entries[i]).1.size_bytes == size_bytes
}

/// Entries of one size add up to their number times that size.
pub proof fn lemma_total_size_uniform(entries: Seq<Slot>, size_bytes: u64)
    requires
        uniform(entries, size_bytes),
    ensures
        total_size(entries) == entries.len() * size_bytes,
    decreases entries.len(),
{
    if entries.len() > 0 {
        let front = entries.drop_last();
        assert forall|i: int| 0 <= i < front.len() implies (#[trigger] front[i]).1.size_bytes
            == size_bytes by {
            assert(front[i] == entries[i]);
        }
        lemma_total_size_uniform(front, size_bytes);
        assert(entries.last() == entries[entries.len() - 1]);
        assert(entries.len() * size_bytes == front.len() * size_bytes + size_bytes)
            by (nonlinear_arith)
            requires
                entries.len() == front.len() + 1,
        ;
    } else {
        assert(entries.len() * size_bytes == 0) by (nonlinear_arith)
            requires
                entries.len() == 0,
        ;
    }
}

/// A read keeps the index valid and changes neither the set of entries nor
/// their total size.
pub proof fn lemma_touch_keeps_valid(m: IndexModel, key: CacheKey)
    requires
        m.wf(),
    ensures
        m.touch(key).wf(),
        m.touch(key).entries.len() == m.entries.len(),
        m.touch(key).current_size_bytes() == m.current_size_bytes(),
        forall|other: CacheKey|
            has_key(m.touch(key).entries, other) == has_key(m.entries, other),
        forall|size_bytes: u64|
            uniform(m.entries, size_bytes) ==> uniform(m.touch(key).entries, size_bytes),
{
    if has_key(m.entries, key) {
        let at = key_index(m.entries, key);
        let slot = m.entries[at];
        let rest = without_key(m.entries, key);
        let moved = m.touch(key).entries;
        lemma_without_key_valid(m, key);
        lemma_total_size_remove(m.entries, at);
        lemma_total_size_push(rest, slot);
        assert(moved == rest.push(slot));
        assert forall|i: int| 0 <= i < moved.len() implies #[trigger] moved[i] == m.entries[if i
            == rest.len() {
            at
        } else if i >= at {
            i + 1
        } else {
            i
        }] by {}
        assert forall|i: int, j: int| 0 <= i < j < moved.len() implies (#[trigger] moved[i]).0 != (
        #[trigger] moved[j]).0 && moved[i].1.file_id != moved[j].1.file_id by {
            if j == rest.len() {
                let a = if i >= at { i + 1 } else { i };
                if a < at {
                    assert(m.entries[a].0 != m.entries[at].0);
                } else {
                    assert(m.entries[at].0 != m.entries[a].0);
                }
            } else {
                assert(moved[i] == rest[i]);
                assert(moved[j] == rest[j]);
            }
        }
        assert forall|other: CacheKey| has_key(moved, other) == has_key(m.entries, other) by {
            if has_key(moved, other) {
                let i = choose|i: int| 0 <= i < moved.len() && (#[trigger] moved[i]).0 == other;
                let a = if i == rest.len() { at } else if i >= at { i + 1 } else { i };
                assert(m.entries[a].0 == other);
            }
            if has_key(m.entries, other) {
                let a = choose|a: int|
                    0 <= a < m.entries.len() && (#[trigger] m.entries[a]).0 == other;
                let i = if a == at { rest.len() as int } else if a > at { a - 1 } else { a };
                assert(moved[i] == m.entries[a]);
            }
        }
    }
}

/// A file has an entry after an entry is appended if it had one before or is
/// the file of the new entry.
pub proof fn lemma_refers_to_push(entries: Seq<Slot>, slot: Slot, file_id: u64)
    ensures
        refers_to(entries.push(slot), file_id) <==> refers_to(entries, file_id) || slot.1.file_id
            == file_id,
{
    let grown = entries.push(slot);
    if refers_to(grown, file_id) {
        let i = choose|i: int| 0 <= i < grown.len() && (#[trigger] grown[i]).1.file_id == file_id;
        if i < entries.len() {
            assert(entries[i].1.file_id == file_id);
        }
    }
    if refers_to(entries, file_id) {
        let i = choose|i: int|
            0 <= i < entries.len() && (#[trigger] entries[i]).1.file_id == file_id;
        assert(grown[i].1.file_id == file_id);
    }
    if slot.1.file_id == file_id {
        assert(grown[entries.len() as int].1.file_id == file_id);
    }
}

/// Where no two entries share a file, a file has an entry among the last
/// entries exactly if it has one at all and none among the first `k`.
pub proof fn lemma_refers_to_split(entries: Seq<Slot>, k: int, file_id: u64)
    requires
        files_distinct(entries),
        0 <= k <= entries.len(),
    ensures
        refers_to(entries.skip(k), file_id) <==> refers_to(entries, file_id) && !file_ids(
            entries.take(k),
        ).contains(file_id),
{
    let first = file_ids(entries.take(k));
    let last = entries.skip(k);
    if refers_to(last, file_id) {
        let i = choose|i: int| 0 <= i < last.len() && (#[trigger] last[i]).1.file_id == file_id;
        assert(entries[i + k].1.file_id == file_id);
        if first.contains(file_id) {
            let j = choose|j: int| 0 <= j < first.len() && first[j] == file_id;
            assert(entries[j].1.file_id != entries[i + k].1.file_id);
        }
    }
    if refers_to(entries, file_id) && !first.contains(file_id) {
        let i = choose|i: int|
            0 <= i < entries.len() && (#[trigger] entries[i]).1.file_id == file_id;
        if i < k {
            assert(first[i] == file_id);
        }
        assert(last[i - k].1.file_id == file_id);
    }
}

/// A file among the files of the first `k` entries has an entry.
pub proof fn lemma_file_ids_refer(entries: Seq<Slot>, k: int, file_id: u64)
    requires
        0 <= k <= entries.len(),
        file_ids(entries.take(k)).contains(file_id),
    ensures
        refers_to(entries, file_id),
{
    let first = file_ids(entries.take(k));
    let j = choose|j: int| 0 <= j < first.len() && first[j] == file_id;
    assert(entries[j].1.file_id == file_id);
}

/// Where no two entries share a file, taking the entry of a key out leaves
/// the other files with their entries and the file of that entry without.
pub proof fn lemma_refers_to_without_key(entries: Seq<Slot>, key: CacheKey, file_id: u64)
    requires
        files_distinct(entries),
    ensures
        refers_to(without_key(entries, key), file_id) <==> refers_to(entries, file_id) && !(
        entry_of(entries, key) matches Some(taken) && taken.file_id == file_id),
{
    let rest = without_key(entries, key);
    if has_key(entries, key) {
        let at = key_index(entries, key);
        if refers_to(rest, file_id) {
            let i = choose|i: int| 0 <= i < rest.len() && (#[trigger] rest[i]).1.file_id == file_id;
            let j = if i < at { i } else { i + 1 };
            assert(entries[j].1.file_id == file_id);
            if j < at {
                assert(entries[j].1.file_id != entries[at].1.file_id);
            } else {
                assert(entries[at].1.file_id != entries[j].1.file_id);
            }
        }
        if refers_to(entries, file_id) && entries[at].1.file_id != file_id {
            let j = choose|j: int|
                0 <= j < entries.len() && (#[trigger] entries[j]).1.file_id == file_id;
            let i = if j < at { j } else { j - 1 };
            assert(rest[i].1.file_id == file_id);
        }
    }
}

} // verus!
