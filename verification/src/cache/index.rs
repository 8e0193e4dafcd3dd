//! The index of a disk cache.

use vstd::prelude::*;
use crate::cache::laws::lemma_put_within_capacity;
use crate::cache::model::{
    entry_of, file_ids, files_distinct, has_key, keys_distinct, lemma_key_index_unique,
    lemma_shed_is_suffix, lemma_total_size_nonnegative, lemma_total_size_push,
    lemma_total_size_remove, lemma_total_size_split, restorable, shed, total_size, without_key,
    IndexModel,
};
use crate::cache::{CacheEntry, CacheError, CacheKey, Slot};
use crate::data::terrain::same_handle;

verus! {

/// The index of a disk cache: which keys are stored, in which files, how many
/// bytes they take, and in what order they were last used.
pub struct CacheIndex {
    max_bytes: u64,
    current_size_bytes: u64,
    next_file_id: u64,
    entries: Vec<Slot>,
}

/// What [`CacheIndex::put`] decided.
#[derive(Debug)]
pub struct PutOutcome {
    /// The file that holds the stored value.
    pub file_id: u64,
    /// The files that no entry refers to any more; the caller deletes them.
    pub discarded: Vec<u64>,
}

impl View for CacheIndex {
    type V = IndexModel;

    closed spec fn view(&self) -> IndexModel {
        IndexModel {
            max_bytes: self.max_bytes,
            next_file_id: self.next_file_id,
            entries: self.entries@,
        }
    }
}

impl CacheIndex {
    /// Validity of the index: its model is valid and the byte counter equals
    /// the sum of the entries' sizes.
    pub closed spec fn wf(&self) -> bool {
        &&& self@.wf()
        &&& self.current_size_bytes == total_size(self.entries@)
    }

    /// An empty index with capacity `max_bytes`.
    pub fn new(max_bytes: u64) -> (index: CacheIndex)
        ensures
            index.wf(),
            index@.max_bytes == max_bytes,
            index@.next_file_id == 0,
            index@.entries == Seq::<Slot>::empty(),
    {
        CacheIndex { max_bytes, current_size_bytes: 0, next_file_id: 0, entries: Vec::new() }
    }

    /// Rebuilds an index from what was persisted: the byte count, the file
    /// counter and the entries, least recently used first.
    ///
    /// The parts are accepted when they form a valid index: no key and no file
    /// occurs twice, every file id is below the counter and the byte count is
    /// the sum of the entries' sizes. Anything else is a corrupt index. The
    /// capacity is the caller's and need not be the one the index was written
    /// under; an index that exceeds it shrinks at the next `put`.
    pub fn restore(
        max_bytes: u64,
        current_size_bytes: u64,
        next_file_id: u64,
        entries: Vec<Slot>,
    ) -> (restored: Result<CacheIndex, CacheError>)
        ensures
            match restored {
                Ok(index) => {
                    &&& index.wf()
                    &&& index@.max_bytes == max_bytes
                    &&& index@.next_file_id == next_file_id
                    &&& index@.entries == entries@
                    &&& index@.current_size_bytes() == current_size_bytes
                },
                Err(e) => e == CacheError::Serialization,
            },
            restored.is_ok() <==> restorable(current_size_bytes, next_file_id, entries@),
    {
        let n = entries.len();
        let mut sum: u64 = 0;
        let mut i: usize = 0;
        while i < n
            invariant
                n == entries@.len(),
                i <= n,
                sum == total_size(entries@.take(i as int)),
                keys_distinct(entries@.take(i as int)),
                files_distinct(entries@.take(i as int)),
                forall|a: int| 0 <= a < i ==> (#[trigger] entries@[a]).1.file_id < next_file_id,
            decreases n - i,
        {
            let ghost seen = entries@.take(i as int);
            let ghost grown = entries@.take(i + 1);
            proof {
                assert(grown =~= seen.push(entries@[i as int]));
                lemma_total_size_push(seen, entries@[i as int]);
                lemma_total_size_split(entries@, i + 1);
                lemma_total_size_nonnegative(entries@.skip(i + 1));
            }
            let slot = &entries[i];
            if slot.1.file_id >= next_file_id {
                return Err(CacheError::Serialization);
            }
            if slot.1.size_bytes > u64::MAX - sum {
                return Err(CacheError::Serialization);
            }
            let mut j: usize = 0;
            while j < i
                invariant
                    n == entries@.len(),
                    i < n,
                    j <= i,
                    *slot == entries@[i as int],
                    forall|a: int|
                        0 <= a < j ==> (#[trigger] entries@[a]).0 != slot.0 && entries@[a].1.file_id
                            != slot.1.file_id,
                decreases i - j,
            {
                let earlier = &entries[j];
                if same_handle(&earlier.0, &slot.0) || earlier.1.file_id == slot.1.file_id {
                    return Err(CacheError::Serialization);
                }
                j += 1;
            }
            proof {
                assert forall|a: int, b: int| 0 <= a < b < grown.len() implies (
                #[trigger] grown[a]).0 != (#[trigger] grown[b]).0 && grown[a].1.file_id
                    != grown[b].1.file_id by {
                    if b < i {
                        assert(grown[a] == seen[a]);
                        assert(grown[b] == seen[b]);
                    }
                }
            }
            sum = sum + slot.1.size_bytes;
            i += 1;
        }
        proof {
            assert(entries@.take(n as int) =~= entries@);
        }
        if sum != current_size_bytes {
            return Err(CacheError::Serialization);
        }
        Ok(CacheIndex { max_bytes, current_size_bytes, next_file_id, entries })
    }

    /// The capacity in bytes.
    pub fn max_bytes(&self) -> (n: u64)
        ensures
            n == self@.max_bytes,
    {
        self.max_bytes
    }

    /// The bytes that the live entries occupy.
    pub fn current_size_bytes(&self) -> (n: u64)
        requires
            self.wf(),
        ensures
            n == self@.current_size_bytes(),
    {
        self.current_size_bytes
    }

    /// The id of the file that the next stored value goes to.
    pub fn next_file_id(&self) -> (id: u64)
        ensures
            id == self@.next_file_id,
    {
        self.next_file_id
    }

    /// The number of live entries.
    pub fn len(&self) -> (n: usize)
        ensures
            n == self@.entries.len(),
    {
        self.entries.len()
    }

    /// The live entries, least recently used first.
    pub fn entries(&self) -> (entries: &Vec<Slot>)
        ensures
            entries@ == self@.entries,
    {
        &self.entries
    }

    /// The place of `key` among the entries.
    fn find(&self, key: &CacheKey) -> (place: Option<usize>)
        ensures
            match place {
                Some(i) => i < self@.entries.len() && self@.entries[i as int].0 == *key,
                None => !has_key(self@.entries, *key),
            },
    {
        let mut i: usize = 0;
        while i < self.entries.len()
            invariant
                i <= self.entries@.len(),
                forall|j: int| 0 <= j < i ==> (#[trigger] self.entries@[j]).0 != *key,
            decreases self.entries@.len() - i,
        {
            if same_handle(&self.entries[i].0, key) {
                return Some(i);
            }
            i += 1;
        }
        None
    }

    /// Whether a value is stored under `key`.
    pub fn contains_key(&self, key: &CacheKey) -> (found: bool)
        ensures
            found == has_key(self@.entries, *key),
    {
        self.find(key).is_some()
    }

    /// The entry of `key`: the file to read and its length. The order of use
    /// does not change.
    pub fn get(&self, key: &CacheKey) -> (entry: Option<CacheEntry>)
        requires
            self.wf(),
        ensures
            entry == entry_of(self@.entries, *key),
    {
        match self.find(key) {
            Some(i) => {
                proof {
                    lemma_key_index_unique(self@.entries, i as int);
                }
                Some(self.entries[i].1)
            },
            None => None,
        }
    }

    /// Records a successful read of `key`: its entry becomes the most recently
    /// used one. Returns whether `key` has an entry.
    pub fn touch(&mut self, key: &CacheKey) -> (found: bool)
        requires
            old(self).wf(),
        ensures
            final(self).wf(),
            final(self)@ == old(self)@.touch(*key),
            found == has_key(old(self)@.entries, *key),
            final(self)@.current_size_bytes() == old(self)@.current_size_bytes(),
    {
        match self.find(key) {
            Some(i) => {
                proof {
                    lemma_key_index_unique(self@.entries, i as int);
                    lemma_total_size_remove(self@.entries, i as int);
                }
                let slot = self.entries.remove(i);
                proof {
                    lemma_total_size_push(self.entries@, slot);
                }
                self.entries.push(slot);
                true
            },
            None => false,
        }
    }

    /// Admits a value of `size_bytes` bytes under `key`, after the caller has
    /// written it to the file numbered [`Self::next_file_id`].
    ///
    /// The value gets that file id, which no entry had before. An entry that
    /// `key` already had is replaced. The new entry is the most recently used
    /// one. Then the least recently used entries are evicted until the total
    /// is within the capacity or only the new entry is left. The files of the
    /// replaced and the evicted entries are returned for deletion.
    pub fn put(&mut self, key: &CacheKey, size_bytes: u64) -> (outcome: PutOutcome)
        requires
            old(self).wf(),
            old(self)@.next_file_id < u64::MAX,
        ensures
            final(self).wf(),
            final(self)@ == old(self)@.put(*key, size_bytes),
            outcome.file_id == old(self)@.next_file_id,
            outcome.discarded@ == old(self)@.put_discards(*key, size_bytes),
            final(self)@.current_size_bytes() <= old(self)@.max_bytes || (size_bytes > old(
                self,
            )@.max_bytes && final(self)@.entries == seq![
                (*key, CacheEntry { size_bytes, file_id: outcome.file_id }),
            ]),
    {
        let ghost before = self@;
        let ghost admitted = before.admitted(*key, size_bytes);
        let file_id = self.next_file_id;
        let entry = CacheEntry { size_bytes, file_id };
        let mut discarded: Vec<u64> = Vec::new();
        match self.find(key) {
            Some(i) => {
                proof {
                    lemma_key_index_unique(self@.entries, i as int);
                    lemma_total_size_remove(self@.entries, i as int);
                    lemma_total_size_nonnegative(self@.entries.remove(i as int));
                }
                let replaced = self.entries.remove(i);
                self.current_size_bytes = self.current_size_bytes - replaced.1.size_bytes;
                discarded.push(replaced.1.file_id);
            },
            None => {},
        }
        let ghost rest = self.entries@;
        let ghost replaced_files = discarded@;
        assert(rest == without_key(before.entries, *key));
        assert(admitted == rest.push((*key, entry)));
        let mut k: usize = 0;
        let mut remaining = self.current_size_bytes;
        proof {
            assert(rest.skip(0) =~= rest);
            assert(admitted.skip(0) =~= admitted);
            assert(admitted.take(0) =~= Seq::<Slot>::empty());
            assert(file_ids(admitted.take(0)) =~= Seq::<u64>::empty());
            assert(replaced_files + Seq::<u64>::empty() =~= replaced_files);
        }
        while k < self.entries.len() && (size_bytes > self.max_bytes || remaining > self.max_bytes
            - size_bytes)
            invariant
                self.entries@ == rest,
                self.max_bytes == before.max_bytes,
                admitted == rest.push((*key, entry)),
                entry.size_bytes == size_bytes,
                k <= rest.len(),
                remaining == total_size(rest.skip(k as int)),
                shed(admitted, before.max_bytes as int) == shed(
                    admitted.skip(k as int),
                    before.max_bytes as int,
                ),
                discarded@ == replaced_files + file_ids(admitted.take(k as int)),
            decreases rest.len() - k,
        {
            proof {
                let window = admitted.skip(k as int);
                assert(window =~= rest.skip(k as int).push((*key, entry)));
                lemma_total_size_push(rest.skip(k as int), (*key, entry));
                assert(window.drop_first() =~= admitted.skip(k + 1));
                assert(window.len() > 1);
                assert(total_size(window) == remaining + size_bytes);
                assert(total_size(window) > before.max_bytes as int);
                assert(shed(window, before.max_bytes as int) == shed(
                    window.drop_first(),
                    before.max_bytes as int,
                ));
                lemma_total_size_split(rest.skip(k as int), 1);
                let single = rest.skip(k as int).take(1);
                assert(single.drop_last() =~= Seq::<Slot>::empty());
                assert(single.last() == rest[k as int]);
                assert(total_size(single) == total_size(single.drop_last())
                    + rest[k as int].1.size_bytes);
                assert(rest.skip(k as int).skip(1) =~= rest.skip(k + 1));
                lemma_total_size_nonnegative(rest.skip(k + 1));
                assert(file_ids(admitted.take(k + 1)) =~= file_ids(admitted.take(k as int)).push(
                    rest[k as int].1.file_id,
                ));
            }
            discarded.push(self.entries[k].1.file_id);
            remaining = remaining - self.entries[k].1.size_bytes;
            k += 1;
        }
        proof {
            let window = admitted.skip(k as int);
            assert(window =~= rest.skip(k as int).push((*key, entry)));
            lemma_total_size_push(rest.skip(k as int), (*key, entry));
            lemma_shed_is_suffix(admitted, before.max_bytes as int);
            if k == rest.len() {
                assert(rest.skip(k as int) =~= Seq::<Slot>::empty());
            }
            assert(shed(window, before.max_bytes as int) == window);
        }
        let mut kept = self.entries.split_off(k);
        kept.push((*key, entry));
        self.entries = kept;
        self.current_size_bytes = remaining + size_bytes;
        self.next_file_id = self.next_file_id + 1;
        proof {
            assert(self.entries@ =~= admitted.skip(k as int));
            assert(self@ == before.put(*key, size_bytes));
            assert(admitted.len() - self.entries@.len() == k);
            lemma_put_within_capacity(before, *key, size_bytes);
        }
        PutOutcome { file_id, discarded }
    }
}

} // verus!
