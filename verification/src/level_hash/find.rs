use vstd::prelude::*;
use crate::level_hash::bucket_of;
use crate::level_hash::hash_out;
use crate::level_hash::lemma_bucket_of;
use crate::level_hash::Level;
use crate::level_hash::LevelHash;
use crate::level_hash::LEVEL_SIZE_MAX;
use crate::level_io::lemma_slot_index;
use crate::level_io::rec_key;
use crate::level_io::rec_key_size;
use crate::level_io::rec_value;
use crate::level_io::rec_value_size;
use crate::level_io::ValEntryReadExt;
use crate::level_io::ValuesEntry;
use crate::meta::lemma_bucket_counts;
use crate::types::BucketIdxT;
use crate::types::LevelIdxT;
use crate::types::SlotIdxT;

verus! {

/// The bucket that a key with the hash `key_hash` goes to in a level of
/// `capacity` buckets.
pub fn buck_idx_cap(key_hash: u64, capacity: u64) -> (r: u32)
    requires
        1 <= capacity <= 0x200_0000,
    ensures
        r == bucket_of(key_hash, capacity),
        r < capacity,
{
    proof {
        lemma_bucket_of(key_hash, capacity);
    }
    // since capacity is a power of two and key hash is unsigned
    // keyHash % capacity can be simplified with simple bitwise operation
    (key_hash & (capacity - 1)) as u32
}

impl<H1: Fn(u64, &[u8]) -> u64, H2: Fn(u64, &[u8]) -> u64> LevelHash<H1, H2> {
    /// The first hash of `key`.
    #[inline]
    pub fn fhash(&self, key: &[u8]) -> (r: u64)
        requires
            self.hashes_wf(),
        ensures
            r == self.h1(key@),
    {
        let r = (self.hashfn_1)(self.seed_1, key);
        proof {
            assert(hash_out(self.hashfn_1, self.seed_1, key@, r));
        }
        r
    }

    /// The second hash of `key`.
    #[inline]
    pub fn shash(&self, key: &[u8]) -> (r: u64)
        requires
            self.hashes_wf(),
        ensures
            r == self.h2(key@),
    {
        let r = (self.hashfn_2)(self.seed_2, key);
        proof {
            assert(hash_out(self.hashfn_2, self.seed_2, key@, r));
        }
        r
    }

    /// The bucket of the level `level` that a key with the hash `key_hash`
    /// goes to.
    pub fn buck_idx_lvl(&self, key_hash: u64, level: Level) -> (r: u32)
        requires
            self.io.meta.meta.km_level_size <= LEVEL_SIZE_MAX,
            self.io.buckets(level.spec_index()) >= 1,
        ensures
            r == bucket_of(key_hash, self.io.buckets(level.spec_index()) as u64),
            r < self.io.buckets(level.spec_index()),
    {
        proof {
            lemma_bucket_counts(self.io.meta.meta.km_level_size);
        }
        let capacity = self.io.bucket_count(level.index()) as u64;
        buck_idx_cap(key_hash, capacity)
    }

    /// The entry of the given slot, if the slot holds an entry with the key
    /// `key`.
    pub fn match_key_and_get_entry(&self, level: Level, bucket: BucketIdxT, slot: SlotIdxT, key: &[u8]) -> (r:
        Option<ValuesEntry>)
        requires
            self.io.consistent(),
            bucket < self.io.buckets(level.spec_index()),
            slot < self.io.bucket_size(),
        ensures
            r is Some <==> self.holds_at(level.spec_index(), bucket * self.io.bucket_size() + slot, key@),
            r matches Some(e) ==> self.entry_is(e, level.spec_index(), bucket * self.io.bucket_size() + slot),
    {
        let ghost idx = bucket * self.io.bucket_size() + slot;
        proof {
            self.io.lemma_sizes();
            lemma_slot_index(
                self.io.buckets(level.spec_index()),
                self.io.bucket_size(),
                bucket as int,
                slot as int,
            );
        }
        match self.io.val_entry_for_slot(level.index(), bucket, slot) {
            None => None,
            Some(e) => {
                proof {
                    self.io.lemma_slot_live(level.spec_index(), idx);
                    let v = self.io.values.map@;
                    let p = self.io.slot_ptr(level.spec_index(), idx);
                    assert(rec_key(v, p).len() == rec_key_size(v, p));
                }
                if !e.is_empty() && e.keyeq(&self.io.values, key) {
                    Some(e)
                } else {
                    None
                }
            },
        }
    }

    /// Whether `e` is the entry of the slot with the index `idx` of the
    /// level `level`: the address and the header of the record that the
    /// slot points to.
    pub open spec fn entry_is(&self, e: ValuesEntry, level: int, idx: int) -> bool {
        let p = self.io.slot_ptr(level, idx);
        &&& p != 0
        &&& e.addr == p - 1
        &&& e.data.key_size == rec_key_size(self.io.values.map@, p)
        &&& e.data.value_size == rec_value_size(self.io.values.map@, p)
    }

    /// The first slot that holds an entry with the key `key` among the slots
    /// of the two buckets `f` and `s` of the level `level`, from the slot `j`
    /// of each bucket on: the slots are taken slot by slot, in each slot
    /// first that of the bucket `f`.
    pub open spec fn first_held(&self, level: int, f: int, s: int, key: Seq<u8>, j: int) -> Option<int>
        decreases self.io.bucket_size() - j,
    {
        if j >= self.io.bucket_size() {
            None
        } else if self.holds_at(level, f * self.io.bucket_size() + j, key) {
            Some(f * self.io.bucket_size() + j)
        } else if self.holds_at(level, s * self.io.bucket_size() + j, key) {
            Some(s * self.io.bucket_size() + j)
        } else {
            self.first_held(level, f, s, key, j + 1)
        }
    }

    /// The slot of the level `level` in which a lookup of `key` finds an
    /// entry: the first one that holds an entry with the key among the slots
    /// that the key may take in the level.
    pub open spec fn found_in(&self, level: int, key: Seq<u8>) -> Option<int> {
        if self.io.buckets(level) > 0 {
            self.first_held(level, self.first_bucket(level, key), self.second_bucket(level, key), key, 0)
        } else {
            None
        }
    }

    /// The level in which a lookup looks first: the one with more entries,
    /// and the bottom level where both have as many.
    pub open spec fn first_level(&self) -> int {
        if self.item_counts[1] >= self.item_counts[0] {
            1
        } else {
            0
        }
    }

    /// The level and the index of the slot in which a lookup of `key` finds
    /// an entry.
    pub open spec fn found_at(&self, key: Seq<u8>) -> Option<(int, int)> {
        match self.found_in(self.first_level(), key) {
            Some(idx) => Some((self.first_level(), idx)),
            None => match self.found_in(1 - self.first_level(), key) {
                Some(idx) => Some((1 - self.first_level(), idx)),
                None => None,
            },
        }
    }

    /// The offset in the keymap of the slot in which a lookup of `key` finds
    /// an entry.
    pub open spec fn found_off(&self, key: Seq<u8>) -> int {
        match self.found_at(key) {
            Some((level, idx)) => self.io.slot_off(level, idx),
            None => 0,
        }
    }

    /// The pointer of the slot in which a lookup of `key` finds an entry.
    pub open spec fn found_ptr(&self, key: Seq<u8>) -> int {
        match self.found_at(key) {
            Some((level, idx)) => self.io.slot_ptr(level, idx),
            None => 0,
        }
    }

    /// What a lookup of `key` gives: the value of the entry that it finds,
    /// and nothing where it finds none.
    pub open spec fn lookup(&self, key: Seq<u8>) -> Seq<u8> {
        match self.found_at(key) {
            Some((level, idx)) => rec_value(self.io.values.map@, self.io.slot_ptr(level, idx)),
            None => Seq::<u8>::empty(),
        }
    }

    /// Looks for an entry with the key `key` in the two buckets `fidx` and
    /// `sidx` of the level `level`, slot by slot, in each slot first in the
    /// bucket `fidx`.
    pub fn find_in_level(&self, level: Level, fidx: BucketIdxT, sidx: BucketIdxT, key: &[u8]) -> (r: Option<
        (ValuesEntry, BucketIdxT, SlotIdxT),
    >)
        requires
            self.io.consistent(),
            fidx < self.io.buckets(level.spec_index()),
            sidx < self.io.buckets(level.spec_index()),
        ensures
            r matches Some((e, bucket, slot)) ==> {
                &&& bucket == fidx || bucket == sidx
                &&& slot < self.io.bucket_size()
                &&& self.holds_at(level.spec_index(), bucket * self.io.bucket_size() + slot, key@)
                &&& self.entry_is(e, level.spec_index(), bucket * self.io.bucket_size() + slot)
            },
            r is None ==> forall|idx: int|
                self.in_bucket(idx, fidx as int) || self.in_bucket(idx, sidx as int) ==> !self.holds_at(
                    level.spec_index(),
                    idx,
                    key@,
                ),
            self.first_held(level.spec_index(), fidx as int, sidx as int, key@, 0) == match r {
                Some((e, bucket, slot)) => Some(bucket * self.io.bucket_size() + slot),
                None => None,
            },
    {
        let bucket_size = self.io.meta.read().km_bucket_size as SlotIdxT;
        let mut j: SlotIdxT = 0;
        while j < bucket_size
            invariant
                self.io.consistent(),
                bucket_size == self.io.bucket_size(),
                fidx < self.io.buckets(level.spec_index()),
                sidx < self.io.buckets(level.spec_index()),
                j <= bucket_size,
                forall|idx: int|
                    fidx * self.io.bucket_size() <= idx < fidx * self.io.bucket_size() + j || sidx
                        * self.io.bucket_size() <= idx < sidx * self.io.bucket_size() + j ==> !self.holds_at(
                        level.spec_index(),
                        idx,
                        key@,
                    ),
                self.first_held(level.spec_index(), fidx as int, sidx as int, key@, 0) == self.first_held(
                    level.spec_index(),
                    fidx as int,
                    sidx as int,
                    key@,
                    j as int,
                ),
            decreases bucket_size - j,
        {
            if let Some(e) = self.match_key_and_get_entry(level, fidx, j, key) {
                return Some((e, fidx, j));
            }
            if let Some(e) = self.match_key_and_get_entry(level, sidx, j, key) {
                return Some((e, sidx, j));
            }
            j += 1;
        }
        None
    }

    /// Looks for the slot that holds an entry with the key `key`. The level
    /// with more entries is searched first, the bottom level where both
    /// have as many.
    pub fn find_slot(&self, key: &[u8]) -> (r: Option<(ValuesEntry, LevelIdxT, BucketIdxT, SlotIdxT)>)
        requires
            self.wf(),
        ensures
            r is Some <==> self.holds(key@),
            r matches Some((e, level, bucket, slot)) ==> {
                &&& level <= 1
                &&& bucket < self.io.buckets(level as int)
                &&& slot < self.io.bucket_size()
                &&& self.holds_at(level as int, bucket * self.io.bucket_size() + slot, key@)
                &&& self.entry_is(e, level as int, bucket * self.io.bucket_size() + slot)
            },
            self.found_at(key@) == match r {
                Some((e, level, bucket, slot)) => Some((level as int, bucket * self.io.bucket_size() + slot)),
                None => None,
            },
    {
        let fhash = self.fhash(key);
        let shash = self.shash(key);
        let bottom_first = self.item_counts[1] >= self.item_counts[0];
        let first = if bottom_first {
            Level::L1
        } else {
            Level::L0
        };
        let second = if bottom_first {
            Level::L0
        } else {
            Level::L1
        };
        proof {
            self.io.lemma_sizes();
        }
        if self.io.bucket_count(first.index()) > 0 {
            let fidx = self.buck_idx_lvl(fhash, first);
            let sidx = self.buck_idx_lvl(shash, first);
            if let Some((e, bucket, slot)) = self.find_in_level(first, fidx, sidx, key) {
                return Some((e, first.index(), bucket, slot));
            }
        }
        if self.io.bucket_count(second.index()) > 0 {
            let fidx = self.buck_idx_lvl(fhash, second);
            let sidx = self.buck_idx_lvl(shash, second);
            if let Some((e, bucket, slot)) = self.find_in_level(second, fidx, sidx, key) {
                return Some((e, second.index(), bucket, slot));
            }
        }
        proof {
            assert forall|level: int, idx: int| !self.holds_at(level, idx, key@) by {
                if self.holds_at(level, idx, key@) {
                    assert(self.may_take(level, idx, key@));
                    assert(self.io.slots(level) > 0);
                    assert(self.io.buckets(level) > 0) by (nonlinear_arith)
                        requires
                            self.io.slots(level) == self.io.buckets(level) * self.io.bucket_size(),
                            self.io.slots(level) > 0,
                            self.io.bucket_size() >= 0,
                            self.io.buckets(level) >= 0,
                    ;
                }
            }
        }
        None
    }

    /// The value of an entry with the key `key`, if the index holds one.
    pub open spec fn stored_under(&self, key: Seq<u8>, value: Seq<u8>) -> bool {
        exists|level: int, idx: int|
            self.holds_at(level, idx, key) && rec_value(self.io.values.map@, self.io.slot_ptr(level, idx))
                == value
    }

    /// Get the value associated with the given key.
    ///
    /// ## Parameters
    ///
    /// * `key` - The key to get the value for.
    ///
    /// ## Returns
    ///
    /// The raw bytes of the value if an entry is found, an empty [Vec] otherwise.
    pub fn get_value(&self, key: &[u8]) -> (r: Vec<u8>)
        requires
            self.wf(),
        ensures
            r@ == self.lookup(key@),
            self.holds(key@) ==> self.stored_under(key@, r@),
            !self.holds(key@) ==> r@.len() == 0,
    {
        match self.find_slot(key) {
            None => Vec::new(),
            Some((e, level, bucket, slot)) => {
                proof {
                    self.io.lemma_slot_live(level as int, bucket * self.io.bucket_size() + slot);
                }
                e.value(&self.io.values)
            },
        }
    }

    /// Get the value at the given slot position.
    ///
    /// ## Parameters
    ///
    /// * `level` - The level index of the slot.
    /// * `bucket` The bucket index of the slot.
    /// * `slot` - The slot index of the slot.
    ///
    /// # Returns
    ///
    /// The raw bytes of the value if an entry is found and is occupied, an empty [Vec] otherwise.
    pub fn get_value_at(&mut self, level: Level, bucket: BucketIdxT, slot: SlotIdxT) -> (r: Vec<u8>)
        requires
            old(self).wf(),
            bucket < old(self).io.buckets(level.spec_index()),
            slot < old(self).io.bucket_size(),
        ensures
            *final(self) == *old(self),
            r@ == match old(self).io.entry_at(level.spec_index(), bucket * old(self).io.bucket_size() + slot) {
                Some(e) => e.1,
                None => Seq::<u8>::empty(),
            },
    {
        self.io.value(level.index(), bucket, slot)
    }
}

} // verus!
