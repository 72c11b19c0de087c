use vstd::prelude::*;
use crate::bag::lemma_bag_len;
use crate::bag::lemma_bag_update;
use crate::level_hash::Level;
use crate::level_hash::LevelHash;
use crate::level_io::lemma_slot_index;
use crate::level_io::rec_key;
use crate::level_io::rec_value;
use crate::util::spec_align_8;
use crate::level_io::LevelHashIO;
use crate::level_io::ValEntryReadExt;
use crate::level_io::ValuesEntry;
use crate::result::LevelInsertionError;
use crate::result::LevelInsertionResult;
use crate::types::BucketIdxT;
use crate::types::LevelIdxT;
use crate::types::SlotIdxT;

verus! {

impl<H1: Fn(u64, &[u8]) -> u64, H2: Fn(u64, &[u8]) -> u64> LevelHash<H1, H2> {
    /// Whether `self` is `before` with one more entry: an entry of `key` and
    /// `value` has come in, and all others have stayed.
    pub open spec fn grown_by(&self, before: &Self, key: Seq<u8>, value: Seq<u8>) -> bool {
        &&& self.wf()
        &&& self.same_settings(before)
        &&& self.io.same_geometry(&before.io)
        &&& self.expand_count == before.expand_count
        &&& self.entries() == before.entries().insert((key, value))
        &&& self.occupied() == before.occupied() + 1
        &&& self.io.meta.meta.val_tail_addr == before.io.meta.meta.val_next_addr
        &&& self.io.meta.meta.val_next_addr == before.io.meta.meta.val_next_addr + spec_align_8(
            (8 + key.len() + value.len()) as int,
        )
        &&& rec_key(self.io.values@, before.io.meta.meta.val_next_addr as int) == key
        &&& rec_value(self.io.values@, before.io.meta.meta.val_next_addr as int) == value
    }

    /// Whether `self` holds what `before` holds, in the same levels of
    /// slots: entries may have moved from one slot to another.
    pub open spec fn rearranged(&self, before: &Self) -> bool {
        &&& self.wf()
        &&& self.same_settings(before)
        &&& self.io.same_geometry(&before.io)
        &&& self.io.values == before.io.values
        &&& self.io.meta == before.io.meta
        &&& self.expand_count == before.expand_count
        &&& self.entries() == before.entries()
        &&& self.occupied() == before.occupied()
    }

    /// The two buckets that a key may take in a level are the same in two
    /// indexes with the same settings and levels.
    pub proof fn lemma_same_buckets(a: &Self, b: &Self, level: int, key: Seq<u8>)
        requires
            b.same_settings(a),
            b.io.meta.meta.km_level_size == a.io.meta.meta.km_level_size,
            b.io.meta.meta.km_bucket_size == a.io.meta.meta.km_bucket_size,
        ensures
            b.first_bucket(level, key) == a.first_bucket(level, key),
            b.second_bucket(level, key) == a.second_bucket(level, key),
            forall|idx: int| b.may_take(level, idx, key) == a.may_take(level, idx, key),
    {
    }

    /// An index stays well-formed where an entry is put into an empty slot
    /// that its key may take.
    pub proof fn lemma_inserted(a: &Self, b: &Self, level: int, idx: int, ptr: int, key: Seq<u8>, value: Seq<u8>)
        requires
            a.wf(),
            b.same_settings(a),
            b.expand_count == a.expand_count,
            b.io.wf(),
            b.io.same_geometry(&a.io),
            a.io.is_slot(level, idx),
            a.io.slot_ptr(level, idx) == 0,
            ptr != 0,
            b.io.slot_set(&a.io, a.io.slot_off(level, idx), ptr, Some((key, value))),
            a.may_take(level, idx, key),
            a.unique_keys ==> !a.holds(key),
            b.item_counts[level] == a.item_counts[level] + 1,
            b.item_counts[1 - level] == a.item_counts[1 - level],
            ptr == a.io.meta.meta.val_next_addr,
            b.io.meta.meta.val_tail_addr == a.io.meta.meta.val_next_addr,
            b.io.meta.meta.val_next_addr == a.io.meta.meta.val_next_addr + spec_align_8(
                (8 + key.len() + value.len()) as int,
            ),
        ensures
            b.grown_by(a, key, value),
    {
        LevelHashIO::lemma_tables_after_set(&a.io, &b.io, level, idx, ptr, Some((key, value)));
        lemma_bag_update(a.io.table(level), idx, Some((key, value)));
        assert(a.io.table(level)[idx] == a.io.entry_at(level, idx));
        assert(b.entries() =~= a.entries().insert((key, value)));
        assert(b.io.entry_at(level, idx) == Some((key, value)));
        assert forall|l: int, i: int| b.io.is_slot(l, i) && b.io.slot_ptr(l, i) != 0 implies b.may_take(
            l,
            i,
            b.key_at(l, i),
        ) by {
            assert(a.io.is_slot(l, i));
            Self::lemma_same_buckets(a, b, l, b.key_at(l, i));
            if l != level || i != idx {
                assert(b.io.entry_at(l, i) == a.io.entry_at(l, i));
                assert(b.key_at(l, i) == a.key_at(l, i));
            } else {
                assert(b.io.entry_at(l, i) == Some((key, value)));
            }
        }
        if b.unique_keys {
            assert forall|l1: int, i1: int, l2: int, i2: int|
                b.io.is_slot(l1, i1) && b.io.is_slot(l2, i2) && (l1 != l2 || i1 != i2) && b.io.slot_ptr(l1, i1)
                    != 0 && b.io.slot_ptr(l2, i2) != 0 implies b.key_at(l1, i1) != b.key_at(l2, i2) by {
                assert(a.io.is_slot(l1, i1) && a.io.is_slot(l2, i2));
                if l1 != level || i1 != idx {
                    assert(b.io.entry_at(l1, i1) == a.io.entry_at(l1, i1));
                    assert(b.key_at(l1, i1) == a.key_at(l1, i1));
                } else {
                    assert(b.io.entry_at(l1, i1) == Some((key, value)));
                }
                if l2 != level || i2 != idx {
                    assert(b.io.entry_at(l2, i2) == a.io.entry_at(l2, i2));
                    assert(b.key_at(l2, i2) == a.key_at(l2, i2));
                } else {
                    assert(b.io.entry_at(l2, i2) == Some((key, value)));
                }
                if l1 == level && i1 == idx {
                    if b.key_at(l2, i2) == key {
                        assert(a.holds_at(l2, i2, key));
                    }
                } else if l2 == level && i2 == idx {
                    if b.key_at(l1, i1) == key {
                        assert(a.holds_at(l1, i1, key));
                    }
                } else {
                    assert(a.key_at(l1, i1) != a.key_at(l2, i2));
                }
            }
        }
    }

    /// Puts an entry of `key` and `value` into the given slot, which is
    /// empty and one that the key may take.
    pub fn place_at(&mut self, level: Level, bucket: BucketIdxT, slot: SlotIdxT, key: &[u8], value: &[u8]) -> (r:
        LevelInsertionResult)
        requires
            old(self).wf(),
            bucket < old(self).io.buckets(level.spec_index()),
            slot < old(self).io.bucket_size(),
            old(self).io.slot_ptr(level.spec_index(), bucket * old(self).io.bucket_size() + slot) == 0,
            bucket == old(self).first_bucket(level.spec_index(), key@) || bucket == old(self).second_bucket(
                level.spec_index(),
                key@,
            ),
            old(self).unique_keys ==> !old(self).holds(key@),
            0 < key@.len() <= u32::MAX,
            value@.len() <= u32::MAX,
        ensures
            r is Ok <==> old(self).io.can_append(key@.len() as int, value@.len() as int),
            r matches Err(e) ==> e is MmapError && *final(self) == *old(self),
            r is Ok ==> final(self).grown_by(old(self), key@, value@),
            r is Ok ==> final(self).io.slot_set(
                &old(self).io,
                old(self).io.slot_off(level.spec_index(), bucket * old(self).io.bucket_size() + slot),
                old(self).io.meta.meta.val_next_addr as int,
                Some((key@, value@)),
            ),
    {
        let ghost idx = bucket * self.io.bucket_size() + slot;
        proof {
            self.io.lemma_sizes();
            lemma_slot_index(
                self.io.buckets(level.spec_index()),
                self.io.bucket_size(),
                bucket as int,
                slot as int,
            );
            lemma_bag_len(self.io.table(0));
            lemma_bag_len(self.io.table(1));
        }
        let slot_addr = self.io.slot_addr(level.index(), bucket, slot);
        self.io.append_entry_at_slot(slot_addr, key, value)?;
        match level {
            Level::L0 => {
                self.item_counts[0] = self.item_counts[0] + 1;
            },
            Level::L1 => {
                self.item_counts[1] = self.item_counts[1] + 1;
            },
        }
        proof {
            Self::lemma_inserted(
                old(self),
                self,
                level.spec_index(),
                idx,
                old(self).io.meta.meta.val_next_addr as int,
                key@,
                value@,
            );
        }
        Ok(())
    }

    /// Puts an entry of `key` and `value` into the given slot if the slot is
    /// empty. A slot that is taken makes the call fail: with `DuplicateKey`
    /// where `fail_on_dup` is set and the slot holds an entry with the same
    /// key, else with `InsertionFailure`.
    pub fn insert_entry_at_slot(
        &mut self,
        level: LevelIdxT,
        bucket: BucketIdxT,
        slot: SlotIdxT,
        key: &[u8],
        value: &[u8],
        fail_on_dup: bool,
    ) -> (r: LevelInsertionResult)
        requires
            old(self).wf(),
            level <= 1,
            bucket < old(self).io.buckets(level as int),
            slot < old(self).io.bucket_size(),
            bucket == old(self).first_bucket(level as int, key@) || bucket == old(self).second_bucket(
                level as int,
                key@,
            ),
            old(self).unique_keys ==> fail_on_dup || !old(self).holds(key@),
            0 < key@.len() <= u32::MAX,
            value@.len() <= u32::MAX,
        ensures
            ({
                let idx = bucket * old(self).io.bucket_size() + slot;
                let taken = old(self).io.slot_ptr(level as int, idx) != 0;
                let same_key = old(self).holds_at(level as int, idx, key@);
                let dup = old(self).unique_keys && old(self).holds(key@);
                &&& r is Ok <==> !taken && !dup && old(self).io.can_append(key@.len() as int, value@.len() as int)
                &&& r is Ok ==> final(self).grown_by(old(self), key@, value@)
                &&& r is Err ==> *final(self) == *old(self)
                &&& (r matches Err(LevelInsertionError::MmapError(_))) <==> !taken && !dup && !old(
                    self,
                ).io.can_append(key@.len() as int, value@.len() as int)
                &&& (r matches Err(LevelInsertionError::DuplicateKey)) <==> (taken && fail_on_dup && same_key)
                    || (!taken && dup)
                &&& (r matches Err(LevelInsertionError::InsertionFailure)) <==> taken && !(fail_on_dup
                    && same_key)
            }),
    {
        let ghost idx = bucket * self.io.bucket_size() + slot;
        proof {
            self.io.lemma_sizes();
            lemma_slot_index(self.io.buckets(level as int), self.io.bucket_size(), bucket as int, slot as int);
        }
        let lvl = if level == 0 {
            Level::L0
        } else {
            Level::L1
        };
        let (slot_addr, val_addr) = self.io.slot_and_val_addr_at(level, bucket, slot);
        if val_addr.is_none() {
            // slot is empty
            if self.unique_keys && self.find_slot(key).is_some() {
                return Err(LevelInsertionError::DuplicateKey);
            }
            // append the value entry and return
            return self.place_at(lvl, bucket, slot, key, value);
        }
        let val_addr = val_addr.unwrap();
        proof {
            self.io.lemma_slot_live(level as int, idx);
        }
        let entry = ValuesEntry::at(val_addr - 1, &self.io.values);

        // check for duplicate key
        if fail_on_dup && entry.keyeq(&self.io.values, key) {
            return Err(LevelInsertionError::DuplicateKey);
        }
        return Err(LevelInsertionError::InsertionFailure);
    }
}

} // verus!
