use vstd::prelude::*;
use vstd::multiset::Multiset;
use crate::bag::lemma_bag_len;
use crate::bag::lemma_bag_member;
use crate::bag::lemma_bag_none;
use crate::bag::lemma_bag_update;
use crate::level_hash::LevelHash;
use crate::level_io::clear::zeros;
use crate::level_io::lemma_slot_index;
use crate::io::same_outside;
use crate::io::zero_within;
use crate::io::zeroed;
use crate::level_io::rec_end;
use crate::level_io::rec_key;
use crate::level_io::remove::rec_extent;
use crate::level_io::rec_value;
use crate::level_io::rec_value_size;
use crate::level_io::Entry;
use crate::level_io::LevelHashIO;
use crate::result::LevelClearResult;
use crate::result::LevelInsertionError;
use crate::result::LevelInsertionResult;
use crate::result::LevelUpdateError;
use crate::result::LevelUpdateResult;

verus! {

impl<H1: Fn(u64, &[u8]) -> u64, H2: Fn(u64, &[u8]) -> u64> LevelHash<H1, H2> {
    /// Whether the index is loaded enough to expand before it takes the
    /// next entry: it expands by itself, and its load factor has reached
    /// the threshold.
    pub open spec fn must_expand(&self) -> bool {
        self.auto_expand && self.occupied() * 1000 >= self.load_factor_threshold * self.spec_total_slots()
    }

    /// Insert the given key-value pair in the level hash.
    ///
    /// An index that expands by itself and whose load factor has reached
    /// the threshold is expanded first; where that fails, so does the
    /// insertion, with `ExpansionFailure`. The entry is then inserted as
    /// `insert_entry` does it.
    ///
    /// ## Parameters
    ///
    /// * `key` - The key for the entry. This must be a non-empty slice of bytes.
    /// * `value` - The value for the entry. This may be an empty slice.
    pub fn insert(&mut self, key: &[u8], value: &[u8]) -> (r: LevelInsertionResult)
        requires
            old(self).wf(),
            0 < key@.len() <= u32::MAX,
            value@.len() <= u32::MAX,
        ensures
            final(self).wf(),
            !old(self).must_expand() ==> final(self).inserted(old(self), key@, value@, r),
            old(self).must_expand() ==> ((r matches Err(LevelInsertionError::ExpansionFailure))
                && final(self).unchanged(old(self))) || exists|mid: Self|
                #[trigger] mid.expanded(old(self)) && final(self).inserted(&mid, key@, value@, r),
            (r matches Err(LevelInsertionError::ExpansionFailure)) <==> old(self).must_expand() && !old(
                self,
            ).expandable(),
    {
        let (occupied, total) = self.load_factor();
        proof {
            self.io.lemma_sizes();
            assert(0 <= occupied * 1000 <= 0x2_0000_0000 * 1000) by (nonlinear_arith)
                requires
                    0 <= occupied <= 0x2_0000_0000,
            ;
            assert(0 <= self.load_factor_threshold * total <= 1000 * 0x2_0000_0000) by (nonlinear_arith)
                requires
                    0 <= total <= 0x2_0000_0000,
                    0 <= self.load_factor_threshold <= 1000,
            ;
        }
        if self.auto_expand && occupied * 1000 >= (self.load_factor_threshold as u64) * total {
            if self.expand().is_err() {
                return Err(LevelInsertionError::ExpansionFailure);
            }
            let ghost mid = *self;
            let r = self.insert_entry(key, value);
            proof {
                assert(mid.expanded(old(self)) && self.inserted(&mid, key@, value@, r));
            }
            return r;
        }
        self.insert_entry(key, value)
    }

    /// The link between the slots of an index and its entries: the index
    /// holds an entry of `key` and `value` in some slot exactly if the pair
    /// is among its entries.
    pub proof fn lemma_stored(&self, key: Seq<u8>, value: Seq<u8>)
        ensures
            self.stored_under(key, value) <==> self.entries().count((key, value)) > 0,
    {
        if self.stored_under(key, value) {
            let (level, idx) = choose|level: int, idx: int|
                self.holds_at(level, idx, key) && rec_value(self.io.values.map@, self.io.slot_ptr(level, idx))
                    == value;
            assert(self.io.table(level)[idx] == Some((key, value)));
            lemma_bag_member(self.io.table(level), idx);
        }
        if self.entries().count((key, value)) > 0 {
            let level: int = if crate::bag::bag_of(self.io.table(0)).count((key, value)) > 0 {
                0
            } else {
                1
            };
            let idx = crate::bag::lemma_bag_slot(self.io.table(level), (key, value));
            assert(self.io.table(level)[idx] == self.io.entry_at(level, idx));
            assert(self.holds_at(level, idx, key));
        }
    }

    /// Whether `self` is `before` with one entry less: an entry of `key`
    /// and `value` has left, and all others have stayed. With unique keys
    /// the index holds no entry with the key any more.
    pub open spec fn shrunk_by(&self, before: &Self, key: Seq<u8>, value: Seq<u8>) -> bool {
        &&& self.wf()
        &&& self.same_settings(before)
        &&& self.io.same_geometry(&before.io)
        &&& self.expand_count == before.expand_count
        &&& before.stored_under(key, value)
        &&& self.entries() == before.entries().remove((key, value))
        &&& self.occupied() == before.occupied() - 1
        &&& self.unique_keys ==> !self.holds(key)
    }

    /// Whether `self` is `before` with the value of one entry replaced: an
    /// entry of `key` and `value` has become one of `key` and `new_value`,
    /// and all others have stayed.
    pub open spec fn revalued(&self, before: &Self, key: Seq<u8>, value: Seq<u8>, new_value: Seq<u8>) -> bool {
        &&& self.wf()
        &&& self.same_settings(before)
        &&& self.io.same_geometry(&before.io)
        &&& self.expand_count == before.expand_count
        &&& before.stored_under(key, value)
        &&& self.entries() == before.entries().remove((key, value)).insert((key, new_value))
        &&& self.occupied() == before.occupied()
    }

    /// An index stays well-formed where the entry of a slot is taken out.
    pub proof fn lemma_removed(a: &Self, b: &Self, level: int, idx: int)
        requires
            a.wf(),
            b.same_settings(a),
            b.expand_count == a.expand_count,
            b.io.wf(),
            b.io.same_geometry(&a.io),
            a.io.is_slot(level, idx),
            a.io.slot_ptr(level, idx) != 0,
            b.io.slot_set(&a.io, a.io.slot_off(level, idx), 0, None),
            b.item_counts[level] == a.item_counts[level] - 1,
            b.item_counts[1 - level] == a.item_counts[1 - level],
        ensures
            b.wf(),
            b.entries() == a.entries().remove(a.io.entry_at(level, idx)->0),
            a.entries().count(a.io.entry_at(level, idx)->0) > 0,
            b.occupied() == a.occupied() - 1,
            a.unique_keys ==> !b.holds(a.key_at(level, idx)),
    {
        let e = a.io.entry_at(level, idx);
        LevelHashIO::lemma_tables_after_set(&a.io, &b.io, level, idx, 0, None);
        lemma_bag_update(a.io.table(level), idx, None);
        assert(a.io.table(level)[idx] == e);
        lemma_bag_member(a.io.table(level), idx);
        assert(b.entries() =~= a.entries().remove(e->0));
        assert forall|l: int, i: int| b.io.is_slot(l, i) && b.io.slot_ptr(l, i) != 0 implies b.may_take(
            l,
            i,
            b.key_at(l, i),
        ) by {
            assert(a.io.is_slot(l, i));
            Self::lemma_same_buckets(a, b, l, b.key_at(l, i));
            assert(b.io.entry_at(l, i) == a.io.entry_at(l, i));
            assert(b.key_at(l, i) == a.key_at(l, i));
        }
        if b.unique_keys {
            assert forall|l1: int, i1: int, l2: int, i2: int|
                b.io.is_slot(l1, i1) && b.io.is_slot(l2, i2) && (l1 != l2 || i1 != i2) && b.io.slot_ptr(l1, i1)
                    != 0 && b.io.slot_ptr(l2, i2) != 0 implies b.key_at(l1, i1) != b.key_at(l2, i2) by {
                assert(a.io.is_slot(l1, i1) && a.io.is_slot(l2, i2));
                assert(b.io.entry_at(l1, i1) == a.io.entry_at(l1, i1));
                assert(b.io.entry_at(l2, i2) == a.io.entry_at(l2, i2));
                assert(a.key_at(l1, i1) != a.key_at(l2, i2));
            }
            if b.holds(a.key_at(level, idx)) {
                let (l, i) = choose|l: int, i: int| b.holds_at(l, i, a.key_at(level, idx));
                assert(a.io.is_slot(l, i));
                assert(b.io.entry_at(l, i) == a.io.entry_at(l, i));
                assert(a.key_at(l, i) != a.key_at(level, idx));
            }
        }
    }

    /// Remove the entry associated with the given key.
    ///
    /// The slot of the entry is set to zero, and the bytes of its record
    /// are given back.
    ///
    /// ## Parameters
    ///
    /// * `key` - The key for the entry to remove.
    ///
    /// ## Returns
    ///
    /// `Some` containing the raw bytes of the value of the deleted entry (if found and is occupied), `None` otherwise.
    pub fn remove(&mut self, key: &[u8]) -> (r: Option<Vec<u8>>)
        requires
            old(self).wf(),
        ensures
            r is Some <==> old(self).holds(key@),
            r is None ==> *final(self) == *old(self),
            r matches Some(value) ==> final(self).shrunk_by(old(self), key@, value@),
            r matches Some(value) ==> {
                &&& value@ == old(self).lookup(key@)
                &&& old(self).found_at(key@) is Some
                &&& final(self).io.slot_set(
                    &old(self).io,
                    old(self).found_off(key@),
                    0,
                    None,
                )
                &&& final(self).io.meta.meta == old(self).io.meta_after_delete(old(self).found_ptr(key@))
                &&& final(self).io.values@ == zeroed(
                    old(self).io.values@,
                    old(self).found_ptr(key@) - 1,
                    rec_extent(old(self).io.values@, old(self).found_ptr(key@)),
                )
            },
    {
        match self.find_slot(key) {
            None => None,
            Some((_, level, bucket, slot)) => {
                let ghost idx = bucket * self.io.bucket_size() + slot;
                proof {
                    self.io.lemma_sizes();
                    lemma_slot_index(self.io.buckets(level as int), self.io.bucket_size(), bucket as int, slot as int);
                    lemma_bag_len(self.io.table(0));
                    lemma_bag_len(self.io.table(1));
                    assert(self.io.table(level as int)[idx] is Some);
                    lemma_bag_member(self.io.table(level as int), idx);
                    reveal(LevelHashIO::slot_ptr);
                }
                let slot_addr = self.io.slot_addr(level, bucket, slot);
                assert(self.io.is_slot_addr(slot_addr as int));
                let r = self.io.delete_at_slot(slot_addr, true);
                if level == 0 {
                    self.item_counts[0] = self.item_counts[0] - 1;
                } else {
                    self.item_counts[1] = self.item_counts[1] - 1;
                }
                proof {
                    Self::lemma_removed(old(self), self, level as int, idx);
                    assert(old(self).stored_under(key@, r->0@));
                }
                r
            },
        }
    }

    /// Whether `new_value` can be written over the value of the entry that a
    /// lookup of `key` finds: it is not longer than that value.
    pub open spec fn fits_in_place(&self, key: Seq<u8>, new_value: Seq<u8>) -> bool {
        self.found_at(key) matches Some((level, idx)) && new_value.len() <= rec_value_size(
            self.io.values.map@,
            self.io.slot_ptr(level, idx),
        )
    }

    /// An index stays well-formed where the entry of a slot gets another
    /// value.
    pub proof fn lemma_updated(a: &Self, b: &Self, level: int, idx: int, ptr: int, value: Seq<u8>)
        requires
            a.wf(),
            b.same_settings(a),
            b.expand_count == a.expand_count,
            b.item_counts == a.item_counts,
            b.io.wf(),
            b.io.same_geometry(&a.io),
            a.io.is_slot(level, idx),
            a.io.slot_ptr(level, idx) != 0,
            ptr != 0,
            b.io.slot_set(&a.io, a.io.slot_off(level, idx), ptr, Some((a.key_at(level, idx), value))),
        ensures
            b.wf(),
            b.entries() == a.entries().remove(a.io.entry_at(level, idx)->0).insert(
                (a.key_at(level, idx), value),
            ),
            b.occupied() == a.occupied(),
    {
        let e = a.io.entry_at(level, idx);
        let key = a.key_at(level, idx);
        LevelHashIO::lemma_tables_after_set(&a.io, &b.io, level, idx, ptr, Some((key, value)));
        lemma_bag_update(a.io.table(level), idx, Some((key, value)));
        assert(a.io.table(level)[idx] == e);
        lemma_bag_member(a.io.table(level), idx);
        assert(b.entries() =~= a.entries().remove(e->0).insert((key, value)));
        assert forall|l: int, i: int| b.io.is_slot(l, i) && b.io.slot_ptr(l, i) != 0 implies b.key_at(l, i)
            == a.key_at(l, i) && a.io.slot_ptr(l, i) != 0 by {
            assert(a.io.is_slot(l, i));
            if l != level || i != idx {
                assert(b.io.entry_at(l, i) == a.io.entry_at(l, i));
                assert(b.io.slot_ptr(l, i) == a.io.slot_ptr(l, i));
            } else {
                assert(b.io.entry_at(l, i) == Some((key, value)));
            }
        }
        assert forall|l: int, i: int| b.io.is_slot(l, i) && b.io.slot_ptr(l, i) != 0 implies b.may_take(
            l,
            i,
            b.key_at(l, i),
        ) by {
            assert(a.io.is_slot(l, i));
            Self::lemma_same_buckets(a, b, l, b.key_at(l, i));
            if l != level || i != idx {
                assert(b.io.slot_ptr(l, i) == a.io.slot_ptr(l, i));
            }
        }
        if b.unique_keys {
            assert forall|l1: int, i1: int, l2: int, i2: int|
                b.io.is_slot(l1, i1) && b.io.is_slot(l2, i2) && (l1 != l2 || i1 != i2) && b.io.slot_ptr(l1, i1)
                    != 0 && b.io.slot_ptr(l2, i2) != 0 implies b.key_at(l1, i1) != b.key_at(l2, i2) by {
                assert(a.io.is_slot(l1, i1) && a.io.is_slot(l2, i2));
                if l1 != level || i1 != idx {
                    assert(b.io.slot_ptr(l1, i1) == a.io.slot_ptr(l1, i1));
                }
                if l2 != level || i2 != idx {
                    assert(b.io.slot_ptr(l2, i2) == a.io.slot_ptr(l2, i2));
                }
                assert(a.key_at(l1, i1) != a.key_at(l2, i2));
            }
        }
    }

    /// Update the entry associated with the given key with the new value.
    ///
    /// A value that is not longer than the old one is written in its
    /// place; for a longer one a record is appended, and the old record is
    /// deleted.
    ///
    /// ## Parameters
    ///
    /// * `key` - The key to update the value for.
    /// * `new_value` - The new value for the entry.
    ///
    /// ## Returns
    ///
    /// The raw bytes of the previous value of the entry.
    pub fn update(&mut self, key: &[u8], new_value: &[u8]) -> (r: LevelUpdateResult)
        requires
            old(self).wf(),
            new_value@.len() <= u32::MAX,
        ensures
            (r matches Err(LevelUpdateError::SlotNotFound)) <==> !old(self).holds(key@),
            r matches Err(e) ==> e is SlotNotFound || (e matches LevelUpdateError::InsertionErr(
                LevelInsertionError::MmapError(_),
            )),
            r is Ok <==> old(self).holds(key@) && (old(self).fits_in_place(key@, new_value@) || old(
                self,
            ).io.can_append(key@.len() as int, new_value@.len() as int)),
            r is Err ==> *final(self) == *old(self),
            r matches Ok(value) ==> final(self).revalued(old(self), key@, value@, new_value@),
            r matches Ok(value) ==> {
                &&& value@ == old(self).lookup(key@)
                &&& old(self).found_at(key@) is Some
                &&& final(self).io.slot_set(
                    &old(self).io,
                    old(self).found_off(key@),
                    if old(self).fits_in_place(key@, new_value@) {
                        old(self).found_ptr(key@)
                    } else {
                        old(self).io.meta.meta.val_next_addr as int
                    },
                    Some((key@, new_value@)),
                )
                &&& !old(self).fits_in_place(key@, new_value@) ==> final(self).io.replaced_record(
                    &old(self).io,
                    old(self).found_ptr(key@),
                ) && final(self).io.meta.meta.val_tail_addr == old(self).io.meta.meta.val_next_addr
                &&& old(self).fits_in_place(key@, new_value@) ==> final(self).io.meta == old(self).io.meta
                    && same_outside(
                    old(self).io.values@,
                    final(self).io.values@,
                    old(self).found_ptr(key@) - 1,
                    rec_end(old(self).io.values@, old(self).found_ptr(key@)) - (old(self).found_ptr(key@) - 1),
                ) && zero_within(
                    final(self).io.values@,
                    rec_end(final(self).io.values@, old(self).found_ptr(key@)),
                    rec_end(old(self).io.values@, old(self).found_ptr(key@)) - rec_end(
                        final(self).io.values@,
                        old(self).found_ptr(key@),
                    ),
                )
            },
    {
        let slot = self.find_slot(key);
        if slot.is_none() {
            return Err(LevelUpdateError::SlotNotFound);
        }
        let (_, level, bucket, slot) = slot.unwrap();
        let ghost idx = bucket * self.io.bucket_size() + slot;
        proof {
            self.io.lemma_sizes();
            lemma_slot_index(self.io.buckets(level as int), self.io.bucket_size(), bucket as int, slot as int);
            let v = self.io.values.map@;
            let p = self.io.slot_ptr(level as int, idx);
            self.io.lemma_slot_live(level as int, idx);
            assert(rec_key(v, p).len() == crate::level_io::rec_key_size(v, p));
        }
        let r = self.io.update_entry_value(level, bucket, slot, new_value);
        proof {
            if r is Ok {
                let v = old(self).io.values.map@;
                let p = old(self).io.slot_ptr(level as int, idx);
                let ptr = if new_value@.len() <= rec_value_size(v, p) {
                    p
                } else {
                    old(self).io.meta.meta.val_next_addr as int
                };
                Self::lemma_updated(old(self), self, level as int, idx, ptr, new_value@);
                assert(old(self).stored_under(key@, r->Ok_0@));
            }
        }
        r
    }

    /// Takes all entries out of the index. The level size and the bucket
    /// size stay; the keymap region holds the two levels and nothing else,
    /// and all its bytes are zero; the values region is one block of zero
    /// bytes, and the next record will be the first of the region.
    pub fn clear(&mut self) -> (r: LevelClearResult)
        requires
            old(self).wf(),
        ensures
            r is Ok <==> old(self).io.can_clear(),
            r is Err ==> *final(self) == *old(self),
            r is Ok ==> {
                &&& final(self).wf()
                &&& final(self).same_settings(old(self))
                &&& final(self).entries() == Multiset::<Entry>::empty()
                &&& forall|key: Seq<u8>| !final(self).holds(key)
                &&& final(self).occupied() == 0
                &&& final(self).expand_count == 0
                &&& final(self).io.meta.meta.km_level_size == old(self).io.meta.meta.km_level_size
                &&& final(self).io.meta.meta.km_bucket_size == old(self).io.meta.meta.km_bucket_size
                &&& final(self).io.meta.meta.val_next_addr == 1
                &&& final(self).io.meta.meta.val_tail_addr == 0
                &&& final(self).io.keymap@ == zeros(old(self).io.fresh_km_size())
                &&& final(self).io.values@ == zeros(LevelHashIO::VALUES_BLOCK_SIZE_BYTES as int)
            },
    {
        self.io.clear()?;
        self.expand_count = 0;
        self.item_counts = [0, 0];
        proof {
            assert forall|i: int| 0 <= i < self.io.table(0).len() implies self.io.table(0)[i] is None by {
                assert(self.io.is_slot(0, i));
                assert(self.io.entry_at(0, i) == None::<Entry>);
            }
            assert forall|i: int| 0 <= i < self.io.table(1).len() implies self.io.table(1)[i] is None by {
                assert(self.io.is_slot(1, i));
                assert(self.io.entry_at(1, i) == None::<Entry>);
            }
            lemma_bag_none(self.io.table(0));
            lemma_bag_none(self.io.table(1));
            assert(self.entries() =~= Multiset::<Entry>::empty());
            assert forall|key: Seq<u8>| !self.holds(key) by {
                if self.holds(key) {
                    let (l, i) = choose|l: int, i: int| self.holds_at(l, i, key);
                    assert(self.io.slot_ptr(l, i) == 0);
                }
            }
        }
        Ok(())
    }
}

} // verus!
