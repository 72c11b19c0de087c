use vstd::prelude::*;
use crate::io::same_outside;
use crate::io::same_within;
use crate::io::u64_at;
use crate::io::zero_within;
use crate::io::MappedFile;
use crate::level_io::entry_of;
use crate::level_io::lemma_record_frame;
use crate::level_io::lemma_slot_index;
use crate::level_io::rec_end;
use crate::level_io::remove::rec_extent;
use crate::level_io::rec_key;
use crate::level_io::rec_key_size;
use crate::level_io::rec_value;
use crate::level_io::rec_value_size;
use crate::level_io::LevelHashIO;
use crate::level_io::ValEntryReadExt;
use crate::level_io::ValEntryWriteExt;
use crate::level_io::ValuesEntry;
use crate::level_io::ValuesEntryMut;
use crate::result::LevelInsertionError;
use crate::result::LevelResult;
use crate::result::LevelUpdateError;
use crate::result::LevelUpdateResult;
use crate::types::BucketIdxT;
use crate::types::LevelIdxT;
use crate::types::OffT;
use crate::types::SlotIdxT;

verus! {

/// Writes `new_value` over the value of the record at the 0-based address
/// `addr`, which is not longer than the value that the record holds. The
/// record gets the size of the new value, and the bytes that it gives up
/// are set to zero.
pub fn rewrite_value(file: &mut MappedFile, addr: OffT, new_value: &[u8])
    requires
        old(file).wf(),
        0 <= addr,
        rec_end(old(file)@, addr + 1) <= old(file).size,
        new_value@.len() <= rec_value_size(old(file)@, addr + 1),
    ensures
        final(file).wf(),
        final(file).off == old(file).off,
        final(file).size == old(file).size,
        rec_key_size(final(file)@, addr + 1) == rec_key_size(old(file)@, addr + 1),
        rec_key(final(file)@, addr + 1) == rec_key(old(file)@, addr + 1),
        rec_value_size(final(file)@, addr + 1) == new_value@.len(),
        rec_value(final(file)@, addr + 1) == new_value@,
        same_outside(
            old(file)@,
            final(file)@,
            addr as int,
            rec_end(old(file)@, addr + 1) - addr,
        ),
        zero_within(
            final(file)@,
            rec_end(final(file)@, addr + 1),
            rec_end(old(file)@, addr + 1) - rec_end(final(file)@, addr + 1),
        ),
{
    let mut entry = ValuesEntryMut::at(addr, file);
    let key_size = entry.key_size() as OffT;
    let old_size = entry.value_size() as OffT;
    let new_size = new_value.len() as OffT;
    let value_off = addr + ValuesEntry::OFF_KEY + key_size;
    file.write_at(value_off, new_value);
    let ghost written = file.map@;
    let mut i: OffT = value_off + new_size;
    let end: OffT = value_off + old_size;
    while i < end
        invariant
            file.wf(),
            file.off == old(file).off,
            file.size == old(file).size,
            value_off + new_size <= i <= end <= file.size,
            same_outside(written, file.map@, value_off + new_size, i - (value_off + new_size)),
            zero_within(file.map@, value_off + new_size, i - (value_off + new_size)),
        decreases end - i,
    {
        file.map[i as usize] = 0u8;
        i += 1;
    }
    let ghost cleared = file.map@;
    entry.data_mut().value_size = new_size as u32;
    entry.store(file);
    proof {
        let v0 = old(file).map@;
        let v = file.map@;
        assert(rec_key(v, addr + 1) =~= rec_key(v0, addr + 1));
        assert(rec_value(v, addr + 1) =~= new_value@);
        assert forall|k: int| rec_end(v, addr + 1) <= k < rec_end(v0, addr + 1) implies v[k] == 0 by {
            assert(cleared[k] == 0);
        }
    }
}

impl LevelHashIO {
    /// After a record has been appended for a slot, the record that the
    /// slot pointed to before is whole, and out of use.
    pub proof fn lemma_detached_after_append(a: &LevelHashIO, m: &LevelHashIO, level: int, idx: int)
        requires
            a.wf(),
            m.wf(),
            m.same_geometry(a),
            a.is_slot(level, idx),
            a.slot_ptr(level, idx) != 0,
            m.slot_set(a, a.slot_off(level, idx), a.meta.meta.val_next_addr as int, m.entry_at(level, idx)),
            same_within(a.values.map@, m.values.map@, 0, a.meta.meta.val_next_addr - 1),
            m.meta.meta.val_next_addr >= a.meta.meta.val_next_addr,
        ensures
            m.detached(a.slot_ptr(level, idx)),
            rec_end(m.values.map@, a.slot_ptr(level, idx)) == rec_end(a.values.map@, a.slot_ptr(level, idx)),
            rec_value(m.values.map@, a.slot_ptr(level, idx)) == rec_value(
                a.values.map@,
                a.slot_ptr(level, idx),
            ),
    {
        let p = a.slot_ptr(level, idx);
        let va = a.values.map@;
        let vm = m.values.map@;
        a.lemma_slot_live(level, idx);
        lemma_record_frame(va, vm, p);
        assert forall|l2: int, i2: int| m.is_slot(l2, i2) && m.slot_ptr(l2, i2) != 0 implies m.apart(
            p,
            m.slot_ptr(l2, i2),
        ) by {
            assert(a.is_slot(l2, i2));
            if l2 == level && i2 == idx {
            } else {
                a.lemma_slot_offsets_apart(level, idx, l2, i2);
                let q = a.slot_ptr(l2, i2);
                assert(m.slot_ptr(l2, i2) == q);
                a.lemma_slot_live(l2, i2);
                lemma_record_frame(va, vm, q);
                assert(a.apart(a.slot_ptr(level, idx), a.slot_ptr(l2, i2)));
            }
        }
    }

    /// Whether the record at `p` of `before`, if `p` is not zero, has been
    /// deleted in `self`: the bytes that it took up are zero.
    pub open spec fn replaced_record(&self, before: &LevelHashIO, p: int) -> bool {
        p != 0 ==> zero_within(self.values@, p - 1, rec_extent(before.values@, p))
    }

    /// Appends a record of `key` and `value` for the slot at `slot_addr`,
    /// and deletes the record that the slot pointed to before, if any.
    pub fn replace_entry_at_slot(&mut self, slot_addr: OffT, key: &[u8], value: &[u8]) -> (r: LevelResult<
        (),
        LevelInsertionError,
    >)
        requires
            old(self).wf(),
            old(self).is_slot_addr(slot_addr as int),
            0 < key@.len() <= u32::MAX,
            value@.len() <= u32::MAX,
        ensures
            r is Ok <==> old(self).can_append(key@.len() as int, value@.len() as int),
            r matches Err(e) ==> e is MmapError && *final(self) == *old(self),
            r is Ok ==> {
                &&& final(self).wf()
                &&& final(self).same_geometry(old(self))
                &&& final(self).slot_set(
                    old(self),
                    slot_addr as int,
                    old(self).meta.meta.val_next_addr as int,
                    Some((key@, value@)),
                )
                &&& final(self).meta.meta.val_tail_addr == old(self).meta.meta.val_next_addr
                &&& final(self).meta.meta.val_next_addr == old(self).meta.meta.val_next_addr
                    + crate::util::spec_align_8((8 + key@.len() + value@.len()) as int)
                &&& final(self).replaced_record(old(self), u64_at(old(self).keymap@, slot_addr as int))
            },
    {
        let ghost (l0, i0) = choose|level: int, idx: int|
            old(self).is_slot(level, idx) && slot_addr == old(self).slot_off(level, idx);
        proof {
            old(self).lemma_slot_in_keymap(l0, i0);
            reveal(LevelHashIO::slot_ptr);
        }
        let existing_val_addr = self.km_read_addr(slot_addr);
        let is_update = existing_val_addr > Self::POS_INVALID;

        self.append_entry_at_slot(slot_addr, key, value)?;

        if is_update {
            let ghost mid = *self;
            proof {
                old(self).lemma_slot_live(l0, i0);
                crate::util::lemma_aligned_fit(
                    existing_val_addr - 1,
                    rec_end(old(self).values.map@, existing_val_addr as int) - (existing_val_addr - 1),
                    old(self).meta.meta.val_next_addr - 1,
                );
                crate::util::lemma_aligned_fit(0, (8 + key@.len() + value@.len()) as int, 0x4_0000_0000);
                assert(mid.entry_at(l0, i0) == Some((key@, value@)));
                Self::lemma_detached_after_append(old(self), &mid, l0, i0);
            }
            self.delete_at(existing_val_addr, None, false);
            proof {
                assert(rec_extent(mid.values.map@, existing_val_addr as int) == rec_extent(
                    old(self).values.map@,
                    existing_val_addr as int,
                ));
                assert(self.wf());
                assert forall|level: int, idx: int| old(self).is_slot(level, idx) implies if old(
                    self,
                ).slot_off(level, idx) == slot_addr {
                    self.slot_ptr(level, idx) == old(self).meta.meta.val_next_addr && self.entry_at(level, idx)
                        == Some((key@, value@))
                } else {
                    self.slot_ptr(level, idx) == old(self).slot_ptr(level, idx) && self.entry_at(level, idx)
                        == old(self).entry_at(level, idx)
                } by {
                    assert(mid.is_slot(level, idx));
                    assert(self.slot_ptr(level, idx) == mid.slot_ptr(level, idx));
                    assert(self.entry_at(level, idx) == mid.entry_at(level, idx));
                }
            }
        }
        Ok(())
    }

    /// Create a new entry or update the existing entry at the given slot position. If the given
    /// `key` is empty and the there exists an existing entry, then the entry will be removed and
    /// the keymap will be updated with a null pointer (0). Otherwise, a new entry will be appended
    /// to the values file, the existing entry will be removed and the keymap will be updated to
    /// point to the new entry.
    pub fn create_or_update_entry(
        &mut self,
        level: LevelIdxT,
        bucket: BucketIdxT,
        slot: SlotIdxT,
        key: &[u8],
        value: &[u8],
    ) -> (r: LevelResult<(), LevelInsertionError>)
        requires
            old(self).wf(),
            level <= 1,
            bucket < old(self).buckets(level as int),
            slot < old(self).bucket_size(),
            key@.len() <= u32::MAX,
            value@.len() <= u32::MAX,
        ensures
            r is Ok <==> key@.len() == 0 || old(self).can_append(key@.len() as int, value@.len() as int),
            r matches Err(e) ==> e is MmapError && *final(self) == *old(self),
            r is Ok ==> {
                &&& final(self).wf()
                &&& final(self).same_geometry(old(self))
                &&& final(self).slot_set(
                    old(self),
                    old(self).slot_off(level as int, bucket * old(self).bucket_size() + slot),
                    if key@.len() == 0 {
                        0
                    } else {
                        old(self).meta.meta.val_next_addr as int
                    },
                    if key@.len() == 0 {
                        None
                    } else {
                        Some((key@, value@))
                    },
                )
                &&& final(self).replaced_record(
                    old(self),
                    old(self).slot_ptr(level as int, bucket * old(self).bucket_size() + slot),
                )
            },
    {
        let slot_addr = self.slot_addr(level, bucket, slot);
        assert(self.slot_ptr(level as int, bucket * self.bucket_size() + slot) == u64_at(
            self.keymap@,
            slot_addr as int,
        )) by {
            reveal(LevelHashIO::slot_ptr);
        }
        if key.len() == 0 {
            proof {
                let idx = bucket * self.bucket_size() + slot;
                let p = self.slot_ptr(level as int, idx);
                if p != 0 {
                    self.lemma_slot_live(level as int, idx);
                    crate::util::lemma_aligned_fit(
                        p - 1,
                        rec_end(self.values.map@, p) - (p - 1),
                        self.meta.meta.val_next_addr - 1,
                    );
                }
            }
            self.delete_at_slot(slot_addr, false);
            return Ok(());
        }
        self.replace_entry_at_slot(slot_addr, key, value)
    }

    /// An index stays consistent where the value of a record in use is
    /// replaced in place by one that is not longer.
    pub proof fn lemma_updated_in_place(a: &LevelHashIO, b: &LevelHashIO, level: int, idx: int, value: Seq<u8>)
        requires
            a.wf(),
            a.is_slot(level, idx),
            a.slot_ptr(level, idx) != 0,
            b.same_geometry(a),
            b.keymap == a.keymap,
            b.meta == a.meta,
            b.values.wf(),
            b.values.off == a.values.off,
            b.values.size == a.values.size,
            value.len() <= rec_value_size(a.values.map@, a.slot_ptr(level, idx)),
            rec_key_size(b.values.map@, a.slot_ptr(level, idx)) == rec_key_size(
                a.values.map@,
                a.slot_ptr(level, idx),
            ),
            rec_key(b.values.map@, a.slot_ptr(level, idx)) == rec_key(a.values.map@, a.slot_ptr(level, idx)),
            rec_value_size(b.values.map@, a.slot_ptr(level, idx)) == value.len(),
            rec_value(b.values.map@, a.slot_ptr(level, idx)) == value,
            same_outside(
                a.values.map@,
                b.values.map@,
                a.slot_ptr(level, idx) - 1,
                rec_end(a.values.map@, a.slot_ptr(level, idx)) - (a.slot_ptr(level, idx) - 1),
            ),
        ensures
            b.wf(),
            b.slot_set(
                a,
                a.slot_off(level, idx),
                a.slot_ptr(level, idx),
                Some((rec_key(a.values.map@, a.slot_ptr(level, idx)), value)),
            ),
    {
        reveal(LevelHashIO::slot_ptr);
        let p = a.slot_ptr(level, idx);
        let va = a.values.map@;
        let vb = b.values.map@;
        a.lemma_slot_live(level, idx);
        assert forall|l2: int, i2: int|
            a.is_slot(l2, i2) && (l2 != level || i2 != idx) && a.slot_ptr(l2, i2) != 0 implies {
            let q = a.slot_ptr(l2, i2);
            &&& rec_end(vb, q) == rec_end(va, q)
            &&& rec_key_size(vb, q) == rec_key_size(va, q)
            &&& entry_of(vb, q) == entry_of(va, q)
            &&& a.live(q)
            &&& b.live(q)
            &&& a.apart(p, q)
        } by {
            let q = a.slot_ptr(l2, i2);
            a.lemma_slot_live(l2, i2);
            assert(a.apart(a.slot_ptr(level, idx), a.slot_ptr(l2, i2)));
            lemma_record_frame(va, vb, q);
        }
        assert(b.live(p));
        assert forall|l2: int, i2: int| a.is_slot(l2, i2) implies if a.slot_off(l2, i2) == a.slot_off(
            level,
            idx,
        ) {
            b.slot_ptr(l2, i2) == p && b.entry_at(l2, i2) == Some((rec_key(va, p), value))
        } else {
            b.slot_ptr(l2, i2) == a.slot_ptr(l2, i2) && b.entry_at(l2, i2) == a.entry_at(l2, i2)
        } by {
            if l2 != level || i2 != idx {
                a.lemma_slot_offsets_apart(level, idx, l2, i2);
            }
        }
        assert forall|l1: int, i1: int, l2: int, i2: int|
            b.is_slot(l1, i1) && b.is_slot(l2, i2) && (l1 != l2 || i1 != i2) && b.slot_ptr(l1, i1) != 0
                && b.slot_ptr(l2, i2) != 0 implies b.apart(b.slot_ptr(l1, i1), b.slot_ptr(l2, i2)) by {
            assert(a.is_slot(l1, i1) && a.is_slot(l2, i2));
            assert(a.apart(a.slot_ptr(l1, i1), a.slot_ptr(l2, i2)));
        }
    }

    /// Update the value of the entry at the given level, bucket and slot. The value is written
    /// over the old one where it is not longer than the old one. Else a new
    /// entry will be created in the values file and current entry will be removed. The keymap file
    /// will be updated to point to the new entry.
    ///
    /// Returns the value that the entry had.
    pub fn update_entry_value(
        &mut self,
        level: LevelIdxT,
        bucket: BucketIdxT,
        slot: SlotIdxT,
        new_value: &[u8],
    ) -> (r: LevelUpdateResult)
        requires
            old(self).wf(),
            level <= 1,
            bucket < old(self).buckets(level as int),
            slot < old(self).bucket_size(),
            new_value@.len() <= u32::MAX,
        ensures
            ({
                let idx = bucket * old(self).bucket_size() + slot;
                let p = old(self).slot_ptr(level as int, idx);
                let v = old(self).values@;
                let in_place = new_value@.len() <= rec_value_size(v, p);
                &&& (r matches Err(LevelUpdateError::SlotEmpty)) <==> p == 0
                &&& !(r matches Err(LevelUpdateError::EntryNotOccupied))
                &&& !(r matches Err(LevelUpdateError::SlotNotFound))
                &&& r is Ok <==> p != 0 && (in_place || old(self).can_append(
                    rec_key_size(v, p),
                    new_value@.len() as int,
                ))
                &&& (r matches Err(LevelUpdateError::InsertionErr(e)) ==> e is MmapError)
                &&& r is Err ==> *final(self) == *old(self)
                &&& r is Ok && in_place ==> {
                    &&& final(self).meta == old(self).meta
                    &&& same_outside(v, final(self).values@, p - 1, rec_end(v, p) - (p - 1))
                    &&& zero_within(
                        final(self).values@,
                        rec_end(final(self).values@, p),
                        rec_end(v, p) - rec_end(final(self).values@, p),
                    )
                }
                &&& r is Ok && !in_place ==> final(self).replaced_record(old(self), p)
                    && final(self).meta.meta.val_tail_addr == old(self).meta.meta.val_next_addr
                &&& r is Ok ==> {
                    &&& r->Ok_0@ == rec_value(v, p)
                    &&& final(self).wf()
                    &&& final(self).same_geometry(old(self))
                    &&& final(self).slot_set(
                        old(self),
                        old(self).slot_off(level as int, idx),
                        if in_place {
                            p
                        } else {
                            old(self).meta.meta.val_next_addr as int
                        },
                        Some((rec_key(v, p), new_value@)),
                    )
                }
            }),
    {
        // IMP: Update slot_addr only after writing the new value entry
        let ghost idx = bucket * self.bucket_size() + slot;
        proof {
            self.lemma_sizes();
            lemma_slot_index(self.buckets(level as int), self.bucket_size(), bucket as int, slot as int);
        }
        let (slot_addr, val_addr) = self.slot_and_val_addr_at(level, bucket, slot);
        if val_addr.is_none() {
            return Err(LevelUpdateError::SlotEmpty);
        }
        let val_addr = val_addr.unwrap();
        proof {
            self.lemma_slot_live(level as int, idx);
        }
        let this_entry = ValuesEntry::at(val_addr - 1, &self.values);
        if this_entry.is_empty() {
            return Err(LevelUpdateError::EntryNotOccupied);
        }
        let value = this_entry.value(&self.values);

        if new_value.len() <= this_entry.value_size() as usize {
            rewrite_value(&mut self.values, this_entry.addr, new_value);
            proof {
                Self::lemma_updated_in_place(old(self), self, level as int, idx, new_value@);
            }
            return Ok(value);
        }
        let key = this_entry.key(&self.values);
        assert(self.slot_ptr(level as int, idx) == u64_at(self.keymap@, slot_addr as int)) by {
            reveal(LevelHashIO::slot_ptr);
        }
        match self.replace_entry_at_slot(slot_addr, key.as_slice(), new_value) {
            Err(e) => Err(LevelUpdateError::InsertionErr(e)),
            Ok(()) => Ok(value),
        }
    }
}

} // verus!
