use vstd::prelude::*;
use crate::io::map_failure;
use crate::io::same_outside;
use crate::io::same_within;
use crate::io::u64_at;
use crate::level_io::entry_of;
use crate::level_io::lemma_record_frame;
use crate::level_io::rec_end;
use crate::level_io::rec_key;
use crate::level_io::rec_key_size;
use crate::level_io::rec_value;
use crate::level_io::rec_value_size;
use crate::level_io::write_record;
use crate::level_io::Entry;
use crate::level_io::LevelHashIO;
use crate::level_io::ValuesEntry;
use crate::result::LevelInsertionError;
use crate::result::LevelResult;
use crate::types::OffT;
use crate::util::align_8;
use crate::util::lemma_aligned_fit;
use crate::util::lemma_blocks_aligned;
use crate::util::spec_align_8;

verus! {

impl LevelHashIO {
    /// Two slots do not share a byte of the keymap.
    pub proof fn lemma_slot_offsets_apart(&self, l1: int, i1: int, l2: int, i2: int)
        requires
            self.geometry_wf(),
            self.is_slot(l1, i1),
            self.is_slot(l2, i2),
            l1 != l2 || i1 != i2,
        ensures
            self.slot_off(l1, i1) + 8 <= self.slot_off(l2, i2) || self.slot_off(l2, i2) + 8 <= self.slot_off(
                l1,
                i1,
            ),
            0 <= self.slot_off(l1, i1),
            self.slot_off(l1, i1) + 8 <= self.keymap.size,
    {
    }

    /// A slot lies in the keymap region.
    pub proof fn lemma_slot_in_keymap(&self, level: int, idx: int)
        requires
            self.geometry_wf(),
            self.is_slot(level, idx),
        ensures
            0 <= self.slot_off(level, idx),
            self.slot_off(level, idx) + 8 <= self.keymap.size,
    {
    }

    /// Whether `self` is `before` with one slot set anew: the slot at the
    /// offset `slot_addr` holds `ptr` and stands for `entry`, and every
    /// other slot holds and stands for what it did.
    pub open spec fn slot_set(&self, before: &LevelHashIO, slot_addr: int, ptr: int, entry: Option<Entry>) -> bool {
        forall|level: int, idx: int|
            #![trigger self.slot_ptr(level, idx)]
            #![trigger self.entry_at(level, idx)]
            before.is_slot(level, idx) ==> if before.slot_off(level, idx) == slot_addr {
                self.slot_ptr(level, idx) == ptr && self.entry_at(level, idx) == entry
            } else {
                self.slot_ptr(level, idx) == before.slot_ptr(level, idx) && self.entry_at(level, idx)
                    == before.entry_at(level, idx)
            }
    }

    /// A slot of a consistent index that is not empty points to a record
    /// that lies in the values region, below the place of the next record.
    pub proof fn lemma_slot_live(&self, level: int, idx: int)
        requires
            self.consistent(),
            self.is_slot(level, idx),
            self.slot_ptr(level, idx) != 0,
        ensures
            self.live(self.slot_ptr(level, idx)),
            1 <= self.slot_ptr(level, idx),
            self.slot_ptr(level, idx) + 7 <= rec_end(self.values.map@, self.slot_ptr(level, idx))
                <= self.meta.meta.val_next_addr - 1 <= self.values.size,
    {
    }

    /// The size to which a values region grows is a whole number of blocks
    /// that reaches beyond `need`, by no more than a block where the region
    /// had to grow at all.
    pub proof fn lemma_grown_size(size: int, need: int)
        requires
            0 <= size,
            size % (Self::VALUES_BLOCK_SIZE_BYTES as int) == 0,
        ensures
            Self::grown_size(size, need) > need,
            Self::grown_size(size, need) >= size,
            Self::grown_size(size, need) % (Self::VALUES_BLOCK_SIZE_BYTES as int) == 0,
            size <= need ==> Self::grown_size(size, need) <= need + Self::VALUES_BLOCK_SIZE_BYTES,
            size <= need ==> ((need - size) / (Self::VALUES_BLOCK_SIZE_BYTES as int) + 1)
                * Self::VALUES_BLOCK_SIZE_BYTES <= need - size + Self::VALUES_BLOCK_SIZE_BYTES,
    {
        if size <= need {
            let block = Self::VALUES_BLOCK_SIZE_BYTES as int;
            let blocks = (need - size) / block + 1;
            assert(need - size < blocks * block <= need - size + block) by (nonlinear_arith)
                requires
                    blocks == (need - size) / block + 1,
                    block == 524288,
                    need >= size,
            ;
            assert((size + blocks * block) % block == 0) by (nonlinear_arith)
                requires
                    size % block == 0,
                    block == 524288,
            ;
        }
    }

    /// What a write to one slot of the keymap does to the pointers of the
    /// slots: the slot at the offset `off` holds `ptr`, all others hold what
    /// they did.
    pub proof fn lemma_slot_write(a: &LevelHashIO, b: &LevelHashIO, off: int, ptr: int)
        requires
            a.geometry_wf(),
            b.same_geometry(a),
            a.is_slot_addr(off),
            same_outside(a.keymap.map@, b.keymap.map@, off, 8),
            u64_at(b.keymap.map@, off) == ptr,
        ensures
            forall|level: int, idx: int|
                #![trigger b.slot_ptr(level, idx)]
                a.is_slot(level, idx) ==> b.slot_ptr(level, idx) == if a.slot_off(level, idx) == off {
                    ptr
                } else {
                    a.slot_ptr(level, idx)
                },
    {
        reveal(LevelHashIO::slot_ptr);
        let (l0, i0) = choose|level: int, idx: int| a.is_slot(level, idx) && off == a.slot_off(level, idx);
        assert forall|level: int, idx: int| a.is_slot(level, idx) implies b.slot_ptr(level, idx) == if a.slot_off(
            level,
            idx,
        ) == off {
            ptr
        } else {
            a.slot_ptr(level, idx)
        } by {
            if a.slot_off(level, idx) != off {
                a.lemma_slot_offsets_apart(level, idx, l0, i0);
            }
        }
    }

    /// An index stays consistent where a record is written at the place of
    /// the next record and one slot is made to point to it.
    pub proof fn lemma_appended(a: &LevelHashIO, b: &LevelHashIO, off: int, key: Seq<u8>, value: Seq<u8>)
        requires
            a.wf(),
            a.is_slot_addr(off),
            0 < key.len() <= u32::MAX,
            value.len() <= u32::MAX,
            b.same_geometry(a),
            b.keymap.wf(),
            forall|level: int, idx: int|
                #![trigger b.slot_ptr(level, idx)]
                a.is_slot(level, idx) ==> b.slot_ptr(level, idx) == if a.slot_off(level, idx) == off {
                    a.meta.meta.val_next_addr as int
                } else {
                    a.slot_ptr(level, idx)
                },
            b.values.wf(),
            b.values.off == Self::VALUES_HEADER_SIZE_BYTES,
            b.values.size == b.meta.meta.val_file_size,
            b.meta.meta.val_file_size % Self::VALUES_BLOCK_SIZE_BYTES == 0,
            b.meta.meta.val_tail_addr == a.meta.meta.val_next_addr,
            b.meta.meta.val_next_addr == a.meta.meta.val_next_addr + spec_align_8(
                (8 + key.len() + value.len()) as int,
            ),
            a.meta.meta.val_next_addr - 1 + 8 + key.len() + value.len() < b.meta.meta.val_file_size,
            same_within(a.values.map@, b.values.map@, 0, a.meta.meta.val_next_addr - 1),
            rec_key_size(b.values.map@, a.meta.meta.val_next_addr as int) == key.len(),
            rec_value_size(b.values.map@, a.meta.meta.val_next_addr as int) == value.len(),
            rec_key(b.values.map@, a.meta.meta.val_next_addr as int) == key,
            rec_value(b.values.map@, a.meta.meta.val_next_addr as int) == value,
        ensures
            b.wf(),
            b.slot_set(a, off, a.meta.meta.val_next_addr as int, Some((key, value))),
    {
        let va = a.values.map@;
        let vb = b.values.map@;
        let next = a.meta.meta.val_next_addr as int;
        lemma_blocks_aligned(b.meta.meta.val_file_size as int);
        lemma_aligned_fit(next - 1, (8 + key.len() + value.len()) as int, b.meta.meta.val_file_size as int);
        assert(b.values_wf());
        assert(b.geometry_wf());
        assert forall|level: int, idx: int| a.is_slot(level, idx) && a.slot_off(level, idx) != off
            && a.slot_ptr(level, idx) != 0 implies {
            let p = a.slot_ptr(level, idx);
            &&& b.slot_ptr(level, idx) == p
            &&& rec_end(vb, p) == rec_end(va, p)
            &&& rec_key_size(vb, p) == rec_key_size(va, p)
            &&& entry_of(vb, p) == entry_of(va, p)
            &&& a.live(p)
            &&& b.live(p)
            &&& rec_end(vb, p) <= next - 1
        } by {
            let p = a.slot_ptr(level, idx);
            a.lemma_slot_live(level, idx);
            lemma_record_frame(va, vb, p);
        }
        assert(b.slot_set(a, off, next, Some((key, value))));
        assert forall|level: int, idx: int| b.is_slot(level, idx) implies b.slot_ptr(level, idx) == 0
            || b.live(b.slot_ptr(level, idx)) by {
            assert(a.is_slot(level, idx));
            if a.slot_off(level, idx) != off && a.slot_ptr(level, idx) != 0 {
            }
        }
        assert forall|l1: int, i1: int, l2: int, i2: int|
            b.is_slot(l1, i1) && b.is_slot(l2, i2) && (l1 != l2 || i1 != i2) && b.slot_ptr(l1, i1) != 0
                && b.slot_ptr(l2, i2) != 0 implies b.apart(b.slot_ptr(l1, i1), b.slot_ptr(l2, i2)) by {
            assert(a.is_slot(l1, i1) && a.is_slot(l2, i2));
            a.lemma_slot_offsets_apart(l1, i1, l2, i2);
            if a.slot_off(l1, i1) != off && a.slot_off(l2, i2) != off {
                assert(a.apart(a.slot_ptr(l1, i1), a.slot_ptr(l2, i2)));
            }
        }
    }

    /// Whether the values region can take one more record of `key_len` and
    /// `val_len` bytes of key and value.
    pub fn check_append(&self, key_len: usize, val_len: usize) -> (r: bool)
        requires
            self.values_wf(),
            key_len <= u32::MAX,
            val_len <= u32::MAX,
        ensures
            r == self.can_append(key_len as int, val_len as int),
    {
        let this_val_addr: OffT = self.meta.read().val_next_addr;
        let val_file_size: OffT = self.meta.read().val_file_size;
        let entry_size: OffT = ValuesEntry::ENTRY_SIZE_MIN + key_len as OffT + val_len as OffT;
        let block: OffT = Self::VALUES_BLOCK_SIZE_BYTES;
        proof {
            Self::lemma_grown_size(val_file_size as int, this_val_addr - 1 + entry_size);
        }
        if entry_size > u64::MAX - (this_val_addr - 1) {
            return false;
        }
        let min_file_size: OffT = this_val_addr - 1 + entry_size;
        let mut new_val_file_size = val_file_size;
        if new_val_file_size <= min_file_size {
            if block > u64::MAX - min_file_size {
                return false;
            }
            let blocks: OffT = (min_file_size - val_file_size) / block + 1;
            new_val_file_size = val_file_size + blocks * block;
        }
        new_val_file_size <= usize::MAX as u64 && new_val_file_size <= u64::MAX - Self::VALUES_HEADER_SIZE_BYTES
    }

    /// Append a new entry to the values file at the given slot position. The slot entry at the given
    /// slot address in the keymap file will be updated to point to the new entry.
    ///
    /// The record is written at `val_next_addr`, which becomes the address
    /// of the record written last; the next record will follow it on a
    /// multiple of eight. The values region grows by whole blocks until it
    /// reaches beyond the record.
    pub fn append_entry_at_slot(&mut self, slot_addr: OffT, key: &[u8], value: &[u8]) -> (r: LevelResult<(), LevelInsertionError>)
        requires
            old(self).wf(),
            old(self).is_slot_addr(slot_addr as int),
            0 < key@.len() <= u32::MAX,
            value@.len() <= u32::MAX,
        ensures
            r is Ok <==> old(self).can_append(key@.len() as int, value@.len() as int),
            r matches Err(e) ==> e is MmapError && *final(self) == *old(self),
            r is Ok ==> {
                &&& final(self).wf()
                &&& final(self).same_geometry(old(self))
                &&& final(self).meta.meta.val_tail_addr == old(self).meta.meta.val_next_addr
                &&& final(self).meta.meta.val_next_addr == old(self).meta.meta.val_next_addr
                    + spec_align_8((8 + key@.len() + value@.len()) as int)
                &&& final(self).meta.meta.val_file_size == old(self).size_after_append(
                    key@.len() as int,
                    value@.len() as int,
                )
                &&& final(self).slot_set(
                    old(self),
                    slot_addr as int,
                    old(self).meta.meta.val_next_addr as int,
                    Some((key@, value@)),
                )
                &&& same_within(old(self).values@, final(self).values@, 0, old(self).meta.meta.val_next_addr - 1)
            },
    {
        let this_val_addr: OffT = self.meta.read().val_next_addr;
        let val_file_size: OffT = self.meta.read().val_file_size;
        let key_len = key.len() as u32;
        let val_len = value.len() as u32;
        let entry_size: OffT = ValuesEntry::ENTRY_SIZE_MIN + key_len as OffT + val_len as OffT;
        let block: OffT = Self::VALUES_BLOCK_SIZE_BYTES;

        proof {
            Self::lemma_grown_size(val_file_size as int, this_val_addr - 1 + entry_size);
        }
        if entry_size > u64::MAX - (this_val_addr - 1) {
            return Err(LevelInsertionError::MmapError(map_failure()));
        }
        let min_file_size: OffT = this_val_addr - 1 + entry_size;
        let mut new_val_file_size = val_file_size;
        if new_val_file_size <= min_file_size {
            if block > u64::MAX - min_file_size {
                return Err(LevelInsertionError::MmapError(map_failure()));
            }
            let blocks: OffT = (min_file_size - val_file_size) / block + 1;
            new_val_file_size = val_file_size + blocks * block;
        }
        match self.val_resize(new_val_file_size) {
            Err(e) => {
                return Err(LevelInsertionError::MmapError(e));
            },
            Ok(()) => {},
        }
        let ghost grown = self.values.map@;
        write_record(&mut self.values, this_val_addr - 1, key, value);

        // finally, current_tail = this_entry
        let meta = self.meta.write();
        meta.val_tail_addr = this_val_addr;
        meta.val_next_addr = this_val_addr + align_8(entry_size);

        self.km_write_addr(slot_addr, this_val_addr);

        proof {
            Self::lemma_slot_write(old(self), self, slot_addr as int, this_val_addr as int);
            assert(same_within(old(self).values.map@, self.values.map@, 0, this_val_addr - 1)) by {
                assert forall|i: int| 0 <= i < this_val_addr - 1 implies self.values.map@[i] == old(
                    self,
                ).values.map@[i] by {
                    assert(grown[i] == old(self).values.map@[i]);
                }
            }
            Self::lemma_appended(old(self), self, slot_addr as int, key@, value@);
        }
        Ok(())
    }
}

} // verus!
