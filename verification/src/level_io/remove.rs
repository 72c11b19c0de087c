use vstd::prelude::*;
use crate::io::same_outside;
use crate::io::u64_at;
use crate::io::zeroed;
use crate::level_io::entry_of;
use crate::level_io::lemma_record_frame;
use crate::level_io::rec_end;
use crate::level_io::rec_key;
use crate::level_io::rec_key_size;
use crate::level_io::rec_value;
use crate::level_io::Entry;
use crate::level_io::LevelHashIO;
use crate::level_io::ValEntryReadExt;
use crate::level_io::ValuesEntry;
use crate::reprs::LevelMeta;
use crate::types::OffT;
use crate::util::align_8;
use crate::util::lemma_aligned_fit;
use crate::util::lemma_blocks_aligned;
use crate::util::spec_align_8;

verus! {

/// The number of bytes that the record with the 1-based address `p` takes
/// up in the values region `v`: header, key and value, and the bytes that
/// align the record behind it.
pub open spec fn rec_extent(v: Seq<u8>, p: int) -> int {
    spec_align_8(rec_end(v, p) - (p - 1))
}

impl LevelHashIO {
    /// Whether the record at `p` is whole but out of use: it lies below the
    /// place of the next record, and shares no byte with a record that a
    /// slot points to.
    pub open spec fn detached(&self, p: int) -> bool {
        &&& 1 <= p
        &&& (p - 1) % 8 == 0
        &&& rec_end(self.values.map@, p) <= self.meta.meta.val_next_addr - 1
        &&& forall|level: int, idx: int|
            #![trigger self.slot_ptr(level, idx)]
            self.is_slot(level, idx) && self.slot_ptr(level, idx) != 0 ==> self.apart(
                p,
                self.slot_ptr(level, idx),
            )
    }

    /// Whether every slot of `self` holds and stands for what it does in
    /// `before`.
    pub open spec fn slots_kept(&self, before: &LevelHashIO) -> bool {
        forall|level: int, idx: int|
            #![trigger self.slot_ptr(level, idx)]
            #![trigger self.entry_at(level, idx)]
            before.is_slot(level, idx) ==> self.slot_ptr(level, idx) == before.slot_ptr(level, idx)
                && self.entry_at(level, idx) == before.entry_at(level, idx)
    }

    /// The meta record after the record at `p` has been deleted: where it
    /// was the record written last, the next record will take its place.
    pub open spec fn meta_after_delete(&self, p: int) -> LevelMeta {
        if self.meta.meta.val_tail_addr == p {
            LevelMeta { val_next_addr: p as u64, ..self.meta.meta }
        } else {
            self.meta.meta
        }
    }

    /// An index stays consistent where the bytes of a record that is out of
    /// use are set to zero.
    pub proof fn lemma_deleted(a: &LevelHashIO, b: &LevelHashIO, p: int)
        requires
            a.consistent(),
            a.detached(p),
            b.same_geometry(a),
            b.keymap == a.keymap,
            b.values.wf(),
            b.values.off == a.values.off,
            b.values.size == a.values.size,
            b.values.map@ == zeroed(a.values.map@, p - 1, rec_extent(a.values.map@, p)),
            b.meta.meta == a.meta_after_delete(p),
        ensures
            b.consistent(),
            b.slots_kept(a),
    {
        reveal(LevelHashIO::slot_ptr);
        let va = a.values.map@;
        let vb = b.values.map@;
        let end = rec_end(va, p);
        lemma_aligned_fit(p - 1, end - (p - 1), a.meta.meta.val_next_addr - 1);
        assert forall|level: int, idx: int| a.is_slot(level, idx) && a.slot_ptr(level, idx) != 0 implies {
            let q = a.slot_ptr(level, idx);
            &&& rec_end(vb, q) == rec_end(va, q)
            &&& rec_key_size(vb, q) == rec_key_size(va, q)
            &&& entry_of(vb, q) == entry_of(va, q)
            &&& a.live(q)
            &&& b.live(q)
        } by {
            let q = a.slot_ptr(level, idx);
            a.lemma_slot_live(level, idx);
            assert(a.apart(p, q));
            if end <= q - 1 {
                lemma_aligned_fit(p - 1, end - (p - 1), q - 1);
            }
            lemma_record_frame(va, vb, q);
        }
        assert(b.values_wf());
        assert(b.slots_kept(a));
        assert forall|l1: int, i1: int, l2: int, i2: int|
            b.is_slot(l1, i1) && b.is_slot(l2, i2) && (l1 != l2 || i1 != i2) && b.slot_ptr(l1, i1) != 0
                && b.slot_ptr(l2, i2) != 0 implies b.apart(b.slot_ptr(l1, i1), b.slot_ptr(l2, i2)) by {
            assert(a.is_slot(l1, i1) && a.is_slot(l2, i2));
            assert(a.apart(a.slot_ptr(l1, i1), a.slot_ptr(l2, i2)));
        }
    }

    /// Delete the entry at the given value address, optionally returning the existing value if `read_value`
    /// is `true`. If the `key` is [Some], then the entry will be deleted only if the keys match.
    ///
    /// The record must be out of use: no slot points to it any more. Its
    /// bytes are given back and read as zero afterwards. Where it was the
    /// record written last, the next record will be written in its place.
    ///
    /// ## Parameters
    ///
    /// * `val_addr`: The 1-based address of the value entry to delete.
    pub fn delete_at(&mut self, val_addr: OffT, key: Option<&[u8]>, read_value: bool) -> (r: Option<Vec<u8>>)
        requires
            old(self).consistent(),
            val_addr == 0 || old(self).detached(val_addr as int),
        ensures
            final(self).consistent(),
            final(self).same_geometry(old(self)),
            final(self).slots_kept(old(self)),
            final(self).keymap == old(self).keymap,
            val_addr == 0 ==> r is None && *final(self) == *old(self),
            val_addr != 0 ==> {
                let kept = key matches Some(k) && (k@.len() == 0 || k@ != rec_key(
                    old(self).values@,
                    val_addr as int,
                ));
                &&& r == if read_value {
                    Some(r->0)
                } else {
                    None
                }
                &&& read_value ==> r->0@ == rec_value(old(self).values@, val_addr as int)
                &&& kept ==> *final(self) == *old(self)
                &&& !kept ==> {
                    &&& final(self).meta.meta == old(self).meta_after_delete(val_addr as int)
                    &&& final(self).values@ == zeroed(
                        old(self).values@,
                        val_addr - 1,
                        rec_extent(old(self).values@, val_addr as int),
                    )
                }
            },
    {
        if val_addr <= Self::POS_INVALID {
            return None;
        }
        let entry = ValuesEntry::at(val_addr - 1, &self.values);

        if let Some(k) = key {
            // if we have been provided with a key, then check if the key matches
            // if not, then do not delete
            if !entry.keyeq(&self.values, k) {
                proof {
                    let v = self.values.map@;
                    let p = val_addr as int;
                    if k@.len() > 0 && k@ == rec_key(v, p) {
                        assert(rec_key(v, p).len() == rec_key_size(v, p));
                        assert(false);
                    }
                }
                return if read_value {
                    Some(entry.value(&self.values))
                } else {
                    None
                };
            }
        }
        let mut result: Option<Vec<u8>> = None;
        if read_value {
            result = Some(entry.value(&self.values));
        }
        proof {
            lemma_blocks_aligned(self.values.size as int);
            lemma_aligned_fit(
                val_addr - 1,
                rec_end(self.values.map@, val_addr as int) - (val_addr - 1),
                self.meta.meta.val_next_addr - 1,
            );
        }
        let entry_size = align_8(entry.esize());

        let meta = self.meta.write();
        if meta.val_tail_addr == val_addr {
            // let the next entry be written at this tail address
            meta.val_next_addr = val_addr;
        }
        self.val_deallocate(entry.addr, entry_size);
        proof {
            Self::lemma_deleted(old(self), self, val_addr as int);
        }
        result
    }

    /// An index stays consistent where a slot is set to zero, and the
    /// record that the slot pointed to is out of use then.
    pub proof fn lemma_slot_cleared(a: &LevelHashIO, b: &LevelHashIO, off: int)
        requires
            a.consistent(),
            a.is_slot_addr(off),
            b.same_geometry(a),
            b.keymap.wf(),
            b.values == a.values,
            b.meta == a.meta,
            forall|level: int, idx: int|
                #![trigger b.slot_ptr(level, idx)]
                a.is_slot(level, idx) ==> b.slot_ptr(level, idx) == if a.slot_off(level, idx) == off {
                    0
                } else {
                    a.slot_ptr(level, idx)
                },
        ensures
            b.consistent(),
            b.slot_set(a, off, 0, None),
            forall|level: int, idx: int|
                a.is_slot(level, idx) && a.slot_off(level, idx) == off && a.slot_ptr(level, idx) != 0
                    ==> b.detached(a.slot_ptr(level, idx)),
    {
        assert(b.slot_set(a, off, 0, None));
        assert forall|l1: int, i1: int, l2: int, i2: int|
            b.is_slot(l1, i1) && b.is_slot(l2, i2) && (l1 != l2 || i1 != i2) && b.slot_ptr(l1, i1) != 0
                && b.slot_ptr(l2, i2) != 0 implies b.apart(b.slot_ptr(l1, i1), b.slot_ptr(l2, i2)) by {
            assert(a.is_slot(l1, i1) && a.is_slot(l2, i2));
            assert(a.apart(a.slot_ptr(l1, i1), a.slot_ptr(l2, i2)));
        }
        assert forall|level: int, idx: int|
            a.is_slot(level, idx) && a.slot_off(level, idx) == off && a.slot_ptr(level, idx)
                != 0 implies b.detached(a.slot_ptr(level, idx)) by {
            let p = a.slot_ptr(level, idx);
            a.lemma_slot_live(level, idx);
            assert forall|l2: int, i2: int| b.is_slot(l2, i2) && b.slot_ptr(l2, i2) != 0 implies b.apart(
                p,
                b.slot_ptr(l2, i2),
            ) by {
                assert(a.is_slot(l2, i2));
                a.lemma_slot_offsets_apart(level, idx, l2, i2);
                assert(a.apart(a.slot_ptr(level, idx), a.slot_ptr(l2, i2)));
            }
        }
    }

    /// Delete the entry at the given slot position, optionally reading the existing value if `read_value`
    /// is true. The slot entry at the given slot address in the keymap file will be updated to a
    /// null pointer (0), and the record that it pointed to is deleted.
    pub fn delete_at_slot(&mut self, slot_addr: OffT, read_value: bool) -> (r: Option<Vec<u8>>)
        requires
            old(self).wf(),
            old(self).is_slot_addr(slot_addr as int),
        ensures
            final(self).wf(),
            final(self).same_geometry(old(self)),
            final(self).slot_set(old(self), slot_addr as int, 0, None),
            ({
                let p = u64_at(old(self).keymap@, slot_addr as int);
                &&& r is Some <==> read_value && p != 0
                &&& r matches Some(v) ==> v@ == rec_value(old(self).values@, p)
                &&& final(self).meta.meta == if p == 0 {
                    old(self).meta.meta
                } else {
                    old(self).meta_after_delete(p)
                }
                &&& final(self).values@ == if p == 0 {
                    old(self).values@
                } else {
                    zeroed(old(self).values@, p - 1, rec_extent(old(self).values@, p))
                }
            }),
    {
        let ghost (l0, i0) = choose|level: int, idx: int|
            old(self).is_slot(level, idx) && slot_addr == old(self).slot_off(level, idx);
        proof {
            old(self).lemma_slot_in_keymap(l0, i0);
        }
        let val_addr = self.keymap.r_u64(slot_addr);
        self.km_deallocate(slot_addr, Self::KEYMAP_ENTRY_SIZE_BYTES);
        let ghost mid = *self;
        proof {
            reveal(LevelHashIO::slot_ptr);
            assert(old(self).slot_ptr(l0, i0) == val_addr);
            assert(same_outside(old(self).keymap.map@, mid.keymap.map@, slot_addr as int, 8));
            assert(u64_at(mid.keymap.map@, slot_addr as int) == 0);
            Self::lemma_slot_write(old(self), &mid, slot_addr as int, 0);
            Self::lemma_slot_cleared(old(self), &mid, slot_addr as int);
        }
        let r = self.delete_at(val_addr, None, read_value);
        proof {
            assert forall|level: int, idx: int| old(self).is_slot(level, idx) implies if old(self).slot_off(
                level,
                idx,
            ) == slot_addr {
                self.slot_ptr(level, idx) == 0 && self.entry_at(level, idx) == None::<Entry>
            } else {
                self.slot_ptr(level, idx) == old(self).slot_ptr(level, idx) && self.entry_at(level, idx)
                    == old(self).entry_at(level, idx)
            } by {
                assert(mid.is_slot(level, idx));
                assert(self.slot_ptr(level, idx) == mid.slot_ptr(level, idx));
                assert(self.entry_at(level, idx) == mid.entry_at(level, idx));
            }
        }
        r
    }
}

} // verus!
