use vstd::prelude::*;
use crate::io::resized;
use crate::io::same_within;
use crate::io::zeroed;
use crate::io::MappedFile;
use crate::level_io::lemma_slot_index;
use crate::level_io::Entry;
use crate::level_io::LevelHashIO;
use crate::meta::lemma_bucket_counts;
use crate::meta::LEVEL_SIZE_MAX;
use crate::reprs::LevelMeta;
use crate::result::LevelMapError;
use crate::result::LevelResult;
use crate::types::BucketIdxT;
use crate::types::LevelIdxT;
use crate::types::OffT;
use crate::types::SlotIdxT;

verus! {

impl LevelHashIO {
    /// Whether `self` is `before` with the pointer of the slot at the
    /// offset `from` moved to the slot at the offset `to`: that slot holds
    /// and stands for what the first one did, the first one is empty, and
    /// every other slot holds and stands for what it did.
    pub open spec fn slot_moved(&self, before: &LevelHashIO, from: (int, int), to: (int, int)) -> bool {
        forall|level: int, idx: int|
            #![trigger self.slot_ptr(level, idx)]
            #![trigger self.entry_at(level, idx)]
            before.is_slot(level, idx) ==> if (level, idx) == to {
                self.slot_ptr(level, idx) == before.slot_ptr(from.0, from.1) && self.entry_at(level, idx)
                    == before.entry_at(from.0, from.1)
            } else if (level, idx) == from {
                self.slot_ptr(level, idx) == 0 && self.entry_at(level, idx) == None::<Entry>
            } else {
                self.slot_ptr(level, idx) == before.slot_ptr(level, idx) && self.entry_at(level, idx)
                    == before.entry_at(level, idx)
            }
    }

    /// Whether `self` is `before` with the entry of the slot `from` moved to
    /// the slot `to`, and a new entry in its place: the slot `to` holds and
    /// stands for what the slot `from` did, the slot `from` holds `ptr` and
    /// stands for `entry`, and every other slot holds and stands for what
    /// it did.
    pub open spec fn displaced(
        &self,
        before: &LevelHashIO,
        from: (int, int),
        to: (int, int),
        ptr: int,
        entry: Entry,
    ) -> bool {
        forall|level: int, idx: int|
            #![trigger self.slot_ptr(level, idx)]
            #![trigger self.entry_at(level, idx)]
            before.is_slot(level, idx) ==> if (level, idx) == to {
                self.slot_ptr(level, idx) == before.slot_ptr(from.0, from.1) && self.entry_at(level, idx)
                    == before.entry_at(from.0, from.1)
            } else if (level, idx) == from {
                self.slot_ptr(level, idx) == ptr && self.entry_at(level, idx) == Some(entry)
            } else {
                self.slot_ptr(level, idx) == before.slot_ptr(level, idx) && self.entry_at(level, idx)
                    == before.entry_at(level, idx)
            }
    }

    /// An entry that is moved to another slot, and a new entry that is then
    /// put into its slot, displace the first entry.
    pub proof fn lemma_displaced(
        a: &LevelHashIO,
        m: &LevelHashIO,
        b: &LevelHashIO,
        from: (int, int),
        to: (int, int),
        ptr: int,
        entry: Entry,
    )
        requires
            a.geometry_wf(),
            m.same_geometry(a),
            a.is_slot(from.0, from.1),
            a.is_slot(to.0, to.1),
            from != to,
            m.slot_moved(a, from, to),
            b.slot_set(m, m.slot_off(from.0, from.1), ptr, Some(entry)),
        ensures
            b.displaced(a, from, to, ptr, entry),
    {
        assert forall|level: int, idx: int| a.is_slot(level, idx) implies if (level, idx) == to {
            b.slot_ptr(level, idx) == a.slot_ptr(from.0, from.1) && b.entry_at(level, idx) == a.entry_at(
                from.0,
                from.1,
            )
        } else if (level, idx) == from {
            b.slot_ptr(level, idx) == ptr && b.entry_at(level, idx) == Some(entry)
        } else {
            b.slot_ptr(level, idx) == a.slot_ptr(level, idx) && b.entry_at(level, idx) == a.entry_at(
                level,
                idx,
            )
        } by {
            assert(m.is_slot(level, idx));
            if (level, idx) != from {
                a.lemma_slot_offsets_apart(level, idx, from.0, from.1);
                assert(b.slot_ptr(level, idx) == m.slot_ptr(level, idx));
                assert(b.entry_at(level, idx) == m.entry_at(level, idx));
            }
        }
    }

    /// An index stays consistent where the pointer of one slot is moved to
    /// an empty slot.
    pub proof fn lemma_slot_moved(a: &LevelHashIO, b: &LevelHashIO, from: (int, int), to: (int, int))
        requires
            a.wf(),
            a.is_slot(from.0, from.1),
            a.is_slot(to.0, to.1),
            a.slot_ptr(to.0, to.1) == 0,
            a.slot_ptr(from.0, from.1) != 0,
            b.same_geometry(a),
            b.keymap.wf(),
            b.values == a.values,
            b.meta == a.meta,
            forall|level: int, idx: int|
                #![trigger b.slot_ptr(level, idx)]
                a.is_slot(level, idx) ==> b.slot_ptr(level, idx) == if (level, idx) == to {
                    a.slot_ptr(from.0, from.1)
                } else if (level, idx) == from {
                    0
                } else {
                    a.slot_ptr(level, idx)
                },
        ensures
            b.wf(),
            b.slot_moved(a, from, to),
    {
        assert(b.slot_moved(a, from, to));
        assert forall|l1: int, i1: int, l2: int, i2: int|
            b.is_slot(l1, i1) && b.is_slot(l2, i2) && (l1 != l2 || i1 != i2) && b.slot_ptr(l1, i1) != 0
                && b.slot_ptr(l2, i2) != 0 implies b.apart(b.slot_ptr(l1, i1), b.slot_ptr(l2, i2)) by {
            assert(a.is_slot(l1, i1) && a.is_slot(l2, i2));
            let s1 = if (l1, i1) == to {
                from
            } else {
                (l1, i1)
            };
            let s2 = if (l2, i2) == to {
                from
            } else {
                (l2, i2)
            };
            assert(b.slot_ptr(l1, i1) == a.slot_ptr(s1.0, s1.1));
            assert(b.slot_ptr(l2, i2) == a.slot_ptr(s2.0, s2.1));
            assert(a.apart(a.slot_ptr(s1.0, s1.1), a.slot_ptr(s2.0, s2.1)));
        }
    }

    /// Moves the entry of one slot to another slot, which must be empty:
    /// the pointer goes from the first slot to the second, the record stays
    /// where it is. Returns whether the entry was moved: it is not where
    /// the first slot is empty or the second is not.
    pub fn move_slot(
        &mut self,
        level: LevelIdxT,
        bucket: BucketIdxT,
        slot: SlotIdxT,
        to_level: LevelIdxT,
        to_bucket: BucketIdxT,
        to_slot: SlotIdxT,
    ) -> (r: bool)
        requires
            old(self).wf(),
            level <= 1,
            bucket < old(self).buckets(level as int),
            slot < old(self).bucket_size(),
            to_level <= 1,
            to_bucket < old(self).buckets(to_level as int),
            to_slot < old(self).bucket_size(),
        ensures
            ({
                let from = (level as int, bucket * old(self).bucket_size() + slot);
                let to = (to_level as int, to_bucket * old(self).bucket_size() + to_slot);
                &&& r == (old(self).slot_ptr(from.0, from.1) != 0 && old(self).slot_ptr(to.0, to.1) == 0)
                &&& !r ==> *final(self) == *old(self)
                &&& r ==> {
                    &&& final(self).wf()
                    &&& final(self).same_geometry(old(self))
                    &&& final(self).values == old(self).values
                    &&& final(self).meta == old(self).meta
                    &&& final(self).slot_moved(old(self), from, to)
                }
            }),
    {
        let ghost from = (level as int, bucket * self.bucket_size() + slot);
        let ghost to = (to_level as int, to_bucket * self.bucket_size() + to_slot);
        let (s_slot_addr, s_val_addr) = self.slot_and_val_addr_at(level, bucket, slot);
        let (d_slot_addr, d_val_addr) = self.slot_and_val_addr_at(to_level, to_bucket, to_slot);
        if d_val_addr.is_some() || s_val_addr.is_none() {
            return false;
        }
        let e_val_addr = s_val_addr.unwrap();
        proof {
            self.lemma_sizes();
            lemma_slot_index(self.buckets(level as int), self.bucket_size(), bucket as int, slot as int);
            lemma_slot_index(
                self.buckets(to_level as int),
                self.bucket_size(),
                to_bucket as int,
                to_slot as int,
            );
            self.lemma_slot_in_keymap(from.0, from.1);
            self.lemma_slot_in_keymap(to.0, to.1);
            assert(self.is_slot_addr(d_slot_addr as int));
            assert(self.is_slot_addr(s_slot_addr as int));
        }
        self.km_write_addr(d_slot_addr, e_val_addr);
        let ghost mid = *self;
        proof {
            Self::lemma_slot_write(old(self), &mid, d_slot_addr as int, e_val_addr as int);
            assert(mid.geometry_wf());
            assert(mid.is_slot_addr(s_slot_addr as int)) by {
                assert(mid.is_slot(from.0, from.1) && s_slot_addr == mid.slot_off(from.0, from.1));
            }
        }
        self.km_write_addr(s_slot_addr, 0);
        proof {
            Self::lemma_slot_write(&mid, self, s_slot_addr as int, 0);
            assert forall|l: int, i: int| old(self).is_slot(l, i) implies self.slot_ptr(l, i) == if (l, i) == to {
                old(self).slot_ptr(from.0, from.1)
            } else if (l, i) == from {
                0
            } else {
                old(self).slot_ptr(l, i)
            } by {
                assert(mid.is_slot(l, i));
                if (l, i) != from {
                    old(self).lemma_slot_offsets_apart(l, i, from.0, from.1);
                }
                if (l, i) != to {
                    old(self).lemma_slot_offsets_apart(l, i, to.0, to.1);
                }
            }
            Self::lemma_slot_moved(old(self), self, from, to);
        }
        true
    }

    /// Whether every slot of the interim level is empty.
    pub open spec fn interim_empty(&self) -> bool {
        forall|idx: int|
            #![trigger self.interim_ptr(idx)]
            0 <= idx < self.interim_slots() ==> self.interim_ptr(idx) == 0
    }

    /// Whether the keymap region can take the interim level: the region can
    /// be mapped at the size that it then has.
    pub open spec fn can_prepare_interim(&self) -> bool {
        &&& self.keymap.size + 8 * self.interim_slots() <= u64::MAX
        &&& MappedFile::mappable(
            Self::KEYMAP_HEADER_SIZE_BYTES,
            (self.keymap.size + 8 * self.interim_slots()) as u64,
        )
    }

    /// Prepare the interim level for the given number of buckets, which is
    /// twice the number of buckets of the top level. The interim level is
    /// added behind the end of the keymap region, and all its slots are
    /// empty.
    pub fn prepare_interim(&mut self, bucket_count: u32) -> (r: LevelResult<(), LevelMapError>)
        requires
            old(self).wf(),
            old(self).meta.meta.km_level_size < LEVEL_SIZE_MAX,
            bucket_count == 2 * old(self).buckets(0),
        ensures
            r is Ok <==> old(self).can_prepare_interim(),
            r is Err ==> *final(self) == *old(self),
            r is Ok ==> {
                &&& final(self).expanding()
                &&& final(self).interim_lvl_addr == Some(old(self).keymap.size)
                &&& final(self).keymap.size == old(self).keymap.size + 8 * old(self).interim_slots()
                &&& final(self).interim_empty()
                &&& same_within(old(self).keymap@, final(self).keymap@, 0, old(self).keymap.size as int)
                &&& final(self).meta == old(self).meta
                &&& final(self).values == old(self).values
                &&& final(self).slots_kept(old(self))
            },
    {
        proof {
            self.lemma_sizes();
            let n = self.buckets(0);
            let b = self.bucket_size();
            assert(2 * n * b == 2 * (n * b)) by (nonlinear_arith);
            assert(bucket_count * b * 8 == 8 * (2 * (n * b))) by (nonlinear_arith)
                requires
                    bucket_count == 2 * n,
            ;
            assert(0 <= bucket_count * b <= 0x200_0000 * 255) by (nonlinear_arith)
                requires
                    0 <= bucket_count <= 0x200_0000,
                    0 <= b <= 255,
            ;
        }
        let interim_size: OffT = bucket_count as OffT * self.meta.read().km_bucket_size as OffT
            * Self::KEYMAP_ENTRY_SIZE_BYTES;

        // ensure the keymap can accomodate the interim level
        let len = self.keymap.size;
        if interim_size > u64::MAX - len {
            return Err(crate::io::map_failure());
        }
        self.km_resize(len + interim_size)?;
        self.interim_lvl_addr = Some(len);
        proof {
            reveal(LevelHashIO::slot_ptr);
            reveal(LevelHashIO::interim_ptr);
            assert(self.slots_kept(old(self)));
            assert(self.interim_empty());
            assert forall|l1: int, i1: int, l2: int, i2: int|
                self.is_slot(l1, i1) && self.is_slot(l2, i2) && (l1 != l2 || i1 != i2) && self.slot_ptr(l1, i1)
                    != 0 && self.slot_ptr(l2, i2) != 0 implies self.apart(
                self.slot_ptr(l1, i1),
                self.slot_ptr(l2, i2),
            ) by {
                assert(old(self).is_slot(l1, i1) && old(self).is_slot(l2, i2));
                assert(old(self).apart(old(self).slot_ptr(l1, i1), old(self).slot_ptr(l2, i2)));
            }
        }
        Ok(())
    }

    /// Move the given slot to the interim level, returning `true` if the move was successful: the
    /// slot of the interim level gets the pointer of the given slot, which
    /// keeps it. The move fails where the slot of the interim level is taken.
    pub fn move_to_interim(
        &mut self,
        level: LevelIdxT,
        bucket: BucketIdxT,
        slot: SlotIdxT,
        interim_bucket: BucketIdxT,
        interim_slot: SlotIdxT,
    ) -> (r: bool)
        requires
            old(self).expanding(),
            level <= 1,
            bucket < old(self).buckets(level as int),
            slot < old(self).bucket_size(),
            interim_bucket < 2 * old(self).buckets(0),
            interim_slot < old(self).bucket_size(),
        ensures
            ({
                let idx = bucket * old(self).bucket_size() + slot;
                let to = interim_bucket * old(self).bucket_size() + interim_slot;
                &&& r == (old(self).interim_ptr(to) == 0)
                &&& !r ==> *final(self) == *old(self)
                &&& r ==> {
                    &&& final(self).expanding()
                    &&& final(self).same_geometry(old(self))
                    &&& final(self).values == old(self).values
                    &&& final(self).meta == old(self).meta
                    &&& final(self).slots_kept(old(self))
                    &&& same_within(old(self).keymap@, final(self).keymap@, 0, old(self).interim_lvl_addr->0 as int)
                    &&& 0 <= to < old(self).interim_slots()
                    &&& forall|i: int|
                        #![trigger final(self).interim_ptr(i)]
                        0 <= i < old(self).interim_slots() ==> final(self).interim_ptr(i) == if i == to {
                            old(self).slot_ptr(level as int, idx)
                        } else {
                            old(self).interim_ptr(i)
                        }
                }
            }),
    {
        let ghost idx = bucket * self.bucket_size() + slot;
        let ghost to = interim_bucket * self.bucket_size() + interim_slot;
        proof {
            self.lemma_sizes();
            lemma_slot_index(self.buckets(level as int), self.bucket_size(), bucket as int, slot as int);
            lemma_slot_index(2 * self.buckets(0), self.bucket_size(), interim_bucket as int, interim_slot as int);
            assert(2 * self.buckets(0) * self.bucket_size() == self.interim_slots()) by (nonlinear_arith)
                requires
                    self.slots(0) == self.buckets(0) * self.bucket_size(),
                    self.interim_slots() == 2 * self.slots(0),
            ;
            reveal(LevelHashIO::slot_ptr);
            reveal(LevelHashIO::interim_ptr);
        }
        let interim_lvl = self.interim_lvl_addr.unwrap();

        // current (source) slot
        let s_slot_addr = self.slot_addr(level, bucket, slot);

        // destination slot
        let d_slot_addr = self.slot_addr_for_lvl_addr(interim_lvl, interim_bucket, interim_slot);

        let d_val_addr = self.keymap.r_u64(d_slot_addr);
        if d_val_addr > Self::POS_INVALID {
            // this slot is occupied
            return false;
        }
        // as the values in the keymap are just pointers to the actual value entries
        // in the values file, we just need to update the destination slot to point
        // where the source slot points to
        let e_val_addr = self.km_read_addr(s_slot_addr);
        self.km_write_addr(d_slot_addr, e_val_addr);
        proof {
            assert(self.slots_kept(old(self)));
            assert forall|i: int| 0 <= i < old(self).interim_slots() implies self.interim_ptr(i) == if i == to {
                old(self).slot_ptr(level as int, idx)
            } else {
                old(self).interim_ptr(i)
            } by {}
            assert forall|l1: int, i1: int, l2: int, i2: int|
                self.is_slot(l1, i1) && self.is_slot(l2, i2) && (l1 != l2 || i1 != i2) && self.slot_ptr(l1, i1)
                    != 0 && self.slot_ptr(l2, i2) != 0 implies self.apart(
                self.slot_ptr(l1, i1),
                self.slot_ptr(l2, i2),
            ) by {
                assert(old(self).is_slot(l1, i1) && old(self).is_slot(l2, i2));
                assert(old(self).apart(old(self).slot_ptr(l1, i1), old(self).slot_ptr(l2, i2)));
            }
            assert forall|i: int| 0 <= i < self.interim_slots() implies self.interim_ptr(i) == 0 || self.live(
                self.interim_ptr(i),
            ) by {
                if i == to {
                    assert(old(self).is_slot(level as int, idx));
                    assert(old(self).slot_ptr(level as int, idx) == 0 || old(self).live(
                        old(self).slot_ptr(level as int, idx),
                    ));
                } else {
                    assert(old(self).interim_ptr(i) == 0 || old(self).live(old(self).interim_ptr(i)));
                }
            }
        }
        true
    }

    /// Whether the interim level can take the place of the top level: no
    /// two of its slots point to records that share a byte, and none of
    /// them to a record that shares a byte with one of the top level.
    pub open spec fn interim_sound(&self) -> bool {
        &&& forall|i: int, j: int|
            #![trigger self.interim_ptr(i), self.interim_ptr(j)]
            0 <= i < self.interim_slots() && 0 <= j < self.interim_slots() && i != j && self.interim_ptr(i)
                != 0 && self.interim_ptr(j) != 0 ==> self.apart(self.interim_ptr(i), self.interim_ptr(j))
        &&& forall|i: int, k: int|
            #![trigger self.interim_ptr(i), self.slot_ptr(0, k)]
            0 <= i < self.interim_slots() && self.is_slot(0, k) && self.interim_ptr(i) != 0 && self.slot_ptr(
                0,
                k,
            ) != 0 ==> self.apart(self.interim_ptr(i), self.slot_ptr(0, k))
    }

    /// Whether `self` is `before` with its expansion committed: the interim
    /// level of `before` is the top level, and the top level of `before` is
    /// the bottom level.
    pub open spec fn committed(&self, before: &LevelHashIO) -> bool {
        &&& self.meta.meta.km_level_size == before.meta.meta.km_level_size + 1
        &&& self.meta.meta.km_l0_addr == before.interim_lvl_addr->0
        &&& self.meta.meta.km_l1_addr == before.meta.meta.km_l0_addr
        &&& self.slots(0) == before.interim_slots()
        &&& self.slots(1) == before.slots(0)
        &&& forall|idx: int|
            #![trigger self.slot_ptr(0, idx)]
            0 <= idx < before.interim_slots() ==> self.slot_ptr(0, idx) == before.interim_ptr(idx)
        &&& forall|idx: int|
            #![trigger self.slot_ptr(1, idx)]
            0 <= idx < before.slots(0) ==> self.slot_ptr(1, idx) == before.slot_ptr(0, idx)
    }

    /// Finalize the expansion of the level hash. This updates the level metadata with the updated
    /// values of the level addresses in the keymap file: the current top level becomes the new
    /// bottom level, and the interim level becomes the new top level. The
    /// blocks of the old bottom level are given back.
    pub fn commit_interim(&mut self, new_level_size: u8)
        requires
            old(self).expanding(),
            old(self).interim_sound(),
            new_level_size == old(self).meta.meta.km_level_size + 1,
        ensures
            final(self).wf(),
            final(self).committed(old(self)),
            final(self).values == old(self).values,
            final(self).keymap.size == old(self).keymap.size,
            final(self).keymap@ == zeroed(
                old(self).keymap@,
                old(self).meta.meta.km_l1_addr as int,
                8 * old(self).slots(1),
            ),
            final(self).meta.meta == (LevelMeta {
                km_level_size: new_level_size,
                km_l0_addr: old(self).interim_lvl_addr->0,
                km_l1_addr: old(self).meta.meta.km_l0_addr,
                ..old(self).meta.meta
            }),
    {
        proof {
            self.lemma_sizes();
            lemma_bucket_counts(self.meta.meta.km_level_size);
            let n = self.buckets(0);
            let b = self.bucket_size();
            assert((2 * n) * b == 2 * (n * b)) by (nonlinear_arith);
        }
        let interim = self.interim_lvl_addr.unwrap();
        let l1_bytes: OffT = (self.bucket_count(1) as OffT) * (self.meta.read().km_bucket_size as OffT)
            * Self::KEYMAP_ENTRY_SIZE_BYTES;
        let meta = self.meta.write();
        let l0_addr = meta.km_l0_addr;
        let l1_addr = meta.km_l1_addr;

        // update the level size
        meta.km_level_size = new_level_size;

        // current top level becomes the new bottom level
        // and interim level becomes the new top level
        meta.km_l1_addr = l0_addr;
        meta.km_l0_addr = interim;
        self.interim_lvl_addr = None;

        self.km_deallocate(l1_addr, l1_bytes);
        proof {
            reveal(LevelHashIO::slot_ptr);
            reveal(LevelHashIO::interim_ptr);
            let a = old(self);
            assert(self.slots(0) == a.interim_slots());
            assert(self.slots(1) == a.slots(0));
            assert(self.committed(a));
            assert(self.geometry_wf());
            assert forall|level: int, idx: int| self.is_slot(level, idx) implies self.slot_ptr(level, idx) == 0
                || self.live(self.slot_ptr(level, idx)) by {
                if level == 0 {
                    assert(a.interim_ptr(idx) == 0 || a.live(a.interim_ptr(idx)));
                } else {
                    assert(a.is_slot(0, idx));
                    assert(a.slot_ptr(0, idx) == 0 || a.live(a.slot_ptr(0, idx)));
                }
            }
            assert forall|l1: int, i1: int, l2: int, i2: int|
                self.is_slot(l1, i1) && self.is_slot(l2, i2) && (l1 != l2 || i1 != i2) && self.slot_ptr(l1, i1)
                    != 0 && self.slot_ptr(l2, i2) != 0 implies self.apart(
                self.slot_ptr(l1, i1),
                self.slot_ptr(l2, i2),
            ) by {
                if l1 == 0 && l2 == 0 {
                    assert(a.apart(a.interim_ptr(i1), a.interim_ptr(i2)));
                } else if l1 == 0 {
                    assert(a.is_slot(0, i2));
                    assert(a.apart(a.interim_ptr(i1), a.slot_ptr(0, i2)));
                } else if l2 == 0 {
                    assert(a.is_slot(0, i1));
                    assert(a.apart(a.interim_ptr(i2), a.slot_ptr(0, i1)));
                } else {
                    assert(a.is_slot(0, i1) && a.is_slot(0, i2));
                    assert(a.apart(a.slot_ptr(0, i1), a.slot_ptr(0, i2)));
                }
            }
        }
    }

    /// Gives an expansion up: the interim level is cut off the keymap
    /// region, and the two levels stay what they were.
    pub fn abort_interim(&mut self)
        requires
            old(self).expanding(),
        ensures
            final(self).wf(),
            final(self).meta == old(self).meta,
            final(self).values == old(self).values,
            final(self).keymap.size == old(self).interim_lvl_addr->0,
            final(self).keymap@ == resized(old(self).keymap@, old(self).interim_lvl_addr->0 as int),
            final(self).slots_kept(old(self)),
    {
        let interim = self.interim_lvl_addr.unwrap();
        let r = self.km_resize(interim);
        assert(r is Ok);
        self.interim_lvl_addr = None;
        proof {
            reveal(LevelHashIO::slot_ptr);
            assert(self.slots_kept(old(self)));
            assert forall|l1: int, i1: int, l2: int, i2: int|
                self.is_slot(l1, i1) && self.is_slot(l2, i2) && (l1 != l2 || i1 != i2) && self.slot_ptr(l1, i1)
                    != 0 && self.slot_ptr(l2, i2) != 0 implies self.apart(
                self.slot_ptr(l1, i1),
                self.slot_ptr(l2, i2),
            ) by {
                assert(old(self).is_slot(l1, i1) && old(self).is_slot(l2, i2));
                assert(old(self).apart(old(self).slot_ptr(l1, i1), old(self).slot_ptr(l2, i2)));
            }
        }
    }
}

} // verus!
