use vstd::prelude::*;
use crate::io::map_failure;
use crate::level_hash::Level;
use crate::level_hash::LevelHash;
use crate::level_io::lemma_slot_index;
use crate::level_io::ValEntryReadExt;
use crate::result::LevelInsertionError;
use crate::result::LevelInsertionResult;
use crate::types::BucketIdxT;
use crate::types::SlotIdxT;

verus! {

/// Where a new entry goes.
pub enum Placement {
    /// Into the slot with the index `idx` of the level `level`, which is
    /// empty.
    Direct { level: int, idx: int },
    /// Into the slot with the index `from` of the level `level`, whose
    /// entry moves to the slot with the index `to` of the same level.
    Moved { level: int, from: int, to: int },
    /// Into the slot with the index `from` of the bottom level, whose entry
    /// moves to the slot with the index `to` of the top level.
    Raised { from: int, to: int },
}

impl<H1: Fn(u64, &[u8]) -> u64, H2: Fn(u64, &[u8]) -> u64> LevelHash<H1, H2> {
    /// The first slot of the bucket `bucket` of the level `level`, from the
    /// slot `i` of the bucket on, whose entry can move to its other bucket.
    pub open spec fn first_mover(&self, level: int, bucket: int, i: int) -> Option<int>
        decreases self.io.bucket_size() - i,
    {
        if i >= self.io.bucket_size() {
            None
        } else if self.free_in(level, self.alt_bucket(level, bucket, bucket * self.io.bucket_size() + i)) {
            Some(bucket * self.io.bucket_size() + i)
        } else {
            self.first_mover(level, bucket, i + 1)
        }
    }

    /// The slot to which the entry of the slot `idx` of the bucket `bucket`
    /// moves within the level `level`: the first empty slot of its other
    /// bucket.
    pub open spec fn mover_target(&self, level: int, bucket: int, idx: int) -> int {
        self.first_free(
            level,
            self.alt_bucket(level, bucket, idx),
            self.alt_bucket(level, bucket, idx),
            0,
        ).unwrap()
    }

    /// The first slot of the bucket `bucket` of the bottom level, from the
    /// slot `i` of the bucket on, whose entry can move to the top level.
    pub open spec fn first_riser(&self, bucket: int, i: int) -> Option<int>
        decreases self.io.bucket_size() - i,
    {
        if i >= self.io.bucket_size() {
            None
        } else if self.has_room_above(bucket * self.io.bucket_size() + i) {
            Some(bucket * self.io.bucket_size() + i)
        } else {
            self.first_riser(bucket, i + 1)
        }
    }

    /// The slot of the top level to which the entry of the slot `idx` of
    /// the bottom level moves: the first empty slot among those that its
    /// key may take there.
    pub open spec fn riser_target(&self, idx: int) -> int {
        self.first_free(
            0,
            self.first_bucket(0, self.key_at(1, idx)),
            self.second_bucket(0, self.key_at(1, idx)),
            0,
        ).unwrap()
    }

    /// Where an entry that moves within the level `level` makes room for an
    /// entry with the key `key`: in the first bucket of the key where one
    /// of its entries can move, else in the second.
    pub open spec fn moved_in(&self, level: int, key: Seq<u8>) -> Placement {
        let bucket = if self.movable_from(level, self.first_bucket(level, key)) {
            self.first_bucket(level, key)
        } else {
            self.second_bucket(level, key)
        };
        let from = self.first_mover(level, bucket, 0).unwrap();
        Placement::Moved { level, from, to: self.mover_target(level, bucket, from) }
    }

    /// Where an entry with the key `key` goes, if there is a slot for it.
    /// An empty slot among those that the key may take comes first, in the
    /// top level before the bottom level. Then comes the slot of an entry
    /// that can move to its other bucket, in the top level before the
    /// bottom level, and last the slot of an entry of the bottom level that
    /// can move to the top level.
    pub open spec fn placement(&self, key: Seq<u8>) -> Option<Placement> {
        if self.direct_in(0, key) {
            Some(
                Placement::Direct {
                    level: 0,
                    idx: self.first_free(0, self.first_bucket(0, key), self.second_bucket(0, key), 0).unwrap(),
                },
            )
        } else if self.direct_in(1, key) {
            Some(
                Placement::Direct {
                    level: 1,
                    idx: self.first_free(1, self.first_bucket(1, key), self.second_bucket(1, key), 0).unwrap(),
                },
            )
        } else if self.movable_in(0, key) {
            Some(self.moved_in(0, key))
        } else if self.movable_in(1, key) {
            Some(self.moved_in(1, key))
        } else if self.rehomable(key) {
            let bucket = if self.rehomable_from(self.first_bucket(1, key)) {
                self.first_bucket(1, key)
            } else {
                self.second_bucket(1, key)
            };
            let from = self.first_riser(bucket, 0).unwrap();
            Some(Placement::Raised { from, to: self.riser_target(from) })
        } else {
            None
        }
    }

    /// Whether `self` is `before` with an entry of `key` and `value` put
    /// where `place` says: the record of the entry is the one at the place
    /// of the next record of `before`.
    pub open spec fn placed_as(&self, before: &Self, place: Placement, key: Seq<u8>, value: Seq<u8>) -> bool {
        let ptr = before.io.meta.meta.val_next_addr as int;
        match place {
            Placement::Direct { level, idx } => self.io.slot_set(
                &before.io,
                before.io.slot_off(level, idx),
                ptr,
                Some((key, value)),
            ),
            Placement::Moved { level, from, to } => self.io.displaced(
                &before.io,
                (level, from),
                (level, to),
                ptr,
                (key, value),
            ),
            Placement::Raised { from, to } => self.io.displaced(&before.io, (1, from), (0, to), ptr, (key, value)),
        }
    }

    /// Try to make room for `key` in the bucket `bucket` of the level
    /// `level`, all of whose slots are taken: the first entry of the bucket
    /// whose other bucket in the level has an empty slot moves there, and an
    /// entry of `key` and `value` takes its slot.
    pub fn try_movement(&mut self, level: Level, bucket: BucketIdxT, bucket_size: SlotIdxT, key: &[u8], value: &[u8]) -> (r:
        LevelInsertionResult)
        requires
            old(self).wf(),
            bucket < old(self).io.buckets(level.spec_index()),
            bucket_size == old(self).io.bucket_size(),
            bucket == old(self).first_bucket(level.spec_index(), key@) || bucket == old(self).second_bucket(
                level.spec_index(),
                key@,
            ),
            old(self).full_bucket(level.spec_index(), bucket as int),
            old(self).unique_keys ==> !old(self).holds(key@),
            0 < key@.len() <= u32::MAX,
            value@.len() <= u32::MAX,
        ensures
            ({
                let movable = old(self).movable_from(level.spec_index(), bucket as int);
                let fits = old(self).io.can_append(key@.len() as int, value@.len() as int);
                &&& r is Ok <==> movable && fits
                &&& r is Ok ==> final(self).grown_by(old(self), key@, value@)
                &&& r is Err ==> *final(self) == *old(self)
                &&& (r matches Err(LevelInsertionError::MovementFailure)) <==> !movable
                &&& (r matches Err(LevelInsertionError::MmapError(_))) <==> movable && !fits
                &&& movable <==> old(self).first_mover(level.spec_index(), bucket as int, 0) is Some
                &&& r is Ok ==> final(self).io.displaced(
                    &old(self).io,
                    (level.spec_index(), old(self).first_mover(level.spec_index(), bucket as int, 0).unwrap()),
                    (
                        level.spec_index(),
                        old(self).mover_target(
                            level.spec_index(),
                            bucket as int,
                            old(self).first_mover(level.spec_index(), bucket as int, 0).unwrap(),
                        ),
                    ),
                    old(self).io.meta.meta.val_next_addr as int,
                    (key@, value@),
                )
            }),
    {
        let ghost lvl = level.spec_index();
        let ghost b = self.io.bucket_size();
        proof {
            self.io.lemma_sizes();
        }
        let mut i: SlotIdxT = 0;
        while i < bucket_size
            invariant
                *self == *old(self),
                self.wf(),
                lvl == level.spec_index(),
                b == self.io.bucket_size(),
                bucket < self.io.buckets(lvl),
                bucket_size == b,
                self.full_bucket(lvl, bucket as int),
                bucket == self.first_bucket(lvl, key@) || bucket == self.second_bucket(lvl, key@),
                self.unique_keys ==> !self.holds(key@),
                0 < key@.len() <= u32::MAX,
                value@.len() <= u32::MAX,
                i <= bucket_size,
                forall|idx: int|
                    bucket * b <= idx < bucket * b + i ==> !#[trigger] self.free_in(
                        lvl,
                        self.alt_bucket(lvl, bucket as int, idx),
                    ),
                self.first_mover(lvl, bucket as int, 0) == self.first_mover(lvl, bucket as int, i as int),
            decreases bucket_size - i,
        {
            let ghost idx = bucket * b + i;
            proof {
                lemma_slot_index(self.io.buckets(lvl), b, bucket as int, i as int);
                assert(self.in_bucket(idx, bucket as int));
                assert(self.io.slot_ptr(lvl, idx) != 0);
                self.io.lemma_slot_live(lvl, idx);
            }
            let this_entry = self.io.val_entry_for_slot(level.index(), bucket, i).unwrap();
            let this_key = this_entry.key(&self.io.values);
            assert(this_key@ == self.key_at(lvl, idx));

            let fhash = self.fhash(this_key.as_slice());
            let shash = self.shash(this_key.as_slice());

            let fidx = self.buck_idx_lvl(fhash, level);
            let sidx = self.buck_idx_lvl(shash, level);
            let jidx = if fidx == bucket {
                sidx
            } else {
                fidx
            };
            assert(jidx == self.alt_bucket(lvl, bucket as int, idx));
            if let Some((_, j)) = self.find_free_pair(level, jidx, jidx) {
                assert(self.movable_from(lvl, bucket as int));
                if !self.io.check_append(key.len(), value.len()) {
                    return Err(LevelInsertionError::MmapError(map_failure()));
                }
                assert(self.may_take(lvl, jidx * b + j, self.key_at(lvl, idx))) by {
                    assert(self.in_bucket(jidx * b + j, jidx as int));
                }
                assert(self.first_mover(lvl, bucket as int, 0) == Some(idx));
                assert(self.mover_target(lvl, bucket as int, idx) == jidx * b + j);
                self.relocate(level, bucket, i, level, jidx, j);
                let ghost mid = *self;
                proof {
                    Self::lemma_same_buckets(old(self), self, lvl, key@);
                    lemma_slot_index(self.io.buckets(lvl), b, jidx as int, j as int);
                }
                let placed = self.place_at(level, bucket, i, key, value);
                assert(placed is Ok);
                proof {
                    crate::level_io::LevelHashIO::lemma_displaced(
                        &old(self).io,
                        &mid.io,
                        &self.io,
                        (lvl, idx),
                        (lvl, jidx * b + j),
                        old(self).io.meta.meta.val_next_addr as int,
                        (key@, value@),
                    );
                }
                return placed;
            }
            i += 1;
        }
        proof {
            if self.movable_from(lvl, bucket as int) {
                let idx = choose|idx: int|
                    self.in_bucket(idx, bucket as int) && #[trigger] self.free_in(
                        lvl,
                        self.alt_bucket(lvl, bucket as int, idx),
                    );
                assert(false);
            }
        }
        return Err(LevelInsertionError::MovementFailure);
    }

    /// Try to make room in the bucket `bucket` of the bottom level, all of
    /// whose slots are taken: the first entry of the bucket for which the
    /// top level has an empty slot moves there. Returns the slot that the
    /// entry has left.
    pub fn b2t_movement(&mut self, bucket: BucketIdxT, bucket_size: SlotIdxT) -> (r: Option<SlotIdxT>)
        requires
            old(self).wf(),
            bucket < old(self).io.buckets(1),
            bucket_size == old(self).io.bucket_size(),
            old(self).full_bucket(1, bucket as int),
        ensures
            r is Some <==> old(self).rehomable_from(bucket as int),
            r is None ==> *final(self) == *old(self),
            old(self).first_riser(bucket as int, 0) == match r {
                Some(slot) => Some(bucket * old(self).io.bucket_size() + slot),
                None => None,
            },
            r matches Some(slot) ==> {
                &&& slot < old(self).io.bucket_size()
                &&& old(self).has_room_above(bucket * old(self).io.bucket_size() + slot)
                &&& final(self).rearranged(old(self))
                &&& final(self).io.slot_ptr(1, bucket * old(self).io.bucket_size() + slot) == 0
                &&& forall|key: Seq<u8>| final(self).holds(key) == old(self).holds(key)
                &&& final(self).io.slot_moved(
                    &old(self).io,
                    (1, bucket * old(self).io.bucket_size() + slot),
                    (0, old(self).riser_target(bucket * old(self).io.bucket_size() + slot)),
                )
            },
    {
        let ghost b = self.io.bucket_size();
        proof {
            self.io.lemma_sizes();
        }
        let mut i: SlotIdxT = 0;
        while i < bucket_size
            invariant
                *self == *old(self),
                self.wf(),
                b == self.io.bucket_size(),
                bucket < self.io.buckets(1),
                bucket_size == b,
                self.full_bucket(1, bucket as int),
                self.io.buckets(0) >= 1,
                i <= bucket_size,
                forall|idx: int| bucket * b <= idx < bucket * b + i ==> !#[trigger] self.has_room_above(idx),
                self.first_riser(bucket as int, 0) == self.first_riser(bucket as int, i as int),
            decreases bucket_size - i,
        {
            let ghost idx = bucket * b + i;
            proof {
                lemma_slot_index(self.io.buckets(1), b, bucket as int, i as int);
                assert(self.in_bucket(idx, bucket as int));
                assert(self.io.slot_ptr(1, idx) != 0);
                self.io.lemma_slot_live(1, idx);
            }
            let bottom_entry = self.io.val_entry_for_slot(1, bucket, i).unwrap();
            let bottom_entry_key = bottom_entry.key(&self.io.values);
            assert(bottom_entry_key@ == self.key_at(1, idx));

            let fhash = self.fhash(bottom_entry_key.as_slice());
            let shash = self.shash(bottom_entry_key.as_slice());
            let fidx = self.buck_idx_lvl(fhash, Level::L0);
            let sidx = self.buck_idx_lvl(shash, Level::L0);

            if let Some((to_bucket, j)) = self.find_free_pair(Level::L0, fidx, sidx) {
                assert(self.has_room_above(idx));
                assert(self.rehomable_from(bucket as int));
                self.relocate(Level::L1, bucket, i, Level::L0, to_bucket, j);
                return Some(i);
            }
            i += 1;
        }
        proof {
            if self.rehomable_from(bucket as int) {
                let idx = choose|idx: int| self.in_bucket(idx, bucket as int) && #[trigger] self.has_room_above(idx);
                assert(false);
            }
        }
        return None;
    }

    /// Whether one of the two buckets that `key` may take in the level
    /// `level` has an empty slot.
    pub open spec fn direct_in(&self, level: int, key: Seq<u8>) -> bool {
        self.io.buckets(level) > 0 && (self.free_in(level, self.first_bucket(level, key)) || self.free_in(
            level,
            self.second_bucket(level, key),
        ))
    }

    /// Whether an entry of one of the two buckets that `key` may take in
    /// the level `level` can make room by moving to its other bucket.
    pub open spec fn movable_in(&self, level: int, key: Seq<u8>) -> bool {
        self.io.buckets(level) > 0 && (self.movable_from(level, self.first_bucket(level, key))
            || self.movable_from(level, self.second_bucket(level, key)))
    }

    /// Whether an entry of one of the two buckets that `key` may take in
    /// the bottom level can make room by moving to the top level. Entries
    /// move up only in an index that has expanded.
    pub open spec fn rehomable(&self, key: Seq<u8>) -> bool {
        self.expand_count > 0 && self.io.buckets(1) > 0 && (self.rehomable_from(self.first_bucket(1, key))
            || self.rehomable_from(self.second_bucket(1, key)))
    }

    /// Whether there is a slot for an entry with the key `key`: an empty
    /// one among those that the key may take, or one of them that its entry
    /// can leave, for its other bucket in the level or for the top level.
    pub open spec fn placeable(&self, key: Seq<u8>) -> bool {
        self.direct_in(0, key) || self.direct_in(1, key) || self.movable_in(0, key) || self.movable_in(1, key)
            || self.rehomable(key)
    }

    /// Whether every slot of the index is taken.
    pub open spec fn is_full(&self) -> bool {
        self.occupied() >= self.spec_total_slots()
    }

    /// What `insert_entry` gives on an index `before`, and what it leaves
    /// of it.
    pub open spec fn inserted(&self, before: &Self, key: Seq<u8>, value: Seq<u8>, r: LevelInsertionResult) -> bool {
        let dup = before.unique_keys && before.holds(key);
        let fits = before.io.can_append(key.len() as int, value.len() as int);
        &&& r is Err ==> *self == *before
        &&& r is Ok ==> self.grown_by(before, key, value)
        &&& (r matches Err(LevelInsertionError::LevelOverflow)) <==> before.is_full()
        &&& (r matches Err(LevelInsertionError::DuplicateKey)) <==> !before.is_full() && dup
        &&& (r matches Err(LevelInsertionError::InsertionFailure)) <==> !before.is_full() && !dup
            && !before.placeable(key)
        &&& (r matches Err(LevelInsertionError::MmapError(_))) <==> !before.is_full() && !dup
            && before.placeable(key) && !fits
        &&& r is Ok <==> !before.is_full() && !dup && before.placeable(key) && fits
        &&& before.placeable(key) <==> before.placement(key) is Some
        &&& r is Ok ==> self.placed_as(before, before.placement(key).unwrap(), key, value)
    }

    /// Insert the given key-value pair in the level hash as it is, without
    /// expanding it first.
    ///
    /// The entry takes the first empty slot among those that the key may
    /// take: the top level comes first, then slot by slot the first and the
    /// second bucket. Where all of them are taken, an entry of one of these
    /// buckets moves to its other bucket in the level; where none can, and
    /// the index has expanded before, an entry of the bottom level moves to
    /// the top level.
    pub fn insert_entry(&mut self, key: &[u8], value: &[u8]) -> (r: LevelInsertionResult)
        requires
            old(self).wf(),
            0 < key@.len() <= u32::MAX,
            value@.len() <= u32::MAX,
        ensures
            final(self).inserted(old(self), key@, value@, r),
    {
        proof {
            self.io.lemma_sizes();
        }
        let (occupied, total) = self.load_factor();
        if occupied >= total {
            return Err(LevelInsertionError::LevelOverflow);
        }
        if self.unique_keys && self.find_slot(key).is_some() {
            return Err(LevelInsertionError::DuplicateKey);
        }
        let fhash = self.fhash(key);
        let shash = self.shash(key);
        let bucket_size = self.io.meta.read().km_bucket_size as SlotIdxT;
        let has_bottom = self.io.bucket_count(1) > 0;

        // Check if there are any empty slots availale in any of the levels
        // If there are, insert the key-value pair and return
        let fidx0 = self.buck_idx_lvl(fhash, Level::L0);
        let sidx0 = self.buck_idx_lvl(shash, Level::L0);
        if let Some((bucket, slot)) = self.find_free_pair(Level::L0, fidx0, sidx0) {
            return self.place_at(Level::L0, bucket, slot, key, value);
        }
        if has_bottom {
            let fidx1 = self.buck_idx_lvl(fhash, Level::L1);
            let sidx1 = self.buck_idx_lvl(shash, Level::L1);
            if let Some((bucket, slot)) = self.find_free_pair(Level::L1, fidx1, sidx1) {
                return self.place_at(Level::L1, bucket, slot, key, value);
            }
        }
        assert(!self.direct_in(0, key@) && !self.direct_in(1, key@));

        match self.try_movement(Level::L0, fidx0, bucket_size, key, value) {
            Err(LevelInsertionError::MovementFailure) => {},
            other => {
                return other;
            },
        }
        match self.try_movement(Level::L0, sidx0, bucket_size, key, value) {
            Err(LevelInsertionError::MovementFailure) => {},
            other => {
                return other;
            },
        }
        if has_bottom {
            let fidx1 = self.buck_idx_lvl(fhash, Level::L1);
            let sidx1 = self.buck_idx_lvl(shash, Level::L1);
            match self.try_movement(Level::L1, fidx1, bucket_size, key, value) {
                Err(LevelInsertionError::MovementFailure) => {},
                other => {
                    return other;
                },
            }
            match self.try_movement(Level::L1, sidx1, bucket_size, key, value) {
                Err(LevelInsertionError::MovementFailure) => {},
                other => {
                    return other;
                },
            }
        }
        assert(!self.movable_in(0, key@) && !self.movable_in(1, key@));

        if self.expand_count > 0 && has_bottom {
            let fidx = self.buck_idx_lvl(fhash, Level::L1);
            let sidx = self.buck_idx_lvl(shash, Level::L1);
            if !self.io.check_append(key.len(), value.len()) {
                // the new entry cannot be written, so no entry is moved for it
                if self.can_rehome(fidx, sidx, bucket_size) {
                    return Err(LevelInsertionError::MmapError(map_failure()));
                }
                return Err(LevelInsertionError::InsertionFailure);
            }
            let mut from_pos: Option<(BucketIdxT, SlotIdxT)> = None;
            if let Some(slot) = self.b2t_movement(fidx, bucket_size) {
                from_pos = Some((fidx, slot));
            } else if let Some(slot) = self.b2t_movement(sidx, bucket_size) {
                from_pos = Some((sidx, slot));
            }
            if let Some((bucket, slot)) = from_pos {
                let ghost mid = *self;
                let ghost from = bucket * old(self).io.bucket_size() + slot;
                proof {
                    Self::lemma_same_buckets(old(self), self, 1, key@);
                    lemma_slot_index(
                        old(self).io.buckets(1),
                        old(self).io.bucket_size(),
                        bucket as int,
                        slot as int,
                    );
                    old(self).lemma_riser_target(from);
                }
                let placed = self.place_at(Level::L1, bucket, slot, key, value);
                assert(placed is Ok);
                proof {
                    crate::level_io::LevelHashIO::lemma_displaced(
                        &old(self).io,
                        &mid.io,
                        &self.io,
                        (1, from),
                        (0, old(self).riser_target(from)),
                        old(self).io.meta.meta.val_next_addr as int,
                        (key@, value@),
                    );
                }
                return placed;
            }
        }
        Err(LevelInsertionError::InsertionFailure)
    }

    /// The slot of the top level to which an entry of the bottom level can
    /// move is a slot of the top level.
    pub proof fn lemma_riser_target(&self, idx: int)
        requires
            self.io.meta.meta.km_level_size <= crate::level_hash::LEVEL_SIZE_MAX,
            self.has_room_above(idx),
        ensures
            self.io.is_slot(0, self.riser_target(idx)),
    {
        self.io.lemma_sizes();
        let f = self.first_bucket(0, self.key_at(1, idx));
        let s = self.second_bucket(0, self.key_at(1, idx));
        crate::level_hash::lemma_bucket_of(self.h1(self.key_at(1, idx)), self.io.buckets(0) as u64);
        crate::level_hash::lemma_bucket_of(self.h2(self.key_at(1, idx)), self.io.buckets(0) as u64);
        self.lemma_first_free(0, f, s, 0);
    }

    /// The first empty slot of two buckets, if there is one, is a slot of
    /// one of the two buckets, and there is one exactly if one of the
    /// buckets has an empty slot from the slot `j` on.
    pub proof fn lemma_first_free(&self, level: int, f: int, s: int, j: int)
        requires
            self.io.meta.meta.km_level_size <= crate::level_hash::LEVEL_SIZE_MAX,
            0 <= level <= 1,
            0 <= f < self.io.buckets(level),
            0 <= s < self.io.buckets(level),
            0 <= j,
        ensures
            self.first_free(level, f, s, j) matches Some(idx) ==> self.io.is_slot(level, idx) && (self.in_bucket(
                idx,
                f,
            ) || self.in_bucket(idx, s)) && self.io.slot_ptr(level, idx) == 0,
            self.first_free(level, f, s, j) is None ==> forall|idx: int|
                f * self.io.bucket_size() + j <= idx < f * self.io.bucket_size() + self.io.bucket_size() || s
                    * self.io.bucket_size() + j <= idx < s * self.io.bucket_size() + self.io.bucket_size()
                    ==> #[trigger] self.io.slot_ptr(level, idx) != 0,
        decreases self.io.bucket_size() - j,
    {
        self.io.lemma_sizes();
        let b = self.io.bucket_size();
        if j < b {
            lemma_slot_index(self.io.buckets(level), b, f, j);
            lemma_slot_index(self.io.buckets(level), b, s, j);
            self.lemma_first_free(level, f, s, j + 1);
        }
    }

    /// Whether an entry of one of the two buckets `fidx` and `sidx` of the
    /// bottom level, all of whose slots are taken, can move to the top
    /// level.
    pub fn can_rehome(&self, fidx: BucketIdxT, sidx: BucketIdxT, bucket_size: SlotIdxT) -> (r: bool)
        requires
            self.wf(),
            fidx < self.io.buckets(1),
            sidx < self.io.buckets(1),
            bucket_size == self.io.bucket_size(),
            self.full_bucket(1, fidx as int),
            self.full_bucket(1, sidx as int),
        ensures
            r == (self.rehomable_from(fidx as int) || self.rehomable_from(sidx as int)),
    {
        let ghost b = self.io.bucket_size();
        proof {
            self.io.lemma_sizes();
        }
        let mut i: SlotIdxT = 0;
        while i < bucket_size
            invariant
                self.wf(),
                b == self.io.bucket_size(),
                fidx < self.io.buckets(1),
                sidx < self.io.buckets(1),
                bucket_size == b,
                self.full_bucket(1, fidx as int),
                self.full_bucket(1, sidx as int),
                i <= bucket_size,
                forall|idx: int|
                    fidx * b <= idx < fidx * b + i || sidx * b <= idx < sidx * b + i
                        ==> !#[trigger] self.has_room_above(idx),
            decreases bucket_size - i,
        {
            if self.room_above(fidx, i) {
                assert(self.in_bucket(fidx * b + i, fidx as int));
                return true;
            }
            if self.room_above(sidx, i) {
                assert(self.in_bucket(sidx * b + i, sidx as int));
                return true;
            }
            i += 1;
        }
        proof {
            if self.rehomable_from(fidx as int) {
                let idx = choose|idx: int| self.in_bucket(idx, fidx as int) && #[trigger] self.has_room_above(idx);
                assert(false);
            }
            if self.rehomable_from(sidx as int) {
                let idx = choose|idx: int| self.in_bucket(idx, sidx as int) && #[trigger] self.has_room_above(idx);
                assert(false);
            }
        }
        false
    }

    /// Whether the top level has an empty slot for the entry of the given
    /// slot of the bottom level, which is taken.
    pub fn room_above(&self, bucket: BucketIdxT, slot: SlotIdxT) -> (r: bool)
        requires
            self.wf(),
            bucket < self.io.buckets(1),
            slot < self.io.bucket_size(),
            self.io.slot_ptr(1, bucket * self.io.bucket_size() + slot) != 0,
        ensures
            r == self.has_room_above(bucket * self.io.bucket_size() + slot),
    {
        let ghost idx = bucket * self.io.bucket_size() + slot;
        proof {
            self.io.lemma_sizes();
            lemma_slot_index(self.io.buckets(1), self.io.bucket_size(), bucket as int, slot as int);
            self.io.lemma_slot_live(1, idx);
        }
        let bottom_entry = self.io.val_entry_for_slot(1, bucket, slot).unwrap();
        let bottom_entry_key = bottom_entry.key(&self.io.values);
        assert(bottom_entry_key@ == self.key_at(1, idx));
        let fhash = self.fhash(bottom_entry_key.as_slice());
        let shash = self.shash(bottom_entry_key.as_slice());
        let fidx = self.buck_idx_lvl(fhash, Level::L0);
        let sidx = self.buck_idx_lvl(shash, Level::L0);
        self.find_free_pair(Level::L0, fidx, sidx).is_some()
    }
}

} // verus!
