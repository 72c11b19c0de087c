use vstd::prelude::*;
use crate::bag::lemma_bag_len;
use crate::bag::lemma_bag_member;
use crate::bag::lemma_bag_update;
use crate::level_hash::Level;
use crate::level_hash::LevelHash;
use crate::level_io::lemma_slot_index;
use crate::level_io::Entry;
use crate::level_io::LevelHashIO;
use crate::types::BucketIdxT;
use crate::types::SlotIdxT;

verus! {

impl<H1: Fn(u64, &[u8]) -> u64, H2: Fn(u64, &[u8]) -> u64> LevelHash<H1, H2> {
    /// Whether the bucket `bucket` of the level `level` has an empty slot.
    pub open spec fn free_in(&self, level: int, bucket: int) -> bool {
        exists|idx: int| self.in_bucket(idx, bucket) && #[trigger] self.io.slot_ptr(level, idx) == 0
    }

    /// Whether every slot of the bucket `bucket` of the level `level` is
    /// taken.
    pub open spec fn full_bucket(&self, level: int, bucket: int) -> bool {
        forall|idx: int| self.in_bucket(idx, bucket) ==> #[trigger] self.io.slot_ptr(level, idx) != 0
    }

    /// The bucket to which the entry of the slot `idx` of the bucket
    /// `bucket` can move within its level: the other one of the two buckets
    /// that its key may take there.
    pub open spec fn alt_bucket(&self, level: int, bucket: int, idx: int) -> int {
        if self.first_bucket(level, self.key_at(level, idx)) == bucket {
            self.second_bucket(level, self.key_at(level, idx))
        } else {
            self.first_bucket(level, self.key_at(level, idx))
        }
    }

    /// Whether an entry of the bucket `bucket` of the level `level` can make
    /// room by moving to its other bucket, which has an empty slot.
    pub open spec fn movable_from(&self, level: int, bucket: int) -> bool {
        exists|idx: int|
            self.in_bucket(idx, bucket) && #[trigger] self.free_in(level, self.alt_bucket(level, bucket, idx))
    }

    /// Whether an entry of the bucket `bucket` of the bottom level can make
    /// room by moving to the top level: one of the two buckets that its key
    /// may take there has an empty slot.
    pub open spec fn rehomable_from(&self, bucket: int) -> bool {
        exists|idx: int|
            self.in_bucket(idx, bucket) && #[trigger] self.has_room_above(idx)
    }

    /// Whether the top level has an empty slot for the entry of the slot
    /// `idx` of the bottom level.
    pub open spec fn has_room_above(&self, idx: int) -> bool {
        self.free_in(0, self.first_bucket(0, self.key_at(1, idx))) || self.free_in(
            0,
            self.second_bucket(0, self.key_at(1, idx)),
        )
    }

    /// The first empty slot among the slots of the two buckets `f` and `s`
    /// of the level `level`, from the slot `j` of each bucket on: the slots
    /// are taken slot by slot, in each slot first that of the bucket `f`.
    pub open spec fn first_free(&self, level: int, f: int, s: int, j: int) -> Option<int>
        decreases self.io.bucket_size() - j,
    {
        if j >= self.io.bucket_size() {
            None
        } else if self.io.slot_ptr(level, f * self.io.bucket_size() + j) == 0 {
            Some(f * self.io.bucket_size() + j)
        } else if self.io.slot_ptr(level, s * self.io.bucket_size() + j) == 0 {
            Some(s * self.io.bucket_size() + j)
        } else {
            self.first_free(level, f, s, j + 1)
        }
    }

    /// Looks for an empty slot in the two buckets `fidx` and `sidx` of the
    /// level `level`, slot by slot, in each slot first in the bucket `fidx`.
    pub fn find_free_pair(&self, level: Level, fidx: BucketIdxT, sidx: BucketIdxT) -> (r: Option<
        (BucketIdxT, SlotIdxT),
    >)
        requires
            self.io.geometry_wf(),
            fidx < self.io.buckets(level.spec_index()),
            sidx < self.io.buckets(level.spec_index()),
        ensures
            r matches Some((bucket, slot)) ==> {
                &&& bucket == fidx || bucket == sidx
                &&& slot < self.io.bucket_size()
                &&& self.io.slot_ptr(level.spec_index(), bucket * self.io.bucket_size() + slot) == 0
            },
            r is Some <==> self.free_in(level.spec_index(), fidx as int) || self.free_in(
                level.spec_index(),
                sidx as int,
            ),
            self.first_free(level.spec_index(), fidx as int, sidx as int, 0) == match r {
                Some((bucket, slot)) => Some(bucket * self.io.bucket_size() + slot),
                None => None,
            },
    {
        let bucket_size = self.io.meta.read().km_bucket_size as SlotIdxT;
        let mut j: SlotIdxT = 0;
        while j < bucket_size
            invariant
                self.io.geometry_wf(),
                bucket_size == self.io.bucket_size(),
                fidx < self.io.buckets(level.spec_index()),
                sidx < self.io.buckets(level.spec_index()),
                j <= bucket_size,
                forall|idx: int|
                    fidx * self.io.bucket_size() <= idx < fidx * self.io.bucket_size() + j || sidx
                        * self.io.bucket_size() <= idx < sidx * self.io.bucket_size() + j
                        ==> #[trigger] self.io.slot_ptr(level.spec_index(), idx) != 0,
                self.first_free(level.spec_index(), fidx as int, sidx as int, 0) == self.first_free(
                    level.spec_index(),
                    fidx as int,
                    sidx as int,
                    j as int,
                ),
            decreases bucket_size - j,
        {
            if self.io.val_addr_at(level.index(), fidx, j).is_none() {
                assert(self.in_bucket(fidx * self.io.bucket_size() + j, fidx as int));
                return Some((fidx, j));
            }
            if self.io.val_addr_at(level.index(), sidx, j).is_none() {
                assert(self.in_bucket(sidx * self.io.bucket_size() + j, sidx as int));
                return Some((sidx, j));
            }
            j += 1;
        }
        None
    }

    /// An index holds what it held, where the entry of one slot is moved to
    /// an empty slot that its key may take.
    pub proof fn lemma_relocated(a: &Self, b: &Self, from: (int, int), to: (int, int))
        requires
            a.wf(),
            b.same_settings(a),
            b.expand_count == a.expand_count,
            b.io.wf(),
            b.io.same_geometry(&a.io),
            b.io.values == a.io.values,
            b.io.meta == a.io.meta,
            a.io.is_slot(from.0, from.1),
            a.io.is_slot(to.0, to.1),
            a.io.slot_ptr(from.0, from.1) != 0,
            a.io.slot_ptr(to.0, to.1) == 0,
            b.io.slot_moved(&a.io, from, to),
            a.may_take(to.0, to.1, a.key_at(from.0, from.1)),
            from.0 == to.0 ==> b.item_counts == a.item_counts,
            from.0 != to.0 ==> b.item_counts[to.0] == a.item_counts[to.0] + 1 && b.item_counts[from.0]
                == a.item_counts[from.0] - 1,
        ensures
            b.rearranged(a),
            forall|key: Seq<u8>| b.holds(key) == a.holds(key),
    {
        let e = a.io.entry_at(from.0, from.1);
        LevelHashIO::lemma_tables_after_move(&a.io, &b.io, from, to);
        assert(a.io.table(from.0)[from.1] == e);
        assert(a.io.table(to.0)[to.1] == None::<Entry>);
        lemma_bag_member(a.io.table(from.0), from.1);
        if from.0 == to.0 {
            let t1 = a.io.table(to.0).update(to.1, e);
            lemma_bag_update(a.io.table(to.0), to.1, e);
            lemma_bag_update(t1, from.1, None);
            assert(b.entries() =~= a.entries());
        } else {
            lemma_bag_update(a.io.table(to.0), to.1, e);
            lemma_bag_update(a.io.table(from.0), from.1, None);
            assert(b.entries() =~= a.entries());
        }
        assert forall|l: int, i: int| b.io.is_slot(l, i) && b.io.slot_ptr(l, i) != 0 implies b.may_take(
            l,
            i,
            b.key_at(l, i),
        ) by {
            assert(a.io.is_slot(l, i));
            Self::lemma_same_buckets(a, b, l, b.key_at(l, i));
            if (l, i) == to {
            } else if (l, i) == from {
            } else {
                assert(b.io.slot_ptr(l, i) == a.io.slot_ptr(l, i));
            }
        }
        if b.unique_keys {
            assert forall|l1: int, i1: int, l2: int, i2: int|
                b.io.is_slot(l1, i1) && b.io.is_slot(l2, i2) && (l1 != l2 || i1 != i2) && b.io.slot_ptr(l1, i1)
                    != 0 && b.io.slot_ptr(l2, i2) != 0 implies b.key_at(l1, i1) != b.key_at(l2, i2) by {
                assert(a.io.is_slot(l1, i1) && a.io.is_slot(l2, i2));
                let s1 = if (l1, i1) == to {
                    from
                } else {
                    (l1, i1)
                };
                let s2 = if (l2, i2) == to {
                    from
                } else {
                    (l2, i2)
                };
                assert(b.io.slot_ptr(l1, i1) == a.io.slot_ptr(s1.0, s1.1));
                assert(b.io.slot_ptr(l2, i2) == a.io.slot_ptr(s2.0, s2.1));
                assert(a.key_at(s1.0, s1.1) != a.key_at(s2.0, s2.1));
            }
        }
        assert forall|key: Seq<u8>| b.holds(key) == a.holds(key) by {
            if b.holds(key) {
                let (l, i) = choose|l: int, i: int| b.holds_at(l, i, key);
                let s = if (l, i) == to {
                    from
                } else {
                    (l, i)
                };
                assert(a.holds_at(s.0, s.1, key));
            }
            if a.holds(key) {
                let (l, i) = choose|l: int, i: int| a.holds_at(l, i, key);
                let s = if (l, i) == from {
                    to
                } else {
                    (l, i)
                };
                assert(b.io.slot_ptr(s.0, s.1) == a.io.slot_ptr(l, i));
                assert(b.holds_at(s.0, s.1, key));
            }
        }
    }

    /// Moves the entry of one slot to an empty slot that its key may take.
    pub fn relocate(
        &mut self,
        level: Level,
        bucket: BucketIdxT,
        slot: SlotIdxT,
        to_level: Level,
        to_bucket: BucketIdxT,
        to_slot: SlotIdxT,
    )
        requires
            old(self).wf(),
            bucket < old(self).io.buckets(level.spec_index()),
            slot < old(self).io.bucket_size(),
            to_bucket < old(self).io.buckets(to_level.spec_index()),
            to_slot < old(self).io.bucket_size(),
            old(self).io.slot_ptr(level.spec_index(), bucket * old(self).io.bucket_size() + slot) != 0,
            old(self).io.slot_ptr(to_level.spec_index(), to_bucket * old(self).io.bucket_size() + to_slot) == 0,
            ({
                let key = old(self).key_at(level.spec_index(), bucket * old(self).io.bucket_size() + slot);
                to_bucket == old(self).first_bucket(to_level.spec_index(), key) || to_bucket == old(
                    self,
                ).second_bucket(to_level.spec_index(), key)
            }),
        ensures
            final(self).rearranged(old(self)),
            final(self).io.slot_moved(
                &old(self).io,
                (level.spec_index(), bucket * old(self).io.bucket_size() + slot),
                (to_level.spec_index(), to_bucket * old(self).io.bucket_size() + to_slot),
            ),
            forall|key: Seq<u8>| final(self).holds(key) == old(self).holds(key),
    {
        let ghost from = (level.spec_index(), bucket * self.io.bucket_size() + slot);
        let ghost to = (to_level.spec_index(), to_bucket * self.io.bucket_size() + to_slot);
        proof {
            self.io.lemma_sizes();
            lemma_slot_index(
                self.io.buckets(level.spec_index()),
                self.io.bucket_size(),
                bucket as int,
                slot as int,
            );
            lemma_slot_index(
                self.io.buckets(to_level.spec_index()),
                self.io.bucket_size(),
                to_bucket as int,
                to_slot as int,
            );
            lemma_bag_len(self.io.table(0));
            lemma_bag_len(self.io.table(1));
            assert(self.io.table(from.0)[from.1] is Some);
            crate::bag::lemma_bag_member(self.io.table(from.0), from.1);
        }
        let moved = self.io.move_slot(level.index(), bucket, slot, to_level.index(), to_bucket, to_slot);
        assert(moved);
        match (level, to_level) {
            (Level::L0, Level::L1) => {
                self.item_counts[0] = self.item_counts[0] - 1;
                self.item_counts[1] = self.item_counts[1] + 1;
            },
            (Level::L1, Level::L0) => {
                self.item_counts[1] = self.item_counts[1] - 1;
                self.item_counts[0] = self.item_counts[0] + 1;
            },
            _ => {},
        }
        proof {
            Self::lemma_relocated(old(self), self, from, to);
        }
    }
}

} // verus!
