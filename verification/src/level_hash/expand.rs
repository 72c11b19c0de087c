use vstd::prelude::*;
use crate::bag::bag_of;
use crate::bag::count_some;
use crate::bag::lemma_bag_len;
use crate::bag::lemma_bag_update;
use crate::io::same_within;
use crate::io::zero_within;
use crate::level_hash::bucket_of;
use crate::level_hash::find::buck_idx_cap;
use crate::level_hash::LevelHash;
use crate::level_hash::LEVEL_SIZE_MAX;
use crate::level_io::lemma_slot_index;
use crate::level_io::Entry;
use crate::level_io::ValEntryReadExt;
use crate::meta::lemma_bucket_counts;
use crate::result::LevelExpansionError;
use crate::result::LevelExpansionResult;
use crate::result::LevelInsertionError;
use crate::result::LevelUpdateError;
use crate::types::BucketIdxT;
use crate::types::SlotIdxT;

verus! {

impl<H1: Fn(u64, &[u8]) -> u64, H2: Fn(u64, &[u8]) -> u64> LevelHash<H1, H2> {
    /// Whether the slot with the index `idx` of the interim level is one
    /// that `key` may take: it belongs to one of the two buckets that the
    /// hashes of the key select among twice the buckets of the top level.
    pub open spec fn may_take_above(&self, idx: int, key: Seq<u8>) -> bool {
        let capacity = (2 * self.io.buckets(0)) as u64;
        self.in_bucket(idx, bucket_of(self.h1(key), capacity)) || self.in_bucket(
            idx,
            bucket_of(self.h2(key), capacity),
        )
    }

    /// The first slot without a source among the slots of the two buckets
    /// `f` and `s` of the interim level, from the slot `j` of each bucket
    /// on: the slots are taken slot by slot, in each slot first that of the
    /// bucket `f`. A slot `i` has no source where `src[i]` is negative.
    pub open spec fn first_room(src: Seq<int>, f: int, s: int, b: int, j: int) -> Option<int>
        decreases b - j,
    {
        if j >= b {
            None
        } else if src[f * b + j] < 0 {
            Some(f * b + j)
        } else if src[s * b + j] < 0 {
            Some(s * b + j)
        } else {
            Self::first_room(src, f, s, b, j + 1)
        }
    }

    /// Where the entries of the first `n` slots of the bottom level go in
    /// an expansion: for each slot of the interim level the index of the
    /// slot of the bottom level whose entry it takes, and a negative number
    /// for a slot that stays empty. The entries are dealt with in the order
    /// of their slots, and each takes the first empty slot among those that
    /// its key may take in the interim level. There is no result where an
    /// entry finds all these slots taken.
    pub open spec fn rehashed(&self, n: int) -> Option<Seq<int>>
        decreases n,
    {
        if n <= 0 {
            Some(Seq::new(self.io.interim_slots() as nat, |i: int| -1int))
        } else {
            match self.rehashed(n - 1) {
                None => None,
                Some(src) => if self.io.slot_ptr(1, n - 1) == 0 {
                    Some(src)
                } else {
                    let capacity = (2 * self.io.buckets(0)) as u64;
                    match Self::first_room(
                        src,
                        bucket_of(self.h1(self.key_at(1, n - 1)), capacity),
                        bucket_of(self.h2(self.key_at(1, n - 1)), capacity),
                        self.io.bucket_size(),
                        0,
                    ) {
                        None => None,
                        Some(to) => Some(src.update(to, n - 1)),
                    }
                },
            }
        }
    }

    /// Whether the index can expand: its level size is below the maximum,
    /// the keymap region can take the interim level, and every entry of the
    /// bottom level finds a slot in the interim level.
    pub open spec fn expandable(&self) -> bool {
        &&& self.io.meta.meta.km_level_size < LEVEL_SIZE_MAX
        &&& self.io.can_prepare_interim()
        &&& self.rehashed(self.io.slots(1)) is Some
    }

    /// The pointer that the slot with the index `idx` of the top level
    /// holds after an expansion.
    pub open spec fn rehashed_ptr(&self, idx: int) -> int {
        let src = self.rehashed(self.io.slots(1))->0;
        if src[idx] < 0 {
            0
        } else {
            self.io.slot_ptr(1, src[idx])
        }
    }

    /// Once an entry has found no slot in the interim level, the expansion
    /// has no result, however many slots are dealt with.
    pub proof fn lemma_rehash_failed(&self, n: int, m: int)
        requires
            0 <= n <= m,
            self.rehashed(n) is None,
        ensures
            self.rehashed(m) is None,
        decreases m - n,
    {
        if n < m {
            self.lemma_rehash_failed(n, m - 1);
        }
    }

    /// The state of an index in the middle of an expansion that began in
    /// the state `before`, when the first `n` slots of the bottom level have
    /// been dealt with. The two levels are untouched. The slot `i` of the
    /// interim level is empty where `src[i]` is negative; else it holds the
    /// pointer of the slot `src[i]` of the bottom level, which is one of the
    /// first `n`, and is one that the key of its entry may take. No two
    /// slots of the interim level hold the pointer of the same slot, and
    /// together they hold what the first `n` slots of the bottom level hold.
    pub open spec fn mid_expansion(&self, before: &Self, n: int, src: Seq<int>) -> bool {
        &&& before.wf()
        &&& self.same_settings(before)
        &&& self.item_counts == before.item_counts
        &&& self.expand_count == before.expand_count
        &&& self.io.expanding()
        &&& self.io.meta == before.io.meta
        &&& self.io.values == before.io.values
        &&& self.io.interim_lvl_addr == Some(before.io.keymap.size)
        &&& self.io.keymap.off == before.io.keymap.off
        &&& self.io.keymap.size == before.io.keymap.size + 8 * before.io.interim_slots()
        &&& self.io.slots_kept(&before.io)
        &&& same_within(before.io.keymap@, self.io.keymap@, 0, before.io.keymap.size as int)
        &&& 0 <= n <= before.io.slots(1)
        &&& src.len() == before.io.interim_slots()
        &&& forall|i: int| 0 <= i < src.len() ==> -1 <= #[trigger] src[i] < n
        &&& forall|i: int|
            #![trigger self.io.interim_ptr(i)]
            0 <= i < src.len() ==> self.io.interim_ptr(i) == if src[i] < 0 {
                0
            } else {
                before.io.slot_ptr(1, src[i])
            }
        &&& forall|i: int|
            0 <= i < src.len() && #[trigger] src[i] >= 0 ==> before.io.slot_ptr(1, src[i]) != 0
                && self.may_take_above(i, before.key_at(1, src[i]))
        &&& forall|i: int, j: int|
            0 <= i < src.len() && 0 <= j < src.len() && i != j && #[trigger] src[i] >= 0 && #[trigger] src[j]
                >= 0 ==> src[i] != src[j]
        &&& bag_of(self.io.interim_table()) == bag_of(before.io.table(1).take(n))
        &&& count_some(self.io.interim_table()) == count_some(before.io.table(1).take(n))
        &&& before.rehashed(n) == Some(src)
    }

    /// An expansion that has dealt with the first `n` slots of the bottom
    /// level has dealt with one more where the next slot is empty.
    pub proof fn lemma_skip_empty(&self, before: &Self, n: int, src: Seq<int>)
        requires
            self.mid_expansion(before, n, src),
            n < before.io.slots(1),
            before.io.slot_ptr(1, n) == 0,
        ensures
            self.mid_expansion(before, n + 1, src),
    {
        let t = before.io.table(1);
        assert(t.take(n + 1).drop_last() =~= t.take(n));
        assert(t.take(n + 1).last() == t[n]);
        assert(t[n] == before.io.entry_at(1, n));
    }

    /// An expansion that has dealt with the first `n` slots of the bottom
    /// level has dealt with one more once the pointer of the next slot has
    /// been written to an empty slot of the interim level that the key of
    /// its entry may take.
    pub proof fn lemma_moved_up(a: &Self, b: &Self, before: &Self, n: int, src: Seq<int>, to: int)
        requires
            a.mid_expansion(before, n, src),
            n < before.io.slots(1),
            before.io.slot_ptr(1, n) != 0,
            0 <= to < before.io.interim_slots(),
            a.io.interim_ptr(to) == 0,
            a.may_take_above(to, before.key_at(1, n)),
            Self::first_room(
                src,
                bucket_of(before.h1(before.key_at(1, n)), (2 * before.io.buckets(0)) as u64),
                bucket_of(before.h2(before.key_at(1, n)), (2 * before.io.buckets(0)) as u64),
                before.io.bucket_size(),
                0,
            ) == Some(to),
            b.same_settings(a),
            b.item_counts == a.item_counts,
            b.expand_count == a.expand_count,
            b.io.expanding(),
            b.io.same_geometry(&a.io),
            b.io.values == a.io.values,
            b.io.meta == a.io.meta,
            b.io.slots_kept(&a.io),
            same_within(a.io.keymap@, b.io.keymap@, 0, a.io.interim_lvl_addr->0 as int),
            forall|i: int|
                #![trigger b.io.interim_ptr(i)]
                0 <= i < a.io.interim_slots() ==> b.io.interim_ptr(i) == if i == to {
                    a.io.slot_ptr(1, n)
                } else {
                    a.io.interim_ptr(i)
                },
        ensures
            b.mid_expansion(before, n + 1, src.update(to, n)),
    {
        let src2 = src.update(to, n);
        let t = before.io.table(1);
        let e = before.io.entry_at(1, n);
        assert(t.take(n + 1).drop_last() =~= t.take(n));
        assert(t.take(n + 1).last() == t[n]);
        assert(t[n] == e);
        assert(before.io.is_slot(1, n));
        assert(a.io.slot_ptr(1, n) == before.io.slot_ptr(1, n));
        assert(a.io.interim_table()[to] == None::<Entry>);
        assert(b.io.interim_table() =~= a.io.interim_table().update(to, e));
        lemma_bag_update(a.io.interim_table(), to, e);
        assert(src[to] < 0);
        assert(b.io.slots_kept(&before.io));
        assert forall|i: int| 0 <= i < src2.len() implies b.io.interim_ptr(i) == if src2[i] < 0 {
            0
        } else {
            before.io.slot_ptr(1, src2[i])
        } by {
            assert(a.io.interim_ptr(i) == if src[i] < 0 {
                0
            } else {
                before.io.slot_ptr(1, src[i])
            });
        }
        assert forall|i: int| 0 <= i < src2.len() && #[trigger] src2[i] >= 0 implies before.io.slot_ptr(
            1,
            src2[i],
        ) != 0 && b.may_take_above(i, before.key_at(1, src2[i])) by {
            if i != to {
                assert(src[i] >= 0);
                assert(a.may_take_above(i, before.key_at(1, src[i])));
            }
        }
        assert forall|i: int, j: int|
            0 <= i < src2.len() && 0 <= j < src2.len() && i != j && #[trigger] src2[i] >= 0
                && #[trigger] src2[j] >= 0 implies src2[i] != src2[j] by {
            if i != to && j != to {
                assert(src[i] >= 0 && src[j] >= 0);
            } else if i == to {
                assert(src[j] < n);
            } else {
                assert(src[i] < n);
            }
        }
        assert forall|i: int| 0 <= i < src2.len() implies -1 <= #[trigger] src2[i] < n + 1 by {
            if i != to {
                assert(-1 <= src[i] < n);
            }
        }
    }

    /// Moves the entry of the given slot of the bottom level, which is
    /// taken, to the interim level: to the first empty slot among those that
    /// its key may take there, slot by slot in its first and in its second
    /// bucket. Returns whether there was such a slot.
    fn rehash_slot(
        &mut self,
        bucket: BucketIdxT,
        slot: SlotIdxT,
        new_capacity: u64,
        Ghost(before): Ghost<Self>,
        Ghost(src): Ghost<Seq<int>>,
    ) -> (r: (bool, Ghost<Seq<int>>))
        requires
            old(self).mid_expansion(&before, bucket * before.io.bucket_size() + slot, src),
            bucket < before.io.buckets(1),
            slot < before.io.bucket_size(),
            new_capacity == 2 * before.io.buckets(0),
            before.io.slot_ptr(1, bucket * before.io.bucket_size() + slot) != 0,
        ensures
            !r.0 ==> *final(self) == *old(self) && before.rehashed(
                bucket * before.io.bucket_size() + slot + 1,
            ) is None,
            r.0 ==> final(self).mid_expansion(&before, bucket * before.io.bucket_size() + slot + 1, r.1@),
    {
        let ghost b = before.io.bucket_size();
        let ghost n = bucket * b + slot;
        proof {
            before.io.lemma_sizes();
            self.io.lemma_sizes();
            lemma_slot_index(before.io.buckets(1), b, bucket as int, slot as int);
            assert(self.io.slot_ptr(1, n) == before.io.slot_ptr(1, n));
            self.io.lemma_slot_live(1, n);
        }
        let bucket_size = self.io.meta.read().km_bucket_size as SlotIdxT;
        let entry = self.io.val_entry_for_slot(1, bucket, slot).unwrap();
        let key = entry.key(&self.io.values);
        assert(key@ == before.key_at(1, n));
        let fhash = self.fhash(key.as_slice());
        let shash = self.shash(key.as_slice());

        let fidx = buck_idx_cap(fhash, new_capacity);
        let sidx = buck_idx_cap(shash, new_capacity);

        let mut new_slot_idx: SlotIdxT = 0;
        while new_slot_idx < bucket_size
            invariant
                *self == *old(self),
                self.mid_expansion(&before, n, src),
                b == before.io.bucket_size(),
                bucket_size == b,
                n == bucket * b + slot,
                n < before.io.slots(1),
                bucket < before.io.buckets(1),
                slot < b,
                new_capacity == 2 * before.io.buckets(0),
                before.io.slot_ptr(1, n) != 0,
                fidx == bucket_of(self.h1(before.key_at(1, n)), new_capacity),
                sidx == bucket_of(self.h2(before.key_at(1, n)), new_capacity),
                fidx < new_capacity,
                sidx < new_capacity,
                new_slot_idx <= bucket_size,
                Self::first_room(src, fidx as int, sidx as int, b, 0) == Self::first_room(
                    src,
                    fidx as int,
                    sidx as int,
                    b,
                    new_slot_idx as int,
                ),
            decreases bucket_size - new_slot_idx,
        {
            let ghost prev = *self;
            let ghost to_f = fidx * b + new_slot_idx;
            let ghost to_s = sidx * b + new_slot_idx;
            proof {
                lemma_slot_index(new_capacity as int, b, fidx as int, new_slot_idx as int);
                lemma_slot_index(new_capacity as int, b, sidx as int, new_slot_idx as int);
                assert(self.in_bucket(to_f, fidx as int));
                assert(self.in_bucket(to_s, sidx as int));
                assert(2 * before.io.buckets(0) * b == before.io.interim_slots()) by (nonlinear_arith)
                    requires
                        before.io.slots(0) == before.io.buckets(0) * b,
                        before.io.interim_slots() == 2 * before.io.slots(0),
                ;
                assert(0 <= to_f < src.len() && 0 <= to_s < src.len());
                assert(self.io.interim_ptr(to_f) == 0 <==> src[to_f] < 0);
                assert(self.io.interim_ptr(to_s) == 0 <==> src[to_s] < 0);
            }
            if self.io.move_to_interim(1, bucket, slot, fidx, new_slot_idx) {
                proof {
                    Self::lemma_moved_up(&prev, self, &before, n, src, to_f);
                }
                return (true, Ghost(src.update(to_f, n)));
            }
            if self.io.move_to_interim(1, bucket, slot, sidx, new_slot_idx) {
                proof {
                    Self::lemma_moved_up(&prev, self, &before, n, src, to_s);
                }
                return (true, Ghost(src.update(to_s, n)));
            }
            new_slot_idx += 1;
        }
        assert(Self::first_room(src, fidx as int, sidx as int, b, b) is None);
        (false, Ghost(src))
    }

    /// Whether `self` is `before` after an expansion: the level size is one
    /// more, the interim level, which was built at the end of the keymap
    /// region, is the top level, and the top level of `before` is the
    /// bottom level. The index holds the entries that it held.
    pub open spec fn expanded(&self, before: &Self) -> bool {
        &&& self.wf()
        &&& self.same_settings(before)
        &&& self.io.meta.meta.km_level_size == before.io.meta.meta.km_level_size + 1
        &&& self.io.meta.meta.km_bucket_size == before.io.meta.meta.km_bucket_size
        &&& self.io.meta.meta.km_l0_addr == before.io.keymap.size
        &&& self.io.meta.meta.km_l1_addr == before.io.meta.meta.km_l0_addr
        &&& self.io.values == before.io.values
        &&& self.io.keymap.size == before.io.keymap.size + 8 * before.io.interim_slots()
        &&& zero_within(self.io.keymap@, before.io.meta.meta.km_l1_addr as int, 8 * before.io.slots(1))
        &&& self.io.table(1) == before.io.table(0)
        &&& self.entries() == before.entries()
        &&& self.occupied() == before.occupied()
        &&& self.expand_count == before.expand_count + 1
        &&& forall|idx: int|
            #![trigger self.io.slot_ptr(0, idx)]
            0 <= idx < self.io.slots(0) ==> self.io.slot_ptr(0, idx) == before.rehashed_ptr(idx)
        &&& forall|idx: int|
            #![trigger self.io.slot_ptr(1, idx)]
            0 <= idx < self.io.slots(1) ==> self.io.slot_ptr(1, idx) == before.io.slot_ptr(0, idx)
    }

    /// Whether `self` is `before` after an expansion that has failed: the
    /// index is in the state in which it was.
    pub open spec fn unchanged(&self, before: &Self) -> bool {
        &&& self.wf()
        &&& self.same_as(before)
        &&& self.entries() == before.entries()
    }

    /// Once an expansion has dealt with all slots of the bottom level, the
    /// interim level can take the place of the top level.
    pub proof fn lemma_interim_sound(&self, before: &Self, src: Seq<int>)
        requires
            self.mid_expansion(before, before.io.slots(1), src),
        ensures
            self.io.interim_sound(),
    {
        assert forall|i: int, j: int|
            0 <= i < self.io.interim_slots() && 0 <= j < self.io.interim_slots() && i != j
                && self.io.interim_ptr(i) != 0 && self.io.interim_ptr(j) != 0 implies self.io.apart(
            self.io.interim_ptr(i),
            self.io.interim_ptr(j),
        ) by {
            assert(src[i] >= 0 && src[j] >= 0);
            assert(src[i] != src[j]);
            assert(before.io.is_slot(1, src[i]) && before.io.is_slot(1, src[j]));
            assert(before.io.apart(before.io.slot_ptr(1, src[i]), before.io.slot_ptr(1, src[j])));
        }
        assert forall|i: int, k: int|
            0 <= i < self.io.interim_slots() && self.io.is_slot(0, k) && self.io.interim_ptr(i) != 0
                && self.io.slot_ptr(0, k) != 0 implies self.io.apart(
            self.io.interim_ptr(i),
            self.io.slot_ptr(0, k),
        ) by {
            assert(src[i] >= 0);
            assert(before.io.is_slot(1, src[i]) && before.io.is_slot(0, k));
            assert(self.io.slot_ptr(0, k) == before.io.slot_ptr(0, k));
            assert(before.io.apart(before.io.slot_ptr(1, src[i]), before.io.slot_ptr(0, k)));
        }
    }

    /// An index whose expansion has been committed is well-formed, and
    /// holds what it held before the expansion.
    pub proof fn lemma_expanded(mid: &Self, after: &Self, before: &Self, src: Seq<int>)
        requires
            mid.mid_expansion(before, before.io.slots(1), src),
            after.same_settings(before),
            after.io.wf(),
            after.io.committed(&mid.io),
            after.io.values == mid.io.values,
            after.io.keymap.size == mid.io.keymap.size,
            after.io.keymap@ == crate::io::zeroed(
                mid.io.keymap@,
                before.io.meta.meta.km_l1_addr as int,
                8 * before.io.slots(1),
            ),
            after.io.meta.meta.km_bucket_size == before.io.meta.meta.km_bucket_size,
            after.item_counts[0] == count_some(mid.io.interim_table()),
            after.item_counts[1] == before.item_counts[0],
            after.expand_count == before.expand_count + 1,
        ensures
            after.expanded(before),
    {
        before.io.lemma_sizes();
        lemma_bucket_counts(before.io.meta.meta.km_level_size);
        let t1 = before.io.table(1);
        assert(t1.take(before.io.slots(1)) =~= t1);
        assert(after.io.table(0) =~= mid.io.interim_table());
        assert(after.io.table(1) =~= before.io.table(0)) by {
            assert forall|i: int| 0 <= i < before.io.slots(0) implies after.io.entry_at(1, i)
                == before.io.entry_at(0, i) by {
                assert(before.io.is_slot(0, i));
                assert(after.io.slot_ptr(1, i) == mid.io.slot_ptr(0, i));
                assert(mid.io.slot_ptr(0, i) == before.io.slot_ptr(0, i));
            }
        }
        assert(after.entries() =~= before.entries());
        assert forall|idx: int| 0 <= idx < after.io.slots(0) implies after.io.slot_ptr(0, idx)
            == before.rehashed_ptr(idx) by {
            assert(after.io.slot_ptr(0, idx) == mid.io.interim_ptr(idx));
        }
        assert forall|idx: int| 0 <= idx < after.io.slots(1) implies after.io.slot_ptr(1, idx)
            == before.io.slot_ptr(0, idx) by {
            assert(before.io.is_slot(0, idx));
            assert(after.io.slot_ptr(1, idx) == mid.io.slot_ptr(0, idx));
            assert(mid.io.slot_ptr(0, idx) == before.io.slot_ptr(0, idx));
        }
        lemma_bag_len(mid.io.interim_table());
        lemma_bag_len(t1);
        assert(after.io.buckets(0) == 2 * before.io.buckets(0));
        assert(after.io.buckets(1) == before.io.buckets(0));
        assert forall|level: int, idx: int|
            after.io.is_slot(level, idx) && after.io.slot_ptr(level, idx) != 0 implies after.may_take(
            level,
            idx,
            after.key_at(level, idx),
        ) by {
            if level == 0 {
                assert(after.io.slot_ptr(0, idx) == mid.io.interim_ptr(idx));
                assert(src[idx] >= 0);
                assert(mid.may_take_above(idx, before.key_at(1, src[idx])));
            } else {
                assert(before.io.is_slot(0, idx));
                assert(after.io.slot_ptr(1, idx) == mid.io.slot_ptr(0, idx));
                assert(mid.io.slot_ptr(0, idx) == before.io.slot_ptr(0, idx));
                assert(before.may_take(0, idx, before.key_at(0, idx)));
            }
        }
        if after.unique_keys {
            assert forall|l1: int, i1: int, l2: int, i2: int|
                after.io.is_slot(l1, i1) && after.io.is_slot(l2, i2) && (l1 != l2 || i1 != i2)
                    && after.io.slot_ptr(l1, i1) != 0 && after.io.slot_ptr(l2, i2) != 0 implies after.key_at(
                l1,
                i1,
            ) != after.key_at(l2, i2) by {
                let s1 = if l1 == 0 {
                    (1, src[i1])
                } else {
                    (0, i1)
                };
                let s2 = if l2 == 0 {
                    (1, src[i2])
                } else {
                    (0, i2)
                };
                if l1 == 0 {
                    assert(after.io.slot_ptr(0, i1) == mid.io.interim_ptr(i1));
                    assert(src[i1] >= 0);
                } else {
                    assert(before.io.is_slot(0, i1));
                    assert(after.io.slot_ptr(1, i1) == mid.io.slot_ptr(0, i1));
                    assert(mid.io.slot_ptr(0, i1) == before.io.slot_ptr(0, i1));
                }
                if l2 == 0 {
                    assert(after.io.slot_ptr(0, i2) == mid.io.interim_ptr(i2));
                    assert(src[i2] >= 0);
                } else {
                    assert(before.io.is_slot(0, i2));
                    assert(after.io.slot_ptr(1, i2) == mid.io.slot_ptr(0, i2));
                    assert(mid.io.slot_ptr(0, i2) == before.io.slot_ptr(0, i2));
                }
                if l1 == 0 && l2 == 0 {
                    assert(src[i1] != src[i2]);
                }
                assert(before.io.is_slot(s1.0, s1.1) && before.io.is_slot(s2.0, s2.1));
                assert(after.io.slot_ptr(l1, i1) == before.io.slot_ptr(s1.0, s1.1));
                assert(after.io.slot_ptr(l2, i2) == before.io.slot_ptr(s2.0, s2.1));
                assert(before.key_at(s1.0, s1.1) != before.key_at(s2.0, s2.1));
            }
        }
    }

    /// Expand the level hash by one level size, doubling its capacity. This is an expensive operation
    /// and must be used carefully. Consider enabling [LevelHashOptions::auto_expand] to automatically expand
    /// the level hash when appropriate. A level hash can have a maximum of [LEVEL_SIZE_MAX] level size.
    ///
    /// The entries of the bottom level are moved to an interim level of
    /// twice the buckets of the top level, each to the first empty slot
    /// that its key may take there. The interim level then becomes the top
    /// level, and the top level becomes the bottom level. Where an entry
    /// finds no slot, the expansion fails and the index stays as it was.
    /// An index that is in the middle of an expansion is not expanded.
    ///
    /// # Returns
    ///
    /// The result of the expansion.
    pub fn expand(&mut self) -> (r: LevelExpansionResult)
        requires
            old(self).io.interim_lvl_addr is None ==> old(self).wf(),
        ensures
            (r matches Err(LevelExpansionError::ConcurrentModificationError)) <==> old(self).io.interim_lvl_addr
                is Some,
            old(self).io.interim_lvl_addr is Some ==> *final(self) == *old(self),
            old(self).io.interim_lvl_addr is None ==> {
                &&& r is Ok <==> old(self).expandable()
                &&& r is Ok ==> final(self).expanded(old(self))
                &&& r is Err ==> final(self).unchanged(old(self))
                &&& (r matches Err(LevelExpansionError::MaxLevelSizeReached)) <==> old(
                    self,
                ).io.meta.meta.km_level_size == LEVEL_SIZE_MAX
                &&& (r matches Err(LevelExpansionError::MmapError(_))) <==> old(self).io.meta.meta.km_level_size
                    < LEVEL_SIZE_MAX && !old(self).io.can_prepare_interim()
                &&& (r matches Err(
                    LevelExpansionError::UpdateError(
                        LevelUpdateError::InsertionErr(LevelInsertionError::InsertionFailure),
                    ),
                )) <==> old(self).io.meta.meta.km_level_size < LEVEL_SIZE_MAX && old(
                    self,
                ).io.can_prepare_interim() && old(self).rehashed(old(self).io.slots(1)) is None
            },
    {
        if self.io.interim_lvl_addr.is_some() {
            return Err(LevelExpansionError::ConcurrentModificationError);
        }
        let level_size = self.io.meta.read().km_level_size;
        if level_size == LEVEL_SIZE_MAX {
            proof {
                self.lemma_same_as(old(self));
            }
            return Err(LevelExpansionError::MaxLevelSizeReached);
        }
        proof {
            self.io.lemma_sizes();
            lemma_bucket_counts(level_size);
            lemma_bag_len(self.io.table(0));
            lemma_bag_len(self.io.table(1));
        }
        let level_size = level_size + 1;

        let new_top_level_capacity: u64 = 1u64 << level_size;
        let mut new_level_item_count: u64 = 0;

        match self.io.prepare_interim(new_top_level_capacity as u32) {
            Err(e) => {
                proof {
                    self.lemma_same_as(old(self));
                }
                return Err(LevelExpansionError::MmapError(e));
            },
            Ok(()) => {},
        }
        let bucket_size = self.io.meta.read().km_bucket_size as SlotIdxT;
        let bottom_slots: u64 = (self.io.bucket_count(1) as u64) * (bucket_size as u64);
        let ghost before = *old(self);
        let ghost mut src: Seq<int> = Seq::new(before.io.interim_slots() as nat, |i: int| -1int);
        proof {
            let t1 = before.io.table(1);
            assert(t1.take(0) =~= Seq::<Option<Entry>>::empty());
            assert forall|i: int| 0 <= i < self.io.interim_table().len() implies self.io.interim_table()[i] is None by {
                assert(self.io.interim_ptr(i) == 0);
            }
            crate::bag::lemma_bag_none(self.io.interim_table());
            assert(self.mid_expansion(&before, 0, src));
        }
        let mut n: u64 = 0;
        while n < bottom_slots
            invariant
                self.mid_expansion(&before, n as int, src),
                before == *old(self),
                bottom_slots == before.io.slots(1),
                bucket_size == before.io.bucket_size(),
                bucket_size >= 1,
                before.io.meta.meta.km_level_size < LEVEL_SIZE_MAX,
                new_top_level_capacity == 2 * before.io.buckets(0),
                new_level_item_count == count_some(self.io.interim_table()),
                n <= bottom_slots <= 0xff00_0000,
            decreases bottom_slots - n,
        {
            let old_buck_idx = (n / (bucket_size as u64)) as BucketIdxT;
            let old_slot_idx = (n % (bucket_size as u64)) as SlotIdxT;
            proof {
                before.io.lemma_sizes();
                crate::level_io::lemma_slot_bucket(before.io.buckets(1), bucket_size as int, n as int);
                assert(self.io.slot_ptr(1, n as int) == before.io.slot_ptr(1, n as int));
                lemma_bag_len(before.io.table(1).take(n as int));
            }
            if !self.io.is_occupied(1, old_buck_idx, old_slot_idx) {
                proof {
                    self.lemma_skip_empty(&before, n as int, src);
                }
                n += 1;
                continue;
            }
            let (insert_success, new_src) = self.rehash_slot(
                old_buck_idx,
                old_slot_idx,
                new_top_level_capacity,
                Ghost(before),
                Ghost(src),
            );
            if !insert_success {
                self.io.abort_interim();
                proof {
                    assert(self.io.keymap@ =~= before.io.keymap@);
                    self.lemma_same_as(&before);
                    before.lemma_rehash_failed(n + 1, before.io.slots(1));
                }
                return Err(
                    LevelExpansionError::UpdateError(
                        LevelUpdateError::InsertionErr(LevelInsertionError::InsertionFailure),
                    ),
                );
            }
            proof {
                src = new_src@;
                let t1 = before.io.table(1);
                lemma_bag_len(t1.take(n + 1));
                assert(t1.take(n + 1).drop_last() =~= t1.take(n as int));
                assert(t1.take(n + 1).last() == t1[n as int]);
                assert(t1[n as int] == before.io.entry_at(1, n as int));
            }
            new_level_item_count += 1;
            n += 1;
        }
        let ghost mid = *self;
        proof {
            self.lemma_interim_sound(&before, src);
        }
        self.io.commit_interim(level_size);
        self.item_counts = [new_level_item_count, self.item_counts[0]];
        self.expand_count += 1;
        proof {
            Self::lemma_expanded(&mid, self, &before, src);
        }
        Ok(())
    }
}

} // verus!
