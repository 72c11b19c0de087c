use vstd::prelude::*;
use crate::bag::count_some;
use crate::bag::lemma_bag_len;
use crate::level_hash::hash_det;
use crate::level_hash::hash_total;
use crate::level_hash::Level;
use crate::level_hash::LevelHash;
use crate::level_hash::LEVEL_AUTO_EXPAND_THRESHOLD_MAX;
use crate::level_hash::LEVEL_AUTO_EXPAND_THRESHOLD_MIN;
use crate::level_io::lemma_slot_bucket;
use crate::level_io::lemma_slot_index;
use crate::level_io::open::IndexFiles;
use crate::level_io::Entry;
use crate::level_io::LevelHashIO;
use crate::level_io::ValEntryReadExt;
use crate::result::LevelInitError;
use crate::result::LevelResult;
use crate::types::BucketIdxT;
use crate::types::BucketSizeT;
use crate::types::LevelSizeT;
use crate::types::SlotIdxT;

verus! {

impl<H1: Fn(u64, &[u8]) -> u64, H2: Fn(u64, &[u8]) -> u64> LevelHash<H1, H2> {
    /// Whether each of the first `n` slots that holds an entry is one that
    /// the key of the entry may take.
    pub open spec fn placed_up_to(&self, n: int) -> bool {
        forall|m: int|
            0 <= m < n && #[trigger] self.io.ptr_of(m) != 0 ==> self.may_take(
                self.io.level_of(m),
                self.io.index_of(m),
                self.key_at(self.io.level_of(m), self.io.index_of(m)),
            )
    }

    /// Whether another slot than the one with the index `idx` of the level
    /// `level` holds an entry with the key `key`.
    pub open spec fn held_elsewhere(&self, level: int, idx: int, key: Seq<u8>) -> bool {
        exists|l: int, i: int| (l != level || i != idx) && #[trigger] self.holds_at(l, i, key)
    }

    /// Whether none of the first `n` slots holds an entry whose key another
    /// slot holds too.
    pub open spec fn unique_up_to(&self, n: int) -> bool {
        forall|m: int|
            0 <= m < n && #[trigger] self.io.ptr_of(m) != 0 ==> !self.held_elsewhere(
                self.io.level_of(m),
                self.io.index_of(m),
                self.key_at(self.io.level_of(m), self.io.index_of(m)),
            )
    }

    /// The bookkeeping of the slots by number and by level and index says
    /// the same of where the entries are placed, and of whether a key occurs
    /// twice.
    pub proof fn lemma_numbered(&self)
        requires
            self.io.meta.meta.km_level_size <= crate::level_hash::LEVEL_SIZE_MAX,
        ensures
            self.placement_wf() <==> self.placed_up_to(self.io.total_slots()),
            self.keys_unique() <==> self.unique_up_to(self.io.total_slots()),
    {
        self.io.lemma_slot_numbers();
        let total = self.io.total_slots();
        if self.placement_wf() {
            assert forall|m: int| 0 <= m < total && #[trigger] self.io.ptr_of(m) != 0 implies self.may_take(
                self.io.level_of(m),
                self.io.index_of(m),
                self.key_at(self.io.level_of(m), self.io.index_of(m)),
            ) by {
                assert(self.io.is_slot(self.io.level_of(m), self.io.index_of(m)));
            }
        }
        if self.placed_up_to(total) {
            assert forall|level: int, idx: int|
                self.io.is_slot(level, idx) && self.io.slot_ptr(level, idx) != 0 implies self.may_take(
                level,
                idx,
                self.key_at(level, idx),
            ) by {
                let m = if level == 0 {
                    idx
                } else {
                    self.io.slots(0) + idx
                };
                assert(self.io.ptr_of(m) == self.io.slot_ptr(level, idx));
            }
        }
        if self.keys_unique() {
            assert forall|m: int| 0 <= m < total && #[trigger] self.io.ptr_of(m) != 0 implies !self.held_elsewhere(
                self.io.level_of(m),
                self.io.index_of(m),
                self.key_at(self.io.level_of(m), self.io.index_of(m)),
            ) by {
                let level = self.io.level_of(m);
                let idx = self.io.index_of(m);
                assert(self.io.is_slot(level, idx));
                if self.held_elsewhere(level, idx, self.key_at(level, idx)) {
                    let (l, i) = choose|l: int, i: int|
                        (l != level || i != idx) && #[trigger] self.holds_at(l, i, self.key_at(level, idx));
                    assert(self.key_at(l, i) != self.key_at(level, idx));
                }
            }
        }
        if self.unique_up_to(total) {
            assert forall|l1: int, i1: int, l2: int, i2: int|
                self.io.is_slot(l1, i1) && self.io.is_slot(l2, i2) && (l1 != l2 || i1 != i2)
                    && self.io.slot_ptr(l1, i1) != 0 && self.io.slot_ptr(l2, i2) != 0 implies self.key_at(
                l1,
                i1,
            ) != self.key_at(l2, i2) by {
                let m = if l1 == 0 {
                    i1
                } else {
                    self.io.slots(0) + i1
                };
                assert(self.io.ptr_of(m) == self.io.slot_ptr(l1, i1));
                if self.key_at(l1, i1) == self.key_at(l2, i2) {
                    assert(self.holds_at(l2, i2, self.key_at(l1, i1)));
                    assert(self.held_elsewhere(l1, i1, self.key_at(l1, i1)));
                }
            }
        }
    }

    /// Whether every entry sits in a slot that its key may take.
    pub fn check_placement(&self) -> (r: bool)
        requires
            self.io.consistent(),
            self.hashes_wf(),
        ensures
            r == self.placement_wf(),
    {
        proof {
            self.lemma_numbered();
            self.io.lemma_slot_numbers();
            self.io.lemma_sizes();
        }
        let (top, bottom) = self.io.slot_count();
        let total = top + bottom;
        let bucket_size = self.io.meta.read().km_bucket_size as u64;
        let mut m: u64 = 0;
        while m < total
            invariant
                self.io.consistent(),
                self.hashes_wf(),
                top == self.io.slots(0),
                total == self.io.total_slots(),
                bucket_size == self.io.bucket_size(),
                m <= total,
                self.placed_up_to(m as int),
            decreases total - m,
        {
            let level = if m < top {
                Level::L0
            } else {
                Level::L1
            };
            let idx: u64 = if m < top {
                m
            } else {
                m - top
            };
            let bucket = (idx / bucket_size) as BucketIdxT;
            let slot = (idx % bucket_size) as SlotIdxT;
            proof {
                self.io.lemma_slot_numbers();
                self.io.lemma_sizes();
                assert(self.io.is_slot(level.spec_index(), idx as int));
                lemma_slot_bucket(self.io.buckets(level.spec_index()), bucket_size as int, idx as int);
            }
            if let Some(entry) = self.io.val_entry_for_slot(level.index(), bucket, slot) {
                proof {
                    self.io.lemma_slot_live(level.spec_index(), idx as int);
                }
                let key = entry.key(&self.io.values);
                assert(key@ == self.key_at(level.spec_index(), idx as int));
                let fidx = self.buck_idx_lvl(self.fhash(key.as_slice()), level);
                let sidx = self.buck_idx_lvl(self.shash(key.as_slice()), level);
                proof {
                    let b = bucket_size as int;
                    assert(self.in_bucket(idx as int, bucket as int));
                    assert(forall|u: int| 0 <= u && self.in_bucket(idx as int, u) ==> u == bucket) by {
                        assert forall|u: int| 0 <= u && self.in_bucket(idx as int, u) implies u == bucket by {
                            assert(u * b <= idx < u * b + b && bucket * b <= idx < bucket * b + b ==> u
                                == bucket) by (nonlinear_arith)
                                requires
                                    b > 0,
                            ;
                        }
                    }
                }
                if bucket != fidx && bucket != sidx {
                    assert(!self.may_take(level.spec_index(), idx as int, key@));
                    return false;
                }
            }
            m += 1;
        }
        true
    }

    /// Whether one of the slots of the two buckets `fidx` and `sidx` of the
    /// level `level` holds an entry with the key `key`, the slot with the
    /// index `skip` of the level `skip_level` left aside.
    pub fn held_in_level(&self, level: Level, fidx: BucketIdxT, sidx: BucketIdxT, key: &[u8], skip_level: Level, skip: u64) -> (r:
        bool)
        requires
            self.io.consistent(),
            fidx < self.io.buckets(level.spec_index()),
            sidx < self.io.buckets(level.spec_index()),
        ensures
            r == exists|idx: int|
                (self.in_bucket(idx, fidx as int) || self.in_bucket(idx, sidx as int)) && (level != skip_level
                    || idx != skip) && #[trigger] self.holds_at(level.spec_index(), idx, key@),
    {
        let bucket_size = self.io.meta.read().km_bucket_size as SlotIdxT;
        let same_level = level.index() == skip_level.index();
        proof {
            self.io.lemma_sizes();
        }
        let mut j: SlotIdxT = 0;
        while j < bucket_size
            invariant
                self.io.consistent(),
                bucket_size == self.io.bucket_size(),
                fidx < self.io.buckets(level.spec_index()),
                sidx < self.io.buckets(level.spec_index()),
                same_level == (level == skip_level),
                j <= bucket_size,
                forall|idx: int|
                    (fidx * self.io.bucket_size() <= idx < fidx * self.io.bucket_size() + j || sidx
                        * self.io.bucket_size() <= idx < sidx * self.io.bucket_size() + j) && (level
                        != skip_level || idx != skip) ==> !#[trigger] self.holds_at(
                        level.spec_index(),
                        idx,
                        key@,
                    ),
            decreases bucket_size - j,
        {
            proof {
                lemma_slot_index(
                    self.io.buckets(level.spec_index()),
                    self.io.bucket_size(),
                    fidx as int,
                    j as int,
                );
                lemma_slot_index(
                    self.io.buckets(level.spec_index()),
                    self.io.bucket_size(),
                    sidx as int,
                    j as int,
                );
            }
            let f_pos: u64 = fidx as u64 * bucket_size as u64 + j as u64;
            let s_pos: u64 = sidx as u64 * bucket_size as u64 + j as u64;
            if !(same_level && f_pos == skip) && self.match_key_and_get_entry(level, fidx, j, key).is_some() {
                assert(self.in_bucket(f_pos as int, fidx as int));
                return true;
            }
            if !(same_level && s_pos == skip) && self.match_key_and_get_entry(level, sidx, j, key).is_some() {
                assert(self.in_bucket(s_pos as int, sidx as int));
                return true;
            }
            j += 1;
        }
        false
    }

    /// Whether no two slots hold entries with the same key. Every entry has
    /// to sit in a slot that its key may take.
    pub fn check_unique(&self) -> (r: bool)
        requires
            self.io.consistent(),
            self.hashes_wf(),
            self.placement_wf(),
        ensures
            r == self.keys_unique(),
    {
        proof {
            self.lemma_numbered();
            self.io.lemma_slot_numbers();
            self.io.lemma_sizes();
        }
        let (top, bottom) = self.io.slot_count();
        let total = top + bottom;
        let bucket_size = self.io.meta.read().km_bucket_size as u64;
        let has_bottom = bottom > 0;
        let mut m: u64 = 0;
        while m < total
            invariant
                self.io.consistent(),
                self.hashes_wf(),
                self.placement_wf(),
                top == self.io.slots(0),
                bottom == self.io.slots(1),
                has_bottom == (bottom > 0),
                total == self.io.total_slots(),
                bucket_size == self.io.bucket_size(),
                m <= total,
                self.unique_up_to(m as int),
            decreases total - m,
        {
            let level = if m < top {
                Level::L0
            } else {
                Level::L1
            };
            let idx: u64 = if m < top {
                m
            } else {
                m - top
            };
            let bucket = (idx / bucket_size) as BucketIdxT;
            let slot = (idx % bucket_size) as SlotIdxT;
            proof {
                self.io.lemma_slot_numbers();
                self.io.lemma_sizes();
                assert(self.io.is_slot(level.spec_index(), idx as int));
                lemma_slot_bucket(self.io.buckets(level.spec_index()), bucket_size as int, idx as int);
            }
            if let Some(entry) = self.io.val_entry_for_slot(level.index(), bucket, slot) {
                proof {
                    self.io.lemma_slot_live(level.spec_index(), idx as int);
                }
                let key = entry.key(&self.io.values);
                assert(key@ == self.key_at(level.spec_index(), idx as int));
                let fhash = self.fhash(key.as_slice());
                let shash = self.shash(key.as_slice());
                let fidx0 = self.buck_idx_lvl(fhash, Level::L0);
                let sidx0 = self.buck_idx_lvl(shash, Level::L0);
                let mut twice = self.held_in_level(Level::L0, fidx0, sidx0, key.as_slice(), level, idx);
                if !twice && has_bottom {
                    proof {
                        assert(self.io.buckets(1) > 0) by (nonlinear_arith)
                            requires
                                self.io.slots(1) == self.io.buckets(1) * self.io.bucket_size(),
                                self.io.slots(1) > 0,
                                self.io.bucket_size() >= 0,
                                self.io.buckets(1) >= 0,
                        ;
                    }
                    let fidx1 = self.buck_idx_lvl(fhash, Level::L1);
                    let sidx1 = self.buck_idx_lvl(shash, Level::L1);
                    twice = self.held_in_level(Level::L1, fidx1, sidx1, key.as_slice(), level, idx);
                }
                proof {
                    let lv = level.spec_index();
                    if self.held_elsewhere(lv, idx as int, key@) {
                        let (l, i) = choose|l: int, i: int|
                            (l != lv || i != idx) && #[trigger] self.holds_at(l, i, key@);
                        assert(self.may_take(l, i, key@));
                        assert(self.io.slots(l) > 0);
                        assert(twice);
                    }
                }
                if twice {
                    return false;
                }
            }
            m += 1;
        }
        true
    }

    /// The number of entries of the level `level`.
    pub fn count_level(&self, level: Level) -> (r: u64)
        requires
            self.io.consistent(),
        ensures
            r == count_some(self.io.table(level.spec_index())),
    {
        proof {
            self.io.lemma_sizes();
        }
        let (top, bottom) = self.io.slot_count();
        let slots = if level.index() == 0 {
            top
        } else {
            bottom
        };
        let base = if level.index() == 0 {
            0
        } else {
            top
        };
        let ghost t = self.io.table(level.spec_index());
        let mut count: u64 = 0;
        let mut idx: u64 = 0;
        assert(t.take(0) =~= Seq::<Option<Entry>>::empty());
        while idx < slots
            invariant
                self.io.consistent(),
                top == self.io.slots(0),
                slots == self.io.slots(level.spec_index()),
                base == (if level.spec_index() == 0 {
                    0
                } else {
                    self.io.slots(0)
                }),
                t == self.io.table(level.spec_index()),
                idx <= slots <= 0xff00_0000,
                count == count_some(t.take(idx as int)),
                count <= idx,
            decreases slots - idx,
        {
            proof {
                assert(t.take(idx + 1).drop_last() =~= t.take(idx as int));
                assert(t.take(idx + 1).last() == t[idx as int]);
                assert(self.io.is_slot(level.spec_index(), idx as int));
                assert(self.io.ptr_of(base + idx) == self.io.slot_ptr(level.spec_index(), idx as int));
            }
            if self.io.read_slot(base + idx) != 0 {
                count += 1;
            }
            idx += 1;
        }
        assert(t.take(slots as int) =~= t);
        count
    }

    /// Whether `self` is the index that the files hold, opened with the
    /// given settings.
    pub open spec fn opened_with(
        &self,
        files: &IndexFiles,
        level_size: LevelSizeT,
        bucket_size: BucketSizeT,
        unique_keys: bool,
        auto_expand: bool,
        load_factor_threshold: u16,
        seed_1: u64,
        seed_2: u64,
        hashfn_1: H1,
        hashfn_2: H2,
    ) -> bool {
        &&& self.io.opened_from(files.values@, files.keymap@, files.meta@, level_size, bucket_size)
        &&& self.unique_keys == unique_keys
        &&& self.auto_expand == auto_expand
        &&& self.load_factor_threshold == load_factor_threshold
        &&& self.seed_1 == seed_1
        &&& self.seed_2 == seed_2
        &&& self.hashfn_1 == hashfn_1
        &&& self.hashfn_2 == hashfn_2
        &&& self.expand_count == 0
    }

    /// Whether the files hold an index that can be opened with the given
    /// settings: the level size and the bucket size are within their limits,
    /// and the index that the files hold is well-formed with these settings.
    pub open spec fn openable(
        files: &IndexFiles,
        level_size: LevelSizeT,
        bucket_size: BucketSizeT,
        unique_keys: bool,
        auto_expand: bool,
        load_factor_threshold: u16,
        seed_1: u64,
        seed_2: u64,
        hashfn_1: H1,
        hashfn_2: H2,
    ) -> bool {
        &&& level_size <= crate::level_hash::LEVEL_SIZE_MAX
        &&& bucket_size >= 1
        &&& exists|hash: Self|
            #[trigger] hash.opened_with(
                files,
                level_size,
                bucket_size,
                unique_keys,
                auto_expand,
                load_factor_threshold,
                seed_1,
                seed_2,
                hashfn_1,
                hashfn_2,
            ) && hash.wf()
    }

    /// Whether an index can be made with the given level size, bucket size
    /// and threshold: the three are within their limits, and the keymap
    /// region of the new index can be mapped.
    pub open spec fn creatable(level_size: LevelSizeT, bucket_size: BucketSizeT, load_factor_threshold: u16) -> bool {
        &&& level_size <= crate::level_hash::LEVEL_SIZE_MAX
        &&& bucket_size >= 1
        &&& LEVEL_AUTO_EXPAND_THRESHOLD_MIN <= load_factor_threshold <= LEVEL_AUTO_EXPAND_THRESHOLD_MAX
        &&& crate::io::MappedFile::mappable(
            LevelHashIO::KEYMAP_HEADER_SIZE_BYTES,
            LevelHashIO::new_km_size(level_size, bucket_size) as u64,
        )
    }

    /// An index without an entry has every entry in a slot that its key may
    /// take, holds no key twice, and holds nothing.
    pub proof fn lemma_empty(&self)
        requires
            self.io.all_empty(),
        ensures
            self.placement_wf(),
            self.keys_unique(),
            self.entries() == vstd::multiset::Multiset::<Entry>::empty(),
            count_some(self.io.table(0)) == 0,
            count_some(self.io.table(1)) == 0,
    {
        assert forall|i: int| 0 <= i < self.io.table(0).len() implies self.io.table(0)[i] is None by {
            assert(self.io.is_slot(0, i));
            assert(self.io.entry_at(0, i) == None::<Entry>);
        }
        assert forall|i: int| 0 <= i < self.io.table(1).len() implies self.io.table(1)[i] is None by {
            assert(self.io.is_slot(1, i));
            assert(self.io.entry_at(1, i) == None::<Entry>);
        }
        crate::bag::lemma_bag_none(self.io.table(0));
        crate::bag::lemma_bag_none(self.io.table(1));
        assert(self.entries() =~= vstd::multiset::Multiset::<Entry>::empty());
    }

    /// Two indexes with the same settings whose regions hold the same bytes
    /// are placed alike, and have keys that occur twice alike.
    pub proof fn lemma_same_placement(&self, other: &Self)
        requires
            self.same_settings(other),
            self.io.same_as(&other.io),
            other.io.consistent(),
            self.io.values.wf(),
            self.io.keymap.wf(),
        ensures
            self.io.consistent(),
            other.placement_wf() ==> self.placement_wf(),
            other.keys_unique() ==> self.keys_unique(),
            self.io.table(0) == other.io.table(0),
            self.io.table(1) == other.io.table(1),
    {
        self.io.lemma_same_consistent(&other.io);
        assert(self.io.table(0) =~= other.io.table(0));
        assert(self.io.table(1) =~= other.io.table(1));
        if other.placement_wf() {
            assert forall|level: int, idx: int|
                self.io.is_slot(level, idx) && self.io.slot_ptr(level, idx) != 0 implies self.may_take(
                level,
                idx,
                self.key_at(level, idx),
            ) by {
                assert(other.may_take(level, idx, other.key_at(level, idx)));
            }
        }
        if other.keys_unique() {
            assert forall|l1: int, i1: int, l2: int, i2: int|
                self.io.is_slot(l1, i1) && self.io.is_slot(l2, i2) && (l1 != l2 || i1 != i2)
                    && self.io.slot_ptr(l1, i1) != 0 && self.io.slot_ptr(l2, i2) != 0 implies self.key_at(
                l1,
                i1,
            ) != self.key_at(l2, i2) by {
                assert(other.key_at(l1, i1) != other.key_at(l2, i2));
            }
        }
    }

    /// Opens the index that the three files hold.
    ///
    /// The files are refused as an invalid argument where they hold no
    /// consistent index, where an entry sits in a slot that its key may not
    /// take with these seeds and hash functions, and, with unique keys,
    /// where a key occurs twice. So is a threshold that is out of range.
    /// The two hash functions have to be functions of seed and key.
    pub fn new(
        files: IndexFiles,
        level_size: LevelSizeT,
        bucket_size: BucketSizeT,
        unique_keys: bool,
        auto_expand: bool,
        load_factor_threshold: u16,
        seed_1: u64,
        seed_2: u64,
        hashfn_1: H1,
        hashfn_2: H2,
    ) -> (r: LevelResult<Self, LevelInitError>)
        requires
            hash_total(hashfn_1),
            hash_det(hashfn_1),
            hash_total(hashfn_2),
            hash_det(hashfn_2),
        ensures
            r matches Ok(hash) ==> {
                &&& hash.wf()
                &&& hash.io.opened_from(files.values@, files.keymap@, files.meta@, level_size, bucket_size)
                &&& hash.unique_keys == unique_keys
                &&& hash.auto_expand == auto_expand
                &&& hash.load_factor_threshold == load_factor_threshold
                &&& hash.seed_1 == seed_1
                &&& hash.seed_2 == seed_2
                &&& hash.hashfn_1 == hashfn_1
                &&& hash.hashfn_2 == hashfn_2
                &&& hash.expand_count == 0
            },
            r is Ok <==> Self::openable(
                &files,
                level_size,
                bucket_size,
                unique_keys,
                auto_expand,
                load_factor_threshold,
                seed_1,
                seed_2,
                hashfn_1,
                hashfn_2,
            ),
            r matches Err(e) ==> e is MmapError || e is InvalidArg,
            (r matches Err(LevelInitError::MmapError(_))) <==> LEVEL_AUTO_EXPAND_THRESHOLD_MIN
                <= load_factor_threshold <= LEVEL_AUTO_EXPAND_THRESHOLD_MAX && LevelHashIO::unmappable(
                files.meta@,
                level_size,
                bucket_size,
            ),
            files.fresh() && Self::creatable(level_size, bucket_size, load_factor_threshold) ==> r is Ok
                && r->Ok_0.entries() == vstd::multiset::Multiset::<Entry>::empty() && r->Ok_0.occupied() == 0,
    {
        let ghost possible = Self::openable(
            &files,
            level_size,
            bucket_size,
            unique_keys,
            auto_expand,
            load_factor_threshold,
            seed_1,
            seed_2,
            hashfn_1,
            hashfn_2,
        );
        let ghost other: Self = choose|hash: Self|
            #[trigger] hash.opened_with(
                &files,
                level_size,
                bucket_size,
                unique_keys,
                auto_expand,
                load_factor_threshold,
                seed_1,
                seed_2,
                hashfn_1,
                hashfn_2,
            ) && hash.wf();
        let ghost fresh = files.fresh();
        if load_factor_threshold < LEVEL_AUTO_EXPAND_THRESHOLD_MIN || load_factor_threshold
            > LEVEL_AUTO_EXPAND_THRESHOLD_MAX {
            return Err(
                LevelInitError::InvalidArg("threshold value must be between 500 and 1000 thousandths".to_owned()),
            );
        }
        let io = match LevelHashIO::new(files, level_size, bucket_size) {
            Ok(io) => io,
            Err(e) => {
                proof {
                    if possible {
                        assert(other.io.opened_from(
                            files.values@,
                            files.keymap@,
                            files.meta@,
                            level_size,
                            bucket_size,
                        ) && other.io.wf());
                    }
                }
                return Err(e);
            },
        };
        let mut hash = Self {
            unique_keys,
            auto_expand,
            load_factor_threshold,
            seed_1,
            seed_2,
            hashfn_1,
            hashfn_2,
            item_counts: [0u64, 0],
            expand_count: 0,
            io,
        };
        proof {
            if possible {
                hash.lemma_same_placement(&other);
            }
            if fresh {
                hash.lemma_empty();
            }
        }
        if !hash.check_placement() {
            return Err(
                LevelInitError::InvalidArg(
                    "the entries of the index are not where these seeds and hash functions put them".to_owned(),
                ),
            );
        }
        if unique_keys && !hash.check_unique() {
            return Err(LevelInitError::InvalidArg("the index holds a key twice".to_owned()));
        }
        let top_count = hash.count_level(Level::L0);
        let bottom_count = hash.count_level(Level::L1);
        hash.item_counts = [top_count, bottom_count];
        proof {
            lemma_bag_len(hash.io.table(0));
            assert(hash.wf());
            assert(hash.opened_with(
                &files,
                level_size,
                bucket_size,
                unique_keys,
                auto_expand,
                load_factor_threshold,
                seed_1,
                seed_2,
                hashfn_1,
                hashfn_2,
            ));
        }
        Ok(hash)
    }

    /// The contents of the three files that hold the index.
    pub fn into_files(self) -> (r: IndexFiles)
        ensures
            r.holds_index(&self.io),
    {
        self.io.into_files()
    }
}

} // verus!
