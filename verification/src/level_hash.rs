use vstd::prelude::*;
use vstd::multiset::Multiset;
use crate::bag::bag_of;
use crate::bag::count_some;
use crate::level_io::rec_key;
use crate::level_io::Entry;
use crate::level_io::LevelHashIO;
use crate::meta::lemma_bucket_counts;
use crate::types::LevelIdxT;

pub mod expand;
pub mod find;
pub mod insert;
pub mod modify;
pub mod movement;
pub mod open;
pub mod options;
pub mod place;

verus! {

pub const LEVEL_SIZE_DEFAULT: u8 = 8;

pub const LEVEL_SIZE_MAX: u8 = crate::meta::LEVEL_SIZE_MAX;

pub const BUCKET_SIZE_DEFAULT: u8 = 10;

pub const BUCKET_SIZE_MAX: u8 = u8::MAX;

/// The default of the load factor at which an index expands by itself, in
/// thousandths.
pub const LEVEL_AUTO_EXPAND_THRESHOLD_DEFAULT: u16 = 900;

/// The smallest load factor that can be set as the threshold, in thousandths.
pub const LEVEL_AUTO_EXPAND_THRESHOLD_MIN: u16 = 500;

/// The largest load factor that can be set as the threshold, in thousandths.
pub const LEVEL_AUTO_EXPAND_THRESHOLD_MAX: u16 = 1000;

pub const LEVEL_COUNT: usize = 2;

/// One of the two levels of an index.
#[derive(Ord, PartialOrd, Eq, PartialEq, Debug, Copy, Clone)]
pub enum Level {
    /// The top level.
    L0,
    /// The bottom level, which has half the buckets of the top level.
    L1,
}

impl Level {
    /// The number of the level: 0 for the top level, 1 for the bottom level.
    pub open spec fn spec_index(self) -> int {
        match self {
            Level::L0 => 0,
            Level::L1 => 1,
        }
    }

    /// The number of the level: 0 for the top level, 1 for the bottom level.
    pub fn index(self) -> (r: LevelIdxT)
        ensures
            r == self.spec_index(),
    {
        match self {
            Level::L0 => 0,
            Level::L1 => 1,
        }
    }
}

/// Whether the hash function `f` can be called on every seed and key.
pub open spec fn hash_total<H: Fn(u64, &[u8]) -> u64>(f: H) -> bool {
    forall|seed: u64, key: &[u8]| #[trigger] f.requires((seed, key))
}

/// Whether `o` is a hash that `f` may give for `seed` and the bytes `key`.
pub open spec fn hash_out<H: Fn(u64, &[u8]) -> u64>(f: H, seed: u64, key: Seq<u8>, o: u64) -> bool {
    exists|k: &[u8]| k@ == key && #[trigger] f.ensures((seed, k), o)
}

/// Whether the hash function `f` is a function of the seed and the bytes of
/// the key: it gives the same hash whenever it is called on the same seed
/// and the same bytes.
pub open spec fn hash_det<H: Fn(u64, &[u8]) -> u64>(f: H) -> bool {
    forall|seed: u64, k1: &[u8], k2: &[u8], o1: u64, o2: u64|
        k1@ == k2@ && #[trigger] f.ensures((seed, k1), o1) && #[trigger] f.ensures((seed, k2), o2) ==> o1
            == o2
}

/// The hash that `f` gives for `seed` and the bytes `key`.
pub open spec fn hash_of<H: Fn(u64, &[u8]) -> u64>(f: H, seed: u64, key: Seq<u8>) -> u64 {
    choose|o: u64| hash_out(f, seed, key, o)
}

/// The bucket that a key with the hash `hash` goes to in a level of
/// `capacity` buckets, which is a power of two: the lowest bits of the hash.
pub open spec fn bucket_of(hash: u64, capacity: u64) -> int {
    (hash & ((capacity - 1) as u64)) as int
}

/// The bucket of a hash is one of the buckets of the level.
pub proof fn lemma_bucket_of(hash: u64, capacity: u64)
    requires
        capacity >= 1,
    ensures
        0 <= bucket_of(hash, capacity) < capacity,
{
    let m = (capacity - 1) as u64;
    assert(hash & m <= m) by (bit_vector);
}

/// Level hash is a write-optimized and high-performance hashing index scheme with cost-efficient
/// resizing and low-overhead consistency guarantee for persistent memory.
///
/// **Level size and bucket size**
///
/// The level size is used to determine the total capacity of the level hash,
/// while the bucket size is the number of slots in each bucket. These two
/// properties define the overall performance (load factor) of the level hash
/// (in terms of hash collisions and insertion failures). As a result, the values
/// for these properties must be chosen carefully.
///
/// ```text
/// Load factor = occupied slots / total slots
/// ```
///
/// When the load factor of the level hash increases, the hash collisions increase
/// as well. This results in decreased access performance and insertion failures.
pub struct LevelHash<H1: Fn(u64, &[u8]) -> u64, H2: Fn(u64, &[u8]) -> u64> {
    pub unique_keys: bool,
    pub auto_expand: bool,
    /// The load factor at which the index expands by itself, in thousandths.
    pub load_factor_threshold: u16,
    pub seed_1: u64,
    pub seed_2: u64,
    pub hashfn_1: H1,
    pub hashfn_2: H2,
    /// The number of entries in the top level and in the bottom level.
    pub item_counts: [u64; 2],
    /// The number of expansions since the index was opened or cleared.
    pub expand_count: u32,
    pub io: LevelHashIO,
}

impl<H1: Fn(u64, &[u8]) -> u64, H2: Fn(u64, &[u8]) -> u64> LevelHash<H1, H2> {
    /// The first hash of `key`.
    pub open spec fn h1(&self, key: Seq<u8>) -> u64 {
        hash_of(self.hashfn_1, self.seed_1, key)
    }

    /// The second hash of `key`.
    pub open spec fn h2(&self, key: Seq<u8>) -> u64 {
        hash_of(self.hashfn_2, self.seed_2, key)
    }

    /// The bucket of the level `level` that the first hash of `key` selects.
    pub open spec fn first_bucket(&self, level: int, key: Seq<u8>) -> int {
        bucket_of(self.h1(key), self.io.buckets(level) as u64)
    }

    /// The bucket of the level `level` that the second hash of `key` selects.
    pub open spec fn second_bucket(&self, level: int, key: Seq<u8>) -> int {
        bucket_of(self.h2(key), self.io.buckets(level) as u64)
    }

    /// Whether the slot with the index `idx` belongs to the bucket `bucket`.
    pub open spec fn in_bucket(&self, idx: int, bucket: int) -> bool {
        bucket * self.io.bucket_size() <= idx < bucket * self.io.bucket_size() + self.io.bucket_size()
    }

    /// Whether the slot with the index `idx` of the level `level` is one
    /// that `key` may take: it belongs to one of the two buckets that the
    /// hashes of the key select in that level.
    pub open spec fn may_take(&self, level: int, idx: int, key: Seq<u8>) -> bool {
        self.in_bucket(idx, self.first_bucket(level, key)) || self.in_bucket(
            idx,
            self.second_bucket(level, key),
        )
    }

    /// The key of the entry that the slot with the index `idx` of the level
    /// `level` holds.
    pub open spec fn key_at(&self, level: int, idx: int) -> Seq<u8> {
        rec_key(self.io.values.map@, self.io.slot_ptr(level, idx))
    }

    /// Whether the slot with the index `idx` of the level `level` holds an
    /// entry with the key `key`.
    pub open spec fn holds_at(&self, level: int, idx: int, key: Seq<u8>) -> bool {
        &&& self.io.is_slot(level, idx)
        &&& self.io.slot_ptr(level, idx) != 0
        &&& rec_key(self.io.values.map@, self.io.slot_ptr(level, idx)) == key
    }

    /// Whether the index holds an entry with the key `key`.
    pub open spec fn holds(&self, key: Seq<u8>) -> bool {
        exists|level: int, idx: int| self.holds_at(level, idx, key)
    }

    /// The entries of the index: what its slots hold, each entry as often
    /// as a slot holds it.
    pub open spec fn entries(&self) -> Multiset<Entry> {
        bag_of(self.io.table(0)).add(bag_of(self.io.table(1)))
    }

    /// The number of slots of the two levels together.
    pub open spec fn spec_total_slots(&self) -> int {
        self.io.slots(0) + self.io.slots(1)
    }

    /// The number of entries of the index.
    pub open spec fn occupied(&self) -> int {
        self.item_counts[0] + self.item_counts[1]
    }

    /// Every entry sits in a slot that its key may take.
    pub open spec fn placement_wf(&self) -> bool {
        forall|level: int, idx: int|
            #![trigger self.io.slot_ptr(level, idx)]
            self.io.is_slot(level, idx) && self.io.slot_ptr(level, idx) != 0 ==> self.may_take(
                level,
                idx,
                rec_key(self.io.values.map@, self.io.slot_ptr(level, idx)),
            )
    }

    /// No two slots hold entries with the same key.
    pub open spec fn keys_unique(&self) -> bool {
        forall|l1: int, i1: int, l2: int, i2: int|
            #![trigger self.io.slot_ptr(l1, i1), self.io.slot_ptr(l2, i2)]
            self.io.is_slot(l1, i1) && self.io.is_slot(l2, i2) && (l1 != l2 || i1 != i2)
                && self.io.slot_ptr(l1, i1) != 0 && self.io.slot_ptr(l2, i2) != 0 ==> rec_key(
                self.io.values.map@,
                self.io.slot_ptr(l1, i1),
            ) != rec_key(self.io.values.map@, self.io.slot_ptr(l2, i2))
    }

    /// The two hash functions are functions of seed and key that can be
    /// called on every input.
    pub open spec fn hashes_wf(&self) -> bool {
        &&& hash_total(self.hashfn_1)
        &&& hash_det(self.hashfn_1)
        &&& hash_total(self.hashfn_2)
        &&& hash_det(self.hashfn_2)
    }

    /// The index is consistent and at rest, every entry sits in a slot that
    /// its key may take, the counters count the entries of each level, and
    /// with unique keys no key occurs twice.
    pub open spec fn wf(&self) -> bool {
        &&& self.io.wf()
        &&& self.hashes_wf()
        &&& LEVEL_AUTO_EXPAND_THRESHOLD_MIN <= self.load_factor_threshold
            <= LEVEL_AUTO_EXPAND_THRESHOLD_MAX
        &&& self.placement_wf()
        &&& self.unique_keys ==> self.keys_unique()
        &&& self.item_counts[0] == count_some(self.io.table(0))
        &&& self.item_counts[1] == count_some(self.io.table(1))
        &&& self.expand_count <= self.io.meta.meta.km_level_size
    }

    /// Whether `other` has the settings of `self`: the same seeds and hash
    /// functions, and the same choices on unique keys and on expansion.
    pub open spec fn same_settings(&self, other: &Self) -> bool {
        &&& self.unique_keys == other.unique_keys
        &&& self.auto_expand == other.auto_expand
        &&& self.load_factor_threshold == other.load_factor_threshold
        &&& self.seed_1 == other.seed_1
        &&& self.seed_2 == other.seed_2
        &&& self.hashfn_1 == other.hashfn_1
        &&& self.hashfn_2 == other.hashfn_2
    }

    /// Whether `self` and `other` are in the same state: they have the same
    /// settings and counters, their regions hold the same bytes, and their
    /// meta records are the same.
    pub open spec fn same_as(&self, other: &Self) -> bool {
        &&& self.same_settings(other)
        &&& self.item_counts == other.item_counts
        &&& self.expand_count == other.expand_count
        &&& self.io.same_as(&other.io)
    }

    /// Two indexes in the same state are well-formed alike and hold the
    /// same entries in the same slots.
    pub proof fn lemma_same_as(&self, other: &Self)
        requires
            self.same_as(other),
            other.wf(),
        ensures
            self.wf(),
            self.io.table(0) == other.io.table(0),
            self.io.table(1) == other.io.table(1),
            self.entries() == other.entries(),
            forall|level: int, idx: int|
                #![trigger self.io.slot_ptr(level, idx)]
                self.io.slot_ptr(level, idx) == other.io.slot_ptr(level, idx),
    {
        reveal(LevelHashIO::slot_ptr);
        assert(self.io.table(0) =~= other.io.table(0));
        assert(self.io.table(1) =~= other.io.table(1));
        assert forall|level: int, idx: int| self.io.slot_ptr(level, idx) == other.io.slot_ptr(level, idx) by {}
        assert forall|level: int, idx: int|
            self.io.is_slot(level, idx) && self.io.slot_ptr(level, idx) != 0 implies self.may_take(
            level,
            idx,
            self.key_at(level, idx),
        ) by {
            assert(other.may_take(level, idx, other.key_at(level, idx)));
        }
        if self.unique_keys {
            assert forall|l1: int, i1: int, l2: int, i2: int|
                self.io.is_slot(l1, i1) && self.io.is_slot(l2, i2) && (l1 != l2 || i1 != i2)
                    && self.io.slot_ptr(l1, i1) != 0 && self.io.slot_ptr(l2, i2) != 0 implies self.key_at(
                l1,
                i1,
            ) != self.key_at(l2, i2) by {
                assert(other.key_at(l1, i1) != other.key_at(l2, i2));
            }
        }
        assert forall|l1: int, i1: int, l2: int, i2: int|
            self.io.is_slot(l1, i1) && self.io.is_slot(l2, i2) && (l1 != l2 || i1 != i2) && self.io.slot_ptr(
                l1,
                i1,
            ) != 0 && self.io.slot_ptr(l2, i2) != 0 implies self.io.apart(
            self.io.slot_ptr(l1, i1),
            self.io.slot_ptr(l2, i2),
        ) by {
            assert(other.io.apart(other.io.slot_ptr(l1, i1), other.io.slot_ptr(l2, i2)));
        }
    }

    /// Get the number of buckets in the top level.
    #[inline]
    pub fn top_level_bucket_count(&self) -> (r: u32)
        requires
            self.io.meta.meta.km_level_size <= LEVEL_SIZE_MAX,
        ensures
            r == self.io.buckets(0),
    {
        self.io.bucket_count(0)
    }

    /// Get the total number of buckets in the level hash.
    pub fn total_bucket_count(&self) -> (r: u32)
        requires
            self.io.meta.meta.km_level_size <= LEVEL_SIZE_MAX,
        ensures
            r == self.io.buckets(0) + self.io.buckets(1),
    {
        proof {
            lemma_bucket_counts(self.io.meta.meta.km_level_size);
        }
        let top_level = self.top_level_bucket_count();
        return top_level + (top_level >> 1);
    }

    /// Get the total number of slots in the level hash: those of the top
    /// level and those of the bottom level.
    #[inline]
    pub fn total_slots(&self) -> (r: u64)
        requires
            self.io.meta.meta.km_level_size <= LEVEL_SIZE_MAX,
        ensures
            r == self.spec_total_slots(),
    {
        proof {
            self.io.lemma_sizes();
            lemma_bucket_counts(self.io.meta.meta.km_level_size);
            let n0 = self.io.buckets(0);
            let n1 = self.io.buckets(1);
            let b = self.io.bucket_size();
            assert((n0 + n1) * b == n0 * b + n1 * b) by (nonlinear_arith);
        }
        let meta = self.io.meta.read();
        return (self.total_bucket_count() as u64) * meta.km_bucket_size as u64;
    }

    /// Get the load factor of the level hash, as the number of entries and
    /// the number of slots: the load factor is the first divided by the
    /// second.
    pub fn load_factor(&self) -> (r: (u64, u64))
        requires
            self.wf(),
        ensures
            r.0 == self.occupied(),
            r.1 == self.spec_total_slots(),
            r.0 <= r.1,
            r.1 > 0,
    {
        proof {
            self.io.lemma_sizes();
            crate::bag::lemma_bag_len(self.io.table(0));
            crate::bag::lemma_bag_len(self.io.table(1));
            assert(self.io.slots(0) >= 1) by (nonlinear_arith)
                requires
                    self.io.slots(0) == self.io.buckets(0) * self.io.bucket_size(),
                    self.io.buckets(0) >= 1,
                    self.io.bucket_size() >= 1,
            ;
        }
        let sum = self.item_counts[0] + self.item_counts[1];
        (sum, self.total_slots())
    }
}

} // verus!
