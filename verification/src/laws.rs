//! What holds of the operations of an index taken together.

use vstd::prelude::*;
use crate::level_hash::LevelHash;
use crate::level_io::open::IndexFiles;
use crate::level_io::LevelHashIO;
use crate::meta::lemma_bucket_counts;
use crate::meta::MetaIO;
use crate::meta::LEVEL_SIZE_MAX;
use crate::types::BucketSizeT;
use crate::types::LevelSizeT;

verus! {

/// An index holds an entry with a key exactly if it holds the key with some
/// value.
pub proof fn law_holds_some_value<H1: Fn(u64, &[u8]) -> u64, H2: Fn(u64, &[u8]) -> u64>(
    hash: &LevelHash<H1, H2>,
    key: Seq<u8>,
)
    ensures
        hash.holds(key) <==> exists|value: Seq<u8>| hash.stored_under(key, value),
{
    if hash.holds(key) {
        let (level, idx) = choose|level: int, idx: int| hash.holds_at(level, idx, key);
        let value = crate::level_io::rec_value(hash.io.values.map@, hash.io.slot_ptr(level, idx));
        assert(hash.stored_under(key, value));
    }
}

/// With unique keys an index holds one value under a key at most, so a
/// lookup of the key can give no other.
pub proof fn law_one_value_per_key<H1: Fn(u64, &[u8]) -> u64, H2: Fn(u64, &[u8]) -> u64>(
    hash: &LevelHash<H1, H2>,
    key: Seq<u8>,
    value: Seq<u8>,
    other: Seq<u8>,
)
    requires
        hash.wf(),
        hash.unique_keys,
        hash.stored_under(key, value),
        hash.stored_under(key, other),
    ensures
        value == other,
{
    let (l1, i1) = choose|level: int, idx: int|
        hash.holds_at(level, idx, key) && crate::level_io::rec_value(
            hash.io.values.map@,
            hash.io.slot_ptr(level, idx),
        ) == value;
    let (l2, i2) = choose|level: int, idx: int|
        hash.holds_at(level, idx, key) && crate::level_io::rec_value(
            hash.io.values.map@,
            hash.io.slot_ptr(level, idx),
        ) == other;
    if l1 != l2 || i1 != i2 {
        assert(hash.key_at(l1, i1) != hash.key_at(l2, i2));
    }
}

/// After an insertion the index holds the new entry, and under every other
/// key what it held. With unique keys it holds the new value and no other
/// under the key.
pub proof fn law_insert_then_get<H1: Fn(u64, &[u8]) -> u64, H2: Fn(u64, &[u8]) -> u64>(
    before: &LevelHash<H1, H2>,
    after: &LevelHash<H1, H2>,
    key: Seq<u8>,
    value: Seq<u8>,
)
    requires
        before.wf(),
        after.grown_by(before, key, value),
    ensures
        after.holds(key),
        after.stored_under(key, value),
        forall|k: Seq<u8>, v: Seq<u8>| k != key ==> after.stored_under(k, v) == before.stored_under(k, v),
        after.unique_keys ==> forall|v: Seq<u8>| after.stored_under(key, v) ==> v == value,
{
    after.lemma_stored(key, value);
    assert forall|k: Seq<u8>, v: Seq<u8>| k != key implies after.stored_under(k, v) == before.stored_under(
        k,
        v,
    ) by {
        after.lemma_stored(k, v);
        before.lemma_stored(k, v);
    }
    if after.unique_keys {
        assert forall|v: Seq<u8>| after.stored_under(key, v) implies v == value by {
            law_one_value_per_key(after, key, v, value);
        }
    }
}

/// After a removal the index holds under every other key what it held.
/// With unique keys a lookup of the key that was removed finds nothing.
pub proof fn law_remove_then_get<H1: Fn(u64, &[u8]) -> u64, H2: Fn(u64, &[u8]) -> u64>(
    before: &LevelHash<H1, H2>,
    after: &LevelHash<H1, H2>,
    key: Seq<u8>,
    value: Seq<u8>,
)
    requires
        before.wf(),
        after.shrunk_by(before, key, value),
    ensures
        forall|k: Seq<u8>, v: Seq<u8>| k != key ==> after.stored_under(k, v) == before.stored_under(k, v),
        after.unique_keys ==> !after.holds(key),
{
    assert forall|k: Seq<u8>, v: Seq<u8>| k != key implies after.stored_under(k, v) == before.stored_under(
        k,
        v,
    ) by {
        after.lemma_stored(k, v);
        before.lemma_stored(k, v);
    }
}

/// After an update the index holds the new value under the key, and under
/// every other key what it held. With unique keys it holds no other value
/// under the key.
pub proof fn law_update_then_get<H1: Fn(u64, &[u8]) -> u64, H2: Fn(u64, &[u8]) -> u64>(
    before: &LevelHash<H1, H2>,
    after: &LevelHash<H1, H2>,
    key: Seq<u8>,
    value: Seq<u8>,
    new_value: Seq<u8>,
)
    requires
        before.wf(),
        after.revalued(before, key, value, new_value),
    ensures
        after.stored_under(key, new_value),
        forall|k: Seq<u8>, v: Seq<u8>| k != key ==> after.stored_under(k, v) == before.stored_under(k, v),
        after.unique_keys ==> forall|v: Seq<u8>| after.stored_under(key, v) ==> v == new_value,
{
    after.lemma_stored(key, new_value);
    assert forall|k: Seq<u8>, v: Seq<u8>| k != key implies after.stored_under(k, v) == before.stored_under(
        k,
        v,
    ) by {
        after.lemma_stored(k, v);
        before.lemma_stored(k, v);
    }
    if after.unique_keys {
        assert forall|v: Seq<u8>| after.stored_under(key, v) implies v == new_value by {
            law_one_value_per_key(after, key, v, new_value);
        }
    }
}

/// An expansion keeps what the index holds: the number of entries stays,
/// and every key that could be looked up can still be looked up, with the
/// value that it had.
pub proof fn law_expand_keeps_entries<H1: Fn(u64, &[u8]) -> u64, H2: Fn(u64, &[u8]) -> u64>(
    before: &LevelHash<H1, H2>,
    after: &LevelHash<H1, H2>,
)
    requires
        before.wf(),
        after.expanded(before),
    ensures
        after.occupied() == before.occupied(),
        after.entries() == before.entries(),
        forall|key: Seq<u8>, value: Seq<u8>| after.stored_under(key, value) == before.stored_under(key, value),
        forall|key: Seq<u8>| after.holds(key) == before.holds(key),
{
    assert forall|key: Seq<u8>, value: Seq<u8>| after.stored_under(key, value) == before.stored_under(
        key,
        value,
    ) by {
        after.lemma_stored(key, value);
        before.lemma_stored(key, value);
    }
    assert forall|key: Seq<u8>| after.holds(key) == before.holds(key) by {
        law_holds_some_value(after, key);
        law_holds_some_value(before, key);
    }
}

/// An expansion raises the level size by one, makes the interim level,
/// which was built at the end of the keymap region, the top level, and
/// makes the top level the bottom level.
pub proof fn law_expand_moves_levels<H1: Fn(u64, &[u8]) -> u64, H2: Fn(u64, &[u8]) -> u64>(
    before: &LevelHash<H1, H2>,
    after: &LevelHash<H1, H2>,
)
    requires
        before.wf(),
        after.expanded(before),
    ensures
        after.io.meta.meta.km_level_size == before.io.meta.meta.km_level_size + 1,
        after.io.meta.meta.km_l0_addr == before.io.keymap.size,
        after.io.meta.meta.km_l1_addr == before.io.meta.meta.km_l0_addr,
        after.io.buckets(0) == 2 * before.io.buckets(0),
        after.io.buckets(1) == before.io.buckets(0),
{
    lemma_bucket_counts(before.io.meta.meta.km_level_size);
}

/// The files of an index hold the index: it can be opened from them again
/// with the same seeds and hash functions, and the index that is opened
/// holds what the index held. The level size that the index is opened with
/// counts only where the index has the level size zero.
pub proof fn law_reopen<H1: Fn(u64, &[u8]) -> u64, H2: Fn(u64, &[u8]) -> u64>(
    hash: &LevelHash<H1, H2>,
    files: &IndexFiles,
    level_size: LevelSizeT,
    bucket_size: BucketSizeT,
)
    requires
        hash.wf(),
        files.holds_index(&hash.io),
        level_size <= LEVEL_SIZE_MAX,
        bucket_size >= 1,
        hash.io.meta.meta.km_level_size != 0 || level_size == 0,
    ensures
        LevelHash::<H1, H2>::openable(
            files,
            level_size,
            bucket_size,
            hash.unique_keys,
            hash.auto_expand,
            hash.load_factor_threshold,
            hash.seed_1,
            hash.seed_2,
            hash.hashfn_1,
            hash.hashfn_2,
        ),
        forall|other: LevelHash<H1, H2>|
            #[trigger] other.opened_with(
                files,
                level_size,
                bucket_size,
                hash.unique_keys,
                hash.auto_expand,
                hash.load_factor_threshold,
                hash.seed_1,
                hash.seed_2,
                hash.hashfn_1,
                hash.hashfn_2,
            ) ==> other.entries() == hash.entries() && forall|key: Seq<u8>, value: Seq<u8>|
                other.stored_under(key, value) == hash.stored_under(key, value),
{
    reveal(LevelHashIO::meta_from);
    hash.io.lemma_sizes();
    assert(crate::io::resized(files.meta@, MetaIO::META_SIZE_BYTES as int) =~= files.meta@);
    assert(LevelHashIO::meta_from(files.meta@, level_size, bucket_size) == hash.io.meta.meta);
    let again = LevelHash::<H1, H2> { expand_count: 0, ..*hash };
    assert(again.io.values@ =~= LevelHashIO::body_of(
        files.values@,
        LevelHashIO::VALUES_MAGIC_NUMBER,
        hash.io.meta.meta.val_file_size as int,
    ));
    assert(again.io.keymap@ =~= LevelHashIO::body_of(
        files.keymap@,
        LevelHashIO::KEYMAP_MAGIC_NUMBER,
        hash.io.meta.spec_km_size(),
    ));
    assert(again.opened_with(
        files,
        level_size,
        bucket_size,
        hash.unique_keys,
        hash.auto_expand,
        hash.load_factor_threshold,
        hash.seed_1,
        hash.seed_2,
        hash.hashfn_1,
        hash.hashfn_2,
    ));
    assert(again.wf()) by {
        assert(again.io == hash.io);
    }
    assert forall|other: LevelHash<H1, H2>|
        #[trigger] other.opened_with(
            files,
            level_size,
            bucket_size,
            hash.unique_keys,
            hash.auto_expand,
            hash.load_factor_threshold,
            hash.seed_1,
            hash.seed_2,
            hash.hashfn_1,
            hash.hashfn_2,
        ) implies other.entries() == hash.entries() && forall|key: Seq<u8>, value: Seq<u8>|
        other.stored_under(key, value) == hash.stored_under(key, value) by {
        assert(other.io.same_as(&hash.io));
        reveal(LevelHashIO::slot_ptr);
        assert(other.io.table(0) =~= hash.io.table(0));
        assert(other.io.table(1) =~= hash.io.table(1));
        assert forall|key: Seq<u8>, value: Seq<u8>| other.stored_under(key, value) == hash.stored_under(
            key,
            value,
        ) by {
            other.lemma_stored(key, value);
            hash.lemma_stored(key, value);
        }
    }
}

} // verus!
