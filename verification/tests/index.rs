use level_hash::level_io::LevelHashIO;
use level_hash::level_io::ValEntryReadExt;
use level_hash::result::LevelExpansionError;
use level_hash::result::LevelInitError;
use level_hash::result::LevelInsertionError;
use level_hash::result::LevelUpdateError;
use level_hash::IndexFiles;
use level_hash::Level;
use level_hash::LevelHash;
use level_hash::LevelHashOptions;

type HashFn = fn(u64, &[u8]) -> u64;
type Hash = LevelHash<HashFn, HashFn>;
type Options = LevelHashOptions<HashFn, HashFn>;

const SEED_1: u64 = 11;
const SEED_2: u64 = 22;

/// The number that the decimal digits of `data` stand for.
fn number_hash(_seed: u64, data: &[u8]) -> u64 {
    let mut n: u64 = 0;
    for b in data {
        if b.is_ascii_digit() {
            n = n.wrapping_mul(10).wrapping_add((*b - b'0') as u64);
        }
    }
    n
}

/// Every key has the hash zero.
fn zero_hash(_seed: u64, _data: &[u8]) -> u64 {
    0
}

/// A key of the form `a_b` has the first hash `a` and the second hash `b`.
fn pair_hash(seed: u64, data: &[u8]) -> u64 {
    let text = String::from_utf8(data.to_vec()).unwrap();
    let mut parts = text.split('_');
    let first: u64 = parts.next().unwrap().parse().unwrap();
    let second: u64 = parts.next().unwrap().parse().unwrap();
    if seed == SEED_1 {
        first
    } else {
        second
    }
}

fn options_with(hash_fn: HashFn, level_size: u8, bucket_size: u8) -> Options {
    let mut options: Options = LevelHash::options();
    options
        .index_dir("target/tests/level-hash")
        .index_name("index")
        .seeds(SEED_1, SEED_2)
        .hash_fns(hash_fn, hash_fn)
        .level_size(level_size)
        .bucket_size(bucket_size)
        .auto_expand(false);
    options
}

fn new_index(hash_fn: HashFn, level_size: u8, bucket_size: u8) -> Hash {
    options_with(hash_fn, level_size, bucket_size)
        .build(IndexFiles::new())
        .expect("failed to create level hash")
}

fn key(i: u64) -> Vec<u8> {
    format!("key{}", i).into_bytes()
}

fn value(i: u64) -> Vec<u8> {
    format!("value{}", i).into_bytes()
}

#[test]
fn update_returns_old_value() {
    let mut hash = new_index(number_hash, 2, 4);
    hash.insert(b"k", b"v").unwrap();
    assert_eq!(hash.update(b"k", b"newV").unwrap(), b"v".to_vec());
    assert_eq!(hash.get_value(b"k"), b"newV".to_vec());
}

#[test]
fn delete_one_of_ten() {
    let mut hash = new_index(number_hash, 2, 4);
    for i in 0..10 {
        hash.insert(&key(i), &value(i)).unwrap();
    }
    assert_eq!(hash.remove(&key(5)), Some(value(5)));
    assert_eq!(hash.get_value(&key(5)), Vec::<u8>::new());
    assert_eq!(hash.get_value(&key(4)), value(4));
    assert_eq!(hash.get_value(&key(6)), value(6));
    assert_eq!(hash.load_factor(), (9, 24));
}

#[test]
fn remove_of_a_missing_key_changes_nothing() {
    let mut hash = new_index(number_hash, 2, 4);
    hash.insert(&key(1), &value(1)).unwrap();
    assert_eq!(hash.remove(&key(2)), None);
    assert_eq!(hash.get_value(&key(1)), value(1));
    assert_eq!(hash.load_factor(), (1, 24));
}

#[test]
fn duplicate_key_keeps_first_value() {
    let mut hash = new_index(number_hash, 2, 4);
    hash.insert(b"key1", b"first").unwrap();
    assert!(matches!(
        hash.insert(b"key1", b"second"),
        Err(LevelInsertionError::DuplicateKey)
    ));
    assert_eq!(hash.get_value(b"key1"), b"first".to_vec());
    assert_eq!(hash.load_factor(), (1, 24));
}

#[test]
fn duplicate_key_is_found_behind_a_free_slot() {
    let mut hash = new_index(number_hash, 2, 4);
    // key4 and key8 share the bucket 0 of the top level with key0
    hash.insert(&key(0), &value(0)).unwrap();
    hash.insert(&key(4), &value(4)).unwrap();
    hash.insert(&key(8), &value(8)).unwrap();
    assert_eq!(hash.remove(&key(0)), Some(value(0)));
    assert!(matches!(
        hash.insert(&key(8), b"again"),
        Err(LevelInsertionError::DuplicateKey)
    ));
    assert_eq!(hash.get_value(&key(8)), value(8));
}

#[test]
fn keys_may_repeat_without_unique_keys() {
    let mut options = options_with(number_hash, 2, 4);
    options.unique_keys(false);
    let mut hash = options.build(IndexFiles::new()).unwrap();
    hash.insert(b"key1", b"a").unwrap();
    hash.insert(b"key1", b"b").unwrap();
    assert_eq!(hash.load_factor(), (2, 24));
    let first = hash.remove(b"key1").unwrap();
    let second = hash.remove(b"key1").unwrap();
    let mut both = vec![first, second];
    both.sort();
    assert_eq!(both, vec![b"a".to_vec(), b"b".to_vec()]);
    assert_eq!(hash.remove(b"key1"), None);
}

#[test]
fn insertion_fails_where_all_candidates_are_taken() {
    let mut hash = new_index(zero_hash, 2, 4);
    // every key goes to the bucket 0 of each level: eight slots in all
    for i in 0..8 {
        hash.insert(&key(i), &value(i)).unwrap();
    }
    assert!(matches!(
        hash.insert(&key(8), &value(8)),
        Err(LevelInsertionError::InsertionFailure)
    ));
    for i in 0..8 {
        assert_eq!(hash.get_value(&key(i)), value(i));
    }
    assert_eq!(hash.get_value(&key(8)), Vec::<u8>::new());
    assert_eq!(hash.load_factor(), (8, 24));
}

#[test]
fn movement_fails_where_the_other_bucket_is_full() {
    let mut hash = new_index(zero_hash, 2, 4);
    for i in 0..8 {
        hash.insert(&key(i), &value(i)).unwrap();
    }
    assert!(matches!(
        hash.try_movement(Level::L0, 0, 4, &key(8), &value(8)),
        Err(LevelInsertionError::MovementFailure)
    ));
}

#[test]
fn occupant_moves_to_its_other_bucket() {
    let mut hash = new_index(pair_hash, 2, 1);
    // top level: buckets 0..4, bottom level: buckets 0..2, one slot each
    hash.insert(b"0_1", b"x").unwrap();
    hash.insert(b"0_0", b"y").unwrap();
    assert_eq!(hash.get_value_at(Level::L0, 0, 0), b"x".to_vec());
    assert_eq!(hash.get_value_at(Level::L1, 0, 0), b"y".to_vec());
    // both buckets of the new key are full; the entry 0_1 can move to bucket 1
    hash.insert(b"4_4", b"z").unwrap();
    assert_eq!(hash.get_value_at(Level::L0, 1, 0), b"x".to_vec());
    assert_eq!(hash.get_value_at(Level::L0, 0, 0), b"z".to_vec());
    assert_eq!(hash.get_value(b"0_1"), b"x".to_vec());
    assert_eq!(hash.get_value(b"0_0"), b"y".to_vec());
    assert_eq!(hash.get_value(b"4_4"), b"z".to_vec());
    assert_eq!(hash.item_counts, [2, 1]);
}

#[test]
fn bottom_entry_moves_up_after_an_expansion() {
    let mut hash = new_index(number_hash, 1, 1);
    hash.insert(&key(0), &value(0)).unwrap();
    hash.insert(&key(1), &value(1)).unwrap();
    hash.insert(&key(2), &value(2)).unwrap();
    assert_eq!(hash.item_counts, [2, 1]);
    hash.expand().unwrap();
    assert_eq!(hash.item_counts, [1, 2]);
    assert_eq!(hash.expand_count, 1);
    assert_eq!(hash.get_value_at(Level::L0, 2, 0), value(2));
    // key6 may take the bucket 2 of the top level and the bucket 0 of the
    // bottom level, which are full; key0 can move up to the bucket 0
    hash.insert(&key(6), &value(6)).unwrap();
    assert_eq!(hash.get_value_at(Level::L0, 0, 0), value(0));
    assert_eq!(hash.get_value_at(Level::L1, 0, 0), value(6));
    for i in [0, 1, 2, 6] {
        assert_eq!(hash.get_value(&key(i)), value(i));
    }
    assert_eq!(hash.item_counts, [2, 2]);
}

#[test]
fn no_entry_moves_up_before_an_expansion() {
    let mut hash = new_index(number_hash, 2, 1);
    // top level: key2 in bucket 2; bottom level: key0 in bucket 0 once key4 has bucket 0
    hash.insert(&key(2), &value(2)).unwrap();
    hash.insert(&key(4), &value(4)).unwrap();
    hash.insert(&key(0), &value(0)).unwrap();
    assert_eq!(hash.remove(&key(4)), Some(value(4)));
    // key6: bucket 2 above and bucket 0 below are full, bucket 0 above is free
    assert!(matches!(
        hash.insert(&key(6), &value(6)),
        Err(LevelInsertionError::InsertionFailure)
    ));
}

#[test]
fn expansion_keeps_occupancy_and_entries() {
    let mut hash = new_index(number_hash, 3, 2);
    for i in 0..20 {
        hash.insert(&key(i), &value(i)).unwrap();
    }
    let (occupied, total) = hash.load_factor();
    assert_eq!((occupied, total), (20, 24));
    let interim = hash.io.keymap.size;
    let top = hash.io.meta.read().km_l0_addr;
    hash.expand().unwrap();
    assert_eq!(hash.load_factor(), (20, 48));
    assert_eq!(hash.io.meta.read().km_level_size, 4);
    assert_eq!(hash.io.meta.read().km_l0_addr, interim);
    assert_eq!(hash.io.meta.read().km_l1_addr, top);
    assert_eq!(hash.top_level_bucket_count(), 16);
    assert_eq!(hash.total_bucket_count(), 24);
    for i in 0..20 {
        assert_eq!(hash.get_value(&key(i)), value(i));
    }
}

#[test]
fn expansion_stops_at_the_largest_level_size() {
    let mut hash = new_index(number_hash, 24, 1);
    assert_eq!(hash.total_slots(), (1 << 24) + (1 << 23));
    hash.insert(&key(1), &value(1)).unwrap();
    assert!(matches!(
        hash.expand(),
        Err(LevelExpansionError::MaxLevelSizeReached)
    ));
    assert_eq!(hash.get_value(&key(1)), value(1));
    assert_eq!(hash.io.meta.read().km_level_size, 24);
}

#[test]
fn index_expands_by_itself_at_the_threshold() {
    let mut options = options_with(number_hash, 2, 4);
    options.auto_expand(true).load_factor_threshold(500);
    let mut hash = options.build(IndexFiles::new()).unwrap();
    for i in 0..12 {
        hash.insert(&key(i), &value(i)).unwrap();
        assert_eq!(hash.io.meta.read().km_level_size, 2);
    }
    // twelve of twenty-four slots are taken: the load factor is at the threshold
    hash.insert(&key(12), &value(12)).unwrap();
    assert_eq!(hash.io.meta.read().km_level_size, 3);
    assert_eq!(hash.load_factor(), (13, 48));
    for i in 0..13 {
        assert_eq!(hash.get_value(&key(i)), value(i));
    }
}

/// Fills an index of level size 2 with one slot to the bucket so that its
/// bottom level holds `1_0` in the bucket 0 and `9_9` in the bucket 1. In
/// the interim level of an expansion both go to the bucket 1, which has
/// room for one of them.
fn fill_for_a_failing_expansion(hash: &mut Hash) {
    hash.insert(b"0_0", b"x").unwrap();
    hash.insert(b"5_5", b"y").unwrap();
    hash.insert(b"1_0", b"a").unwrap();
    assert_eq!(hash.get_value_at(Level::L1, 1, 0), b"a".to_vec());
    // 9_9 takes the slot of 1_0, which moves to its other bucket
    hash.insert(b"9_9", b"b").unwrap();
    assert_eq!(hash.get_value_at(Level::L1, 0, 0), b"a".to_vec());
    assert_eq!(hash.get_value_at(Level::L1, 1, 0), b"b".to_vec());
}

#[test]
fn expansion_fails_where_an_entry_finds_no_slot() {
    let mut hash = new_index(pair_hash, 2, 1);
    fill_for_a_failing_expansion(&mut hash);
    let keymap = hash.io.keymap.map.clone();
    assert!(matches!(
        hash.expand(),
        Err(LevelExpansionError::UpdateError(LevelUpdateError::InsertionErr(
            LevelInsertionError::InsertionFailure
        )))
    ));
    // the index is as it was
    assert_eq!(hash.io.keymap.map, keymap);
    assert_eq!(hash.io.interim_lvl_addr, None);
    assert_eq!(hash.io.meta.read().km_level_size, 2);
    assert_eq!(hash.item_counts, [2, 2]);
    assert_eq!(hash.expand_count, 0);
    for (k, v) in [("0_0", "x"), ("5_5", "y"), ("1_0", "a"), ("9_9", "b")] {
        assert_eq!(hash.get_value(k.as_bytes()), v.as_bytes().to_vec());
    }
    hash.insert(b"2_2", b"w").unwrap();
}

#[test]
fn failed_expansion_fails_the_insertion() {
    let mut options = options_with(pair_hash, 2, 1);
    options.auto_expand(true).load_factor_threshold(700);
    let mut hash = options.build(IndexFiles::new()).unwrap();
    fill_for_a_failing_expansion(&mut hash);
    // four of six slots are taken: the load factor is below the threshold
    hash.insert(b"2_2", b"w").unwrap();
    assert_eq!(hash.load_factor(), (5, 6));
    assert!(matches!(
        hash.insert(b"3_3", b"v"),
        Err(LevelInsertionError::ExpansionFailure)
    ));
    assert_eq!(hash.io.meta.read().km_level_size, 2);
    assert_eq!(hash.load_factor(), (5, 6));
    assert_eq!(hash.get_value(b"3_3"), Vec::<u8>::new());
    assert_eq!(hash.get_value(b"9_9"), b"b".to_vec());
}

#[test]
fn expansion_is_refused_in_the_middle_of_another() {
    let mut hash = new_index(number_hash, 2, 4);
    hash.insert(&key(1), &value(1)).unwrap();
    hash.io.prepare_interim(8).unwrap();
    assert!(matches!(
        hash.expand(),
        Err(LevelExpansionError::ConcurrentModificationError)
    ));
    hash.io.abort_interim();
    hash.expand().unwrap();
    assert_eq!(hash.get_value(&key(1)), value(1));
}

#[test]
fn empty_value_is_replaced() {
    let mut hash = new_index(number_hash, 2, 4);
    hash.insert(b"k", b"").unwrap();
    assert_eq!(hash.get_value(b"k"), Vec::<u8>::new());
    assert_eq!(hash.update(b"k", b"newV").unwrap(), Vec::<u8>::new());
    assert_eq!(hash.get_value(b"k"), b"newV".to_vec());
    assert_eq!(hash.load_factor(), (1, 24));
}

#[test]
fn lookup_starts_in_the_level_with_more_entries() {
    let mut options = options_with(number_hash, 1, 2);
    options.unique_keys(false);
    let mut hash = options.build(IndexFiles::new()).unwrap();
    // bucket 0 of the top level takes two entries, the third goes below
    hash.insert(&key(0), b"a").unwrap();
    hash.insert(&key(2), b"b").unwrap();
    hash.insert(&key(4), b"below").unwrap();
    hash.remove(&key(2)).unwrap();
    hash.insert(&key(4), b"above").unwrap();
    assert_eq!(hash.item_counts, [2, 1]);
    assert_eq!(hash.get_value(&key(4)), b"above".to_vec());
    // with as many entries in both levels the bottom level comes first
    hash.remove(&key(0)).unwrap();
    assert_eq!(hash.item_counts, [1, 1]);
    assert_eq!(hash.get_value(&key(4)), b"below".to_vec());
    assert_eq!(hash.remove(&key(4)), Some(b"below".to_vec()));
    assert_eq!(hash.get_value(&key(4)), b"above".to_vec());
}

#[test]
fn clear_leaves_an_empty_index() {
    let mut hash = new_index(number_hash, 2, 4);
    for i in 0..20 {
        hash.insert(&key(i), &value(i)).unwrap();
    }
    hash.expand().unwrap();
    hash.clear().unwrap();
    for i in 0..20 {
        assert_eq!(hash.get_value(&key(i)), Vec::<u8>::new());
    }
    assert!(hash.io.keymap.map.iter().all(|b| *b == 0));
    assert!(hash.io.values.map.iter().all(|b| *b == 0));
    let meta = hash.io.meta.read();
    assert_eq!(meta.val_next_addr, 1);
    assert_eq!(meta.val_tail_addr, 0);
    assert_eq!(meta.val_file_size, LevelHashIO::VALUES_BLOCK_SIZE_BYTES);
    assert_eq!(meta.km_level_size, 3);
    assert_eq!(meta.km_l0_addr, 0);
    assert_eq!(meta.km_l1_addr, 8 * 4 * 8);
    assert_eq!(hash.io.keymap.size, (8 + 4) * 4 * 8);
    assert_eq!(hash.load_factor(), (0, 48));
    assert_eq!(hash.expand_count, 0);
    // clearing twice is clearing once
    hash.clear().unwrap();
    assert_eq!(hash.load_factor(), (0, 48));
    hash.insert(&key(1), &value(1)).unwrap();
    assert_eq!(hash.get_value(&key(1)), value(1));
}

#[test]
fn level_size_zero_has_no_bottom_level() {
    let mut hash = new_index(number_hash, 0, 3);
    assert_eq!(hash.total_slots(), 3);
    assert_eq!(hash.total_bucket_count(), 1);
    for i in 0..3 {
        hash.insert(&key(i), &value(i)).unwrap();
    }
    assert!(matches!(
        hash.insert(&key(3), &value(3)),
        Err(LevelInsertionError::LevelOverflow)
    ));
    hash.expand().unwrap();
    assert_eq!(hash.total_slots(), 9);
    hash.insert(&key(3), &value(3)).unwrap();
    for i in 0..4 {
        assert_eq!(hash.get_value(&key(i)), value(i));
    }
}

#[test]
fn records_follow_each_other_on_multiples_of_eight() {
    let mut hash = new_index(number_hash, 2, 4);
    assert_eq!(hash.io.meta.read().val_next_addr, 1);
    assert_eq!(hash.io.meta.read().val_file_size, 0);
    hash.insert(b"key1", b"value1").unwrap();
    // 8 + 4 + 6 = 18 bytes, and the next record starts at 24
    assert_eq!(hash.io.meta.read().val_tail_addr, 1);
    assert_eq!(hash.io.meta.read().val_next_addr, 25);
    assert_eq!(hash.io.meta.read().val_file_size, 512 * 1024);
    hash.insert(b"key2", b"").unwrap();
    assert_eq!(hash.io.meta.read().val_tail_addr, 25);
    assert_eq!(hash.io.meta.read().val_next_addr, 25 + 16);
    let entry = hash.find_slot(b"key2").unwrap().0;
    assert_eq!(entry.addr, 24);
    assert_eq!(entry.esize(), 12);
    assert_eq!(entry.key_size(), 4);
    assert_eq!(entry.value_size(), 0);
    assert!(!entry.is_empty());
}

#[test]
fn values_region_grows_by_blocks() {
    let mut hash = new_index(number_hash, 2, 4);
    let big = vec![7u8; 600 * 1024];
    hash.insert(b"key1", &big).unwrap();
    assert_eq!(hash.io.meta.read().val_file_size, 2 * 512 * 1024);
    assert_eq!(hash.io.values.size, 2 * 512 * 1024);
    assert_eq!(hash.get_value(b"key1"), big);
    // a record that ends at the end of the region makes the region grow
    let mut hash = new_index(number_hash, 2, 4);
    let exact = vec![1u8; 512 * 1024 - 8 - 4];
    hash.insert(b"key1", &exact).unwrap();
    assert_eq!(hash.io.meta.read().val_file_size, 2 * 512 * 1024);
}

#[test]
fn deleting_the_last_record_gives_its_place_to_the_next() {
    let mut hash = new_index(number_hash, 2, 4);
    hash.insert(&key(1), &value(1)).unwrap();
    hash.insert(&key(2), &value(2)).unwrap();
    assert_eq!(hash.io.meta.read().val_next_addr, 49);
    // the bytes that align the next record are given back with the record
    hash.io.values.map[20] = 9;
    // the first record is not the last one: the place of the next record stays
    hash.remove(&key(1)).unwrap();
    assert_eq!(hash.io.meta.read().val_next_addr, 49);
    assert!(hash.io.values.map[0..24].iter().all(|b| *b == 0));
    hash.remove(&key(2)).unwrap();
    assert_eq!(hash.io.meta.read().val_next_addr, 25);
    assert!(hash.io.values.map[24..48].iter().all(|b| *b == 0));
    hash.insert(&key(3), &value(3)).unwrap();
    assert_eq!(hash.find_slot(&key(3)).unwrap().0.addr, 24);
    assert_eq!(hash.io.meta.read().val_next_addr, 49);
}

#[test]
fn shorter_value_is_written_in_place() {
    let mut hash = new_index(number_hash, 2, 4);
    hash.insert(b"key1", b"a long value").unwrap();
    hash.insert(b"key2", b"other").unwrap();
    let next = hash.io.meta.read().val_next_addr;
    assert_eq!(hash.update(b"key1", b"short").unwrap(), b"a long value".to_vec());
    assert_eq!(hash.io.meta.read().val_next_addr, next);
    let entry = hash.find_slot(b"key1").unwrap().0;
    assert_eq!(entry.addr, 0);
    assert_eq!(entry.value_size(), 5);
    // the bytes that the value has given up are zero
    assert!(hash.io.values.map[8 + 4 + 5..24].iter().all(|b| *b == 0));
    assert_eq!(hash.get_value(b"key1"), b"short".to_vec());
    assert_eq!(hash.get_value(b"key2"), b"other".to_vec());
}

#[test]
fn longer_value_gets_a_new_record() {
    let mut hash = new_index(number_hash, 2, 4);
    hash.insert(b"key1", b"short").unwrap();
    hash.insert(b"key2", b"other").unwrap();
    let next = hash.io.meta.read().val_next_addr;
    assert_eq!(hash.update(b"key1", b"a longer value").unwrap(), b"short".to_vec());
    let entry = hash.find_slot(b"key1").unwrap().0;
    assert_eq!(entry.addr + 1, next);
    assert!(hash.io.values.map[0..24].iter().all(|b| *b == 0));
    assert_eq!(hash.get_value(b"key1"), b"a longer value".to_vec());
    assert_eq!(hash.get_value(b"key2"), b"other".to_vec());
    assert_eq!(hash.load_factor(), (2, 24));
}

#[test]
fn index_is_the_same_after_it_is_opened_again() {
    let mut hash = new_index(number_hash, 2, 4);
    for i in 0..20 {
        hash.insert(&key(i), &value(i)).unwrap();
    }
    hash.expand().unwrap();
    hash.remove(&key(7)).unwrap();
    hash.update(&key(3), b"three").unwrap();
    let meta = *hash.io.meta.read();
    let counts = hash.item_counts;
    let files = hash.into_files();
    assert_eq!(files.meta.len(), 56);
    assert_eq!(files.keymap.len() as u64, 8 + meta.km_l0_addr + 8 * 4 * 8);
    assert_eq!(files.values.len() as u64, 8 + meta.val_file_size);

    // the level size and the bucket size of the options do not count for an index that exists
    let hash = options_with(number_hash, 5, 9).build(files).unwrap();
    let again = hash.io.meta.read();
    assert_eq!(again.km_level_size, 3);
    assert_eq!(again.km_bucket_size, 4);
    assert_eq!(again.km_l0_addr, meta.km_l0_addr);
    assert_eq!(again.km_l1_addr, meta.km_l1_addr);
    assert_eq!(again.val_next_addr, meta.val_next_addr);
    assert_eq!(again.val_tail_addr, meta.val_tail_addr);
    assert_eq!(hash.item_counts, counts);
    assert_eq!(hash.expand_count, 0);
    for i in 0..20 {
        let expected = if i == 7 {
            Vec::new()
        } else if i == 3 {
            b"three".to_vec()
        } else {
            value(i)
        };
        assert_eq!(hash.get_value(&key(i)), expected);
    }
}

#[test]
fn index_is_refused_with_other_hash_functions() {
    let mut hash = new_index(number_hash, 2, 4);
    for i in 0..10 {
        hash.insert(&key(i), &value(i)).unwrap();
    }
    let files = hash.into_files();
    assert!(matches!(
        options_with(zero_hash, 2, 4).build(files),
        Err(LevelInitError::InvalidArg(_))
    ));
}

#[test]
fn values_file_without_its_magic_number_is_cut() {
    let mut hash = new_index(number_hash, 2, 4);
    hash.insert(&key(1), &value(1)).unwrap();
    let mut files = hash.into_files();
    files.values[0] ^= 0xff;
    // the keymap points to records that the values file does not hold any more
    assert!(matches!(
        options_with(number_hash, 2, 4).build(files),
        Err(LevelInitError::InvalidArg(_))
    ));

    // without entries the index is opened, on a values file that is all zero behind its header
    let mut hash = new_index(number_hash, 2, 4);
    hash.insert(&key(1), &value(1)).unwrap();
    hash.remove(&key(1)).unwrap();
    let mut files = hash.into_files();
    files.values[0] ^= 0xff;
    files.values[100] = 9;
    let mut hash = options_with(number_hash, 2, 4).build(files).unwrap();
    assert!(hash.io.values.map.iter().all(|b| *b == 0));
    hash.insert(&key(1), &value(1)).unwrap();
    let files = hash.into_files();
    assert_eq!(&files.values[0..8], &[0x56, 0x58, 0x44, 0x49, 0x41, 0, 0, 0]);
}

#[test]
fn files_with_overlapping_records_are_refused() {
    let mut hash = new_index(number_hash, 2, 4);
    hash.insert(&key(0), &value(0)).unwrap();
    hash.insert(&key(1), &value(1)).unwrap();
    let mut files = hash.into_files();
    // make the slot of key1 point to the record of key0
    let slot_of_key1 = 8 + 8 * 4;
    assert_eq!(files.keymap[slot_of_key1], 25);
    files.keymap[slot_of_key1] = 1;
    let mut options = options_with(number_hash, 2, 4);
    options.unique_keys(false);
    assert!(matches!(options.build(files), Err(LevelInitError::InvalidArg(_))));
}

#[test]
fn files_with_a_key_twice_are_refused_with_unique_keys() {
    let mut options = options_with(number_hash, 2, 4);
    options.unique_keys(false);
    let mut hash = options.build(IndexFiles::new()).unwrap();
    hash.insert(&key(1), b"a").unwrap();
    hash.insert(&key(1), b"b").unwrap();
    let files = hash.into_files();
    let again = IndexFiles {
        values: files.values.clone(),
        keymap: files.keymap.clone(),
        meta: files.meta.clone(),
    };
    assert!(matches!(
        options_with(number_hash, 2, 4).build(files),
        Err(LevelInitError::InvalidArg(_))
    ));
    let mut options = options_with(number_hash, 2, 4);
    options.unique_keys(false);
    let hash = options.build(again).unwrap();
    assert_eq!(hash.item_counts, [2, 0]);
}

#[test]
fn options_that_are_incomplete_or_out_of_range_are_refused() {
    fn refused(result: Result<Hash, LevelInitError>) -> bool {
        matches!(result, Err(LevelInitError::InvalidArg(_)))
    }
    let mut options: Options = LevelHash::options();
    assert_eq!(options.level_size, 8);
    assert_eq!(options.bucket_size, 10);
    assert!(options.unique_keys);
    assert!(options.auto_expand);
    assert_eq!(options.load_factor_threshold, 900);
    assert!(refused(options.build(IndexFiles::new())));

    let mut options: Options = LevelHash::options();
    options.index_name("index").seeds(1, 2).hash_fns(number_hash, number_hash);
    assert!(refused(options.build(IndexFiles::new())));

    let mut options: Options = LevelHash::options();
    options.index_dir("dir").seeds(1, 2).hash_fns(number_hash, number_hash);
    assert!(refused(options.build(IndexFiles::new())));

    let mut options: Options = LevelHash::options();
    options.index_dir("dir").index_name("index").hash_fns(number_hash, number_hash);
    assert!(refused(options.build(IndexFiles::new())));

    let mut options: Options = LevelHash::options();
    options.index_dir("dir").index_name("index").seeds(1, 2);
    assert!(refused(options.build(IndexFiles::new())));

    assert!(refused(options_with(number_hash, 2, 4).seeds(0, 2).build(IndexFiles::new())));
    assert!(refused(options_with(number_hash, 2, 4).seeds(1, 0).build(IndexFiles::new())));
    assert!(refused(options_with(number_hash, 25, 4).build(IndexFiles::new())));
    assert!(refused(options_with(number_hash, 2, 0).build(IndexFiles::new())));
    assert!(refused(
        options_with(number_hash, 2, 4).load_factor_threshold(499).build(IndexFiles::new())
    ));
    assert!(refused(
        options_with(number_hash, 2, 4).load_factor_threshold(1001).build(IndexFiles::new())
    ));
    assert!(options_with(number_hash, 2, 4).load_factor_threshold(1000).build(IndexFiles::new()).is_ok());

    // the hash functions go over to the index that is built, the rest stays
    let mut options = options_with(number_hash, 2, 4);
    assert!(options.build(IndexFiles::new()).is_ok());
    assert!(options.hashfn_1.is_none() && options.hashfn_2.is_none());
    assert_eq!(options.seeds, Some((SEED_1, SEED_2)));
    assert_eq!(options.index_name, Some("index".to_string()));
    assert_eq!(options.index_dir, Some("target/tests/level-hash".to_string()));
    assert_eq!((options.level_size, options.bucket_size), (2, 4));
    assert!(refused(options.build(IndexFiles::new())));
    assert!(options_with(number_hash, 24, 255).seeds(1, 1).level_size(3).build(IndexFiles::new()).is_ok());
}

#[test]
fn update_of_an_empty_slot_is_refused() {
    let mut hash = new_index(number_hash, 2, 4);
    hash.insert(&key(1), &value(1)).unwrap();
    assert!(matches!(
        hash.io.update_entry_value(0, 0, 0, b"v"),
        Err(LevelUpdateError::SlotEmpty)
    ));
    assert_eq!(hash.io.update_entry_value(0, 1, 0, b"v").unwrap(), value(1));
    assert_eq!(hash.get_value(&key(1)), b"v".to_vec());
}

#[test]
fn entry_at_a_slot_is_not_placed_twice() {
    let mut hash = new_index(number_hash, 2, 4);
    hash.insert_entry_at_slot(0, 1, 0, &key(1), &value(1), true).unwrap();
    assert_eq!(hash.get_value(&key(1)), value(1));
    assert!(matches!(
        hash.insert_entry_at_slot(0, 1, 0, &key(1), &value(1), true),
        Err(LevelInsertionError::DuplicateKey)
    ));
    assert!(matches!(
        hash.insert_entry_at_slot(0, 1, 0, &key(5), &value(5), true),
        Err(LevelInsertionError::InsertionFailure)
    ));
    assert!(matches!(
        hash.insert_entry_at_slot(0, 1, 1, &key(1), &value(1), true),
        Err(LevelInsertionError::DuplicateKey)
    ));
    hash.insert_entry_at_slot(0, 1, 1, &key(5), &value(5), true).unwrap();
    assert_eq!(hash.item_counts, [2, 0]);
}
