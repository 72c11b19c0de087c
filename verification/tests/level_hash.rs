use byteorder::ByteOrder;
use level_hash::level_io::LevelHashIO;
use level_hash::level_io::ValEntryReadExt;
use level_hash::level_io::ValuesEntry;
use level_hash::reprs::ValuesData;
use level_hash::result::LevelInitError;
use level_hash::result::LevelInsertionError;
use level_hash::result::LevelUpdateError;
use level_hash::size::SIZE_U64;
use level_hash::util::align_8;
use level_hash::util::seeds_from_draws;
use level_hash::IndexFiles;
use level_hash::LevelHash;
use level_hash::LevelHashOptions;
use rand::rngs::StdRng;
use rand::RngCore;
use rand::SeedableRng;

type HashFn = fn(u64, &[u8]) -> u64;
type Hash = LevelHash<HashFn, HashFn>;
type Options = LevelHashOptions<HashFn, HashFn>;

/// A seeded hash of the bytes of `data`: FNV-1a, with a last mixing step.
fn mixhash(seed: u64, data: &[u8]) -> u64 {
    let mut h: u64 = 0xcbf2_9ce4_8422_2325 ^ seed;
    for b in data {
        h ^= *b as u64;
        h = h.wrapping_mul(0x0000_0100_0000_01b3);
    }
    h ^= h >> 33;
    h = h.wrapping_mul(0xff51_afd7_ed55_8ccd);
    h ^= h >> 33;
    h = h.wrapping_mul(0xc4ce_b9fe_1a85_ec53);
    h ^= h >> 33;
    h
}

/// The number that the decimal digits at the end of `data` stand for. Keys
/// that are numbered from zero on fill the buckets evenly under this hash.
fn numhash(_seed: u64, data: &[u8]) -> u64 {
    let mut n: u64 = 0;
    for b in data {
        if b.is_ascii_digit() {
            n = n.wrapping_mul(10).wrapping_add((*b - b'0') as u64);
        }
    }
    n
}

fn generate_seeds() -> (u64, u64) {
    let mut rand = StdRng::seed_from_u64(6248403840530382848);
    loop {
        let fseed = rand.next_u64();
        let sseed = rand.next_u64();
        let fshift = rand.next_u64();
        let sshift = rand.next_u64();
        if let Some(seeds) = seeds_from_draws(fseed, sseed, fshift, sshift) {
            return seeds;
        }
    }
}

fn create_level_hash_3(
    name: &str,
    files: IndexFiles,
    hash_fn: HashFn,
    conf: impl Fn(&mut Options),
) -> Result<Hash, LevelInitError> {
    let dir_path = format!("target/tests/level-hash/index-{}", name);
    let (s1, s2) = generate_seeds();
    let mut options: Options = LevelHash::options();
    options
        .index_dir(&dir_path)
        .index_name(name)
        .seeds(s1, s2)
        .hash_fns(hash_fn, hash_fn);

    conf(&mut options);

    options.build(files)
}

fn create_level_hash(name: &str, files: IndexFiles, conf: impl Fn(&mut Options)) -> Hash {
    create_level_hash_3(name, files, mixhash, conf).expect("failed to create level hash")
}

fn create_numbered_level_hash(name: &str, conf: impl Fn(&mut Options)) -> Hash {
    create_level_hash_3(name, IndexFiles::new(), numhash, conf).expect("failed to create level hash")
}

fn default_level_hash(name: &str) -> Hash {
    create_level_hash(name, IndexFiles::new(), |options| {
        options.level_size(2).bucket_size(4).auto_expand(false);
    })
}

#[test]
fn simple_insertion() {
    let mut hash = default_level_hash("insert");

    assert!(hash.insert(b"key1", b"value1").is_ok());
    assert_eq!(hash.get_value(b"key1"), b"value1".to_vec());
}

#[test]
fn overflow() {
    let mut hash = create_numbered_level_hash("overflow", |options| {
        options.level_size(2).bucket_size(4).auto_expand(false);
    });
    assert_eq!(hash.total_slots(), 24);

    for i in 0..hash.total_slots() {
        let key = format!("key{}", i).as_bytes().to_vec();
        let value = format!("value{}", i).as_bytes().to_vec();
        assert!(hash.insert(&key, &value).is_ok());
    }

    assert!(matches!(
        hash.insert(b"kkk", b"vvv").err(),
        Some(LevelInsertionError::LevelOverflow)
    ));
}

#[test]
fn removal() {
    let mut hash = default_level_hash("remove");
    assert!(hash.insert(b"key1", b"value1").is_ok());
    assert_eq!(hash.get_value(b"key1"), b"value1".to_vec());
    assert_eq!(hash.remove(b"key1"), Some(b"value1".to_vec()));
    assert_eq!(hash.get_value(b"key1"), vec![]);
}

#[test]
fn hash_clear() {
    let mut hash = default_level_hash("clear");
    assert!(hash.insert(b"key1", b"value1").is_ok());
    assert!(hash.insert(b"key2", b"value2").is_ok());

    hash.clear().expect("failed to clear level hash");

    assert_eq!(hash.get_value(b"key1"), vec![]);
    assert_eq!(hash.get_value(b"key2"), vec![]);
}

#[test]
fn value_update_for_non_existent_entry() {
    let mut hash = default_level_hash("value_update_for_non_existent_entry");
    assert!(hash.insert(b"k", b"v").is_ok());

    let entry = hash.find_slot(b"k");
    assert!(entry.is_some());

    let entry = entry.unwrap();
    assert_eq!(entry.0.key(&hash.io.values), b"k".to_vec());
    assert_eq!(entry.0.value(&hash.io.values), b"v".to_vec());

    assert!(matches!(
        hash.update(b"kk", b"vv"),
        Err(LevelUpdateError::SlotNotFound)
    ));
}

#[test]
fn value_update_for_existing_entry_with_null_value() {
    let mut hash = default_level_hash("update-existing-with-null-value");

    assert!(hash.insert(b"k", &[]).is_ok());
    let entry = hash.find_slot(b"k").unwrap();
    assert_eq!(entry.0.key(&hash.io.values), b"k".to_vec());
    assert_eq!(entry.0.value(&hash.io.values), vec![]);

    assert_eq!(
        hash.update(b"k", b"newV").expect("failed to update entry"),
        vec![]
    );

    let entry = hash.find_slot(b"k").unwrap();
    assert_eq!(entry.0.key(&hash.io.values), b"k".to_vec());
    assert_eq!(entry.0.value(&hash.io.values), b"newV".to_vec());
}

#[test]
fn existing_level_init() {
    let files = {
        let mut hash = default_level_hash("init-existing");
        hash.insert(b"key", b"value").unwrap();
        hash.insert(b"null", &[]).unwrap();
        hash.insert(
            b"long",
            b"abcdefghijklmnopqrstuvwxyzABCDEFGHIJKLMNOPQRSTUVWXYZ",
        )
        .unwrap();

        assert_eq!(hash.get_value(b"key"), b"value".to_vec());
        assert_eq!(hash.get_value(b"null"), vec![]);
        assert_eq!(
            hash.get_value(b"long"),
            b"abcdefghijklmnopqrstuvwxyzABCDEFGHIJKLMNOPQRSTUVWXYZ".to_vec()
        );
        hash.into_files()
    };

    {
        let hash = create_level_hash("init-existing", files, |options| {
            options.level_size(2).bucket_size(4).auto_expand(false);
        });

        assert_eq!(hash.get_value(b"key"), b"value".to_vec());
        assert_eq!(hash.get_value(b"null"), vec![]);
        assert_eq!(
            hash.get_value(b"long"),
            b"abcdefghijklmnopqrstuvwxyzABCDEFGHIJKLMNOPQRSTUVWXYZ".to_vec()
        );
    }
}

#[test]
fn level_hash_expand() {
    let mut hash = create_numbered_level_hash("expand", |options| {
        options.level_size(5).bucket_size(10).auto_expand(false);
    });

    let slots = hash.total_slots() - hash.io.meta.read().km_bucket_size as u64;
    assert_eq!(slots, 470);
    for i in 0..slots {
        let key = format!("key{}", i).as_bytes().to_vec();
        let value = format!("value{}", i).as_bytes().to_vec();
        hash.insert(&key, &value).expect("failed to insert entry");
    }

    println!("Inserted {} entries", slots);

    for i in 0..slots {
        let key = format!("key{}", i).as_bytes().to_vec();
        let value = format!("value{}", i).as_bytes().to_vec();
        assert_eq!(hash.get_value(&key), value);
    }

    hash.expand().expect("failed to expand level hash");
    assert_eq!(hash.io.meta.read().km_level_size, 6);

    for i in 0..slots {
        let key = format!("key{}", i).as_bytes().to_vec();
        let value = format!("value{}", i).as_bytes().to_vec();
        assert_eq!(hash.get_value(key.as_slice()), value.clone());
    }
}

#[test]
fn expansion_with_huge_slot_count() {
    let mut hash = create_level_hash("expand-huge-slot-count", IndexFiles::new(), |options| {
        options.level_size(15).bucket_size(4).auto_expand(false);
    });

    let mut i = 0u32;
    while hash
        .insert(
            format!("key{}", i).as_bytes(),
            format!("value{}", i).as_bytes(),
        )
        .is_ok()
    {
        i += 1;
    }

    println!("inserted {} entries", i);
    let (occupied, total) = hash.load_factor();
    println!("load factor: {}", occupied as f64 / total as f64);

    hash.expand().expect("failed to expand level hash");

    let (occupied, total) = hash.load_factor();
    println!("load factor after expansion: {}", occupied as f64 / total as f64);

    for j in 0..i {
        let key = format!("key{}", j).as_bytes().to_vec();
        let value = format!("value{}", j).as_bytes().to_vec();
        assert_eq!(hash.get_value(&key), value);
    }
}

#[test]
fn meta_after_expand() {
    let mut hash = create_level_hash("meta-after-expand", IndexFiles::new(), |options| {
        options.level_size(5).bucket_size(10).auto_expand(false);
    });

    let l0_size: u64 = hash.top_level_bucket_count() as u64
        * hash.io.meta.read().km_bucket_size as u64
        * LevelHashIO::KEYMAP_ENTRY_SIZE_BYTES;

    {
        let meta = hash.io.meta.read();
        assert_eq!(meta.km_level_size, 5);
        assert_eq!(meta.km_bucket_size, 10);
        assert_eq!(meta.km_l0_addr, 0);
        assert_eq!(meta.km_l1_addr, l0_size);
    }

    hash.expand().expect("failed to expand level hash");

    {
        let meta = hash.io.meta.read();
        assert_eq!(meta.km_level_size, 6);
        assert_eq!(meta.km_bucket_size, 10);
        assert_eq!(meta.km_l0_addr, l0_size + (l0_size >> 1));
        assert_eq!(meta.km_l1_addr, 0);
    }
}

#[test]
fn values_file_binary_repr() {
    let file_name = "values-binary-repr";
    let mut hash = create_level_hash(file_name, IndexFiles::new(), |options| {
        options.auto_expand(false);
    });

    // min_size + "key1".len() + "value1".len()
    let entry_size = ValuesEntry::ENTRY_SIZE_MIN + 4 + 6;

    for i in 0..10 {
        let key = format!("key{}", i).as_bytes().to_vec();
        let value = format!("value{}", i).as_bytes().to_vec();
        assert!(hash.insert(&key, &value).is_ok());
    }

    let files = hash.into_files();
    let input = files.values.as_slice();

    assert_eq!(
        byteorder::LittleEndian::read_u64(input),
        LevelHashIO::VALUES_MAGIC_NUMBER
    );

    let pos = SIZE_U64; // magic number
    let input = &input[pos as usize..];

    // since no entries are removed here, values should be laid out sequentially in the file
    let mut pos = 0;
    for i in 0..10 {
        let data = ValuesData {
            key_size: byteorder::LittleEndian::read_u32(&input[pos as usize..]),
            value_size: byteorder::LittleEndian::read_u32(&input[pos as usize + 4..]),
        };

        assert_eq!(data.key_size, 4);
        assert_eq!(data.value_size, 6);
        assert_eq!(
            &input[(pos + ValuesEntry::OFF_KEY) as usize
                ..(pos + ValuesEntry::OFF_KEY + data.key_size as u64) as usize],
            format!("key{}", i).as_bytes()
        );
        assert_eq!(
            &input[(pos + ValuesEntry::OFF_KEY + data.key_size as u64) as usize
                ..(pos + ValuesEntry::OFF_KEY + data.key_size as u64 + data.value_size as u64)
                    as usize],
            format!("value{}", i).as_bytes()
        );

        pos = align_8(pos + entry_size); // + magic number len
    }
}
