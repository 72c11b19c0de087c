use level_hash::fs::init_sparse_file;
use level_hash::fs::write_magic_file;
use level_hash::io::MappedFile;
use level_hash::level_hash::find::buck_idx_cap;
use level_hash::level_io::open::with_header;
use level_hash::level_io::write_record;
use level_hash::level_io::update::rewrite_value;
use level_hash::level_io::LevelHashIO;
use level_hash::level_io::ValEntryReadExt;
use level_hash::level_io::ValEntryWriteExt;
use level_hash::level_io::ValuesEntry;
use level_hash::level_io::ValuesEntryMut;
use level_hash::meta::MetaIO;
use level_hash::reprs::LevelMeta;
use level_hash::reprs::ValuesData;
use level_hash::result::IntoLevelExpErr;
use level_hash::result::IntoLevelIOErr;
use level_hash::result::IntoLevelInitErr;
use level_hash::result::IntoLevelInsertionErr;
use level_hash::result::IntoLevelMapErr;
use level_hash::result::IntoLevelUpdateErr;
use level_hash::result::LevelExpansionError;
use level_hash::result::LevelInitError;
use level_hash::result::LevelInsertionError;
use level_hash::result::LevelMapError;
use level_hash::result::LevelUpdateError;
use level_hash::result::StdIOError;
use level_hash::util::align_8;
use level_hash::util::seeds_from_draws;
use level_hash::IndexFiles;

fn mapped(bytes: Vec<u8>) -> MappedFile {
    let size = bytes.len() as u64;
    MappedFile::new(bytes, 0, size).unwrap()
}

fn io_error() -> std::io::Error {
    std::io::Error::from(std::io::ErrorKind::NotFound)
}

#[test]
fn align_8_rounds_up() {
    assert_eq!(align_8(0), 0);
    assert_eq!(align_8(1), 8);
    assert_eq!(align_8(8), 8);
    assert_eq!(align_8(18), 24);
    assert_eq!(align_8(42), 48);
    assert_eq!(align_8(u64::MAX - 7), u64::MAX - 7);
}

#[test]
fn seeds_are_shifted_draws() {
    assert_eq!(seeds_from_draws(3, 5, 1, 2), Some((6, 20)));
    // a shift of 63 is a shift of 0, one of 64 is one of 1
    assert_eq!(seeds_from_draws(3, 5, 63, 64), Some((3, 10)));
    assert_eq!(seeds_from_draws(3, 6, 1, 0), None);
    assert_eq!(seeds_from_draws(0, 6, 1, 0), None);
    assert_eq!(seeds_from_draws(3, 0, 1, 0), None);
    assert_eq!(seeds_from_draws(1 << 63, 1, 1, 0), None);
    assert_eq!(seeds_from_draws(u64::MAX, 1, 62, 0), Some((3 << 62, 1)));
}

#[test]
fn bucket_is_the_low_bits_of_the_hash() {
    assert_eq!(buck_idx_cap(0x1234_5678_9abc_def5, 16), 5);
    assert_eq!(buck_idx_cap(0x1234_5678_9abc_def5, 1), 0);
    assert_eq!(buck_idx_cap(u64::MAX, 1 << 24), (1 << 24) - 1);
    assert_eq!(buck_idx_cap(37, 32), 5);
}

#[test]
fn numbers_are_stored_least_significant_byte_first() {
    let mut file = mapped(vec![0u8; 16]);
    file.w_u64(3, 0x0102_0304_0506_0708);
    assert_eq!(file.map, vec![0, 0, 0, 8, 7, 6, 5, 4, 3, 2, 1, 0, 0, 0, 0, 0]);
    assert_eq!(file.r_u64(3), 0x0102_0304_0506_0708);
    assert_eq!(file.r_u32(3), 0x0506_0708);
    file.w_u32(12, 0xa1b2_c3d4);
    assert_eq!(&file.map[12..], &[0xd4, 0xc3, 0xb2, 0xa1]);
    assert_eq!(file.r_u32(12), 0xa1b2_c3d4);
    assert_eq!(file.r_u64(8), 0xa1b2_c3d4_0001_0203);
}

#[test]
fn region_is_a_part_of_the_file() {
    let file = MappedFile::new(vec![1, 2, 3, 4, 5], 2, 6).unwrap();
    assert_eq!(file.map, vec![3, 4, 5, 0, 0, 0]);
    assert_eq!(file.off, 2);
    assert_eq!(file.size, 6);
    let file = MappedFile::new(vec![1, 2, 3, 4, 5], 2, 2).unwrap();
    assert_eq!(file.map, vec![3, 4]);
    let file = MappedFile::new(vec![1, 2, 3], 7, 2).unwrap();
    assert_eq!(file.map, vec![0, 0]);
    assert!(matches!(
        MappedFile::new(vec![1, 2, 3], u64::MAX, 2),
        Err(LevelMapError::IOError(_))
    ));
}

#[test]
fn region_reads_and_writes_bytes() {
    let mut file = mapped(vec![0u8; 8]);
    file.write_at(2, &[1, 2, 3]);
    assert_eq!(file.map, vec![0, 0, 1, 2, 3, 0, 0, 0]);
    let mut buf = [9u8; 4];
    file.read_at(1, &mut buf);
    assert_eq!(buf, [0, 1, 2, 3]);
    assert_eq!(file.read_vec(3, 2), vec![2, 3]);
    file.write_at(8, &[]);
    assert_eq!(file.read_vec(8, 0), Vec::<u8>::new());
}

#[test]
fn memeq_tells_equal_bytes() {
    let file = mapped(vec![1, 2, 3, 4, 5]);
    assert!(file.memeq(1, &[2, 3, 4]));
    assert!(file.memeq(0, &[1, 2, 3, 4, 5]));
    assert!(!file.memeq(1, &[2, 3, 5]));
    assert!(!file.memeq(1, &[]));
    assert!(!file.memeq(3, &[4, 5, 6]));
    assert!(!file.memeq(6, &[1]));
    assert!(!file.memeq(u64::MAX, &[1]));
    let long: Vec<u8> = (0..40).collect();
    let file = mapped(long.clone());
    assert!(file.memeq(0, &long));
    assert!(file.memeq(3, &long[3..35]));
}

#[test]
fn deallocate_zeroes_the_range_of_the_file() {
    let mut file = MappedFile::new(vec![9u8; 16], 8, 8).unwrap();
    // the range is given in offsets of the file: the region starts at 8
    file.deallocate(10, 3);
    assert_eq!(file.map, vec![9, 9, 0, 0, 0, 9, 9, 9]);
    assert_eq!(file.size, 8);
    file.deallocate(4, 5);
    assert_eq!(file.map, vec![0, 9, 0, 0, 0, 9, 9, 9]);
    file.deallocate(14, 100);
    assert_eq!(file.map, vec![0, 9, 0, 0, 0, 9, 0, 0]);
    file.deallocate(0, 8);
    assert_eq!(file.map, vec![0, 9, 0, 0, 0, 9, 0, 0]);
    file.deallocate(9, u64::MAX);
    assert_eq!(file.map, vec![0; 8]);
}

#[test]
fn remap_keeps_the_bytes_that_stay() {
    let mut file = mapped(vec![1, 2, 3]);
    file.remap(5).unwrap();
    assert_eq!(file.map, vec![1, 2, 3, 0, 0]);
    assert_eq!(file.size, 5);
    file.remap(2).unwrap();
    assert_eq!(file.map, vec![1, 2]);
    assert_eq!(file.size, 2);
    let mut file = MappedFile::new(vec![1, 2, 3], 4, 0).unwrap();
    assert!(file.remap(u64::MAX - 3).is_err());
    assert_eq!(file.size, 0);
}

#[test]
fn magic_number_is_written_at_the_start() {
    let mut file = vec![1u8; 12];
    write_magic_file(&mut file, Some(0x4149445856));
    assert_eq!(file, vec![0x56, 0x58, 0x44, 0x49, 0x41, 0, 0, 0, 1, 1, 1, 1]);
    let mut file = vec![1u8; 3];
    write_magic_file(&mut file, Some(0x4149445856));
    assert_eq!(file, vec![0x56, 0x58, 0x44, 0x49, 0x41, 0, 0, 0]);
    let mut file = vec![1u8; 3];
    write_magic_file(&mut file, None);
    assert_eq!(file, vec![1u8; 3]);
}

#[test]
fn file_is_kept_only_with_its_magic_number() {
    let magic = LevelHashIO::VALUES_MAGIC_NUMBER;
    let header = vec![0x56, 0x58, 0x44, 0x49, 0x41, 0, 0, 0];
    assert_eq!(init_sparse_file(Vec::new(), Some(magic)), header);
    assert_eq!(init_sparse_file(vec![1, 2, 3], Some(magic)), header);
    assert_eq!(init_sparse_file(vec![1; 20], Some(magic)), header);
    let mut good = header.clone();
    good.extend_from_slice(&[1, 2, 3]);
    assert_eq!(init_sparse_file(good.clone(), Some(magic)), good);
    assert_eq!(init_sparse_file(vec![1, 2, 3], None), vec![1, 2, 3]);
    // the magic number of the keymap is zero
    assert_eq!(init_sparse_file(Vec::new(), Some(0)), vec![0u8; 8]);
    assert_eq!(init_sparse_file(vec![0u8; 9], Some(0)), vec![0u8; 9]);
    assert_eq!(init_sparse_file(vec![1u8; 9], Some(0)), vec![0u8; 8]);
    assert_eq!(with_header(magic, vec![1, 2]), vec![0x56, 0x58, 0x44, 0x49, 0x41, 0, 0, 0, 1, 2]);
}

#[test]
fn meta_record_has_a_fixed_layout() {
    let meta = LevelMeta {
        val_version: 0x0102_0304,
        km_version: 0x0506_0708,
        val_tail_addr: 0x1112_1314_1516_1718,
        val_next_addr: 0x2122_2324_2526_2728,
        val_file_size: 0x3132_3334_3536_3738,
        km_level_size: 0x41,
        km_bucket_size: 0x42,
        km_l0_addr: 0x5152_5354_5556_5758,
        km_l1_addr: 0x6162_6364_6566_6768,
    };
    let bytes = MetaIO { meta }.to_bytes();
    let expected: Vec<u8> = vec![
        0x04, 0x03, 0x02, 0x01, 0x08, 0x07, 0x06, 0x05, 0x18, 0x17, 0x16, 0x15, 0x14, 0x13, 0x12,
        0x11, 0x28, 0x27, 0x26, 0x25, 0x24, 0x23, 0x22, 0x21, 0x38, 0x37, 0x36, 0x35, 0x34, 0x33,
        0x32, 0x31, 0x41, 0x42, 0, 0, 0, 0, 0, 0, 0x58, 0x57, 0x56, 0x55, 0x54, 0x53, 0x52, 0x51,
        0x68, 0x67, 0x66, 0x65, 0x64, 0x63, 0x62, 0x61,
    ];
    assert_eq!(bytes, expected);
    assert_eq!(MetaIO::META_SIZE_BYTES, 56);
    let again = LevelMeta::read_from(&mapped(bytes));
    assert_eq!(again.val_version, meta.val_version);
    assert_eq!(again.km_version, meta.km_version);
    assert_eq!(again.val_tail_addr, meta.val_tail_addr);
    assert_eq!(again.val_next_addr, meta.val_next_addr);
    assert_eq!(again.val_file_size, meta.val_file_size);
    assert_eq!(again.km_level_size, meta.km_level_size);
    assert_eq!(again.km_bucket_size, meta.km_bucket_size);
    assert_eq!(again.km_l0_addr, meta.km_l0_addr);
    assert_eq!(again.km_l1_addr, meta.km_l1_addr);
}

#[test]
fn meta_defaults_and_sizes() {
    let mut io = MetaIO::new(vec![0u8; 3], 4, 3);
    assert_eq!(io.read().km_level_size, 4);
    assert_eq!(io.read().km_bucket_size, 3);
    assert_eq!(io.read().km_l1_addr, 16 * 3 * 8);
    assert_eq!(io.km_start_addr(), 0);
    assert_eq!(io.km_size(), (16 + 8) * 3 * 8);
    assert_eq!(MetaIO::level_bytes(4, 3), 16 * 3 * 8);
    assert_eq!(MetaIO::level_bytes(0, 255), 255 * 8);
    // after an expansion the bottom level has the offset zero, and keeps it
    io.write().km_level_size = 5;
    io.write().km_l0_addr = 576;
    io.write().km_l1_addr = 0;
    assert_eq!(io.km_size(), 576 + 32 * 3 * 8);
    assert_eq!(io.km_start_addr(), 0);
    let again = MetaIO::new(io.to_bytes(), 4, 3);
    assert_eq!(again.read().km_l0_addr, 576);
    assert_eq!(again.read().km_l1_addr, 0);
    assert_eq!(again.read().km_level_size, 5);
    // a level size of zero leaves no bottom level
    let mut io = MetaIO::new(Vec::new(), 0, 2);
    assert_eq!(io.read().km_l1_addr, 16);
    assert_eq!(io.km_size(), 16);
}

#[test]
fn record_holds_sizes_key_and_value() {
    let mut file = mapped(vec![0xeeu8; 40]);
    write_record(&mut file, 8, b"key1", b"value1");
    let mut expected = vec![0xeeu8; 8];
    expected.extend_from_slice(&[4, 0, 0, 0, 6, 0, 0, 0]);
    expected.extend_from_slice(b"key1value1");
    expected.extend_from_slice(&[0xee; 14]);
    assert_eq!(file.map, expected);

    let entry = ValuesEntry::at(8, &file);
    assert_eq!(entry.addr(), 8);
    assert_eq!(entry.data().key_size, 4);
    assert_eq!(entry.key_size(), 4);
    assert_eq!(entry.value_size(), 6);
    assert_eq!(entry.esize(), 18);
    assert!(entry.ksizeeq(4));
    assert!(!entry.ksizeeq(5));
    assert!(!entry.is_empty());
    assert_eq!(entry.key(&file), b"key1".to_vec());
    assert_eq!(entry.value(&file), b"value1".to_vec());
    assert_eq!(entry.val_with_size(&file), (6, b"value1".to_vec()));
    assert!(entry.keyeq(&file, b"key1"));
    assert!(!entry.keyeq(&file, b"key2"));
    assert!(!entry.keyeq(&file, b"key"));
    assert!(!entry.keyeq(&file, b""));
    assert_eq!(ValuesEntry::OFF_KEY, 8);
    assert_eq!(ValuesEntry::ENTRY_SIZE_MIN, 8);
    assert_eq!(ValuesData::SIZE_BYTES, 8);

    rewrite_value(&mut file, 8, b"val");
    let mut expected = vec![0xeeu8; 8];
    expected.extend_from_slice(&[4, 0, 0, 0, 3, 0, 0, 0]);
    expected.extend_from_slice(b"key1val");
    expected.extend_from_slice(&[0, 0, 0]);
    expected.extend_from_slice(&[0xee; 14]);
    assert_eq!(file.map, expected);

    let mut entry = ValuesEntryMut::at(8, &file);
    assert_eq!(entry.value_size(), 3);
    entry.data_mut().value_size = 0;
    entry.data_mut().key_size = 0;
    assert!(entry.is_empty());
    entry.store(&mut file);
    assert!(ValuesEntry::at(8, &file).is_empty());
    assert_eq!(ValuesEntry::at(8, &file).key(&file), Vec::<u8>::new());
}

#[test]
fn slots_have_their_offsets_in_the_keymap() {
    let io = LevelHashIO::new(IndexFiles::new(), 3, 5).unwrap();
    assert_eq!(io.bucket_count(0), 8);
    assert_eq!(io.bucket_count(1), 4);
    assert_eq!(io.slot_count(), (40, 20));
    assert_eq!(io.slot_addr(0, 0, 0), 0);
    assert_eq!(io.slot_addr(0, 2, 3), 8 * 5 * 2 + 8 * 3);
    assert_eq!(io.slot_addr(1, 0, 0), 8 * 5 * 8);
    assert_eq!(io.slot_addr(1, 3, 4), 8 * 5 * 8 + 8 * 5 * 3 + 8 * 4);
    assert_eq!(io.slot_addr_for_lvl_addr(1000, 2, 3), 1000 + 8 * 5 * 2 + 8 * 3);
    assert_eq!(io.keymap.size, 8 * 5 * 12);
    assert_eq!(io.values.size, 0);
    assert_eq!(LevelHashIO::val_real_offset(5), 13);
    assert_eq!(LevelHashIO::km_real_offset(5), 13);
    assert_eq!(io.slot_and_val_addr_at(1, 3, 4), (8 * 5 * 8 + 8 * 5 * 3 + 8 * 4, None));
    assert!(!io.is_occupied(0, 0, 0));
    assert_eq!(io.value(0, 0, 0), Vec::<u8>::new());
    assert!(io.val_entry_for_slot(0, 0, 0).is_none());
}

#[test]
fn entries_are_written_and_deleted_slot_by_slot() {
    let mut io = LevelHashIO::new(IndexFiles::new(), 2, 2).unwrap();
    assert!(io.check_append(4, 6));
    io.create_or_update_entry(0, 1, 0, b"key1", b"value1").unwrap();
    assert_eq!(io.slot_and_val_addr_at(0, 1, 0), (16, Some(1)));
    assert_eq!(io.val_addr_at(0, 1, 0), Some(1));
    assert!(io.is_occupied(0, 1, 0));
    assert_eq!(io.value(0, 1, 0), b"value1".to_vec());
    assert_eq!(io.km_read_addr(16), 1);

    // the slot gets a new record, and the old one is deleted
    io.create_or_update_entry(0, 1, 0, b"key1", b"v").unwrap();
    assert_eq!(io.val_addr_at(0, 1, 0), Some(25));
    assert!(io.values.map[0..24].iter().all(|b| *b == 0));
    assert_eq!(io.value(0, 1, 0), b"v".to_vec());
    assert_eq!(io.meta.read().val_next_addr, 25 + 16);

    assert!(io.move_slot(0, 1, 0, 1, 1, 1));
    assert_eq!(io.val_addr_at(0, 1, 0), None);
    assert_eq!(io.val_addr_at(1, 1, 1), Some(25));
    assert!(!io.move_slot(0, 1, 0, 1, 0, 0));
    io.append_entry_at_slot(16, b"key2", b"w").unwrap();
    assert!(!io.move_slot(0, 1, 0, 1, 1, 1));
    assert_eq!(io.value(0, 1, 0), b"w".to_vec());

    // an empty key takes the entry out of the slot
    io.create_or_update_entry(1, 1, 1, b"", b"").unwrap();
    assert_eq!(io.val_addr_at(1, 1, 1), None);
    assert!(io.values.map[24..40].iter().all(|b| *b == 0));
    assert_eq!(io.delete_at_slot(16, true), Some(b"w".to_vec()));
    assert_eq!(io.delete_at_slot(16, true), None);
    assert_eq!(io.meta.read().val_next_addr, 41);
    assert!(io.check_consistent());
}

#[test]
fn record_out_of_use_is_deleted_by_its_address() {
    let mut io = LevelHashIO::new(IndexFiles::new(), 2, 2).unwrap();
    io.append_entry_at_slot(0, b"key1", b"value1").unwrap();
    io.append_entry_at_slot(0, b"key2", b"value2").unwrap();
    // the first record is out of use now
    assert_eq!(io.delete_at(0, None, true), None);
    assert_eq!(io.delete_at(1, Some(b"other"), true), Some(b"value1".to_vec()));
    assert_eq!(io.delete_at(1, Some(b"other"), false), None);
    assert_eq!(io.values.map[8..12], *b"key1");
    assert_eq!(io.delete_at(1, Some(b"key1"), true), Some(b"value1".to_vec()));
    assert!(io.values.map[0..24].iter().all(|b| *b == 0));
    assert_eq!(io.value(0, 0, 0), b"value2".to_vec());
    assert_eq!(io.meta.read().val_next_addr, 49);
}

#[test]
fn interim_level_is_built_behind_the_levels() {
    let mut io = LevelHashIO::new(IndexFiles::new(), 1, 1).unwrap();
    io.append_entry_at_slot(16, b"key1", b"value1").unwrap();
    assert_eq!(io.keymap.size, 24);
    io.prepare_interim(4).unwrap();
    assert_eq!(io.interim_lvl_addr, Some(24));
    assert_eq!(io.keymap.size, 24 + 32);
    assert!(io.move_to_interim(1, 0, 0, 3, 0));
    assert!(!io.move_to_interim(1, 0, 0, 3, 0));
    assert_eq!(io.km_read_addr(24 + 24), 1);
    io.abort_interim();
    assert_eq!(io.interim_lvl_addr, None);
    assert_eq!(io.keymap.size, 24);
    assert_eq!(io.value(1, 0, 0), b"value1".to_vec());

    io.prepare_interim(4).unwrap();
    assert!(io.move_to_interim(1, 0, 0, 1, 0));
    io.commit_interim(2);
    assert_eq!(io.interim_lvl_addr, None);
    assert_eq!(io.meta.read().km_level_size, 2);
    assert_eq!(io.meta.read().km_l0_addr, 24);
    assert_eq!(io.meta.read().km_l1_addr, 0);
    assert_eq!(io.value(0, 1, 0), b"value1".to_vec());
    // the blocks of the old bottom level are given back
    assert_eq!(io.km_read_addr(16), 0);
    assert!(io.check_consistent());
}

#[test]
fn index_with_regions_too_large_to_map_is_refused() {
    let mut meta = MetaIO::new(Vec::new(), 2, 4);
    meta.write().val_file_size = u64::MAX - 3;
    let files = IndexFiles {
        values: Vec::new(),
        keymap: Vec::new(),
        meta: meta.to_bytes(),
    };
    assert!(matches!(
        LevelHashIO::new(files, 2, 4),
        Err(LevelInitError::MmapError(LevelMapError::IOError(_)))
    ));
    // sizes that are no numbers of 64 bits are an invalid argument
    let mut meta = MetaIO::new(Vec::new(), 2, 4);
    meta.write().km_l0_addr = u64::MAX - 3;
    let files = IndexFiles {
        values: Vec::new(),
        keymap: Vec::new(),
        meta: meta.to_bytes(),
    };
    assert!(matches!(LevelHashIO::new(files, 2, 4), Err(LevelInitError::InvalidArg(_))));
    // and so is a meta record that asks for a values region without its records
    let mut meta = MetaIO::new(Vec::new(), 2, 4);
    meta.write().val_next_addr = 9;
    let files = IndexFiles {
        values: Vec::new(),
        keymap: Vec::new(),
        meta: meta.to_bytes(),
    };
    assert!(matches!(LevelHashIO::new(files, 2, 4), Err(LevelInitError::InvalidArg(_))));
}

#[test]
fn raw_writes_reach_the_regions() {
    let mut io = LevelHashIO::new(IndexFiles::new(), 1, 1).unwrap();
    io.km_write_addr(8, 77);
    assert_eq!(io.km_read_addr(8), 77);
    assert_eq!(io.read_slot(1), 77);
    assert!(!io.check_consistent());
    io.km_deallocate(8, 8);
    assert_eq!(io.km_read_addr(8), 0);
    io.val_resize(16).unwrap();
    assert_eq!(io.meta.read().val_file_size, 16);
    io.values.write_at(0, &[1u8; 16]);
    io.val_deallocate(4, 8);
    assert_eq!(io.values.map, vec![1, 1, 1, 1, 0, 0, 0, 0, 0, 0, 0, 0, 1, 1, 1, 1]);
    io.km_resize(8).unwrap();
    assert_eq!(io.keymap.size, 8);
}

#[test]
fn errors_wrap_each_other() {
    let e = StdIOError::with_message("m".to_string(), io_error());
    assert_eq!(e.message, Some("m".to_string()));
    assert_eq!(e.error.kind(), std::io::ErrorKind::NotFound);
    assert_eq!(StdIOError::new(None, io_error()).message, None);
    assert_eq!(StdIOError::from(io_error()).message, None);

    assert!(matches!(LevelInitError::from(StdIOError::from(io_error())), LevelInitError::IOError(_)));
    assert!(matches!(LevelMapError::from(StdIOError::from(io_error())), LevelMapError::IOError(_)));
    let map_error = || LevelMapError::from(StdIOError::from(io_error()));
    assert!(matches!(LevelInitError::from(map_error()), LevelInitError::MmapError(_)));
    assert!(matches!(LevelInsertionError::from(map_error()), LevelInsertionError::MmapError(_)));
    assert!(matches!(LevelExpansionError::from(map_error()), LevelExpansionError::MmapError(_)));
    assert!(matches!(
        LevelUpdateError::from(LevelInsertionError::DuplicateKey),
        LevelUpdateError::InsertionErr(LevelInsertionError::DuplicateKey)
    ));
    assert!(matches!(
        LevelExpansionError::from(LevelUpdateError::SlotEmpty),
        LevelExpansionError::UpdateError(LevelUpdateError::SlotEmpty)
    ));
    assert!(matches!(
        LevelExpansionError::from(LevelInsertionError::InsertionFailure),
        LevelExpansionError::UpdateError(LevelUpdateError::InsertionErr(
            LevelInsertionError::InsertionFailure
        ))
    ));
}

#[test]
fn results_take_their_errors_along() {
    let failed = || -> Result<u8, std::io::Error> { Err(io_error()) };
    let fine = || -> Result<u8, std::io::Error> { Ok(3) };
    assert!(matches!(fine().into_lvl_io_err(), Ok(3)));
    assert!(matches!(failed().into_lvl_io_err(), Err(StdIOError { message: None, .. })));
    let with_message = failed().into_lvl_io_e_msg("m".to_string()).unwrap_err();
    assert_eq!(with_message.message, Some("m".to_string()));
    assert!(matches!(fine().into_lvl_io_e_msg("m".to_string()), Ok(3)));

    let io_failed = || failed().into_lvl_io_err();
    assert!(matches!(io_failed().into_lvl_init_err(), Err(LevelInitError::IOError(_))));
    assert!(matches!(io_failed().into_lvl_mmap_err(), Err(LevelMapError::IOError(_))));
    assert!(matches!(fine().into_lvl_io_err().into_lvl_mmap_err(), Ok(3)));
    let map_failed = || io_failed().into_lvl_mmap_err();
    assert!(matches!(map_failed().into_lvl_init_err(), Err(LevelInitError::MmapError(_))));
    assert!(matches!(map_failed().into_lvl_ins_err(), Err(LevelInsertionError::MmapError(_))));
    assert!(matches!(map_failed().into_lvl_exp_err(), Err(LevelExpansionError::MmapError(_))));
    let insertion_failed = || -> Result<u8, LevelInsertionError> { Err(LevelInsertionError::LevelOverflow) };
    assert!(matches!(
        insertion_failed().into_lvl_upd_err(),
        Err(LevelUpdateError::InsertionErr(LevelInsertionError::LevelOverflow))
    ));
}
