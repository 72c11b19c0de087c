use level_hash::level_io::LevelHashIO;
use level_hash::meta::MetaIO;
use level_hash::meta::LEVEL_KEYMAP_VERSION;
use level_hash::meta::LEVEL_VALUES_VERSION;
use level_hash::BUCKET_SIZE_DEFAULT;
use level_hash::LEVEL_SIZE_DEFAULT;

fn create_meta_io(file: Vec<u8>) -> MetaIO {
    MetaIO::new(file, LEVEL_SIZE_DEFAULT, BUCKET_SIZE_DEFAULT)
}

#[test]
fn test_meta_init_with_default_values() {
    let io = create_meta_io(Vec::new());
    let meta = io.read();
    assert_eq!(meta.val_version, LEVEL_VALUES_VERSION);
    assert_eq!(meta.km_version, LEVEL_KEYMAP_VERSION);
    assert_eq!(meta.val_tail_addr, 0);
    assert_eq!(meta.val_next_addr, 1);
    assert_eq!(meta.val_file_size, 0); // this is set by LevelHashIO
    assert_eq!(meta.km_level_size, LEVEL_SIZE_DEFAULT);
    assert_eq!(meta.km_bucket_size, BUCKET_SIZE_DEFAULT);
    assert_eq!(meta.km_l0_addr, 0);
    assert_eq!(
        meta.km_l1_addr,
        (1u64 << LEVEL_SIZE_DEFAULT)
            * BUCKET_SIZE_DEFAULT as u64
            * LevelHashIO::KEYMAP_ENTRY_SIZE_BYTES
    );
}

#[test]
fn test_meta_init_with_existing_file() {
    let file = {
        let mut io = create_meta_io(Vec::new());
        let meta = io.write();
        meta.val_version = 2;
        meta.km_version = 3;
        meta.val_next_addr = 200;
        meta.val_tail_addr = 300;
        meta.val_file_size = 1024;
        meta.km_level_size = 10;
        meta.km_bucket_size = 20;
        io.to_bytes()
    };

    {
        let io = create_meta_io(file);
        let meta = io.read();
        assert_eq!(meta.val_version, 2);
        assert_eq!(meta.km_version, 3);
        assert_eq!(meta.val_next_addr, 200);
        assert_eq!(meta.val_tail_addr, 300);
        assert_eq!(meta.val_file_size, 1024);
        assert_eq!(meta.km_level_size, 10);
        assert_eq!(meta.km_bucket_size, 20);

        // The levels are NOT moved when the fields in the meta file are updated (as expected)
        // therefore, these fields must still have the default values
        assert_eq!(meta.km_l0_addr, 0);
        assert_eq!(
            meta.km_l1_addr,
            (1u64 << LEVEL_SIZE_DEFAULT)
                * BUCKET_SIZE_DEFAULT as u64
                * LevelHashIO::KEYMAP_ENTRY_SIZE_BYTES
        );
    }
}
