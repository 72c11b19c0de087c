use vstd::prelude::*;
use crate::fs::has_magic;
use crate::fs::init_sparse_file;
use crate::io::region_of;
use crate::io::resized;
use crate::io::u64_le_bytes;
use crate::io::MappedFile;
use crate::level_io::clear::zeros;
use crate::level_io::Entry;
use crate::level_io::LevelHashIO;
use crate::meta::MetaIO;
use crate::meta::LEVEL_SIZE_MAX;
use crate::reprs::LevelMeta;
use crate::result::LevelInitError;
use crate::result::LevelResult;
use crate::types::BucketSizeT;
use crate::types::LevelSizeT;
use crate::types::OffT;

verus! {

/// The contents of the three files of an index: the values file and the
/// keymap file, each with its header, and the meta file. A file that does
/// not exist yet is an empty one.
#[derive(Debug)]
pub struct IndexFiles {
    pub values: Vec<u8>,
    pub keymap: Vec<u8>,
    pub meta: Vec<u8>,
}

impl IndexFiles {
    /// The files of an index that does not exist yet.
    pub fn new() -> (r: Self)
        ensures
            r.fresh(),
    {
        IndexFiles { values: Vec::new(), keymap: Vec::new(), meta: Vec::new() }
    }
}

impl IndexFiles {
    /// Whether the files are those of an index that does not exist yet: all
    /// three are empty.
    pub open spec fn fresh(&self) -> bool {
        self.values@.len() == 0 && self.keymap@.len() == 0 && self.meta@.len() == 0
    }

    /// Whether the files hold the index `io`: the meta file holds its meta
    /// record, and each of the two other files starts with its magic number
    /// and goes on with the bytes of the region.
    pub open spec fn holds_index(&self, io: &LevelHashIO) -> bool {
        &&& self.meta@.len() == MetaIO::META_SIZE_BYTES
        &&& LevelMeta::decode(self.meta@) == io.meta.meta
        &&& has_magic(self.values@, LevelHashIO::VALUES_MAGIC_NUMBER)
        &&& self.values@.len() == 8 + io.values@.len()
        &&& region_of(self.values@, 8, io.values@.len() as int) == io.values@
        &&& has_magic(self.keymap@, LevelHashIO::KEYMAP_MAGIC_NUMBER)
        &&& self.keymap@.len() == 8 + io.keymap@.len()
        &&& region_of(self.keymap@, 8, io.keymap@.len() as int) == io.keymap@
    }
}

/// The contents of a file that starts with the magic number `magic` and
/// goes on with `body`.
pub fn with_header(magic: u64, body: Vec<u8>) -> (r: Vec<u8>)
    ensures
        has_magic(r@, magic),
        r@.len() == 8 + body@.len(),
        region_of(r@, 8, body@.len() as int) == body@,
{
    let header = u64_le_bytes(magic);
    let mut file: Vec<u8> = Vec::new();
    let mut i: usize = 0;
    while i < 8
        invariant
            i <= 8,
            header@.len() == 8,
            file@.len() == i,
            forall|k: int| 0 <= k < i ==> file@[k] == header@[k],
        decreases 8 - i,
    {
        file.push(header[i]);
        i += 1;
    }
    let mut body = body;
    let ghost bytes = body@;
    file.append(&mut body);
    assert(region_of(file@, 8, bytes.len() as int) =~= bytes);
    file
}

impl LevelHashIO {
    /// The meta record of an index that is opened from the meta file with
    /// the contents `meta_file`.
    #[verifier::opaque]
    pub open spec fn meta_from(meta_file: Seq<u8>, level_size: LevelSizeT, bucket_size: BucketSizeT) -> LevelMeta {
        MetaIO::with_defaults(
            LevelMeta::decode(resized(meta_file, MetaIO::META_SIZE_BYTES as int)),
            level_size,
            bucket_size,
        )
    }

    /// The first `size` bytes behind the header of a file with the contents
    /// `file`, once the file is ready for use: a file that does not start
    /// with the magic number `magic` has been cut to its header, and where
    /// the file has ended the bytes are zero.
    pub open spec fn body_of(file: Seq<u8>, magic: u64, size: int) -> Seq<u8> {
        if has_magic(file, magic) {
            region_of(file, 8, size)
        } else {
            zeros(size)
        }
    }

    /// Whether `self` is the index that the three files hold: its meta
    /// record is that of the meta file, and its two regions are the bodies
    /// of the two other files, at the sizes that the meta record gives.
    pub open spec fn opened_from(
        &self,
        values_file: Seq<u8>,
        keymap_file: Seq<u8>,
        meta_file: Seq<u8>,
        level_size: LevelSizeT,
        bucket_size: BucketSizeT,
    ) -> bool {
        &&& self.meta.meta == Self::meta_from(meta_file, level_size, bucket_size)
        &&& self.interim_lvl_addr is None
        &&& self.values.off == Self::VALUES_HEADER_SIZE_BYTES
        &&& self.values.size == self.meta.meta.val_file_size
        &&& self.values@ == Self::body_of(
            values_file,
            Self::VALUES_MAGIC_NUMBER,
            self.meta.meta.val_file_size as int,
        )
        &&& self.keymap.off == Self::KEYMAP_HEADER_SIZE_BYTES
        &&& self.keymap.size == self.meta.spec_km_size()
        &&& self.keymap@ == Self::body_of(keymap_file, Self::KEYMAP_MAGIC_NUMBER, self.meta.spec_km_size())
    }

    /// Whether the three files hold an index that can be opened with the
    /// given level size and bucket size: the two sizes are within their
    /// limits, and the index that the files hold is consistent.
    pub open spec fn openable(
        values_file: Seq<u8>,
        keymap_file: Seq<u8>,
        meta_file: Seq<u8>,
        level_size: LevelSizeT,
        bucket_size: BucketSizeT,
    ) -> bool {
        &&& level_size <= LEVEL_SIZE_MAX
        &&& bucket_size >= 1
        &&& exists|io: LevelHashIO|
            #[trigger] io.opened_from(values_file, keymap_file, meta_file, level_size, bucket_size) && io.wf()
    }

    /// Whether the two regions can be mapped at the sizes that the meta
    /// record `meta` gives.
    pub open spec fn sizes_mappable(meta: LevelMeta) -> bool {
        let m = MetaIO { meta };
        &&& meta.km_level_size <= LEVEL_SIZE_MAX
        &&& m.spec_km_size() <= u64::MAX
        &&& MappedFile::mappable(Self::VALUES_HEADER_SIZE_BYTES, meta.val_file_size)
        &&& MappedFile::mappable(Self::KEYMAP_HEADER_SIZE_BYTES, m.spec_km_size() as u64)
    }

    /// The size of the keymap region of a new index of the given level size
    /// and bucket size.
    pub open spec fn new_km_size(level_size: LevelSizeT, bucket_size: BucketSizeT) -> int {
        crate::meta::top_level_bytes(level_size, bucket_size) + crate::meta::bottom_level_bytes(
            level_size,
            bucket_size,
        )
    }

    /// The index that is opened from files that do not exist yet is
    /// well-formed and empty, with the level size and the bucket size that
    /// it is opened with.
    pub proof fn lemma_fresh(&self, level_size: LevelSizeT, bucket_size: BucketSizeT)
        requires
            level_size <= LEVEL_SIZE_MAX,
            bucket_size >= 1,
            self.opened_from(Seq::empty(), Seq::empty(), Seq::empty(), level_size, bucket_size),
            self.values.wf(),
            self.keymap.wf(),
        ensures
            self.wf(),
            self.all_empty(),
            self.meta.meta.km_level_size == level_size,
            self.meta.meta.km_bucket_size == bucket_size,
            self.meta.meta.val_next_addr == 1,
            self.meta.meta.val_tail_addr == 0,
            self.keymap.size == Self::new_km_size(level_size, bucket_size),
    {
        reveal(LevelHashIO::meta_from);
        reveal(LevelHashIO::slot_ptr);
        crate::meta::lemma_bucket_counts(level_size);
        let blank = resized(Seq::<u8>::empty(), MetaIO::META_SIZE_BYTES as int);
        assert(LevelMeta::decode(blank).val_version == 0);
        assert(LevelMeta::decode(blank).km_l1_addr == 0);
        assert(LevelMeta::decode(blank).val_file_size == 0);
        let n0 = crate::meta::top_bucket_count(level_size);
        let n1 = crate::meta::bottom_bucket_count(level_size);
        let b = bucket_size as int;
        assert(0 <= n1 * b <= n0 * b <= 0x100_0000 * 255 && n0 * b >= 1) by (nonlinear_arith)
            requires
                0 <= n1 <= n0 <= 0x100_0000,
                1 <= n0,
                1 <= b <= 255,
        ;
        assert(n0 * b * 8 == 8 * (n0 * b) && n1 * b * 8 == 8 * (n1 * b)) by (nonlinear_arith);
        assert(self.geometry_wf());
        assert(self.values_wf());
        assert forall|level: int, idx: int| self.is_slot(level, idx) implies self.slot_ptr(level, idx) == 0
            && self.entry_at(level, idx) == None::<Entry> by {
            self.lemma_slot_in_keymap(level, idx);
        }
    }

    /// Whether an index cannot be opened for want of room to map its
    /// regions: the level size and the bucket size that it is opened with
    /// are within their limits, and so are the sizes that the meta record
    /// gives, but the regions cannot be mapped at these sizes.
    pub open spec fn unmappable(meta_file: Seq<u8>, level_size: LevelSizeT, bucket_size: BucketSizeT) -> bool {
        let meta = Self::meta_from(meta_file, level_size, bucket_size);
        let m = MetaIO { meta };
        &&& level_size <= LEVEL_SIZE_MAX
        &&& bucket_size >= 1
        &&& meta.km_level_size <= LEVEL_SIZE_MAX
        &&& m.spec_km_size() <= u64::MAX
        &&& !Self::sizes_mappable(meta)
    }

    /// Two indexes in the same state are consistent alike.
    pub proof fn lemma_same_consistent(&self, other: &LevelHashIO)
        requires
            self.same_as(other),
            other.consistent(),
            self.values.wf(),
            self.keymap.wf(),
        ensures
            self.consistent(),
            forall|level: int, idx: int|
                #![trigger self.slot_ptr(level, idx)]
                self.slot_ptr(level, idx) == other.slot_ptr(level, idx),
    {
        reveal(LevelHashIO::slot_ptr);
        assert forall|level: int, idx: int| self.slot_ptr(level, idx) == other.slot_ptr(level, idx) by {}
        assert forall|l1: int, i1: int, l2: int, i2: int|
            self.is_slot(l1, i1) && self.is_slot(l2, i2) && (l1 != l2 || i1 != i2) && self.slot_ptr(l1, i1) != 0
                && self.slot_ptr(l2, i2) != 0 implies self.apart(self.slot_ptr(l1, i1), self.slot_ptr(l2, i2)) by {
            assert(other.apart(other.slot_ptr(l1, i1), other.slot_ptr(l2, i2)));
        }
    }

    /// Takes the meta record from the contents of the meta file.
    pub fn read_meta(meta_file: Vec<u8>, level_size: LevelSizeT, bucket_size: BucketSizeT) -> (r: MetaIO)
        ensures
            r.meta == Self::meta_from(meta_file@, level_size, bucket_size),
    {
        reveal(LevelHashIO::meta_from);
        MetaIO::new(meta_file, level_size, bucket_size)
    }

    /// Makes the file with the contents `file` ready for use, and maps the
    /// first `size` bytes behind its header.
    pub fn map_body(file: Vec<u8>, magic: u64, size: OffT) -> (r: LevelResult<MappedFile, crate::result::LevelMapError>)
        ensures
            r is Ok <==> MappedFile::mappable(Self::MAGIC_NUMBER_SIZE_BYTES, size),
            r matches Ok(m) ==> {
                &&& m.wf()
                &&& m.off == Self::MAGIC_NUMBER_SIZE_BYTES
                &&& m.size == size
                &&& m@ == Self::body_of(file@, magic, size as int)
            },
    {
        let ready = init_sparse_file(file, Some(magic));
        let mapped = MappedFile::new(ready, Self::MAGIC_NUMBER_SIZE_BYTES, size)?;
        assert(mapped@ =~= Self::body_of(file@, magic, size as int));
        Ok(mapped)
    }

    /// Whether the two regions can be given the sizes that the meta record
    /// asks for: the level size is within its limit, and the sizes are
    /// numbers of 64 bits.
    pub fn check_sizes(meta: &MetaIO) -> (r: bool)
        ensures
            r == (meta.meta.km_level_size <= LEVEL_SIZE_MAX && meta.spec_km_size() <= u64::MAX),
    {
        if meta.meta.km_level_size > LEVEL_SIZE_MAX {
            return false;
        }
        let l0_bytes = MetaIO::level_bytes(meta.meta.km_level_size, meta.meta.km_bucket_size);
        proof {
            crate::meta::lemma_bucket_counts(meta.meta.km_level_size);
            let n1 = crate::meta::bottom_bucket_count(meta.meta.km_level_size);
            let n0 = crate::meta::top_bucket_count(meta.meta.km_level_size);
            let b = meta.meta.km_bucket_size as int;
            assert(0 <= n1 * b * 8 <= n0 * b * 8) by (nonlinear_arith)
                requires
                    0 <= n1 <= n0,
                    0 <= b,
            ;
        }
        let l1_bytes = if meta.meta.km_level_size == 0 {
            0
        } else {
            l0_bytes / 2
        };
        meta.meta.km_l0_addr <= u64::MAX - l0_bytes && meta.meta.km_l1_addr <= u64::MAX - l1_bytes
    }

    /// Maps the two regions of the index that the files hold, at the sizes
    /// that the meta record gives.
    pub fn map_regions(values_file: Vec<u8>, keymap_file: Vec<u8>, meta: MetaIO) -> (r: LevelResult<
        LevelHashIO,
        crate::result::LevelMapError,
    >)
        requires
            meta.meta.km_level_size <= LEVEL_SIZE_MAX,
            meta.spec_km_size() <= u64::MAX,
        ensures
            r is Ok <==> Self::sizes_mappable(meta.meta),
            r matches Ok(io) ==> {
                &&& io.meta == meta
                &&& io.interim_lvl_addr is None
                &&& io.values.wf()
                &&& io.keymap.wf()
                &&& io.values.off == Self::VALUES_HEADER_SIZE_BYTES
                &&& io.values.size == meta.meta.val_file_size
                &&& io.values@ == Self::body_of(
                    values_file@,
                    Self::VALUES_MAGIC_NUMBER,
                    meta.meta.val_file_size as int,
                )
                &&& io.keymap.off == Self::KEYMAP_HEADER_SIZE_BYTES
                &&& io.keymap.size == meta.spec_km_size()
                &&& io.keymap@ == Self::body_of(keymap_file@, Self::KEYMAP_MAGIC_NUMBER, meta.spec_km_size())
            },
    {
        let mut meta = meta;
        let val_size = meta.read().val_file_size;
        let km_size = meta.km_size();
        let values = Self::map_body(values_file, Self::VALUES_MAGIC_NUMBER, val_size)?;
        let keymap = Self::map_body(keymap_file, Self::KEYMAP_MAGIC_NUMBER, km_size)?;
        Ok(LevelHashIO { values, keymap, meta, interim_lvl_addr: None })
    }

    /// Create a new [LevelHashIO] from the contents of the three files of an index.
    ///
    /// If the files hold a level hash already, then the level hash
    /// is initialized from the existing level hash. In this case, the values of `level_size` and
    /// `bucket_size` are ignored. Files that hold no consistent index are
    /// refused as an invalid argument.
    ///
    /// ## Params
    ///
    /// * `files`: The contents of the files of the index.
    /// * `level_size`: The level size of the level hash. This is used to calculate the final capacity
    /// of the level hash.
    /// * `bucket_size`: The bucket size of the level hash. This is the number of slots that make up
    /// a single bucket.
    pub fn new(files: IndexFiles, level_size: LevelSizeT, bucket_size: BucketSizeT) -> (r: LevelResult<
        LevelHashIO,
        LevelInitError,
    >)
        ensures
            r is Ok <==> Self::openable(files.values@, files.keymap@, files.meta@, level_size, bucket_size),
            r matches Ok(io) ==> io.wf() && io.opened_from(
                files.values@,
                files.keymap@,
                files.meta@,
                level_size,
                bucket_size,
            ),
            (r matches Err(LevelInitError::MmapError(_))) <==> Self::unmappable(
                files.meta@,
                level_size,
                bucket_size,
            ),
            r matches Err(e) ==> e is MmapError || e is InvalidArg,
            files.fresh() && level_size <= LEVEL_SIZE_MAX && bucket_size >= 1 && MappedFile::mappable(
                Self::KEYMAP_HEADER_SIZE_BYTES,
                Self::new_km_size(level_size, bucket_size) as u64,
            ) ==> r is Ok && r->Ok_0.all_empty(),
    {
        let ghost values_file = files.values@;
        let ghost keymap_file = files.keymap@;
        let ghost meta_file = files.meta@;
        if level_size > LEVEL_SIZE_MAX {
            return Err(LevelInitError::InvalidArg("level size is over the maximum".to_owned()));
        }
        if bucket_size < 1 {
            return Err(LevelInitError::InvalidArg("bucket size must be at least 1".to_owned()));
        }
        let ghost fresh = files.fresh();
        let meta = Self::read_meta(files.meta, level_size, bucket_size);
        proof {
            if !Self::sizes_mappable(meta.meta) {
                Self::lemma_not_openable(values_file, keymap_file, meta_file, level_size, bucket_size);
            }
            if fresh {
                Self::lemma_fresh_meta(level_size, bucket_size);
                assert(meta_file =~= Seq::<u8>::empty());
            }
        }
        if !Self::check_sizes(&meta) {
            return Err(LevelInitError::InvalidArg("the meta file holds no sizes in range".to_owned()));
        }
        let io = match Self::map_regions(files.values, files.keymap, meta) {
            Ok(io) => io,
            Err(e) => {
                return Err(LevelInitError::MmapError(e));
            },
        };
        assert(io.opened_from(values_file, keymap_file, meta_file, level_size, bucket_size));
        proof {
            if fresh {
                assert(values_file =~= Seq::<u8>::empty());
                assert(keymap_file =~= Seq::<u8>::empty());
                io.lemma_fresh(level_size, bucket_size);
            }
        }
        if !io.check_consistent() {
            proof {
                Self::lemma_only_one(&io, values_file, keymap_file, meta_file, level_size, bucket_size);
            }
            return Err(LevelInitError::InvalidArg("the files hold no consistent index".to_owned()));
        }
        Ok(io)
    }

    /// The meta record of a new index: the level size and the bucket size
    /// that the index is opened with, no records in the values region, and
    /// the bottom level behind the top level in the keymap region.
    pub proof fn lemma_fresh_meta(level_size: LevelSizeT, bucket_size: BucketSizeT)
        requires
            level_size <= LEVEL_SIZE_MAX,
        ensures
            ({
                let meta = Self::meta_from(Seq::empty(), level_size, bucket_size);
                let m = MetaIO { meta };
                &&& meta.km_level_size == level_size
                &&& meta.km_bucket_size == bucket_size
                &&& meta.val_file_size == 0
                &&& meta.km_l0_addr == 0
                &&& meta.km_l1_addr == crate::meta::top_level_bytes(level_size, bucket_size)
                &&& m.spec_km_size() == Self::new_km_size(level_size, bucket_size)
                &&& 0 <= Self::new_km_size(level_size, bucket_size) <= 0x10_0000_0000
            }),
    {
        reveal(LevelHashIO::meta_from);
        crate::meta::lemma_bucket_counts(level_size);
        let blank = resized(Seq::<u8>::empty(), MetaIO::META_SIZE_BYTES as int);
        assert(LevelMeta::decode(blank).km_l1_addr == 0);
        assert(LevelMeta::decode(blank).val_file_size == 0);
        let n0 = crate::meta::top_bucket_count(level_size);
        let n1 = crate::meta::bottom_bucket_count(level_size);
        let b = bucket_size as int;
        assert(0 <= n1 * b * 8 <= n0 * b * 8 <= 0x100_0000 * 255 * 8) by (nonlinear_arith)
            requires
                0 <= n1 <= n0 <= 0x100_0000,
                0 <= b <= 255,
        ;
    }

    /// The files hold one index only: where the index that has been opened
    /// from them is not consistent, they hold none that is.
    pub proof fn lemma_only_one(
        io: &LevelHashIO,
        values_file: Seq<u8>,
        keymap_file: Seq<u8>,
        meta_file: Seq<u8>,
        level_size: LevelSizeT,
        bucket_size: BucketSizeT,
    )
        requires
            io.opened_from(values_file, keymap_file, meta_file, level_size, bucket_size),
            io.values.wf(),
            io.keymap.wf(),
            !io.consistent(),
        ensures
            !Self::openable(values_file, keymap_file, meta_file, level_size, bucket_size),
    {
        if Self::openable(values_file, keymap_file, meta_file, level_size, bucket_size) {
            let other = choose|other: LevelHashIO|
                #[trigger] other.opened_from(values_file, keymap_file, meta_file, level_size, bucket_size)
                    && other.wf();
            io.lemma_same_consistent(&other);
        }
    }

    /// No index can be opened from files whose meta record gives sizes at
    /// which the two regions cannot be mapped.
    pub proof fn lemma_not_openable(
        values_file: Seq<u8>,
        keymap_file: Seq<u8>,
        meta_file: Seq<u8>,
        level_size: LevelSizeT,
        bucket_size: BucketSizeT,
    )
        requires
            !Self::sizes_mappable(Self::meta_from(meta_file, level_size, bucket_size)),
        ensures
            !Self::openable(values_file, keymap_file, meta_file, level_size, bucket_size),
    {
        if Self::openable(values_file, keymap_file, meta_file, level_size, bucket_size) {
            let other = choose|other: LevelHashIO|
                #[trigger] other.opened_from(values_file, keymap_file, meta_file, level_size, bucket_size)
                    && other.wf();
            assert(other.values.wf());
            assert(other.keymap.wf());
            assert(other.geometry_wf());
        }
    }

    /// The contents of the three files that hold the index.
    pub fn into_files(self) -> (r: IndexFiles)
        ensures
            r.holds_index(&self),
    {
        let meta = self.meta.to_bytes();
        let values = with_header(Self::VALUES_MAGIC_NUMBER, self.values.map);
        let keymap = with_header(Self::KEYMAP_MAGIC_NUMBER, self.keymap.map);
        IndexFiles { values, keymap, meta }
    }
}

} // verus!
