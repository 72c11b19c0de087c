use vstd::prelude::*;
use crate::io::resized;
use crate::io::same_within;
use crate::io::MappedFile;
use crate::reprs::LevelMeta;
use crate::types::BucketSizeT;
use crate::types::LevelSizeT;
use crate::types::OffT;

verus! {

pub const LEVEL_VALUES_VERSION: u32 = 1;

pub const LEVEL_KEYMAP_VERSION: u32 = 1;

/// The largest level size that an index can have.
pub const LEVEL_SIZE_MAX: u8 = 24;

/// The number of bytes that a slot takes in the keymap.
pub const KEYMAP_ENTRY_SIZE_BYTES: u64 = 8;

/// The number of buckets of the top level of an index of the level size
/// `level_size`.
pub open spec fn top_bucket_count(level_size: u8) -> int {
    (1u64 << level_size) as int
}

/// The number of buckets of the bottom level: half of those of the top
/// level, and none where the top level has a single bucket.
pub open spec fn bottom_bucket_count(level_size: u8) -> int {
    ((1u64 << level_size) >> 1) as int
}

/// The number of bytes that the top level takes in the keymap.
pub open spec fn top_level_bytes(level_size: u8, bucket_size: u8) -> int {
    top_bucket_count(level_size) * bucket_size * 8
}

/// The number of bytes that the bottom level takes in the keymap.
pub open spec fn bottom_level_bytes(level_size: u8, bucket_size: u8) -> int {
    bottom_bucket_count(level_size) * bucket_size * 8
}

/// Bounds on the bucket counts of a level size that an index can have.
pub proof fn lemma_bucket_counts(level_size: u8)
    requires
        level_size <= LEVEL_SIZE_MAX,
    ensures
        1 <= top_bucket_count(level_size) <= 0x100_0000,
        bottom_bucket_count(level_size) == top_bucket_count(level_size) / 2,
        level_size == 0 ==> top_bucket_count(level_size) == 1 && bottom_bucket_count(level_size) == 0,
        level_size > 0 ==> top_bucket_count(level_size) == 2 * bottom_bucket_count(level_size),
        level_size < LEVEL_SIZE_MAX ==> top_bucket_count((level_size + 1) as u8) == 2
            * top_bucket_count(level_size) && bottom_bucket_count((level_size + 1) as u8)
            == top_bucket_count(level_size),
{
    let s = level_size;
    assert(1 <= (1u64 << s) <= 0x100_0000 && ((1u64 << s) >> 1) == (1u64 << s) / 2) by (bit_vector)
        requires
            s <= 24,
    ;
    assert(s == 0 ==> (1u64 << s) == 1) by (bit_vector);
    assert(s > 0 ==> (1u64 << s) % 2 == 0) by (bit_vector)
        requires
            s <= 24,
    ;
    if s < 24 {
        let t = (s + 1) as u8;
        assert((1u64 << t) == 2 * (1u64 << s) && ((1u64 << t) >> 1) == (1u64 << s)) by (bit_vector)
            requires
                s < 24,
                t == s + 1,
        ;
    }
}

/// The meta record of an index, as it is held while the index is open.
#[derive(Debug)]
pub struct MetaIO {
    pub meta: LevelMeta,
}

impl MetaIO {
    /// The number of bytes of the meta file.
    pub const META_SIZE_BYTES: OffT = LevelMeta::SIZE_BYTES;

    /// The record `m` with the fields that are not set yet (those that are
    /// zero) set to their defaults. The offset of the bottom level is set
    /// only where both levels have the offset zero, which no index in use
    /// has: there the bottom level follows the top level.
    pub open spec fn with_defaults(m: LevelMeta, level_size: LevelSizeT, bucket_size: BucketSizeT) -> LevelMeta {
        let km_level_size = if m.km_level_size == 0 {
            level_size
        } else {
            m.km_level_size
        };
        let km_bucket_size = if m.km_bucket_size == 0 {
            bucket_size
        } else {
            m.km_bucket_size
        };
        LevelMeta {
            val_version: if m.val_version == 0 {
                LEVEL_VALUES_VERSION
            } else {
                m.val_version
            },
            km_version: if m.km_version == 0 {
                LEVEL_KEYMAP_VERSION
            } else {
                m.km_version
            },
            val_tail_addr: m.val_tail_addr,
            val_next_addr: if m.val_next_addr == 0 {
                1
            } else {
                m.val_next_addr
            },
            val_file_size: m.val_file_size,
            km_level_size,
            km_bucket_size,
            km_l0_addr: m.km_l0_addr,
            km_l1_addr: if m.km_l0_addr == 0 && m.km_l1_addr == 0 && km_level_size <= LEVEL_SIZE_MAX {
                top_level_bytes(km_level_size, km_bucket_size) as u64
            } else {
                m.km_l1_addr
            },
        }
    }

    /// The number of bytes that the top level of an index takes in the keymap.
    pub fn level_bytes(level_size: LevelSizeT, bucket_size: BucketSizeT) -> (r: OffT)
        requires
            level_size <= LEVEL_SIZE_MAX,
        ensures
            r == top_level_bytes(level_size, bucket_size),
            r / 2 == bottom_level_bytes(level_size, bucket_size) || level_size == 0,
            r <= 0x7_f800_0000,
    {
        proof {
            lemma_bucket_counts(level_size);
            let n = top_bucket_count(level_size);
            let b = bucket_size as int;
            assert(n * b * 8 <= 0x100_0000 * 255 * 8 && n * b >= 0 && n * b <= 0x100_0000 * 255) by (nonlinear_arith)
                requires
                    1 <= n <= 0x100_0000,
                    0 <= b <= 255,
            ;
            if level_size > 0 {
                assert(n % 2 == 0) by {
                    let s = level_size;
                    assert((1u64 << s) % 2 == 0) by (bit_vector)
                        requires
                            0 < s <= 24,
                    ;
                }
                assert((n * b * 8) / 2 == (n / 2) * b * 8) by (nonlinear_arith)
                    requires
                        n % 2 == 0,
                ;
            }
        }
        (1u64 << level_size) * (bucket_size as u64) * KEYMAP_ENTRY_SIZE_BYTES
    }

    /// Takes the meta record from the contents `file` of the meta file,
    /// which is cut or extended with zero bytes to the size of the record
    /// first, and sets the fields that are not set yet to their defaults.
    pub fn new(file: Vec<u8>, level_size: LevelSizeT, bucket_size: BucketSizeT) -> (r: MetaIO)
        ensures
            r.meta == Self::with_defaults(
                LevelMeta::decode(resized(file@, Self::META_SIZE_BYTES as int)),
                level_size,
                bucket_size,
            ),
    {
        let mapped = MappedFile::new(file, 0, Self::META_SIZE_BYTES);
        let mapped = mapped.unwrap();
        assert(mapped@ =~= resized(file@, Self::META_SIZE_BYTES as int));
        let mut meta = LevelMeta::read_from(&mapped);
        if meta.val_version == 0 {
            meta.val_version = LEVEL_VALUES_VERSION;
        }
        if meta.km_version == 0 {
            meta.km_version = LEVEL_KEYMAP_VERSION;
        }
        if meta.val_next_addr == 0 {
            meta.val_next_addr = 1;
        }
        if meta.km_level_size == 0 {
            meta.km_level_size = level_size;
        }
        if meta.km_bucket_size == 0 {
            meta.km_bucket_size = bucket_size;
        }
        if meta.km_l0_addr == 0 && meta.km_l1_addr == 0 && meta.km_level_size <= LEVEL_SIZE_MAX {
            meta.km_l1_addr = Self::level_bytes(meta.km_level_size, meta.km_bucket_size);
        }
        MetaIO { meta }
    }

    /// The contents of the meta file that hold this record.
    pub fn to_bytes(&self) -> (r: Vec<u8>)
        ensures
            r@.len() == Self::META_SIZE_BYTES,
            LevelMeta::decode(r@) == self.meta,
            same_within(r@, resized(Seq::<u8>::empty(), Self::META_SIZE_BYTES as int), 34, 6),
    {
        let mapped = MappedFile::new(Vec::new(), 0, Self::META_SIZE_BYTES);
        let mut mapped = mapped.unwrap();
        assert(mapped@ =~= resized(Seq::<u8>::empty(), Self::META_SIZE_BYTES as int));
        self.meta.write_to(&mut mapped);
        mapped.map
    }

    /// The offset at which the first of the two levels starts.
    pub fn km_start_addr(&mut self) -> (r: OffT)
        ensures
            *final(self) == *old(self),
            r == if old(self).meta.km_l0_addr <= old(self).meta.km_l1_addr {
                old(self).meta.km_l0_addr
            } else {
                old(self).meta.km_l1_addr
            },
    {
        if self.meta.km_l0_addr <= self.meta.km_l1_addr {
            self.meta.km_l0_addr
        } else {
            self.meta.km_l1_addr
        }
    }

    /// The size of the keymap region: the offset at which the level that
    /// lies last in it ends.
    pub open spec fn spec_km_size(&self) -> int {
        let top_end = self.meta.km_l0_addr + top_level_bytes(self.meta.km_level_size, self.meta.km_bucket_size);
        let bottom_end = self.meta.km_l1_addr + bottom_level_bytes(
            self.meta.km_level_size,
            self.meta.km_bucket_size,
        );
        if top_end >= bottom_end {
            top_end
        } else {
            bottom_end
        }
    }

    /// The size of the keymap region: the offset at which the level that
    /// lies last in it ends.
    pub fn km_size(&mut self) -> (r: OffT)
        requires
            old(self).meta.km_level_size <= LEVEL_SIZE_MAX,
            old(self).spec_km_size() <= u64::MAX,
        ensures
            *final(self) == *old(self),
            r == old(self).spec_km_size(),
    {
        let l0_bytes = Self::level_bytes(self.meta.km_level_size, self.meta.km_bucket_size);
        let l1_bytes = if self.meta.km_level_size == 0 {
            0
        } else {
            l0_bytes >> 1
        };
        proof {
            lemma_bucket_counts(self.meta.km_level_size);
            assert(l0_bytes >> 1 == l0_bytes / 2) by (bit_vector);
            if self.meta.km_level_size == 0 {
                assert(bottom_bucket_count(0) == 0) by {
                    assert(((1u64 << 0u8) >> 1) == 0) by (bit_vector);
                }
                assert(bottom_level_bytes(0, self.meta.km_bucket_size) == 0);
            }
        }
        let top_end = self.meta.km_l0_addr + l0_bytes;
        let bottom_end = self.meta.km_l1_addr + l1_bytes;
        if top_end >= bottom_end {
            top_end
        } else {
            bottom_end
        }
    }

    /// The meta record, to read it.
    #[inline]
    pub fn read(&self) -> (r: &LevelMeta)
        ensures
            *r == self.meta,
    {
        &self.meta
    }

    /// The meta record, to change it.
    #[inline]
    pub fn write(&mut self) -> (r: &mut LevelMeta)
        ensures
            *r == old(self).meta,
            final(self).meta == *final(r),
    {
        &mut self.meta
    }
}

} // verus!
