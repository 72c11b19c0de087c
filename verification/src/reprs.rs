//! The records of the index files, and their layout in bytes. The bytes on
//! disk follow from the functions here: numbers are stored least
//! significant byte first.

use vstd::prelude::*;
use crate::io::same_within;
use crate::io::u32_at;
use crate::io::u64_at;
use crate::io::MappedFile;
use crate::types::BucketSizeT;
use crate::types::LevelSizeT;
use crate::types::OffT;

verus! {

/// The record of the meta file.
#[derive(Debug, Clone, Copy)]
pub struct LevelMeta {
    pub val_version: u32,
    pub km_version: u32,
    /// 1-based address of the record that was appended last, 0 if none was.
    pub val_tail_addr: OffT,
    /// 1-based address at which the next record will be written.
    pub val_next_addr: OffT,
    /// Size of the values region, its header left out.
    pub val_file_size: OffT,
    pub km_level_size: LevelSizeT,
    pub km_bucket_size: BucketSizeT,
    /// Offset of the top level in the keymap region.
    pub km_l0_addr: OffT,
    /// Offset of the bottom level in the keymap region.
    pub km_l1_addr: OffT,
}

impl LevelMeta {
    pub const OFF_VAL_VERSION: OffT = 0;

    pub const OFF_KM_VERSION: OffT = 4;

    pub const OFF_VAL_TAIL_ADDR: OffT = 8;

    pub const OFF_VAL_NEXT_ADDR: OffT = 16;

    pub const OFF_VAL_FILE_SIZE: OffT = 24;

    pub const OFF_KM_LEVEL_SIZE: OffT = 32;

    pub const OFF_KM_BUCKET_SIZE: OffT = 33;

    pub const OFF_KM_L0_ADDR: OffT = 40;

    pub const OFF_KM_L1_ADDR: OffT = 48;

    /// The number of bytes that the record takes in the meta file.
    pub const SIZE_BYTES: OffT = 56;

    /// The record that the first `SIZE_BYTES` bytes of `bytes` hold.
    pub open spec fn decode(bytes: Seq<u8>) -> LevelMeta {
        LevelMeta {
            val_version: u32_at(bytes, 0) as u32,
            km_version: u32_at(bytes, 4) as u32,
            val_tail_addr: u64_at(bytes, 8) as u64,
            val_next_addr: u64_at(bytes, 16) as u64,
            val_file_size: u64_at(bytes, 24) as u64,
            km_level_size: bytes[32],
            km_bucket_size: bytes[33],
            km_l0_addr: u64_at(bytes, 40) as u64,
            km_l1_addr: u64_at(bytes, 48) as u64,
        }
    }

    /// Reads the record from the start of `file`.
    pub fn read_from(file: &MappedFile) -> (r: LevelMeta)
        requires
            file.wf(),
            file.size >= Self::SIZE_BYTES,
        ensures
            r == Self::decode(file@),
    {
        LevelMeta {
            val_version: file.r_u32(Self::OFF_VAL_VERSION),
            km_version: file.r_u32(Self::OFF_KM_VERSION),
            val_tail_addr: file.r_u64(Self::OFF_VAL_TAIL_ADDR),
            val_next_addr: file.r_u64(Self::OFF_VAL_NEXT_ADDR),
            val_file_size: file.r_u64(Self::OFF_VAL_FILE_SIZE),
            km_level_size: file.map[32],
            km_bucket_size: file.map[33],
            km_l0_addr: file.r_u64(Self::OFF_KM_L0_ADDR),
            km_l1_addr: file.r_u64(Self::OFF_KM_L1_ADDR),
        }
    }

    /// Writes the record to the start of `file`. The six bytes of the record
    /// that hold no field are left as they are.
    pub fn write_to(&self, file: &mut MappedFile)
        requires
            old(file).wf(),
            old(file).size >= Self::SIZE_BYTES,
        ensures
            final(file).wf(),
            final(file).off == old(file).off,
            final(file).size == old(file).size,
            Self::decode(final(file)@) == *self,
            same_within(old(file)@, final(file)@, 34, 6),
            same_within(old(file)@, final(file)@, Self::SIZE_BYTES as int, old(file).size - Self::SIZE_BYTES),
    {
        file.w_u32(Self::OFF_VAL_VERSION, self.val_version);
        file.w_u32(Self::OFF_KM_VERSION, self.km_version);
        file.w_u64(Self::OFF_VAL_TAIL_ADDR, self.val_tail_addr);
        file.w_u64(Self::OFF_VAL_NEXT_ADDR, self.val_next_addr);
        file.w_u64(Self::OFF_VAL_FILE_SIZE, self.val_file_size);
        file.map[32] = self.km_level_size;
        file.map[33] = self.km_bucket_size;
        file.w_u64(Self::OFF_KM_L0_ADDR, self.km_l0_addr);
        file.w_u64(Self::OFF_KM_L1_ADDR, self.km_l1_addr);
    }
}

/// The header of a record of the values file. The `key_size` bytes of the
/// key and the `value_size` bytes of the value follow it.
#[derive(Debug, Clone, Copy)]
pub struct ValuesData {
    pub key_size: u32,
    pub value_size: u32,
}

impl ValuesData {
    pub const OFF_KEY_SIZE: OffT = 0;

    pub const OFF_VALUE_SIZE: OffT = 4;

    /// The number of bytes that the header takes in the values file.
    pub const SIZE_BYTES: OffT = 8;

    /// The header that the bytes of `bytes` from `addr` on hold.
    pub open spec fn decode(bytes: Seq<u8>, addr: int) -> ValuesData {
        ValuesData { key_size: u32_at(bytes, addr) as u32, value_size: u32_at(bytes, addr + 4) as u32 }
    }

    /// Reads the header that `file` holds at `addr`.
    pub fn read_from(file: &MappedFile, addr: OffT) -> (r: ValuesData)
        requires
            file.wf(),
            addr + Self::SIZE_BYTES <= file.size,
        ensures
            r == Self::decode(file@, addr as int),
    {
        ValuesData { key_size: file.r_u32(addr), value_size: file.r_u32(addr + 4) }
    }
}

} // verus!
