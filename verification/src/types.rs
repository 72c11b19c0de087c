use vstd::prelude::*;

verus! {

/// Type used to represent offsets in a file.
pub type OffT = u64;

pub type LevelKeyT = [u8];

pub type LevelValueT = [u8];

pub type LevelSizeT = u8;

pub type BucketSizeT = u8;

pub type LevelIdxT = u32;

pub type BucketIdxT = u32;

pub type SlotIdxT = u32;

} // verus!
