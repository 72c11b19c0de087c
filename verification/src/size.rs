use vstd::prelude::*;
use crate::types::OffT;

verus! {

/// Size of a byte.
pub const SIZE_U8: OffT = 1;

/// Size of a short.
pub const SIZE_U16: OffT = 2;

/// Size of an int.
pub const SIZE_U32: OffT = 4;

/// Size of a long.
pub const SIZE_U64: OffT = 8;

} // verus!
