//! A key-value index that lays its slots out as a level hash: two levels of
//! buckets, two hash functions, and an expansion that rehashes only the
//! bottom level.
//!
//! The index lives in three regions of bytes, the contents of its three
//! files: the values, the keymap and the meta record. [LevelHash] opens an
//! index from the contents of the files and gives them back when it is done.

pub use crate::level_hash::options::LevelHashOptions;
pub use crate::level_hash::Level;
pub use crate::level_hash::LevelHash;
pub use crate::level_hash::BUCKET_SIZE_DEFAULT;
pub use crate::level_hash::BUCKET_SIZE_MAX;
pub use crate::level_hash::LEVEL_AUTO_EXPAND_THRESHOLD_DEFAULT;
pub use crate::level_hash::LEVEL_SIZE_DEFAULT;
pub use crate::level_hash::LEVEL_SIZE_MAX;
pub use crate::level_io::open::IndexFiles;

pub mod bag;
pub mod fs;
pub mod io;
pub mod laws;
pub mod level_hash;
pub mod level_io;
pub mod meta;
pub mod reprs;
pub mod result;
pub mod size;
pub mod types;
pub mod util;
