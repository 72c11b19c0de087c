use vstd::prelude::*;
use crate::level_hash::hash_det;
use crate::level_hash::hash_total;
use crate::level_hash::LevelHash;
use crate::level_hash::BUCKET_SIZE_DEFAULT;
use crate::level_hash::LEVEL_AUTO_EXPAND_THRESHOLD_DEFAULT;
use crate::level_hash::LEVEL_SIZE_DEFAULT;
use crate::level_io::open::IndexFiles;
use crate::result::LevelInitError;
use crate::result::LevelResult;
use crate::types::BucketSizeT;
use crate::types::LevelSizeT;

verus! {

/// Options for building a [LevelHash] instance.
pub struct LevelHashOptions<H1: Fn(u64, &[u8]) -> u64, H2: Fn(u64, &[u8]) -> u64> {
    pub level_size: LevelSizeT,
    pub bucket_size: BucketSizeT,
    pub unique_keys: bool,
    pub auto_expand: bool,
    /// The load factor at which the index expands by itself, in thousandths.
    pub load_factor_threshold: u16,
    pub seeds: Option<(u64, u64)>,
    pub hashfn_1: Option<H1>,
    pub hashfn_2: Option<H2>,
    pub index_dir: Option<String>,
    pub index_name: Option<String>,
}

impl<H1: Fn(u64, &[u8]) -> u64, H2: Fn(u64, &[u8]) -> u64> LevelHashOptions<H1, H2> {
    /// Create new [LevelHashOptions]: the defaults for the level size, the
    /// bucket size and the threshold, unique keys, an index that expands by
    /// itself, and nothing set of the rest.
    pub fn new() -> (r: Self)
        ensures
            r.level_size == LEVEL_SIZE_DEFAULT,
            r.bucket_size == BUCKET_SIZE_DEFAULT,
            r.unique_keys,
            r.auto_expand,
            r.load_factor_threshold == LEVEL_AUTO_EXPAND_THRESHOLD_DEFAULT,
            r.seeds is None,
            r.hashfn_1 is None,
            r.hashfn_2 is None,
            r.index_dir is None,
            r.index_name is None,
    {
        Self {
            level_size: LEVEL_SIZE_DEFAULT,
            bucket_size: BUCKET_SIZE_DEFAULT,
            unique_keys: true,
            auto_expand: true,
            load_factor_threshold: LEVEL_AUTO_EXPAND_THRESHOLD_DEFAULT,
            seeds: None,
            hashfn_1: None,
            hashfn_2: None,
            index_dir: None,
            index_name: None,
        }
    }

    /// Set the level size of the level hash.
    ///
    /// ## Parameters
    ///
    /// * size: The level size.
    pub fn level_size(&mut self, size: LevelSizeT) -> (r: &mut Self)
        ensures
            *r == (Self { level_size: size, ..*old(self) }),
            *final(self) == *final(r),
    {
        self.level_size = size;
        self
    }

    /// Set the bucket size of the level hash.
    ///
    /// ## Parameters
    ///
    /// * size: The bucket size.
    pub fn bucket_size(&mut self, size: BucketSizeT) -> (r: &mut Self)
        ensures
            *r == (Self { bucket_size: size, ..*old(self) }),
            *final(self) == *final(r),
    {
        self.bucket_size = size;
        self
    }

    /// Set whether the level hash must have unique keys.
    pub fn unique_keys(&mut self, unique_keys: bool) -> (r: &mut Self)
        ensures
            *r == (Self { unique_keys, ..*old(self) }),
            *final(self) == *final(r),
    {
        self.unique_keys = unique_keys;
        self
    }

    /// Set whether the level hash should expand automatically when [Self::load_factor_threshold]
    /// is reached.
    pub fn auto_expand(&mut self, auto_expand: bool) -> (r: &mut Self)
        ensures
            *r == (Self { auto_expand, ..*old(self) }),
            *final(self) == *final(r),
    {
        self.auto_expand = auto_expand;
        self
    }

    /// Set the load factor threshold for automatically expanding the level
    /// hash, in thousandths: 900 stands for a load factor of 0.9.
    pub fn load_factor_threshold(&mut self, threshold: u16) -> (r: &mut Self)
        ensures
            *r == (Self { load_factor_threshold: threshold, ..*old(self) }),
            *final(self) == *final(r),
    {
        self.load_factor_threshold = threshold;
        self
    }

    /// Set the path of the directory where the index files will be stored.
    pub fn index_dir(&mut self, index_dir: &str) -> (r: &mut Self)
        ensures
            r.index_dir matches Some(dir) && dir@ == index_dir@,
            *r == (Self { index_dir: r.index_dir, ..*old(self) }),
            *final(self) == *final(r),
    {
        self.index_dir = Some(index_dir.to_owned());
        self
    }

    /// Set the name of the index.
    pub fn index_name(&mut self, index_name: &str) -> (r: &mut Self)
        ensures
            r.index_name matches Some(name) && name@ == index_name@,
            *r == (Self { index_name: r.index_name, ..*old(self) }),
            *final(self) == *final(r),
    {
        self.index_name = Some(index_name.to_owned());
        self
    }

    /// Set the two random seeds that will be used to calculate the slot positions in
    /// the level hash. While loading an existing level hash from the disk, the same
    /// seeds that were used to create the level hash must be used or the slot positions
    /// may not be calculated properly.
    pub fn seeds(&mut self, seed_1: u64, seed_2: u64) -> (r: &mut Self)
        ensures
            *r == (Self { seeds: Some((seed_1, seed_2)), ..*old(self) }),
            *final(self) == *final(r),
    {
        self.seeds = Some((seed_1, seed_2));
        self
    }

    /// Set the two hash functions which will be used to compute the slot position for keys.
    ///
    /// ## Parameters
    ///
    /// * - `fn1` - The first hash function.
    /// * - `fn2` - The second hash function.
    pub fn hash_fns(&mut self, fn1: H1, fn2: H2) -> (r: &mut Self)
        ensures
            *r == (Self { hashfn_1: Some(fn1), hashfn_2: Some(fn2), ..*old(self) }),
            *final(self) == *final(r),
    {
        self.hashfn_1 = Some(fn1);
        self.hashfn_2 = Some(fn2);
        self
    }

    /// The first seed, zero where the seeds are not set.
    pub open spec fn first_seed(&self) -> u64 {
        match self.seeds {
            Some(seeds) => seeds.0,
            None => 0,
        }
    }

    /// The second seed, zero where the seeds are not set.
    pub open spec fn second_seed(&self) -> u64 {
        match self.seeds {
            Some(seeds) => seeds.1,
            None => 0,
        }
    }

    /// Whether every option that has no default is set, and the seeds are
    /// not zero.
    pub open spec fn complete(&self) -> bool {
        &&& self.index_dir is Some
        &&& self.index_name is Some
        &&& self.seeds matches Some((seed_1, seed_2)) && seed_1 != 0 && seed_2 != 0
        &&& self.hashfn_1 is Some
        &&& self.hashfn_2 is Some
    }

    /// Build the level hash instance from the contents of the files of the
    /// index, which are those of the index with the name and in the
    /// directory that the options give.
    ///
    /// The options are refused as an invalid argument where the directory,
    /// the name, the seeds or a hash function is missing, where a seed is
    /// zero, and where the level size, the bucket size or the threshold is
    /// out of range; so are files that do not hold a well-formed index. The
    /// hash functions are taken out of options that are complete; nothing
    /// else changes in the options.
    pub fn build(&mut self, files: IndexFiles) -> (r: LevelResult<LevelHash<H1, H2>, LevelInitError>)
        requires
            old(self).hashfn_1 matches Some(f) ==> hash_total(f) && hash_det(f),
            old(self).hashfn_2 matches Some(f) ==> hash_total(f) && hash_det(f),
        ensures
            r is Ok <==> old(self).complete() && LevelHash::<H1, H2>::openable(
                &files,
                old(self).level_size,
                old(self).bucket_size,
                old(self).unique_keys,
                old(self).auto_expand,
                old(self).load_factor_threshold,
                old(self).first_seed(),
                old(self).second_seed(),
                old(self).hashfn_1->0,
                old(self).hashfn_2->0,
            ),
            !old(self).complete() ==> (r matches Err(LevelInitError::InvalidArg(_))) && *final(self) == *old(
                self,
            ),
            old(self).complete() ==> *final(self) == (Self { hashfn_1: None, hashfn_2: None, ..*old(self) }),
            old(self).complete() && files.fresh() && LevelHash::<H1, H2>::creatable(
                old(self).level_size,
                old(self).bucket_size,
                old(self).load_factor_threshold,
            ) ==> r is Ok && r->Ok_0.occupied() == 0,
            r matches Err(e) ==> e is InvalidArg || e is MmapError,
            (r matches Err(LevelInitError::MmapError(_))) <==> old(self).complete()
                && crate::level_hash::LEVEL_AUTO_EXPAND_THRESHOLD_MIN <= old(self).load_factor_threshold
                <= crate::level_hash::LEVEL_AUTO_EXPAND_THRESHOLD_MAX && crate::level_io::LevelHashIO::unmappable(
                files.meta@,
                old(self).level_size,
                old(self).bucket_size,
            ),
            r matches Ok(hash) ==> hash.wf() && hash.opened_with(
                &files,
                old(self).level_size,
                old(self).bucket_size,
                old(self).unique_keys,
                old(self).auto_expand,
                old(self).load_factor_threshold,
                old(self).first_seed(),
                old(self).second_seed(),
                old(self).hashfn_1->0,
                old(self).hashfn_2->0,
            ),
    {
        if self.index_dir.is_none() {
            return Err(LevelInitError::InvalidArg("Index directory must be specified".to_owned()));
        }
        if self.index_name.is_none() {
            return Err(LevelInitError::InvalidArg("Index name must be specified".to_owned()));
        }
        if self.hashfn_1.is_none() || self.hashfn_2.is_none() {
            return Err(LevelInitError::InvalidArg("Hash functions must be specified".to_owned()));
        }
        let seeds = match self.seeds {
            Some(seeds) => seeds,
            None => {
                return Err(LevelInitError::InvalidArg("Seeds must be specified".to_owned()));
            },
        };
        if seeds.0 == 0 || seeds.1 == 0 {
            return Err(LevelInitError::InvalidArg("Seeds must be greater than 0".to_owned()));
        }
        let fn1 = self.hashfn_1.take().unwrap();
        let fn2 = self.hashfn_2.take().unwrap();

        LevelHash::new(
            files,
            self.level_size,
            self.bucket_size,
            self.unique_keys,
            self.auto_expand,
            self.load_factor_threshold,
            seeds.0,
            seeds.1,
            fn1,
            fn2,
        )
    }
}

impl<H1: Fn(u64, &[u8]) -> u64, H2: Fn(u64, &[u8]) -> u64> Default for LevelHashOptions<H1, H2> {
    fn default() -> (r: Self)
        ensures
            r.level_size == LEVEL_SIZE_DEFAULT,
            r.bucket_size == BUCKET_SIZE_DEFAULT,
            r.unique_keys,
            r.auto_expand,
            r.load_factor_threshold == LEVEL_AUTO_EXPAND_THRESHOLD_DEFAULT,
            r.seeds is None,
            r.hashfn_1 is None,
            r.hashfn_2 is None,
            r.index_dir is None,
            r.index_name is None,
    {
        Self::new()
    }
}

impl<H1: Fn(u64, &[u8]) -> u64, H2: Fn(u64, &[u8]) -> u64> LevelHash<H1, H2> {
    /// Create new [LevelHashOptions] used to build a [LevelHash].
    pub fn options() -> (r: LevelHashOptions<H1, H2>)
        ensures
            r.level_size == LEVEL_SIZE_DEFAULT,
            r.bucket_size == BUCKET_SIZE_DEFAULT,
            r.unique_keys,
            r.auto_expand,
            r.load_factor_threshold == LEVEL_AUTO_EXPAND_THRESHOLD_DEFAULT,
            r.seeds is None,
            r.hashfn_1 is None,
            r.hashfn_2 is None,
            r.index_dir is None,
            r.index_name is None,
    {
        LevelHashOptions::new()
    }
}

} // verus!
