use vstd::prelude::*;
use crate::io::map_failure;
use crate::io::MappedFile;
use crate::level_io::Entry;
use crate::level_io::LevelHashIO;
use crate::meta::bottom_level_bytes;
use crate::meta::lemma_bucket_counts;
use crate::meta::top_level_bytes;
use crate::meta::MetaIO;
use crate::reprs::LevelMeta;
use crate::result::LevelClearResult;
use crate::types::OffT;

verus! {

/// `len` bytes that are all zero.
pub open spec fn zeros(len: int) -> Seq<u8> {
    Seq::new(len as nat, |i: int| 0u8)
}

impl LevelHashIO {
    /// The size of the keymap region of an index without entries and
    /// without a history of expansions: the top level, and the bottom level
    /// behind it.
    pub open spec fn fresh_km_size(&self) -> int {
        top_level_bytes(self.meta.meta.km_level_size, self.meta.meta.km_bucket_size) + bottom_level_bytes(
            self.meta.meta.km_level_size,
            self.meta.meta.km_bucket_size,
        )
    }

    /// Whether every slot of the two levels is empty.
    pub open spec fn all_empty(&self) -> bool {
        forall|level: int, idx: int|
            #![trigger self.slot_ptr(level, idx)]
            #![trigger self.entry_at(level, idx)]
            self.is_slot(level, idx) ==> self.slot_ptr(level, idx) == 0 && self.entry_at(level, idx)
                == None::<Entry>
    }

    /// Whether the two regions can be mapped at the sizes that they have
    /// when the index is empty.
    pub open spec fn can_clear(&self) -> bool {
        &&& MappedFile::mappable(Self::KEYMAP_HEADER_SIZE_BYTES, self.fresh_km_size() as u64)
        &&& MappedFile::mappable(Self::VALUES_HEADER_SIZE_BYTES, Self::VALUES_BLOCK_SIZE_BYTES)
    }

    /// Clear all entries in the keymap and values files. The keymap region
    /// holds the two levels and nothing else, the top level first, and all
    /// its bytes are zero. The values region is one block of zero bytes.
    /// The level size and the bucket size stay.
    pub fn clear(&mut self) -> (r: LevelClearResult)
        requires
            old(self).wf(),
        ensures
            r is Ok <==> old(self).can_clear(),
            r is Err ==> *final(self) == *old(self),
            r is Ok ==> {
                &&& final(self).wf()
                &&& final(self).all_empty()
                &&& final(self).keymap@ == zeros(old(self).fresh_km_size())
                &&& final(self).values@ == zeros(Self::VALUES_BLOCK_SIZE_BYTES as int)
                &&& final(self).meta.meta == (LevelMeta {
                    val_tail_addr: 0,
                    val_next_addr: 1,
                    val_file_size: Self::VALUES_BLOCK_SIZE_BYTES,
                    km_l0_addr: 0,
                    km_l1_addr: top_level_bytes(
                        old(self).meta.meta.km_level_size,
                        old(self).meta.meta.km_bucket_size,
                    ) as u64,
                    ..old(self).meta.meta
                })
            },
    {
        let level_size = self.meta.read().km_level_size;
        let bucket_size = self.meta.read().km_bucket_size;
        let l1_addr: OffT = MetaIO::level_bytes(level_size, bucket_size);
        let l1_bytes: OffT = if level_size == 0 {
            0
        } else {
            l1_addr >> 1
        };
        proof {
            self.lemma_sizes();
            lemma_bucket_counts(level_size);
            assert(l1_addr >> 1 == l1_addr / 2) by (bit_vector);
            assert(self.slots(0) * 8 == top_level_bytes(level_size, bucket_size)) by (nonlinear_arith)
                requires
                    self.slots(0) == self.buckets(0) * (bucket_size as int),
                    top_level_bytes(level_size, bucket_size) == self.buckets(0) * (bucket_size as int) * 8,
            ;
            assert(self.slots(0) >= 1) by (nonlinear_arith)
                requires
                    self.slots(0) == self.buckets(0) * (bucket_size as int),
                    self.buckets(0) >= 1,
                    bucket_size >= 1,
            ;
            assert(self.slots(1) * 8 == bottom_level_bytes(level_size, bucket_size)) by (nonlinear_arith)
                requires
                    self.slots(1) == self.buckets(1) * (bucket_size as int),
                    bottom_level_bytes(level_size, bucket_size) == self.buckets(1) * (bucket_size as int) * 8,
            ;
        }
        let km_size: OffT = l1_addr + l1_bytes;
        if km_size > usize::MAX as u64 || Self::VALUES_BLOCK_SIZE_BYTES > usize::MAX as u64 {
            return Err(map_failure());
        }
        let meta = self.meta.write();
        meta.val_tail_addr = Self::POS_INVALID;
        meta.val_next_addr = 1;
        meta.km_l0_addr = 0;
        meta.km_l1_addr = l1_addr;

        let resized_km = self.km_resize(km_size);
        assert(resized_km is Ok);
        self.km_deallocate(0, km_size);

        let resized_val = self.val_resize(Self::VALUES_BLOCK_SIZE_BYTES);
        assert(resized_val is Ok);
        self.val_deallocate(0, Self::VALUES_BLOCK_SIZE_BYTES);
        proof {
            reveal(LevelHashIO::slot_ptr);
            assert(self.keymap.map@ =~= zeros(old(self).fresh_km_size()));
            assert(self.values.map@ =~= zeros(Self::VALUES_BLOCK_SIZE_BYTES as int));
            assert(self.geometry_wf());
            assert(self.values_wf());
            assert forall|level: int, idx: int| self.is_slot(level, idx) implies self.slot_ptr(level, idx) == 0
                && self.entry_at(level, idx) == None::<Entry> by {
                self.lemma_slot_in_keymap(level, idx);
            }
        }
        Ok(())
    }
}

} // verus!
