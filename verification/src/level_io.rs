use vstd::prelude::*;
use crate::io::u32_at;
use crate::io::u64_at;
use crate::io::same_outside;
use crate::io::MappedFile;
use crate::meta::bottom_bucket_count;
use crate::meta::lemma_bucket_counts;
use crate::meta::top_bucket_count;
use crate::meta::MetaIO;
use crate::meta::LEVEL_SIZE_MAX;
use crate::reprs::ValuesData;
use crate::types::BucketIdxT;
use crate::types::LevelIdxT;
use crate::types::OffT;
use crate::types::SlotIdxT;

pub mod append;
pub mod check;
pub mod clear;
pub mod interim;
pub mod open;
pub mod remove;
pub mod tables;
pub mod update;

verus! {

/// A key and the value stored under it.
pub type Entry = (Seq<u8>, Seq<u8>);

/// The size of the key of the record with the 1-based address `p` in the
/// values region `v`.
pub open spec fn rec_key_size(v: Seq<u8>, p: int) -> int {
    u32_at(v, p - 1)
}

/// The size of the value of the record with the 1-based address `p`.
pub open spec fn rec_value_size(v: Seq<u8>, p: int) -> int {
    u32_at(v, p + 3)
}

/// The offset at which the record with the 1-based address `p` ends: header,
/// key and value, without the bytes that align the next record.
pub open spec fn rec_end(v: Seq<u8>, p: int) -> int {
    p + 7 + rec_key_size(v, p) + rec_value_size(v, p)
}

/// The key of the record with the 1-based address `p`.
pub open spec fn rec_key(v: Seq<u8>, p: int) -> Seq<u8> {
    v.subrange(p + 7, p + 7 + rec_key_size(v, p))
}

/// The value of the record with the 1-based address `p`.
pub open spec fn rec_value(v: Seq<u8>, p: int) -> Seq<u8> {
    v.subrange(p + 7 + rec_key_size(v, p), rec_end(v, p))
}

/// What a slot that holds the pointer `p` stands for: nothing where the
/// pointer is zero, else the key and the value of the record at `p`.
pub open spec fn entry_of(v: Seq<u8>, p: int) -> Option<Entry> {
    if p == 0 {
        None
    } else {
        Some((rec_key(v, p), rec_value(v, p)))
    }
}

/// A record reads the same in two values regions that agree on its bytes.
pub proof fn lemma_record_frame(v1: Seq<u8>, v2: Seq<u8>, p: int)
    requires
        1 <= p,
        rec_end(v1, p) <= v1.len(),
        rec_end(v1, p) <= v2.len(),
        forall|i: int| p - 1 <= i < rec_end(v1, p) ==> v1[i] == v2[i],
    ensures
        rec_key_size(v2, p) == rec_key_size(v1, p),
        rec_value_size(v2, p) == rec_value_size(v1, p),
        rec_end(v2, p) == rec_end(v1, p),
        rec_key(v2, p) == rec_key(v1, p),
        rec_value(v2, p) == rec_value(v1, p),
        entry_of(v2, p) == entry_of(v1, p),
{
    assert(rec_key(v2, p) =~= rec_key(v1, p));
    assert(rec_value(v2, p) =~= rec_value(v1, p));
}

/// The index of the slot `j` of the bucket `u` in a level whose buckets
/// hold `b` slots each, and the way back from the index.
pub proof fn lemma_slot_index(n: int, b: int, u: int, j: int)
    requires
        0 <= u < n,
        0 <= j < b,
    ensures
        0 <= u * b + j < n * b,
        (u * b + j) / b == u,
        (u * b + j) % b == j,
{
    assert(0 <= u * b + j < n * b) by (nonlinear_arith)
        requires
            0 <= u < n,
            0 <= j < b,
    ;
    vstd::arithmetic::div_mod::lemma_fundamental_div_mod_converse(u * b + j, b, u, j);
}

/// The bucket that holds the slot with the index `idx`, in a level of `n`
/// buckets of `b` slots each.
pub proof fn lemma_slot_bucket(n: int, b: int, idx: int)
    requires
        0 < b,
        0 <= idx < n * b,
    ensures
        0 <= idx / b < n,
        0 <= idx % b < b,
        idx == (idx / b) * b + idx % b,
{
    vstd::arithmetic::div_mod::lemma_fundamental_div_mod(idx, b);
    let q = idx / b;
    assert(0 <= q < n) by (nonlinear_arith)
        requires
            0 < b,
            0 <= idx < n * b,
            idx == b * q + idx % b,
            0 <= idx % b < b,
    ;
    assert(b * q == q * b) by (nonlinear_arith);
}

/// An entry in the values file: the address of a record and its header.
#[derive(Debug, Clone, Copy)]
pub struct ValuesEntry {
    /// The 0-based address of the record in the values region.
    pub addr: OffT,
    pub data: ValuesData,
}

/// An entry in the values file whose header is about to be changed. The
/// change reaches the file with `store`.
#[derive(Debug)]
pub struct ValuesEntryMut {
    /// The 0-based address of the record in the values region.
    pub addr: OffT,
    pub data: ValuesData,
}

pub trait ValEntryReadExt {
    /// The 0-based address of the record.
    spec fn spec_addr(&self) -> OffT;

    /// The header of the record.
    spec fn spec_data(&self) -> ValuesData;

    fn addr(&self) -> (r: OffT)
        ensures
            r == self.spec_addr(),
    ;

    fn data(&self) -> (r: &ValuesData)
        ensures
            *r == self.spec_data(),
    ;

    /// The number of bytes of the record: header, key and value.
    fn esize(&self) -> (r: u64)
        ensures
            r == 8 + self.spec_data().key_size + self.spec_data().value_size,
    {
        let data = self.data();
        8 + data.key_size as u64 + data.value_size as u64
    }

    /// A record is empty, that is free, where its key and its value both
    /// have the size zero.
    fn is_empty(&self) -> (r: bool)
        ensures
            r == (self.spec_data().key_size == 0 && self.spec_data().value_size == 0),
    {
        let data = self.data();
        data.key_size == 0 && data.value_size == 0
    }

    fn key_size(&self) -> (r: u32)
        ensures
            r == self.spec_data().key_size,
    {
        self.data().key_size
    }

    fn ksizeeq(&self, size: u32) -> (r: bool)
        ensures
            r == (self.spec_data().key_size == size),
    {
        self.key_size() == size
    }

    fn value_size(&self) -> (r: u32)
        ensures
            r == self.spec_data().value_size,
    {
        self.data().value_size
    }

    /// A copy of the key of the record.
    fn key(&self, file: &MappedFile) -> (r: Vec<u8>)
        requires
            file.wf(),
            self.spec_addr() + 8 + self.spec_data().key_size <= file.size,
        ensures
            r@ == file@.subrange(self.spec_addr() + 8, self.spec_addr() + 8 + self.spec_data().key_size),
    {
        let size = self.key_size() as usize;
        file.read_vec(self.addr() + ValuesEntry::OFF_KEY, size)
    }

    /// Whether `other` is the key of the record. No record has the empty
    /// key, and no key reaches beyond the file.
    fn keyeq(&self, file: &MappedFile, other: &[u8]) -> (r: bool)
        requires
            file.wf(),
            self.spec_addr() + 8 <= file.size,
        ensures
            r == (other@.len() > 0 && other@.len() == self.spec_data().key_size && self.spec_addr() + 8
                + other@.len() <= file.size && file@.subrange(
                self.spec_addr() + 8,
                self.spec_addr() + 8 + other@.len(),
            ) == other@),
    {
        other.len() <= u32::MAX as usize && self.ksizeeq(other.len() as u32) && file.memeq(
            self.addr() + ValuesEntry::OFF_KEY,
            other,
        )
    }

    /// The size of the value of the record, and a copy of the value.
    fn val_with_size(&self, file: &MappedFile) -> (r: (u32, Vec<u8>))
        requires
            file.wf(),
            self.spec_addr() + 8 + self.spec_data().key_size + self.spec_data().value_size <= file.size,
        ensures
            r.0 == self.spec_data().value_size,
            r.1@ == file@.subrange(
                self.spec_addr() + 8 + self.spec_data().key_size,
                self.spec_addr() + 8 + self.spec_data().key_size + self.spec_data().value_size,
            ),
    {
        let size = self.value_size();
        let key_size = self.key_size() as OffT;
        let value = file.read_vec(self.addr() + ValuesEntry::OFF_KEY + key_size, size as usize);
        (size, value)
    }

    /// A copy of the value of the record.
    fn value(&self, file: &MappedFile) -> (r: Vec<u8>)
        requires
            file.wf(),
            self.spec_addr() + 8 + self.spec_data().key_size + self.spec_data().value_size <= file.size,
        ensures
            r@ == file@.subrange(
                self.spec_addr() + 8 + self.spec_data().key_size,
                self.spec_addr() + 8 + self.spec_data().key_size + self.spec_data().value_size,
            ),
    {
        self.val_with_size(file).1
    }
}

pub trait ValEntryWriteExt {
    /// The header of the record.
    spec fn spec_data_mut(&self) -> ValuesData;

    /// The header of the record, to change it.
    fn data_mut(&mut self) -> (r: &mut ValuesData)
        ensures
            *r == old(self).spec_data_mut(),
            final(self).spec_data_mut() == *final(r),
    ;
}

impl ValuesEntry {
    pub const OFF_KEY_SIZE: OffT = 0;

    pub const OFF_VAL_SIZE: OffT = 4;

    pub const OFF_KEY: OffT = 8;

    pub const ENTRY_SIZE_MIN: OffT = 8;

    /// Create [ValuesEntry] representing the entry at `addr` in the values file.
    pub fn at(addr: OffT, file: &MappedFile) -> (r: Self)
        requires
            file.wf(),
            addr + 8 <= file.size,
        ensures
            r.addr == addr,
            r.data == ValuesData::decode(file@, addr as int),
    {
        Self { addr, data: ValuesData::read_from(file, addr) }
    }
}

impl ValuesEntryMut {
    /// The entry at `addr` in the values file, with the header that the file
    /// holds there.
    pub fn at(addr: OffT, file: &MappedFile) -> (r: Self)
        requires
            file.wf(),
            addr + 8 <= file.size,
        ensures
            r.addr == addr,
            r.data == ValuesData::decode(file@, addr as int),
    {
        Self { addr, data: ValuesData::read_from(file, addr) }
    }

    /// Writes the header of the entry to the values file.
    pub fn store(&self, file: &mut MappedFile)
        requires
            old(file).wf(),
            self.addr + 8 <= old(file).size,
        ensures
            final(file).wf(),
            final(file).off == old(file).off,
            final(file).size == old(file).size,
            u32_at(final(file)@, self.addr as int) == self.data.key_size,
            u32_at(final(file)@, self.addr + 4) == self.data.value_size,
            same_outside(old(file)@, final(file)@, self.addr as int, 8),
    {
        file.w_u32(self.addr, self.data.key_size);
        file.w_u32(self.addr + 4, self.data.value_size);
    }
}

impl ValEntryReadExt for ValuesEntry {
    open spec fn spec_addr(&self) -> OffT {
        self.addr
    }

    open spec fn spec_data(&self) -> ValuesData {
        self.data
    }

    fn addr(&self) -> (r: OffT) {
        self.addr
    }

    fn data(&self) -> (r: &ValuesData) {
        &self.data
    }
}

impl ValEntryReadExt for ValuesEntryMut {
    open spec fn spec_addr(&self) -> OffT {
        self.addr
    }

    open spec fn spec_data(&self) -> ValuesData {
        self.data
    }

    fn addr(&self) -> (r: OffT) {
        self.addr
    }

    fn data(&self) -> (r: &ValuesData) {
        &self.data
    }
}

impl ValEntryWriteExt for ValuesEntryMut {
    open spec fn spec_data_mut(&self) -> ValuesData {
        self.data
    }

    fn data_mut(&mut self) -> (r: &mut ValuesData)
        ensures
            final(self).addr == old(self).addr,
    {
        &mut self.data
    }
}

/// The three regions of an open index: the values, the keymap with its two
/// levels of slots, and the meta record.
///
/// # Properties
///
/// * `values`: The mapped region of the values file.
/// * `keymap`: The mapped region of the keymap file.
/// * `meta`: The meta record.
/// * `interim_lvl_addr`: The offset of the interim level in the keymap,
///   which exists only while the index expands.
#[derive(Debug)]
pub struct LevelHashIO {
    pub values: MappedFile,
    pub keymap: MappedFile,
    pub meta: MetaIO,
    pub interim_lvl_addr: Option<OffT>,
}

impl LevelHashIO {
    pub const POS_INVALID: OffT = 0;

    /// The number of bytes it takes to store the magic number of the keymap/values file.
    pub const MAGIC_NUMBER_SIZE_BYTES: u64 = 8;

    /// Magic number that is used as the file signature to identify the values file.
    pub const VALUES_MAGIC_NUMBER: u64 = 0x4149445856;

    /// The size of the header (bytes) in the values file.
    pub const VALUES_HEADER_SIZE_BYTES: u64 = Self::MAGIC_NUMBER_SIZE_BYTES;

    /// The size of one segment region in the values file.
    pub const VALUES_BLOCK_SIZE_BYTES: u64 = 512 * 1024;

    /// The number of bytes used to store the header of the keymap file.
    pub const KEYMAP_HEADER_SIZE_BYTES: u64 = Self::MAGIC_NUMBER_SIZE_BYTES;

    /// The number of bytes that are used to store an entry in a key map file.
    pub const KEYMAP_ENTRY_SIZE_BYTES: u64 = 8;

    /// Magic number that is used as the file signature to identify the keymap file.
    pub const KEYMAP_MAGIC_NUMBER: u64 = 0;

    /// The number of slots of a bucket.
    pub open spec fn bucket_size(&self) -> int {
        self.meta.meta.km_bucket_size as int
    }

    /// The number of buckets of the level `level`: 0 is the top level, 1 the
    /// bottom level.
    pub open spec fn buckets(&self, level: int) -> int {
        if level == 0 {
            top_bucket_count(self.meta.meta.km_level_size)
        } else {
            bottom_bucket_count(self.meta.meta.km_level_size)
        }
    }

    /// The number of slots of the level `level`.
    pub open spec fn slots(&self, level: int) -> int {
        self.buckets(level) * self.bucket_size()
    }

    /// The offset of the level `level` in the keymap.
    pub open spec fn level_addr(&self, level: int) -> int {
        if level == 0 {
            self.meta.meta.km_l0_addr as int
        } else {
            self.meta.meta.km_l1_addr as int
        }
    }

    /// Whether `idx` is the index of a slot of the level `level`. The slot
    /// `j` of the bucket `u` has the index `u * bucket_size + j`.
    pub open spec fn is_slot(&self, level: int, idx: int) -> bool {
        0 <= level <= 1 && 0 <= idx < self.slots(level)
    }

    /// The offset in the keymap of the slot with the index `idx` of the
    /// level `level`.
    pub open spec fn slot_off(&self, level: int, idx: int) -> int {
        self.level_addr(level) + 8 * idx
    }

    /// The pointer that the slot with the index `idx` of the level `level`
    /// holds: zero, or the 1-based address of a record.
    #[verifier::opaque]
    pub open spec fn slot_ptr(&self, level: int, idx: int) -> int {
        u64_at(self.keymap.map@, self.slot_off(level, idx))
    }

    /// What the slot with the index `idx` of the level `level` stands for.
    pub open spec fn entry_at(&self, level: int, idx: int) -> Option<Entry> {
        entry_of(self.values.map@, self.slot_ptr(level, idx))
    }

    /// What the slots of the level `level` stand for, slot by slot.
    pub open spec fn table(&self, level: int) -> Seq<Option<Entry>> {
        Seq::new(self.slots(level) as nat, |idx: int| self.entry_at(level, idx))
    }

    /// The two levels lie inside the keymap region and apart from each other.
    pub open spec fn geometry_wf(&self) -> bool {
        &&& self.keymap.wf()
        &&& self.keymap.off == Self::KEYMAP_HEADER_SIZE_BYTES
        &&& self.meta.meta.km_level_size <= LEVEL_SIZE_MAX
        &&& self.bucket_size() >= 1
        &&& self.level_addr(0) + 8 * self.slots(0) <= self.keymap.size
        &&& self.level_addr(1) + 8 * self.slots(1) <= self.keymap.size
        &&& (self.level_addr(0) + 8 * self.slots(0) <= self.level_addr(1) || self.level_addr(1) + 8
            * self.slots(1) <= self.level_addr(0))
    }

    /// The values region has the size that the meta record gives, a whole
    /// number of blocks. Records are written at `val_next_addr`, which lies
    /// in the region on a multiple of eight; the record written last is at
    /// `val_tail_addr`.
    pub open spec fn values_wf(&self) -> bool {
        &&& self.values.wf()
        &&& self.values.off == Self::VALUES_HEADER_SIZE_BYTES
        &&& self.values.size == self.meta.meta.val_file_size
        &&& self.meta.meta.val_file_size % Self::VALUES_BLOCK_SIZE_BYTES == 0
        &&& 1 <= self.meta.meta.val_next_addr
        &&& self.meta.meta.val_next_addr - 1 <= self.meta.meta.val_file_size
        &&& (self.meta.meta.val_next_addr - 1) % 8 == 0
        &&& self.meta.meta.val_tail_addr <= self.meta.meta.val_next_addr
        &&& (self.meta.meta.val_tail_addr == 0 || (self.meta.meta.val_tail_addr - 1) % 8 == 0)
    }

    /// Whether `p` is the address of a record in use: it lies on a multiple
    /// of eight, its key is not empty, and it ends before the place of the
    /// next record. Every record but the one written last also ends before
    /// that one starts.
    pub open spec fn live(&self, p: int) -> bool {
        &&& 1 <= p
        &&& (p - 1) % 8 == 0
        &&& rec_key_size(self.values.map@, p) > 0
        &&& rec_end(self.values.map@, p) <= if p == self.meta.meta.val_tail_addr {
            self.meta.meta.val_next_addr - 1
        } else {
            self.meta.meta.val_tail_addr - 1
        }
    }

    /// Whether the records at `p` and `q` share no byte.
    pub open spec fn apart(&self, p: int, q: int) -> bool {
        rec_end(self.values.map@, p) <= q - 1 || rec_end(self.values.map@, q) <= p - 1
    }

    /// Every slot is empty or points to a record in use, and no two slots
    /// point to records that share a byte.
    pub open spec fn slots_wf(&self) -> bool {
        &&& forall|level: int, idx: int|
            #![trigger self.slot_ptr(level, idx)]
            self.is_slot(level, idx) ==> self.slot_ptr(level, idx) == 0 || self.live(self.slot_ptr(level, idx))
        &&& forall|l1: int, i1: int, l2: int, i2: int|
            #![trigger self.slot_ptr(l1, i1), self.slot_ptr(l2, i2)]
            self.is_slot(l1, i1) && self.is_slot(l2, i2) && (l1 != l2 || i1 != i2) && self.slot_ptr(l1, i1)
                != 0 && self.slot_ptr(l2, i2) != 0 ==> self.apart(
                self.slot_ptr(l1, i1),
                self.slot_ptr(l2, i2),
            )
    }

    /// The fields of the meta record that are zero only as long as they
    /// are not set have been set: the two versions, and the offset of one
    /// of the two levels.
    pub open spec fn meta_set(&self) -> bool {
        &&& self.meta.meta.val_version != 0
        &&& self.meta.meta.km_version != 0
        &&& (self.meta.meta.km_l0_addr != 0 || self.meta.meta.km_l1_addr != 0)
    }

    /// The regions fit the meta record, and the slots fit the records.
    pub open spec fn consistent(&self) -> bool {
        &&& self.meta_set()
        &&& self.geometry_wf()
        &&& self.values_wf()
        &&& self.slots_wf()
    }

    /// The offset at which the level that lies last in the keymap ends.
    pub open spec fn levels_end(&self) -> int {
        if self.level_addr(0) + 8 * self.slots(0) >= self.level_addr(1) + 8 * self.slots(1) {
            self.level_addr(0) + 8 * self.slots(0)
        } else {
            self.level_addr(1) + 8 * self.slots(1)
        }
    }

    /// The index is consistent and at rest: it is not expanding, and the
    /// keymap region ends where the level that lies last in it ends.
    pub open spec fn wf(&self) -> bool {
        &&& self.consistent()
        &&& self.interim_lvl_addr is None
        &&& self.keymap.size == self.levels_end()
    }

    /// Whether `self` and `other` are in the same state: their regions hold
    /// the same bytes, and their meta records are the same.
    pub open spec fn same_as(&self, other: &LevelHashIO) -> bool {
        &&& self.values@ == other.values@
        &&& self.values.off == other.values.off
        &&& self.values.size == other.values.size
        &&& self.keymap@ == other.keymap@
        &&& self.keymap.off == other.keymap.off
        &&& self.keymap.size == other.keymap.size
        &&& self.meta == other.meta
        &&& self.interim_lvl_addr == other.interim_lvl_addr
    }

    /// The number of slots of the interim level: twice those of the top level.
    pub open spec fn interim_slots(&self) -> int {
        2 * self.slots(0)
    }

    /// The offset in the keymap of the slot with the index `idx` of the
    /// interim level.
    pub open spec fn interim_off(&self, idx: int) -> int {
        self.interim_lvl_addr->0 + 8 * idx
    }

    /// The pointer that the slot with the index `idx` of the interim level
    /// holds.
    #[verifier::opaque]
    pub open spec fn interim_ptr(&self, idx: int) -> int {
        u64_at(self.keymap.map@, self.interim_off(idx))
    }

    /// What the slots of the interim level stand for, slot by slot.
    pub open spec fn interim_table(&self) -> Seq<Option<Entry>> {
        Seq::new(
            self.interim_slots() as nat,
            |idx: int| entry_of(self.values.map@, self.interim_ptr(idx)),
        )
    }

    /// The index is consistent and expanding: the interim level lies in the
    /// keymap behind the two levels, and each of its slots is empty or
    /// points to a record in use.
    pub open spec fn expanding(&self) -> bool {
        &&& self.consistent()
        &&& self.interim_lvl_addr is Some
        &&& self.meta.meta.km_level_size < LEVEL_SIZE_MAX
        &&& self.interim_lvl_addr->0 == self.levels_end()
        &&& self.interim_lvl_addr->0 + 8 * self.interim_slots() == self.keymap.size
        &&& forall|idx: int|
            #![trigger self.interim_ptr(idx)]
            0 <= idx < self.interim_slots() ==> self.interim_ptr(idx) == 0 || self.live(self.interim_ptr(idx))
    }

    /// Bounds on the numbers of buckets and slots of an index whose level
    /// size is within the limit.
    pub proof fn lemma_sizes(&self)
        requires
            self.meta.meta.km_level_size <= LEVEL_SIZE_MAX,
        ensures
            1 <= self.buckets(0) <= 0x100_0000,
            self.buckets(1) == self.buckets(0) / 2,
            0 <= self.slots(1) <= self.slots(0) <= 0xff00_0000,
            self.slots(0) == self.buckets(0) * self.bucket_size(),
            self.slots(1) == self.buckets(1) * self.bucket_size(),
    {
        lemma_bucket_counts(self.meta.meta.km_level_size);
        let n0 = self.buckets(0);
        let n1 = self.buckets(1);
        let b = self.bucket_size();
        assert(0 <= n1 * b <= n0 * b <= 0x100_0000 * 255) by (nonlinear_arith)
            requires
                0 <= n1 <= n0 <= 0x100_0000,
                0 <= b <= 255,
        ;
    }

    #[inline]
    pub fn val_real_offset(off: OffT) -> (r: OffT)
        requires
            off + Self::VALUES_HEADER_SIZE_BYTES <= u64::MAX,
        ensures
            r == off + Self::VALUES_HEADER_SIZE_BYTES,
    {
        Self::VALUES_HEADER_SIZE_BYTES + off
    }

    #[inline]
    pub fn km_real_offset(off: OffT) -> (r: OffT)
        requires
            off + Self::KEYMAP_HEADER_SIZE_BYTES <= u64::MAX,
        ensures
            r == off + Self::KEYMAP_HEADER_SIZE_BYTES,
    {
        Self::KEYMAP_HEADER_SIZE_BYTES + off
    }

    /// The number of buckets of the level `level`.
    pub fn bucket_count(&self, level: LevelIdxT) -> (r: u32)
        requires
            self.meta.meta.km_level_size <= LEVEL_SIZE_MAX,
            level <= 1,
        ensures
            r == self.buckets(level as int),
    {
        proof {
            lemma_bucket_counts(self.meta.meta.km_level_size);
        }
        let top: u64 = 1u64 << self.meta.read().km_level_size;
        if level == 0 {
            top as u32
        } else {
            (top >> 1) as u32
        }
    }

    /// Get the address of the slot entry in the keymap file for the given level, bucket and slot.
    pub fn slot_addr(&self, level: LevelIdxT, bucket: BucketIdxT, slot: SlotIdxT) -> (r: OffT)
        requires
            self.geometry_wf(),
            level <= 1,
            bucket < self.buckets(level as int),
            slot < self.bucket_size(),
        ensures
            self.is_slot(level as int, bucket * self.bucket_size() + slot),
            r == self.slot_off(level as int, bucket * self.bucket_size() + slot),
            r + 8 <= self.keymap.size,
    {
        let meta = self.meta.read();
        let lvl_addr = if level == 0 {
            meta.km_l0_addr
        } else {
            meta.km_l1_addr
        };
        proof {
            self.lemma_sizes();
            lemma_slot_index(self.buckets(level as int), self.bucket_size(), bucket as int, slot as int);
        }
        self.slot_addr_for_lvl_addr(lvl_addr, bucket, slot)
    }

    /// Get the address of the slot entry in the keymap file for the given level offset, bucket and slot.
    pub fn slot_addr_for_lvl_addr(&self, lvl_addr: OffT, bucket: BucketIdxT, slot: SlotIdxT) -> (r: OffT)
        requires
            lvl_addr + 8 * (bucket * self.bucket_size() + slot) <= u64::MAX,
        ensures
            r == lvl_addr + 8 * (bucket * self.bucket_size() + slot),
    {
        let b = self.meta.read().km_bucket_size as OffT;
        proof {
            assert(0 <= bucket * b <= bucket * b + slot) by (nonlinear_arith)
                requires
                    0 <= bucket,
                    0 <= b,
                    0 <= slot,
            ;
            assert(8 * (b * bucket) == 8 * b * bucket) by (nonlinear_arith);
            assert(b * bucket == bucket * b) by (nonlinear_arith);
        }
        lvl_addr + (Self::KEYMAP_ENTRY_SIZE_BYTES * b * bucket as OffT) + (Self::KEYMAP_ENTRY_SIZE_BYTES
            * slot as OffT)
    }

    /// The pointer that the keymap holds at the offset `slot_addr`.
    #[inline]
    pub fn km_read_addr(&self, slot_addr: OffT) -> (r: OffT)
        requires
            self.keymap.wf(),
            slot_addr + 8 <= self.keymap.size,
        ensures
            r == u64_at(self.keymap.map@, slot_addr as int),
    {
        self.keymap.r_u64(slot_addr)
    }

    /// The offset of a slot and the pointer that the slot holds, `None`
    /// where the slot is empty.
    pub fn slot_and_val_addr_at(&self, level: LevelIdxT, bucket: BucketIdxT, slot: SlotIdxT) -> (r: (
        OffT,
        Option<OffT>,
    ))
        requires
            self.geometry_wf(),
            level <= 1,
            bucket < self.buckets(level as int),
            slot < self.bucket_size(),
        ensures
            r.0 == self.slot_off(level as int, bucket * self.bucket_size() + slot),
            r.1 == if self.slot_ptr(level as int, bucket * self.bucket_size() + slot) == 0 {
                None
            } else {
                Some(self.slot_ptr(level as int, bucket * self.bucket_size() + slot) as u64)
            },
    {
        let slot_addr = self.slot_addr(level, bucket, slot);
        let addr = self.km_read_addr(slot_addr);
        proof {
            reveal(LevelHashIO::slot_ptr);
        }
        if addr <= Self::POS_INVALID {
            return (slot_addr, None);
        }
        (slot_addr, Some(addr))
    }

    /// Get the address of the value entry in the values file for the given level, bucket and slot.
    pub fn val_addr_at(&self, level: LevelIdxT, bucket: BucketIdxT, slot: SlotIdxT) -> (r: Option<OffT>)
        requires
            self.geometry_wf(),
            level <= 1,
            bucket < self.buckets(level as int),
            slot < self.bucket_size(),
        ensures
            r == if self.slot_ptr(level as int, bucket * self.bucket_size() + slot) == 0 {
                None
            } else {
                Some(self.slot_ptr(level as int, bucket * self.bucket_size() + slot) as u64)
            },
    {
        self.slot_and_val_addr_at(level, bucket, slot).1
    }

    /// What holds of the record at `p` in a consistent index: it lies in the
    /// values region.
    pub proof fn lemma_live_in_bounds(&self, p: int)
        requires
            self.values_wf(),
            self.live(p),
        ensures
            p + 7 <= rec_end(self.values.map@, p) <= self.values.size,
            rec_end(self.values.map@, p) <= self.meta.meta.val_next_addr - 1,
    {
    }

    /// Get the [ValuesEntry] for the given level, bucket and slot.
    pub fn val_entry_for_slot(&self, level: LevelIdxT, bucket: BucketIdxT, slot: SlotIdxT) -> (r: Option<
        ValuesEntry,
    >)
        requires
            self.consistent(),
            level <= 1,
            bucket < self.buckets(level as int),
            slot < self.bucket_size(),
        ensures
            r is None <==> self.slot_ptr(level as int, bucket * self.bucket_size() + slot) == 0,
            r matches Some(e) ==> {
                let p = self.slot_ptr(level as int, bucket * self.bucket_size() + slot);
                &&& e.addr == p - 1
                &&& e.data.key_size == rec_key_size(self.values.map@, p)
                &&& e.data.value_size == rec_value_size(self.values.map@, p)
            },
    {
        let ghost idx = bucket * self.bucket_size() + slot;
        proof {
            self.lemma_sizes();
            lemma_slot_index(self.buckets(level as int), self.bucket_size(), bucket as int, slot as int);
        }
        match self.val_addr_at(level, bucket, slot) {
            None => None,
            Some(addr) => {
                proof {
                    assert(self.live(self.slot_ptr(level as int, idx)));
                    self.lemma_live_in_bounds(addr as int);
                }
                Some(ValuesEntry::at(addr - 1, &self.values))
            },
        }
    }

    /// Check if the slot is occupied.
    pub fn is_occupied(&self, level: LevelIdxT, bucket: BucketIdxT, slot: SlotIdxT) -> (r: bool)
        requires
            self.consistent(),
            level <= 1,
            bucket < self.buckets(level as int),
            slot < self.bucket_size(),
        ensures
            r == (self.slot_ptr(level as int, bucket * self.bucket_size() + slot) != 0),
            r == self.entry_at(level as int, bucket * self.bucket_size() + slot).is_some(),
    {
        proof {
            self.lemma_sizes();
            lemma_slot_index(self.buckets(level as int), self.bucket_size(), bucket as int, slot as int);
        }
        match self.val_entry_for_slot(level, bucket, slot) {
            None => false,
            Some(entry) => !entry.is_empty(),
        }
    }

    /// Get the value for the given level, bucket and slot: the value of the
    /// entry in the slot, and nothing for an empty slot.
    pub fn value(&self, level: LevelIdxT, bucket: BucketIdxT, slot: SlotIdxT) -> (r: Vec<u8>)
        requires
            self.consistent(),
            level <= 1,
            bucket < self.buckets(level as int),
            slot < self.bucket_size(),
        ensures
            r@ == match self.entry_at(level as int, bucket * self.bucket_size() + slot) {
                Some(e) => e.1,
                None => Seq::<u8>::empty(),
            },
    {
        proof {
            self.lemma_sizes();
            lemma_slot_index(self.buckets(level as int), self.bucket_size(), bucket as int, slot as int);
        }
        match self.val_entry_for_slot(level, bucket, slot) {
            None => Vec::new(),
            Some(entry) => {
                proof {
                    let p = self.slot_ptr(level as int, bucket * self.bucket_size() + slot);
                    assert(self.live(p));
                    self.lemma_live_in_bounds(p);
                }
                entry.value(&self.values)
            },
        }
    }
}

/// Writes the record of `key` and `value` at the 0-based address `addr` of
/// the values region: the header with the two sizes, then the key, then the
/// value.
pub fn write_record(file: &mut MappedFile, addr: OffT, key: &[u8], value: &[u8])
    requires
        old(file).wf(),
        key@.len() <= u32::MAX,
        value@.len() <= u32::MAX,
        addr + 8 + key@.len() + value@.len() <= old(file).size,
    ensures
        final(file).wf(),
        final(file).off == old(file).off,
        final(file).size == old(file).size,
        rec_key_size(final(file)@, addr + 1) == key@.len(),
        rec_value_size(final(file)@, addr + 1) == value@.len(),
        rec_key(final(file)@, addr + 1) == key@,
        rec_value(final(file)@, addr + 1) == value@,
        same_outside(old(file)@, final(file)@, addr as int, (8 + key@.len() + value@.len()) as int),
{
    let key_len = key.len() as u32;
    let val_len = value.len() as u32;
    let mut this_entry = ValuesEntryMut::at(addr, file);
    let key_off = addr + ValuesEntry::OFF_KEY;
    file.write_at(key_off, key);
    file.write_at(key_off + key_len as OffT, value);
    let this_data = this_entry.data_mut();
    this_data.key_size = key_len;
    this_data.value_size = val_len;
    this_entry.store(file);
    proof {
        let v = file.map@;
        assert(rec_key_size(v, addr + 1) == key@.len());
        assert(rec_value_size(v, addr + 1) == value@.len());
        assert(rec_key(v, addr + 1) =~= key@);
        assert(rec_value(v, addr + 1) =~= value@);
    }
}

impl LevelHashIO {
    /// Whether `off` is the offset of a slot of one of the two levels.
    pub open spec fn is_slot_addr(&self, off: int) -> bool {
        exists|level: int, idx: int| self.is_slot(level, idx) && off == self.slot_off(level, idx)
    }

    /// Whether `other` has the levels of `self`: the same level size and
    /// bucket size, the levels at the same offsets, in a keymap region of
    /// the same size.
    pub open spec fn same_geometry(&self, other: &LevelHashIO) -> bool {
        &&& self.meta.meta.km_level_size == other.meta.meta.km_level_size
        &&& self.meta.meta.km_bucket_size == other.meta.meta.km_bucket_size
        &&& self.meta.meta.km_l0_addr == other.meta.meta.km_l0_addr
        &&& self.meta.meta.km_l1_addr == other.meta.meta.km_l1_addr
        &&& self.meta.meta.km_version == other.meta.meta.km_version
        &&& self.meta.meta.val_version == other.meta.meta.val_version
        &&& self.keymap.size == other.keymap.size
        &&& self.keymap.off == other.keymap.off
        &&& self.interim_lvl_addr == other.interim_lvl_addr
    }

    /// The size to which a values region of the size `size` grows so that
    /// it reaches beyond the offset `need`: whole blocks are added, and none
    /// where the region reaches beyond `need` already.
    pub open spec fn grown_size(size: int, need: int) -> int {
        if size > need {
            size
        } else {
            size + ((need - size) / (Self::VALUES_BLOCK_SIZE_BYTES as int) + 1) * Self::VALUES_BLOCK_SIZE_BYTES
        }
    }

    /// The size that the values region has once a record of `key_len` and
    /// `val_len` bytes of key and value has been appended.
    pub open spec fn size_after_append(&self, key_len: int, val_len: int) -> int {
        Self::grown_size(
            self.meta.meta.val_file_size as int,
            self.meta.meta.val_next_addr - 1 + 8 + key_len + val_len,
        )
    }

    /// Whether the values region can take one more record of `key_len` and
    /// `val_len` bytes of key and value: the region can be mapped at the
    /// size that it then has.
    pub open spec fn can_append(&self, key_len: int, val_len: int) -> bool {
        &&& self.size_after_append(key_len, val_len) <= u64::MAX
        &&& MappedFile::mappable(
            Self::VALUES_HEADER_SIZE_BYTES,
            self.size_after_append(key_len, val_len) as u64,
        )
    }

    /// Gives the disk blocks under `len` bytes of the values region from
    /// `off` on back; they read as zero afterwards.
    #[inline]
    pub fn val_deallocate(&mut self, off: OffT, len: OffT)
        requires
            old(self).values.wf(),
            old(self).values.off == Self::VALUES_HEADER_SIZE_BYTES,
            off + Self::VALUES_HEADER_SIZE_BYTES <= u64::MAX,
        ensures
            final(self).values.wf(),
            final(self).values.off == old(self).values.off,
            final(self).values.size == old(self).values.size,
            final(self).values@ == crate::io::zeroed(old(self).values@, off as int, len as int),
            final(self).keymap == old(self).keymap,
            final(self).meta == old(self).meta,
            final(self).interim_lvl_addr == old(self).interim_lvl_addr,
    {
        self.values.deallocate(Self::val_real_offset(off), len)
    }

    /// Gives the disk blocks under `len` bytes of the keymap region from
    /// `off` on back; they read as zero afterwards.
    #[inline]
    pub fn km_deallocate(&mut self, off: OffT, len: OffT)
        requires
            old(self).keymap.wf(),
            old(self).keymap.off == Self::KEYMAP_HEADER_SIZE_BYTES,
            off + Self::KEYMAP_HEADER_SIZE_BYTES <= u64::MAX,
        ensures
            final(self).keymap.wf(),
            final(self).keymap.off == old(self).keymap.off,
            final(self).keymap.size == old(self).keymap.size,
            final(self).keymap@ == crate::io::zeroed(old(self).keymap@, off as int, len as int),
            final(self).values == old(self).values,
            final(self).meta == old(self).meta,
            final(self).interim_lvl_addr == old(self).interim_lvl_addr,
    {
        self.keymap.deallocate(Self::km_real_offset(off), len)
    }

    /// Stores the pointer `addr` in the keymap at the offset `slot_addr`.
    #[inline]
    pub fn km_write_addr(&mut self, slot_addr: OffT, addr: OffT)
        requires
            old(self).keymap.wf(),
            slot_addr + 8 <= old(self).keymap.size,
        ensures
            final(self).keymap.wf(),
            final(self).keymap.off == old(self).keymap.off,
            final(self).keymap.size == old(self).keymap.size,
            u64_at(final(self).keymap@, slot_addr as int) == addr,
            same_outside(old(self).keymap@, final(self).keymap@, slot_addr as int, 8),
            final(self).values == old(self).values,
            final(self).meta == old(self).meta,
            final(self).interim_lvl_addr == old(self).interim_lvl_addr,
    {
        self.keymap.w_u64(slot_addr, addr)
    }

    /// Maps the values region anew with the size `new_size`, and sets the
    /// size in the meta record.
    pub fn val_resize(&mut self, new_size: OffT) -> (r: crate::result::LevelRemapResult)
        requires
            old(self).values.wf(),
        ensures
            r is Ok <==> MappedFile::mappable(old(self).values.off, new_size),
            r is Err ==> *final(self) == *old(self),
            r is Ok ==> {
                &&& final(self).values.wf()
                &&& final(self).values.off == old(self).values.off
                &&& final(self).values.size == new_size
                &&& final(self).values@ == crate::io::resized(old(self).values@, new_size as int)
                &&& final(self).meta.meta == (crate::reprs::LevelMeta {
                    val_file_size: new_size,
                    ..old(self).meta.meta
                })
                &&& final(self).keymap == old(self).keymap
                &&& final(self).interim_lvl_addr == old(self).interim_lvl_addr
            },
    {
        self.values.remap(new_size)?;
        self.meta.meta.val_file_size = new_size;
        Ok(())
    }

    /// Maps the keymap region anew with the size `new_size`.
    pub fn km_resize(&mut self, new_size: OffT) -> (r: crate::result::LevelRemapResult)
        requires
            old(self).keymap.wf(),
        ensures
            r is Ok <==> MappedFile::mappable(old(self).keymap.off, new_size),
            r is Err ==> *final(self) == *old(self),
            r is Ok ==> {
                &&& final(self).keymap.wf()
                &&& final(self).keymap.off == old(self).keymap.off
                &&& final(self).keymap.size == new_size
                &&& final(self).keymap@ == crate::io::resized(old(self).keymap@, new_size as int)
                &&& final(self).meta == old(self).meta
                &&& final(self).values == old(self).values
                &&& final(self).interim_lvl_addr == old(self).interim_lvl_addr
            },
    {
        self.keymap.remap(new_size)
    }
}

} // verus!
