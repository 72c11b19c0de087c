use vstd::prelude::*;
use crate::level_io::rec_end;
use crate::level_io::LevelHashIO;
use crate::level_io::ValEntryReadExt;
use crate::level_io::ValuesEntry;
use crate::meta::LEVEL_SIZE_MAX;
use crate::types::OffT;

verus! {

impl LevelHashIO {
    /// The number of slots of the two levels together.
    pub open spec fn total_slots(&self) -> int {
        self.slots(0) + self.slots(1)
    }

    /// The level of the slot with the number `m`, where the slots of the top
    /// level are numbered first and those of the bottom level follow.
    pub open spec fn level_of(&self, m: int) -> int {
        if m < self.slots(0) {
            0
        } else {
            1
        }
    }

    /// The index in its level of the slot with the number `m`.
    pub open spec fn index_of(&self, m: int) -> int {
        if m < self.slots(0) {
            m
        } else {
            m - self.slots(0)
        }
    }

    /// The pointer that the slot with the number `m` holds.
    pub open spec fn ptr_of(&self, m: int) -> int {
        self.slot_ptr(self.level_of(m), self.index_of(m))
    }

    /// Whether each of the first `n` slots is empty or points to a record
    /// in use.
    pub open spec fn live_up_to(&self, n: int) -> bool {
        forall|m: int| 0 <= m < n ==> #[trigger] self.ptr_of(m) == 0 || self.live(self.ptr_of(m))
    }

    /// Whether no two of the first `n` slots point to records that share a
    /// byte.
    pub open spec fn apart_up_to(&self, n: int) -> bool {
        forall|m1: int, m2: int|
            0 <= m1 < m2 < n && #[trigger] self.ptr_of(m1) != 0 && #[trigger] self.ptr_of(m2) != 0
                ==> self.apart(self.ptr_of(m1), self.ptr_of(m2))
    }

    /// The slots of the index, by number and by level and index.
    pub proof fn lemma_slot_numbers(&self)
        requires
            self.meta.meta.km_level_size <= LEVEL_SIZE_MAX,
        ensures
            forall|m: int|
                0 <= m < self.total_slots() ==> #[trigger] self.is_slot(self.level_of(m), self.index_of(m)),
            forall|level: int, idx: int|
                #![trigger self.is_slot(level, idx)]
                self.is_slot(level, idx) ==> {
                    let m = if level == 0 {
                        idx
                    } else {
                        self.slots(0) + idx
                    };
                    0 <= m < self.total_slots() && self.level_of(m) == level && self.index_of(m) == idx
                },
            self.slots_wf() <==> self.live_up_to(self.total_slots()) && self.apart_up_to(self.total_slots()),
    {
        self.lemma_sizes();
        let total = self.total_slots();
        if self.slots_wf() {
            assert forall|m: int| 0 <= m < total implies #[trigger] self.ptr_of(m) == 0 || self.live(
                self.ptr_of(m),
            ) by {
                assert(self.is_slot(self.level_of(m), self.index_of(m)));
            }
            assert forall|m1: int, m2: int|
                0 <= m1 < m2 < total && #[trigger] self.ptr_of(m1) != 0 && #[trigger] self.ptr_of(m2)
                    != 0 implies self.apart(self.ptr_of(m1), self.ptr_of(m2)) by {
                assert(self.is_slot(self.level_of(m1), self.index_of(m1)));
                assert(self.is_slot(self.level_of(m2), self.index_of(m2)));
            }
        }
        if self.live_up_to(total) && self.apart_up_to(total) {
            assert forall|level: int, idx: int| self.is_slot(level, idx) implies self.slot_ptr(level, idx) == 0
                || self.live(self.slot_ptr(level, idx)) by {
                let m = if level == 0 {
                    idx
                } else {
                    self.slots(0) + idx
                };
                assert(self.ptr_of(m) == self.slot_ptr(level, idx));
            }
            assert forall|l1: int, i1: int, l2: int, i2: int|
                self.is_slot(l1, i1) && self.is_slot(l2, i2) && (l1 != l2 || i1 != i2) && self.slot_ptr(l1, i1)
                    != 0 && self.slot_ptr(l2, i2) != 0 implies self.apart(
                self.slot_ptr(l1, i1),
                self.slot_ptr(l2, i2),
            ) by {
                let m1 = if l1 == 0 {
                    i1
                } else {
                    self.slots(0) + i1
                };
                let m2 = if l2 == 0 {
                    i2
                } else {
                    self.slots(0) + i2
                };
                assert(self.ptr_of(m1) == self.slot_ptr(l1, i1));
                assert(self.ptr_of(m2) == self.slot_ptr(l2, i2));
                if m1 < m2 {
                    assert(self.apart(self.ptr_of(m1), self.ptr_of(m2)));
                } else {
                    assert(self.apart(self.ptr_of(m2), self.ptr_of(m1)));
                }
            }
        }
    }

    /// The number of slots of the two levels together.
    pub fn slot_count(&self) -> (r: (u64, u64))
        requires
            self.meta.meta.km_level_size <= LEVEL_SIZE_MAX,
        ensures
            r.0 == self.slots(0),
            r.1 == self.slots(1),
            r.0 + r.1 <= 0x1_fe00_0000,
    {
        proof {
            self.lemma_sizes();
        }
        let b = self.meta.read().km_bucket_size as u64;
        ((self.bucket_count(0) as u64) * b, (self.bucket_count(1) as u64) * b)
    }

    /// The pointer that the slot with the number `m` holds.
    pub fn read_slot(&self, m: u64) -> (r: OffT)
        requires
            self.geometry_wf(),
            m < self.total_slots(),
        ensures
            r == self.ptr_of(m as int),
    {
        proof {
            self.lemma_sizes();
            reveal(LevelHashIO::slot_ptr);
        }
        let (top, _) = self.slot_count();
        let meta = self.meta.read();
        if m < top {
            self.km_read_addr(meta.km_l0_addr + 8 * m)
        } else {
            self.km_read_addr(meta.km_l1_addr + 8 * (m - top))
        }
    }

    /// Whether the regions fit the meta record: the two levels lie inside
    /// the keymap region and apart from each other.
    pub fn check_geometry(&self) -> (r: bool)
        requires
            self.keymap.wf(),
        ensures
            r == self.geometry_wf(),
    {
        let meta = self.meta.read();
        if self.keymap.off != Self::KEYMAP_HEADER_SIZE_BYTES || meta.km_level_size > LEVEL_SIZE_MAX
            || meta.km_bucket_size < 1 {
            return false;
        }
        proof {
            self.lemma_sizes();
        }
        let (top, bottom) = self.slot_count();
        let size = self.keymap.size;
        if 8 * top > size || meta.km_l0_addr > size - 8 * top {
            return false;
        }
        if 8 * bottom > size || meta.km_l1_addr > size - 8 * bottom {
            return false;
        }
        meta.km_l0_addr + 8 * top <= meta.km_l1_addr || meta.km_l1_addr + 8 * bottom <= meta.km_l0_addr
    }

    /// Whether the values region fits the meta record.
    pub fn check_values(&self) -> (r: bool)
        requires
            self.values.wf(),
        ensures
            r == self.values_wf(),
    {
        let meta = self.meta.read();
        self.values.off == Self::VALUES_HEADER_SIZE_BYTES && self.values.size == meta.val_file_size
            && meta.val_file_size % Self::VALUES_BLOCK_SIZE_BYTES == 0 && 1 <= meta.val_next_addr
            && meta.val_next_addr - 1 <= meta.val_file_size && (meta.val_next_addr - 1) % 8 == 0
            && meta.val_tail_addr <= meta.val_next_addr && (meta.val_tail_addr == 0 || (meta.val_tail_addr
            - 1) % 8 == 0)
    }

    /// Whether `p` is the address of a record in use.
    pub fn check_live(&self, p: OffT) -> (r: bool)
        requires
            self.values_wf(),
        ensures
            r == self.live(p as int),
    {
        let meta = self.meta.read();
        if p < 1 || (p - 1) % 8 != 0 {
            return false;
        }
        // the header of the record has to lie below the place of the next record
        if p > meta.val_next_addr - 1 || meta.val_next_addr - 1 - p < 7 {
            return false;
        }
        let entry = ValuesEntry::at(p - 1, &self.values);
        if entry.key_size() == 0 {
            return false;
        }
        let limit: OffT = if p == meta.val_tail_addr {
            meta.val_next_addr - 1
        } else if meta.val_tail_addr == 0 {
            return false;
        } else {
            meta.val_tail_addr - 1
        };
        let sizes: OffT = entry.key_size() as OffT + entry.value_size() as OffT;
        limit >= p + 7 && sizes <= limit - (p + 7)
    }

    /// Whether every slot is empty or points to a record in use.
    pub fn check_slots_live(&self) -> (r: bool)
        requires
            self.geometry_wf(),
            self.values_wf(),
        ensures
            r == self.live_up_to(self.total_slots()),
    {
        let (top, bottom) = self.slot_count();
        let total = top + bottom;
        let mut m: u64 = 0;
        while m < total
            invariant
                self.geometry_wf(),
                self.values_wf(),
                total == self.total_slots(),
                m <= total,
                self.live_up_to(m as int),
            decreases total - m,
        {
            let p = self.read_slot(m);
            if p != 0 && !self.check_live(p) {
                return false;
            }
            m += 1;
        }
        true
    }

    /// Whether the record at `p` takes up the cell `c` of the values region,
    /// that is the eight bytes from `8 * c` on, or a part of it.
    pub open spec fn covers(&self, p: int, c: int) -> bool {
        p - 1 <= 8 * c < rec_end(self.values.map@, p)
    }

    /// Whether the record of one of the first `n` slots takes up the cell
    /// `c`.
    pub open spec fn taken_by(&self, n: int, c: int) -> bool {
        exists|m: int| 0 <= m < n && #[trigger] self.ptr_of(m) != 0 && self.covers(self.ptr_of(m), c)
    }

    /// Two records in use share a byte exactly if they share a cell.
    pub proof fn lemma_shared_cell(&self, p: int, q: int)
        requires
            self.values_wf(),
            self.live(p),
            self.live(q),
        ensures
            !self.apart(p, q) <==> exists|c: int| self.covers(p, c) && #[trigger] self.covers(q, c),
            !self.apart(p, q) ==> self.covers(p, (if p >= q {
                p - 1
            } else {
                q - 1
            }) / 8) && self.covers(q, (if p >= q {
                p - 1
            } else {
                q - 1
            }) / 8),
    {
        let c = (if p >= q {
            p - 1
        } else {
            q - 1
        }) / 8;
        if !self.apart(p, q) {
            assert(self.covers(p, c) && self.covers(q, c));
        }
    }

    /// Whether no two slots point to records that share a byte. Every slot
    /// has to be empty or to point to a record in use.
    pub fn check_slots_apart(&self) -> (r: bool)
        requires
            self.geometry_wf(),
            self.values_wf(),
            self.live_up_to(self.total_slots()),
        ensures
            r == self.apart_up_to(self.total_slots()),
    {
        let (top, bottom) = self.slot_count();
        let total = top + bottom;
        let cells: usize = ((self.meta.read().val_next_addr - 1) / 8) as usize;
        let mut marks: Vec<bool> = vec![false; cells];
        let mut m: u64 = 0;
        while m < total
            invariant
                self.geometry_wf(),
                self.values_wf(),
                self.live_up_to(self.total_slots()),
                total == self.total_slots(),
                m <= total,
                cells == (self.meta.meta.val_next_addr - 1) / 8,
                marks@.len() == cells,
                self.apart_up_to(m as int),
                forall|c: int| 0 <= c < cells ==> #[trigger] marks@[c] == self.taken_by(m as int, c),
            decreases total - m,
        {
            let p = self.read_slot(m);
            if p != 0 {
                assert(self.live(self.ptr_of(m as int)));
                let entry = ValuesEntry::at(p - 1, &self.values);
                let end: u64 = p + 7 + entry.key_size() as u64 + entry.value_size() as u64;
                let first: usize = ((p - 1) / 8) as usize;
                let last: usize = ((end + 7) / 8) as usize;
                assert(forall|c: int| self.covers(p as int, c) <==> first <= c < last);
                let mut c: usize = first;
                while c < last
                    invariant
                        self.values_wf(),
                        self.live_up_to(self.total_slots()),
                        total == self.total_slots(),
                        m < total,
                        p == self.ptr_of(m as int),
                        p != 0,
                        self.live(p as int),
                        marks@.len() == cells,
                        first <= c <= last <= cells,
                        forall|k: int| self.covers(p as int, k) <==> first <= k < last,
                        forall|k: int|
                            0 <= k < cells ==> #[trigger] marks@[k] == (self.taken_by(m as int, k) || first <= k
                                < c),
                        forall|k: int| first <= k < c ==> !self.taken_by(m as int, k),
                    decreases last - c,
                {
                    if marks[c] {
                        proof {
                            assert(self.taken_by(m as int, c as int));
                            let m1 = choose|m1: int|
                                0 <= m1 < m && #[trigger] self.ptr_of(m1) != 0 && self.covers(
                                    self.ptr_of(m1),
                                    c as int,
                                );
                            assert(self.live(self.ptr_of(m1)));
                            assert(self.covers(p as int, c as int));
                            self.lemma_shared_cell(self.ptr_of(m1), p as int);
                            assert(!self.apart(self.ptr_of(m1), self.ptr_of(m as int)));
                        }
                        return false;
                    }
                    marks[c] = true;
                    c += 1;
                }
                proof {
                    assert forall|k: int| 0 <= k < cells implies #[trigger] marks@[k] == self.taken_by(
                        m + 1,
                        k,
                    ) by {
                        if self.taken_by(m + 1, k) {
                            let m1 = choose|m1: int|
                                0 <= m1 < m + 1 && #[trigger] self.ptr_of(m1) != 0 && self.covers(
                                    self.ptr_of(m1),
                                    k,
                                );
                            if m1 < m {
                                assert(self.taken_by(m as int, k));
                            }
                        }
                        if self.taken_by(m as int, k) {
                            let m1 = choose|m1: int|
                                0 <= m1 < m && #[trigger] self.ptr_of(m1) != 0 && self.covers(self.ptr_of(m1), k);
                            assert(self.taken_by(m + 1, k));
                        }
                        if first <= k < last {
                            assert(self.covers(self.ptr_of(m as int), k));
                            assert(self.taken_by(m + 1, k));
                        }
                    }
                    assert forall|m1: int, m2: int|
                        0 <= m1 < m2 < m + 1 && #[trigger] self.ptr_of(m1) != 0 && #[trigger] self.ptr_of(m2)
                            != 0 implies self.apart(self.ptr_of(m1), self.ptr_of(m2)) by {
                        if m2 == m {
                            assert(self.live(self.ptr_of(m1)));
                            if !self.apart(self.ptr_of(m1), p as int) {
                                self.lemma_shared_cell(self.ptr_of(m1), p as int);
                                let k = (if self.ptr_of(m1) >= p {
                                    self.ptr_of(m1) - 1
                                } else {
                                    p - 1
                                }) / 8;
                                assert(self.covers(p as int, k));
                                assert(self.taken_by(m as int, k));
                            }
                        }
                    }
                }
            } else {
                proof {
                    assert forall|k: int| 0 <= k < cells implies #[trigger] marks@[k] == self.taken_by(
                        m + 1,
                        k,
                    ) by {
                        if self.taken_by(m + 1, k) {
                            let m1 = choose|m1: int|
                                0 <= m1 < m + 1 && #[trigger] self.ptr_of(m1) != 0 && self.covers(
                                    self.ptr_of(m1),
                                    k,
                                );
                            assert(self.taken_by(m as int, k));
                        }
                        if self.taken_by(m as int, k) {
                            let m1 = choose|m1: int|
                                0 <= m1 < m && #[trigger] self.ptr_of(m1) != 0 && self.covers(self.ptr_of(m1), k);
                            assert(self.taken_by(m + 1, k));
                        }
                    }
                }
            }
            m += 1;
        }
        true
    }

    /// Whether the index is consistent: the regions fit the meta record,
    /// and the slots fit the records.
    pub fn check_consistent(&self) -> (r: bool)
        requires
            self.keymap.wf(),
            self.values.wf(),
        ensures
            r == self.consistent(),
    {
        let meta = self.meta.read();
        if meta.val_version == 0 || meta.km_version == 0 || (meta.km_l0_addr == 0 && meta.km_l1_addr == 0) {
            return false;
        }
        if !self.check_geometry() || !self.check_values() {
            return false;
        }
        proof {
            self.lemma_slot_numbers();
        }
        self.check_slots_live() && self.check_slots_apart()
    }
}

} // verus!
