use vstd::prelude::*;
use crate::level_io::Entry;
use crate::level_io::LevelHashIO;

verus! {

impl LevelHashIO {
    /// What setting one slot anew does to the tables of the two levels: the
    /// table of the level of the slot changes at the index of the slot, the
    /// other table stays.
    pub proof fn lemma_tables_after_set(
        a: &LevelHashIO,
        b: &LevelHashIO,
        level: int,
        idx: int,
        ptr: int,
        entry: Option<Entry>,
    )
        requires
            a.geometry_wf(),
            b.same_geometry(a),
            a.is_slot(level, idx),
            b.slot_set(a, a.slot_off(level, idx), ptr, entry),
        ensures
            b.table(level) == a.table(level).update(idx, entry),
            b.table(1 - level) == a.table(1 - level),
            b.slot_ptr(level, idx) == ptr,
            forall|l: int, i: int|
                #![trigger b.slot_ptr(l, i)]
                a.is_slot(l, i) && (l != level || i != idx) ==> b.slot_ptr(l, i) == a.slot_ptr(l, i)
                    && b.entry_at(l, i) == a.entry_at(l, i),
    {
        assert forall|l: int, i: int| a.is_slot(l, i) && (l != level || i != idx) implies b.slot_ptr(l, i)
            == a.slot_ptr(l, i) && b.entry_at(l, i) == a.entry_at(l, i) by {
            a.lemma_slot_offsets_apart(l, i, level, idx);
        }
        assert(b.table(level) =~= a.table(level).update(idx, entry));
        assert(b.table(1 - level) =~= a.table(1 - level));
    }

    /// What moving the pointer of one slot to another slot does to the
    /// tables of the two levels.
    pub proof fn lemma_tables_after_move(a: &LevelHashIO, b: &LevelHashIO, from: (int, int), to: (int, int))
        requires
            b.same_geometry(a),
            a.is_slot(from.0, from.1),
            a.is_slot(to.0, to.1),
            from != to,
            b.slot_moved(a, from, to),
        ensures
            from.0 == to.0 ==> b.table(to.0) == a.table(to.0).update(to.1, a.entry_at(from.0, from.1)).update(
                from.1,
                None,
            ) && b.table(1 - to.0) == a.table(1 - to.0),
            from.0 != to.0 ==> b.table(to.0) == a.table(to.0).update(to.1, a.entry_at(from.0, from.1))
                && b.table(from.0) == a.table(from.0).update(from.1, None),
    {
        if from.0 == to.0 {
            assert(b.table(to.0) =~= a.table(to.0).update(to.1, a.entry_at(from.0, from.1)).update(
                from.1,
                None,
            ));
            assert(b.table(1 - to.0) =~= a.table(1 - to.0));
        } else {
            assert(b.table(to.0) =~= a.table(to.0).update(to.1, a.entry_at(from.0, from.1)));
            assert(b.table(from.0) =~= a.table(from.0).update(from.1, None));
        }
    }
}

} // verus!
