//! What a table of slots holds, as a multiset: the entries of the slots
//! that are not empty, each as often as a slot holds it.

use vstd::prelude::*;
use vstd::multiset::Multiset;

verus! {

/// The number of slots of `t` that are not empty.
pub open spec fn count_some<T>(t: Seq<Option<T>>) -> nat
    decreases t.len(),
{
    if t.len() == 0 {
        0
    } else {
        count_some(t.drop_last()) + if t.last() is Some {
            1nat
        } else {
            0nat
        }
    }
}

/// The entries of the slots of `t` that are not empty.
pub open spec fn bag_of<T>(t: Seq<Option<T>>) -> Multiset<T>
    decreases t.len(),
{
    if t.len() == 0 {
        Multiset::empty()
    } else {
        with_opt(bag_of(t.drop_last()), t.last())
    }
}

/// `m` with the entry of the slot `e` added, if the slot is not empty.
pub open spec fn with_opt<T>(m: Multiset<T>, e: Option<T>) -> Multiset<T> {
    match e {
        Some(x) => m.insert(x),
        None => m,
    }
}

/// `m` with the entry of the slot `e` taken out once, if the slot is not
/// empty.
pub open spec fn without_opt<T>(m: Multiset<T>, e: Option<T>) -> Multiset<T> {
    match e {
        Some(x) => m.remove(x),
        None => m,
    }
}

/// A table holds as many entries as it has slots that are not empty, and
/// no more than it has slots.
pub proof fn lemma_bag_len<T>(t: Seq<Option<T>>)
    ensures
        bag_of(t).len() == count_some(t),
        count_some(t) <= t.len(),
    decreases t.len(),
{
    if t.len() > 0 {
        lemma_bag_len(t.drop_last());
    }
}

/// The entry of a slot is among the entries of the table.
pub proof fn lemma_bag_member<T>(t: Seq<Option<T>>, i: int)
    requires
        0 <= i < t.len(),
        t[i] is Some,
    ensures
        bag_of(t).count(t[i]->0) > 0,
    decreases t.len(),
{
    if i < t.len() - 1 {
        lemma_bag_member(t.drop_last(), i);
    }
}

/// An entry of the table is the entry of one of its slots.
pub proof fn lemma_bag_slot<T>(t: Seq<Option<T>>, e: T) -> (i: int)
    requires
        bag_of(t).count(e) > 0,
    ensures
        0 <= i < t.len(),
        t[i] == Some(e),
    decreases t.len(),
{
    if t.len() == 0 {
        0
    } else if t.last() == Some(e) {
        t.len() - 1
    } else {
        lemma_bag_slot(t.drop_last(), e)
    }
}

/// A table without a slot that is not empty holds nothing.
pub proof fn lemma_bag_none<T>(t: Seq<Option<T>>)
    requires
        forall|i: int| 0 <= i < t.len() ==> t[i] is None,
    ensures
        bag_of(t) =~= Multiset::empty(),
        count_some(t) == 0,
    decreases t.len(),
{
    if t.len() > 0 {
        lemma_bag_none(t.drop_last());
    }
}

/// What a change of one slot does to what the table holds: the entry that
/// the slot had leaves, the entry that it gets comes in.
pub proof fn lemma_bag_update<T>(t: Seq<Option<T>>, i: int, e: Option<T>)
    requires
        0 <= i < t.len(),
    ensures
        bag_of(t.update(i, e)) =~= with_opt(without_opt(bag_of(t), t[i]), e),
        count_some(t.update(i, e)) + (if t[i] is Some {
            1nat
        } else {
            0nat
        }) == count_some(t) + (if e is Some {
            1nat
        } else {
            0nat
        }),
    decreases t.len(),
{
    let u = t.update(i, e);
    if i == t.len() - 1 {
        assert(u.drop_last() =~= t.drop_last());
    } else {
        assert(u.drop_last() =~= t.drop_last().update(i, e));
        lemma_bag_update(t.drop_last(), i, e);
        if t[i] is Some {
            lemma_bag_member(t.drop_last(), i);
        }
    }
}

} // verus!
