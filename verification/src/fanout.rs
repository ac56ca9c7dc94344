//! Which consumers stay after a frame was handed round.
//!
//! A frame is offered to every consumer of a list in turn. A consumer that
//! could not take it is gone for good and leaves the list; the others stay,
//! in the order in which they stood.

use vstd::prelude::*;

verus! {

/// Whether the entry at `i` stays: it does unless `delivered` says at `i`
/// that the frame could not be handed over.
pub open spec fn stays(delivered: Seq<bool>, i: int) -> bool {
    !(0 <= i < delivered.len()) || delivered[i]
}

/// The entries of `list` that stay, in the order of `list`.
pub open spec fn survivors<T>(list: Seq<T>, delivered: Seq<bool>) -> Seq<T>
    decreases list.len(),
{
    if list.len() == 0 {
        Seq::empty()
    } else {
        let before = survivors(list.drop_last(), delivered);
        if stays(delivered, list.len() - 1) {
            before.push(list.last())
        } else {
            before
        }
    }
}

/// How many of the first `i` entries stay: the place that the entry at `i`
/// has among the survivors, if it stays.
pub open spec fn place(delivered: Seq<bool>, i: int) -> int
    decreases i,
{
    if i <= 0 {
        0
    } else if stays(delivered, i - 1) {
        place(delivered, i - 1) + 1
    } else {
        place(delivered, i - 1)
    }
}

/// The survivors are as many as `place` counts, and no more than the list
/// held.
pub proof fn lemma_survivors_len<T>(list: Seq<T>, delivered: Seq<bool>)
    ensures
        survivors(list, delivered).len() == place(delivered, list.len() as int),
        0 <= place(delivered, list.len() as int) <= list.len(),
    decreases list.len(),
{
    if list.len() > 0 {
        lemma_survivors_len(list.drop_last(), delivered);
    }
}

/// `place` never falls, and rises over an entry that stays.
pub proof fn lemma_place_rises(delivered: Seq<bool>, i: int, j: int)
    requires
        0 <= i <= j,
    ensures
        place(delivered, i) <= place(delivered, j),
        i < j && stays(delivered, i) ==> place(delivered, i) < place(delivered, j),
    decreases j - i,
{
    if i < j {
        lemma_place_rises(delivered, i, j - 1);
    }
}

/// Every entry that stays is found among the survivors at its place.
pub proof fn lemma_survivor_at<T>(list: Seq<T>, delivered: Seq<bool>, i: int)
    requires
        0 <= i < list.len(),
        stays(delivered, i),
    ensures
        0 <= place(delivered, i) < survivors(list, delivered).len(),
        survivors(list, delivered)[place(delivered, i)] == list[i],
    decreases list.len(),
{
    let shorter = list.drop_last();
    lemma_survivors_len(shorter, delivered);
    lemma_survivors_len(list, delivered);
    if i == list.len() - 1 {
    } else {
        lemma_survivor_at(shorter, delivered, i);
    }
}

/// Every survivor is an entry that stays, found at its place. Nothing else
/// is in the list afterwards: an entry to which the frame could not be
/// handed is gone.
pub proof fn lemma_survivor_from<T>(list: Seq<T>, delivered: Seq<bool>, k: int) -> (i: int)
    requires
        0 <= k < survivors(list, delivered).len(),
    ensures
        0 <= i < list.len(),
        stays(delivered, i),
        place(delivered, i) == k,
        survivors(list, delivered)[k] == list[i],
    decreases list.len(),
{
    let shorter = list.drop_last();
    lemma_survivors_len(shorter, delivered);
    lemma_survivors_len(list, delivered);
    if stays(delivered, list.len() - 1) && k == survivors(shorter, delivered).len() {
        list.len() - 1
    } else {
        lemma_survivor_from(shorter, delivered, k)
    }
}

/// Any two entries that stay keep their order: the one that stood first in
/// the list stands first among the survivors.
pub proof fn lemma_pruning_keeps_order<T>(list: Seq<T>, delivered: Seq<bool>, i: int, j: int)
    requires
        0 <= i < j < list.len(),
        stays(delivered, i),
        stays(delivered, j),
    ensures
        place(delivered, i) < place(delivered, j) < survivors(list, delivered).len(),
        survivors(list, delivered)[place(delivered, i)] == list[i],
        survivors(list, delivered)[place(delivered, j)] == list[j],
{
    lemma_place_rises(delivered, i, j);
    lemma_survivor_at(list, delivered, i);
    lemma_survivor_at(list, delivered, j);
}

/// Where every entry could take the frame, the list stays as it is.
pub proof fn lemma_all_stay<T>(list: Seq<T>, delivered: Seq<bool>)
    requires
        forall|i: int| 0 <= i < list.len() ==> stays(delivered, i),
    ensures
        survivors(list, delivered) == list,
    decreases list.len(),
{
    if list.len() > 0 {
        lemma_all_stay(list.drop_last(), delivered);
        assert(list.drop_last().push(list.last()) =~= list);
    }
}

/// The survivors among the entries from `from` on.
spec fn survivors_after<T>(list: Seq<T>, delivered: Seq<bool>, from: int) -> Seq<T>
    decreases list.len() - from,
{
    if from >= list.len() || from < 0 {
        Seq::empty()
    } else {
        (if stays(delivered, from) {
            seq![list[from]]
        } else {
            Seq::empty()
        }) + survivors_after(list, delivered, from + 1)
    }
}

proof fn lemma_survivors_after<T>(list: Seq<T>, delivered: Seq<bool>, from: int)
    requires
        0 <= from <= list.len(),
    ensures
        survivors(list, delivered) == survivors(list.take(from), delivered) + survivors_after(
            list,
            delivered,
            from,
        ),
    decreases list.len() - from,
{
    if from == list.len() {
        assert(list.take(from) =~= list);
        assert(survivors_after(list, delivered, from) =~= Seq::<T>::empty());
        assert(survivors(list, delivered) + Seq::<T>::empty() =~= survivors(list, delivered));
    } else {
        lemma_survivors_after(list, delivered, from + 1);
        assert(list.take(from + 1).drop_last() =~= list.take(from));
        assert(list.take(from + 1).last() == list[from]);
        let head = survivors(list.take(from), delivered);
        let mid = if stays(delivered, from) {
            seq![list[from]]
        } else {
            Seq::<T>::empty()
        };
        let tail = survivors_after(list, delivered, from + 1);
        assert(survivors(list.take(from + 1), delivered) =~= head + mid);
        assert((head + mid) + tail =~= head + (mid + tail));
    }
}

/// Takes out of `list` every entry to which the frame could not be handed,
/// as `delivered` says place by place, and keeps the others in their order.
/// An entry for which `delivered` says nothing stays.
pub fn prune<T>(list: &mut Vec<T>, delivered: &Vec<bool>)
    ensures
        final(list)@ == survivors(old(list)@, delivered@),
{
    let ghost before = list@;
    let mut i: usize = list.len();
    proof {
        assert(before.take(i as int) =~= before);
        assert(survivors_after(before, delivered@, i as int) =~= Seq::<T>::empty());
        assert(before + Seq::<T>::empty() =~= before);
    }
    while i > 0
        invariant
            i <= before.len(),
            list@ == before.take(i as int) + survivors_after(before, delivered@, i as int),
        decreases i,
    {
        i -= 1;
        let ghost tail = survivors_after(before, delivered@, i + 1);
        assert(before.take(i + 1) =~= before.take(i as int).push(before[i as int]));
        if i < delivered.len() && !delivered[i] {
            list.remove(i);
            assert(list@ =~= before.take(i as int) + tail);
            assert(survivors_after(before, delivered@, i as int) =~= tail);
        } else {
            assert(survivors_after(before, delivered@, i as int) =~= seq![before[i as int]] + tail);
            assert(list@ =~= before.take(i as int) + (seq![before[i as int]] + tail));
        }
    }
    proof {
        lemma_survivors_after(before, delivered@, 0);
        assert(before.take(0) =~= Seq::<T>::empty());
        assert(survivors(before.take(0), delivered@) =~= Seq::<T>::empty());
        assert(Seq::<T>::empty() + survivors_after(before, delivered@, 0) =~= survivors_after(
            before,
            delivered@,
            0,
        ));
    }
}

} // verus!
