//! Counting and collecting over sequences: the arithmetic behind the
//! population of a world.

use vstd::prelude::*;

verus! {

/// The values that `slots` holds, in order, without the empty slots.
pub open spec fn present<T>(slots: Seq<Option<T>>) -> Seq<T>
    decreases slots.len(),
{
    if slots.len() == 0 {
        Seq::empty()
    } else {
        match slots.last() {
            Some(value) => present(slots.drop_last()).push(value),
            None => present(slots.drop_last()),
        }
    }
}

/// The number of flags that are set.
pub open spec fn tally(flags: Seq<bool>) -> nat
    decreases flags.len(),
{
    if flags.len() == 0 {
        0
    } else {
        tally(flags.drop_last()) + if flags.last() {
            1nat
        } else {
            0nat
        }
    }
}

/// Collecting distributes over concatenation.
pub proof fn lemma_present_concat<T>(front: Seq<Option<T>>, back: Seq<Option<T>>)
    ensures
        present(front + back) == present(front) + present(back),
    decreases back.len(),
{
    if back.len() == 0 {
        assert(front + back =~= front);
        assert(present(front) + present(back) =~= present(front));
    } else {
        assert((front + back).drop_last() =~= front + back.drop_last());
        lemma_present_concat(front, back.drop_last());
        match back.last() {
            Some(value) => {
                assert((present(front) + present(back.drop_last())).push(value) =~= present(front)
                    + present(back.drop_last()).push(value));
            },
            None => {},
        }
    }
}

/// Where no slot is empty, collecting gives back every value.
pub proof fn lemma_present_full<T>(slots: Seq<Option<T>>, values: Seq<T>)
    requires
        slots.len() == values.len(),
        forall|i: int| 0 <= i < slots.len() ==> #[trigger] slots[i] == Some(values[i]),
    ensures
        present(slots) == values,
    decreases slots.len(),
{
    if slots.len() == 0 {
        assert(values =~= Seq::<T>::empty());
    } else {
        lemma_present_full(slots.drop_last(), values.drop_last());
        assert(slots.last() == Some(values.last()));
        assert(values.drop_last().push(values.last()) =~= values);
    }
}

/// Every collected value comes from a slot that holds it.
pub proof fn lemma_present_origin<T>(slots: Seq<Option<T>>, k: int)
    requires
        0 <= k < present(slots).len(),
    ensures
        exists|i: int| 0 <= i < slots.len() && #[trigger] slots[i] == Some(present(slots)[k]),
    decreases slots.len(),
{
    let front = slots.drop_last();
    if slots.last() is Some && k == present(front).len() {
        assert(slots[slots.len() - 1] == Some(present(slots)[k]));
    } else {
        lemma_present_origin(front, k);
        let i = choose|i: int|
            0 <= i < front.len() && #[trigger] front[i] == Some(present(front)[k]);
        assert(slots[i] == Some(present(slots)[k]));
    }
}

/// As many values are collected as there are slots that hold one.
pub proof fn lemma_present_len<T>(slots: Seq<Option<T>>, filled: Seq<bool>)
    requires
        slots.len() == filled.len(),
        forall|i: int| 0 <= i < slots.len() ==> (#[trigger] slots[i] is Some) == filled[i],
    ensures
        present(slots).len() == tally(filled),
    decreases slots.len(),
{
    if slots.len() > 0 {
        assert(slots.last() is Some == filled.last());
        lemma_present_len(slots.drop_last(), filled.drop_last());
    }
}

/// The set flags and the cleared flags together are all the flags.
pub proof fn lemma_tally_complement(flags: Seq<bool>, others: Seq<bool>)
    requires
        flags.len() == others.len(),
        forall|i: int| 0 <= i < flags.len() ==> #[trigger] flags[i] == !others[i],
    ensures
        tally(flags) + tally(others) == flags.len(),
    decreases flags.len(),
{
    if flags.len() > 0 {
        assert(flags.last() == !others.last());
        lemma_tally_complement(flags.drop_last(), others.drop_last());
    }
}

/// Flags that imply other flags are no more numerous than those.
pub proof fn lemma_tally_monotone(flags: Seq<bool>, others: Seq<bool>)
    requires
        flags.len() == others.len(),
        forall|i: int| 0 <= i < flags.len() ==> (#[trigger] flags[i] ==> others[i]),
    ensures
        tally(flags) <= tally(others),
        tally(others) <= others.len(),
    decreases flags.len(),
{
    if flags.len() > 0 {
        assert(flags.last() ==> others.last());
        lemma_tally_monotone(flags.drop_last(), others.drop_last());
    }
}

/// Where every slot before `cut` is filled, the collection starts with the
/// values of those slots.
pub proof fn lemma_present_prefix<T>(slots: Seq<Option<T>>, values: Seq<T>, cut: int)
    requires
        slots.len() == values.len(),
        0 <= cut <= slots.len(),
        forall|i: int| 0 <= i < cut ==> #[trigger] slots[i] == Some(values[i]),
    ensures
        present(slots) == values.take(cut) + present(slots.subrange(cut, slots.len() as int)),
{
    let front = slots.take(cut);
    let back = slots.subrange(cut, slots.len() as int);
    assert(slots =~= front + back);
    lemma_present_concat(front, back);
    lemma_present_full(front, values.take(cut));
}

/// Where the slot `gone` is empty and every slot after it and before `cut`
/// is filled, the collection from `gone` on is the values of those slots
/// followed by the collection from `cut` on.
pub proof fn lemma_present_skip_one<T>(slots: Seq<Option<T>>, values: Seq<T>, gone: int, cut: int)
    requires
        slots.len() == values.len(),
        0 <= gone < cut <= slots.len(),
        slots[gone] is None,
        forall|i: int| gone < i < cut ==> #[trigger] slots[i] == Some(values[i]),
    ensures
        present(slots.subrange(gone, slots.len() as int)) == values.subrange(gone + 1, cut)
            + present(slots.subrange(cut, slots.len() as int)),
{
    let end = slots.len() as int;
    let hole = slots.subrange(gone, gone + 1);
    let middle = slots.subrange(gone + 1, cut);
    let back = slots.subrange(cut, end);
    assert(slots.subrange(gone, end) =~= hole + (middle + back));
    lemma_present_concat(hole, middle + back);
    lemma_present_concat(middle, back);
    lemma_present_full(middle, values.subrange(gone + 1, cut));
    assert(hole.last() is None);
    assert(present(hole.drop_last()) =~= Seq::<T>::empty());
    assert(present(hole) + (present(middle) + present(back)) =~= present(middle) + present(back));
}

/// `gaps` lists, in rising order, exactly the slots that are empty.
pub open spec fn lists_gaps<T>(gaps: Seq<usize>, slots: Seq<Option<T>>) -> bool {
    &&& forall|t: int|
        0 <= t < gaps.len() ==> (#[trigger] gaps[t]) < slots.len() && slots[gaps[t] as int] is None
    &&& forall|t: int, u: int|
        0 <= t < u < gaps.len() ==> (#[trigger] gaps[t]) < (#[trigger] gaps[u])
    &&& forall|i: int|
        0 <= i < slots.len() && (#[trigger] slots[i]) is None ==> exists|t: int|
            0 <= t < gaps.len() && #[trigger] gaps[t] == i
}

/// A list of the gaps stays one when a filled slot joins the slots, and
/// when an empty slot joins them and its index joins the list.
pub proof fn lemma_lists_gaps_push<T>(gaps: Seq<usize>, slots: Seq<Option<T>>, slot: Option<T>)
    requires
        lists_gaps(gaps, slots),
        slots.len() <= usize::MAX,
    ensures
        slot is Some ==> lists_gaps(gaps, slots.push(slot)),
        slot is None ==> lists_gaps(gaps.push(slots.len() as usize), slots.push(slot)),
{
    let longer = slots.push(slot);
    let more = if slot is Some {
        gaps
    } else {
        gaps.push(slots.len() as usize)
    };
    assert forall|i: int| 0 <= i < longer.len() && (#[trigger] longer[i]) is None implies exists|
        t: int,
    | 0 <= t < more.len() && #[trigger] more[t] == i by {
        if i < slots.len() {
            assert(slots[i] is None);
            let t = choose|t: int| 0 <= t < gaps.len() && #[trigger] gaps[t] == i;
            assert(more[t] == i);
        } else {
            assert(more[gaps.len() as int] == i);
        }
    }
}

/// Every slot between two neighbours in the list of the gaps is filled, and
/// so is every slot before the first gap and after the last.
pub proof fn lemma_filled_between_gaps<T>(gaps: Seq<usize>, slots: Seq<Option<T>>, k: int)
    requires
        lists_gaps(gaps, slots),
        0 <= k <= gaps.len(),
    ensures
        forall|i: int|
            (if k > 0 {
                gaps[k - 1] as int
            } else {
                -1
            }) < i < (if k < gaps.len() {
                gaps[k] as int
            } else {
                slots.len() as int
            }) ==> (#[trigger] slots[i]) is Some,
{
    assert forall|i: int|
        (if k > 0 {
            gaps[k - 1] as int
        } else {
            -1
        }) < i < (if k < gaps.len() {
            gaps[k] as int
        } else {
            slots.len() as int
        }) implies (#[trigger] slots[i]) is Some by {
        if slots[i] is None {
            let t = choose|t: int| 0 <= t < gaps.len() && #[trigger] gaps[t] == i;
            if t < k - 1 {
                assert(gaps[t] < gaps[k - 1]);
            }
            if t > k {
                assert(gaps[k] < gaps[t]);
            }
        }
    }
}

} // verus!
