//! Lifters do not get in each other's way.
//!
//! Age inference for one lifter reads and writes the entries of that lifter
//! only. So where no entry belongs to two lifters, each lifter's entries
//! come out as if that lifter alone had been looked at, and the order in
//! which the lifters are taken is immaterial.

use vstd::prelude::*;
use crate::derivation::{derived_range, lemma_derivation_reads_own_entries};
use crate::inference::{interpolated, interpolated_all, lemma_interpolation_respects};
use crate::lifters::{all_fit, apart, Lifter};
use crate::propagation::{lemma_inference_reads_own_entries, others_untouched, respects};
use crate::range::BirthDateRange;
use crate::store::{
    agree_on, all_indexed, entry_at, has_index, indexable, lemma_same_shape_chain,
    lemma_same_shape_same_indices, same_shape, EntryIndex, MeetRecords,
};

verus! {

/// The entry belongs to a lifter whose ages inference looks at: one with two
/// entries or more.
pub open spec fn looked_at(lifters: Seq<Lifter>, index: EntryIndex) -> bool {
    exists|i: int, k: int|
        0 <= i < lifters.len() && lifters[i].indices.len() >= 2 && 0 <= k
            < lifters[i].indices.len() && #[trigger] lifters[i].indices[k] == index
}

/// Age inference for one lifter looks at that lifter's entries and at their
/// meets only: in two stores that hold the same entries for the lifter, it
/// leaves the same entries for the lifter.
pub proof fn lemma_interpolation_reads_own_entries(
    first: Seq<MeetRecords>,
    second: Seq<MeetRecords>,
    indices: Seq<EntryIndex>,
)
    requires
        all_indexed(first, indices),
        agree_on(first, second, indices),
    ensures
        agree_on(interpolated(first, indices), interpolated(second, indices), indices),
{
    lemma_derivation_reads_own_entries(first, second, indices);
    if derived_range(first, indices) != BirthDateRange::unconstrained() {
        assert forall|k: int| 0 <= k < indices.len() implies indices.contains(
            #[trigger] indices[k],
        ) by {}
        lemma_inference_reads_own_entries(
            first,
            second,
            indices,
            derived_range(first, indices),
            indices,
        );
    }
}

/// Every lifter but the last is a lifter of the whole sequence.
proof fn lemma_drop_last_fits(lifters: Seq<Lifter>, store: Seq<MeetRecords>)
    requires
        lifters.len() > 0,
        all_fit(lifters, store),
        apart(lifters),
    ensures
        all_fit(lifters.drop_last(), store),
        apart(lifters.drop_last()),
        all_indexed(store, lifters.last().indices),
{
    let rest = lifters.drop_last();
    assert forall|i: int, k: int| 0 <= i < rest.len() && 0 <= k < rest[i].indices.len() implies has_index(
        store,
        #[trigger] rest[i].indices[k],
    ) by {
        assert(has_index(store, lifters[i].indices[k]));
    }
    assert forall|i: int, j: int, k: int, l: int|
        0 <= i < rest.len() && 0 <= j < rest.len() && i != j && 0 <= k < rest[i].indices.len()
            && 0 <= l < rest[j].indices.len() implies #[trigger] rest[i].indices[k]
        != #[trigger] rest[j].indices[l] by {
        assert(lifters[i].indices[k] != lifters[j].indices[l]);
    }
    assert forall|k: int| 0 <= k < lifters.last().indices.len() implies has_index(
        store,
        #[trigger] lifters.last().indices[k],
    ) by {
        assert(has_index(store, lifters[lifters.len() - 1].indices[k]));
    }
}

/// Where no entry belongs to two lifters, age inference for all lifters
/// leaves each lifter's entries as inference for that lifter alone would
/// leave them, and leaves alone every entry that belongs to no lifter with
/// two entries or more.
pub proof fn lemma_lifters_are_independent(store: Seq<MeetRecords>, lifters: Seq<Lifter>)
    requires
        all_fit(lifters, store),
        apart(lifters),
    ensures
        same_shape(store, interpolated_all(store, lifters)),
        forall|i: int|
            0 <= i < lifters.len() && lifters[i].indices.len() >= 2 ==> agree_on(
                interpolated_all(store, lifters),
                interpolated(store, (#[trigger] lifters[i]).indices),
                lifters[i].indices,
            ),
        forall|index: EntryIndex|
            has_index(store, index) && !looked_at(lifters, index) ==> #[trigger] entry_at(
                interpolated_all(store, lifters),
                index,
            ) == entry_at(store, index),
    decreases lifters.len(),
{
    if lifters.len() > 0 {
        let rest = lifters.drop_last();
        let last = lifters.last();
        let before = interpolated_all(store, rest);
        let after = interpolated_all(store, lifters);
        lemma_drop_last_fits(lifters, store);
        lemma_lifters_are_independent(store, rest);
        lemma_same_shape_same_indices(store, before);
        lemma_interpolation_respects(before, last.indices);
        lemma_interpolation_respects(store, last.indices);
        lemma_same_shape_chain(before, before, before);
        assert(same_shape(before, after));
        lemma_same_shape_chain(before, after, after);
        lemma_same_shape_chain(store, before, after);
        lemma_same_shape_same_indices(before, after);

        // What the earlier lifters left of the entries of the last one.
        assert(agree_on(before, store, last.indices)) by {
            assert forall|k: int| 0 <= k < last.indices.len() implies entry_at(
                before,
                #[trigger] last.indices[k],
            ) == entry_at(store, last.indices[k]) by {
                let index = last.indices[k];
                if looked_at(rest, index) {
                    let (i, l) = choose|i: int, l: int|
                        0 <= i < rest.len() && rest[i].indices.len() >= 2 && 0 <= l
                            < rest[i].indices.len() && #[trigger] rest[i].indices[l] == index;
                    assert(lifters[i].indices[l] != lifters[lifters.len() - 1].indices[k]);
                }
            }
        }

        assert forall|i: int| 0 <= i < lifters.len() && lifters[i].indices.len() >= 2 implies agree_on(
            after,
            interpolated(store, (#[trigger] lifters[i]).indices),
            lifters[i].indices,
        ) by {
            let own = lifters[i].indices;
            let alone = interpolated(store, own);
            if i == lifters.len() - 1 {
                assert(own == last.indices);
                assert(all_indexed(before, own));
                lemma_interpolation_reads_own_entries(before, store, own);
                assert(after == interpolated(before, own));
            } else {
                assert(rest[i] == lifters[i]);
                assert(agree_on(before, alone, own));
                lemma_same_shape_chain(after, before, alone);
                if last.indices.len() >= 2 {
                    assert forall|k: int| 0 <= k < own.len() implies entry_at(
                        after,
                        #[trigger] own[k],
                    ) == entry_at(alone, own[k]) by {
                        assert(has_index(store, lifters[i].indices[k]));
                        assert(!last.indices.contains(own[k])) by {
                            if last.indices.contains(own[k]) {
                                let l = choose|l: int|
                                    0 <= l < last.indices.len() && last.indices[l] == own[k];
                                assert(lifters[i].indices[k] != lifters[lifters.len()
                                    - 1].indices[l]);
                            }
                        }
                        assert(entry_at(after, own[k]) == entry_at(before, own[k]));
                    }
                }
            }
        }

        assert forall|index: EntryIndex|
            has_index(store, index) && !looked_at(lifters, index) implies #[trigger] entry_at(
            after,
            index,
        ) == entry_at(store, index) by {
            assert(!looked_at(rest, index)) by {
                if looked_at(rest, index) {
                    let (i, l) = choose|i: int, l: int|
                        0 <= i < rest.len() && rest[i].indices.len() >= 2 && 0 <= l
                            < rest[i].indices.len() && #[trigger] rest[i].indices[l] == index;
                    assert(lifters[i].indices[l] == index);
                }
            }
            assert(entry_at(before, index) == entry_at(store, index));
            if last.indices.len() >= 2 {
                assert(!last.indices.contains(index)) by {
                    if last.indices.contains(index) {
                        let l = choose|l: int|
                            0 <= l < last.indices.len() && last.indices[l] == index;
                        assert(lifters[lifters.len() - 1].indices[l] == index);
                    }
                }
                assert(entry_at(after, index) == entry_at(before, index));
            }
        }
    }
}

/// Where no entry belongs to two lifters, the order in which the lifters are
/// taken is immaterial: two sequences of the same lifters leave the same
/// store.
pub proof fn lemma_order_of_lifters_is_immaterial(
    store: Seq<MeetRecords>,
    first: Seq<Lifter>,
    second: Seq<Lifter>,
)
    requires
        indexable(store),
        all_fit(first, store),
        all_fit(second, store),
        apart(first),
        apart(second),
        forall|lifter: Lifter| first.contains(lifter) <==> second.contains(lifter),
    ensures
        interpolated_all(store, first) == interpolated_all(store, second),
{
    let one = interpolated_all(store, first);
    let other = interpolated_all(store, second);
    lemma_lifters_are_independent(store, first);
    lemma_lifters_are_independent(store, second);
    lemma_same_shape_chain(one, store, other);
    assert forall|index: EntryIndex| has_index(store, index) implies entry_at(one, index)
        == entry_at(other, index) by {
        if looked_at(first, index) {
            let (i, k) = choose|i: int, k: int|
                0 <= i < first.len() && first[i].indices.len() >= 2 && 0 <= k
                    < first[i].indices.len() && #[trigger] first[i].indices[k] == index;
            assert(first.contains(first[i]));
            assert(second.contains(first[i]));
            let j = choose|j: int| 0 <= j < second.len() && second[j] == first[i];
            let alone = interpolated(store, first[i].indices);
            assert(agree_on(one, alone, first[i].indices));
            assert(agree_on(other, alone, second[j].indices));
            assert(entry_at(one, first[i].indices[k]) == entry_at(alone, first[i].indices[k]));
            assert(entry_at(other, second[j].indices[k]) == entry_at(alone, second[j].indices[k]));
        } else {
            assert(!looked_at(second, index)) by {
                if looked_at(second, index) {
                    let (j, k) = choose|j: int, k: int|
                        0 <= j < second.len() && second[j].indices.len() >= 2 && 0 <= k
                            < second[j].indices.len() && #[trigger] second[j].indices[k] == index;
                    assert(second.contains(second[j]));
                    assert(first.contains(second[j]));
                    let i = choose|i: int| 0 <= i < first.len() && first[i] == second[j];
                    assert(first[i].indices[k] == index);
                }
            }
            assert(entry_at(one, index) == entry_at(store, index));
            assert(entry_at(other, index) == entry_at(store, index));
        }
    }
    assert forall|m: int| 0 <= m < one.len() implies one[m] == other[m] by {
        assert(one[m].meet == store[m].meet);
        assert(other[m].meet == store[m].meet);
        assert(one[m].entries.len() == store[m].entries.len());
        assert(other[m].entries.len() == store[m].entries.len());
        assert forall|e: int| 0 <= e < one[m].entries.len() implies one[m].entries[e]
            == other[m].entries[e] by {
            let index = EntryIndex { meetdata_index: m as usize, entries_index: e as usize };
            assert(has_index(store, index));
            assert(entry_at(one, index) == entry_at(other, index));
        }
        assert(one[m].entries =~= other[m].entries);
    }
    assert(one =~= other);
}

} // verus!
