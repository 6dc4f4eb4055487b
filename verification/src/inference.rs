//! Infers the age of a lifter from what the lifter's entries say together.
//!
//! The entries of one lifter are read in turn. Each fact in them narrows the
//! range of possible birthdates. If the facts agree, the ages that the range
//! implies are written back into every entry of the lifter. If two facts
//! contradict each other, nothing is written at all.

use vstd::prelude::*;
use crate::derivation::{derivation, derivation_events, derived_range, get_birthdate_range};
use crate::independence::lemma_lifters_are_independent;
use crate::lifters::{all_fit, apart, lemma_slot_of, slot_of, Lifter, LifterMap};
use crate::propagation::{
    infer_from_range, inference_events, inferred_store, lemma_inference_respects,
    lemma_respects_twice, others_untouched, respects,
};
use crate::range::BirthDateRange;
use crate::store::{
    agree_on, all_indexed, has_index, lemma_same_shape_same_indices, same_shape, AllMeetData,
    EntryIndex, MeetRecords,
};
use crate::trace::{Trace, TraceEvent};

verus! {

/// The store after age inference for one lifter, whose entries `indices`
/// names. Where the entries leave the range of birthdates unconstrained,
/// because they state nothing or because they contradict each other, the
/// store stays as it is.
pub open spec fn interpolated(store: Seq<MeetRecords>, indices: Seq<EntryIndex>) -> Seq<
    MeetRecords,
> {
    if derived_range(store, indices) != BirthDateRange::unconstrained() {
        inferred_store(store, indices, derived_range(store, indices))
    } else {
        store
    }
}

/// The steps of age inference for one lifter: those of the derivation of the
/// range, then those of the inference from it, if there is any.
pub open spec fn interpolation_events(store: Seq<MeetRecords>, indices: Seq<EntryIndex>) -> Seq<
    TraceEvent,
> {
    if derived_range(store, indices) != BirthDateRange::unconstrained() {
        derivation_events(store, indices) + inference_events(
            store,
            indices,
            derived_range(store, indices),
        )
    } else {
        derivation_events(store, indices)
    }
}

/// Age inference for one lifter carries every entry over, and leaves alone
/// the entries of other lifters. If two facts of the lifter contradict each
/// other, it leaves the whole store alone.
pub proof fn lemma_interpolation_respects(store: Seq<MeetRecords>, indices: Seq<EntryIndex>)
    requires
        all_indexed(store, indices),
    ensures
        respects(store, interpolated(store, indices)),
        others_untouched(store, interpolated(store, indices), indices),
        derivation(store, indices).conflict ==> interpolated(store, indices) == store,
{
    if derived_range(store, indices) != BirthDateRange::unconstrained() {
        lemma_inference_respects(store, indices, derived_range(store, indices));
    }
}

/// Infers the ages of one lifter, whose entries `indices` names: derives the
/// range of birthdates that agrees with all of them, and writes what it
/// implies into each. Where the entries contradict each other, or state
/// nothing, the store is left as it is.
pub fn interpolate_age_single_lifter(
    meetdata: &mut AllMeetData,
    indices: &[EntryIndex],
    trace: &mut Trace,
)
    requires
        all_indexed(old(meetdata)@, indices@),
    ensures
        final(meetdata)@ == interpolated(old(meetdata)@, indices@),
        Trace::extends(
            *old(trace),
            *final(trace),
            interpolation_events(old(meetdata)@, indices@),
        ),
        respects(old(meetdata)@, final(meetdata)@),
        others_untouched(old(meetdata)@, final(meetdata)@, indices@),
        derivation(old(meetdata)@, indices@).conflict ==> final(meetdata)@ == old(meetdata)@,
{
    let ghost start = *trace;
    proof {
        lemma_interpolation_respects(meetdata@, indices@);
    }
    let range = get_birthdate_range(meetdata, indices, trace);
    let ghost derived = *trace;
    if !range.is_unconstrained() {
        infer_from_range(meetdata, indices, range, trace);
        proof {
            Trace::lemma_extends_twice(
                start,
                derived,
                *trace,
                derivation_events(old(meetdata)@, indices@),
                inference_events(old(meetdata)@, indices@, range),
            );
        }
    }
}

/// The store after age inference for every lifter that has two entries or
/// more, one lifter after the other.
pub open spec fn interpolated_all(store: Seq<MeetRecords>, lifters: Seq<Lifter>) -> Seq<
    MeetRecords,
>
    decreases lifters.len(),
{
    if lifters.len() == 0 {
        store
    } else if lifters.last().indices.len() >= 2 {
        interpolated(interpolated_all(store, lifters.drop_last()), lifters.last().indices)
    } else {
        interpolated_all(store, lifters.drop_last())
    }
}

/// Age inference for all lifters carries every entry over.
pub proof fn lemma_interpolation_of_all_respects(store: Seq<MeetRecords>, lifters: Seq<Lifter>)
    requires
        all_fit(lifters, store),
    ensures
        respects(store, interpolated_all(store, lifters)),
    decreases lifters.len(),
{
    if lifters.len() > 0 {
        let before = interpolated_all(store, lifters.drop_last());
        assert(all_fit(lifters.drop_last(), store)) by {
            assert forall|i: int, k: int|
                0 <= i < lifters.drop_last().len() && 0 <= k < lifters.drop_last()[i].indices.len() implies has_index(
                store,
                #[trigger] lifters.drop_last()[i].indices[k],
            ) by {
                assert(has_index(store, lifters[i].indices[k]));
            }
        }
        lemma_interpolation_of_all_respects(store, lifters.drop_last());
        if lifters.last().indices.len() >= 2 {
            let indices = lifters.last().indices;
            assert(all_indexed(store, indices)) by {
                assert forall|k: int| 0 <= k < indices.len() implies has_index(
                    store,
                    #[trigger] indices[k],
                ) by {
                    assert(has_index(store, lifters[lifters.len() - 1].indices[k]));
                }
            }
            lemma_same_shape_same_indices(store, before);
            lemma_interpolation_respects(before, indices);
            lemma_respects_twice(store, before, interpolated(before, indices));
        }
    }
}

/// Infers the ages of every lifter that has two entries or more. A lifter
/// with one entry has nothing to combine, and is left alone.
///
/// The lifters are taken in the order of the index. Where no entry belongs
/// to two lifters, as in the index of a store, the order is immaterial: the
/// entries of each lifter come out as if that lifter alone had been looked
/// at.
pub fn interpolate_age(meetdata: &mut AllMeetData, liftermap: &LifterMap)
    requires
        liftermap.spec_fits(old(meetdata)@),
    ensures
        final(meetdata)@ == interpolated_all(old(meetdata)@, liftermap.lifters()),
        respects(old(meetdata)@, final(meetdata)@),
        apart(liftermap.lifters()) ==> forall|i: int|
            0 <= i < liftermap.lifters().len() && liftermap.lifters()[i].indices.len() >= 2
                ==> agree_on(
                final(meetdata)@,
                interpolated(old(meetdata)@, (#[trigger] liftermap.lifters()[i]).indices),
                liftermap.lifters()[i].indices,
            ),
{
    let ghost store = meetdata@;
    let ghost lifters = liftermap.lifters();
    let mut trace = Trace::off();
    proof {
        lemma_interpolation_of_all_respects(store, lifters);
        if apart(lifters) {
            lemma_lifters_are_independent(store, lifters);
        }
    }
    let mut i: usize = 0;
    while i < liftermap.len()
        invariant
            0 <= i <= lifters.len(),
            lifters == liftermap.lifters(),
            all_fit(lifters, store),
            meetdata@ == interpolated_all(store, lifters.take(i as int)),
            same_shape(store, meetdata@),
        decreases lifters.len() - i,
    {
        let indices = liftermap.lifter(i).indices.as_slice();
        proof {
            assert(lifters.take(i + 1).drop_last() =~= lifters.take(i as int));
            assert(lifters.take(i + 1).last() == lifters[i as int]);
            assert(all_indexed(store, indices@)) by {
                assert forall|k: int| 0 <= k < indices@.len() implies has_index(
                    store,
                    #[trigger] indices@[k],
                ) by {
                    assert(has_index(store, lifters[i as int].indices[k]));
                }
            }
            lemma_same_shape_same_indices(store, meetdata@);
        }
        // Inference needs two entries at least.
        if indices.len() >= 2 {
            let ghost before = meetdata@;
            interpolate_age_single_lifter(meetdata, indices, &mut trace);
            proof {
                lemma_same_shape_same_indices(before, meetdata@);
                assert(same_shape(store, meetdata@));
            }
        }
        i += 1;
    }
    proof {
        assert(lifters.take(i as int) =~= lifters);
    }
}

/// Infers the ages of the lifter with the given username and returns the
/// steps taken, or returns `None` if the index knows no such lifter. The
/// store is changed exactly as it is without the steps being asked for: a
/// lifter with one entry has nothing to combine, so no step is taken and the
/// store is left as it is.
pub fn interpolate_age_debug_for(
    meetdata: &mut AllMeetData,
    liftermap: &LifterMap,
    username: &str,
) -> (steps: Option<Vec<TraceEvent>>)
    requires
        liftermap.spec_fits(old(meetdata)@),
    ensures
        match slot_of(liftermap.lifters(), username@) {
            Some(slot) => if liftermap.lifters()[slot].indices.len() >= 2 {
                steps is Some && steps.unwrap()@ == interpolation_events(
                    old(meetdata)@,
                    liftermap.lifters()[slot].indices,
                ) && final(meetdata)@ == interpolated(
                    old(meetdata)@,
                    liftermap.lifters()[slot].indices,
                )
            } else {
                steps is Some && steps.unwrap()@ == Seq::<TraceEvent>::empty()
                    && final(meetdata)@ == old(meetdata)@
            },
            None => steps is None && final(meetdata)@ == old(meetdata)@,
        },
        respects(old(meetdata)@, final(meetdata)@),
{
    proof {
        lemma_slot_of(liftermap.lifters(), username@);
        assert(same_shape(meetdata@, meetdata@));
    }
    match liftermap.get(username) {
        Some(indices) => {
            let ghost slot = slot_of(liftermap.lifters(), username@).unwrap();
            let mut trace = Trace::on();
            // Inference needs two entries at least.
            if indices.len() >= 2 {
                proof {
                    assert(all_indexed(meetdata@, indices@)) by {
                        assert forall|k: int| 0 <= k < indices@.len() implies has_index(
                            meetdata@,
                            #[trigger] indices@[k],
                        ) by {
                            assert(has_index(meetdata@, liftermap.lifters()[slot].indices[k]));
                        }
                    }
                }
                interpolate_age_single_lifter(meetdata, indices.as_slice(), &mut trace);
                proof {
                    assert(trace.events@ =~= interpolation_events(old(meetdata)@, indices@));
                }
            }
            Some(trace.events)
        },
        None => None,
    }
}

} // verus!
