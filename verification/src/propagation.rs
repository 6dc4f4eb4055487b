//! The second half of age inference: from the range of birthdates back into
//! the entries.

use vstd::prelude::*;
use crate::age::Age;
use crate::ageclass::AgeClass;
use crate::date::{lemma_later_born_is_no_older, Date};
use crate::range::{known_age, BirthDateRange};
use crate::store::{
    agree_on, all_indexed, entry_at, has_index, lemma_same_shape_same_indices, lemma_with_entry_keeps_shape,
    meet_at, same_shape, with_entry, AllMeetData, Entry, EntryIndex, MeetRecords,
};
use crate::trace::{Inferred, Trace, TraceEvent};

verus! {

/// What a range of birthdates implies for a lifter on one day.
#[derive(Copy, Clone, Debug, PartialEq, Eq, Structural)]
pub struct Implied {
    /// The age on that day.
    pub age: Age,
    /// The year of birth.
    pub birthyear: Option<u32>,
    /// The age class of the age on that day.
    pub class_via_age: AgeClass,
    /// The age class of the range of ages that the lifter may have on that
    /// day.
    pub class_via_range: AgeClass,
}

/// What `range` implies on `on_date`. The ages that the lifter may have
/// reach from the age of a lifter born on the last day of the range to the
/// age of one born on the first.
pub open spec fn implied_by(range: BirthDateRange, on_date: Date) -> Implied {
    Implied {
        age: range.spec_age_on(on_date),
        birthyear: range.spec_birthyear(),
        class_via_age: AgeClass::spec_from_age(range.spec_age_on(on_date)),
        class_via_range: AgeClass::spec_from_range(
            known_age(range.max.spec_age_on(on_date)),
            known_age(range.min.spec_age_on(on_date)),
        ),
    }
}

/// The age that an entry has once what is implied has been written into it:
/// the implied age, unless that is unknown or the entry's age is exact
/// already.
pub open spec fn written_age(entry: Entry, implied: Implied) -> Age {
    if implied.age != Age::Unknown && !(entry.age is Exact) {
        implied.age
    } else {
        entry.age
    }
}

/// The year of birth that an entry has once what is implied has been
/// written into it: the implied one, if there is one and the entry stated
/// none.
pub open spec fn written_birthyear(entry: Entry, implied: Implied) -> Option<u32> {
    if entry.birthyear is None && implied.birthyear is Some {
        implied.birthyear
    } else {
        entry.birthyear
    }
}

/// Whether the age class of an entry is assigned anew from the implied age:
/// it is unless the entry has an age class and an exact age.
pub open spec fn reclassifies(entry: Entry) -> bool {
    entry.ageclass == AgeClass::Unknown || !(entry.age is Exact)
}

/// The age class of an entry once the implied age has been taken into
/// account.
pub open spec fn class_after_age(entry: Entry, implied: Implied) -> AgeClass {
    if reclassifies(entry) {
        implied.class_via_age
    } else {
        entry.ageclass
    }
}

/// The age class that an entry has once what is implied has been written
/// into it. Where the age leaves it unknown, it is the class of the range
/// of ages.
pub open spec fn written_ageclass(entry: Entry, implied: Implied) -> AgeClass {
    if class_after_age(entry, implied) == AgeClass::Unknown {
        implied.class_via_range
    } else {
        class_after_age(entry, implied)
    }
}

/// An entry once what is implied has been written into it. Only its age, its
/// year of birth and its age class can change.
pub open spec fn written(entry: Entry, implied: Implied) -> Entry {
    Entry {
        age: written_age(entry, implied),
        birthyear: written_birthyear(entry, implied),
        ageclass: written_ageclass(entry, implied),
        ..entry
    }
}

/// The step for the age of an entry, if one was written.
pub open spec fn age_events(entry: Entry, implied: Implied, on_date: Date) -> Seq<TraceEvent> {
    if implied.age != Age::Unknown && !(entry.age is Exact) {
        seq![TraceEvent::Inferred { value: Inferred::Age(implied.age), date: on_date }]
    } else {
        Seq::empty()
    }
}

/// The step for the year of birth of an entry, if one was written.
pub open spec fn birthyear_events(entry: Entry, implied: Implied, on_date: Date) -> Seq<
    TraceEvent,
> {
    if entry.birthyear is None && implied.birthyear is Some {
        seq![
            TraceEvent::Inferred {
                value: Inferred::BirthYear(implied.birthyear.unwrap()),
                date: on_date,
            },
        ]
    } else {
        Seq::empty()
    }
}

/// The step for an age class that follows from the implied age.
pub open spec fn class_via_age_events(entry: Entry, implied: Implied, on_date: Date) -> Seq<
    TraceEvent,
> {
    if reclassifies(entry) && implied.class_via_age != AgeClass::Unknown {
        seq![
            TraceEvent::Inferred {
                value: Inferred::AgeClassViaAge(implied.class_via_age),
                date: on_date,
            },
        ]
    } else {
        Seq::empty()
    }
}

/// The step for an age class that follows from the range of ages.
pub open spec fn class_via_range_events(entry: Entry, implied: Implied, on_date: Date) -> Seq<
    TraceEvent,
> {
    if class_after_age(entry, implied) == AgeClass::Unknown && implied.class_via_range
        != AgeClass::Unknown {
        seq![
            TraceEvent::Inferred {
                value: Inferred::AgeClassViaRange(implied.class_via_range),
                date: on_date,
            },
        ]
    } else {
        Seq::empty()
    }
}

/// The steps of writing into one entry: one for each value written, in the
/// order age, year of birth, age class.
pub open spec fn written_events(entry: Entry, implied: Implied, on_date: Date) -> Seq<
    TraceEvent,
> {
    age_events(entry, implied, on_date) + birthyear_events(entry, implied, on_date)
        + class_via_age_events(entry, implied, on_date) + class_via_range_events(
        entry,
        implied,
        on_date,
    )
}

/// An entry after inference from `range`, where the entry's meet was held on
/// `on_date`.
pub open spec fn inferred_entry(range: BirthDateRange, on_date: Date, entry: Entry) -> Entry {
    written(entry, implied_by(range, on_date))
}

/// The steps of inference from `range` for one entry, where the entry's meet
/// was held on `on_date`.
pub open spec fn entry_events(range: BirthDateRange, on_date: Date, entry: Entry) -> Seq<
    TraceEvent,
> {
    written_events(entry, implied_by(range, on_date), on_date)
}

/// The store after inference from `range` for the entries that `indices`
/// names, in their order.
pub open spec fn inferred_store(
    store: Seq<MeetRecords>,
    indices: Seq<EntryIndex>,
    range: BirthDateRange,
) -> Seq<MeetRecords>
    decreases indices.len(),
{
    if indices.len() == 0 {
        store
    } else {
        let before = inferred_store(store, indices.drop_last(), range);
        with_entry(
            before,
            indices.last(),
            inferred_entry(
                range,
                meet_at(before, indices.last()).date,
                entry_at(before, indices.last()),
            ),
        )
    }
}

/// The steps of inference from `range` for the entries that `indices`
/// names, in their order.
pub open spec fn inference_events(
    store: Seq<MeetRecords>,
    indices: Seq<EntryIndex>,
    range: BirthDateRange,
) -> Seq<TraceEvent>
    decreases indices.len(),
{
    if indices.len() == 0 {
        Seq::empty()
    } else {
        let before = inferred_store(store, indices.drop_last(), range);
        inference_events(store, indices.drop_last(), range) + entry_events(
            range,
            meet_at(before, indices.last()).date,
            entry_at(before, indices.last()),
        )
    }
}

/// Inference keeps the shape of the store.
pub proof fn lemma_inference_keeps_shape(
    store: Seq<MeetRecords>,
    indices: Seq<EntryIndex>,
    range: BirthDateRange,
)
    requires
        all_indexed(store, indices),
    ensures
        same_shape(store, inferred_store(store, indices, range)),
    decreases indices.len(),
{
    if indices.len() > 0 {
        lemma_inference_keeps_shape(store, indices.drop_last(), range);
        let before = inferred_store(store, indices.drop_last(), range);
        assert(has_index(store, indices[indices.len() - 1]));
        lemma_with_entry_keeps_shape(
            before,
            indices.last(),
            inferred_entry(
                range,
                meet_at(before, indices.last()).date,
                entry_at(before, indices.last()),
            ),
        );
    }
}

/// Works out what `range` implies on `on_date`.
pub fn implied(range: &BirthDateRange, on_date: Date) -> (r: Implied)
    requires
        range.wf(),
    ensures
        r == implied_by(*range, on_date),
{
    let age = range.age_on(on_date);
    let youngest: Age = match range.max.age_on(on_date) {
        Ok(age) => age,
        Err(_) => Age::Unknown,
    };
    let oldest: Age = match range.min.age_on(on_date) {
        Ok(age) => age,
        Err(_) => Age::Unknown,
    };
    proof {
        lemma_later_born_is_no_older(range.min, range.max, on_date);
    }
    Implied {
        age,
        birthyear: range.birthyear(),
        class_via_age: AgeClass::from_age(age),
        class_via_range: AgeClass::from_range(youngest, oldest),
    }
}

/// Writes into one entry what is implied for it, where the entry's meet was
/// held on `on_date`. An exact age is never overwritten, and neither is a
/// year of birth. The age class is assigned anew unless the entry has one
/// and had an exact age.
pub fn write_implied(entry: &mut Entry, implied: Implied, on_date: Date, trace: &mut Trace)
    ensures
        *final(entry) == written(*old(entry), implied),
        Trace::extends(*old(trace), *final(trace), written_events(*old(entry), implied, on_date)),
{
    let ghost start = *trace;
    let entry_had_exact_age = entry.age.is_exact();

    // An exact age is never overwritten.
    match implied.age {
        Age::Unknown => {},
        _ => {
            if !entry.age.is_exact() {
                trace.record(
                    TraceEvent::Inferred { value: Inferred::Age(implied.age), date: on_date },
                );
                entry.age = implied.age;
            }
        },
    }
    let ghost after_age = *trace;
    assert(Trace::extends(start, after_age, age_events(*old(entry), implied, on_date))) by {
        assert(start.events@ + Seq::<TraceEvent>::empty() =~= start.events@);
    }

    if entry.birthyear.is_none() {
        if let Some(year) = implied.birthyear {
            trace.record(TraceEvent::Inferred { value: Inferred::BirthYear(year), date: on_date });
            entry.birthyear = implied.birthyear;
        }
    }
    let ghost after_birthyear = *trace;
    assert(Trace::extends(
        after_age,
        after_birthyear,
        birthyear_events(*old(entry), implied, on_date),
    )) by {
        assert(after_age.events@ + Seq::<TraceEvent>::empty() =~= after_age.events@);
    }

    // The age class that the entry came with may rest on an approximate age,
    // and then no longer be the best match.
    if entry.ageclass.is_unknown() || !entry_had_exact_age {
        entry.ageclass = implied.class_via_age;
        if !entry.ageclass.is_unknown() {
            trace.record(
                TraceEvent::Inferred {
                    value: Inferred::AgeClassViaAge(entry.ageclass),
                    date: on_date,
                },
            );
        }
    }
    let ghost after_class = *trace;
    assert(Trace::extends(
        after_birthyear,
        after_class,
        class_via_age_events(*old(entry), implied, on_date),
    )) by {
        assert(after_birthyear.events@ + Seq::<TraceEvent>::empty() =~= after_birthyear.events@);
    }

    // Without an age, the two ends of the range may still share a class.
    if entry.ageclass.is_unknown() {
        entry.ageclass = implied.class_via_range;
        if !entry.ageclass.is_unknown() {
            trace.record(
                TraceEvent::Inferred {
                    value: Inferred::AgeClassViaRange(entry.ageclass),
                    date: on_date,
                },
            );
        }
    }
    assert(Trace::extends(
        after_class,
        *trace,
        class_via_range_events(*old(entry), implied, on_date),
    )) by {
        assert(after_class.events@ + Seq::<TraceEvent>::empty() =~= after_class.events@);
    }
    proof {
        Trace::lemma_extends_twice(
            start,
            after_age,
            after_birthyear,
            age_events(*old(entry), implied, on_date),
            birthyear_events(*old(entry), implied, on_date),
        );
        Trace::lemma_extends_twice(
            start,
            after_birthyear,
            after_class,
            age_events(*old(entry), implied, on_date) + birthyear_events(
                *old(entry),
                implied,
                on_date,
            ),
            class_via_age_events(*old(entry), implied, on_date),
        );
        Trace::lemma_extends_twice(
            start,
            after_class,
            *trace,
            age_events(*old(entry), implied, on_date) + birthyear_events(
                *old(entry),
                implied,
                on_date,
            ) + class_via_age_events(*old(entry), implied, on_date),
            class_via_range_events(*old(entry), implied, on_date),
        );
    }
}

/// Writes into every entry that `indices` names the age that `range` implies
/// on the day of the entry's meet, with the year of birth and the age class
/// that follow. An age that was exact is left as it was.
pub fn infer_from_range(
    meetdata: &mut AllMeetData,
    indices: &[EntryIndex],
    range: BirthDateRange,
    trace: &mut Trace,
)
    requires
        all_indexed(old(meetdata)@, indices@),
        range.wf(),
    ensures
        final(meetdata)@ == inferred_store(old(meetdata)@, indices@, range),
        Trace::extends(
            *old(trace),
            *final(trace),
            inference_events(old(meetdata)@, indices@, range),
        ),
{
    let ghost store = meetdata@;
    proof {
        assert(old(trace).events@ + Seq::<TraceEvent>::empty() =~= old(trace).events@);
    }
    let mut i: usize = 0;
    while i < indices.len()
        invariant
            0 <= i <= indices.len(),
            range.wf(),
            all_indexed(store, indices@),
            meetdata@ == inferred_store(store, indices@.take(i as int), range),
            Trace::extends(
                *old(trace),
                *trace,
                inference_events(store, indices@.take(i as int), range),
            ),
        decreases indices.len() - i,
    {
        let index = indices[i];
        let ghost before = meetdata@;
        let ghost was = *trace;
        proof {
            assert(indices@.take(i + 1).drop_last() =~= indices@.take(i as int));
            assert(indices@.take(i + 1).last() == index);
            assert(all_indexed(store, indices@.take(i as int)));
            lemma_inference_keeps_shape(store, indices@.take(i as int), range);
            assert(has_index(before, index));
        }
        let mdate: Date = meetdata.get_meet(index).date;
        let implied = implied(&range, mdate);
        let entry = meetdata.get_entry_mut(index);
        write_implied(entry, implied, mdate, trace);
        proof {
            Trace::lemma_extends_twice(
                *old(trace),
                was,
                *trace,
                inference_events(store, indices@.take(i as int), range),
                entry_events(range, mdate, entry_at(before, index)),
            );
        }
        i += 1;
    }
    proof {
        assert(indices@.take(i as int) =~= indices@);
    }
}

/// What inference may make of an entry. The username, the birthdate and the
/// division stay. An age that was exact stays, and so does a year of birth
/// that was stated.
pub open spec fn carried_over(before: Entry, after: Entry) -> bool {
    &&& after.username == before.username
    &&& after.birthdate == before.birthdate
    &&& after.division_age_min == before.division_age_min
    &&& after.division_age_max == before.division_age_max
    &&& (before.age is Exact ==> after.age == before.age)
    &&& (before.birthyear is Some ==> after.birthyear == before.birthyear)
}

/// What inference may make of a store: the meets stay, and every entry is
/// carried over.
pub open spec fn respects(before: Seq<MeetRecords>, after: Seq<MeetRecords>) -> bool {
    &&& same_shape(before, after)
    &&& forall|index: EntryIndex|
        has_index(before, index) ==> carried_over(
            entry_at(before, index),
            #[trigger] entry_at(after, index),
        )
}

/// Every entry that none of the indices names is the same in both stores.
pub open spec fn others_untouched(
    before: Seq<MeetRecords>,
    after: Seq<MeetRecords>,
    indices: Seq<EntryIndex>,
) -> bool {
    forall|index: EntryIndex|
        has_index(before, index) && !indices.contains(index) ==> #[trigger] entry_at(after, index)
            == entry_at(before, index)
}

/// What has been carried over twice has been carried over.
pub proof fn lemma_respects_twice(
    first: Seq<MeetRecords>,
    second: Seq<MeetRecords>,
    third: Seq<MeetRecords>,
)
    requires
        respects(first, second),
        respects(second, third),
    ensures
        respects(first, third),
{
    lemma_same_shape_same_indices(first, second);
    assert forall|index: EntryIndex| has_index(first, index) implies carried_over(
        entry_at(first, index),
        #[trigger] entry_at(third, index),
    ) by {
        assert(carried_over(entry_at(first, index), entry_at(second, index)));
        assert(carried_over(entry_at(second, index), entry_at(third, index)));
    }
}

/// Inference from a range carries every entry over, and leaves alone the
/// entries that it was not asked to look at.
pub proof fn lemma_inference_respects(
    store: Seq<MeetRecords>,
    indices: Seq<EntryIndex>,
    range: BirthDateRange,
)
    requires
        all_indexed(store, indices),
    ensures
        respects(store, inferred_store(store, indices, range)),
        others_untouched(store, inferred_store(store, indices, range), indices),
    decreases indices.len(),
{
    if indices.len() > 0 {
        let earlier = indices.drop_last();
        let index = indices.last();
        let before = inferred_store(store, earlier, range);
        let entry = inferred_entry(range, meet_at(before, index).date, entry_at(before, index));
        let after = with_entry(before, index, entry);
        lemma_inference_respects(store, earlier, range);
        assert(has_index(store, indices[indices.len() - 1]));
        lemma_same_shape_same_indices(store, before);
        lemma_with_entry_keeps_shape(before, index, entry);
        assert(respects(before, after)) by {
            assert forall|other: EntryIndex| has_index(before, other) implies carried_over(
                entry_at(before, other),
                #[trigger] entry_at(after, other),
            ) by {
                if other != index {
                    assert(entry_at(after, other) == entry_at(before, other));
                }
            }
        }
        lemma_respects_twice(store, before, after);
        assert forall|other: EntryIndex|
            has_index(store, other) && !indices.contains(other) implies #[trigger] entry_at(
            after,
            other,
        ) == entry_at(store, other) by {
            assert(other != index);
            assert(!earlier.contains(other)) by {
                if earlier.contains(other) {
                    let k = choose|k: int| 0 <= k < earlier.len() && earlier[k] == other;
                    assert(indices[k] == other);
                }
            }
            assert(entry_at(before, other) == entry_at(store, other));
            assert(entry_at(after, other) == entry_at(before, other));
        }
    }
}

/// Inference looks at the named entries and at their meets only: in two
/// stores that hold the same entries at some indices, the named ones among
/// them, inference leaves the same entries at these indices.
pub proof fn lemma_inference_reads_own_entries(
    first: Seq<MeetRecords>,
    second: Seq<MeetRecords>,
    indices: Seq<EntryIndex>,
    range: BirthDateRange,
    watched: Seq<EntryIndex>,
)
    requires
        all_indexed(first, indices),
        all_indexed(first, watched),
        agree_on(first, second, watched),
        forall|k: int| 0 <= k < indices.len() ==> watched.contains(#[trigger] indices[k]),
    ensures
        agree_on(
            inferred_store(first, indices, range),
            inferred_store(second, indices, range),
            watched,
        ),
    decreases indices.len(),
{
    if indices.len() > 0 {
        let earlier = indices.drop_last();
        let index = indices.last();
        assert(all_indexed(first, earlier)) by {
            assert forall|i: int| 0 <= i < earlier.len() implies has_index(
                first,
                #[trigger] earlier[i],
            ) by {
                assert(has_index(first, indices[i]));
            }
        }
        assert forall|k: int| 0 <= k < earlier.len() implies watched.contains(
            #[trigger] earlier[k],
        ) by {
            assert(watched.contains(indices[k]));
        }
        lemma_inference_reads_own_entries(first, second, earlier, range, watched);
        let before_first = inferred_store(first, earlier, range);
        let before_second = inferred_store(second, earlier, range);
        assert(has_index(first, indices[indices.len() - 1]));
        assert(watched.contains(indices[indices.len() - 1]));
        let at = choose|k: int| 0 <= k < watched.len() && watched[k] == index;
        assert(entry_at(before_first, watched[at]) == entry_at(before_second, watched[at]));
        lemma_same_shape_same_indices(first, second);
        assert(all_indexed(second, earlier));
        lemma_inference_keeps_shape(first, earlier, range);
        lemma_inference_keeps_shape(second, earlier, range);
        lemma_same_shape_same_indices(first, before_first);
        lemma_same_shape_same_indices(second, before_second);
        let entry = inferred_entry(
            range,
            meet_at(before_first, index).date,
            entry_at(before_first, index),
        );
        assert(meet_at(before_first, index) == meet_at(before_second, index));
        let after_first = with_entry(before_first, index, entry);
        let after_second = with_entry(before_second, index, entry);
        lemma_with_entry_keeps_shape(before_first, index, entry);
        lemma_with_entry_keeps_shape(before_second, index, entry);
        assert forall|k: int| 0 <= k < watched.len() implies entry_at(
            after_first,
            #[trigger] watched[k],
        ) == entry_at(after_second, watched[k]) by {
            assert(has_index(first, watched[k]));
            if watched[k] != index {
                assert(entry_at(after_first, watched[k]) == entry_at(before_first, watched[k]));
                assert(entry_at(after_second, watched[k]) == entry_at(before_second, watched[k]));
            }
        }
    }
}

} // verus!
