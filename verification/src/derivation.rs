//! The first half of age inference: from the facts of a lifter's entries to
//! the range of birthdates that agrees with all of them.

use vstd::prelude::*;
use crate::age::Age;
use crate::date::Date;
use crate::range::{BirthDateRange, NarrowResult};
use crate::store::{
    agree_on, all_indexed, entry_at, has_index, meet_at, AllMeetData, Entry, EntryIndex,
    MeetRecords,
};
use crate::trace::{Fact, Trace, TraceEvent};

verus! {

/// How far the derivation of a range has come.
pub struct Derivation {
    /// The range that the facts so far have left.
    pub range: BirthDateRange,
    /// Whether a fact contradicted the range. No later fact is looked at.
    pub conflict: bool,
    /// The steps so far.
    pub events: Seq<TraceEvent>,
}

/// What a fact makes of a range, given the day of the meet at which it was
/// recorded: the narrowed range, or `None` if it contradicts the range.
#[verifier::opaque]
pub open spec fn narrowed_by(range: BirthDateRange, fact: Fact, on_date: Date) -> Option<
    BirthDateRange,
> {
    match fact {
        Fact::BirthDate(birthdate) => range.spec_narrow_by_birthdate(birthdate),
        Fact::BirthYear(birthyear) => range.spec_narrow_by_birthyear(birthyear),
        Fact::Age(age) => range.spec_narrow_by_age(age, on_date),
        Fact::Division { min, max } => range.spec_narrow_by_division(min, max, on_date),
    }
}

/// The step that is recorded when a fact is held against a range. A conflict
/// is recorded with the age that the range implies on the day of the meet.
pub open spec fn step_event(range: BirthDateRange, fact: Fact, index: EntryIndex, on_date: Date)
    -> TraceEvent {
    match narrowed_by(range, fact, on_date) {
        Some(narrowed) => TraceEvent::Narrowed { range: narrowed, fact, index },
        None => TraceEvent::Conflict { fact, index, expected: range.spec_age_on(on_date) },
    }
}

/// The derivation after one more fact. After a conflict nothing changes.
pub open spec fn held(d: Derivation, fact: Fact, index: EntryIndex, on_date: Date) -> Derivation {
    if d.conflict {
        d
    } else {
        Derivation {
            range: match narrowed_by(d.range, fact, on_date) {
                Some(narrowed) => narrowed,
                None => d.range,
            },
            conflict: narrowed_by(d.range, fact, on_date) is None,
            events: d.events.push(step_event(d.range, fact, index, on_date)),
        }
    }
}

/// The derivation after the birthdate of an entry, if it states one.
pub open spec fn held_birthdate(d: Derivation, entry: Entry, index: EntryIndex, on_date: Date)
    -> Derivation {
    match entry.birthdate {
        Some(birthdate) => held(d, Fact::BirthDate(birthdate), index, on_date),
        None => d,
    }
}

/// The derivation after the year of birth of an entry, if it states one.
pub open spec fn held_birthyear(d: Derivation, entry: Entry, index: EntryIndex, on_date: Date)
    -> Derivation {
    match entry.birthyear {
        Some(birthyear) => held(d, Fact::BirthYear(birthyear), index, on_date),
        None => d,
    }
}

/// The derivation after the age of an entry, if it states one.
pub open spec fn held_age(d: Derivation, entry: Entry, index: EntryIndex, on_date: Date)
    -> Derivation {
    if entry.age != Age::Unknown {
        held(d, Fact::Age(entry.age), index, on_date)
    } else {
        d
    }
}

/// The derivation after the division of an entry, if that admits only some
/// ages.
pub open spec fn held_division(d: Derivation, entry: Entry, index: EntryIndex, on_date: Date)
    -> Derivation {
    if entry.division_age_min != Age::Unknown || entry.division_age_max != Age::Unknown {
        held(
            d,
            Fact::Division { min: entry.division_age_min, max: entry.division_age_max },
            index,
            on_date,
        )
    } else {
        d
    }
}

/// The derivation after all facts of one entry: its birthdate, its year of
/// birth, its age and its division, in this order.
pub open spec fn held_entry(d: Derivation, entry: Entry, index: EntryIndex, on_date: Date)
    -> Derivation {
    held_division(
        held_age(
            held_birthyear(held_birthdate(d, entry, index, on_date), entry, index, on_date),
            entry,
            index,
            on_date,
        ),
        entry,
        index,
        on_date,
    )
}

/// The derivation over the entries that `indices` names, in their order,
/// starting from the unconstrained range.
pub open spec fn derivation(store: Seq<MeetRecords>, indices: Seq<EntryIndex>) -> Derivation
    decreases indices.len(),
{
    if indices.len() == 0 {
        Derivation {
            range: BirthDateRange::unconstrained(),
            conflict: false,
            events: Seq::empty(),
        }
    } else {
        held_entry(
            derivation(store, indices.drop_last()),
            entry_at(store, indices.last()),
            indices.last(),
            meet_at(store, indices.last()).date,
        )
    }
}

/// The range of birthdates that agrees with all entries that `indices`
/// names, or the unconstrained range if two of their facts contradict each
/// other.
pub open spec fn derived_range(store: Seq<MeetRecords>, indices: Seq<EntryIndex>) -> BirthDateRange {
    if derivation(store, indices).conflict {
        BirthDateRange::unconstrained()
    } else {
        derivation(store, indices).range
    }
}

/// The steps of the derivation: one for each fact up to the first conflict,
/// and the final range if there was none.
pub open spec fn derivation_events(store: Seq<MeetRecords>, indices: Seq<EntryIndex>) -> Seq<
    TraceEvent,
> {
    if derivation(store, indices).conflict {
        derivation(store, indices).events
    } else {
        derivation(store, indices).events.push(
            TraceEvent::FinalRange { range: derivation(store, indices).range },
        )
    }
}

/// After a conflict, further entries change nothing.
pub proof fn lemma_conflict_is_final(store: Seq<MeetRecords>, indices: Seq<EntryIndex>, n: int)
    requires
        0 <= n <= indices.len(),
        derivation(store, indices.take(n)).conflict,
    ensures
        derivation(store, indices) == derivation(store, indices.take(n)),
    decreases indices.len() - n,
{
    if n == indices.len() {
        assert(indices.take(n) =~= indices);
    } else {
        assert(indices.take(n + 1).drop_last() =~= indices.take(n));
        lemma_conflict_is_final(store, indices, n + 1);
    }
}

/// The derivation looks at the named entries and at their meets only: two
/// stores that hold the same entries there give the same derivation.
pub proof fn lemma_derivation_reads_own_entries(
    first: Seq<MeetRecords>,
    second: Seq<MeetRecords>,
    indices: Seq<EntryIndex>,
)
    requires
        all_indexed(first, indices),
        agree_on(first, second, indices),
    ensures
        derivation(first, indices) == derivation(second, indices),
    decreases indices.len(),
{
    if indices.len() > 0 {
        let earlier = indices.drop_last();
        assert(all_indexed(first, earlier)) by {
            assert forall|i: int| 0 <= i < earlier.len() implies has_index(
                first,
                #[trigger] earlier[i],
            ) by {
                assert(has_index(first, indices[i]));
            }
        }
        assert(agree_on(first, second, earlier)) by {
            assert forall|k: int| 0 <= k < earlier.len() implies entry_at(
                first,
                #[trigger] earlier[k],
            ) == entry_at(second, earlier[k]) by {
                assert(entry_at(first, indices[k]) == entry_at(second, indices[k]));
            }
        }
        lemma_derivation_reads_own_entries(first, second, earlier);
        assert(has_index(first, indices[indices.len() - 1]));
        assert(entry_at(first, indices[indices.len() - 1]) == entry_at(
            second,
            indices[indices.len() - 1],
        ));
    }
}

/// Holds one fact against the range and offers the step to the trace.
/// Returns whether the fact contradicts the range. The trace began as
/// `start`, and `d` is the derivation so far.
fn hold(
    range: &mut BirthDateRange,
    fact: Fact,
    index: EntryIndex,
    on_date: Date,
    trace: &mut Trace,
    Ghost(start): Ghost<Trace>,
    Ghost(d): Ghost<Derivation>,
) -> (conflict: bool)
    requires
        !d.conflict,
        *old(range) == d.range,
        Trace::extends(start, *old(trace), d.events),
    ensures
        old(range).wf() ==> final(range).wf(),
        conflict == held(d, fact, index, on_date).conflict,
        *final(range) == held(d, fact, index, on_date).range,
        Trace::extends(start, *final(trace), held(d, fact, index, on_date).events),
{
    reveal(narrowed_by);
    let result = match fact {
        Fact::BirthDate(birthdate) => range.narrow_by_birthdate(birthdate),
        Fact::BirthYear(birthyear) => range.narrow_by_birthyear(birthyear),
        Fact::Age(age) => range.narrow_by_age(age, on_date),
        Fact::Division { min, max } => range.narrow_by_division(min, max, on_date),
    };
    let ghost was = *trace;
    let conflict = match result {
        NarrowResult::Integrated => {
            trace.record(TraceEvent::Narrowed { range: *range, fact, index });
            false
        },
        NarrowResult::Conflict => {
            let expected = range.age_on(on_date);
            trace.record(TraceEvent::Conflict { fact, index, expected });
            true
        },
    };
    proof {
        let step = seq![step_event(d.range, fact, index, on_date)];
        Trace::lemma_extends_twice(start, was, *trace, d.events, step);
        assert(d.events + step =~= held(d, fact, index, on_date).events);
    }
    conflict
}

/// Determines the range of birthdates that agrees with all the entries that
/// `indices` names, holding their facts against the unconstrained range one
/// after the other. At the first fact that contradicts what the earlier ones
/// left, the derivation ends, and the unconstrained range is returned.
pub fn get_birthdate_range(
    meetdata: &AllMeetData,
    indices: &[EntryIndex],
    trace: &mut Trace,
) -> (range: BirthDateRange)
    requires
        all_indexed(meetdata@, indices@),
    ensures
        range == derived_range(meetdata@, indices@),
        range.wf(),
        Trace::extends(*old(trace), *final(trace), derivation_events(meetdata@, indices@)),
{
    let mut range = BirthDateRange::default();
    let ghost store = meetdata@;
    let ghost start = *trace;
    let ghost mut d = derivation(store, indices@.take(0));
    proof {
        assert(start.events@ + d.events =~= start.events@);
    }
    let mut i: usize = 0;
    while i < indices.len()
        invariant
            0 <= i <= indices.len(),
            store == meetdata@,
            start == *old(trace),
            all_indexed(store, indices@),
            d == derivation(store, indices@.take(i as int)),
            !d.conflict,
            range == d.range,
            range.wf(),
            Trace::extends(start, *trace, d.events),
        decreases indices.len() - i,
    {
        let index = indices[i];
        let mdate: Date = meetdata.get_meet(index).date;
        let entry = meetdata.get_entry(index);
        proof {
            assert(indices@.take(i + 1).drop_last() =~= indices@.take(i as int));
            assert(indices@.take(i + 1).last() == index);
        }

        if let Some(birthdate) = entry.birthdate {
            let fact = Fact::BirthDate(birthdate);
            let conflict = hold(&mut range, fact, index, mdate, trace, Ghost(start), Ghost(d));
            proof {
                d = held(d, fact, index, mdate);
            }
            if conflict {
                proof {
                    assert(derivation(store, indices@.take(i + 1)) == d);
                    lemma_conflict_is_final(store, indices@, i + 1);
                }
                return BirthDateRange::default();
            }
        }
        if let Some(birthyear) = entry.birthyear {
            let fact = Fact::BirthYear(birthyear);
            let conflict = hold(&mut range, fact, index, mdate, trace, Ghost(start), Ghost(d));
            proof {
                d = held(d, fact, index, mdate);
            }
            if conflict {
                proof {
                    assert(derivation(store, indices@.take(i + 1)) == d);
                    lemma_conflict_is_final(store, indices@, i + 1);
                }
                return BirthDateRange::default();
            }
        }
        if !entry.age.is_unknown() {
            let fact = Fact::Age(entry.age);
            let conflict = hold(&mut range, fact, index, mdate, trace, Ghost(start), Ghost(d));
            proof {
                d = held(d, fact, index, mdate);
            }
            if conflict {
                proof {
                    assert(derivation(store, indices@.take(i + 1)) == d);
                    lemma_conflict_is_final(store, indices@, i + 1);
                }
                return BirthDateRange::default();
            }
        }
        if !entry.division_age_min.is_unknown() || !entry.division_age_max.is_unknown() {
            let fact = Fact::Division { min: entry.division_age_min, max: entry.division_age_max };
            let conflict = hold(&mut range, fact, index, mdate, trace, Ghost(start), Ghost(d));
            proof {
                d = held(d, fact, index, mdate);
            }
            if conflict {
                proof {
                    assert(derivation(store, indices@.take(i + 1)) == d);
                    lemma_conflict_is_final(store, indices@, i + 1);
                }
                return BirthDateRange::default();
            }
        }
        i += 1;
    }
    proof {
        assert(indices@.take(i as int) =~= indices@);
    }
    let ghost was = *trace;
    let closing = TraceEvent::FinalRange { range };
    trace.record(closing);
    proof {
        Trace::lemma_extends_twice(start, was, *trace, d.events, seq![closing]);
        assert(d.events + seq![closing] =~= derivation_events(store, indices@));
    }
    range
}

} // verus!
