//! What the facts mean.
//!
//! A fact about a lifter is held against the range of birthdates as a pair
//! of keys. These laws say which birthdates lie between the two keys:
//! exactly those of which the fact is true. They speak of dates of the
//! calendar in which every month has 31 days.

use vstd::prelude::*;
use crate::age::Age;
use crate::date::{
    lemma_born_by, lemma_later_born_is_no_older, lemma_parts, pack, successor, Date,
};
use crate::derivation::{
    derivation, derived_range, held, held_age, held_birthdate, held_birthyear, held_division,
    narrowed_by, Derivation,
};
use crate::range::{earliest_birth, latest_birth, BirthDateRange};
use crate::store::{all_indexed, entry_at, has_index, meet_at, Entry, EntryIndex, MeetRecords};
use crate::trace::Fact;

verus! {

/// The birthdates up to the latest one for an age are those of the lifters
/// who are at least that old.
pub proof fn lemma_latest_birth(age: Age, on_date: Date, birthdate: Date)
    requires
        age != Age::Unknown,
    ensures
        birthdate.0 <= latest_birth(age, on_date) <==> birthdate.years_until(on_date)
            >= age.at_least(),
{
    lemma_parts(birthdate);
    lemma_parts(on_date);
}

/// The birthdates from the earliest one for an age are those of the lifters
/// who are at most that old.
pub proof fn lemma_earliest_birth(age: Age, on_date: Date, birthdate: Date)
    requires
        age != Age::Unknown,
        on_date.on_calendar(),
        birthdate.on_calendar(),
    ensures
        earliest_birth(age, on_date) <= birthdate.0 <==> birthdate.years_until(on_date)
            <= age.at_most(),
{
    lemma_parts(birthdate);
    lemma_parts(on_date);
}

/// The birthdates between the two keys of an age are those of the lifters
/// who have that age on the date.
pub proof fn lemma_window_of_age(age: Age, on_date: Date, birthdate: Date)
    requires
        age != Age::Unknown,
        on_date.on_calendar(),
        birthdate.on_calendar(),
    ensures
        earliest_birth(age, on_date) <= birthdate.0 <= latest_birth(age, on_date) <==> age.admits(
            birthdate.years_until(on_date),
        ),
{
    lemma_latest_birth(age, on_date, birthdate);
    lemma_earliest_birth(age, on_date, birthdate);
}

/// Narrowing by an age keeps the birthdates of the lifters who have that
/// age on the date, and there is a conflict exactly if the range holds no
/// such birthdate.
pub proof fn lemma_narrow_by_age_keeps_that_age(
    range: BirthDateRange,
    age: Age,
    on_date: Date,
    birthdate: Date,
)
    requires
        on_date.on_calendar(),
        birthdate.on_calendar(),
    ensures
        match range.spec_narrow_by_age(age, on_date) {
            Some(narrowed) => narrowed.contains(birthdate) <==> range.contains(birthdate)
                && age.admits(birthdate.years_until(on_date)),
            None => !(range.contains(birthdate) && age.admits(birthdate.years_until(on_date))),
        },
{
    if age != Age::Unknown {
        lemma_window_of_age(age, on_date, birthdate);
    }
}

/// Narrowing by a division keeps the birthdates of the lifters who are as
/// old on the date as the division asks, as far as it asks for anything.
pub proof fn lemma_narrow_by_division_keeps_those_ages(
    range: BirthDateRange,
    min: Age,
    max: Age,
    on_date: Date,
    birthdate: Date,
)
    requires
        min != Age::Unknown,
        max != Age::Unknown,
        on_date.on_calendar(),
        birthdate.on_calendar(),
    ensures
        match range.spec_narrow_by_division(min, max, on_date) {
            Some(narrowed) => narrowed.contains(birthdate) <==> range.contains(birthdate)
                && min.at_least() <= birthdate.years_until(on_date) <= max.at_most(),
            None => !(range.contains(birthdate) && min.at_least() <= birthdate.years_until(
                on_date,
            ) <= max.at_most()),
        },
{
    lemma_latest_birth(min, on_date, birthdate);
    lemma_earliest_birth(max, on_date, birthdate);
}

/// Narrowing by a year of birth keeps the birthdates in that year.
pub proof fn lemma_narrow_by_birthyear_keeps_that_year(
    range: BirthDateRange,
    birthyear: u32,
    birthdate: Date,
)
    requires
        birthdate.on_calendar(),
    ensures
        match range.spec_narrow_by_birthyear(birthyear) {
            Some(narrowed) => narrowed.contains(birthdate) <==> range.contains(birthdate)
                && birthdate.spec_year() == birthyear,
            None => !(range.contains(birthdate) && birthdate.spec_year() == birthyear),
        },
{
    lemma_parts(birthdate);
}

/// The age that a range implies on a date is an age of every lifter born
/// within the range who has an age on that date.
pub proof fn lemma_age_on_is_sound(range: BirthDateRange, on_date: Date, birthdate: Date)
    requires
        range.contains(birthdate),
        birthdate.spec_age_on(on_date) is Ok,
    ensures
        range.spec_age_on(on_date).admits(birthdate.years_until(on_date)),
{
    lemma_later_born_is_no_older(range.min, birthdate, on_date);
    lemma_later_born_is_no_older(birthdate, range.max, on_date);
    lemma_born_by(range.max, on_date);
    lemma_born_by(range.min, on_date);
    lemma_born_by(birthdate, on_date);
}

/// The year of birth that a range implies is that of every lifter born
/// within the range.
pub proof fn lemma_birthyear_is_sound(range: BirthDateRange, birthdate: Date)
    requires
        range.contains(birthdate),
        range.spec_birthyear() is Some,
    ensures
        range.spec_birthyear() == Some(birthdate.spec_year()),
{
    lemma_parts(range.min);
    lemma_parts(range.max);
    lemma_parts(birthdate);
}

/// Whether a fact, recorded at a meet held on `on_date`, is true of a lifter
/// born on `birthdate`. An end of a division that is not known asks for
/// nothing.
pub open spec fn true_of(fact: Fact, on_date: Date, birthdate: Date) -> bool {
    match fact {
        Fact::BirthDate(date) => birthdate == date,
        Fact::BirthYear(year) => birthdate.spec_year() == year,
        Fact::Age(age) => age.admits(birthdate.years_until(on_date)),
        Fact::Division { min, max } => (min != Age::Unknown ==> min.at_least()
            <= birthdate.years_until(on_date)) && (max != Age::Unknown
            ==> birthdate.years_until(on_date) <= max.at_most()),
    }
}

/// Whether all that an entry of a meet held on `on_date` states is true of a
/// lifter born on `birthdate`.
pub open spec fn entry_true_of(entry: Entry, on_date: Date, birthdate: Date) -> bool {
    &&& entry.birthdate is Some ==> true_of(
        Fact::BirthDate(entry.birthdate.unwrap()),
        on_date,
        birthdate,
    )
    &&& entry.birthyear is Some ==> true_of(
        Fact::BirthYear(entry.birthyear.unwrap()),
        on_date,
        birthdate,
    )
    &&& true_of(Fact::Age(entry.age), on_date, birthdate)
    &&& true_of(
        Fact::Division { min: entry.division_age_min, max: entry.division_age_max },
        on_date,
        birthdate,
    )
}

/// Whether all that the named entries state is true of a lifter born on
/// `birthdate`.
pub open spec fn all_true_of(store: Seq<MeetRecords>, indices: Seq<EntryIndex>, birthdate: Date)
    -> bool {
    forall|k: int|
        0 <= k < indices.len() ==> entry_true_of(
            entry_at(store, #[trigger] indices[k]),
            meet_at(store, indices[k]).date,
            birthdate,
        )
}

/// Every named entry belongs to a meet held on a day of the calendar.
pub open spec fn all_on_calendar(store: Seq<MeetRecords>, indices: Seq<EntryIndex>) -> bool {
    forall|k: int| 0 <= k < indices.len() ==> meet_at(store, #[trigger] indices[k]).date.on_calendar()
}

/// Narrowing by a fact keeps the birthdates of which the fact is true, and
/// there is a conflict exactly if the range holds no such birthdate.
pub proof fn lemma_narrowing_keeps_what_the_fact_is_true_of(
    range: BirthDateRange,
    fact: Fact,
    on_date: Date,
    birthdate: Date,
)
    requires
        on_date.on_calendar(),
        birthdate.on_calendar(),
        BirthDateRange::unconstrained().contains(birthdate),
    ensures
        match narrowed_by(range, fact, on_date) {
            Some(narrowed) => narrowed.contains(birthdate) <==> range.contains(birthdate)
                && true_of(fact, on_date, birthdate),
            None => !(range.contains(birthdate) && true_of(fact, on_date, birthdate)),
        },
{
    reveal(narrowed_by);
    match fact {
        Fact::BirthDate(date) => {},
        Fact::BirthYear(year) => {
            lemma_narrow_by_birthyear_keeps_that_year(range, year, birthdate);
        },
        Fact::Age(age) => {
            lemma_narrow_by_age_keeps_that_age(range, age, on_date, birthdate);
        },
        Fact::Division { min, max } => {
            if min != Age::Unknown {
                lemma_latest_birth(min, on_date, birthdate);
            }
            if max != Age::Unknown {
                lemma_earliest_birth(max, on_date, birthdate);
            }
        },
    }
}

/// What a derivation has come to know of one birthdate, given whether all
/// facts so far are true of it: without a conflict the range holds the
/// birthdate exactly if they are; with a conflict they are not.
pub open spec fn knows(d: Derivation, birthdate: Date, all_true: bool) -> bool {
    if d.conflict {
        !all_true
    } else {
        d.range.contains(birthdate) <==> all_true
    }
}

/// One more fact leaves the derivation knowing of the birthdate whether that
/// fact is true of it too.
proof fn lemma_held_knows(
    d: Derivation,
    fact: Fact,
    index: EntryIndex,
    on_date: Date,
    birthdate: Date,
    all_true: bool,
)
    requires
        on_date.on_calendar(),
        birthdate.on_calendar(),
        BirthDateRange::unconstrained().contains(birthdate),
        knows(d, birthdate, all_true),
    ensures
        knows(
            held(d, fact, index, on_date),
            birthdate,
            all_true && true_of(fact, on_date, birthdate),
        ),
{
    lemma_narrowing_keeps_what_the_fact_is_true_of(d.range, fact, on_date, birthdate);
}

/// The derived range holds exactly the birthdates of which everything is
/// true that the entries state, and the derivation ends in a conflict only
/// if there is no such birthdate. This is so for the birthdates of the
/// calendar that the unconstrained range holds, where every meet was held
/// on a day of the calendar.
pub proof fn lemma_derivation_keeps_what_all_facts_are_true_of(
    store: Seq<MeetRecords>,
    indices: Seq<EntryIndex>,
    birthdate: Date,
)
    requires
        all_indexed(store, indices),
        all_on_calendar(store, indices),
        birthdate.on_calendar(),
        BirthDateRange::unconstrained().contains(birthdate),
    ensures
        knows(derivation(store, indices), birthdate, all_true_of(store, indices, birthdate)),
    decreases indices.len(),
{
    if indices.len() > 0 {
        let earlier = indices.drop_last();
        let index = indices.last();
        let entry = entry_at(store, index);
        let on_date = meet_at(store, index).date;
        assert(all_indexed(store, earlier)) by {
            assert forall|i: int| 0 <= i < earlier.len() implies has_index(
                store,
                #[trigger] earlier[i],
            ) by {
                assert(has_index(store, indices[i]));
            }
        }
        assert(all_on_calendar(store, earlier)) by {
            assert forall|k: int| 0 <= k < earlier.len() implies meet_at(
                store,
                #[trigger] earlier[k],
            ).date.on_calendar() by {
                assert(meet_at(store, indices[k]).date.on_calendar());
            }
        }
        lemma_derivation_keeps_what_all_facts_are_true_of(store, earlier, birthdate);
        assert(meet_at(store, indices[indices.len() - 1]).date.on_calendar());
        let before = all_true_of(store, earlier, birthdate);
        let d0 = derivation(store, earlier);

        let d1 = held_birthdate(d0, entry, index, on_date);
        let t1 = before && (entry.birthdate is Some ==> true_of(
            Fact::BirthDate(entry.birthdate.unwrap()),
            on_date,
            birthdate,
        ));
        if entry.birthdate is Some {
            lemma_held_knows(
                d0,
                Fact::BirthDate(entry.birthdate.unwrap()),
                index,
                on_date,
                birthdate,
                before,
            );
        }
        assert(knows(d1, birthdate, t1));

        let d2 = held_birthyear(d1, entry, index, on_date);
        let t2 = t1 && (entry.birthyear is Some ==> true_of(
            Fact::BirthYear(entry.birthyear.unwrap()),
            on_date,
            birthdate,
        ));
        if entry.birthyear is Some {
            lemma_held_knows(
                d1,
                Fact::BirthYear(entry.birthyear.unwrap()),
                index,
                on_date,
                birthdate,
                t1,
            );
        }
        assert(knows(d2, birthdate, t2));

        let d3 = held_age(d2, entry, index, on_date);
        let t3 = t2 && true_of(Fact::Age(entry.age), on_date, birthdate);
        if entry.age != Age::Unknown {
            lemma_held_knows(d2, Fact::Age(entry.age), index, on_date, birthdate, t2);
        }
        assert(knows(d3, birthdate, t3));

        let division = Fact::Division {
            min: entry.division_age_min,
            max: entry.division_age_max,
        };
        let d4 = held_division(d3, entry, index, on_date);
        let t4 = t3 && true_of(division, on_date, birthdate);
        if entry.division_age_min != Age::Unknown || entry.division_age_max != Age::Unknown {
            lemma_held_knows(d3, division, index, on_date, birthdate, t3);
        }
        assert(knows(d4, birthdate, t4));
        assert(d4 == derivation(store, indices));

        assert(t4 == all_true_of(store, indices, birthdate)) by {
            if all_true_of(store, indices, birthdate) {
                assert(entry_true_of(
                    entry_at(store, indices[indices.len() - 1]),
                    meet_at(store, indices[indices.len() - 1]).date,
                    birthdate,
                ));
                assert forall|k: int| 0 <= k < earlier.len() implies entry_true_of(
                    entry_at(store, #[trigger] earlier[k]),
                    meet_at(store, earlier[k]).date,
                    birthdate,
                ) by {
                    assert(entry_true_of(
                        entry_at(store, indices[k]),
                        meet_at(store, indices[k]).date,
                        birthdate,
                    ));
                }
            }
            if t4 {
                assert forall|k: int| 0 <= k < indices.len() implies entry_true_of(
                    entry_at(store, #[trigger] indices[k]),
                    meet_at(store, indices[k]).date,
                    birthdate,
                ) by {
                    if k < earlier.len() {
                        assert(entry_true_of(
                            entry_at(store, earlier[k]),
                            meet_at(store, earlier[k]).date,
                            birthdate,
                        ));
                    }
                }
            }
        }
    }
}

/// Every birthdate that a named entry states is a day of the calendar.
pub open spec fn birthdates_on_calendar(store: Seq<MeetRecords>, indices: Seq<EntryIndex>)
    -> bool {
    forall|k: int|
        0 <= k < indices.len() && (#[trigger] entry_at(store, indices[k])).birthdate is Some
            ==> entry_at(store, indices[k]).birthdate.unwrap().on_calendar()
}

/// A range whose two ends are days of the calendar, and which holds a date
/// and lies within the unconstrained range.
pub open spec fn tidy(range: BirthDateRange) -> bool {
    &&& range.wf()
    &&& range.within(BirthDateRange::unconstrained())
    &&& range.min.on_calendar()
    &&& range.max.on_calendar()
}

/// A key packed from a year, a month and a day has these as its parts.
proof fn lemma_packed_parts(year: int, month: int, day: int)
    requires
        0 <= year,
        0 <= month < 100,
        0 <= day < 100,
        pack(year, month, day) <= u32::MAX,
    ensures
        Date(pack(year, month, day) as u32).spec_year() == year,
        Date(pack(year, month, day) as u32).spec_month() == month,
        Date(pack(year, month, day) as u32).spec_day() == day,
{
}

/// The day after a day of the calendar is a day of the calendar.
proof fn lemma_successor_on_calendar(year: int, month: int, day: int)
    requires
        1 <= month <= 12,
        1 <= day <= 31,
        0 <= successor(year, month, day) <= u32::MAX,
    ensures
        Date(successor(year, month, day) as u32).on_calendar(),
{
    let next_month = if day + 1 > 31 {
        month + 1
    } else {
        month
    };
    let next_day = if day + 1 > 31 {
        1
    } else {
        day + 1
    };
    if next_month > 12 {
        lemma_packed_parts(year + 1, 1, next_day);
    } else {
        lemma_packed_parts(year, next_month, next_day);
    }
}

/// A fact that states a day of the calendar, if it states a day, narrows a
/// tidy range to a tidy range.
proof fn lemma_narrowing_keeps_tidy(range: BirthDateRange, fact: Fact, on_date: Date)
    requires
        tidy(range),
        on_date.on_calendar(),
        fact matches Fact::BirthDate(date) ==> date.on_calendar(),
        narrowed_by(range, fact, on_date) is Some,
    ensures
        tidy(narrowed_by(range, fact, on_date).unwrap()),
{
    reveal(narrowed_by);
    lemma_parts(on_date);
    match fact {
        Fact::BirthDate(date) => {},
        Fact::BirthYear(year) => {
            if pack(year as int, 1, 1) <= u32::MAX {
                lemma_packed_parts(year as int, 1, 1);
            }
            if pack(year as int, 12, 31) <= u32::MAX {
                lemma_packed_parts(year as int, 12, 31);
            }
        },
        Fact::Age(age) => {
            if age != Age::Unknown {
                let lo = earliest_birth(age, on_date);
                let hi = latest_birth(age, on_date);
                if 0 <= lo <= u32::MAX {
                    lemma_successor_on_calendar(
                        on_date.spec_year() - age.at_most() - 1,
                        on_date.spec_month() as int,
                        on_date.spec_day() as int,
                    );
                }
                if 0 <= hi <= u32::MAX && on_date.spec_year() - age.at_least() >= 0 {
                    lemma_packed_parts(
                        on_date.spec_year() - age.at_least(),
                        on_date.spec_month() as int,
                        on_date.spec_day() as int,
                    );
                }
            }
        },
        Fact::Division { min, max } => {
            let lo = earliest_birth(max, on_date);
            let hi = latest_birth(min, on_date);
            if max != Age::Unknown && 0 <= lo <= u32::MAX {
                lemma_successor_on_calendar(
                    on_date.spec_year() - max.at_most() - 1,
                    on_date.spec_month() as int,
                    on_date.spec_day() as int,
                );
            }
            if min != Age::Unknown && 0 <= hi <= u32::MAX && on_date.spec_year() - min.at_least()
                >= 0 {
                lemma_packed_parts(
                    on_date.spec_year() - min.at_least(),
                    on_date.spec_month() as int,
                    on_date.spec_day() as int,
                );
            }
        },
    }
}

/// One more fact leaves a derivation without conflict with a tidy range.
proof fn lemma_held_keeps_tidy(d: Derivation, fact: Fact, index: EntryIndex, on_date: Date)
    requires
        d.conflict || tidy(d.range),
        on_date.on_calendar(),
        fact matches Fact::BirthDate(date) ==> date.on_calendar(),
    ensures
        held(d, fact, index, on_date).conflict || tidy(held(d, fact, index, on_date).range),
{
    if !d.conflict && narrowed_by(d.range, fact, on_date) is Some {
        lemma_narrowing_keeps_tidy(d.range, fact, on_date);
    }
}

/// Where every meet was held on a day of the calendar, and every birthdate
/// stated is one, a derivation without conflict leaves a range whose two
/// ends are days of the calendar.
pub proof fn lemma_derivation_is_tidy(store: Seq<MeetRecords>, indices: Seq<EntryIndex>)
    requires
        all_indexed(store, indices),
        all_on_calendar(store, indices),
        birthdates_on_calendar(store, indices),
    ensures
        derivation(store, indices).conflict || tidy(derivation(store, indices).range),
    decreases indices.len(),
{
    if indices.len() > 0 {
        let earlier = indices.drop_last();
        let index = indices.last();
        let entry = entry_at(store, index);
        let on_date = meet_at(store, index).date;
        assert(all_indexed(store, earlier)) by {
            assert forall|i: int| 0 <= i < earlier.len() implies has_index(
                store,
                #[trigger] earlier[i],
            ) by {
                assert(has_index(store, indices[i]));
            }
        }
        assert(all_on_calendar(store, earlier)) by {
            assert forall|k: int| 0 <= k < earlier.len() implies meet_at(
                store,
                #[trigger] earlier[k],
            ).date.on_calendar() by {
                assert(meet_at(store, indices[k]).date.on_calendar());
            }
        }
        assert(birthdates_on_calendar(store, earlier)) by {
            assert forall|k: int|
                0 <= k < earlier.len() && (#[trigger] entry_at(
                    store,
                    earlier[k],
                )).birthdate is Some implies entry_at(
                store,
                earlier[k],
            ).birthdate.unwrap().on_calendar() by {
                assert(entry_at(store, indices[k]).birthdate is Some);
            }
        }
        lemma_derivation_is_tidy(store, earlier);
        assert(meet_at(store, indices[indices.len() - 1]).date.on_calendar());
        assert(entry_at(store, indices[indices.len() - 1]) == entry);
        let d0 = derivation(store, earlier);
        let d1 = held_birthdate(d0, entry, index, on_date);
        if entry.birthdate is Some {
            lemma_held_keeps_tidy(d0, Fact::BirthDate(entry.birthdate.unwrap()), index, on_date);
        }
        let d2 = held_birthyear(d1, entry, index, on_date);
        if entry.birthyear is Some {
            lemma_held_keeps_tidy(d1, Fact::BirthYear(entry.birthyear.unwrap()), index, on_date);
        }
        let d3 = held_age(d2, entry, index, on_date);
        if entry.age != Age::Unknown {
            lemma_held_keeps_tidy(d2, Fact::Age(entry.age), index, on_date);
        }
        if entry.division_age_min != Age::Unknown || entry.division_age_max != Age::Unknown {
            lemma_held_keeps_tidy(
                d3,
                Fact::Division { min: entry.division_age_min, max: entry.division_age_max },
                index,
                on_date,
            );
        }
    }
}

/// The order in which the entries of a lifter are read is immaterial to the
/// range: two sequences of the same entries give the same range, and end in
/// a conflict either both or neither. This is so where every meet was held
/// on a day of the calendar, and every birthdate stated is one.
pub proof fn lemma_order_of_entries_is_immaterial(
    store: Seq<MeetRecords>,
    first: Seq<EntryIndex>,
    second: Seq<EntryIndex>,
)
    requires
        all_indexed(store, first),
        all_indexed(store, second),
        all_on_calendar(store, first),
        all_on_calendar(store, second),
        birthdates_on_calendar(store, first),
        birthdates_on_calendar(store, second),
        forall|index: EntryIndex| first.contains(index) <==> second.contains(index),
    ensures
        derivation(store, first).conflict == derivation(store, second).conflict,
        derived_range(store, first) == derived_range(store, second),
{
    let one = derivation(store, first);
    let other = derivation(store, second);
    lemma_derivation_is_tidy(store, first);
    lemma_derivation_is_tidy(store, second);
    assert forall|birthdate: Date|
        all_true_of(store, first, birthdate) == all_true_of(store, second, birthdate) by {
        if all_true_of(store, first, birthdate) {
            assert forall|k: int| 0 <= k < second.len() implies entry_true_of(
                entry_at(store, #[trigger] second[k]),
                meet_at(store, second[k]).date,
                birthdate,
            ) by {
                assert(second.contains(second[k]));
                assert(first.contains(second[k]));
                let i = choose|i: int| 0 <= i < first.len() && first[i] == second[k];
                assert(entry_true_of(
                    entry_at(store, first[i]),
                    meet_at(store, first[i]).date,
                    birthdate,
                ));
            }
        }
        if all_true_of(store, second, birthdate) {
            assert forall|k: int| 0 <= k < first.len() implies entry_true_of(
                entry_at(store, #[trigger] first[k]),
                meet_at(store, first[k]).date,
                birthdate,
            ) by {
                assert(first.contains(first[k]));
                assert(second.contains(first[k]));
                let i = choose|i: int| 0 <= i < second.len() && second[i] == first[k];
                assert(entry_true_of(
                    entry_at(store, second[i]),
                    meet_at(store, second[i]).date,
                    birthdate,
                ));
            }
        }
    }
    if !one.conflict {
        lemma_derivation_keeps_what_all_facts_are_true_of(store, first, one.range.min);
        lemma_derivation_keeps_what_all_facts_are_true_of(store, first, one.range.max);
        lemma_derivation_keeps_what_all_facts_are_true_of(store, second, one.range.min);
        lemma_derivation_keeps_what_all_facts_are_true_of(store, second, one.range.max);
    }
    if !other.conflict {
        lemma_derivation_keeps_what_all_facts_are_true_of(store, first, other.range.min);
        lemma_derivation_keeps_what_all_facts_are_true_of(store, first, other.range.max);
        lemma_derivation_keeps_what_all_facts_are_true_of(store, second, other.range.min);
        lemma_derivation_keeps_what_all_facts_are_true_of(store, second, other.range.max);
    }
}

} // verus!
