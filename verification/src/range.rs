//! Ranges of possible birthdates, and the facts that narrow them.

use vstd::prelude::*;
use crate::age::Age;
use crate::date::{lemma_parts, pack, successor, AgeError, Date};

verus! {

/// The key of a date so early that no lifter was born before it.
pub const DEFAULT_MIN_KEY: u32 = 11000101;

/// The key of a date so late that no lifter was born after it.
pub const DEFAULT_MAX_KEY: u32 = 99970615;

/// The earliest and the latest date on which a lifter may have been born,
/// both included.
#[derive(Copy, Clone, Debug, PartialEq, Eq, Structural)]
pub struct BirthDateRange {
    pub min: Date,
    pub max: Date,
}

/// What became of a fact that was held against a range.
#[derive(Copy, Clone, Debug, PartialEq, Eq, Structural)]
pub enum NarrowResult {
    /// The fact agreed with the range, which now takes it into account.
    Integrated,
    /// The fact contradicts the range, which was left as it was.
    Conflict,
}

/// The latest birthdate of a lifter who is at least `age` on `on_date`: the
/// birthday falls on that very day. An approximate age counts as its lower
/// number. Without an age it is the latest date of the unconstrained range.
pub open spec fn latest_birth(age: Age, on_date: Date) -> int {
    if age is Unknown {
        DEFAULT_MAX_KEY as int
    } else {
        pack(
            on_date.spec_year() - age.at_least(),
            on_date.spec_month() as int,
            on_date.spec_day() as int,
        )
    }
}

/// The earliest birthdate of a lifter who is at most `age` on `on_date`: the
/// next birthday falls on the day after. An approximate age counts as its
/// higher number. Without an age it is the earliest date of the
/// unconstrained range.
pub open spec fn earliest_birth(age: Age, on_date: Date) -> int {
    if age is Unknown {
        DEFAULT_MIN_KEY as int
    } else {
        successor(
            on_date.spec_year() - age.at_most() - 1,
            on_date.spec_month() as int,
            on_date.spec_day() as int,
        )
    }
}

/// What a narrowing call must have done, given what the fact makes of the
/// range: `Some` of the narrowed range, or `None` where the fact contradicts
/// the range. After a conflict the range is as it was. A range that held a
/// date holds one still.
pub open spec fn settles(
    before: BirthDateRange,
    after: BirthDateRange,
    result: NarrowResult,
    expected: Option<BirthDateRange>,
) -> bool {
    &&& match expected {
        Some(narrowed) => result == NarrowResult::Integrated && after == narrowed,
        None => result == NarrowResult::Conflict && after == before,
    }
    &&& before.wf() ==> after.wf() && after.within(before)
}

/// The age that a result of `Date::age_on` stands for within a range.
pub open spec fn known_age(age: Result<Age, AgeError>) -> Age {
    match age {
        Ok(a) => a,
        Err(_) => Age::Unknown,
    }
}

impl BirthDateRange {
    /// The range holds at least one date.
    pub open spec fn wf(self) -> bool {
        self.min.0 <= self.max.0
    }

    /// The range that nothing is known about.
    pub open spec fn unconstrained() -> BirthDateRange {
        BirthDateRange { min: Date(DEFAULT_MIN_KEY), max: Date(DEFAULT_MAX_KEY) }
    }

    /// The range that holds one date only.
    pub open spec fn point(date: Date) -> BirthDateRange {
        BirthDateRange { min: date, max: date }
    }

    pub open spec fn contains(self, date: Date) -> bool {
        self.min.0 <= date.0 <= self.max.0
    }

    /// Every date of `self` is one of `other`.
    pub open spec fn within(self, other: BirthDateRange) -> bool {
        other.min.0 <= self.min.0 && self.max.0 <= other.max.0
    }

    /// The dates of the range that lie between the keys `lo` and `hi`, or
    /// `None` if there is no such date.
    pub open spec fn narrowed(self, lo: int, hi: int) -> Option<BirthDateRange> {
        if lo > hi || self.min.0 > hi || lo > self.max.0 {
            None
        } else {
            Some(
                BirthDateRange {
                    min: if lo > self.min.0 {
                        Date(lo as u32)
                    } else {
                        self.min
                    },
                    max: if hi < self.max.0 {
                        Date(hi as u32)
                    } else {
                        self.max
                    },
                },
            )
        }
    }

    /// The dates that lie in both ranges, or `None` if they share no date.
    pub open spec fn spec_intersect(self, other: BirthDateRange) -> Option<BirthDateRange> {
        self.narrowed(other.min.0 as int, other.max.0 as int)
    }

    /// The range after an exact birthdate has been held against it.
    pub open spec fn spec_narrow_by_birthdate(self, birthdate: Date) -> Option<BirthDateRange> {
        self.narrowed(birthdate.0 as int, birthdate.0 as int)
    }

    /// The range after a year of birth has been held against it: the dates
    /// from the first of January to the 31st of December of that year.
    pub open spec fn spec_narrow_by_birthyear(self, birthyear: u32) -> Option<BirthDateRange> {
        self.narrowed(pack(birthyear as int, 1, 1), pack(birthyear as int, 12, 31))
    }

    /// The range after an age on a date has been held against it. An unknown
    /// age leaves it as it is.
    pub open spec fn spec_narrow_by_age(self, age: Age, on_date: Date) -> Option<BirthDateRange> {
        if age is Unknown {
            Some(self)
        } else {
            self.narrowed(earliest_birth(age, on_date), latest_birth(age, on_date))
        }
    }

    /// The range after the age bracket of a division has been held against
    /// it: the lifter is at least `min` and at most `max` on `on_date`.
    pub open spec fn spec_narrow_by_division(
        self,
        min: Age,
        max: Age,
        on_date: Date,
    ) -> Option<BirthDateRange> {
        self.narrowed(earliest_birth(max, on_date), latest_birth(min, on_date))
    }

    /// The age on `date` that the range implies. The latest birthdate gives
    /// the least age and the earliest the greatest. Where both are known and
    /// agree, that is the age. Where they differ by one, the age is
    /// approximately the lesser. A least age that is not known counts as 0 in
    /// this, and a greatest as 255.
    pub open spec fn spec_age_on(&self, date: Date) -> Age {
        let youngest = known_age(self.max.spec_age_on(date));
        let oldest = known_age(self.min.spec_age_on(date));
        let least: int = match youngest.spec_to_u8_option() {
            Some(n) => n as int,
            None => 0,
        };
        let greatest: int = match oldest.spec_to_u8_option() {
            Some(n) => n as int,
            None => 255,
        };
        if youngest == oldest {
            youngest
        } else if least + 1 == greatest {
            Age::Approximate(least as u8)
        } else {
            Age::Unknown
        }
    }

    /// The year of birth, where the range lies within one year.
    pub open spec fn spec_birthyear(&self) -> Option<u32> {
        if self.min.spec_year() == self.max.spec_year() {
            Some(self.min.spec_year())
        } else {
            None
        }
    }

    /// Makes the range from `min` to `max`.
    pub fn new(min: Date, max: Date) -> (r: BirthDateRange)
        requires
            min.0 <= max.0,
        ensures
            r.min == min,
            r.max == max,
            r.wf(),
    {
        BirthDateRange { min, max }
    }

    /// Makes a range from keys. A bound that is not given is that of the
    /// unconstrained range.
    pub fn at(min: Option<u32>, max: Option<u32>) -> (r: BirthDateRange)
        requires
            (match min {
                Some(key) => key,
                None => DEFAULT_MIN_KEY,
            }) <= (match max {
                Some(key) => key,
                None => DEFAULT_MAX_KEY,
            }),
        ensures
            r.min.0 == (match min {
                Some(key) => key,
                None => DEFAULT_MIN_KEY,
            }),
            r.max.0 == (match max {
                Some(key) => key,
                None => DEFAULT_MAX_KEY,
            }),
            r.wf(),
    {
        let low: u32 = match min {
            Some(key) => key,
            None => DEFAULT_MIN_KEY,
        };
        let high: u32 = match max {
            Some(key) => key,
            None => DEFAULT_MAX_KEY,
        };
        BirthDateRange::new(Date::from_u32(low), Date::from_u32(high))
    }

    /// Whether nothing is known: the range is the unconstrained one.
    pub fn is_unconstrained(&self) -> (r: bool)
        ensures
            r == (*self == BirthDateRange::unconstrained()),
    {
        self.min.0 == DEFAULT_MIN_KEY && self.max.0 == DEFAULT_MAX_KEY
    }

    /// The age on `date` that the range implies.
    #[verifier::when_used_as_spec(spec_age_on)]
    pub fn age_on(&self, date: Date) -> (r: Age)
        ensures
            r == self.spec_age_on(date),
    {
        let youngest: Age = match self.max.age_on(date) {
            Ok(a) => a,
            Err(_) => Age::Unknown,
        };
        let oldest: Age = match self.min.age_on(date) {
            Ok(a) => a,
            Err(_) => Age::Unknown,
        };
        if youngest == oldest {
            return youngest;
        }
        let least: u8 = match youngest.to_u8_option() {
            Some(n) => n,
            None => 0,
        };
        let greatest: u8 = match oldest.to_u8_option() {
            Some(n) => n,
            None => 255,
        };
        if least as u32 + 1 == greatest as u32 {
            return Age::Approximate(least);
        }
        Age::Unknown
    }

    /// The year of birth, where the range lies within one year.
    #[verifier::when_used_as_spec(spec_birthyear)]
    pub fn birthyear(&self) -> (r: Option<u32>)
        ensures
            r == self.spec_birthyear(),
    {
        let known_year: u32 = self.min.year();
        if known_year == self.max.year() {
            Some(known_year)
        } else {
            None
        }
    }

    /// Keeps the dates that lie in `other` too. There is a conflict exactly
    /// when the two ranges share no date; the range is then left as it was.
    pub fn intersect(&mut self, other: &BirthDateRange) -> (r: NarrowResult)
        ensures
            r == NarrowResult::Conflict <==> old(self).min.0 > other.max.0 || other.min.0 > old(
                self,
            ).max.0,
            r == NarrowResult::Conflict ==> *final(self) == *old(self),
            r == NarrowResult::Integrated ==> final(self).min.0 == (if old(self).min.0
                >= other.min.0 {
                old(self).min.0
            } else {
                other.min.0
            }) && final(self).max.0 == (if old(self).max.0 <= other.max.0 {
                old(self).max.0
            } else {
                other.max.0
            }),
            other.wf() ==> settles(*old(self), *final(self), r, old(self).spec_intersect(*other)),
            old(self).wf() && other.wf() ==> final(self).wf(),
    {
        if self.min.0 > other.max.0 || other.min.0 > self.max.0 {
            NarrowResult::Conflict
        } else {
            if other.min.0 > self.min.0 {
                self.min = other.min;
            }
            if other.max.0 < self.max.0 {
                self.max = other.max;
            }
            NarrowResult::Integrated
        }
    }

    /// Keeps the dates between the keys `lo` and `hi`.
    fn narrow_to(&mut self, lo: i64, hi: i64) -> (r: NarrowResult)
        ensures
            settles(*old(self), *final(self), r, old(self).narrowed(lo as int, hi as int)),
    {
        if lo > hi || self.min.0 as i64 > hi || lo > self.max.0 as i64 {
            NarrowResult::Conflict
        } else {
            if lo > self.min.0 as i64 {
                self.min = Date::from_u32(lo as u32);
            }
            if hi < self.max.0 as i64 {
                self.max = Date::from_u32(hi as u32);
            }
            NarrowResult::Integrated
        }
    }

    /// Narrows the range by an exact birthdate.
    pub fn narrow_by_birthdate(&mut self, birthdate: Date) -> (r: NarrowResult)
        ensures
            settles(*old(self), *final(self), r, old(self).spec_narrow_by_birthdate(birthdate)),
            r == NarrowResult::Conflict <==> !old(self).contains(birthdate),
            r == NarrowResult::Integrated ==> *final(self) == BirthDateRange::point(birthdate),
    {
        if birthdate.0 < self.min.0 || birthdate.0 > self.max.0 {
            return NarrowResult::Conflict;
        }
        self.min = birthdate;
        self.max = birthdate;
        NarrowResult::Integrated
    }

    /// Narrows the range by a year of birth.
    pub fn narrow_by_birthyear(&mut self, birthyear: u32) -> (r: NarrowResult)
        ensures
            settles(*old(self), *final(self), r, old(self).spec_narrow_by_birthyear(birthyear)),
    {
        let year_in_date: i64 = birthyear as i64 * 10000;
        self.narrow_to(year_in_date + 101, year_in_date + 1231)
    }

    /// Narrows the range by an age on a date.
    pub fn narrow_by_age(&mut self, age: Age, on_date: Date) -> (r: NarrowResult)
        ensures
            settles(*old(self), *final(self), r, old(self).spec_narrow_by_age(age, on_date)),
    {
        match age {
            Age::Unknown => NarrowResult::Integrated,
            _ => {
                let lo: i64 = earliest_birth_key(age, on_date);
                let hi: i64 = latest_birth_key(age, on_date);
                self.narrow_to(lo, hi)
            },
        }
    }

    /// Narrows the range by the age bracket of a division: the lifter is at
    /// least `min` and at most `max` on `on_date`.
    pub fn narrow_by_division(&mut self, min: Age, max: Age, on_date: Date) -> (r: NarrowResult)
        ensures
            settles(
                *old(self),
                *final(self),
                r,
                old(self).spec_narrow_by_division(min, max, on_date),
            ),
    {
        let hi: i64 = latest_birth_key(min, on_date);
        let lo: i64 = earliest_birth_key(max, on_date);
        self.narrow_to(lo, hi)
    }
}

impl Default for BirthDateRange {
    fn default() -> (r: BirthDateRange)
        ensures
            r == BirthDateRange::unconstrained(),
    {
        BirthDateRange { min: Date::from_u32(DEFAULT_MIN_KEY), max: Date::from_u32(DEFAULT_MAX_KEY) }
    }
}

/// The key that `latest_birth` stands for.
fn latest_birth_key(age: Age, on_date: Date) -> (r: i64)
    ensures
        r == latest_birth(age, on_date),
        -2560000 <= r <= u32::MAX,
{
    proof {
        lemma_parts(on_date);
    }
    let year: i64 = on_date.year() as i64;
    let monthday: i64 = on_date.monthday() as i64;
    match age {
        Age::Exact(a) => (year - a as i64) * 10000 + monthday,
        Age::Approximate(a) => (year - a as i64) * 10000 + monthday,
        Age::Unknown => DEFAULT_MAX_KEY as i64,
    }
}

/// The key of the day after the date that lies `years` years before
/// `on_date`.
fn day_after_years_before(years: i64, on_date: Date) -> (r: i64)
    requires
        0 <= years <= 300,
    ensures
        r == successor(
            on_date.spec_year() - years,
            on_date.spec_month() as int,
            on_date.spec_day() as int,
        ),
{
    proof {
        lemma_parts(on_date);
    }
    let mut year: i64 = on_date.year() as i64 - years;
    let mut month: i64 = on_date.month() as i64;
    let mut day: i64 = on_date.day() as i64;
    day += 1;
    if day > 31 {
        day = 1;
        month += 1;
    }
    if month > 12 {
        month = 1;
        year += 1;
    }
    year * 10000 + month * 100 + day
}

/// The key that `earliest_birth` stands for.
fn earliest_birth_key(age: Age, on_date: Date) -> (r: i64)
    ensures
        r == earliest_birth(age, on_date),
{
    match age {
        Age::Exact(a) => day_after_years_before(a as i64 + 1, on_date),
        Age::Approximate(a) => day_after_years_before(a as i64 + 2, on_date),
        Age::Unknown => DEFAULT_MIN_KEY as i64,
    }
}

/// Two ranges of which one ends before the other begins are in conflict.
pub proof fn lemma_disjoint_ranges_conflict(a: BirthDateRange, b: BirthDateRange)
    requires
        a.wf(),
        b.wf(),
        a.max.0 < b.min.0,
    ensures
        a.spec_intersect(b) == None::<BirthDateRange>,
        b.spec_intersect(a) == None::<BirthDateRange>,
{
}

/// Two ranges that share a date intersect in the range from the later of
/// their first dates to the earlier of their last dates.
pub proof fn lemma_overlapping_ranges_integrate(a: BirthDateRange, b: BirthDateRange)
    requires
        a.wf(),
        b.wf(),
        a.min.0 <= b.max.0,
        b.min.0 <= a.max.0,
    ensures
        a.spec_intersect(b) == Some(
            BirthDateRange {
                min: if a.min.0 >= b.min.0 {
                    a.min
                } else {
                    b.min
                },
                max: if a.max.0 <= b.max.0 {
                    a.max
                } else {
                    b.max
                },
            },
        ),
{
}

/// A birthdate that the range holds collapses the range to that date.
pub proof fn lemma_birthdate_collapses(range: BirthDateRange, birthdate: Date)
    requires
        range.contains(birthdate),
    ensures
        range.spec_narrow_by_birthdate(birthdate) == Some(BirthDateRange::point(birthdate)),
        BirthDateRange::point(birthdate).wf(),
{
}

/// A birthdate is never in conflict with the unconstrained range, and
/// collapses it to that date. This is so for every birthdate from the first
/// to the last date of the unconstrained range.
pub proof fn lemma_birthdate_collapses_unconstrained(birthdate: Date)
    requires
        DEFAULT_MIN_KEY <= birthdate.0 <= DEFAULT_MAX_KEY,
    ensures
        BirthDateRange::unconstrained().spec_narrow_by_birthdate(birthdate) == Some(
            BirthDateRange::point(birthdate),
        ),
{
}

/// A narrowed range holds exactly the dates of the range that lie between
/// the two keys, and there is a conflict exactly when there is no such date.
pub proof fn lemma_narrowed_holds_common_dates(range: BirthDateRange, lo: int, hi: int)
    requires
        range.wf(),
    ensures
        match range.narrowed(lo, hi) {
            Some(n) => n.wf() && n.within(range) && forall|d: Date|
                n.contains(d) <==> range.contains(d) && lo <= d.0 <= hi,
            None => forall|d: Date| !(range.contains(d) && lo <= #[trigger] d.0 <= hi),
        },
{
    match range.narrowed(lo, hi) {
        Some(n) => {},
        None => {
            assert forall|d: Date| !(range.contains(d) && lo <= #[trigger] d.0 <= hi) by {}
        },
    }
}

/// Narrowing never widens: what comes out lies within what went in.
pub proof fn lemma_narrowing_never_widens(range: BirthDateRange, lo: int, hi: int)
    requires
        range.wf(),
        range.narrowed(lo, hi) is Some,
    ensures
        range.narrowed(lo, hi).unwrap().within(range),
        range.narrowed(lo, hi).unwrap().wf(),
{
}

/// The range after two facts, the second held against what the first left.
pub open spec fn narrowed_twice(
    range: BirthDateRange,
    lo1: int,
    hi1: int,
    lo2: int,
    hi2: int,
) -> Option<BirthDateRange> {
    match range.narrowed(lo1, hi1) {
        Some(n) => n.narrowed(lo2, hi2),
        None => None,
    }
}

/// Two facts narrow a range to the same dates in either order, and conflict
/// in one order exactly when they do in the other.
pub proof fn lemma_narrowing_commutes(
    range: BirthDateRange,
    lo1: int,
    hi1: int,
    lo2: int,
    hi2: int,
)
    requires
        range.wf(),
    ensures
        narrowed_twice(range, lo1, hi1, lo2, hi2) == narrowed_twice(range, lo2, hi2, lo1, hi1),
{
}

} // verus!
