//! Calendar dates as ordered keys.

use vstd::prelude::*;
use crate::age::Age;

verus! {

/// A calendar date, held as the decimal number `YYYYMMDD`.
///
/// Dates are compared by that number. Nothing asks that the date exists:
/// the arithmetic on dates counts every month as having 31 days, which
/// keeps the order of any two dates that do exist.
#[derive(Copy, Clone, Debug, PartialEq, Eq, PartialOrd, Ord, Hash, Structural)]
pub struct Date(pub u32);

/// Why no age follows from a birthdate and a date.
#[derive(Copy, Clone, Debug, PartialEq, Eq, Hash, Structural)]
pub enum AgeError {
    /// The date lies before the birthdate.
    NotBornYet,
    /// The year of the date lies over 255 years after the year of birth.
    TooOld,
}

/// The key of the date with the given parts, which may lie outside what a
/// `Date` can hold.
pub open spec fn pack(year: int, month: int, day: int) -> int {
    year * 10000 + month * 100 + day
}

/// The key of the day after the date with the given parts. Day 32 of a month
/// is day 1 of the next month; month 13 is month 1 of the next year.
pub open spec fn successor(year: int, month: int, day: int) -> int {
    let next_month = if day + 1 > 31 { month + 1 } else { month };
    let next_day = if day + 1 > 31 { 1 } else { day + 1 };
    if next_month > 12 {
        pack(year + 1, 1, next_day)
    } else {
        pack(year, next_month, next_day)
    }
}

impl Date {
    pub open spec fn spec_year(self) -> u32 {
        self.0 / 10000
    }

    pub open spec fn spec_month(self) -> u32 {
        (self.0 / 100) % 100
    }

    pub open spec fn spec_day(self) -> u32 {
        self.0 % 100
    }

    pub open spec fn spec_monthday(self) -> u32 {
        self.0 % 10000
    }

    /// The date names a day of the calendar in which every month has 31
    /// days.
    pub open spec fn on_calendar(self) -> bool {
        1 <= self.spec_month() <= 12 && 1 <= self.spec_day() <= 31
    }

    /// The key of the day after this one.
    pub open spec fn spec_next_day(self) -> int {
        successor(self.spec_year() as int, self.spec_month() as int, self.spec_day() as int)
    }

    /// The whole years between a birthdate and a later date: the difference
    /// of the years, less one where the birthday has not yet come round.
    pub open spec fn years_until(self, date: Date) -> int {
        date.spec_year() - self.spec_year() - if date.spec_monthday() < self.spec_monthday() {
            1int
        } else {
            0int
        }
    }

    /// The age on `date` of a lifter born on `self`: the whole years up to
    /// that date. There is none before the birthdate, and none where the two
    /// years lie more than 255 apart.
    pub open spec fn spec_age_on(self, date: Date) -> Result<Age, AgeError> {
        if date.0 < self.0 {
            Err(AgeError::NotBornYet)
        } else if date.spec_year() - self.spec_year() > 255 {
            Err(AgeError::TooOld)
        } else {
            Ok(Age::Exact(self.years_until(date) as u8))
        }
    }

    /// The date with the key `value`.
    pub fn from_u32(value: u32) -> (r: Date)
        ensures
            r.0 == value,
    {
        Date(value)
    }

    #[verifier::when_used_as_spec(spec_year)]
    pub fn year(self) -> (r: u32)
        ensures
            r == self.spec_year(),
    {
        self.0 / 10000
    }

    #[verifier::when_used_as_spec(spec_month)]
    pub fn month(self) -> (r: u32)
        ensures
            r == self.spec_month(),
    {
        (self.0 / 100) % 100
    }

    #[verifier::when_used_as_spec(spec_day)]
    pub fn day(self) -> (r: u32)
        ensures
            r == self.spec_day(),
    {
        self.0 % 100
    }

    /// Month and day as one number, `MMDD`.
    #[verifier::when_used_as_spec(spec_monthday)]
    pub fn monthday(self) -> (r: u32)
        ensures
            r == self.spec_monthday(),
    {
        self.0 % 10000
    }

    /// The age on `date` of a lifter born on `self`.
    #[verifier::when_used_as_spec(spec_age_on)]
    pub fn age_on(self, date: Date) -> (r: Result<Age, AgeError>)
        ensures
            r == self.spec_age_on(date),
    {
        if date.0 < self.0 {
            return Err(AgeError::NotBornYet);
        }
        let years: u32 = date.year() - self.year();
        if years > 255 {
            return Err(AgeError::TooOld);
        }
        // Before the birthday of the year, the last year is not yet whole.
        if date.monthday() >= self.monthday() {
            Ok(Age::Exact(years as u8))
        } else {
            Ok(Age::Exact((years - 1) as u8))
        }
    }
}

/// The parts of a key are what it was packed from.
pub proof fn lemma_parts(date: Date)
    ensures
        pack(date.spec_year() as int, date.spec_month() as int, date.spec_day() as int) == date.0,
        date.spec_monthday() == date.spec_month() * 100 + date.spec_day(),
        date.spec_year() * 10000 + date.spec_monthday() == date.0,
        date.spec_month() < 100,
        date.spec_day() < 100,
        date.spec_year() <= 429496,
{
}

/// A lifter born later is no older.
pub proof fn lemma_later_born_is_no_older(earlier: Date, later: Date, on_date: Date)
    requires
        earlier.0 <= later.0,
    ensures
        earlier.years_until(on_date) >= later.years_until(on_date),
{
    lemma_parts(earlier);
    lemma_parts(later);
    lemma_parts(on_date);
}

/// A lifter is born by a date exactly if the whole years up to it are not
/// negative.
pub proof fn lemma_born_by(birthdate: Date, on_date: Date)
    ensures
        birthdate.0 <= on_date.0 <==> birthdate.years_until(on_date) >= 0,
{
    lemma_parts(birthdate);
    lemma_parts(on_date);
}

/// The day after `date`: day 32 of a month is day 1 of the next month, and
/// month 13 is month 1 of the next year.
pub fn next_day(date: Date) -> (r: Date)
    requires
        date.spec_next_day() <= u32::MAX,
    ensures
        r.0 == date.spec_next_day(),
{
    let mut year: u32 = date.year();
    let mut month: u32 = date.month();
    let mut day: u32 = date.day();
    day += 1;
    if day > 31 {
        day = 1;
        month += 1;
    }
    if month > 12 {
        month = 1;
        year += 1;
    }
    Date::from_u32(year * 10000 + month * 100 + day)
}

} // verus!
