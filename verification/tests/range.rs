use checker::age::Age;
use checker::date::Date;
use checker::range::{BirthDateRange, NarrowResult, DEFAULT_MAX_KEY, DEFAULT_MIN_KEY};
use checker::range::NarrowResult::{Conflict, Integrated};

#[test]
fn range_narrow_by_birthdate() {
    let birthdate = Date::from_u32(1967_02_03);

    // Test a BirthDate against unknown bounds.
    let mut bdr = BirthDateRange::default();
    assert_eq!(bdr.narrow_by_birthdate(birthdate), Integrated);
    assert_eq!(bdr.min, birthdate);
    assert_eq!(bdr.max, birthdate);

    // Test a BirthDate that narrows an upper bound.
    let mut bdr = BirthDateRange::at(None, Some(2019_04_24));
    assert_eq!(bdr.narrow_by_birthdate(birthdate), Integrated);
    assert_eq!(bdr.min, birthdate);
    assert_eq!(bdr.max, birthdate);

    // Test a BirthDate that conflicts with an upper bound.
    let mut bdr = BirthDateRange::at(None, Some(1967_02_02));
    assert_eq!(bdr.narrow_by_birthdate(birthdate), Conflict);

    // Test a BirthDate that narrows a lower bound.
    let mut bdr = BirthDateRange::at(Some(1955_02_03), None);
    assert_eq!(bdr.narrow_by_birthdate(birthdate), Integrated);
    assert_eq!(bdr.min, birthdate);
    assert_eq!(bdr.max, birthdate);

    // Test a BirthDate that conflicts with a lower bound.
    let mut bdr = BirthDateRange::at(Some(1967_02_04), None);
    assert_eq!(bdr.narrow_by_birthdate(birthdate), Conflict);

    // Test a BirthDate that provides no additional new information.
    let mut bdr = BirthDateRange::at(Some(1967_02_03), Some(1967_02_03));
    assert_eq!(bdr.narrow_by_birthdate(birthdate), Integrated);
    assert_eq!(bdr.min, birthdate);
    assert_eq!(bdr.max, birthdate);
}

#[test]
fn range_narrow_by_birthyear() {
    // Test a BirthYear against unknown bounds.
    let mut bdr = BirthDateRange::default();
    assert_eq!(bdr.narrow_by_birthyear(1982), Integrated);
    assert_eq!(bdr.min, Date::from_u32(1982_01_01));
    assert_eq!(bdr.max, Date::from_u32(1982_12_31));

    // Test a BirthYear that narrows an upper bound.
    let mut bdr = BirthDateRange::at(None, Some(1983_04_24));
    assert_eq!(bdr.narrow_by_birthyear(1982), Integrated);
    assert_eq!(bdr.min, Date::from_u32(1982_01_01));
    assert_eq!(bdr.max, Date::from_u32(1982_12_31));

    // Test a BirthYear that conflicts with an upper bound.
    let mut bdr = BirthDateRange::at(None, Some(1981_01_01));
    assert_eq!(bdr.narrow_by_birthyear(1982), Conflict);

    // Test a BirthYear that narrows a lower bound.
    let mut bdr = BirthDateRange::at(Some(1981_01_01), None);
    assert_eq!(bdr.narrow_by_birthyear(1982), Integrated);
    assert_eq!(bdr.min, Date::from_u32(1982_01_01));
    assert_eq!(bdr.max, Date::from_u32(1982_12_31));

    // Test a BirthYear that conflicts with a lower bound.
    let mut bdr = BirthDateRange::at(Some(1983_01_01), None);
    assert_eq!(bdr.narrow_by_birthyear(1982), Conflict);

    // Test a BirthYear that entirely contains the known range.
    let mut bdr = BirthDateRange::at(Some(1982_03_04), Some(1982_05_06));
    assert_eq!(bdr.narrow_by_birthyear(1982), Integrated);
    assert_eq!(bdr.min, Date::from_u32(1982_03_04));
    assert_eq!(bdr.max, Date::from_u32(1982_05_06));
}

#[test]
fn range_narrow_by_age() {
    // Test an Age::Exact against unknown bounds.
    let mut bdr = BirthDateRange::default();
    let date = Date::from_u32(2019_01_04);
    assert_eq!(bdr.narrow_by_age(Age::Exact(30), date), Integrated);
    assert_eq!(bdr.min, Date::from_u32(1988_01_05));
    assert_eq!(bdr.max, Date::from_u32(1989_01_04));

    // Test an Age::Approximate against unknown bounds.
    let mut bdr = BirthDateRange::default();
    let date = Date::from_u32(2019_01_04);
    assert_eq!(bdr.narrow_by_age(Age::Approximate(30), date), Integrated);
    assert_eq!(bdr.min, Date::from_u32(1987_01_05));
    assert_eq!(bdr.max, Date::from_u32(1989_01_04));

    // Test December 31st roll-over.
    let mut bdr = BirthDateRange::default();
    let date = Date::from_u32(2018_12_31);
    assert_eq!(bdr.narrow_by_age(Age::Exact(30), date), Integrated);
    assert_eq!(bdr.min, Date::from_u32(1988_01_01));
    assert_eq!(bdr.max, Date::from_u32(1988_12_31));
}

#[test]
fn range_narrow_by_division() {
    // Basic sanity test.
    let mut bdr = BirthDateRange::default();
    let date = Date::from_u32(2019_01_04);
    let (min, max) = (Age::Exact(30), Age::Exact(34));
    assert_eq!(bdr.narrow_by_division(min, max, date), Integrated);
    assert_eq!(bdr.min, Date::from_u32(1984_01_05));
    assert_eq!(bdr.max, Date::from_u32(1989_01_04));

    // Regression test from Andrey Malanichev.
    // The Division is 0-17~, and Andrey was 18.
    let mut bdr = BirthDateRange::at(Some(1983_03_16), Some(1983_03_16));
    let date = Date::from_u32(2001_07_26);
    let (min, max) = (Age::Exact(0), Age::Approximate(17));
    assert_eq!(bdr.narrow_by_division(min, max, date), Integrated);
}

#[test]
fn default_range_spans_the_sentinels() {
    let bdr = BirthDateRange::default();
    assert_eq!(bdr.min, Date::from_u32(1100_01_01));
    assert_eq!(bdr.max, Date::from_u32(9997_06_15));
    assert_eq!(DEFAULT_MIN_KEY, 1100_01_01);
    assert_eq!(DEFAULT_MAX_KEY, 9997_06_15);
    assert!(bdr.min < bdr.max);
    assert!(bdr.is_unconstrained());
    assert!(!BirthDateRange::at(Some(1100_01_02), None).is_unconstrained());
    assert!(!BirthDateRange::at(None, Some(9997_06_14)).is_unconstrained());
}

#[test]
fn new_and_at_keep_their_bounds() {
    let bdr = BirthDateRange::new(Date::from_u32(1980_05_06), Date::from_u32(1981_02_03));
    assert_eq!(bdr.min, Date::from_u32(1980_05_06));
    assert_eq!(bdr.max, Date::from_u32(1981_02_03));
    let point = BirthDateRange::new(Date::from_u32(1980_05_06), Date::from_u32(1980_05_06));
    assert_eq!(point.min, point.max);
    assert_eq!(BirthDateRange::at(None, None), BirthDateRange::default());
    let bdr = BirthDateRange::at(Some(1980_05_06), Some(1981_02_03));
    assert_eq!(bdr, BirthDateRange::new(Date::from_u32(1980_05_06), Date::from_u32(1981_02_03)));
}

#[test]
fn intersect_of_disjoint_ranges_conflicts_and_keeps_the_range() {
    let mut a = BirthDateRange::at(Some(1980_01_01), Some(1980_12_31));
    let b = BirthDateRange::at(Some(1981_01_01), Some(1985_06_30));
    assert_eq!(a.intersect(&b), Conflict);
    assert_eq!(a.min, Date::from_u32(1980_01_01));
    assert_eq!(a.max, Date::from_u32(1980_12_31));

    // The same the other way round.
    let mut b = BirthDateRange::at(Some(1981_01_01), Some(1985_06_30));
    let a = BirthDateRange::at(Some(1980_01_01), Some(1980_12_31));
    assert_eq!(b.intersect(&a), Conflict);
    assert_eq!(b.min, Date::from_u32(1981_01_01));
    assert_eq!(b.max, Date::from_u32(1985_06_30));
}

#[test]
fn intersect_of_overlapping_ranges_takes_the_inner_bounds() {
    let mut a = BirthDateRange::at(Some(1980_01_01), Some(1984_12_31));
    let b = BirthDateRange::at(Some(1982_03_04), Some(1990_01_01));
    assert_eq!(a.intersect(&b), Integrated);
    assert_eq!(a.min, Date::from_u32(1982_03_04));
    assert_eq!(a.max, Date::from_u32(1984_12_31));

    // One range inside the other.
    let mut a = BirthDateRange::at(Some(1980_01_01), Some(1984_12_31));
    let b = BirthDateRange::at(Some(1981_01_01), Some(1981_01_31));
    assert_eq!(a.intersect(&b), Integrated);
    assert_eq!(a, b);

    // The ranges share one day only.
    let mut a = BirthDateRange::at(Some(1980_01_01), Some(1984_12_31));
    let b = BirthDateRange::at(Some(1984_12_31), Some(1990_01_01));
    assert_eq!(a.intersect(&b), Integrated);
    assert_eq!(a.min, Date::from_u32(1984_12_31));
    assert_eq!(a.max, Date::from_u32(1984_12_31));
}

#[test]
fn intersect_gives_the_same_range_in_either_order() {
    let first = BirthDateRange::at(Some(1980_01_01), Some(1984_12_31));
    let second = BirthDateRange::at(Some(1982_03_04), Some(1990_01_01));
    let third = BirthDateRange::at(Some(1979_01_01), Some(1983_02_02));

    let mut a = BirthDateRange::default();
    assert_eq!(a.intersect(&first), Integrated);
    assert_eq!(a.intersect(&second), Integrated);
    assert_eq!(a.intersect(&third), Integrated);

    let mut b = BirthDateRange::default();
    assert_eq!(b.intersect(&third), Integrated);
    assert_eq!(b.intersect(&second), Integrated);
    assert_eq!(b.intersect(&first), Integrated);

    assert_eq!(a, b);
    assert_eq!(a, BirthDateRange::at(Some(1982_03_04), Some(1983_02_02)));
}

#[test]
fn narrowing_never_widens() {
    let mut bdr = BirthDateRange::at(Some(1988_06_01), Some(1988_09_30));
    assert_eq!(bdr.narrow_by_age(Age::Approximate(30), Date::from_u32(2019_01_04)), Integrated);
    assert_eq!(bdr, BirthDateRange::at(Some(1988_06_01), Some(1988_09_30)));
    assert_eq!(bdr.narrow_by_birthyear(1988), Integrated);
    assert_eq!(bdr, BirthDateRange::at(Some(1988_06_01), Some(1988_09_30)));
}

#[test]
fn birthdate_outside_the_default_range_conflicts() {
    let mut bdr = BirthDateRange::default();
    assert_eq!(bdr.narrow_by_birthdate(Date::from_u32(1000_01_01)), Conflict);
    assert_eq!(bdr, BirthDateRange::default());
    assert_eq!(bdr.narrow_by_birthdate(Date::from_u32(9999_01_01)), Conflict);
    assert_eq!(bdr, BirthDateRange::default());
    // The sentinels themselves are part of the range.
    assert_eq!(bdr.narrow_by_birthdate(Date::from_u32(1100_01_01)), Integrated);
    assert_eq!(bdr.min, Date::from_u32(1100_01_01));
    assert_eq!(bdr.max, Date::from_u32(1100_01_01));
}

#[test]
fn unknown_age_narrows_nothing() {
    let mut bdr = BirthDateRange::at(Some(1980_01_01), Some(1984_12_31));
    assert_eq!(bdr.narrow_by_age(Age::Unknown, Date::from_u32(2019_01_04)), Integrated);
    assert_eq!(bdr, BirthDateRange::at(Some(1980_01_01), Some(1984_12_31)));
}

#[test]
fn age_that_contradicts_the_range_conflicts() {
    let mut bdr = BirthDateRange::at(Some(1980_01_01), Some(1984_12_31));
    assert_eq!(bdr.narrow_by_age(Age::Exact(30), Date::from_u32(2019_01_04)), Conflict);
    assert_eq!(bdr, BirthDateRange::at(Some(1980_01_01), Some(1984_12_31)));
    // Born on the day after the latest birthdate for that age.
    let mut bdr = BirthDateRange::at(Some(1989_01_05), Some(1989_01_05));
    assert_eq!(bdr.narrow_by_age(Age::Exact(30), Date::from_u32(2019_01_04)), Conflict);
    // Born on the day before the earliest birthdate for that age.
    let mut bdr = BirthDateRange::at(Some(1988_01_04), Some(1988_01_04));
    assert_eq!(bdr.narrow_by_age(Age::Exact(30), Date::from_u32(2019_01_04)), Conflict);
    // An approximate age admits that day.
    let mut bdr = BirthDateRange::at(Some(1988_01_04), Some(1988_01_04));
    assert_eq!(bdr.narrow_by_age(Age::Approximate(30), Date::from_u32(2019_01_04)), Integrated);
}

#[test]
fn age_narrows_across_the_end_of_a_month() {
    let mut bdr = BirthDateRange::default();
    assert_eq!(bdr.narrow_by_age(Age::Exact(20), Date::from_u32(2010_04_31)), Integrated);
    assert_eq!(bdr.min, Date::from_u32(1989_05_01));
    assert_eq!(bdr.max, Date::from_u32(1990_04_31));
}

#[test]
fn age_on_a_very_early_date_is_held_against_the_true_bounds() {
    // The latest birthdate lies before every date: nobody is 30 in the year 20.
    let mut bdr = BirthDateRange::at(Some(0), Some(2000_01_01));
    assert_eq!(bdr.narrow_by_age(Age::Exact(30), Date::from_u32(20_06_15)), Conflict);
    assert_eq!(bdr, BirthDateRange::at(Some(0), Some(2000_01_01)));
    // The earliest birthdate lies before every date, the latest does not.
    let mut bdr = BirthDateRange::at(Some(0), Some(2000_01_01));
    assert_eq!(bdr.narrow_by_age(Age::Exact(30), Date::from_u32(30_06_15)), Integrated);
    assert_eq!(bdr.min, Date::from_u32(0));
    assert_eq!(bdr.max, Date::from_u32(6_15));
    // The day after the last day of the year before year 0 is the first of year 0.
    let mut bdr = BirthDateRange::at(Some(0), Some(2000_01_01));
    assert_eq!(bdr.narrow_by_age(Age::Exact(30), Date::from_u32(30_12_31)), Integrated);
    assert_eq!(bdr.min, Date::from_u32(1_01));
    assert_eq!(bdr.max, Date::from_u32(12_31));
}

#[test]
fn birthyear_too_large_for_a_date_conflicts() {
    let mut bdr = BirthDateRange::default();
    assert_eq!(bdr.narrow_by_birthyear(4_000_000_000), Conflict);
    assert_eq!(bdr, BirthDateRange::default());
    assert_eq!(bdr.narrow_by_birthyear(429_497), Conflict);
    assert_eq!(bdr, BirthDateRange::default());
}

#[test]
fn division_with_one_open_end_uses_the_sentinel() {
    let date = Date::from_u32(2019_01_04);

    // At least 40: born on that day 40 years before, or earlier.
    let mut bdr = BirthDateRange::default();
    assert_eq!(bdr.narrow_by_division(Age::Exact(40), Age::Unknown, date), Integrated);
    assert_eq!(bdr.min, Date::from_u32(1100_01_01));
    assert_eq!(bdr.max, Date::from_u32(1979_01_04));

    // At most 19: born on the day after that day 20 years before, or later.
    let mut bdr = BirthDateRange::default();
    assert_eq!(bdr.narrow_by_division(Age::Unknown, Age::Exact(19), date), Integrated);
    assert_eq!(bdr.min, Date::from_u32(1999_01_05));
    assert_eq!(bdr.max, Date::from_u32(9997_06_15));

    // Both ends open.
    let mut bdr = BirthDateRange::default();
    assert_eq!(bdr.narrow_by_division(Age::Unknown, Age::Unknown, date), Integrated);
    assert_eq!(bdr, BirthDateRange::default());
}

#[test]
fn division_with_approximate_ends() {
    let date = Date::from_u32(2019_01_04);
    let mut bdr = BirthDateRange::default();
    assert_eq!(
        bdr.narrow_by_division(Age::Approximate(30), Age::Approximate(34), date),
        Integrated
    );
    assert_eq!(bdr.min, Date::from_u32(1983_01_05));
    assert_eq!(bdr.max, Date::from_u32(1989_01_04));
}

#[test]
fn division_conflicts_with_a_lifter_who_is_too_old() {
    // Born 1960, so 58 on that day, in a division for those of 30 to 34.
    let mut bdr = BirthDateRange::at(Some(1960_01_01), Some(1960_12_31));
    let date = Date::from_u32(2019_01_04);
    assert_eq!(bdr.narrow_by_division(Age::Exact(30), Age::Exact(34), date), Conflict);
    assert_eq!(bdr, BirthDateRange::at(Some(1960_01_01), Some(1960_12_31)));
}

#[test]
fn division_that_admits_no_age_conflicts() {
    let mut bdr = BirthDateRange::default();
    let date = Date::from_u32(2019_01_04);
    assert_eq!(bdr.narrow_by_division(Age::Exact(40), Age::Exact(30), date), Conflict);
    assert_eq!(bdr, BirthDateRange::default());
}

#[test]
fn range_age_on_is_exact_where_both_bounds_agree() {
    let bdr = BirthDateRange::at(Some(1988_01_05), Some(1989_01_04));
    assert_eq!(bdr.age_on(Date::from_u32(2019_01_04)), Age::Exact(30));
    assert_eq!(bdr.age_on(Date::from_u32(2020_01_04)), Age::Exact(31));
    let point = BirthDateRange::at(Some(1983_03_16), Some(1983_03_16));
    assert_eq!(point.age_on(Date::from_u32(2001_07_26)), Age::Exact(18));
    assert_eq!(point.age_on(Date::from_u32(2001_03_15)), Age::Exact(17));
    assert_eq!(point.age_on(Date::from_u32(2001_03_16)), Age::Exact(18));
}

#[test]
fn range_age_on_is_approximate_where_the_bounds_differ_by_one() {
    let bdr = BirthDateRange::at(Some(1982_01_01), Some(1982_12_31));
    assert_eq!(bdr.age_on(Date::from_u32(2001_07_26)), Age::Approximate(18));
    let bdr = BirthDateRange::at(Some(1988_01_05), Some(1989_01_04));
    assert_eq!(bdr.age_on(Date::from_u32(2019_06_01)), Age::Approximate(30));
}

#[test]
fn range_age_on_is_unknown_where_the_range_is_wide() {
    let bdr = BirthDateRange::at(Some(1980_01_01), Some(1984_12_31));
    assert_eq!(bdr.age_on(Date::from_u32(2001_07_26)), Age::Unknown);
    assert_eq!(BirthDateRange::default().age_on(Date::from_u32(2001_07_26)), Age::Unknown);
}

#[test]
fn range_age_on_at_the_edges_of_what_an_age_can_be() {
    // The latest birthdate lies after the date, the earliest a year before it.
    let bdr = BirthDateRange::at(Some(2000_01_01), Some(2002_01_01));
    assert_eq!(bdr.age_on(Date::from_u32(2001_06_01)), Age::Approximate(0));
    // Both lie after the date.
    let bdr = BirthDateRange::at(Some(2002_01_01), Some(2003_01_01));
    assert_eq!(bdr.age_on(Date::from_u32(2001_06_01)), Age::Unknown);
    // The earliest birthdate gives an age over 255, the latest one of 254.
    let bdr = BirthDateRange::at(Some(1100_01_01), Some(1746_06_01));
    assert_eq!(bdr.age_on(Date::from_u32(2001_01_01)), Age::Approximate(254));
}

#[test]
fn range_birthyear_needs_both_bounds_in_one_year() {
    assert_eq!(BirthDateRange::at(Some(1982_01_01), Some(1982_12_31)).birthyear(), Some(1982));
    assert_eq!(BirthDateRange::at(Some(1982_03_04), Some(1982_03_04)).birthyear(), Some(1982));
    assert_eq!(BirthDateRange::at(Some(1982_12_31), Some(1983_01_01)).birthyear(), None);
    assert_eq!(BirthDateRange::default().birthyear(), None);
}

#[test]
fn narrow_result_values_differ() {
    assert_ne!(NarrowResult::Integrated, NarrowResult::Conflict);
}
