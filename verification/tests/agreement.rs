use checker::age::Age;
use checker::ageclass::AgeClass;
use checker::date::Date;

fn outside_age(age: Age) -> opltypes::Age {
    match age {
        Age::Exact(n) => opltypes::Age::Exact(n),
        Age::Approximate(n) => opltypes::Age::Approximate(n),
        Age::Unknown => opltypes::Age::None,
    }
}

fn inside_age(age: opltypes::Age) -> Age {
    match age {
        opltypes::Age::Exact(n) => Age::Exact(n),
        opltypes::Age::Approximate(n) => Age::Approximate(n),
        opltypes::Age::None => Age::Unknown,
    }
}

fn class_name(class: AgeClass) -> &'static str {
    match class {
        AgeClass::Class5_12 => "Class5_12",
        AgeClass::Class13_15 => "Class13_15",
        AgeClass::Class16_17 => "Class16_17",
        AgeClass::Class18_19 => "Class18_19",
        AgeClass::Class20_23 => "Class20_23",
        AgeClass::Class24_34 => "Class24_34",
        AgeClass::Class35_39 => "Class35_39",
        AgeClass::Class40_44 => "Class40_44",
        AgeClass::Class45_49 => "Class45_49",
        AgeClass::Class50_54 => "Class50_54",
        AgeClass::Class55_59 => "Class55_59",
        AgeClass::Class60_64 => "Class60_64",
        AgeClass::Class65_69 => "Class65_69",
        AgeClass::Class70_74 => "Class70_74",
        AgeClass::Class75_79 => "Class75_79",
        AgeClass::Class80_999 => "Class80_999",
        AgeClass::Unknown => "None",
    }
}

fn some_ages() -> Vec<Age> {
    let mut ages = vec![Age::Unknown];
    for n in 0..=255u8 {
        ages.push(Age::Exact(n));
        ages.push(Age::Approximate(n));
    }
    ages
}

#[test]
fn class_of_every_age_is_that_of_opltypes() {
    for age in some_ages() {
        if age == Age::Approximate(255) {
            continue;
        }
        let outside = opltypes::AgeClass::from(outside_age(age));
        assert_eq!(class_name(AgeClass::from_age(age)), format!("{:?}", outside));
    }
}

#[test]
fn class_of_every_range_is_that_of_opltypes() {
    for min in some_ages() {
        for max in some_ages() {
            if !AgeClass::can_span(min, max) {
                continue;
            }
            let range = opltypes::AgeRange::from((outside_age(min), outside_age(max)));
            let outside = opltypes::AgeClass::from(range);
            assert_eq!(class_name(AgeClass::from_range(min, max)), format!("{:?}", outside));
        }
    }
}

#[test]
fn class_codes_follow_the_declaration_of_the_classes() {
    let names = [
        "Class5_12",
        "Class13_15",
        "Class16_17",
        "Class18_19",
        "Class20_23",
        "Class24_34",
        "Class35_39",
        "Class40_44",
        "Class45_49",
        "Class50_54",
        "Class55_59",
        "Class60_64",
        "Class65_69",
        "Class70_74",
        "Class75_79",
        "Class80_999",
        "None",
    ];
    for (code, name) in names.iter().enumerate() {
        assert_eq!(class_name(AgeClass::from_code(code as u8)), *name);
    }
    assert_eq!(AgeClass::from_code(17), AgeClass::Unknown);
    assert_eq!(AgeClass::from_code(255), AgeClass::Unknown);
    assert_eq!(opltypes::AgeClass::Class5_12 as u8, 0);
    assert_eq!(opltypes::AgeClass::Class24_34 as u8, 5);
    assert_eq!(opltypes::AgeClass::Class80_999 as u8, 15);
    assert_eq!(opltypes::AgeClass::None as u8, 16);
}

#[test]
fn age_on_is_that_of_opltypes() {
    let years = [1100u32, 1744, 1745, 1746, 1899, 1983, 1999, 2000, 2001, 2019, 9997];
    let days = [(1u32, 1u32), (2, 29), (3, 15), (3, 16), (3, 17), (6, 30), (12, 31)];
    for &birth_year in &years {
        for &(birth_month, birth_day) in &days {
            for &year in &years {
                for &(month, day) in &days {
                    let birth = Date::from_u32(birth_year * 10000 + birth_month * 100 + birth_day);
                    let date = Date::from_u32(year * 10000 + month * 100 + day);
                    let outside = opltypes::Date::from_parts(birth_year, birth_month, birth_day)
                        .age_on(opltypes::Date::from_parts(year, month, day));
                    assert_eq!(birth.age_on(date).ok(), outside.ok().map(inside_age));
                }
            }
        }
    }
}

#[test]
fn date_parts_are_those_of_opltypes() {
    for &(year, month, day) in &[(1100u32, 1u32, 1u32), (1988, 2, 16), (2019, 12, 31), (9997, 6, 15)] {
        let date = Date::from_u32(year * 10000 + month * 100 + day);
        let outside = opltypes::Date::from_parts(year, month, day);
        assert_eq!(date.year(), outside.year());
        assert_eq!(date.month(), outside.month());
        assert_eq!(date.day(), outside.day());
        assert_eq!(date.monthday(), outside.monthday());
    }
}

#[test]
fn age_accessors_are_those_of_opltypes() {
    for age in some_ages() {
        assert_eq!(age.to_u8_option(), outside_age(age).to_u8_option());
        assert_eq!(age.is_exact(), outside_age(age).is_exact());
        assert_eq!(age.is_unknown(), outside_age(age).is_none());
    }
}
