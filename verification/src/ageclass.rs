//! The age classes that lifters are listed under.
//!
//! Which class an age or a range of ages falls into is laid down by the
//! crate `opltypes`, and is asked of it.

use vstd::prelude::*;
use crate::age::Age;

verus! {

/// The age class that a lifter is listed under.
#[derive(Copy, Clone, Debug, PartialEq, Eq, Hash, Structural)]
pub enum AgeClass {
    Class5_12,
    Class13_15,
    Class16_17,
    Class18_19,
    Class20_23,
    Class24_34,
    Class35_39,
    Class40_44,
    Class45_49,
    Class50_54,
    Class55_59,
    Class60_64,
    Class65_69,
    Class70_74,
    Class75_79,
    Class80_999,
    /// No class could be assigned.
    Unknown,
}

/// The place, among the variants of `opltypes::AgeClass` in the order of
/// their declaration, of the class that `opltypes` assigns to an age.
pub uninterp spec fn class_code_of_age(age: Age) -> u8;

/// The place, among the variants of `opltypes::AgeClass` in the order of
/// their declaration, of the class that `opltypes` assigns to a range of
/// ages. An end of the range that is not given is open.
pub uninterp spec fn class_code_of_range(least: Option<u8>, greatest: Option<u8>) -> u8;

/// The least age of the range of ages that begins with `min`, if it has one.
/// A range that begins with the age of 0 has none: it is open at that end.
/// An approximate age counts as its lower number.
pub open spec fn range_floor(min: Age) -> Option<u8> {
    match min {
        Age::Exact(n) => if n == 0 {
            None
        } else {
            Some(n)
        },
        Age::Approximate(n) => Some(n),
        Age::Unknown => None,
    }
}

/// The greatest age of the range of ages that ends with `max`, if it has
/// one. A range that ends with the age of 255 has none: it is open at that
/// end. An approximate age counts as its higher number, which must be one
/// that an age can hold.
pub open spec fn range_ceiling(max: Age) -> Option<u8> {
    match max {
        Age::Exact(n) => if n == 255 {
            None
        } else {
            Some(n)
        },
        Age::Approximate(n) => if n == 255 {
            None
        } else {
            Some((n + 1) as u8)
        },
        Age::Unknown => None,
    }
}

/// Asks `opltypes` for the class of an age. This is
/// `<opltypes::AgeClass as From<opltypes::Age>>::from`, which computes the
/// class from the age alone. The class is handed back as the place of its
/// variant in the declaration of `opltypes::AgeClass`. For an approximate
/// age of 255 the outside function adds one to 255: that age is left out.
#[verifier::external_body]
fn outside_class_of_age(age: Age) -> (code: u8)
    requires
        age != Age::Approximate(255),
    ensures
        code == class_code_of_age(age),
{
    let outside = match age {
        Age::Exact(n) => opltypes::Age::Exact(n),
        Age::Approximate(n) => opltypes::Age::Approximate(n),
        Age::Unknown => opltypes::Age::None,
    };
    opltypes::AgeClass::from(outside) as u8
}

/// Asks `opltypes` for the class of a range of ages. This is
/// `<opltypes::AgeClass as From<opltypes::AgeRange>>::from`, which computes
/// the class from the two ends of the range alone. The class is handed back
/// as the place of its variant in the declaration of `opltypes::AgeClass`.
/// Where the two ends fall into different classes, the outside function
/// subtracts the least age from the greatest: ranges whose ends are out of
/// order are left out.
#[verifier::external_body]
fn outside_class_of_range(least: Option<u8>, greatest: Option<u8>) -> (code: u8)
    requires
        least is Some && greatest is Some ==> least.unwrap() <= greatest.unwrap(),
    ensures
        code == class_code_of_range(least, greatest),
{
    let min = match least {
        Some(n) => opltypes::Age::Exact(n),
        None => opltypes::Age::None,
    };
    let max = match greatest {
        Some(n) => opltypes::Age::Exact(n),
        None => opltypes::Age::None,
    };
    opltypes::AgeClass::from(opltypes::AgeRange { min, max }) as u8
}

impl AgeClass {
    /// The class whose variant stands at the given place in the declaration
    /// of `opltypes::AgeClass`. The last place is that of no class.
    pub open spec fn of_code(code: u8) -> AgeClass {
        if code == 0 {
            AgeClass::Class5_12
        } else if code == 1 {
            AgeClass::Class13_15
        } else if code == 2 {
            AgeClass::Class16_17
        } else if code == 3 {
            AgeClass::Class18_19
        } else if code == 4 {
            AgeClass::Class20_23
        } else if code == 5 {
            AgeClass::Class24_34
        } else if code == 6 {
            AgeClass::Class35_39
        } else if code == 7 {
            AgeClass::Class40_44
        } else if code == 8 {
            AgeClass::Class45_49
        } else if code == 9 {
            AgeClass::Class50_54
        } else if code == 10 {
            AgeClass::Class55_59
        } else if code == 11 {
            AgeClass::Class60_64
        } else if code == 12 {
            AgeClass::Class65_69
        } else if code == 13 {
            AgeClass::Class70_74
        } else if code == 14 {
            AgeClass::Class75_79
        } else if code == 15 {
            AgeClass::Class80_999
        } else {
            AgeClass::Unknown
        }
    }

    /// The class of an age.
    pub open spec fn spec_from_age(age: Age) -> AgeClass {
        AgeClass::of_code(class_code_of_age(age))
    }

    /// The class of the range of ages from `min` to `max`.
    pub open spec fn spec_from_range(min: Age, max: Age) -> AgeClass {
        AgeClass::of_code(class_code_of_range(range_floor(min), range_ceiling(max)))
    }

    /// The ages from `min` to `max` make a range that has a class: the
    /// greatest age can be held, and is not less than the least.
    pub open spec fn spans(min: Age, max: Age) -> bool {
        &&& max != Age::Approximate(255)
        &&& range_floor(min) is Some && range_ceiling(max) is Some ==> range_floor(min).unwrap()
            <= range_ceiling(max).unwrap()
    }

    /// The class whose variant stands at the given place in the declaration
    /// of `opltypes::AgeClass`.
    pub fn from_code(code: u8) -> (r: AgeClass)
        ensures
            r == AgeClass::of_code(code),
    {
        if code == 0 {
            AgeClass::Class5_12
        } else if code == 1 {
            AgeClass::Class13_15
        } else if code == 2 {
            AgeClass::Class16_17
        } else if code == 3 {
            AgeClass::Class18_19
        } else if code == 4 {
            AgeClass::Class20_23
        } else if code == 5 {
            AgeClass::Class24_34
        } else if code == 6 {
            AgeClass::Class35_39
        } else if code == 7 {
            AgeClass::Class40_44
        } else if code == 8 {
            AgeClass::Class45_49
        } else if code == 9 {
            AgeClass::Class50_54
        } else if code == 10 {
            AgeClass::Class55_59
        } else if code == 11 {
            AgeClass::Class60_64
        } else if code == 12 {
            AgeClass::Class65_69
        } else if code == 13 {
            AgeClass::Class70_74
        } else if code == 14 {
            AgeClass::Class75_79
        } else if code == 15 {
            AgeClass::Class80_999
        } else {
            AgeClass::Unknown
        }
    }

    /// Assigns the class of an age.
    pub fn from_age(age: Age) -> (r: AgeClass)
        requires
            age != Age::Approximate(255),
        ensures
            r == AgeClass::spec_from_age(age),
    {
        AgeClass::from_code(outside_class_of_age(age))
    }

    /// The least age of the range of ages that begins with `min`.
    fn floor_of(min: Age) -> (r: Option<u8>)
        ensures
            r == range_floor(min),
    {
        match min {
            Age::Exact(n) => if n == 0 {
                None
            } else {
                Some(n)
            },
            Age::Approximate(n) => Some(n),
            Age::Unknown => None,
        }
    }

    /// The greatest age of the range of ages that ends with `max`.
    fn ceiling_of(max: Age) -> (r: Option<u8>)
        ensures
            r == range_ceiling(max),
    {
        match max {
            Age::Exact(n) => if n == 255 {
                None
            } else {
                Some(n)
            },
            Age::Approximate(n) => if n == 255 {
                None
            } else {
                Some(n + 1)
            },
            Age::Unknown => None,
        }
    }

    /// Whether the ages from `min` to `max` make a range that has a class.
    pub fn can_span(min: Age, max: Age) -> (r: bool)
        ensures
            r == AgeClass::spans(min, max),
    {
        match max {
            Age::Approximate(255) => false,
            _ => match (AgeClass::floor_of(min), AgeClass::ceiling_of(max)) {
                (Some(least), Some(greatest)) => least <= greatest,
                _ => true,
            },
        }
    }

    /// Assigns the class of the range of ages from `min` to `max`. The two
    /// ends are read as `range_floor` and `range_ceiling` say.
    pub fn from_range(min: Age, max: Age) -> (r: AgeClass)
        requires
            AgeClass::spans(min, max),
        ensures
            r == AgeClass::spec_from_range(min, max),
    {
        let least = AgeClass::floor_of(min);
        let greatest = AgeClass::ceiling_of(max);
        AgeClass::from_code(outside_class_of_range(least, greatest))
    }

    pub fn is_unknown(self) -> (r: bool)
        ensures
            r == (self is Unknown),
    {
        match self {
            AgeClass::Unknown => true,
            _ => false,
        }
    }
}

} // verus!
