//! The age of a lifter.

use vstd::prelude::*;

verus! {

/// The age of a lifter on the day of a meet.
#[derive(Copy, Clone, Debug, PartialEq, Eq, Hash, Structural)]
pub enum Age {
    /// The age is known to be exactly this many whole years.
    Exact(u8),
    /// The age is either this many whole years or one more.
    Approximate(u8),
    /// Nothing is known.
    Unknown,
}

impl Age {
    /// The number carried by the age, if it carries one.
    pub open spec fn spec_to_u8_option(self) -> Option<u8> {
        match self {
            Age::Exact(n) => Some(n),
            Age::Approximate(n) => Some(n),
            Age::Unknown => None,
        }
    }

    /// Whether a lifter of `years` whole years has this age. An approximate
    /// age stands for its number and the next.
    pub open spec fn admits(self, years: int) -> bool {
        match self {
            Age::Exact(n) => years == n,
            Age::Approximate(n) => years == n || years == n + 1,
            Age::Unknown => true,
        }
    }

    /// The least number of years that the age admits. An unknown age admits
    /// every number and has no least one: the value for it is not meant.
    pub open spec fn at_least(self) -> int
        recommends
            self != Age::Unknown,
    {
        match self {
            Age::Exact(n) => n as int,
            Age::Approximate(n) => n as int,
            Age::Unknown => 0,
        }
    }

    /// The greatest number of years that the age admits. An unknown age
    /// admits every number and has no greatest one: the value for it is not
    /// meant.
    pub open spec fn at_most(self) -> int
        recommends
            self != Age::Unknown,
    {
        match self {
            Age::Exact(n) => n as int,
            Age::Approximate(n) => n as int + 1,
            Age::Unknown => 0,
        }
    }

    pub fn is_exact(self) -> (r: bool)
        ensures
            r == (self is Exact),
    {
        match self {
            Age::Exact(_) => true,
            _ => false,
        }
    }

    pub fn is_unknown(self) -> (r: bool)
        ensures
            r == (self is Unknown),
    {
        match self {
            Age::Unknown => true,
            _ => false,
        }
    }

    #[verifier::when_used_as_spec(spec_to_u8_option)]
    pub fn to_u8_option(self) -> (r: Option<u8>)
        ensures
            r == self.spec_to_u8_option(),
    {
        match self {
            Age::Exact(n) => Some(n),
            Age::Approximate(n) => Some(n),
            Age::Unknown => None,
        }
    }
}

} // verus!
