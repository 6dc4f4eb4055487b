//! Validation diagnostics and age inference for competition result records.
//!
//! The crate has two halves. The first narrows the range of possible
//! birthdates of a lifter from the facts recorded across that lifter's
//! entries, and writes the ages that the range implies back into the
//! entries. The second holds the bookkeeping of a validation run: reports,
//! their counts, and the decisions that depend on them.
//!
//! Age inference, from the ground up:
//! - `date`, `age`, `ageclass`: the values that entries hold;
//! - `range`: a range of birthdates and the calls that narrow it;
//! - `meaning`: which birthdates a narrowing call keeps;
//! - `store`, `lifters`: the entries of all meets, and who they belong to;
//! - `derivation`, `propagation`, `inference`: from the entries of a lifter
//!   to a range, and from the range back into the entries;
//! - `independence`: lifters do not get in each other's way;
//! - `trace`: a record of the steps, for the diagnosis of one lifter.
//!
//! Validation: `report` holds the findings about one file, `configs` the
//! loading of the configurations, `validation` the counts of a run and what
//! follows from them.

pub mod age;
pub mod ageclass;
pub mod configs;
pub mod date;
pub mod derivation;
pub mod independence;
pub mod inference;
pub mod lifters;
pub mod meaning;
pub mod propagation;
pub mod range;
pub mod report;
pub mod store;
pub mod trace;
pub mod validation;
