//! A record of what age inference did, for the diagnosis of one lifter.

use vstd::prelude::*;
use crate::age::Age;
use crate::ageclass::AgeClass;
use crate::date::Date;
use crate::range::BirthDateRange;
use crate::store::EntryIndex;

verus! {

/// One thing that an entry says about its lifter's birthdate.
#[derive(Copy, Clone, Debug, PartialEq, Eq, Structural)]
pub enum Fact {
    /// The birthdate itself.
    BirthDate(Date),
    /// The year of birth.
    BirthYear(u32),
    /// The age on the day of the meet.
    Age(Age),
    /// The ages that the entry's division admits.
    Division { min: Age, max: Age },
}

/// One value that inference wrote into an entry.
#[derive(Copy, Clone, Debug, PartialEq, Eq, Structural)]
pub enum Inferred {
    Age(Age),
    BirthYear(u32),
    /// An age class that follows from the inferred age.
    AgeClassViaAge(AgeClass),
    /// An age class that follows from the two ends of the range.
    AgeClassViaRange(AgeClass),
}

/// One step of age inference.
#[derive(Copy, Clone, Debug, PartialEq, Eq, Structural)]
pub enum TraceEvent {
    /// The fact of the entry at `index` narrowed the range to `range`.
    Narrowed { range: BirthDateRange, fact: Fact, index: EntryIndex },
    /// The fact of the entry at `index` contradicts the range, which implies
    /// the age `expected` on the day of that entry's meet.
    Conflict { fact: Fact, index: EntryIndex, expected: Age },
    /// All facts agreed, and left this range.
    FinalRange { range: BirthDateRange },
    /// A value was written into an entry of a meet held on `date`.
    Inferred { value: Inferred, date: Date },
}

/// Collects the steps of age inference, or ignores them.
///
/// A trace that is switched off takes nothing in, so that inference over
/// the whole store costs nothing for it. Whether a trace is on has no
/// bearing on what inference does to the store.
#[derive(Clone, Debug, PartialEq, Eq)]
pub struct Trace {
    pub enabled: bool,
    pub events: Vec<TraceEvent>,
}

impl Trace {
    /// What a trace holds after `events` were offered to it.
    pub open spec fn offered(self, events: Seq<TraceEvent>) -> Seq<TraceEvent> {
        if self.enabled {
            self.events@ + events
        } else {
            self.events@
        }
    }

    /// `after` is `before` once `events` were offered to it.
    pub open spec fn extends(before: Trace, after: Trace, events: Seq<TraceEvent>) -> bool {
        after.enabled == before.enabled && after.events@ == before.offered(events)
    }

    /// Offering one run of events after another is offering both at once.
    pub proof fn lemma_extends_twice(
        first: Trace,
        second: Trace,
        third: Trace,
        earlier: Seq<TraceEvent>,
        later: Seq<TraceEvent>,
    )
        requires
            Trace::extends(first, second, earlier),
            Trace::extends(second, third, later),
        ensures
            Trace::extends(first, third, earlier + later),
    {
        assert(third.events@ =~= first.offered(earlier + later));
    }

    /// A trace that ignores what it is offered.
    pub fn off() -> (r: Trace)
        ensures
            !r.enabled,
            r.events@ == Seq::<TraceEvent>::empty(),
    {
        Trace { enabled: false, events: Vec::new() }
    }

    /// A trace that collects what it is offered.
    pub fn on() -> (r: Trace)
        ensures
            r.enabled,
            r.events@ == Seq::<TraceEvent>::empty(),
    {
        Trace { enabled: true, events: Vec::new() }
    }

    /// Offers one event.
    pub fn record(&mut self, event: TraceEvent)
        ensures
            Trace::extends(*old(self), *final(self), seq![event]),
    {
        if self.enabled {
            self.events.push(event);
            assert(self.events@ =~= old(self).events@ + seq![event]);
        }
    }
}

} // verus!
