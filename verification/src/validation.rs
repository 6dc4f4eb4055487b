//! The bookkeeping of a validation run.
//!
//! Every grouping of files is checked on its own, in any order. What the
//! checks found is counted here, and the counts decide how the run goes on.

use vstd::prelude::*;
use crate::report::{errors_in, warnings_in, Report};
use crate::store::{Entry, Meet, SingleMeetData};

verus! {

/// Counts of findings, without a limit.
pub struct Counts {
    /// Errors in the data.
    pub errors: nat,
    /// Warnings about the data.
    pub warnings: nat,
    /// Groupings that could not be checked at all.
    pub internal: nat,
}

impl Counts {
    pub open spec fn zero() -> Counts {
        Counts { errors: 0, warnings: 0, internal: 0 }
    }

    pub open spec fn plus(self, other: Counts) -> Counts {
        Counts {
            errors: self.errors + other.errors,
            warnings: self.warnings + other.warnings,
            internal: self.internal + other.internal,
        }
    }

    /// Each count can be held in a `usize`.
    pub open spec fn fits(self) -> bool {
        self.errors <= usize::MAX && self.warnings <= usize::MAX && self.internal <= usize::MAX
    }

    /// No count is less than in `other`.
    pub open spec fn covers(self, other: Counts) -> bool {
        self.errors >= other.errors && self.warnings >= other.warnings && self.internal
            >= other.internal
    }

    /// Whether a run with these counts has failed: it has if there is an
    /// error of either kind, however many warnings there are.
    pub open spec fn failed(self) -> bool {
        self.errors > 0 || self.internal > 0
    }
}

/// Counts of findings: of one report, of one grouping or of a run.
#[derive(Copy, Clone, Debug, PartialEq, Eq, Structural)]
pub struct Tally {
    /// Errors in the data.
    pub errors: usize,
    /// Warnings about the data.
    pub warnings: usize,
    /// Groupings that could not be checked at all.
    pub internal: usize,
}

impl View for Tally {
    type V = Counts;

    open spec fn view(&self) -> Counts {
        Counts {
            errors: self.errors as nat,
            warnings: self.warnings as nat,
            internal: self.internal as nat,
        }
    }
}

/// The counts of one report.
pub open spec fn counts_of(report: Report) -> Counts {
    Counts {
        errors: errors_in(report.messages@),
        warnings: warnings_in(report.messages@),
        internal: 0,
    }
}

/// The counts of several reports together.
pub open spec fn counts_of_all(reports: Seq<Report>) -> Counts
    decreases reports.len(),
{
    if reports.len() == 0 {
        Counts::zero()
    } else {
        counts_of_all(reports.drop_last()).plus(counts_of(reports.last()))
    }
}

/// The sum of the tallies.
pub open spec fn sum(tallies: Seq<Tally>) -> Counts
    decreases tallies.len(),
{
    if tallies.len() == 0 {
        Counts::zero()
    } else {
        sum(tallies.drop_last()).plus(tallies.last()@)
    }
}

impl Tally {
    /// No findings.
    pub fn zero() -> (r: Tally)
        ensures
            r@ == Counts::zero(),
    {
        Tally { errors: 0, warnings: 0, internal: 0 }
    }

    /// The tally of one grouping that could not be checked.
    pub fn internal_error() -> (r: Tally)
        ensures
            r@ == (Counts { errors: 0, warnings: 0, internal: 1 }),
    {
        Tally { errors: 0, warnings: 0, internal: 1 }
    }

    /// The tally of one report.
    pub fn of_report(report: &Report) -> (r: Tally)
        ensures
            r@ == counts_of(*report),
    {
        let (errors, warnings) = report.count_messages();
        Tally { errors, warnings, internal: 0 }
    }

    /// The sum of two tallies, or `None` if a count of it cannot be held.
    pub fn merge(self, other: Tally) -> (r: Option<Tally>)
        ensures
            match r {
                Some(total) => total@ == self@.plus(other@),
                None => !self@.plus(other@).fits(),
            },
    {
        if self.errors > usize::MAX - other.errors || self.warnings > usize::MAX - other.warnings
            || self.internal > usize::MAX - other.internal {
            None
        } else {
            Some(
                Tally {
                    errors: self.errors + other.errors,
                    warnings: self.warnings + other.warnings,
                    internal: self.internal + other.internal,
                },
            )
        }
    }

    /// Whether there is anything to show: an error or a warning in the data.
    pub fn has_messages(&self) -> (r: bool)
        ensures
            r == (self@.errors > 0 || self@.warnings > 0),
    {
        self.errors > 0 || self.warnings > 0
    }

    /// Whether a run with this tally has failed. Warnings alone fail nothing.
    pub fn is_failure(&self) -> (r: bool)
        ensures
            r == self@.failed(),
    {
        self.errors > 0 || self.internal > 0
    }

    /// The number of errors of both kinds, or `None` if it cannot be held.
    pub fn all_errors(&self) -> (r: Option<usize>)
        ensures
            match r {
                Some(n) => n == self@.errors + self@.internal,
                None => self@.errors + self@.internal > usize::MAX,
            },
    {
        if self.errors > usize::MAX - self.internal {
            None
        } else {
            Some(self.errors + self.internal)
        }
    }
}

/// The sum of a run of tallies covers the sum of every run that it starts
/// with.
pub proof fn lemma_sum_grows(tallies: Seq<Tally>, n: int)
    requires
        0 <= n <= tallies.len(),
    ensures
        sum(tallies).covers(sum(tallies.take(n))),
    decreases tallies.len() - n,
{
    if n == tallies.len() {
        assert(tallies.take(n) =~= tallies);
    } else {
        assert(tallies.take(n + 1).drop_last() =~= tallies.take(n));
        lemma_sum_grows(tallies, n + 1);
    }
}

/// The counts of a run of reports cover those of every run that it starts
/// with.
pub proof fn lemma_counts_grow(reports: Seq<Report>, n: int)
    requires
        0 <= n <= reports.len(),
    ensures
        counts_of_all(reports).covers(counts_of_all(reports.take(n))),
    decreases reports.len() - n,
{
    if n == reports.len() {
        assert(reports.take(n) =~= reports);
    } else {
        assert(reports.take(n + 1).drop_last() =~= reports.take(n));
        lemma_counts_grow(reports, n + 1);
    }
}

/// Adds up the tallies of all groupings of a run. Returns `None` if a count
/// of the sum cannot be held.
pub fn aggregate(tallies: &[Tally]) -> (r: Option<Tally>)
    ensures
        match r {
            Some(total) => total@ == sum(tallies@),
            None => !sum(tallies@).fits(),
        },
{
    let mut total = Tally::zero();
    let mut i: usize = 0;
    while i < tallies.len()
        invariant
            0 <= i <= tallies.len(),
            total@ == sum(tallies@.take(i as int)),
        decreases tallies.len() - i,
    {
        proof {
            assert(tallies@.take(i + 1).drop_last() =~= tallies@.take(i as int));
            lemma_sum_grows(tallies@, i + 1);
        }
        match total.merge(tallies[i]) {
            Some(next) => {
                total = next;
            },
            None => {
                return None;
            },
        }
        i += 1;
    }
    proof {
        assert(tallies@.take(i as int) =~= tallies@);
    }
    Some(total)
}

/// Adds up the counts of the reports of one grouping. Returns `None` if a
/// count of the sum cannot be held.
pub fn tally_reports(reports: &[Report]) -> (r: Option<Tally>)
    ensures
        match r {
            Some(total) => total@ == counts_of_all(reports@),
            None => !counts_of_all(reports@).fits(),
        },
{
    let mut total = Tally::zero();
    let mut i: usize = 0;
    while i < reports.len()
        invariant
            0 <= i <= reports.len(),
            total@ == counts_of_all(reports@.take(i as int)),
        decreases reports.len() - i,
    {
        proof {
            assert(reports@.take(i + 1).drop_last() =~= reports@.take(i as int));
            lemma_counts_grow(reports@, i + 1);
        }
        match total.merge(Tally::of_report(&reports[i])) {
            Some(next) => {
                total = next;
            },
            None => {
                return None;
            },
        }
        i += 1;
    }
    proof {
        assert(reports@.take(i as int) =~= reports@);
    }
    Some(total)
}

/// Taking one tally out of a run lessens the sum by that tally.
pub proof fn lemma_sum_remove(tallies: Seq<Tally>, i: int)
    requires
        0 <= i < tallies.len(),
    ensures
        sum(tallies) == sum(tallies.remove(i)).plus(tallies[i]@),
    decreases tallies.len(),
{
    if i == tallies.len() - 1 {
        assert(tallies.remove(i) =~= tallies.drop_last());
    } else {
        lemma_sum_remove(tallies.drop_last(), i);
        assert(tallies.remove(i).drop_last() =~= tallies.drop_last().remove(i));
        assert(tallies.remove(i).last() == tallies.last());
    }
}

/// The sum does not depend on the order of the tallies: two runs that hold
/// the same tallies, each as often in the one as in the other, have the same
/// sum. So the totals of a run are the same in whatever order its groupings
/// were checked.
pub proof fn lemma_sum_ignores_order(a: Seq<Tally>, b: Seq<Tally>)
    requires
        a.to_multiset() == b.to_multiset(),
    ensures
        sum(a) == sum(b),
    decreases a.len(),
{
    broadcast use vstd::seq_lib::group_to_multiset_ensures;

    a.to_multiset_ensures();
    b.to_multiset_ensures();
    if a.len() == 0 {
        assert(b.len() == 0);
    } else {
        let last = a.last();
        assert(a.contains(last));
        assert(b.to_multiset().count(last) > 0);
        assert(b.contains(last));
        let j = choose|j: int| 0 <= j < b.len() && b[j] == last;
        assert(a.drop_last() =~= a.remove(a.len() - 1));
        assert(a.remove(a.len() - 1).to_multiset() =~= a.to_multiset().remove(last));
        assert(b.remove(j).to_multiset() =~= b.to_multiset().remove(last));
        lemma_sum_ignores_order(a.drop_last(), b.remove(j));
        lemma_sum_remove(b, j);
    }
}

/// The sum of two runs of tallies, one after the other, is the sum of their
/// sums. So the groupings can be counted in parts, and the parts added up.
pub proof fn lemma_sum_of_parts(a: Seq<Tally>, b: Seq<Tally>)
    ensures
        sum(a + b) == sum(a).plus(sum(b)),
    decreases b.len(),
{
    if b.len() == 0 {
        assert(a + b =~= a);
    } else {
        assert((a + b).drop_last() =~= a + b.drop_last());
        lemma_sum_of_parts(a, b.drop_last());
    }
}

/// What came of the check of one grouping.
#[derive(Clone, Debug, PartialEq, Eq)]
pub enum CheckOutcome {
    /// The grouping was checked. Its meet and its entries are there if the
    /// files could be made sense of.
    Checked { reports: Vec<Report>, meet: Option<Meet>, entries: Option<Vec<Entry>> },
    /// The grouping could not be checked: a file could not be read, or was
    /// not what it must be.
    InternalError,
}

impl CheckOutcome {
    /// What the outcome adds to the counts of the run: the findings of its
    /// reports, or one internal error.
    pub open spec fn counts(self) -> Counts {
        match self {
            CheckOutcome::Checked { reports, meet, entries } => counts_of_all(reports@),
            CheckOutcome::InternalError => Counts { errors: 0, warnings: 0, internal: 1 },
        }
    }

    /// What the outcome adds to the store: a meet with its entries, if the
    /// check has yielded both.
    pub open spec fn data(self) -> Option<SingleMeetData> {
        match self {
            CheckOutcome::Checked { reports, meet: Some(meet), entries: Some(entries) } => Some(
                SingleMeetData { meet, entries },
            ),
            _ => None,
        }
    }

    /// The tally of the outcome, or `None` if a count of it cannot be held.
    pub fn tally(&self) -> (r: Option<Tally>)
        ensures
            match r {
                Some(total) => total@ == self.counts(),
                None => !self.counts().fits(),
            },
    {
        match self {
            CheckOutcome::Checked { reports, meet, entries } => tally_reports(reports.as_slice()),
            CheckOutcome::InternalError => Some(Tally::internal_error()),
        }
    }

    /// The meet and its entries for the store, if the check has yielded
    /// both.
    pub fn into_data(self) -> (r: Option<SingleMeetData>)
        ensures
            r == self.data(),
    {
        match self {
            CheckOutcome::Checked { reports, meet: Some(meet), entries: Some(entries) } => Some(
                SingleMeetData { meet, entries },
            ),
            _ => None,
        }
    }
}

/// The meets and entries that the outcomes add to the store, in the order of
/// the outcomes.
pub open spec fn data_of_all(outcomes: Seq<CheckOutcome>) -> Seq<SingleMeetData>
    decreases outcomes.len(),
{
    if outcomes.len() == 0 {
        Seq::empty()
    } else {
        match outcomes.last().data() {
            Some(data) => data_of_all(outcomes.drop_last()).push(data),
            None => data_of_all(outcomes.drop_last()),
        }
    }
}

/// What the outcomes add to the counts of the run together.
pub open spec fn counts_of_outcomes(outcomes: Seq<CheckOutcome>) -> Counts
    decreases outcomes.len(),
{
    if outcomes.len() == 0 {
        Counts::zero()
    } else {
        counts_of_outcomes(outcomes.drop_last()).plus(outcomes.last().counts())
    }
}

/// The counts of a run of outcomes cover those of every run that it starts
/// with.
pub proof fn lemma_counts_of_outcomes_grow(outcomes: Seq<CheckOutcome>, n: int)
    requires
        0 <= n <= outcomes.len(),
    ensures
        counts_of_outcomes(outcomes).covers(counts_of_outcomes(outcomes.take(n))),
    decreases outcomes.len() - n,
{
    if n == outcomes.len() {
        assert(outcomes.take(n) =~= outcomes);
    } else {
        assert(outcomes.take(n + 1).drop_last() =~= outcomes.take(n));
        lemma_counts_of_outcomes_grow(outcomes, n + 1);
    }
}

/// Taking one outcome out of a run lessens the counts by those of that
/// outcome, and takes its meet, if it has one, out of what goes to the
/// store.
pub proof fn lemma_outcome_removed(outcomes: Seq<CheckOutcome>, i: int)
    requires
        0 <= i < outcomes.len(),
    ensures
        counts_of_outcomes(outcomes) == counts_of_outcomes(outcomes.remove(i)).plus(
            outcomes[i].counts(),
        ),
        data_of_all(outcomes).to_multiset() == (match outcomes[i].data() {
            Some(data) => data_of_all(outcomes.remove(i)).to_multiset().insert(data),
            None => data_of_all(outcomes.remove(i)).to_multiset(),
        }),
    decreases outcomes.len(),
{
    broadcast use vstd::seq_lib::group_to_multiset_ensures;

    if i == outcomes.len() - 1 {
        assert(outcomes.remove(i) =~= outcomes.drop_last());
    } else {
        lemma_outcome_removed(outcomes.drop_last(), i);
        assert(outcomes.remove(i).drop_last() =~= outcomes.drop_last().remove(i));
        assert(outcomes.remove(i).last() == outcomes.last());
        let rest = data_of_all(outcomes.drop_last().remove(i)).to_multiset();
        match (outcomes[i].data(), outcomes.last().data()) {
            (Some(removed), Some(last)) => {
                assert(rest.insert(removed).insert(last) =~= rest.insert(last).insert(removed));
            },
            _ => {},
        }
    }
}

/// Neither the counts of a run nor the meets that go to the store depend on
/// the order in which the groupings were checked: two runs of the same
/// outcomes, each as often in the one as in the other, have the same counts
/// and send the same meets to the store, each as often.
pub proof fn lemma_gathering_ignores_order(a: Seq<CheckOutcome>, b: Seq<CheckOutcome>)
    requires
        a.to_multiset() == b.to_multiset(),
    ensures
        counts_of_outcomes(a) == counts_of_outcomes(b),
        data_of_all(a).to_multiset() == data_of_all(b).to_multiset(),
    decreases a.len(),
{
    broadcast use vstd::seq_lib::group_to_multiset_ensures;

    a.to_multiset_ensures();
    b.to_multiset_ensures();
    if a.len() == 0 {
        assert(b.len() == 0);
    } else {
        let last = a.last();
        assert(a.contains(last));
        assert(b.to_multiset().count(last) > 0);
        assert(b.contains(last));
        let j = choose|j: int| 0 <= j < b.len() && b[j] == last;
        assert(a.drop_last() =~= a.remove(a.len() - 1));
        assert(a.remove(a.len() - 1).to_multiset() =~= a.to_multiset().remove(last));
        assert(b.remove(j).to_multiset() =~= b.to_multiset().remove(last));
        lemma_gathering_ignores_order(a.drop_last(), b.remove(j));
        lemma_outcome_removed(b, j);
        lemma_outcome_removed(a, a.len() - 1);
    }
}

/// Gathers what the checks of all groupings have yielded: the meets with
/// their entries for the store, and the counts of the run. The counts are
/// `None` if one of them cannot be held.
pub fn gather(outcomes: Vec<CheckOutcome>) -> (r: (Vec<SingleMeetData>, Option<Tally>))
    ensures
        r.0@ == data_of_all(outcomes@),
        match r.1 {
            Some(total) => total@ == counts_of_outcomes(outcomes@),
            None => !counts_of_outcomes(outcomes@).fits(),
        },
{
    let mut meets: Vec<SingleMeetData> = Vec::new();
    let mut total: Option<Tally> = Some(Tally::zero());
    for outcome in it: outcomes
        invariant
            it.seq() == outcomes@,
            meets@ == data_of_all(outcomes@.take(it.index() as int)),
            match total {
                Some(so_far) => so_far@ == counts_of_outcomes(outcomes@.take(it.index() as int)),
                None => !counts_of_outcomes(outcomes@).fits(),
            },
    {
        proof {
            let n = it.index() as int;
            assert(outcomes@.take(n + 1).drop_last() =~= outcomes@.take(n));
            assert(outcomes@.take(n + 1).last() == outcome);
            lemma_counts_of_outcomes_grow(outcomes@, n + 1);
        }
        total = match total {
            Some(so_far) => match outcome.tally() {
                Some(tally) => so_far.merge(tally),
                None => None,
            },
            None => None,
        };
        if let Some(data) = outcome.into_data() {
            meets.push(data);
        }
    }
    proof {
        assert(outcomes@.take(outcomes@.len() as int) =~= outcomes@);
    }
    (meets, total)
}

/// Whether a directory holds the results of a meet: it does if it has a file
/// of entries or a file that describes the meet.
pub fn is_meetdir(is_dir: bool, has_entries_file: bool, has_meet_file: bool) -> (r: bool)
    ensures
        r == (is_dir && (has_entries_file || has_meet_file)),
{
    is_dir && (has_entries_file || has_meet_file)
}

/// How a part of the summary is to be read.
#[derive(Copy, Clone, Debug, PartialEq, Eq, Structural)]
pub enum Tone {
    /// Nothing was found.
    Good,
    /// Warnings were found.
    Caution,
    /// Errors were found.
    Bad,
}

/// One part of the summary: a count, whether its noun stands in the plural,
/// and how it is to be read.
#[derive(Copy, Clone, Debug, PartialEq, Eq, Structural)]
pub struct SummaryPart {
    pub count: usize,
    pub plural: bool,
    pub tone: Tone,
}

/// The last line of a run.
#[derive(Copy, Clone, Debug, PartialEq, Eq, Structural)]
pub struct Summary {
    pub errors: SummaryPart,
    pub warnings: SummaryPart,
}

/// Lays out the last line of a run. A noun stands in the singular for a
/// count of one only. A count of zero reads as good.
pub fn summarize(error_count: usize, warning_count: usize) -> (r: Summary)
    ensures
        r.errors.count == error_count,
        r.errors.plural == (error_count != 1),
        r.errors.tone == (if error_count > 0 {
            Tone::Bad
        } else {
            Tone::Good
        }),
        r.warnings.count == warning_count,
        r.warnings.plural == (warning_count != 1),
        r.warnings.tone == (if warning_count > 0 {
            Tone::Caution
        } else {
            Tone::Good
        }),
{
    Summary {
        errors: SummaryPart {
            count: error_count,
            plural: error_count != 1,
            tone: if error_count > 0 {
                Tone::Bad
            } else {
                Tone::Good
            },
        },
        warnings: SummaryPart {
            count: warning_count,
            plural: warning_count != 1,
            tone: if warning_count > 0 {
                Tone::Caution
            } else {
                Tone::Good
            },
        },
    }
}

} // verus!
