//! The record store: every meet with its entries, addressed by index.

use vstd::prelude::*;
use crate::age::Age;
use crate::ageclass::AgeClass;
use crate::date::Date;

verus! {

/// What is known of a meet.
#[derive(Clone, Debug, PartialEq, Eq)]
pub struct Meet {
    /// Where the meet's files lie, for messages.
    pub path: String,
    /// The day on which the meet began.
    pub date: Date,
}

/// One lifter's result at one meet, as far as the lifter's age is concerned.
#[derive(Clone, Debug, PartialEq, Eq)]
pub struct Entry {
    /// Identifies the lifter across meets.
    pub username: String,
    pub birthdate: Option<Date>,
    pub birthyear: Option<u32>,
    pub age: Age,
    pub ageclass: AgeClass,
    /// The least age that the entry's division admits.
    pub division_age_min: Age,
    /// The greatest age that the entry's division admits.
    pub division_age_max: Age,
}

/// A meet and its entries.
#[derive(Clone, Debug, PartialEq, Eq)]
pub struct SingleMeetData {
    pub meet: Meet,
    pub entries: Vec<Entry>,
}

/// Names one entry of the store: the meet by its position in the store, the
/// entry by its position in the meet.
#[derive(Copy, Clone, Debug, PartialEq, Eq, Hash, Structural)]
pub struct EntryIndex {
    pub meetdata_index: usize,
    pub entries_index: usize,
}

/// A meet and its entries, as contracts see them.
pub struct MeetRecords {
    pub meet: Meet,
    pub entries: Seq<Entry>,
}

impl View for SingleMeetData {
    type V = MeetRecords;

    open spec fn view(&self) -> MeetRecords {
        MeetRecords { meet: self.meet, entries: self.entries@ }
    }
}

/// All meets of a run. Nothing is ever removed, so an index stays good.
#[derive(Clone, Debug, PartialEq, Eq)]
pub struct AllMeetData {
    meets: Vec<SingleMeetData>,
}

impl View for AllMeetData {
    type V = Seq<MeetRecords>;

    closed spec fn view(&self) -> Seq<MeetRecords> {
        Seq::new(self.meets@.len(), |i: int| self.meets@[i]@)
    }
}

/// The index names an entry of the store.
pub open spec fn has_index(store: Seq<MeetRecords>, index: EntryIndex) -> bool {
    index.meetdata_index < store.len() && index.entries_index
        < store[index.meetdata_index as int].entries.len()
}

/// The store can be indexed: it has no more meets, and no meet has more
/// entries, than an index can name.
pub open spec fn indexable(store: Seq<MeetRecords>) -> bool {
    &&& store.len() <= usize::MAX
    &&& forall|m: int| 0 <= m < store.len() ==> (#[trigger] store[m]).entries.len() <= usize::MAX
}

/// The entry that the index names.
pub open spec fn entry_at(store: Seq<MeetRecords>, index: EntryIndex) -> Entry {
    store[index.meetdata_index as int].entries[index.entries_index as int]
}

/// The meet of the entry that the index names.
pub open spec fn meet_at(store: Seq<MeetRecords>, index: EntryIndex) -> Meet {
    store[index.meetdata_index as int].meet
}

/// The store with one entry replaced.
pub open spec fn with_entry(store: Seq<MeetRecords>, index: EntryIndex, entry: Entry) -> Seq<
    MeetRecords,
> {
    store.update(
        index.meetdata_index as int,
        MeetRecords {
            meet: store[index.meetdata_index as int].meet,
            entries: store[index.meetdata_index as int].entries.update(
                index.entries_index as int,
                entry,
            ),
        },
    )
}

/// Every index names an entry of the store.
pub open spec fn all_indexed(store: Seq<MeetRecords>, indices: Seq<EntryIndex>) -> bool {
    forall|i: int| 0 <= i < indices.len() ==> has_index(store, #[trigger] indices[i])
}

/// Two stores have the same meets, each with as many entries in the one as
/// in the other.
pub open spec fn same_shape(a: Seq<MeetRecords>, b: Seq<MeetRecords>) -> bool {
    &&& a.len() == b.len()
    &&& forall|m: int|
        0 <= m < a.len() ==> (#[trigger] a[m]).meet == b[m].meet && a[m].entries.len()
            == b[m].entries.len()
}

/// Two stores of the same shape hold the same entries at the given indices.
pub open spec fn agree_on(a: Seq<MeetRecords>, b: Seq<MeetRecords>, indices: Seq<EntryIndex>)
    -> bool {
    &&& same_shape(a, b)
    &&& forall|k: int|
        0 <= k < indices.len() ==> entry_at(a, #[trigger] indices[k]) == entry_at(b, indices[k])
}

impl EntryIndex {
    /// The index of entry number `entries_index` of meet number
    /// `meetdata_index`.
    pub fn at(meetdata_index: usize, entries_index: usize) -> (r: EntryIndex)
        ensures
            r.meetdata_index == meetdata_index,
            r.entries_index == entries_index,
    {
        EntryIndex { meetdata_index, entries_index }
    }
}

impl AllMeetData {
    /// Takes the meets into a store, in their order.
    pub fn new(meets: Vec<SingleMeetData>) -> (r: AllMeetData)
        ensures
            r@ == meets@.map_values(|m: SingleMeetData| m@),
            indexable(r@),
    {
        let r = AllMeetData { meets };
        assert(r@ =~= meets@.map_values(|m: SingleMeetData| m@));
        proof {
            r.lemma_indexable();
        }
        r
    }

    /// A store can be indexed.
    pub proof fn lemma_indexable(&self)
        ensures
            indexable(self@),
    {
        assert(self.meets.len() == self.meets@.len());
        assert forall|m: int| 0 <= m < self@.len() implies (#[trigger] self@[m]).entries.len()
            <= usize::MAX by {
            assert(self.meets@[m].entries.len() == self.meets@[m].entries@.len());
        }
    }

    /// The number of meets.
    pub fn len(&self) -> (r: usize)
        ensures
            r == self@.len(),
    {
        self.meets.len()
    }

    /// The meets, in the order of the store.
    pub fn get_meets(&self) -> (r: &Vec<SingleMeetData>)
        ensures
            r@.map_values(|m: SingleMeetData| m@) == self@,
    {
        assert(self.meets@.map_values(|m: SingleMeetData| m@) =~= self@);
        &self.meets
    }

    /// Whether the index names an entry of the store.
    pub fn contains(&self, index: EntryIndex) -> (r: bool)
        ensures
            r == has_index(self@, index),
    {
        index.meetdata_index < self.meets.len() && index.entries_index
            < self.meets[index.meetdata_index].entries.len()
    }

    /// Whether every index names an entry of the store.
    pub fn contains_all(&self, indices: &[EntryIndex]) -> (r: bool)
        ensures
            r == all_indexed(self@, indices@),
    {
        let mut i: usize = 0;
        while i < indices.len()
            invariant
                0 <= i <= indices.len(),
                forall|k: int| 0 <= k < i ==> has_index(self@, #[trigger] indices@[k]),
            decreases indices.len() - i,
        {
            if !self.contains(indices[i]) {
                return false;
            }
            i += 1;
        }
        true
    }

    /// The meet of the entry that the index names.
    pub fn get_meet(&self, index: EntryIndex) -> (r: &Meet)
        requires
            has_index(self@, index),
        ensures
            *r == meet_at(self@, index),
    {
        &self.meets[index.meetdata_index].meet
    }

    /// The entry that the index names.
    pub fn get_entry(&self, index: EntryIndex) -> (r: &Entry)
        requires
            has_index(self@, index),
        ensures
            *r == entry_at(self@, index),
    {
        &self.meets[index.meetdata_index].entries[index.entries_index]
    }

    /// The entry that the index names, to be changed in place. Nothing else
    /// in the store changes.
    pub fn get_entry_mut(&mut self, index: EntryIndex) -> (entry: &mut Entry)
        requires
            has_index(old(self)@, index),
        ensures
            *entry == entry_at(old(self)@, index),
            final(self)@ == with_entry(old(self)@, index, *final(entry)),
    {
        &mut self.meets[index.meetdata_index].entries[index.entries_index]
    }
}

/// Replacing an entry keeps the shape of the store.
pub proof fn lemma_with_entry_keeps_shape(
    store: Seq<MeetRecords>,
    index: EntryIndex,
    entry: Entry,
)
    requires
        has_index(store, index),
    ensures
        same_shape(store, with_entry(store, index, entry)),
        entry_at(with_entry(store, index, entry), index) == entry,
        forall|other: EntryIndex|
            has_index(store, other) && other != index ==> entry_at(
                with_entry(store, index, entry),
                other,
            ) == entry_at(store, other),
{
}

/// Two stores of the same shape have the same indices.
pub proof fn lemma_same_shape_same_indices(before: Seq<MeetRecords>, after: Seq<MeetRecords>)
    requires
        same_shape(before, after),
    ensures
        forall|index: EntryIndex| has_index(before, index) == has_index(after, index),
        forall|indices: Seq<EntryIndex>|
            all_indexed(before, indices) ==> #[trigger] all_indexed(after, indices),
        forall|index: EntryIndex|
            has_index(before, index) ==> meet_at(after, index) == meet_at(before, index),
{
    assert forall|index: EntryIndex| has_index(before, index) == has_index(after, index) by {
        if index.meetdata_index < before.len() {
            assert(before[index.meetdata_index as int].entries.len()
                == after[index.meetdata_index as int].entries.len());
        }
    }
    assert forall|indices: Seq<EntryIndex>| all_indexed(before, indices) implies #[trigger] all_indexed(
        after,
        indices,
    ) by {
        assert forall|i: int| 0 <= i < indices.len() implies has_index(
            after,
            #[trigger] indices[i],
        ) by {
            assert(has_index(before, indices[i]));
        }
    }
}

/// Having the same shape is symmetric and transitive.
pub proof fn lemma_same_shape_chain(
    first: Seq<MeetRecords>,
    second: Seq<MeetRecords>,
    third: Seq<MeetRecords>,
)
    requires
        same_shape(first, second),
        same_shape(second, third),
    ensures
        same_shape(second, first),
        same_shape(first, third),
{
    assert forall|m: int| 0 <= m < first.len() implies (#[trigger] first[m]).meet == third[m].meet
        && first[m].entries.len() == third[m].entries.len() by {
        assert(first[m].meet == second[m].meet);
        assert(second[m].meet == third[m].meet);
    }
    assert forall|m: int| 0 <= m < second.len() implies (#[trigger] second[m]).meet
        == first[m].meet && second[m].entries.len() == first[m].entries.len() by {
        assert(first[m].meet == second[m].meet);
    }
}

} // verus!
