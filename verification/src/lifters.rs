//! The identity index: for every lifter, the entries of that lifter.

use vstd::prelude::*;
use vstd::hash_map::StringHashMap;
use crate::store::{
    entry_at, has_index, indexable, AllMeetData, EntryIndex, MeetRecords, SingleMeetData,
};

verus! {

/// A lifter and the lifter's entries, as contracts see them.
pub struct Lifter {
    pub username: Seq<char>,
    /// The entries in the order of the store.
    pub indices: Seq<EntryIndex>,
}

/// A lifter and the lifter's entries.
#[derive(Clone, Debug, PartialEq, Eq)]
pub struct LifterEntries {
    pub username: String,
    pub indices: Vec<EntryIndex>,
}

impl View for LifterEntries {
    type V = Lifter;

    open spec fn view(&self) -> Lifter {
        Lifter { username: self.username@, indices: self.indices@ }
    }
}

/// No two lifters of the sequence have the same username.
pub open spec fn distinct(lifters: Seq<Lifter>) -> bool {
    forall|i: int, j: int|
        0 <= i < lifters.len() && 0 <= j < lifters.len() && i != j ==> (
        #[trigger] lifters[i]).username != (#[trigger] lifters[j]).username
}

/// The position of the lifter with the given username, if there is one.
pub open spec fn slot_of(lifters: Seq<Lifter>, username: Seq<char>) -> Option<int>
    decreases lifters.len(),
{
    if lifters.len() == 0 {
        None
    } else if lifters.last().username == username {
        Some(lifters.len() - 1)
    } else {
        slot_of(lifters.drop_last(), username)
    }
}

/// The lifters after one more entry: its index goes to the end of the
/// entries of its lifter, and a lifter not seen before goes to the end of
/// the lifters.
pub open spec fn with_index(lifters: Seq<Lifter>, username: Seq<char>, index: EntryIndex) -> Seq<
    Lifter,
> {
    match slot_of(lifters, username) {
        Some(slot) => lifters.update(
            slot,
            Lifter { username, indices: lifters[slot].indices.push(index) },
        ),
        None => lifters.push(Lifter { username, indices: seq![index] }),
    }
}

/// No entry belongs to two lifters.
pub open spec fn apart(lifters: Seq<Lifter>) -> bool {
    forall|i: int, j: int, k: int, l: int|
        0 <= i < lifters.len() && 0 <= j < lifters.len() && i != j && 0 <= k
            < lifters[i].indices.len() && 0 <= l < lifters[j].indices.len()
            ==> #[trigger] lifters[i].indices[k] != #[trigger] lifters[j].indices[l]
}

/// Every index of every lifter names an entry of the store.
pub open spec fn all_fit(lifters: Seq<Lifter>, store: Seq<MeetRecords>) -> bool {
    forall|i: int, k: int|
        0 <= i < lifters.len() && 0 <= k < lifters[i].indices.len() ==> has_index(
            store,
            #[trigger] lifters[i].indices[k],
        )
}

/// Where `slot_of` finds a lifter, that lifter has the username; where it
/// finds none, no lifter has it.
pub proof fn lemma_slot_of(lifters: Seq<Lifter>, username: Seq<char>)
    ensures
        match slot_of(lifters, username) {
            Some(slot) => 0 <= slot < lifters.len() && lifters[slot].username == username,
            None => forall|i: int|
                0 <= i < lifters.len() ==> (#[trigger] lifters[i]).username != username,
        },
    decreases lifters.len(),
{
    if lifters.len() > 0 && lifters.last().username != username {
        lemma_slot_of(lifters.drop_last(), username);
        match slot_of(lifters.drop_last(), username) {
            Some(slot) => {
                assert(lifters.drop_last()[slot] == lifters[slot]);
            },
            None => {
                assert forall|i: int| 0 <= i < lifters.len() implies (
                #[trigger] lifters[i]).username != username by {
                    if i < lifters.len() - 1 {
                        assert(lifters.drop_last()[i] == lifters[i]);
                    }
                }
            },
        }
    }
}

/// Among lifters with distinct usernames, `slot_of` finds each at its place.
pub proof fn lemma_slot_of_distinct(lifters: Seq<Lifter>, slot: int)
    requires
        distinct(lifters),
        0 <= slot < lifters.len(),
    ensures
        slot_of(lifters, lifters[slot].username) == Some(slot),
{
    lemma_slot_of(lifters, lifters[slot].username);
}

/// One more entry keeps the usernames distinct.
pub proof fn lemma_with_index_distinct(
    lifters: Seq<Lifter>,
    username: Seq<char>,
    index: EntryIndex,
)
    requires
        distinct(lifters),
    ensures
        distinct(with_index(lifters, username, index)),
{
    lemma_slot_of(lifters, username);
}

/// The lifters that a vector of them stands for.
spec fn lifters_of(groups: Seq<LifterEntries>) -> Seq<Lifter> {
    groups.map_values(|group: LifterEntries| group@)
}

/// The lifters have distinct usernames, and `slots` holds the position of
/// each.
spec fn linked(slots: Map<Seq<char>, usize>, groups: Seq<LifterEntries>) -> bool {
    &&& distinct(lifters_of(groups))
    &&& forall|i: int|
        0 <= i < groups.len() ==> slots.contains_key((#[trigger] groups[i]).username@)
            && slots[groups[i].username@] == i
    &&& forall|username: Seq<char>|
        slots.contains_key(username) ==> 0 <= (#[trigger] slots[username]) < groups.len()
            && groups[slots[username] as int].username@ == username
}

/// Adds an entry to the lifter with the given username.
fn place(
    slots: &mut StringHashMap<usize>,
    groups: &mut Vec<LifterEntries>,
    username: &str,
    index: EntryIndex,
)
    requires
        linked(old(slots)@, old(groups)@),
    ensures
        linked(final(slots)@, final(groups)@),
        lifters_of(final(groups)@) == with_index(lifters_of(old(groups)@), username@, index),
{
    let ghost before = lifters_of(groups@);
    proof {
        lemma_slot_of(before, username@);
        lemma_with_index_distinct(before, username@, index);
    }
    match slots.get(username) {
        Some(slot) => {
            let slot: usize = *slot;
            proof {
                lemma_slot_of_distinct(before, slot as int);
            }
            groups[slot].indices.push(index);
            assert(lifters_of(groups@) =~= with_index(before, username@, index));
        },
        None => {
            proof {
                if slot_of(before, username@) is Some {
                    let i = slot_of(before, username@).unwrap();
                    assert(groups@[i].username@ == username@);
                }
            }
            let slot: usize = groups.len();
            let mut indices: Vec<EntryIndex> = Vec::new();
            indices.push(index);
            slots.insert(username.to_owned(), slot);
            groups.push(LifterEntries { username: username.to_owned(), indices });
            assert(lifters_of(groups@) =~= with_index(before, username@, index));
        },
    }
}

/// The identity index: which entries belong to which lifter.
///
/// The lifters stand in the order in which the index came to know them, and
/// the entries of each in the order in which they were added.
pub struct LifterMap {
    slots: StringHashMap<usize>,
    groups: Vec<LifterEntries>,
}

impl LifterMap {
    #[verifier::type_invariant]
    spec fn inv(self) -> bool {
        linked(self.slots@, self.groups@)
    }

    /// The lifters with their entries, in the order of the index.
    pub closed spec fn lifters(self) -> Seq<Lifter> {
        lifters_of(self.groups@)
    }

    /// Every index names an entry of the store.
    pub open spec fn spec_fits(self, store: Seq<MeetRecords>) -> bool {
        all_fit(self.lifters(), store)
    }

    /// An index without lifters.
    pub fn new() -> (r: LifterMap)
        ensures
            r.lifters() == Seq::<Lifter>::empty(),
            distinct(r.lifters()),
    {
        let r = LifterMap { slots: StringHashMap::new(), groups: Vec::new() };
        assert(r.lifters() =~= Seq::<Lifter>::empty());
        r
    }

    /// The index with one more entry for the lifter with the given username.
    pub fn with(self, username: &str, index: EntryIndex) -> (r: LifterMap)
        ensures
            r.lifters() == with_index(self.lifters(), username@, index),
            distinct(r.lifters()),
    {
        proof {
            use_type_invariant(&self);
        }
        let LifterMap { mut slots, mut groups } = self;
        place(&mut slots, &mut groups, username, index);
        LifterMap { slots, groups }
    }

    /// The number of lifters.
    pub fn len(&self) -> (r: usize)
        ensures
            r == self.lifters().len(),
    {
        self.groups.len()
    }

    /// The lifter at a position of the index.
    pub fn lifter(&self, position: usize) -> (r: &LifterEntries)
        requires
            position < self.lifters().len(),
        ensures
            r@ == self.lifters()[position as int],
    {
        &self.groups[position]
    }

    /// The entries of the lifter with the given username, or `None` if the
    /// index knows no such lifter.
    pub fn get(&self, username: &str) -> (r: Option<&Vec<EntryIndex>>)
        ensures
            match r {
                Some(indices) => slot_of(self.lifters(), username@) is Some && indices@
                    == self.lifters()[slot_of(self.lifters(), username@).unwrap()].indices,
                None => slot_of(self.lifters(), username@) is None,
            },
    {
        proof {
            use_type_invariant(self);
            lemma_slot_of(self.lifters(), username@);
        }
        match self.slots.get(username) {
            Some(slot) => {
                proof {
                    lemma_slot_of_distinct(self.lifters(), *slot as int);
                }
                Some(&self.groups[*slot].indices)
            },
            None => {
                proof {
                    if slot_of(self.lifters(), username@) is Some {
                        let i = slot_of(self.lifters(), username@).unwrap();
                        assert(self.groups@[i].username@ == username@);
                    }
                }
                None
            },
        }
    }
}

/// One more entry that the store holds keeps every index within the store.
pub proof fn lemma_with_index_fits(
    lifters: Seq<Lifter>,
    username: Seq<char>,
    index: EntryIndex,
    store: Seq<MeetRecords>,
)
    requires
        all_fit(lifters, store),
        has_index(store, index),
    ensures
        all_fit(with_index(lifters, username, index), store),
{
    lemma_slot_of(lifters, username);
    let after = with_index(lifters, username, index);
    assert forall|i: int, k: int| 0 <= i < after.len() && 0 <= k < after[i].indices.len() implies has_index(
        store,
        #[trigger] after[i].indices[k],
    ) by {
        if i < lifters.len() && k < lifters[i].indices.len() {
            assert(has_index(store, lifters[i].indices[k]));
        }
    }
}

/// The lifters of the entries that come before entry number `entries` of
/// meet number `meets`, each with those of these entries that are the
/// lifter's own. Lifters and entries stand in the order of the store.
pub open spec fn grouped_upto(store: Seq<MeetRecords>, meets: nat, entries: nat) -> Seq<Lifter>
    decreases meets, entries,
{
    if entries > 0 {
        with_index(
            grouped_upto(store, meets, (entries - 1) as nat),
            store[meets as int].entries[entries - 1].username@,
            EntryIndex { meetdata_index: meets as usize, entries_index: (entries - 1) as usize },
        )
    } else if meets > 0 {
        grouped_upto(store, (meets - 1) as nat, store[meets - 1].entries.len())
    } else {
        Seq::empty()
    }
}

/// The lifters of a store, each with the lifter's entries.
pub open spec fn grouped(store: Seq<MeetRecords>) -> Seq<Lifter> {
    grouped_upto(store, store.len(), 0)
}

/// The indices of the entries that come before entry number `entries` of
/// meet number `meets`, in the order of the store.
pub open spec fn indices_upto(store: Seq<MeetRecords>, meets: nat, entries: nat) -> Seq<
    EntryIndex,
>
    decreases meets, entries,
{
    if entries > 0 {
        indices_upto(store, meets, (entries - 1) as nat).push(
            EntryIndex { meetdata_index: meets as usize, entries_index: (entries - 1) as usize },
        )
    } else if meets > 0 {
        indices_upto(store, (meets - 1) as nat, store[meets - 1].entries.len())
    } else {
        Seq::empty()
    }
}

/// Whether the entry that an index names bears the username.
pub open spec fn bears(store: Seq<MeetRecords>, username: Seq<char>) -> spec_fn(EntryIndex) -> bool {
    |index: EntryIndex| entry_at(store, index).username@ == username
}

/// Of the indices in `indices`, those of the entries of one lifter.
pub open spec fn of_lifter(store: Seq<MeetRecords>, indices: Seq<EntryIndex>, username: Seq<char>)
    -> Seq<EntryIndex> {
    indices.filter(bears(store, username))
}

/// The indices of all entries of one lifter, in the order of the store.
pub open spec fn entries_of(store: Seq<MeetRecords>, username: Seq<char>) -> Seq<EntryIndex> {
    of_lifter(store, indices_upto(store, store.len(), 0), username)
}

/// Up to any place in the store, the lifters have distinct usernames, and
/// each lifter has exactly the entries so far that bear the lifter's
/// username, in the order of the store. A username that no entry so far
/// bears has no lifter.
pub proof fn lemma_grouped_upto(
    store: Seq<MeetRecords>,
    meets: nat,
    entries: nat,
    username: Seq<char>,
)
    requires
        meets < store.len() && entries <= store[meets as int].entries.len() || meets
            == store.len() && entries == 0,
        indexable(store),
    ensures
        distinct(grouped_upto(store, meets, entries)),
        all_fit(grouped_upto(store, meets, entries), store),
        match slot_of(grouped_upto(store, meets, entries), username) {
            Some(slot) => grouped_upto(store, meets, entries)[slot].indices == of_lifter(
                store,
                indices_upto(store, meets, entries),
                username,
            ) && grouped_upto(store, meets, entries)[slot].indices.len() > 0,
            None => of_lifter(store, indices_upto(store, meets, entries), username).len() == 0,
        },
    decreases meets, entries,
{
    let pred = bears(store, username);
    if entries > 0 {
        let before = grouped_upto(store, meets, (entries - 1) as nat);
        let index = EntryIndex {
            meetdata_index: meets as usize,
            entries_index: (entries - 1) as usize,
        };
        let name = store[meets as int].entries[entries - 1].username@;
        let after = with_index(before, name, index);
        lemma_grouped_upto(store, meets, (entries - 1) as nat, username);
        lemma_with_index_distinct(before, name, index);
        lemma_with_index_fits(before, name, index, store);
        lemma_slot_of(before, name);
        lemma_slot_of(before, username);
        lemma_slot_of(after, username);
        indices_upto(store, meets, (entries - 1) as nat).lemma_filter_push(index, pred);
        assert(entry_at(store, index).username@ == name);
        match slot_of(after, username) {
            Some(slot) => {
                lemma_slot_of_distinct(after, slot);
                if name == username {
                    match slot_of(before, name) {
                        Some(old_slot) => {
                            lemma_slot_of_distinct(after, old_slot);
                        },
                        None => {
                            lemma_slot_of_distinct(after, before.len() as int);
                            assert(seq![index] =~= Seq::<EntryIndex>::empty().push(index));
                            assert(of_lifter(
                                store,
                                indices_upto(store, meets, (entries - 1) as nat),
                                username,
                            ) =~= Seq::<EntryIndex>::empty());
                        },
                    }
                } else {
                    assert(slot < before.len());
                    assert(before[slot].username == username);
                    lemma_slot_of_distinct(before, slot);
                }
            },
            None => {
                if name == username {
                    match slot_of(before, name) {
                        Some(old_slot) => {
                            assert(after[old_slot].username == username);
                        },
                        None => {
                            assert(after[before.len() as int].username == username);
                        },
                    }
                } else {
                    if slot_of(before, username) is Some {
                        let old_slot = slot_of(before, username).unwrap();
                        assert(after[old_slot].username == username);
                    }
                }
            },
        }
    } else if meets > 0 {
        lemma_grouped_upto(
            store,
            (meets - 1) as nat,
            store[meets - 1].entries.len(),
            username,
        );
    } else {
        assert(of_lifter(store, indices_upto(store, meets, entries), username)
            =~= Seq::<EntryIndex>::empty());
    }
}

/// The index of a store holds one lifter for each username that an entry
/// bears, and each lifter has exactly the entries that bear the lifter's
/// username, in the order of the store.
pub proof fn lemma_grouped_by_username(store: Seq<MeetRecords>, username: Seq<char>)
    requires
        indexable(store),
    ensures
        distinct(grouped(store)),
        all_fit(grouped(store), store),
        match slot_of(grouped(store), username) {
            Some(slot) => grouped(store)[slot].indices == entries_of(store, username)
                && entries_of(store, username).len() > 0,
            None => entries_of(store, username).len() == 0,
        },
{
    lemma_grouped_upto(store, store.len(), 0, username);
}

/// In the index of a store, no entry belongs to two lifters.
pub proof fn lemma_grouped_apart(store: Seq<MeetRecords>)
    requires
        indexable(store),
    ensures
        apart(grouped(store)),
{
    let lifters = grouped(store);
    assert forall|i: int, j: int, k: int, l: int|
        0 <= i < lifters.len() && 0 <= j < lifters.len() && i != j && 0 <= k
            < lifters[i].indices.len() && 0 <= l < lifters[j].indices.len() implies #[trigger] lifters[i].indices[k]
        != #[trigger] lifters[j].indices[l] by {
        let one = lifters[i].username;
        let other = lifters[j].username;
        lemma_grouped_by_username(store, one);
        lemma_grouped_by_username(store, other);
        lemma_slot_of_distinct(lifters, i);
        lemma_slot_of_distinct(lifters, j);
        indices_upto(store, store.len(), 0).lemma_filter_pred(bears(store, one), k);
        indices_upto(store, store.len(), 0).lemma_filter_pred(bears(store, other), l);
        assert(one != other);
    }
}

impl AllMeetData {
    /// Builds the identity index of the store: the lifters in the order in
    /// which the store first names them, each with the lifter's entries in
    /// the order of the store.
    pub fn create_liftermap(&self) -> (r: LifterMap)
        ensures
            r.lifters() == grouped(self@),
            r.spec_fits(self@),
            distinct(r.lifters()),
            apart(r.lifters()),
            forall|username: Seq<char>|
                match #[trigger] slot_of(r.lifters(), username) {
                    Some(slot) => r.lifters()[slot].indices == entries_of(self@, username)
                        && entries_of(self@, username).len() > 0,
                    None => entries_of(self@, username).len() == 0,
                },
    {
        let meets = self.get_meets();
        let ghost store = self@;
        proof {
            self.lemma_indexable();
            assert forall|username: Seq<char>|
                match #[trigger] slot_of(grouped(store), username) {
                    Some(slot) => grouped(store)[slot].indices == entries_of(store, username)
                        && entries_of(store, username).len() > 0,
                    None => entries_of(store, username).len() == 0,
                } by {
                lemma_grouped_by_username(store, username);
            }
            lemma_grouped_by_username(store, Seq::empty());
            lemma_grouped_apart(store);
        }
        let mut slots: StringHashMap<usize> = StringHashMap::new();
        let mut groups: Vec<LifterEntries> = Vec::new();
        assert(lifters_of(groups@) =~= Seq::<Lifter>::empty());
        let mut m: usize = 0;
        while m < meets.len()
            invariant
                0 <= m <= meets.len(),
                store == self@,
                meets@.map_values(|meet: SingleMeetData| meet@) == store,
                linked(slots@, groups@),
                lifters_of(groups@) == grouped_upto(store, m as nat, 0),
                all_fit(lifters_of(groups@), store),
            decreases meets.len() - m,
        {
            let entries = &meets[m].entries;
            assert(store[m as int] == meets@[m as int]@);
            let mut e: usize = 0;
            while e < entries.len()
                invariant
                    0 <= e <= entries.len(),
                    m < meets.len(),
                    store.len() == meets.len(),
                    entries@ == store[m as int].entries,
                    linked(slots@, groups@),
                    lifters_of(groups@) == grouped_upto(store, m as nat, e as nat),
                    all_fit(lifters_of(groups@), store),
                decreases entries.len() - e,
            {
                let index = EntryIndex::at(m, e);
                proof {
                    lemma_with_index_fits(
                        lifters_of(groups@),
                        entries@[e as int].username@,
                        index,
                        store,
                    );
                }
                place(&mut slots, &mut groups, entries[e].username.as_str(), index);
                e += 1;
            }
            m += 1;
        }
        LifterMap { slots, groups }
    }
}

impl LifterMap {
    /// Whether every index names an entry of the store.
    pub fn fits(&self, meetdata: &AllMeetData) -> (r: bool)
        ensures
            r == self.spec_fits(meetdata@),
    {
        let ghost lifters = self.lifters();
        let ghost store = meetdata@;
        let mut i: usize = 0;
        while i < self.groups.len()
            invariant
                0 <= i <= self.groups.len(),
                lifters == self.lifters(),
                store == meetdata@,
                forall|a: int, k: int|
                    0 <= a < i && 0 <= k < lifters[a].indices.len() ==> has_index(
                        store,
                        #[trigger] lifters[a].indices[k],
                    ),
            decreases self.groups.len() - i,
        {
            let indices = &self.groups[i].indices;
            assert(indices@ == lifters[i as int].indices);
            let mut k: usize = 0;
            while k < indices.len()
                invariant
                    0 <= k <= indices.len(),
                    i < self.groups.len(),
                    lifters == self.lifters(),
                    store == meetdata@,
                    indices@ == lifters[i as int].indices,
                    forall|b: int| 0 <= b < k ==> has_index(store, #[trigger] indices@[b]),
                decreases indices.len() - k,
            {
                if !meetdata.contains(indices[k]) {
                    assert(!has_index(store, lifters[i as int].indices[k as int]));
                    return false;
                }
                k += 1;
            }
            i += 1;
        }
        true
    }
}

} // verus!
