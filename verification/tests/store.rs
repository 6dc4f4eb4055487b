use checker::age::Age;
use checker::ageclass::AgeClass;
use checker::date::Date;
use checker::store::{AllMeetData, Entry, EntryIndex, Meet, SingleMeetData};

fn plain_entry(username: &str) -> Entry {
    Entry {
        username: username.to_string(),
        birthdate: None,
        birthyear: None,
        age: Age::Unknown,
        ageclass: AgeClass::Unknown,
        division_age_min: Age::Unknown,
        division_age_max: Age::Unknown,
    }
}

fn meet_on(path: &str, date: u32, usernames: &[&str]) -> SingleMeetData {
    SingleMeetData {
        meet: Meet { path: path.to_string(), date: Date::from_u32(date) },
        entries: usernames.iter().map(|name| plain_entry(name)).collect(),
    }
}

#[test]
fn store_keeps_meets_and_entries_in_order() {
    let store = AllMeetData::new(vec![
        meet_on("uspa/1901", 2019_01_04, &["a", "b"]),
        meet_on("uspa/1902", 2019_02_05, &["c"]),
    ]);
    assert_eq!(store.len(), 2);
    assert_eq!(store.get_meets().len(), 2);
    assert_eq!(store.get_meets()[0].entries.len(), 2);
    assert_eq!(store.get_meet(EntryIndex::at(0, 1)).path, "uspa/1901");
    assert_eq!(store.get_meet(EntryIndex::at(0, 1)).date, Date::from_u32(2019_01_04));
    assert_eq!(store.get_meet(EntryIndex::at(1, 0)).date, Date::from_u32(2019_02_05));
    assert_eq!(store.get_entry(EntryIndex::at(0, 0)).username, "a");
    assert_eq!(store.get_entry(EntryIndex::at(0, 1)).username, "b");
    assert_eq!(store.get_entry(EntryIndex::at(1, 0)).username, "c");
}

#[test]
fn store_knows_its_indices() {
    let store = AllMeetData::new(vec![
        meet_on("uspa/1901", 2019_01_04, &["a", "b"]),
        meet_on("uspa/1902", 2019_02_05, &[]),
        meet_on("uspa/1903", 2019_02_05, &["c"]),
    ]);
    assert!(store.contains(EntryIndex::at(0, 0)));
    assert!(store.contains(EntryIndex::at(0, 1)));
    assert!(!store.contains(EntryIndex::at(0, 2)));
    assert!(!store.contains(EntryIndex::at(1, 0)));
    assert!(store.contains(EntryIndex::at(2, 0)));
    assert!(!store.contains(EntryIndex::at(3, 0)));
    assert!(!AllMeetData::new(vec![]).contains(EntryIndex::at(0, 0)));
}

#[test]
fn store_entry_is_changed_in_place() {
    let mut store = AllMeetData::new(vec![
        meet_on("uspa/1901", 2019_01_04, &["a", "b"]),
        meet_on("uspa/1902", 2019_02_05, &["c"]),
    ]);
    let before = store.clone();
    store.get_entry_mut(EntryIndex::at(0, 1)).age = Age::Exact(30);
    assert_eq!(store.get_entry(EntryIndex::at(0, 1)).age, Age::Exact(30));
    assert_eq!(store.get_entry(EntryIndex::at(0, 1)).username, "b");
    assert_eq!(store.get_entry(EntryIndex::at(0, 0)), before.get_entry(EntryIndex::at(0, 0)));
    assert_eq!(store.get_entry(EntryIndex::at(1, 0)), before.get_entry(EntryIndex::at(1, 0)));
    assert_eq!(store.get_meets()[0].meet, before.get_meets()[0].meet);
}

#[test]
fn entry_index_holds_both_positions() {
    let index = EntryIndex::at(3, 7);
    assert_eq!(index.meetdata_index, 3);
    assert_eq!(index.entries_index, 7);
    assert_eq!(index, EntryIndex { meetdata_index: 3, entries_index: 7 });
    assert_ne!(index, EntryIndex::at(7, 3));
}

#[test]
fn store_knows_whether_it_holds_all_of_some_indices() {
    let store = AllMeetData::new(vec![
        meet_on("uspa/1901", 2019_01_04, &["a", "b"]),
        meet_on("uspa/1902", 2019_02_05, &["c"]),
    ]);
    assert!(store.contains_all(&[]));
    assert!(store.contains_all(&[EntryIndex::at(0, 0), EntryIndex::at(1, 0), EntryIndex::at(0, 1)]));
    assert!(store.contains_all(&[EntryIndex::at(0, 0), EntryIndex::at(0, 0)]));
    assert!(!store.contains_all(&[EntryIndex::at(0, 0), EntryIndex::at(1, 1)]));
    assert!(!store.contains_all(&[EntryIndex::at(2, 0)]));
}
