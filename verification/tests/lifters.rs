use checker::age::Age;
use checker::ageclass::AgeClass;
use checker::date::Date;
use checker::lifters::LifterMap;
use checker::store::{AllMeetData, Entry, EntryIndex, Meet, SingleMeetData};

fn named_entry(username: &str) -> Entry {
    Entry {
        username: username.to_string(),
        birthdate: None,
        birthyear: None,
        age: Age::Unknown,
        ageclass: AgeClass::Unknown,
        division_age_min: Age::Unknown,
        division_age_max: Age::Unknown,
    }
}

fn meet_of(date: u32, usernames: &[&str]) -> SingleMeetData {
    SingleMeetData {
        meet: Meet { path: format!("fed/{}", date), date: Date::from_u32(date) },
        entries: usernames.iter().map(|name| named_entry(name)).collect(),
    }
}

#[test]
fn liftermap_groups_entries_by_username() {
    let store = AllMeetData::new(vec![
        meet_of(2018_01_01, &["anna", "bert", "carl"]),
        meet_of(2019_01_01, &["bert", "anna"]),
        meet_of(2020_01_01, &["dora", "anna"]),
    ]);
    let map = store.create_liftermap();
    assert_eq!(map.len(), 4);
    assert_eq!(
        map.get("anna"),
        Some(&vec![EntryIndex::at(0, 0), EntryIndex::at(1, 1), EntryIndex::at(2, 1)])
    );
    assert_eq!(map.get("bert"), Some(&vec![EntryIndex::at(0, 1), EntryIndex::at(1, 0)]));
    assert_eq!(map.get("carl"), Some(&vec![EntryIndex::at(0, 2)]));
    assert_eq!(map.get("dora"), Some(&vec![EntryIndex::at(2, 0)]));
    assert_eq!(map.get("emil"), None);
    assert_eq!(map.get(""), None);
}

#[test]
fn liftermap_lists_lifters_in_order_of_first_entry() {
    let store = AllMeetData::new(vec![
        meet_of(2018_01_01, &["carl", "anna"]),
        meet_of(2019_01_01, &["bert", "anna", "carl"]),
    ]);
    let map = store.create_liftermap();
    assert_eq!(map.len(), 3);
    assert_eq!(map.lifter(0).username, "carl");
    assert_eq!(map.lifter(1).username, "anna");
    assert_eq!(map.lifter(2).username, "bert");
    assert_eq!(map.lifter(0).indices, vec![EntryIndex::at(0, 0), EntryIndex::at(1, 2)]);
    assert_eq!(map.lifter(1).indices, vec![EntryIndex::at(0, 1), EntryIndex::at(1, 1)]);
    assert_eq!(map.lifter(2).indices, vec![EntryIndex::at(1, 0)]);
}

#[test]
fn liftermap_of_an_empty_store_is_empty() {
    let map = AllMeetData::new(vec![]).create_liftermap();
    assert_eq!(map.len(), 0);
    assert_eq!(map.get("anna"), None);
    let map = AllMeetData::new(vec![meet_of(2018_01_01, &[])]).create_liftermap();
    assert_eq!(map.len(), 0);
}

#[test]
fn liftermap_keeps_a_lifter_who_enters_one_meet_twice() {
    let store = AllMeetData::new(vec![meet_of(2018_01_01, &["anna", "anna"])]);
    let map = store.create_liftermap();
    assert_eq!(map.len(), 1);
    assert_eq!(map.get("anna"), Some(&vec![EntryIndex::at(0, 0), EntryIndex::at(0, 1)]));
}

#[test]
fn liftermap_grows_by_one_entry_at_a_time() {
    let map = LifterMap::new();
    assert_eq!(map.len(), 0);
    let map = map.with("anna", EntryIndex::at(0, 0));
    let map = map.with("bert", EntryIndex::at(0, 1));
    let map = map.with("anna", EntryIndex::at(1, 0));
    assert_eq!(map.len(), 2);
    assert_eq!(map.get("anna"), Some(&vec![EntryIndex::at(0, 0), EntryIndex::at(1, 0)]));
    assert_eq!(map.get("bert"), Some(&vec![EntryIndex::at(0, 1)]));
    assert_eq!(map.lifter(0).username, "anna");
    assert_eq!(map.lifter(1).username, "bert");
}

#[test]
fn liftermap_fits_the_store_it_was_made_from() {
    let store = AllMeetData::new(vec![
        meet_of(2018_01_01, &["anna", "bert"]),
        meet_of(2019_01_01, &["anna"]),
    ]);
    let map = store.create_liftermap();
    assert!(map.fits(&store));

    let smaller = AllMeetData::new(vec![meet_of(2018_01_01, &["anna", "bert"])]);
    assert!(!map.fits(&smaller));
    let narrower = AllMeetData::new(vec![
        meet_of(2018_01_01, &["anna"]),
        meet_of(2019_01_01, &["anna"]),
    ]);
    assert!(!map.fits(&narrower));
    assert!(LifterMap::new().fits(&smaller));
    assert!(LifterMap::new().with("anna", EntryIndex::at(0, 1)).fits(&smaller));
    assert!(!LifterMap::new().with("anna", EntryIndex::at(0, 2)).fits(&smaller));
}
