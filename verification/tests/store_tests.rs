//! Store behavior: id assignment, lookup, listing.

use shopping_list::models::ItemPayload;
use shopping_list::store::ItemStore;

fn payload(name: &str) -> ItemPayload {
    ItemPayload { name: name.as_bytes().to_vec() }
}

#[test]
fn insert_assigns_distinct_ids() {
    let mut store = ItemStore::new();
    let mut ids = Vec::new();
    for name in ["milk", "eggs", "bread", "tea", "milk"] {
        ids.push(store.insert(payload(name)).id);
    }
    for i in 0..ids.len() {
        for j in 0..ids.len() {
            if i != j {
                assert_ne!(ids[i], ids[j]);
            }
        }
    }
    assert_eq!(ids, vec![0, 1, 2, 3, 4]);
}

#[test]
fn read_after_write_returns_inserted_record() {
    let mut store = ItemStore::new();
    let created = store.insert(payload("milk"));
    assert_eq!(created.id, 0);
    assert_eq!(created.name, b"milk".to_vec());
    let got = store.get_by_id(created.id).expect("inserted record must be found");
    assert_eq!(got.id, created.id);
    assert_eq!(got.name, created.name);
}

#[test]
fn never_inserted_id_is_not_found() {
    let store = ItemStore::new();
    assert!(store.get_by_id(0).is_none());
    let mut store = ItemStore::new();
    store.insert(payload("milk"));
    assert!(store.get_by_id(1).is_none());
    assert!(store.get_by_id(999).is_none());
}

#[test]
fn get_all_lists_exactly_the_inserted_ids() {
    let mut store = ItemStore::new();
    assert!(store.get_all().is_empty());
    store.insert(payload("milk"));
    store.insert(payload("eggs"));
    store.insert(payload("bread"));
    let all = store.get_all();
    let mut ids: Vec<usize> = all.iter().map(|item| item.id).collect();
    ids.sort();
    assert_eq!(ids, vec![0, 1, 2]);
    assert_eq!(all.len(), 3);
}

#[test]
fn repeated_reads_return_identical_results() {
    let mut store = ItemStore::new();
    store.insert(payload("milk"));
    store.insert(payload("eggs"));
    let first = store.get_all();
    let second = store.get_all();
    assert_eq!(first.len(), second.len());
    for (a, b) in first.iter().zip(second.iter()) {
        assert_eq!(a.id, b.id);
        assert_eq!(a.name, b.name);
    }
    let one = store.get_by_id(1).unwrap();
    let two = store.get_by_id(1).unwrap();
    assert_eq!(one.id, two.id);
    assert_eq!(one.name, two.name);
    let gone_one = store.get_by_id(7);
    let gone_two = store.get_by_id(7);
    assert!(gone_one.is_none() && gone_two.is_none());
}
