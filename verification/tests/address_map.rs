use indexer_tap::address::Address;
use indexer_tap::address_map::AddressMap;

fn key(n: u8) -> Address {
    Address::new([n; 20])
}

#[test]
fn new_map_is_empty() {
    let m: AddressMap<u64> = AddressMap::new();
    assert_eq!(m.len(), 0);
    assert!(!m.contains_key(&key(1)));
    assert_eq!(m.get(&key(1)), None);
    assert!(m.keys().is_empty());
}

#[test]
fn insert_then_get() {
    let mut m: AddressMap<u64> = AddressMap::new();
    m.insert(key(1), 10);
    m.insert(key(2), 20);
    assert_eq!(m.len(), 2);
    assert_eq!(m.get(&key(1)), Some(&10));
    assert_eq!(m.get(&key(2)), Some(&20));
    assert_eq!(m.get(&key(3)), None);
    assert!(m.contains_key(&key(2)));
    assert_eq!(m.keys(), vec![key(1), key(2)]);
    assert_eq!(*m.key_at(1), key(2));
    assert_eq!(*m.value_at(1), 20);
}

#[test]
fn insert_replaces_the_value_under_a_key() {
    let mut m: AddressMap<u64> = AddressMap::new();
    m.insert(key(1), 10);
    m.insert(key(2), 20);
    m.insert(key(1), 11);
    assert_eq!(m.len(), 2);
    assert_eq!(m.get(&key(1)), Some(&11));
    assert_eq!(m.keys(), vec![key(1), key(2)]);
}

#[test]
fn remove_takes_the_entry_out() {
    let mut m: AddressMap<u64> = AddressMap::new();
    m.insert(key(1), 10);
    m.insert(key(2), 20);
    m.insert(key(3), 30);
    assert_eq!(m.remove(&key(2)), Some(20));
    assert_eq!(m.remove(&key(2)), None);
    assert_eq!(m.len(), 2);
    assert_eq!(m.get(&key(1)), Some(&10));
    assert_eq!(m.get(&key(2)), None);
    assert_eq!(m.get(&key(3)), Some(&30));
}

#[test]
fn from_entries_keeps_the_later_of_two_entries_with_one_key() {
    let m = AddressMap::from_entries(vec![(key(1), 10u64), (key(2), 20), (key(1), 30)]);
    assert_eq!(m.len(), 2);
    assert_eq!(m.get(&key(1)), Some(&30));
    assert_eq!(m.get(&key(2)), Some(&20));
    let empty: AddressMap<u64> = AddressMap::from_entries(vec![]);
    assert_eq!(empty.len(), 0);
}
