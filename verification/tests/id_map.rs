use multimint::federation::FederationId;
use multimint::id_map::IdMap;

fn id(first: u8, last: u8) -> FederationId {
    let mut bytes = [0u8; 32];
    bytes[0] = first;
    bytes[31] = last;
    FederationId(bytes)
}

#[test]
fn empty_map_holds_nothing() {
    let map: IdMap<u32> = IdMap::new();
    assert_eq!(map.len(), 0);
    assert!(!map.contains(&id(0, 0)));
    assert_eq!(map.get(&id(0, 0)), None);
}

#[test]
fn keys_come_out_in_ascending_order() {
    let mut map: IdMap<u32> = IdMap::new();
    map.insert(id(5, 0), 50);
    map.insert(id(1, 9), 19);
    map.insert(id(9, 0), 90);
    map.insert(id(1, 0), 10);
    map.insert(id(0, 255), 1);
    assert_eq!(map.len(), 5);
    let keys: Vec<FederationId> = (0..map.len()).map(|i| map.key_at(i)).collect();
    assert_eq!(keys, vec![id(0, 255), id(1, 0), id(1, 9), id(5, 0), id(9, 0)]);
    let values: Vec<u32> = (0..map.len()).map(|i| *map.value_at(i)).collect();
    assert_eq!(values, vec![1, 10, 19, 50, 90]);
}

#[test]
fn insert_replaces_the_value_of_a_key() {
    let mut map: IdMap<&str> = IdMap::new();
    map.insert(id(1, 1), "first");
    map.insert(id(2, 2), "other");
    map.insert(id(1, 1), "second");
    assert_eq!(map.len(), 2);
    assert_eq!(map.get(&id(1, 1)), Some(&"second"));
    assert_eq!(map.get(&id(2, 2)), Some(&"other"));
}

#[test]
fn remove_hands_back_the_value() {
    let mut map: IdMap<u32> = IdMap::new();
    for n in 0..10u8 {
        map.insert(id(n, n), n as u32 * 2);
    }
    assert_eq!(map.remove(&id(4, 4)), Some(8));
    assert_eq!(map.remove(&id(4, 4)), None);
    assert_eq!(map.remove(&id(4, 5)), None);
    assert_eq!(map.len(), 9);
    assert!(!map.contains(&id(4, 4)));
    for n in [0u8, 1, 2, 3, 5, 6, 7, 8, 9] {
        assert_eq!(map.get(&id(n, n)), Some(&(n as u32 * 2)));
    }
    let keys: Vec<FederationId> = (0..map.len()).map(|i| map.key_at(i)).collect();
    let mut sorted = keys.clone();
    sorted.sort();
    assert_eq!(keys, sorted);
}

#[test]
fn every_key_is_found_where_many_are_held() {
    let mut map: IdMap<u32> = IdMap::new();
    for n in (0..200u32).rev() {
        map.insert(id((n % 7) as u8, (n / 7) as u8), n);
    }
    assert_eq!(map.len(), 200);
    for n in 0..200u32 {
        assert_eq!(map.get(&id((n % 7) as u8, (n / 7) as u8)), Some(&n));
    }
    assert_eq!(map.get(&id(7, 0)), None);
    assert_eq!(map.get(&id(0, 29)), None);
}
