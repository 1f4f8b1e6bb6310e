use regist_order_map::{MapKey, RegistOrderMap};

fn entries<K: MapKey + Clone, V: Clone>(map: &RegistOrderMap<K, V>) -> Vec<(K, V)> {
    map.iter().map(|(k, v)| (k.clone(), v.clone())).collect()
}

#[test]
fn new_map_is_empty() {
    let map: RegistOrderMap<String, i32> = RegistOrderMap::new();
    assert_eq!(map.len(), 0);
    assert!(map.is_empty());
    assert_eq!(map.get(&"key1".to_string()), None);
    assert_eq!(map.iter().next(), None);
}

#[test]
fn with_capacity_makes_an_empty_map() {
    let mut map: RegistOrderMap<u32, u32> = RegistOrderMap::with_capacity(16);
    assert_eq!(map.len(), 0);
    assert!(map.is_empty());
    assert_eq!(map.get(&1), None);
    map.insert(7, 70);
    assert_eq!(entries(&map), vec![(7, 70)]);
    let none: RegistOrderMap<u32, u32> = RegistOrderMap::with_capacity(0);
    assert!(none.is_empty());
}

#[test]
fn default_is_empty() {
    let map: RegistOrderMap<u8, u8> = Default::default();
    assert_eq!(map.len(), 0);
    assert!(map.is_empty());
}

#[test]
fn len_counts_distinct_keys() {
    let mut map = RegistOrderMap::new();
    assert_eq!(map.len(), 0);
    map.insert(3u64, 'a');
    assert_eq!(map.len(), 1);
    assert!(!map.is_empty());
    map.insert(1u64, 'b');
    assert_eq!(map.len(), 2);
    map.insert(3u64, 'c');
    assert_eq!(map.len(), 2);
    map.insert(2u64, 'd');
    assert_eq!(map.len(), 3);
}

#[test]
fn a_key_is_stored_once() {
    let mut map = RegistOrderMap::new();
    for round in 0..10 {
        for key in [5i32, 3, 5, 9, 3, 3] {
            map.insert(key, round);
        }
    }
    assert_eq!(map.len(), 3);
    let all = entries(&map);
    for key in [5i32, 3, 9] {
        assert_eq!(all.iter().filter(|e| e.0 == key).count(), 1);
    }
    assert_eq!(all.iter().filter(|e| e.0 == 4).count(), 0);
}

#[test]
fn insert_then_get_returns_the_value() {
    let mut map = RegistOrderMap::new();
    map.insert("a".to_string(), 1);
    assert_eq!(map.get(&"a".to_string()), Some(&1));
    map.insert("b".to_string(), 2);
    assert_eq!(map.get(&"b".to_string()), Some(&2));
    map.insert("a".to_string(), 3);
    assert_eq!(map.get(&"a".to_string()), Some(&3));
    assert_eq!(map.get(&"b".to_string()), Some(&2));
}

#[test]
fn update_keeps_the_position() {
    let mut map = RegistOrderMap::new();
    map.insert('x', 1);
    map.insert('y', 2);
    map.insert('z', 3);
    map.insert('y', 20);
    assert_eq!(entries(&map), vec![('x', 1), ('y', 20), ('z', 3)]);
    map.insert('x', 10);
    map.insert('z', 30);
    assert_eq!(entries(&map), vec![('x', 10), ('y', 20), ('z', 30)]);
    assert_eq!(map.len(), 3);
}

#[test]
fn distinct_keys_come_out_in_insertion_order() {
    let keys = [40u16, 7, 19, 0, 65535, 3, 21];
    let mut map = RegistOrderMap::new();
    for (n, key) in keys.iter().enumerate() {
        map.insert(*key, n);
    }
    let expected: Vec<(u16, usize)> = keys.iter().copied().zip(0..keys.len()).collect();
    assert_eq!(entries(&map), expected);
}

#[test]
fn miss_returns_none() {
    let mut map = RegistOrderMap::new();
    assert_eq!(map.get(&0i64), None);
    map.insert(1i64, 0i64);
    assert_eq!(map.get(&0i64), None);
    assert_eq!(map.get(&-1i64), None);
    assert_eq!(map.get(&1i64), Some(&0));
}

#[test]
fn from_keeps_first_position_and_last_value() {
    let map = RegistOrderMap::from([(1u8, 10), (2, 20), (1, 30), (3, 40), (2, 50)]);
    assert_eq!(entries(&map), vec![(1, 30), (2, 50), (3, 40)]);
    assert_eq!(map.len(), 3);
    assert_eq!(map.get(&1), Some(&30));
    assert_eq!(map.get(&2), Some(&50));
}

#[test]
fn from_an_empty_array_is_empty() {
    let pairs: [(u8, u8); 0] = [];
    let map = RegistOrderMap::from(pairs);
    assert!(map.is_empty());
    assert_eq!(map.iter().next(), None);
}

#[test]
fn from_equals_repeated_insert() {
    let pairs = [("key2", 20), ("key1", 10), ("key2", 5)];
    let built = RegistOrderMap::from(pairs);
    let mut inserted = RegistOrderMap::new();
    for (k, v) in pairs {
        inserted.insert(k, v);
    }
    assert_eq!(entries(&built), entries(&inserted));
    assert_eq!(entries(&built), vec![("key2", 5), ("key1", 10)]);
}

#[test]
fn rebuilding_from_the_entries_gives_the_same_map() {
    let mut map = RegistOrderMap::new();
    map.insert("delta".to_string(), 4);
    map.insert("alpha".to_string(), 1);
    map.insert("charlie".to_string(), 3);
    map.insert("alpha".to_string(), 11);
    let mut rebuilt = RegistOrderMap::new();
    for (k, v) in map.iter() {
        rebuilt.insert(k.clone(), *v);
    }
    assert_eq!(entries(&rebuilt), entries(&map));
    assert_eq!(
        entries(&rebuilt),
        vec![("delta".to_string(), 4), ("alpha".to_string(), 11), ("charlie".to_string(), 3)]
    );
}

#[test]
fn clone_is_a_deep_and_independent_copy() {
    let mut map = RegistOrderMap::new();
    map.insert("b".to_string(), vec![2]);
    map.insert("a".to_string(), vec![1]);
    let copy = map.clone();
    map.insert("b".to_string(), vec![20]);
    map.insert("c".to_string(), vec![3]);
    assert_eq!(entries(&copy), vec![("b".to_string(), vec![2]), ("a".to_string(), vec![1])]);
    assert_eq!(
        entries(&map),
        vec![("b".to_string(), vec![20]), ("a".to_string(), vec![1]), ("c".to_string(), vec![3])]
    );
    let empty: RegistOrderMap<u8, u8> = RegistOrderMap::new();
    assert!(empty.clone().is_empty());
}

#[test]
fn iter_restarts_and_stays_finished() {
    let map = RegistOrderMap::from([(1u32, 'a'), (2, 'b')]);
    let mut first = map.iter();
    assert_eq!(first.next(), Some((&1, &'a')));
    let mut second = map.iter();
    assert_eq!(second.next(), Some((&1, &'a')));
    assert_eq!(first.next(), Some((&2, &'b')));
    assert_eq!(first.next(), None);
    assert_eq!(first.next(), None);
    assert_eq!(second.next(), Some((&2, &'b')));
    assert_eq!(second.next(), None);
}

#[test]
fn str_keys_are_compared_by_their_characters() {
    let one = String::from("key");
    let other = String::from("key");
    let longer = String::from("keys");
    let mut map = RegistOrderMap::new();
    map.insert(one.as_str(), 1);
    map.insert(longer.as_str(), 2);
    map.insert(other.as_str(), 3);
    assert_eq!(map.len(), 2);
    assert_eq!(map.get(&"key"), Some(&3));
    assert_eq!(map.get(&"keys"), Some(&2));
    assert_eq!(map.get(&"ke"), None);
    assert_eq!(map.get(&""), None);
    assert_eq!(entries(&map), vec![("key", 3), ("keys", 2)]);
}

#[test]
fn string_keys_are_compared_by_their_characters() {
    let mut map = RegistOrderMap::new();
    map.insert(String::from("key"), 1);
    map.insert(String::new(), 2);
    map.insert(["k", "e", "y"].concat(), 3);
    assert_eq!(map.len(), 2);
    assert_eq!(map.get(&String::from("key")), Some(&3));
    assert_eq!(map.get(&String::new()), Some(&2));
    assert_eq!(map.get(&String::from("Key")), None);
}

#[test]
fn every_primitive_key_type_tells_its_values_apart() {
    fn two_keys<K: MapKey + Clone>(a: K, b: K) {
        let mut map = RegistOrderMap::new();
        map.insert(a.clone(), 1);
        map.insert(b.clone(), 2);
        map.insert(a.clone(), 3);
        assert_eq!(map.len(), 2);
        assert_eq!(map.get(&a), Some(&3));
        assert_eq!(map.get(&b), Some(&2));
    }
    two_keys(false, true);
    two_keys('a', 'b');
    two_keys(0u8, u8::MAX);
    two_keys(0u16, u16::MAX);
    two_keys(0u32, u32::MAX);
    two_keys(0u64, u64::MAX);
    two_keys(0u128, u128::MAX);
    two_keys(0usize, usize::MAX);
    two_keys(i8::MIN, i8::MAX);
    two_keys(i16::MIN, i16::MAX);
    two_keys(i32::MIN, i32::MAX);
    two_keys(i64::MIN, i64::MAX);
    two_keys(i128::MIN, i128::MAX);
    two_keys(isize::MIN, isize::MAX);
}

#[test]
fn reference_keys_are_compared_by_what_they_point_to() {
    let (a, b, c) = (String::from("x"), String::from("y"), String::from("x"));
    let mut map = RegistOrderMap::new();
    map.insert(&a, 1);
    map.insert(&b, 2);
    map.insert(&c, 3);
    assert_eq!(map.len(), 2);
    assert_eq!(map.get(&&a), Some(&3));
    assert_eq!(map.get(&&b), Some(&2));
    assert_eq!(map.get(&&String::from("z")), None);
    let numbers = [7u32, 8, 7];
    let mut by_ref = RegistOrderMap::new();
    for n in numbers.iter() {
        by_ref.insert(n, ());
    }
    assert_eq!(by_ref.len(), 2);
}

#[test]
fn pair_keys_are_compared_part_by_part() {
    let mut map = RegistOrderMap::new();
    map.insert((1u8, "a"), 'p');
    map.insert((1u8, "b"), 'q');
    map.insert((2u8, "a"), 'r');
    map.insert((1u8, "a"), 's');
    assert_eq!(entries(&map), vec![((1, "a"), 's'), ((1, "b"), 'q'), ((2, "a"), 'r')]);
    assert_eq!(map.get(&(2, "b")), None);
    assert_eq!(map.get(&(1, "b")), Some(&'q'));
}

#[test]
fn iter_is_an_iterator() {
    let map = RegistOrderMap::from([(3u8, 30u32), (1, 10), (2, 20)]);
    let keys: Vec<u8> = map.iter().map(|(k, _)| *k).collect();
    assert_eq!(keys, vec![3, 1, 2]);
    let total: u32 = map.iter().map(|(_, v)| *v).sum();
    assert_eq!(total, 60);
    let mut seen = Vec::new();
    for (k, v) in map.iter() {
        seen.push((*k, *v));
    }
    assert_eq!(seen, vec![(3, 30), (1, 10), (2, 20)]);
    assert_eq!(map.iter().count(), map.len());
}

#[test]
fn debug_lists_the_entries_in_order() {
    let empty: RegistOrderMap<u8, u8> = RegistOrderMap::new();
    assert_eq!(format!("{:?}", empty), "[]");
    let map = RegistOrderMap::from([(2u8, 'b'), (1, 'a'), (2, 'c')]);
    assert_eq!(
        format!("{:?}", map),
        "[Entry { key: 2, val: 'c' }, Entry { key: 1, val: 'a' }]"
    );
    assert_eq!(
        format!("{:#?}", RegistOrderMap::from([(1u8, 2u8)])),
        "[\n    Entry {\n        key: 1,\n        val: 2,\n    },\n]"
    );
}
