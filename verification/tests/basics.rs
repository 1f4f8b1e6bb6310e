use regist_order_map::RegistOrderMap;

#[test]
fn test_insert() {
    let key1 = "key1".to_string();
    let key2 = "key2".to_string();
    let mut map = RegistOrderMap::new();
    map.insert(key2.clone(), 20);
    assert_eq!(map.get(&key1), None);
    assert_eq!(map.get(&key2), Some(&20));
    map.insert(key1.clone(), 10);
    assert_eq!(map.get(&key1), Some(&10));
    assert_eq!(map.get(&key2), Some(&20));
}

#[test]
fn test_iter() {
    let key1 = "key1".to_string();
    let key2 = "key2".to_string();
    let mut map = RegistOrderMap::new();
    map.insert(key2.clone(), 20);
    map.insert(key1.clone(), 10);
    let mut iter = map.iter();
    assert_eq!(iter.next(), Some((&key2, &20)));
    assert_eq!(iter.next(), Some((&key1, &10)));
}

#[test]
fn test_from() {
    let map = RegistOrderMap::from([("key2", 20), ("key1", 10)]);
    let mut iter = map.iter();
    assert_eq!(iter.next(), Some((&"key2", &20)));
    assert_eq!(iter.next(), Some((&"key1", &10)));
}

#[test]
fn test_debug() {
    let key1 = "key1".to_string();
    let key2 = "key2".to_string();
    let mut map = RegistOrderMap::new();
    map.insert(key2.clone(), 20);
    map.insert(key1.clone(), 10);
    assert_eq!(
        format!("{:?}", map),
        r#"[Entry { key: "key2", val: 20 }, Entry { key: "key1", val: 10 }]"#
    );
}
