use std::collections::HashMap;
use stracer::maps::{delete_negative_keys, merge_maps, vector_to_hashmap};
use vstd::hash_map::StringHashMap;

#[test]
fn vector_to_hashmap_tests() {
    let v = vec![
        (1, "a".to_string()),
        (3, "c".to_string()),
        (9, "i".to_string()),
        (10, "j".to_string()),
    ];
    let mut map = HashMap::new();
    map.insert(1, "a".to_string());
    map.insert(3, "c".to_string());
    map.insert(9, "i".to_string());
    map.insert(10, "j".to_string());
    assert_eq!(vector_to_hashmap(&v), map);
}

#[test]
fn vector_to_hashmap_keeps_the_later_pair() {
    let v = vec![(1, "a".to_string()), (2, "b".to_string()), (1, "z".to_string())];
    let map = vector_to_hashmap(&v);
    assert_eq!(map.len(), 2);
    assert_eq!(map[&1], "z");
    assert_eq!(map[&2], "b");
}

#[test]
fn delete_negative_keys_keeps_zero_and_above() {
    let mut h = HashMap::new();
    h.insert(-3, 30);
    h.insert(-1, 10);
    h.insert(0, 0);
    h.insert(2, -20);
    h.insert(i32::MIN, 1);
    h.insert(i32::MAX, -1);
    delete_negative_keys(&mut h);
    let mut expected = HashMap::new();
    expected.insert(0, 0);
    expected.insert(2, -20);
    expected.insert(i32::MAX, -1);
    assert_eq!(h, expected);
}

#[test]
fn delete_negative_keys_of_an_empty_map() {
    let mut h: HashMap<i32, i32> = HashMap::new();
    delete_negative_keys(&mut h);
    assert!(h.is_empty());
}

#[test]
fn merge_maps_appends_and_inserts() {
    let mut merged: StringHashMap<String> = StringHashMap::new();
    merged.insert("a".to_string(), "1".to_string());
    merged.insert("b".to_string(), "2".to_string());
    let add = vec![
        ("b".to_string(), "x".to_string()),
        ("c".to_string(), "3".to_string()),
        ("b".to_string(), "y".to_string()),
    ];
    merge_maps(&mut merged, add);
    assert_eq!(merged.len(), 3);
    assert_eq!(merged.get("a"), Some(&"1".to_string()));
    assert_eq!(merged.get("b"), Some(&"2xy".to_string()));
    assert_eq!(merged.get("c"), Some(&"3".to_string()));
}
