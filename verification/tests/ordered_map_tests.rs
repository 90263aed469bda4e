use schema_rename::keyed::OrderedMap;

#[test]
fn insert_appends_new_keys_in_order() {
    let mut m: OrderedMap<u32> = OrderedMap::new();
    m.insert("a".to_string(), 1);
    m.insert("b".to_string(), 2);
    m.insert("c".to_string(), 3);
    assert_eq!(m.len(), 3);
    assert_eq!(m.key_at(0).as_str(), "a");
    assert_eq!(m.key_at(1).as_str(), "b");
    assert_eq!(m.key_at(2).as_str(), "c");
    assert_eq!(m.value_at(1), &2);
}

#[test]
fn insert_existing_key_keeps_position_and_replaces_value() {
    let mut m: OrderedMap<u32> = OrderedMap::new();
    m.insert("a".to_string(), 1);
    m.insert("b".to_string(), 2);
    m.insert("c".to_string(), 3);
    m.insert("b".to_string(), 20);
    assert_eq!(m.len(), 3);
    assert_eq!(m.key_at(1).as_str(), "b");
    assert_eq!(m.value_at(1), &20);
}

#[test]
fn get_and_contains_key_find_entries() {
    let mut m: OrderedMap<u32> = OrderedMap::new();
    m.insert("a".to_string(), 1);
    assert!(m.contains_key(&"a".to_string()));
    assert!(!m.contains_key(&"z".to_string()));
    assert_eq!(m.get(&"a".to_string()), Some(&1));
    assert_eq!(m.get(&"z".to_string()), None);
    assert_eq!(m.index_of(&"a".to_string()), Some(0));
    assert_eq!(m.index_of(&"z".to_string()), None);
}

#[test]
fn rename_key_keeps_position_and_value() {
    let mut m: OrderedMap<u32> = OrderedMap::new();
    m.insert("a".to_string(), 1);
    m.insert("b".to_string(), 2);
    m.insert("c".to_string(), 3);
    m.rename_key(&"b".to_string(), "mid".to_string());
    assert_eq!(m.len(), 3);
    assert_eq!(m.key_at(0).as_str(), "a");
    assert_eq!(m.key_at(1).as_str(), "mid");
    assert_eq!(m.key_at(2).as_str(), "c");
    assert_eq!(m.value_at(1), &2);
}

#[test]
fn rename_key_onto_existing_key_overwrites_that_slot() {
    let mut m: OrderedMap<u32> = OrderedMap::new();
    m.insert("a".to_string(), 1);
    m.insert("b".to_string(), 2);
    m.insert("c".to_string(), 3);
    m.rename_key(&"a".to_string(), "c".to_string());
    assert_eq!(m.len(), 2);
    assert_eq!(m.key_at(0).as_str(), "b");
    assert_eq!(m.key_at(1).as_str(), "c");
    assert_eq!(m.value_at(1), &1);
}
