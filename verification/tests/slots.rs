use composite::slots::SlotMap;

#[test]
fn slot_map_starts_empty() {
    let map: SlotMap<u32> = SlotMap::new();
    assert_eq!(map.len(), 0);
    assert!(!map.contains_key("A"));
    assert_eq!(map.get("A"), None);
}

#[test]
fn slot_map_insert_then_get() {
    let mut map: SlotMap<u32> = SlotMap::new();
    assert_eq!(map.insert("A", 1), None);
    assert_eq!(map.insert("B", 2), None);
    assert_eq!(map.len(), 2);
    assert_eq!(map.get("A"), Some(&1));
    assert_eq!(map.get("B"), Some(&2));
    assert_eq!(map.get("C"), None);
    assert!(map.contains_key("A"));
    assert!(!map.contains_key("C"));
}

#[test]
fn slot_map_insert_replaces() {
    let mut map: SlotMap<u32> = SlotMap::new();
    map.insert("A", 1);
    map.insert("B", 2);
    assert_eq!(map.insert("A", 3), Some(1));
    assert_eq!(map.len(), 2);
    assert_eq!(map.get("A"), Some(&3));
    assert_eq!(map.get("B"), Some(&2));
}

#[test]
fn slot_map_remove_takes_the_value() {
    let mut map: SlotMap<u32> = SlotMap::new();
    map.insert("A", 1);
    map.insert("B", 2);
    map.insert("C", 3);
    assert_eq!(map.remove("B"), Some(2));
    assert_eq!(map.len(), 2);
    assert_eq!(map.get("B"), None);
    assert_eq!(map.get("A"), Some(&1));
    assert_eq!(map.get("C"), Some(&3));
    assert_eq!(map.remove("B"), None);
    assert_eq!(map.len(), 2);
}

#[test]
fn slot_map_keys_go_by_their_characters() {
    let mut map: SlotMap<u32> = SlotMap::new();
    map.insert("INPUT_A", 1);
    let key = String::from("INPUT_") + "A";
    assert_eq!(map.get(key.as_str()), Some(&1));
    assert_eq!(map.remove(key.as_str()), Some(1));
    assert_eq!(map.len(), 0);
}
