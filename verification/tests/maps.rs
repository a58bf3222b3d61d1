//! The string map that carries headers and parameters.

use oss_sdk::strmap::StrMap;

#[test]
fn map_reads_back_what_was_inserted() {
    let mut m = StrMap::new();
    assert!(m.is_empty());
    assert!(!m.contains_key("a"));
    m.insert("a".to_string(), "1".to_string());
    m.insert("b".to_string(), "2".to_string());
    assert_eq!(m.len(), 2);
    assert!(m.contains_key("a"));
    assert_eq!(m.get("a").unwrap().as_str(), "1");
    assert_eq!(m.get("b").unwrap().as_str(), "2");
    assert!(m.get("c").is_none());
}

#[test]
fn map_insert_replaces_in_place() {
    let mut m = StrMap::new();
    m.insert("a".to_string(), "1".to_string());
    m.insert("b".to_string(), "2".to_string());
    m.insert("a".to_string(), "3".to_string());
    assert_eq!(m.len(), 2);
    assert_eq!(m.get("a").unwrap().as_str(), "3");
    // insertion order is kept: the replaced entry stays first
    assert_eq!(m.key_at(0).as_str(), "a");
    assert_eq!(m.val_at(0).as_str(), "3");
    assert_eq!(m.key_at(1).as_str(), "b");
}

#[test]
fn duplicate_copies_every_entry() {
    let mut m = StrMap::new();
    m.insert("k".to_string(), "v".to_string());
    let copy = m.duplicate();
    assert_eq!(copy.len(), 1);
    assert_eq!(copy.get("k").unwrap().as_str(), "v");
}
