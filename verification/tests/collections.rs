use metasafe::collections::{AssocMap, KeySet};

#[test]
fn key_set_insert_reports_novelty() {
    let mut s: KeySet<u32> = KeySet::new();
    assert!(s.is_empty());
    assert!(s.insert(7));
    assert!(!s.insert(7));
    assert!(s.insert(9));
    assert_eq!(s.len(), 2);
    assert!(s.contains(&7));
    assert!(s.contains(&9));
    assert!(!s.contains(&8));
    assert!(!s.is_empty());
}

#[test]
fn key_set_extend_is_union() {
    let mut a: KeySet<u32> = KeySet::new();
    a.insert(1);
    a.insert(2);
    let mut b: KeySet<u32> = KeySet::new();
    b.insert(2);
    b.insert(3);
    a.extend_from(&b);
    assert_eq!(a.len(), 3);
    for x in [1u32, 2, 3] {
        assert!(a.contains(&x));
    }
}

#[test]
fn assoc_map_insert_replaces() {
    let mut m: AssocMap<String, u32> = AssocMap::new();
    m.insert("a".to_string(), 1);
    m.insert("b".to_string(), 2);
    m.insert("a".to_string(), 3);
    assert_eq!(m.len(), 2);
    assert_eq!(m.get(&"a".to_string()), Some(&3));
    assert_eq!(m.get(&"b".to_string()), Some(&2));
    assert_eq!(m.get(&"c".to_string()), None);
    assert!(m.contains_key(&"b".to_string()));
    assert_eq!(m.find(&"b".to_string()), Some(1));
    assert_eq!(m.key_at(0), "a");
    assert_eq!(*m.value_at(0), 3);
}

#[test]
fn assoc_map_replace_at_hands_back_old_value() {
    let mut m: AssocMap<usize, String> = AssocMap::new();
    m.insert(4, "four".to_string());
    let old = m.replace_at(0, "vier".to_string());
    assert_eq!(old, "four");
    assert_eq!(m.get(&4).map(|s| s.as_str()), Some("vier"));
    assert_eq!(m.len(), 1);
}
