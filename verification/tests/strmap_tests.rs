use rust_web_server::strmap::StrMap;

fn map_of(pairs: &[(&str, &str)]) -> StrMap {
    let mut m = StrMap::new();
    for (k, v) in pairs {
        m.insert(k.to_string(), v.to_string());
    }
    m
}

#[test]
fn new_map_is_empty() {
    let m = StrMap::new();
    assert!(m.is_empty());
    assert_eq!(m.len(), 0);
    assert_eq!(m.get("a"), None);
}

#[test]
fn get_after_insert_gives_value() {
    let mut m = map_of(&[("a", "1"), ("b", "2")]);
    assert_eq!(m.get("a"), Some(&"1".to_string()));
    m.insert("a".to_string(), "3".to_string());
    assert_eq!(m.get("a"), Some(&"3".to_string()));
    assert_eq!(m.get("b"), Some(&"2".to_string()));
    assert_eq!(m.len(), 2);
    assert_eq!(m.key_at(0), "a");
    assert_eq!(m.value_at(0), "3");
    assert_eq!(m.key_at(1), "b");
}

#[test]
fn get_after_remove_gives_nothing() {
    let mut m = map_of(&[("a", "1"), ("b", "2"), ("c", "3")]);
    m.remove("b");
    assert_eq!(m.get("b"), None);
    assert!(!m.contains_key("b"));
    assert_eq!(m.get("a"), Some(&"1".to_string()));
    assert_eq!(m.get("c"), Some(&"3".to_string()));
    assert_eq!(m.key_at(1), "c");
    m.remove("zz");
    assert_eq!(m.len(), 2);
}

#[test]
fn extend_sets_each_entry_in_turn() {
    let mut m = map_of(&[("x", "1"), ("y", "2")]);
    let more = map_of(&[("y", "9"), ("z", "3")]);
    m.extend(&more);
    assert_eq!(m.len(), 3);
    assert_eq!((m.key_at(0).as_str(), m.value_at(0).as_str()), ("x", "1"));
    assert_eq!((m.key_at(1).as_str(), m.value_at(1).as_str()), ("y", "9"));
    assert_eq!((m.key_at(2).as_str(), m.value_at(2).as_str()), ("z", "3"));
}

#[test]
fn position_and_get_or_empty() {
    let m = map_of(&[("a", "1"), ("b", "2")]);
    assert_eq!(m.position(&"b".to_string()), Some(1));
    assert_eq!(m.position(&"q".to_string()), None);
    assert_eq!(m.get_or_empty("a"), "1");
    assert_eq!(m.get_or_empty("q"), "");
    let d = m.duplicate();
    assert_eq!(d.len(), 2);
    assert_eq!(d.get("b"), Some(&"2".to_string()));
}
