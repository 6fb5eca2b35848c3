use traceprop::carrier::HeaderCarrier;

#[test]
fn carrier_get_and_missing_key() {
    let mut c = HeaderCarrier::new();
    c.insert("a".to_string(), "1".to_string());
    c.insert("b".to_string(), "2".to_string());
    assert_eq!(c.get("a"), Some("1"));
    assert_eq!(c.get("b"), Some("2"));
    assert_eq!(c.get("A"), None);
    assert_eq!(c.get("c"), None);
}

#[test]
fn carrier_insert_replaces_value() {
    let mut c = HeaderCarrier::new();
    c.insert("k".to_string(), "old".to_string());
    c.insert("k".to_string(), "new".to_string());
    assert_eq!(c.get("k"), Some("new"));
    assert_eq!(c.len(), 1);
}

#[test]
fn carrier_keys_lists_each_once() {
    let mut c = HeaderCarrier::new();
    assert!(c.keys().is_empty());
    c.insert("x".to_string(), "1".to_string());
    c.insert("y".to_string(), "2".to_string());
    c.insert("x".to_string(), "3".to_string());
    let mut keys = c.keys();
    keys.sort();
    assert_eq!(keys, vec!["x", "y"]);
}
