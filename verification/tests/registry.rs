use chat_relay::registry::Registry;

#[test]
fn registry_insert_get_remove() {
    let mut r: Registry<u8> = Registry::new();
    r.insert("a".to_string(), 1);
    r.insert("b".to_string(), 2);
    r.insert("a".to_string(), 3);
    assert_eq!(r.get(&"a".to_string()), Some(&3));
    assert_eq!(r.get(&"b".to_string()), Some(&2));
    assert_eq!(r.keys().len(), 2);
    assert_eq!(r.remove(&"a".to_string()), Some(3));
    assert_eq!(r.remove(&"a".to_string()), None);
    assert_eq!(r.get(&"a".to_string()), None);
    assert_eq!(r.keys(), vec!["b".to_string()]);
}
