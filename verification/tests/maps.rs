use conduit::json::JsonValue;
use conduit::strmap::StrMap;

#[test]
fn strmap_read_after_write() {
    let mut m: StrMap<u32> = StrMap::new();
    assert_eq!(m.len(), 0);
    assert!(m.get("a").is_none());
    m.insert("a".to_string(), 1);
    m.insert("b".to_string(), 2);
    m.insert("a".to_string(), 3);
    assert_eq!(m.get("a"), Some(&3));
    assert_eq!(m.get("b"), Some(&2));
    assert!(m.contains_key("b"));
    assert!(!m.contains_key("c"));
    assert_eq!(m.len(), 2);
    let keys: Vec<&str> = m.entries().iter().map(|(k, _)| k.as_str()).collect();
    assert_eq!(keys, vec!["a", "b"]);
    let copy = m.clone();
    assert_eq!(copy.get("a"), Some(&3));
}

#[test]
fn json_members_and_take() {
    let mut v = JsonValue::Object(vec![
        ("s".to_string(), JsonValue::Str("text".to_string())),
        ("b".to_string(), JsonValue::Bool(true)),
        ("n".to_string(), JsonValue::Number(conduit::json::JsonNumber::NegInt(-4))),
    ]);
    assert_eq!(v.get_str("s").map(|s| s.as_str()), Some("text"));
    assert_eq!(v.get_bool("b"), Some(true));
    assert_eq!(v.get_i64("n"), Some(-4));
    assert_eq!(v.get_i64("s"), None);
    assert!(v.get("missing").is_none());
    let taken = v.take_member("b");
    assert!(matches!(taken, JsonValue::Bool(true)));
    assert!(v.get("b").is_none());
    assert_eq!(v.get_str("s").map(|s| s.as_str()), Some("text"));
    assert!(matches!(v.take_member("b"), JsonValue::Null));
    assert_eq!(v.render(), r#"{"n":-4,"s":"text"}"#);
    assert!(JsonValue::Null.get("x").is_none());
}
