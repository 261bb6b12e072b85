use ox_shared::map_key::MapKey;

#[test]
fn string_keys_equal_by_content() {
    assert_eq!(MapKey::from_str("a"), MapKey::from_str("a"));
    assert_ne!(MapKey::from_str("a"), MapKey::from_str("b"));
}

#[test]
fn int_and_string_keys_never_equal() {
    assert_ne!(MapKey::Int(123), MapKey::from_str("123"));
    assert_eq!(MapKey::Int(123), MapKey::Int(123));
    assert_eq!(MapKey::from_bytes(&[0xff, 0x00]), MapKey::Str(vec![0xff, 0x00]));
}

#[test]
fn map_key_int_and_string_keys_are_distinct() {
    let mut m: std::collections::HashMap<MapKey, i32> = std::collections::HashMap::new();
    m.insert(MapKey::Int(123), 1);
    m.insert(MapKey::from_str("123"), 2);
    assert_eq!(m.len(), 2, "123 and \"123\" must be different keys");
    assert_eq!(m[&MapKey::Int(123)], 1);
    assert_eq!(m[&MapKey::from_str("123")], 2);
}
