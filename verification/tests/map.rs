use ox_shared::error::SharedError;
use ox_shared::map::{encode_pairs_portbuf, enforce_value_size, map_entry_cost_parts, map_key_size, IterPair};
use ox_shared::map::{map_cap_from_arg, set_many_pair, set_many_pairs};
use ox_shared::map::{key_to_ffi, map_key_to_shared_value, reject_null_value};
use ox_shared::map::{decode_map_key, KeyCursor, encode_keys_portbuf, raw_key_value_to_map_key, MapInner, KEY_KIND_INT, KEY_KIND_STR};
use ox_shared::map_key::MapKey;
use ox_shared::value::{sv_content_eq, SharedValue};

fn sk(s: &str) -> MapKey {
    MapKey::from_str(s)
}

fn ik(i: i64) -> MapKey {
    MapKey::Int(i)
}

fn text(s: &str) -> SharedValue {
    SharedValue::Str(s.as_bytes().to_vec())
}

#[test]
fn new_unbounded() {
    let m = MapInner::new(None);
    assert_eq!(m.count(), 0);
    assert_eq!(m.max_entries(), None);
}

#[test]
fn set_get_remove() {
    let mut m = MapInner::new(None);
    assert!(m.set(sk("a"), SharedValue::Long(1)).unwrap().is_none());
    assert!(matches!(m.get(&sk("a")), Some(SharedValue::Long(1))));
    let prev = m.set(sk("a"), SharedValue::Long(2)).unwrap();
    assert!(matches!(prev, Some(SharedValue::Long(1))));
    assert!(m.remove(&sk("a")));
    assert!(!m.remove(&sk("a")));
    assert!(m.get(&sk("a")).is_none());
}

#[test]
fn set_rejects_null_value() {
    let mut m = MapInner::new(None);
    assert_eq!(m.set(sk("a"), SharedValue::Null).unwrap_err(), SharedError::Type);
    assert_eq!(m.count(), 0);
}

#[test]
fn map_int_and_string_keys_are_distinct() {
    let mut m = MapInner::new(None);
    m.set(ik(123), text("int")).unwrap();
    m.set(sk("123"), text("str")).unwrap();
    assert_eq!(m.count(), 2);
    assert!(matches!(m.get(&ik(123)), Some(SharedValue::Str(s)) if s == b"int"));
    assert!(matches!(m.get(&sk("123")), Some(SharedValue::Str(s)) if s == b"str"));
}

#[test]
fn binary_keys_round_trip() {
    let mut inner = MapInner::new(None);
    inner.set(MapKey::from_bytes(b"\xff\xfe"), SharedValue::Long(1)).unwrap();
    assert!(matches!(inner.get(&MapKey::from_bytes(b"\xff\xfe")), Some(SharedValue::Long(1))));
    assert_ne!(MapKey::from_bytes(b"\xff"), MapKey::from_bytes(b"\xfe"));
    assert_ne!(MapKey::from_bytes(b"\xff"), MapKey::from_str(""));
}

#[test]
fn striped_count_exact_when_quiescent() {
    let mut inner = MapInner::new(None);
    for i in 0..1000 {
        inner.set(MapKey::Int(i), SharedValue::Long(i)).unwrap();
    }
    assert_eq!(inner.count(), 1000);
    for i in 0..400 {
        inner.remove(&MapKey::Int(i));
    }
    assert_eq!(inner.count(), 600);
}

#[test]
fn clear_resets_count() {
    let mut m = MapInner::new(None);
    for i in 0..50 {
        m.set(ik(i), SharedValue::Long(i)).unwrap();
    }
    assert_eq!(m.clear(), 50);
    assert_eq!(m.count(), 0);
}

#[test]
fn soft_cap_rejects_new_key_allows_overwrite() {
    let mut inner = MapInner::new(Some(2));
    inner.set(MapKey::from_str("a"), SharedValue::Long(1)).unwrap();
    inner.set(MapKey::from_str("b"), SharedValue::Long(2)).unwrap();
    inner.set(MapKey::from_str("a"), SharedValue::Long(9)).unwrap();
    let e = inner.set(MapKey::from_str("c"), SharedValue::Long(3)).unwrap_err();
    assert_eq!(e, SharedError::CapacityExceeded);
}

#[test]
fn cap_freed_by_remove() {
    let mut m = MapInner::new(Some(2));
    m.set(sk("a"), SharedValue::Long(1)).unwrap();
    m.set(sk("b"), SharedValue::Long(2)).unwrap();
    assert_eq!(m.set(sk("c"), SharedValue::Long(3)).unwrap_err(), SharedError::CapacityExceeded);
    m.remove(&sk("a"));
    m.set(sk("c"), SharedValue::Long(3)).unwrap();
    assert_eq!(m.count(), 2);
}

#[test]
fn cas_insert_replace_remove_via_null_sentinel() {
    let mut inner = MapInner::new(None);
    assert!(inner.compare_and_set(MapKey::from_str("k"), None, Some(SharedValue::Long(1))).unwrap());
    assert!(!inner.compare_and_set(MapKey::from_str("k"), None, Some(SharedValue::Long(9))).unwrap());
    assert!(inner
        .compare_and_set(MapKey::from_str("k"), Some(SharedValue::Long(1)), Some(SharedValue::Long(2)))
        .unwrap());
    assert!(!inner
        .compare_and_set(MapKey::from_str("k"), Some(SharedValue::Long(1)), Some(SharedValue::Long(3)))
        .unwrap());
    assert!(inner.compare_and_set(MapKey::from_str("k"), Some(SharedValue::Long(2)), None).unwrap());
    assert!(inner.get(&MapKey::from_str("k")).is_none());
}

#[test]
fn cas_absent_to_absent_noop() {
    let mut m = MapInner::new(None);
    assert!(m.compare_and_set(sk("x"), None, None).unwrap());
    assert!(m.get(&sk("x")).is_none());
    assert_eq!(m.count(), 0);
}

#[test]
fn cas_array_equality_is_order_sensitive() {
    let mut inner = MapInner::new(None);
    // Arrays travel serialised: the same pairs in another order are
    // another byte string, hence not equal.
    let a = SharedValue::Array(b"x=1;y=2".to_vec());
    let a_reordered = SharedValue::Array(b"y=2;x=1".to_vec());
    inner.set(MapKey::from_str("k"), a.duplicate()).unwrap();
    assert!(!inner.compare_and_set(MapKey::from_str("k"), Some(a_reordered), Some(SharedValue::Long(0))).unwrap());
    assert!(inner.compare_and_set(MapKey::from_str("k"), Some(a), Some(SharedValue::Long(0))).unwrap());
}

#[test]
fn cas_rejects_null_new_value() {
    let mut m = MapInner::new(None);
    assert_eq!(m.compare_and_set(sk("k"), None, Some(SharedValue::Null)).unwrap_err(), SharedError::Type);
}

#[test]
fn swap_and_pop_return_prev_or_none() {
    let mut inner = MapInner::new(None);
    assert!(inner.swap(MapKey::from_str("k"), SharedValue::Long(1)).unwrap().is_none());
    assert!(matches!(inner.swap(MapKey::from_str("k"), SharedValue::Long(2)).unwrap(), Some(SharedValue::Long(1))));
    assert!(matches!(inner.pop(&MapKey::from_str("k")), Some(SharedValue::Long(2))));
    assert!(inner.pop(&MapKey::from_str("k")).is_none());
}

#[test]
fn set_if_absent_returns_prev() {
    let mut inner = MapInner::new(None);
    assert!(inner.set_if_absent(MapKey::from_str("k"), SharedValue::Long(1)).unwrap().is_none());
    assert!(matches!(
        inner.set_if_absent(MapKey::from_str("k"), SharedValue::Long(9)).unwrap(),
        Some(SharedValue::Long(1))
    ));
    assert!(matches!(inner.get(&sk("k")), Some(SharedValue::Long(1))));
}

#[test]
fn swap_rejects_null() {
    let mut m = MapInner::new(None);
    assert_eq!(m.swap(sk("k"), SharedValue::Null).unwrap_err(), SharedError::Type);
}

#[test]
fn all_keys_covers_every_entry_once() {
    let mut inner = MapInner::new(None);
    for i in 0..200 {
        inner.set(MapKey::Int(i), SharedValue::Long(i)).unwrap();
    }
    let keys = inner.all_keys();
    assert_eq!(keys.len(), 200, "one entry per key, no duplicates");
    let seen: std::collections::HashSet<_> = keys.into_iter().collect();
    assert_eq!(seen.len(), 200);
    for i in 0..200 {
        assert!(seen.contains(&MapKey::Int(i)));
    }
}

#[test]
fn set_many_batch_inserts_and_counts() {
    let mut m = MapInner::new(None);
    let batch = vec![(sk("a"), SharedValue::Long(1)), (ik(7), SharedValue::Long(2)), (sk("b"), SharedValue::Long(3))];
    assert_eq!(m.set_many_batch(batch).unwrap(), 3);
    assert_eq!(m.count(), 3);
    assert!(matches!(m.get(&ik(7)), Some(SharedValue::Long(2))));
}

#[test]
fn set_many_batch_bails_on_cap() {
    let mut m = MapInner::new(Some(2));
    let batch = vec![(sk("a"), SharedValue::Long(1)), (sk("b"), SharedValue::Long(2)), (sk("c"), SharedValue::Long(3))];
    let (e, n) = m.set_many_batch(batch).unwrap_err();
    assert_eq!(e, SharedError::CapacityExceeded);
    assert_eq!(n, 2);
}

#[test]
fn shared_inner_type_and_snapshot() {
    let mut m = MapInner::new(Some(100));
    m.set(sk("a"), SharedValue::Long(1)).unwrap();
    m.set(sk("b"), SharedValue::Long(2)).unwrap();
    match m.debug_snapshot() {
        SharedValue::Long(n) => assert_eq!(n, 2),
        other => panic!("expected Long, got {other:?}"),
    }
}

#[test]
fn sv_content_eq_scalars_and_strings() {
    assert!(sv_content_eq(&SharedValue::Long(1), &SharedValue::Long(1)));
    assert!(!sv_content_eq(&SharedValue::Long(1), &SharedValue::Long(2)));
    assert!(sv_content_eq(&text("x"), &text("x")));
    assert!(!sv_content_eq(&text("x"), &text("y")));
    assert!(!sv_content_eq(&SharedValue::Long(1), &text("1")));
}

#[test]
fn remove_many_counts_hits_and_stops_at_non_key() {
    let mut m = MapInner::new(None);
    m.set(sk("a"), SharedValue::Long(1)).unwrap();
    m.set(ik(2), SharedValue::Long(2)).unwrap();
    m.set(sk("c"), SharedValue::Long(3)).unwrap();
    let keys = vec![text("a"), SharedValue::Long(2), text("zz"), text("a")];
    assert_eq!(m.remove_many(&keys).unwrap(), 2);
    assert_eq!(m.count(), 1);
    let bad = vec![text("c"), SharedValue::Bool(true), SharedValue::Long(99)];
    assert_eq!(m.remove_many(&bad).unwrap_err(), SharedError::Type);
    assert_eq!(m.count(), 0, "keys before the bad one stay removed");
}

#[test]
fn decode_map_key_by_kind() {
    assert_eq!(decode_map_key(KEY_KIND_INT, 42, &[]).unwrap(), MapKey::Int(42));
    assert_eq!(decode_map_key(KEY_KIND_STR, 0, b"\xffab").unwrap(), MapKey::from_bytes(b"\xffab"));
    assert_eq!(decode_map_key(KEY_KIND_STR, 0, b"").unwrap(), MapKey::from_str(""));
    let (e, msg) = decode_map_key(7, 0, b"x").unwrap_err();
    assert_eq!(e, SharedError::Generic);
    assert_eq!(msg, "invalid map key kind (expected 0=int or 1=str)");
}

#[test]
fn raw_key_values_become_keys() {
    assert_eq!(raw_key_value_to_map_key(&SharedValue::Long(5)).unwrap(), MapKey::Int(5));
    assert_eq!(raw_key_value_to_map_key(&text("k")).unwrap(), MapKey::from_str("k"));
    assert_eq!(raw_key_value_to_map_key(&SharedValue::Null).unwrap_err(), SharedError::Type);
}

#[test]
fn write_then_read_law_on_values() {
    let mut m = MapInner::new(Some(1));
    m.set(sk("only"), text("v1")).unwrap();
    assert!(matches!(m.get(&sk("only")), Some(SharedValue::Str(s)) if s == b"v1"));
    // at the cap, an overwrite still succeeds
    m.set(sk("only"), text("v2")).unwrap();
    assert!(matches!(m.get(&sk("only")), Some(SharedValue::Str(s)) if s == b"v2"));
    assert_eq!(m.count(), 1);
}

#[test]
fn keys_portbuf_frames_each_key() {
    let buf = encode_keys_portbuf(&[MapKey::Int(1), MapKey::from_str("ab")]);
    let mut want = vec![6u8, 2, 0, 0, 0];
    want.extend_from_slice(&[0, 0, 0, 0, 0, 0, 0, 0, 0]);
    want.extend_from_slice(&[3, 1, 0, 0, 0, 0, 0, 0, 0]);
    want.extend_from_slice(&[0, 1, 0, 0, 0, 0, 0, 0, 0]);
    want.extend_from_slice(&[5, 2, 0, 0, 0, b'a', b'b']);
    assert_eq!(buf, want);
}

#[test]
fn key_cursor_skips_keys_removed_since_the_snapshot() {
    let mut m = MapInner::new(None);
    m.set(sk("a"), SharedValue::Long(1)).unwrap();
    m.set(sk("b"), SharedValue::Long(2)).unwrap();
    m.set(sk("c"), SharedValue::Long(3)).unwrap();
    let mut cur = KeyCursor::new(vec![sk("a"), sk("b"), sk("zz"), sk("c")]);
    m.remove(&sk("b"));
    cur.advance_to_present(&m);
    assert!(cur.valid());
    assert_eq!(cur.key(), Some(sk("a")));
    assert!(matches!(cur.current(), Some(SharedValue::Long(1))));
    cur.next(&m);
    assert_eq!(cur.key(), Some(sk("c")), "b was removed and zz never existed");
    assert!(matches!(cur.current(), Some(SharedValue::Long(3))));
    cur.next(&m);
    assert!(!cur.valid());
    assert_eq!(cur.key(), None);
}

#[test]
fn sample_keys_shows_up_to_limit() {
    let mut m = MapInner::new(None);
    m.set(ik(-7), SharedValue::Long(1)).unwrap();
    assert_eq!(m.sample_keys(5), vec!["-7".to_string()]);
    m.set(MapKey::from_bytes(b"a\xffb"), SharedValue::Long(2)).unwrap();
    let mut shown = m.sample_keys(5);
    shown.sort();
    assert_eq!(shown, vec!["-7".to_string(), "a\u{fffd}b".to_string()]);
    assert_eq!(m.sample_keys(1).len(), 1);
    assert!(m.sample_keys(0).is_empty());
}

#[test]
fn keys_round_trip_through_boundary_form() {
    for k in [MapKey::Int(-9), MapKey::from_bytes(b"\x00k")] {
        let (kind, i, bytes) = key_to_ffi(&k);
        assert_eq!(decode_map_key(kind, i, &bytes).unwrap(), k);
        assert_eq!(raw_key_value_to_map_key(&map_key_to_shared_value(&k)).unwrap(), k);
    }
    assert!(matches!(map_key_to_shared_value(&sk("b")), SharedValue::Bytes(b) if b == b"b"));
    assert!(reject_null_value(false, "set").is_ok());
    match reject_null_value(true, "set").unwrap_err() {
        ox_shared::error::PhpError::Exception { class, message, .. } => {
            assert_eq!(class, "OxPHP\\Shared\\TypeException");
            assert_eq!(message, "Shared\\Map::set: null is not a storable value (null means absence; use remove() instead)");
        }
        other => panic!("{other:?}"),
    }
}

#[test]
fn text_and_binary_strings_differ() {
    assert!(!sv_content_eq(&text("x"), &SharedValue::Bytes(b"x".to_vec())));
    assert!(sv_content_eq(&SharedValue::Bytes(b"x".to_vec()), &SharedValue::Bytes(b"x".to_vec())));
    assert_eq!(raw_key_value_to_map_key(&SharedValue::Bytes(b"q".to_vec())).unwrap(), MapKey::from_str("q"));
}

#[test]
fn entry_cost_accounting() {
    assert_eq!(map_key_size(&MapKey::Int(-1)), 8);
    assert_eq!(map_key_size(&MapKey::from_str("abc")), 3);
    assert_eq!(map_entry_cost_parts(3, 10), 93);
    assert!(enforce_value_size(10, 10).is_ok());
    assert_eq!(enforce_value_size(11, 10).unwrap_err(), SharedError::ValueTooLarge);
}

#[test]
fn pairs_frame_layout() {
    let pairs = vec![IterPair { key: MapKey::Int(7), value: vec![9u8] }];
    let buf = encode_pairs_portbuf(&pairs);
    let mut want: Vec<u8> = vec![6, 1, 0, 0, 0];
    want.push(0);
    want.extend_from_slice(&0u64.to_le_bytes());
    want.extend_from_slice(&[6, 2, 0, 0, 0]);
    want.push(0);
    want.extend_from_slice(&0u64.to_le_bytes());
    want.push(3);
    want.extend_from_slice(&7u64.to_le_bytes());
    want.push(0);
    want.extend_from_slice(&1u64.to_le_bytes());
    want.push(9);
    assert_eq!(buf, want);
    assert_eq!(encode_pairs_portbuf(&[]), vec![6, 0, 0, 0, 0]);
}

#[test]
fn cycle_gate_refuses_before_any_write() {
    let mut m = MapInner::new(None);
    // An unbound store runs no cycle walk.
    assert!(m.set_after_cycle_check(ik(1), SharedValue::Long(1), true).is_ok());
    m.bind_id(4);
    assert_eq!(m.set_after_cycle_check(ik(2), SharedValue::Long(2), true).unwrap_err(), SharedError::Cycle);
    assert_eq!(m.set_after_cycle_check(ik(2), SharedValue::Null, true).unwrap_err(), SharedError::Type);
    assert_eq!(m.count(), 1);
    assert_eq!(
        m.compare_and_set_after_cycle_check(ik(1), Some(SharedValue::Long(1)), Some(SharedValue::Long(5)), true).unwrap_err(),
        SharedError::Cycle
    );
    assert!(m.compare_and_set_after_cycle_check(ik(1), Some(SharedValue::Long(1)), None, true).unwrap());
    assert_eq!(m.count(), 0);
    let batch = vec![(ik(7), SharedValue::Long(7)), (ik(8), SharedValue::Long(8))];
    assert_eq!(m.set_many_after_cycle_check(batch, true).unwrap_err(), (SharedError::Cycle, 0));
    assert_eq!(m.count(), 0);
    let batch = vec![(ik(7), SharedValue::Long(7)), (ik(8), SharedValue::Long(8))];
    assert_eq!(m.set_many_after_cycle_check(batch, false).unwrap(), 2);
    assert_eq!(m.count(), 2);
}

#[test]
fn set_many_pair_shapes() {
    let (e, msg) = set_many_pair(false, &vec![]).unwrap_err();
    assert_eq!((e, msg.as_str()), (SharedError::Type, "setMany pair must be a [key, value] array"));
    let (e, msg) = set_many_pair(true, &vec![]).unwrap_err();
    assert_eq!((e, msg.as_str()), (SharedError::Type, "setMany pair missing key"));
    let (e, msg) = set_many_pair(true, &vec![SharedValue::Long(1)]).unwrap_err();
    assert_eq!((e, msg.as_str()), (SharedError::Type, "setMany pair missing value"));
    let (e, msg) = set_many_pair(true, &vec![SharedValue::Bool(true), SharedValue::Long(1)]).unwrap_err();
    assert_eq!((e, msg.as_str()), (SharedError::Type, "map keys must be int or string"));
    let (k, v) = set_many_pair(true, &vec![text("a"), SharedValue::Long(3), SharedValue::Long(4)]).unwrap();
    assert_eq!(k, sk("a"));
    assert!(matches!(v, SharedValue::Long(3)));
}

#[test]
fn cycle_gate_on_swap_and_set_if_absent() {
    let mut m = MapInner::new(None);
    m.bind_id(2);
    assert_eq!(m.swap_after_cycle_check(ik(1), SharedValue::Long(1), true).unwrap_err(), SharedError::Cycle);
    assert_eq!(m.set_if_absent_after_cycle_check(ik(1), SharedValue::Long(1), true).unwrap_err(), SharedError::Cycle);
    assert_eq!(m.set_if_absent_after_cycle_check(ik(1), SharedValue::Null, true).unwrap_err(), SharedError::Type);
    assert_eq!(m.count(), 0);
    assert!(m.set_if_absent_after_cycle_check(ik(1), SharedValue::Long(1), false).unwrap().is_none());
    assert!(matches!(m.swap_after_cycle_check(ik(1), SharedValue::Long(2), false).unwrap(), Some(SharedValue::Long(1))));
    assert!(matches!(m.set_if_absent_after_cycle_check(ik(1), SharedValue::Long(3), false).unwrap(), Some(SharedValue::Long(2))));
}

#[test]
fn max_entries_argument_rule() {
    assert!(map_cap_from_arg(None).unwrap().is_none());
    assert_eq!(map_cap_from_arg(Some(3)).unwrap(), Some(3));
    for bad in [0i64, -1] {
        match map_cap_from_arg(Some(bad)).unwrap_err() {
            ox_shared::error::PhpError::Exception { class, message, .. } => {
                assert_eq!(class, "OxPHP\\Shared\\TypeException");
                assert_eq!(message, "maxEntries must be a positive integer or null");
            }
            other => panic!("unexpected {other:?}"),
        }
    }
}

#[test]
fn set_many_refuses_whole_batch_on_a_bad_pair() {
    let good = (true, vec![text("a"), SharedValue::Long(1)]);
    let bad = (true, vec![SharedValue::Long(2)]);
    let (e, m) = set_many_pairs(true, &vec![good, bad]).unwrap_err();
    assert_eq!((e, m.as_str()), (SharedError::Type, "setMany pair missing value"));
    let (e, m) = set_many_pairs(false, &vec![]).unwrap_err();
    assert_eq!((e, m.as_str()), (SharedError::Type, "setMany expects an array of [key, value] pairs"));
    let ok = set_many_pairs(true, &vec![(true, vec![SharedValue::Long(7), SharedValue::Long(8)])]).unwrap();
    assert_eq!(ok.len(), 1);
    assert_eq!(ok[0].0, ik(7));
}
