use ox_shared::map_key::{bytes_equal, MapKey};
use ox_shared::text::{narrow_to_u8, push_decimal, push_signed_decimal};
use ox_shared::value::{sv_content_eq, SharedValue};
use ox_shared::wire::{push_all, push_le32, push_le64};

#[test]
fn decimal_rendering() {
    let mut s = String::from("n=");
    push_decimal(&mut s, 0);
    s.push(',');
    push_decimal(&mut s, 1234567890);
    s.push(',');
    push_decimal(&mut s, u64::MAX);
    assert_eq!(s, "n=0,1234567890,18446744073709551615");
    let mut t = String::new();
    push_signed_decimal(&mut t, -42);
    t.push(' ');
    push_signed_decimal(&mut t, i64::MIN);
    t.push(' ');
    push_signed_decimal(&mut t, 7);
    assert_eq!(t, "-42 -9223372036854775808 7");
}

#[test]
fn narrowing_keeps_small_values() {
    assert_eq!(narrow_to_u8(0), 0);
    assert_eq!(narrow_to_u8(255), 255);
}

#[test]
fn little_endian_framing() {
    let mut b = Vec::new();
    push_le32(&mut b, 0x0403_0201);
    push_le64(&mut b, 0x0807_0605_0403_0201);
    push_all(&mut b, &[9, 9]);
    assert_eq!(b, vec![1, 2, 3, 4, 1, 2, 3, 4, 5, 6, 7, 8, 9, 9]);
}

#[test]
fn values_compare_by_content() {
    assert!(sv_content_eq(&SharedValue::Null, &SharedValue::Null));
    assert!(sv_content_eq(&SharedValue::Bool(true), &SharedValue::Bool(true)));
    assert!(!sv_content_eq(&SharedValue::Bool(true), &SharedValue::Bool(false)));
    assert!(sv_content_eq(&SharedValue::Double(1.5f64.to_bits()), &SharedValue::Double(1.5f64.to_bits())));
    assert!(sv_content_eq(&SharedValue::Shared(3), &SharedValue::Shared(3)));
    assert!(!sv_content_eq(&SharedValue::Shared(3), &SharedValue::Long(3)));
    assert!(sv_content_eq(&SharedValue::Array(vec![1, 2]), &SharedValue::Array(vec![1, 2])));
    assert!(SharedValue::Null.is_null());
    assert!(!SharedValue::Long(0).is_null());
    assert!(matches!(SharedValue::Str(b"ab".to_vec()).duplicate(), SharedValue::Str(s) if s == b"ab"));
}

#[test]
fn key_helpers() {
    assert!(bytes_equal(b"abc", b"abc"));
    assert!(!bytes_equal(b"abc", b"abd"));
    assert!(!bytes_equal(b"ab", b"abc"));
    assert!(MapKey::Int(5).same_key(&MapKey::Int(5)));
    assert!(!MapKey::Int(5).same_key(&MapKey::from_str("5")));
    assert_eq!(MapKey::from_str("k").duplicate(), MapKey::from_str("k"));
}

#[test]
fn doubles_compare_like_ieee() {
    let nan = SharedValue::Double(f64::NAN.to_bits());
    assert!(!sv_content_eq(&nan, &SharedValue::Double(f64::NAN.to_bits())));
    assert!(sv_content_eq(&SharedValue::Double(0.0f64.to_bits()), &SharedValue::Double((-0.0f64).to_bits())));
    assert!(!sv_content_eq(&SharedValue::Double(1.0f64.to_bits()), &SharedValue::Double(2.0f64.to_bits())));
}
