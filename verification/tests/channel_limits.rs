use ox_shared::channel::{
    channel_capacity_fits, check_value_size, effective_channel_budget, first_oversized_element,
    slot_bytes,
};
use ox_shared::error::PhpError;

#[test]
fn capacity_fits_within_budget() {
    // 100 slots * SLOT_BYTES is far under a 1 MiB budget.
    assert!(channel_capacity_fits(100, 1 << 20));
}

#[test]
fn capacity_rejected_over_budget() {
    // budget allows exactly 10 slots; 11 must be rejected.
    let budget = 10 * slot_bytes();
    assert!(channel_capacity_fits(10, budget));
    assert!(!channel_capacity_fits(11, budget));
}

#[test]
fn capacity_rejected_on_overflow() {
    assert!(!channel_capacity_fits(u64::MAX, u64::MAX));
}

#[test]
fn tiny_budget_clamped_to_one_slot() {
    let slot = slot_bytes();
    assert_eq!(effective_channel_budget(0), slot);
    assert_eq!(effective_channel_budget(slot - 1), slot);
    assert_eq!(effective_channel_budget(100 * slot), 100 * slot);
    assert!(channel_capacity_fits(1, effective_channel_budget(0)));
    assert!(!channel_capacity_fits(2, effective_channel_budget(0)));
}

#[test]
fn value_within_cap_is_accepted() {
    assert!(check_value_size(100, 100, "send").is_ok());
    assert!(check_value_size(0, 100, "send").is_ok());
}

#[test]
fn value_over_cap_throws_value_too_large() {
    let err = check_value_size(101, 100, "send").unwrap_err();
    match err {
        PhpError::Exception { class, message, .. } => {
            assert_eq!(class, "OxPHP\\Shared\\ValueTooLargeException");
            assert!(message.contains("101"), "message names the size: {message}");
            assert!(message.contains("send"), "message names the method: {message}");
        }
        other => panic!("expected ValueTooLargeException, got {other:?}"),
    }
}

#[test]
fn value_over_cap_message_is_exact() {
    match check_value_size(2048, 1024, "sendMany") {
        Err(PhpError::Exception { message, .. }) => assert_eq!(
            message,
            "sendMany: value of 2048 bytes exceeds the per-value cap of 1024 bytes (SHARED_MAX_VALUE_SIZE)"
        ),
        other => panic!("unexpected {other:?}"),
    }
}

#[test]
fn send_many_first_oversized_offset_is_detected() {
    let offsets = [0usize, 10, 210];
    let concat_len = 215usize;
    let cap = 100usize;
    assert_eq!(first_oversized_element(&offsets, concat_len, cap), Some((1, 200)));
}

#[test]
fn send_many_all_within_cap_is_none() {
    let offsets = [0usize, 10, 30];
    let concat_len = 35usize; // sizes 10, 20, 5
    assert_eq!(first_oversized_element(&offsets, concat_len, 100), None);
}

#[test]
fn oversized_last_element_and_backwards_span() {
    // Last element runs to concat_len; a backwards span counts as empty.
    assert_eq!(first_oversized_element(&[0, 5], 500, 100), Some((1, 495)));
    assert_eq!(first_oversized_element(&[50, 10], 20, 5), Some((1, 10)));
    assert_eq!(first_oversized_element(&[], 1000, 0), None);
}
