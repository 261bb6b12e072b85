use ox_shared::channel::{slot_bytes, wait_from_timeout_ms, Payload, TryRecvErr, Wait};
use ox_shared::channel_ops::{
    concat_payloads, recv_blocking_decision, recv_park_timeout, recv_probe_decision, recv_state_decision,
    recv_wake_decision, send_attempt_decision, send_blocking_decision, send_park_timeout, send_wake_decision,
    split_concat, try_recv_state, validate_channel_capacity, RecvKind, RecvWake, SendKind, SendWake,
};
use ox_shared::error::{PhpError, SharedError};

fn exc(e: &PhpError) -> (&str, &str) {
    match e {
        PhpError::Exception { class, message, .. } => (class.as_str(), message.as_str()),
        PhpError::Custom(m) => ("", m.as_str()),
    }
}

#[test]
fn ffi_create_zero_capacity_errors() {
    let (e, msg) = validate_channel_capacity(0, 1 << 20).unwrap_err();
    assert_eq!(e, SharedError::Type);
    assert_eq!(msg, "Channel capacity must be >= 1");
}

#[test]
fn capacity_within_budget_is_accepted() {
    assert_eq!(validate_channel_capacity(100, 1 << 20).unwrap(), 100);
}

#[test]
fn capacity_over_budget_names_the_sizes() {
    let slot = slot_bytes();
    let (e, msg) = validate_channel_capacity(11, 10 * slot).unwrap_err();
    assert_eq!(e, SharedError::CapacityExceeded);
    assert_eq!(
        msg,
        format!(
            "Channel capacity 11 would allocate ~{} bytes for its slot array, exceeding SHARED_MAX_CHANNEL_BYTES ({}); lower the capacity or raise the budget",
            11 * slot,
            10 * slot
        )
    );
}

#[test]
fn capacity_overflowing_the_product_says_overflow() {
    let (e, msg) = validate_channel_capacity(u64::MAX, u64::MAX).unwrap_err();
    assert_eq!(e, SharedError::CapacityExceeded);
    assert!(msg.contains("~overflow bytes"), "{msg}");
}

#[test]
fn split_concat_frames_values() {
    let parts = split_concat(b"hello, world", &[0, 5, 7, 12]).unwrap();
    assert_eq!(parts, vec![b"hello".to_vec(), b", ".to_vec(), b"world".to_vec()]);
    assert_eq!(split_concat(b"", &[0]).unwrap(), Vec::<Vec<u8>>::new());
}

#[test]
fn split_concat_refuses_malformed_offsets() {
    assert_eq!(split_concat(b"abcdef", &[0, 4, 2, 6]).unwrap_err(), SharedError::Generic);
    assert_eq!(split_concat(b"abcdef", &[0, 5, 3]).unwrap_err(), SharedError::Generic);
}

#[test]
fn concat_payloads_records_boundaries() {
    let items = vec![Payload::bytes_only(b"ab".to_vec()), Payload::bytes_only(Vec::new()), Payload::bytes_only(b"cde".to_vec())];
    let (concat, offsets) = concat_payloads(&items);
    assert_eq!(concat, b"abcde".to_vec());
    assert_eq!(offsets, vec![0, 2, 2, 5]);
    let (c2, o2) = concat_payloads(&[]);
    assert!(c2.is_empty());
    assert_eq!(o2, vec![0]);
}

#[test]
fn split_undoes_concat() {
    let items = vec![Payload::bytes_only(b"x".to_vec()), Payload::bytes_only(b"yz".to_vec())];
    let (concat, offsets) = concat_payloads(&items);
    let parts = split_concat(&concat, &offsets).unwrap();
    assert_eq!(parts, vec![b"x".to_vec(), b"yz".to_vec()]);
}

#[test]
fn try_recv_states() {
    assert_eq!(try_recv_state(&Ok(Some(Payload::bytes_only(vec![1])))), 0);
    assert_eq!(try_recv_state(&Err(TryRecvErr::WouldBlockEmpty)), 1);
    assert_eq!(try_recv_state(&Ok(None)), 2);
}

#[test]
fn wire_timeouts() {
    assert_eq!(wait_from_timeout_ms(-1), Wait::Forever);
    assert_eq!(wait_from_timeout_ms(0), Wait::Try);
    assert_eq!(wait_from_timeout_ms(250), Wait::Bounded(250_000_000));
    assert_eq!(wait_from_timeout_ms(i64::MAX), Wait::Bounded(u64::MAX));
}

#[test]
fn send_attempt_decisions() {
    assert_eq!(send_attempt_decision(-6, 0).unwrap(), Some(SendKind::Closed));
    assert_eq!(send_attempt_decision(0, 1).unwrap(), Some(SendKind::Sent));
    assert_eq!(send_attempt_decision(0, 0).unwrap(), None);
    let e = send_attempt_decision(-2, 0).unwrap_err();
    assert_eq!(exc(&e), ("OxPHP\\Shared\\StaleHandleException", ""));
}

#[test]
fn send_park_timeouts() {
    assert_eq!(send_park_timeout(5, None), Ok(0));
    assert_eq!(send_park_timeout(10, Some(10)), Err(SendKind::Timeout));
    assert_eq!(send_park_timeout(0, Some(2_500_000)), Ok(2));
    assert_eq!(send_park_timeout(0, Some(500_000)), Ok(1));
}

#[test]
fn send_wake_decisions() {
    assert!(matches!(send_wake_decision(0, None, String::new(), -1, false), SendWake::Retry));
    assert!(matches!(send_wake_decision(-2, None, String::new(), 10, false), SendWake::Finish(SendKind::Timeout)));
    assert!(matches!(
        send_wake_decision(-1, Some("OxPHP\\Shared\\ClosedException".into()), String::new(), 10, false),
        SendWake::Finish(SendKind::Closed)
    ));
    assert!(matches!(
        send_wake_decision(-1, Some("OxPHP\\Async\\AsyncException".into()), String::new(), 10, true),
        SendWake::Finish(SendKind::Timeout)
    ));
    assert!(matches!(
        send_wake_decision(-1, Some("OxPHP\\Async\\AsyncException".into()), String::new(), 10, false),
        SendWake::Retry
    ));
    match send_wake_decision(-1, Some("OxPHP\\Async\\AsyncException".into()), String::new(), -1, false) {
        SendWake::Raise(e) => assert_eq!(exc(&e), ("OxPHP\\Async\\AsyncException", "send: fiber cancelled")),
        _ => panic!("a cancelled unbounded send is raised"),
    }
    match send_wake_decision(-1, Some("App\\Boom".into()), "bad".into(), 10, false) {
        SendWake::Raise(e) => assert_eq!(exc(&e), ("App\\Boom", "bad")),
        _ => panic!("an application exception is raised"),
    }
    match send_wake_decision(-1, None, String::new(), 10, false) {
        SendWake::Raise(PhpError::Custom(m)) => assert_eq!(m, "send: waker resolution failed"),
        _ => panic!(),
    }
    match send_wake_decision(3, None, String::new(), 10, false) {
        SendWake::Raise(PhpError::Custom(m)) => assert_eq!(m, "send: fiber_await rc=3"),
        _ => panic!(),
    }
}

#[test]
fn send_blocking_decisions() {
    assert_eq!(send_blocking_decision(-6, String::new()).unwrap(), SendKind::Closed);
    assert_eq!(send_blocking_decision(-7, String::new()).unwrap(), SendKind::Timeout);
    assert_eq!(send_blocking_decision(0, String::new()).unwrap(), SendKind::Sent);
    let e = send_blocking_decision(-9, "cycle".into()).unwrap_err();
    assert_eq!(exc(&e), ("OxPHP\\Shared\\CycleException", "cycle"));
}

#[test]
fn recv_decisions() {
    assert_eq!(recv_state_decision(0), Some(RecvKind::Item));
    assert_eq!(recv_state_decision(2), Some(RecvKind::Closed));
    assert_eq!(recv_state_decision(1), None);
    assert_eq!(recv_park_timeout(-1), 0);
    assert_eq!(recv_park_timeout(40), 40);
    assert!(matches!(recv_wake_decision(0, None, String::new()), RecvWake::Delivered));
    assert!(matches!(recv_wake_decision(-1, Some("OxPHP\\Async\\AsyncException".into()), String::new()), RecvWake::Probe));
    assert!(matches!(recv_wake_decision(-2, None, String::new()), RecvWake::Finish(RecvKind::Timeout)));
    assert_eq!(recv_probe_decision(0, false, String::new()).unwrap(), RecvKind::Item);
    assert_eq!(recv_probe_decision(2, false, String::new()).unwrap(), RecvKind::Closed);
    assert_eq!(recv_probe_decision(1, true, String::new()).unwrap(), RecvKind::Timeout);
    let e = recv_probe_decision(1, false, String::new()).unwrap_err();
    assert_eq!(exc(&e), ("OxPHP\\Async\\AsyncException", "recv: fiber cancelled"));
    assert_eq!(recv_blocking_decision(-7, 1, String::new()).unwrap(), RecvKind::Timeout);
    assert_eq!(recv_blocking_decision(0, 0, String::new()).unwrap(), RecvKind::Item);
    assert_eq!(recv_blocking_decision(0, 2, String::new()).unwrap(), RecvKind::Closed);
    match recv_blocking_decision(0, 5, String::new()).unwrap_err() {
        PhpError::Custom(m) => assert_eq!(m, "recv: unexpected state 5"),
        _ => panic!(),
    }
    let e = recv_blocking_decision(-2, 0, "gone".into()).unwrap_err();
    assert_eq!(exc(&e), ("OxPHP\\Shared\\StaleHandleException", "gone"));
}
