use ox_shared::flag::FlagInner;
use std::sync::atomic::Ordering;

#[test]
fn flag_load_store_swap_baseline() {
    let mut f = FlagInner::new(false);
    assert!(!f.load(Ordering::SeqCst));
    f.store(true, Ordering::SeqCst);
    assert!(f.load(Ordering::Acquire));
    assert!(f.swap(false, Ordering::SeqCst)); // returns previous = true
    assert!(!f.load(Ordering::SeqCst));
}

#[test]
fn flag_cas_success_and_failure_paths() {
    let mut f = FlagInner::new(false);
    assert!(f.compare_and_set(false, true, Ordering::SeqCst, Ordering::SeqCst));
    assert!(!f.compare_and_set(false, true, Ordering::SeqCst, Ordering::Acquire));
    assert!(f.load(Ordering::SeqCst));
}

#[test]
fn flag_snapshot_and_size() {
    let f = ox_shared::flag::FlagInner::new(true);
    assert!(matches!(f.debug_snapshot(), ox_shared::value::SharedValue::Bool(true)));
    assert_eq!(f.mem_bytes(), std::mem::size_of::<ox_shared::flag::FlagInner>());
}
