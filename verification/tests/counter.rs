use ox_shared::counter::CounterInner;

#[test]
fn get_swap_add() {
    let mut c = CounterInner::new(10);
    assert_eq!(c.get(), 10);
    assert_eq!(c.swap(20), 10);
    assert_eq!(c.get(), 20);
    assert_eq!(c.add(5), 25);
    assert_eq!(c.add(-10), 15);
}

#[test]
fn compare_and_set_swaps_only_on_match() {
    let mut c = CounterInner::new(5);
    assert!(c.compare_and_set(5, 10));
    assert_eq!(c.get(), 10);
    // current is 10, not 5 → no swap
    assert!(!c.compare_and_set(5, 20));
    assert_eq!(c.get(), 10);
}

#[test]
fn overflow_wraps() {
    let mut c = CounterInner::new(i64::MAX);
    let new = c.add(1);
    assert_eq!(new, i64::MIN);
}

#[test]
fn counter_add_negative_underflow_wraps() {
    let mut c = CounterInner::new(i64::MIN);
    assert_eq!(c.add(-1), i64::MAX);
    assert_eq!(c.get(), i64::MAX);
}

#[test]
fn counter_snapshot_and_size() {
    let c = CounterInner::new(-3);
    assert!(matches!(c.debug_snapshot(), ox_shared::value::SharedValue::Long(-3)));
    assert_eq!(c.mem_bytes(), std::mem::size_of::<CounterInner>());
}

#[test]
fn add_then_subtract_restores_across_wrap() {
    let mut c = CounterInner::new(i64::MAX - 1);
    c.add(5);
    assert_eq!(c.get(), i64::MIN + 3);
    c.add(-5);
    assert_eq!(c.get(), i64::MAX - 1);
    c.add(0);
    assert_eq!(c.get(), i64::MAX - 1);
}
