use ox_shared::error::SharedError;
use ox_shared::pool::{acquire_wait, reclaim_all_pools_for_dead_worker, AcquireStep, EvictReason, PoolInner, PoolSlot};
use ox_shared::value::SharedValue;

const ME: u64 = 0x1000_0000_0000_0001;
const SEC: u64 = 1_000_000_000;
const MS: u64 = 1_000_000;
const T0: u64 = 1_000 * SEC;

fn inner(max: usize) -> PoolInner {
    PoolInner::new(max, 300 * SEC)
}

fn inner_with_idle(max: usize, idle_timeout: u64) -> PoolInner {
    PoolInner::new(max, idle_timeout)
}

fn dummy_slot(owner: u64) -> PoolSlot {
    PoolSlot::new(0, owner, T0)
}

#[test]
fn new_pool_starts_empty() {
    let p = inner(4);
    assert_eq!(p.size(), 0);
    assert_eq!(p.idle_count(), 0);
    assert_eq!(p.in_use_count(), 0);
    assert_eq!(p.max_size(), 4);
    assert!(!p.is_closed());
    assert!(p.self_id().is_none());
}

#[test]
fn debug_snapshot_reflects_size() {
    let mut p = inner(2);
    assert!(matches!(p.debug_snapshot(), SharedValue::Long(0)));
    assert!(p.try_reserve_budget());
    assert!(matches!(p.debug_snapshot(), SharedValue::Long(1)));
}

#[test]
fn bind_id_is_once_only() {
    let mut p = inner(1);
    p.bind_id(42);
    p.bind_id(99);
    assert_eq!(p.self_id(), Some(42));
}

#[test]
fn reserve_then_deposit_increments_size_and_idle() {
    let mut p = inner(2);
    assert!(p.try_reserve_budget());
    assert_eq!(p.size(), 1);
    assert_eq!(p.idle_count(), 0);
    assert_eq!(p.in_use_count(), 1);
    p.deposit_new(ME, dummy_slot(ME));
    assert_eq!(p.size(), 1);
    assert_eq!(p.idle_count(), 1);
    assert_eq!(p.in_use_count(), 0);
}

#[test]
fn budget_full_blocks_further_reserve() {
    let mut p = inner(2);
    assert!(p.try_reserve_budget());
    assert!(p.try_reserve_budget());
    assert!(!p.try_reserve_budget(), "third reserve must fail");
    assert_eq!(p.size(), 2);
}

#[test]
fn release_budget_refunds_capacity() {
    let mut p = inner(1);
    assert!(p.try_reserve_budget());
    assert!(!p.try_reserve_budget());
    p.release_budget();
    assert!(p.try_reserve_budget(), "refunded slot should reopen budget");
}

#[test]
fn local_acquire_returns_owning_threads_slot() {
    let mut p = inner(1);
    assert!(p.try_reserve_budget());
    p.deposit_new(ME, dummy_slot(ME));
    let slot = p.try_acquire_local(ME).expect("own slot must be visible");
    assert_eq!(slot.owner, ME);
    assert_eq!(p.idle_count(), 0);
}

#[test]
fn local_acquire_empty_returns_none() {
    let mut p = inner(1);
    assert!(p.try_acquire_local(ME).is_none());
}

#[test]
fn cross_thread_steal_is_forbidden() {
    let mut p = inner(4);
    let a: u64 = 0xA;
    assert!(p.try_reserve_budget());
    p.deposit_new(a, dummy_slot(a));
    assert_eq!(p.idle_count(), 1);
    assert!(p.try_acquire_local(ME).is_none());
    assert_eq!(p.idle_count(), 1);
}

#[test]
fn release_cross_thread_dead_owner_destroys_inline() {
    let mut p = inner(2);
    const GHOST_KEY: u64 = 0xDEAD_0000_0000_0001;
    assert!(p.try_reserve_budget());
    let destroy = p.release(ME, dummy_slot(GHOST_KEY), false, T0);
    assert!(destroy.is_some(), "a dead owner's slot is handed back to destroy");
    assert_eq!(p.size(), 0, "destroy path must refund budget");
    assert_eq!(p.idle_count(), 0, "slot must not park in a dead owner's deque");
    assert!(p.idle_by_thread().iter().all(|(k, _)| *k != GHOST_KEY));
}

#[test]
fn release_cross_thread_live_owner_parks() {
    let mut p = inner(2);
    const LIVE_KEY: u64 = 0xBEEF_0000_0000_0001;
    assert!(p.try_reserve_budget());
    assert!(p.release(ME, dummy_slot(LIVE_KEY), true, T0).is_none());
    assert_eq!(p.size(), 1, "budget stays held for a parked slot");
    assert_eq!(p.idle_count(), 1, "slot parked in live owner's deque");
    let counts: std::collections::HashMap<_, _> = p.idle_by_thread().into_iter().collect();
    assert_eq!(counts.get(&LIVE_KEY).copied(), Some(1));
}

#[test]
fn release_same_thread_bypasses_liveness_check() {
    let mut p = inner(1);
    assert!(p.try_reserve_budget());
    assert!(p.release(ME, dummy_slot(ME), false, T0).is_none());
    assert_eq!(p.size(), 1);
    assert_eq!(p.idle_count(), 1, "same-thread release always parks");
}

#[test]
fn release_deposits_into_owner_not_caller() {
    let mut p = inner(2);
    let a: u64 = 0xA;
    assert!(p.try_reserve_budget());
    p.deposit_new(a, dummy_slot(a));
    let slot = p.try_acquire_local(a).unwrap();
    assert!(p.release(ME, slot, true, T0).is_none());
    let counts: std::collections::HashMap<_, _> = p.idle_by_thread().into_iter().collect();
    assert_eq!(counts.get(&a).copied(), Some(1));
    assert_eq!(counts.get(&ME).copied(), None);
}

#[test]
fn is_closed_roundtrip() {
    let mut p = inner(1);
    assert!(!p.is_closed());
    p.close();
    assert!(p.is_closed());
}

#[test]
fn on_shutdown_notify_closes() {
    let mut p = inner(1);
    assert!(!p.is_closed());
    p.on_shutdown_notify();
    assert!(p.is_closed());
}

#[test]
fn on_shutdown_notify_drains_idle_deques() {
    let mut p = inner(4);
    const ALIVE_B: u64 = 0xBEEF_0000_0000_1234;
    assert!(p.try_reserve_budget());
    p.deposit_new(ME, dummy_slot(ME));
    assert!(p.try_reserve_budget());
    p.deposit_new(ME, dummy_slot(ME));
    assert!(p.try_reserve_budget());
    assert!(p.release(ME, dummy_slot(ALIVE_B), true, T0).is_none());
    assert_eq!(p.size(), 3);
    assert_eq!(p.idle_count(), 3);
    let drained = p.on_shutdown_notify();
    assert_eq!(drained.len(), 3);
    assert!(p.is_closed(), "drain must close the pool");
    assert_eq!(p.size(), 0, "every destroyed slot frees budget");
    assert_eq!(p.idle_count(), 0, "all idle deques drained");
}

#[test]
fn on_shutdown_notify_is_idempotent() {
    let mut p = inner(2);
    assert!(p.try_reserve_budget());
    p.deposit_new(ME, dummy_slot(ME));
    p.on_shutdown_notify();
    assert_eq!(p.size(), 0);
    assert!(p.on_shutdown_notify().is_empty());
    assert_eq!(p.size(), 0);
    assert!(p.is_closed());
}

#[test]
fn on_drop_drains_and_frees_fccs() {
    let mut p = inner(2);
    assert!(p.try_reserve_budget());
    p.deposit_new(ME, dummy_slot(ME));
    assert!(p.try_reserve_budget());
    p.deposit_new(ME, dummy_slot(ME));
    let drained = p.on_shutdown_notify();
    assert_eq!(drained.len(), 2);
    assert!(p.is_closed());
    assert_eq!(p.size(), 0);
    assert_eq!(p.idle_count(), 0);
}

#[test]
fn mem_bytes_scales_with_size() {
    let mut p = inner(4);
    let base = p.mem_bytes();
    assert_eq!(base, 128);
    assert!(p.try_reserve_budget());
    assert!(p.try_reserve_budget());
    assert!(p.mem_bytes() > base);
    assert_eq!(p.mem_bytes(), 128 + 2 * 64);
}

#[test]
fn children_is_empty_for_pool() {
    let p = inner(1);
    let mut out = Vec::new();
    p.children(&mut out);
    assert!(out.is_empty(), "Pool resources are raw zvals, not SharedValue refs");
}

#[test]
fn idle_by_thread_enumerates_non_empty_deques() {
    let mut p = inner(4);
    let (a, b): (u64, u64) = (0xA, 0xB);
    assert!(p.try_reserve_budget());
    p.deposit_new(a, dummy_slot(a));
    assert!(p.try_reserve_budget());
    assert!(p.try_reserve_budget());
    p.deposit_new(b, dummy_slot(b));
    p.deposit_new(b, dummy_slot(b));
    let snap: std::collections::HashMap<_, _> = p.idle_by_thread().into_iter().collect();
    assert_eq!(snap.get(&a).copied(), Some(1));
    assert_eq!(snap.get(&b).copied(), Some(2));
    assert_eq!(p.idle_count(), 3);
    assert_eq!(p.in_use_count(), 0);
    assert_eq!(p.size(), 3);
}

#[test]
fn stale_owners_excludes_fresh_deques() {
    let mut p = inner_with_idle(2, 100 * MS);
    assert!(p.try_reserve_budget());
    p.deposit_new(ME, dummy_slot(ME));
    assert!(p.stale_owners(T0).is_empty());
}

#[test]
fn stale_owners_flags_overdue_front() {
    let mut p = inner_with_idle(2, 100 * MS);
    assert!(p.try_reserve_budget());
    p.deposit_new(ME, dummy_slot(ME));
    let flagged = p.stale_owners(T0 + 250 * MS);
    assert_eq!(flagged, vec![ME]);
}

#[test]
fn evict_stale_on_current_thread_pops_aged_slots() {
    let mut p = inner_with_idle(4, 100 * MS);
    let aged = T0 - 250 * MS;
    for _ in 0..3 {
        assert!(p.try_reserve_budget());
        p.deposit_new(ME, PoolSlot::new(0, ME, aged));
    }
    assert_eq!(p.size(), 3);
    let evicted = p.evict_stale_on_current_thread(ME, T0, EvictReason::Manual);
    assert_eq!(evicted.len(), 3);
    assert_eq!(p.size(), 0);
    assert_eq!(p.idle_count(), 0);
}

#[test]
fn evict_stale_on_current_thread_stops_at_fresh_front() {
    let mut p = inner_with_idle(2, 100 * MS);
    assert!(p.try_reserve_budget());
    p.deposit_new(ME, PoolSlot::new(0, ME, T0 - 250 * MS));
    assert!(p.try_reserve_budget());
    p.deposit_new(ME, PoolSlot::new(1, ME, T0));
    assert_eq!(p.size(), 2);
    p.evict_stale_on_current_thread(ME, T0, EvictReason::Manual);
    assert_eq!(p.size(), 1, "fresh slot must survive");
    assert_eq!(p.idle_count(), 1);
}

#[test]
fn release_resets_last_active() {
    let mut p = inner_with_idle(1, 100 * MS);
    assert!(p.try_reserve_budget());
    let slot = PoolSlot::new(0, ME, T0 - SEC);
    assert!(p.release(ME, slot, true, T0).is_none());
    let snap = p.stale_owners(T0);
    assert!(snap.is_empty(), "release must reset last_active, got stale owners: {snap:?}");
}

#[test]
fn acquire_counters_split_by_result() {
    let mut p = inner(1);
    p.record_acquire_ok();
    p.record_acquire_ok();
    p.record_acquire_timeout();
    p.record_acquire_closed();
    assert_eq!(p.acquire_ok_total(), 2);
    assert_eq!(p.acquire_timeout_total(), 1);
    assert_eq!(p.acquire_closed_total(), 1);
}

#[test]
fn wait_histogram_buckets_classify_by_upper_bound() {
    let mut p = inner(1);
    p.record_wait(500_000);
    p.record_wait(5 * MS);
    p.record_wait(50 * MS);
    p.record_wait(500 * MS);
    p.record_wait(5 * SEC);
    p.record_wait(100 * SEC);
    let (cum, sum_nanos, count) = p.wait_histogram_snapshot();
    assert_eq!(count, 6);
    assert_eq!(cum, [1, 2, 3, 4, 5, 6]);
    let sum_s = sum_nanos as f64 / 1e9;
    assert!((sum_s - 105.555).abs() < 0.01, "unexpected sum: {sum_s}");
}

#[test]
fn wait_histogram_boundary_lands_on_upper_bucket() {
    let mut p = inner(1);
    p.record_wait(MS);
    p.record_wait(10 * MS);
    p.record_wait(100 * MS);
    p.record_wait(SEC);
    p.record_wait(10 * SEC);
    let (cum, _sum, count) = p.wait_histogram_snapshot();
    assert_eq!(count, 5);
    assert_eq!(cum, [1, 2, 3, 4, 5, 5]);
}

#[test]
fn evict_counters_split_by_reason() {
    let mut p = inner(1);
    p.record_evicted(3, EvictReason::IdleTimeout);
    p.record_evicted(2, EvictReason::Manual);
    p.record_evicted(7, EvictReason::Shutdown);
    p.record_evicted(0, EvictReason::IdleTimeout);
    assert_eq!(p.evicted_idle_total(), 3);
    assert_eq!(p.evicted_manual_total(), 2);
    assert_eq!(p.evicted_shutdown_total(), 7);
}

#[test]
fn shutdown_drain_bumps_shutdown_eviction_counter() {
    let mut p = inner(3);
    assert!(p.try_reserve_budget());
    p.deposit_new(ME, dummy_slot(ME));
    assert!(p.try_reserve_budget());
    p.deposit_new(ME, dummy_slot(ME));
    assert_eq!(p.evicted_shutdown_total(), 0);
    p.on_shutdown_notify();
    assert_eq!(p.evicted_shutdown_total(), 2);
    p.on_shutdown_notify();
    assert_eq!(p.evicted_shutdown_total(), 2);
}

#[test]
fn evict_stale_bumps_matching_reason_counter() {
    let mut p = inner_with_idle(2, 50 * MS);
    assert!(p.try_reserve_budget());
    p.deposit_new(ME, PoolSlot::new(0, ME, T0 - 100 * MS));
    let n = p.evict_stale_on_current_thread(ME, T0, EvictReason::IdleTimeout).len();
    assert_eq!(n, 1);
    assert_eq!(p.evicted_idle_total(), 1);
    assert_eq!(p.evicted_manual_total(), 0);
    assert_eq!(p.evicted_shutdown_total(), 0);
}

#[test]
fn track_and_untrack_balance_to_zero() {
    let mut p = inner(2);
    p.track_acquired_by_me(ME);
    p.track_acquired_by_me(ME);
    p.untrack_released(ME);
    p.untrack_released(ME);
    assert_eq!(p.reclaim_budget_for_dead_worker(ME), 0);
}

#[test]
fn reclaim_refunds_leaked_budget() {
    let mut p = inner(4);
    assert!(p.try_reserve_budget());
    p.track_acquired_by_me(ME);
    assert!(p.try_reserve_budget());
    p.track_acquired_by_me(ME);
    assert_eq!(p.size(), 2);
    let reclaimed = p.reclaim_budget_for_dead_worker(ME);
    assert_eq!(reclaimed, 2);
    assert_eq!(p.size(), 0, "size must be refunded on chaos reclaim");
}

#[test]
fn reclaim_is_per_thread_isolated() {
    let mut p = inner(4);
    const OTHER: u64 = 0xF00D_0000_0000_0001;
    assert!(p.try_reserve_budget());
    p.track_acquired_by_me(ME);
    assert!(p.try_reserve_budget());
    p.track_acquired_by_me(OTHER);
    assert_eq!(p.size(), 2);
    assert_eq!(p.reclaim_budget_for_dead_worker(ME), 1);
    assert_eq!(p.size(), 1, "OTHER's slot must survive reclaim");
    assert_eq!(p.reclaim_budget_for_dead_worker(OTHER), 1);
    assert_eq!(p.size(), 0);
}

#[test]
fn reclaim_across_all_pools() {
    let mut pools = vec![inner(2), inner(2)];
    for p in pools.iter_mut() {
        assert!(p.try_reserve_budget());
        p.track_acquired_by_me(ME);
    }
    reclaim_all_pools_for_dead_worker(&mut pools, ME);
    assert!(pools.iter().all(|p| p.size() == 0));
}

#[test]
fn acquire_step_prefers_local_then_budget() {
    let mut p = inner(1);
    assert!(matches!(p.acquire_step(ME), AcquireStep::Reserved));
    assert!(matches!(p.acquire_step(ME), AcquireStep::Full));
    p.deposit_new(ME, dummy_slot(ME));
    match p.acquire_step(ME) {
        AcquireStep::Local(s) => assert_eq!(s.owner, ME),
        _ => panic!("expected the thread's own idle slot"),
    }
    p.close();
    assert!(matches!(p.acquire_step(ME), AcquireStep::Closed));
}

#[test]
fn factory_success_counts_as_checked_out() {
    let mut p = inner(1);
    assert!(matches!(p.acquire_step(ME), AcquireStep::Reserved));
    p.settle_factory(ME, 0).unwrap();
    assert_eq!(p.size(), 1);
    assert_eq!(p.reclaim_budget_for_dead_worker(ME), 1);
}

#[test]
fn factory_failures_give_budget_back() {
    let mut p = inner(1);
    assert!(matches!(p.acquire_step(ME), AcquireStep::Reserved));
    let (e, msg) = p.settle_factory(ME, -2).unwrap_err();
    assert_eq!(e, SharedError::Type);
    assert_eq!(msg, "Shared\\Pool factory must return an object (v1 does not support scalar/array resources)");
    assert_eq!(p.size(), 0);
    assert!(p.try_reserve_budget());
    let (e, msg) = p.settle_factory(ME, -1).unwrap_err();
    assert_eq!(e, SharedError::Generic);
    assert_eq!(msg, "Shared\\Pool factory threw (see EG(exception))");
    assert!(p.try_reserve_budget());
    let (e, msg) = p.settle_factory(ME, -5).unwrap_err();
    assert_eq!(e, SharedError::Generic);
    assert_eq!(msg, "factory invocation failed with rc=-5");
    assert_eq!(p.size(), 0);
}

#[test]
fn acquire_waits() {
    assert_eq!(acquire_wait(true, 0, None), Err(SharedError::Timeout));
    assert_eq!(acquire_wait(false, 0, None), Ok(50 * MS));
    assert_eq!(acquire_wait(false, 10, Some(10)), Err(SharedError::Timeout));
    assert_eq!(acquire_wait(false, 10, Some(30)), Ok(20));
}

#[test]
fn acquire_outcomes_are_counted() {
    let mut p = inner(1);
    p.record_acquire_outcome(&Ok(()));
    p.record_acquire_outcome(&Err(SharedError::Timeout));
    p.record_acquire_outcome(&Err(SharedError::Closed));
    p.record_acquire_outcome(&Err(SharedError::Type));
    assert_eq!(p.acquire_ok_total(), 1);
    assert_eq!(p.acquire_timeout_total(), 1);
    assert_eq!(p.acquire_closed_total(), 1);
}
