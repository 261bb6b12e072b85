//! Pool: a process-wide resource pool with per-thread affinity. Each
//! thread parks the resources it owns in its own idle queue and only ever
//! takes from that queue (no cross-thread stealing); a global budget caps
//! how many resources exist at once (in use plus idle).
//!
//! Threads are named by integer keys, resources by opaque integer handles,
//! and instants by nanosecond readings of a monotonic clock, all supplied by
//! the caller.

use vstd::prelude::*;
use std::collections::VecDeque;
use dashmap::DashMap;
use crate::error::SharedError;

verus! {

/// One resource: its handle, the thread that owns it, and when it was last
/// in use.
#[derive(Clone)]
pub struct PoolSlot {
    pub resource: u64,
    pub owner: u64,
    pub last_active: u64,
}

impl PoolSlot {
    pub fn new(resource: u64, owner: u64, now: u64) -> (s: Self)
        ensures
            s == (PoolSlot { resource, owner, last_active: now }),
    {
        PoolSlot { resource, owner, last_active: now }
    }

    /// A field-for-field copy.
    pub fn duplicate(&self) -> (s: Self)
        ensures
            s == *self,
    {
        PoolSlot { resource: self.resource, owner: self.owner, last_active: self.last_active }
    }
}

/// A field-for-field copy of an idle queue.
pub fn copy_deque(d: &VecDeque<PoolSlot>) -> (r: VecDeque<PoolSlot>)
    ensures
        r@ == d@,
{
    let mut r: VecDeque<PoolSlot> = VecDeque::new();
    let mut i: usize = 0;
    while i < d.len()
        invariant
            i <= d@.len(),
            r@ == d@.take(i as int),
        decreases d@.len() - i,
    {
        r.push_back(d[i].duplicate());
        assert(d@.take((i + 1) as int) =~= d@.take(i as int).push(d@[i as int]));
        i = i + 1;
    }
    assert(d@.take(d@.len() as int) =~= d@);
    r
}

/// Why resources were evicted.
#[derive(Clone, Copy, Debug, PartialEq, Eq, Structural)]
pub enum EvictReason {
    IdleTimeout,
    Manual,
    Shutdown,
}

/// The idle queues, by owning thread.
pub uninterp spec fn idle_deques(m: DashMap<u64, VecDeque<PoolSlot>>) -> Map<u64, Seq<PoolSlot>>;

/// The checked-out counts, by thread.
pub uninterp spec fn in_flight_counts(m: DashMap<u64, u64>) -> Map<u64, u64>;

/// `DashMap::new` for the idle queues.
#[verifier::external_body]
fn idle_new() -> (fresh: DashMap<u64, VecDeque<PoolSlot>>)
    ensures
        idle_deques(fresh).dom().len() == 0 && idle_deques(fresh).dom().finite(),
{
    DashMap::new()
}

/// `DashMap::get` on the idle queues: a copy of thread `k`'s queue.
#[verifier::external_body]
fn idle_get(m: &DashMap<u64, VecDeque<PoolSlot>>, k: u64) -> (r: Option<VecDeque<PoolSlot>>)
    ensures
        r is Some <==> idle_deques(*m).dom().contains(k),
        r matches Some(d) ==> d@ == idle_deques(*m)[k],
{
    match m.get(&k) {
        Some(d) => Some(d.value().clone()),
        None => None,
    }
}

/// `DashMap::insert` on the idle queues.
#[verifier::external_body]
fn idle_insert(m: &mut DashMap<u64, VecDeque<PoolSlot>>, k: u64, d: VecDeque<PoolSlot>) -> (prev: Option<VecDeque<PoolSlot>>)
    ensures
        idle_deques(*final(m)) == idle_deques(*old(m)).insert(k, d@),
        prev is Some <==> idle_deques(*old(m)).dom().contains(k),
{
    m.insert(k, d)
}

/// `DashMap::iter` on the idle queues: every thread's queue once, in an
/// order the map chooses.
#[verifier::external_body]
fn idle_entries(m: &DashMap<u64, VecDeque<PoolSlot>>) -> (r: Vec<(u64, VecDeque<PoolSlot>)>)
    ensures
        forall|i: int| 0 <= i < r@.len() ==> idle_deques(*m).dom().contains(#[trigger] r@[i].0)
            && r@[i].1@ == idle_deques(*m)[r@[i].0],
        forall|k: u64| idle_deques(*m).dom().contains(k) ==> exists|i: int| 0 <= i < r@.len() && #[trigger] r@[i].0 == k,
        forall|i: int, j: int| 0 <= i < j < r@.len() ==> r@[i].0 != r@[j].0,
{
    m.iter().map(|e| (*e.key(), e.value().clone())).collect()
}

/// `DashMap::new` for the checked-out counts.
#[verifier::external_body]
fn in_flight_new() -> (fresh: DashMap<u64, u64>)
    ensures
        in_flight_counts(fresh).dom().len() == 0 && in_flight_counts(fresh).dom().finite(),
{
    DashMap::new()
}

/// `DashMap::get` on the checked-out counts.
#[verifier::external_body]
fn in_flight_get(m: &DashMap<u64, u64>, k: u64) -> (r: Option<u64>)
    ensures
        r is Some <==> in_flight_counts(*m).dom().contains(k),
        r matches Some(c) ==> c == in_flight_counts(*m)[k],
{
    match m.get(&k) {
        Some(c) => Some(*c.value()),
        None => None,
    }
}

/// `DashMap::insert` on the checked-out counts.
#[verifier::external_body]
fn in_flight_insert(m: &mut DashMap<u64, u64>, k: u64, c: u64) -> (prev: Option<u64>)
    ensures
        in_flight_counts(*final(m)) == in_flight_counts(*old(m)).insert(k, c),
        prev is Some <==> in_flight_counts(*old(m)).dom().contains(k),
{
    m.insert(k, c)
}

/// `DashMap::remove` on the checked-out counts.
#[verifier::external_body]
fn in_flight_remove(m: &mut DashMap<u64, u64>, k: u64) -> (r: Option<u64>)
    ensures
        in_flight_counts(*final(m)) == in_flight_counts(*old(m)).remove(k),
        r is Some <==> in_flight_counts(*old(m)).dom().contains(k),
        r matches Some(c) ==> c == in_flight_counts(*old(m))[k],
{
    m.remove(&k).map(|(_, c)| c)
}

/// Abstract pool state.
pub struct PoolView {
    pub max_size: usize,
    pub idle_timeout: u64,
    pub idle: Map<u64, Seq<PoolSlot>>,
    pub size: u64,
    pub in_flight: Map<u64, u64>,
    pub closed: bool,
    pub self_id: Option<u64>,
    pub acquire_ok: u64,
    pub acquire_timeout: u64,
    pub acquire_closed: u64,
    pub evicted_idle: u64,
    pub evicted_manual: u64,
    pub evicted_shutdown: u64,
    pub wait_buckets: Seq<u64>,
    pub wait_sum_nanos: u64,
    pub wait_count: u64,
}

/// Wrapping 64-bit subtraction.
pub open spec fn sub_wrap(a: u64, b: u64) -> u64 {
    if a >= b { (a - b) as u64 } else { (a - b + 0x1_0000_0000_0000_0000) as u64 }
}

/// Wrapping 64-bit addition.
pub open spec fn add_wrap(a: u64, b: u64) -> u64 {
    if a + b <= u64::MAX { (a + b) as u64 } else { (a + b - 0x1_0000_0000_0000_0000) as u64 }
}

/// Thread `k`'s idle queue (empty when it has none).
pub open spec fn queue_of(idle: Map<u64, Seq<PoolSlot>>, k: u64) -> Seq<PoolSlot> {
    if idle.dom().contains(k) { idle[k] } else { Seq::empty() }
}

/// Time elapsed from `then` to `now`, zero when `now` is earlier.
pub open spec fn elapsed(now: u64, then: u64) -> u64 {
    if now >= then { (now - then) as u64 } else { 0 }
}

/// Thread `k`'s oldest idle resource has been idle for at least the idle
/// timeout at `now`.
pub open spec fn is_stale(p: PoolView, now: u64, k: u64) -> bool {
    p.idle.dom().contains(k) && p.idle[k].len() > 0 && elapsed(now, p.idle[k][0].last_active) >= p.idle_timeout
}

/// Concatenation of the given queues, in order.
pub open spec fn concat_queues(qs: Seq<Seq<PoolSlot>>) -> Seq<PoolSlot>
    decreases qs.len(),
{
    if qs.len() == 0 { Seq::empty() } else { concat_queues(qs.drop_last()) + qs.last() }
}

/// The queues of the threads `ks`, in that order.
pub open spec fn queues_in_order(idle: Map<u64, Seq<PoolSlot>>, ks: Seq<u64>) -> Seq<Seq<PoolSlot>> {
    ks.map_values(|k: u64| idle[k])
}

/// `ks` lists every thread of `idle` exactly once.
pub open spec fn enumerates(idle: Map<u64, Seq<PoolSlot>>, ks: Seq<u64>) -> bool {
    &&& forall|k: u64| idle.dom().contains(k) <==> ks.contains(k)
    &&& forall|i: int, j: int| 0 <= i < j < ks.len() ==> ks[i] != ks[j]
}

/// Sum of the first `n` counts, saturating at the 64-bit maximum.
pub open spec fn sat_prefix(raw: Seq<u64>, n: int) -> int
    decreases n,
{
    if n <= 0 {
        0
    } else {
        let s = sat_prefix(raw, n - 1) + raw[n - 1];
        if s > u64::MAX { u64::MAX as int } else { s }
    }
}

/// The slot `s` has been idle for at least `timeout` at `now`.
pub open spec fn slot_stale(s: PoolSlot, now: u64, timeout: u64) -> bool {
    elapsed(now, s.last_active) >= timeout
}

/// Histogram bucket of a wait of `nanos`: at most 1 ms, 10 ms, 100 ms,
/// 1 s, 10 s, and beyond.
pub open spec fn wait_bucket(nanos: u64) -> int {
    if nanos <= 1_000_000 { 0 }
    else if nanos <= 10_000_000 { 1 }
    else if nanos <= 100_000_000 { 2 }
    else if nanos <= 1_000_000_000 { 3 }
    else if nanos <= 10_000_000_000 { 4 }
    else { 5 }
}

/// Sum of the lengths of the given queues.
pub open spec fn total_len(qs: Seq<Seq<PoolSlot>>) -> nat
    decreases qs.len(),
{
    if qs.len() == 0 { 0 } else { total_len(qs.drop_last()) + qs.last().len() }
}

/// One step of an acquire: the pool is closed; a resource was taken from
/// the caller's own idle queue; one unit of budget was reserved (the caller
/// now mints a resource or gives the unit back); or the budget is full.
pub enum AcquireStep {
    Closed,
    Local(PoolSlot),
    Reserved,
    Full,
}

pub struct PoolInner {
    max_size: usize,
    idle_timeout: u64,
    idle: DashMap<u64, VecDeque<PoolSlot>>,
    size: u64,
    in_flight: DashMap<u64, u64>,
    closed: bool,
    self_id: Option<u64>,
    acquire_ok_total: u64,
    acquire_timeout_total: u64,
    acquire_closed_total: u64,
    evicted_idle_total: u64,
    evicted_manual_total: u64,
    evicted_shutdown_total: u64,
    wait_buckets: [u64; 6],
    wait_sum_nanos: u64,
    wait_count: u64,
}

impl View for PoolInner {
    type V = PoolView;

    closed spec fn view(&self) -> PoolView {
        PoolView {
            max_size: self.max_size,
            idle_timeout: self.idle_timeout,
            idle: idle_deques(self.idle),
            size: self.size,
            in_flight: in_flight_counts(self.in_flight),
            closed: self.closed,
            self_id: self.self_id,
            acquire_ok: self.acquire_ok_total,
            acquire_timeout: self.acquire_timeout_total,
            acquire_closed: self.acquire_closed_total,
            evicted_idle: self.evicted_idle_total,
            evicted_manual: self.evicted_manual_total,
            evicted_shutdown: self.evicted_shutdown_total,
            wait_buckets: self.wait_buckets@,
            wait_sum_nanos: self.wait_sum_nanos,
            wait_count: self.wait_count,
        }
    }
}

impl PoolInner {
    /// The pool's invariant: finitely many queues and counters, and every
    /// idle resource sits in its owner's queue.
    pub closed spec fn wf(&self) -> bool {
        &&& idle_deques(self.idle).dom().finite()
        &&& in_flight_counts(self.in_flight).dom().finite()
        &&& forall|k: u64, i: int| #[trigger] idle_deques(self.idle).dom().contains(k)
                && 0 <= i < idle_deques(self.idle)[k].len()
                ==> (#[trigger] idle_deques(self.idle)[k][i]).owner == k
    }

    /// What well-formedness gives a caller: finitely many threads with idle
    /// queues and with checked-out counts, and every idle resource queued
    /// under the thread that owns it.
    pub proof fn lemma_wf(&self)
        requires
            self.wf(),
        ensures
            self@.idle.dom().finite(),
            self@.in_flight.dom().finite(),
            forall|k: u64, i: int| #[trigger] self@.idle.dom().contains(k) && 0 <= i < self@.idle[k].len()
                ==> (#[trigger] self@.idle[k][i]).owner == k,
    {
    }

    pub fn new(max_size: usize, idle_timeout: u64) -> (p: Self)
        ensures
            p.wf(),
            p@.max_size == max_size,
            p@.idle_timeout == idle_timeout,
            p@.idle.dom().len() == 0,
            p@.size == 0,
            p@.in_flight.dom().len() == 0,
            !p@.closed,
            p@.self_id is None,
            p@.acquire_ok == 0 && p@.acquire_timeout == 0 && p@.acquire_closed == 0,
            p@.evicted_idle == 0 && p@.evicted_manual == 0 && p@.evicted_shutdown == 0,
            p@.wait_buckets == seq![0u64, 0u64, 0u64, 0u64, 0u64, 0u64],
            p@.wait_sum_nanos == 0 && p@.wait_count == 0,
    {
        let idle = idle_new();
        let in_flight = in_flight_new();
        let p = PoolInner {
            max_size,
            idle_timeout,
            idle,
            size: 0,
            in_flight,
            closed: false,
            self_id: None,
            acquire_ok_total: 0,
            acquire_timeout_total: 0,
            acquire_closed_total: 0,
            evicted_idle_total: 0,
            evicted_manual_total: 0,
            evicted_shutdown_total: 0,
            wait_buckets: [0u64; 6],
            wait_sum_nanos: 0,
            wait_count: 0,
        };
        assert(p@.wait_buckets =~= seq![0u64, 0u64, 0u64, 0u64, 0u64, 0u64]);
        p
    }

    /// Binds the registry id; only the first bind takes effect.
    pub fn bind_id(&mut self, id: u64)
        requires
            old(self).wf(),
        ensures
            final(self).wf(),
            final(self)@ == (PoolView {
                self_id: if old(self)@.self_id is None { Some(id) } else { old(self)@.self_id },
                ..old(self)@
            }),
    {
        if self.self_id.is_none() {
            self.self_id = Some(id);
        }
    }

    pub fn self_id(&self) -> (r: Option<u64>)
        ensures
            r == self@.self_id,
    {
        self.self_id
    }

    pub fn max_size(&self) -> (r: usize)
        ensures
            r == self@.max_size,
    {
        self.max_size
    }

    pub fn idle_timeout(&self) -> (r: u64)
        ensures
            r == self@.idle_timeout,
    {
        self.idle_timeout
    }

    pub fn is_closed(&self) -> (r: bool)
        ensures
            r == self@.closed,
    {
        self.closed
    }

    /// Budget in use: resources checked out plus resources idle.
    pub fn size(&self) -> (r: u64)
        ensures
            r == self@.size,
    {
        self.size
    }

    /// The snapshot shown for debugging: the budget in use.
    pub fn debug_snapshot(&self) -> (v: crate::value::SharedValue)
        ensures
            v@ == crate::value::ValueView::Long(self@.size as i64),
    {
        crate::value::SharedValue::Long(self.size as i64)
    }

    /// Bytes booked for the pool: a fixed part plus a per-slot part (the
    /// resources themselves are accounted by the engine).
    pub fn mem_bytes(&self) -> (n: usize)
        requires
            128 + 64 * self@.size <= usize::MAX,
        ensures
            n == 128 + 64 * self@.size,
    {
        128 + (self.size as usize) * 64
    }

    /// A pool holds no references to other shared objects: nothing is
    /// appended.
    pub fn children(&self, out: &mut Vec<u64>)
        ensures
            final(out)@ == old(out)@,
    {
    }

    /// Takes the oldest resource from thread `me`'s own idle queue. Never
    /// looks into another thread's queue.
    #[verifier::spinoff_prover]
    pub fn try_acquire_local(&mut self, me: u64) -> (r: Option<PoolSlot>)
        requires
            old(self).wf(),
        ensures
            final(self).wf(),
            local_acquire_step(old(self)@, me, r, final(self)@),
            queue_of(old(self)@.idle, me).len() == 0 ==> r is None && final(self)@ == old(self)@,
            queue_of(old(self)@.idle, me).len() > 0 ==> r == Some(queue_of(old(self)@.idle, me)[0])
                && final(self)@ == (PoolView {
                    idle: old(self)@.idle.insert(me, queue_of(old(self)@.idle, me).subrange(1, queue_of(old(self)@.idle, me).len() as int)),
                    ..old(self)@
                }),
            r matches Some(s) ==> s.owner == me,
    {
        match idle_get(&self.idle, me) {
            None => None,
            Some(mut d) => {
                let ghost q = d@;
                let r = d.pop_front();
                match r {
                    None => None,
                    Some(s) => {
                        let ghost old_idle = idle_deques(self.idle);
                        let _ = idle_insert(&mut self.idle, me, d);
                        proof {
                            assert(old_idle[me][0] == q[0]);
                            assert forall|k: u64, i: int| #[trigger] idle_deques(self.idle).dom().contains(k)
                                && 0 <= i < idle_deques(self.idle)[k].len()
                                implies (#[trigger] idle_deques(self.idle)[k][i]).owner == k by {
                                if k == me {
                                    assert(idle_deques(self.idle)[k][i] == old_idle[me][i + 1]);
                                } else {
                                    assert(idle_deques(self.idle)[k] == old_idle[k]);
                                }
                            }
                        }
                        Some(s)
                    }
                }
            }
        }
    }

    /// Reserves one unit of budget when the pool is below its maximum.
    pub fn try_reserve_budget(&mut self) -> (ok: bool)
        requires
            old(self).wf(),
        ensures
            final(self).wf(),
            reserve_step(old(self)@, ok, final(self)@),
    {
        if self.size < self.max_size as u64 {
            self.size = self.size + 1;
            true
        } else {
            false
        }
    }

    /// Gives back one unit of budget (wrapping subtraction).
    pub fn release_budget(&mut self)
        requires
            old(self).wf(),
        ensures
            final(self).wf(),
            final(self)@ == (PoolView { size: sub_wrap(old(self)@.size, 1), ..old(self)@ }),
    {
        self.size = self.size.wrapping_sub(1);
    }

    /// Counts one more resource checked out by thread `me`.
    pub fn track_acquired_by_me(&mut self, me: u64)
        requires
            old(self).wf(),
        ensures
            final(self).wf(),
            final(self)@ == (PoolView {
                in_flight: old(self)@.in_flight.insert(me,
                    if old(self)@.in_flight.dom().contains(me) { add_wrap(old(self)@.in_flight[me], 1) } else { 1 }),
                ..old(self)@
            }),
    {
        let c = match in_flight_get(&self.in_flight, me) {
            Some(c) => c.wrapping_add(1),
            None => 1,
        };
        let _ = in_flight_insert(&mut self.in_flight, me, c);
    }

    /// Counts one resource of `owner` as returned; never goes below zero.
    pub fn untrack_released(&mut self, owner: u64)
        requires
            old(self).wf(),
        ensures
            final(self).wf(),
            (old(self)@.in_flight.dom().contains(owner) && old(self)@.in_flight[owner] > 0)
                ==> final(self)@ == (PoolView {
                    in_flight: old(self)@.in_flight.insert(owner, (old(self)@.in_flight[owner] - 1) as u64),
                    ..old(self)@
                }),
            !(old(self)@.in_flight.dom().contains(owner) && old(self)@.in_flight[owner] > 0)
                ==> final(self)@ == old(self)@,
    {
        match in_flight_get(&self.in_flight, owner) {
            Some(c) => {
                if c > 0 {
                    let _ = in_flight_insert(&mut self.in_flight, owner, c - 1);
                }
            }
            None => {}
        }
    }

    /// A dead thread's checked-out resources will never come back: forgets
    /// its count and gives that much budget back. Returns the count.
    #[verifier::spinoff_prover]
    pub fn reclaim_budget_for_dead_worker(&mut self, key: u64) -> (count: u64)
        requires
            old(self).wf(),
        ensures
            final(self).wf(),
            count == (if old(self)@.in_flight.dom().contains(key) { old(self)@.in_flight[key] } else { 0 }),
            final(self)@ == (PoolView {
                in_flight: old(self)@.in_flight.remove(key),
                size: sub_wrap(old(self)@.size, count),
                ..old(self)@
            }),
    {
        let count = match in_flight_remove(&mut self.in_flight, key) {
            Some(c) => c,
            None => 0,
        };
        self.size = self.size.wrapping_sub(count);
        count
    }

    /// Appends `slot` to thread `owner`'s idle queue, creating it if needed.
    fn park(&mut self, owner: u64, slot: PoolSlot)
        requires
            old(self).wf(),
            slot.owner == owner,
        ensures
            final(self).wf(),
            final(self)@ == (PoolView {
                idle: old(self)@.idle.insert(owner, queue_of(old(self)@.idle, owner).push(slot)),
                ..old(self)@
            }),
    {
        let mut d = match idle_get(&self.idle, owner) {
            Some(d) => d,
            None => VecDeque::new(),
        };
        let ghost q = d@;
        let ghost old_idle = idle_deques(self.idle);
        d.push_back(slot);
        let _ = idle_insert(&mut self.idle, owner, d);
        proof {
            assert(q == queue_of(old_idle, owner));
            assert forall|k: u64, i: int| #[trigger] idle_deques(self.idle).dom().contains(k)
                && 0 <= i < idle_deques(self.idle)[k].len()
                implies (#[trigger] idle_deques(self.idle)[k][i]).owner == k by {
                if k != owner {
                    assert(idle_deques(self.idle)[k] == old_idle[k]);
                } else if i < q.len() {
                    assert(idle_deques(self.idle)[k][i] == q[i]);
                }
            }
        }
    }

    /// Parks a freshly minted resource of thread `me` in its idle queue.
    #[verifier::spinoff_prover]
    pub fn deposit_new(&mut self, me: u64, slot: PoolSlot)
        requires
            old(self).wf(),
            slot.owner == me,
        ensures
            final(self).wf(),
            final(self)@ == (PoolView {
                idle: old(self)@.idle.insert(me, queue_of(old(self)@.idle, me).push(slot)),
                ..old(self)@
            }),
    {
        self.park(me, slot);
    }

    /// Returns a checked-out resource. Released by its owner, or for an
    /// owner that is alive, it is parked at the back of the owner's queue
    /// with its age clock reset to `now`. Released from another thread for
    /// an owner that is gone, it is handed back to be destroyed and its unit
    /// of budget is given back.
    #[verifier::spinoff_prover]
    pub fn release(&mut self, me: u64, slot: PoolSlot, owner_alive: bool, now: u64) -> (destroy: Option<PoolSlot>)
        requires
            old(self).wf(),
        ensures
            final(self).wf(),
            (slot.owner != me && !owner_alive) ==> destroy == Some(slot)
                && final(self)@ == (PoolView { size: sub_wrap(old(self)@.size, 1), ..old(self)@ }),
            !(slot.owner != me && !owner_alive) ==> destroy is None
                && final(self)@ == (PoolView {
                    idle: old(self)@.idle.insert(slot.owner, queue_of(old(self)@.idle, slot.owner).push(
                        PoolSlot { last_active: now, ..slot })),
                    ..old(self)@
                }),
    {
        let owner = slot.owner;
        if owner != me && !owner_alive {
            self.release_budget();
            return Some(slot);
        }
        let parked = PoolSlot { resource: slot.resource, owner: slot.owner, last_active: now };
        self.park(owner, parked);
        None
    }

    /// Threads whose oldest idle resource has been idle for at least the
    /// idle timeout at `now`, each once, in unspecified order.
    #[verifier::spinoff_prover]
    pub fn stale_owners(&self, now: u64) -> (out: Vec<u64>)
        requires
            self.wf(),
        ensures
            forall|k: u64| out@.contains(k) <==> is_stale(self@, now, k),
            forall|i: int, j: int| 0 <= i < j < out@.len() ==> out@[i] != out@[j],
    {
        broadcast use vstd::seq_lib::group_seq_properties;
        let entries = idle_entries(&self.idle);
        let ghost keys = entries@.map_values(|e: (u64, VecDeque<PoolSlot>)| e.0);
        let mut out: Vec<u64> = Vec::new();
        let mut i: usize = 0;
        while i < entries.len()
            invariant
                i <= entries@.len(),
                keys == entries@.map_values(|e: (u64, VecDeque<PoolSlot>)| e.0),
                forall|a: int| 0 <= a < entries@.len() ==> self@.idle.dom().contains(#[trigger] entries@[a].0)
                    && entries@[a].1@ == self@.idle[entries@[a].0],
                forall|k: u64| self@.idle.dom().contains(k) ==> exists|a: int| 0 <= a < entries@.len() && #[trigger] entries@[a].0 == k,
                forall|a: int, b: int| 0 <= a < b < entries@.len() ==> entries@[a].0 != entries@[b].0,
                forall|k: u64| out@.contains(k) <==> (keys.take(i as int).contains(k) && is_stale(self@, now, k)),
                forall|x: int, y: int| 0 <= x < y < out@.len() ==> out@[x] != out@[y],
            decreases entries@.len() - i,
        {
            let k = entries[i].0;
            let d = &entries[i].1;
            proof {
                assert(keys[i as int] == k);
                assert(keys.take((i + 1) as int) =~= keys.take(i as int).push(k));
                assert(!keys.take(i as int).contains(k)) by {
                    if keys.take(i as int).contains(k) {
                        let a = choose|a: int| 0 <= a < keys.take(i as int).len() && keys.take(i as int)[a] == k;
                        assert(entries@[a].0 == k);
                    }
                }
            }
            let stale = if d.len() > 0 {
                let front = d[0].last_active;
                let age = if now >= front { now - front } else { 0 };
                age >= self.idle_timeout
            } else {
                false
            };
            assert(stale == is_stale(self@, now, k));
            let ghost prev_out = out@;
            if stale {
                assert(!prev_out.contains(k));
                out.push(k);
                assert(out@ == prev_out.push(k));
            }
            proof {
                let t0 = keys.take(i as int);
                let t1 = keys.take((i + 1) as int);
                assert forall|kk: u64| out@.contains(kk) <==> (t1.contains(kk) && is_stale(self@, now, kk)) by {
                    assert(t1.contains(kk) <==> (t0.contains(kk) || kk == k)) by {
                        if t1.contains(kk) {
                            let a = choose|a: int| 0 <= a < t1.len() && t1[a] == kk;
                            if a < t0.len() {
                                assert(t0[a] == kk);
                            }
                        }
                        if t0.contains(kk) {
                            let a = choose|a: int| 0 <= a < t0.len() && t0[a] == kk;
                            assert(t1[a] == kk);
                        }
                        if kk == k {
                            assert(t1[i as int] == k);
                        }
                    }
                    if stale {
                        assert(out@.contains(kk) <==> (prev_out.contains(kk) || kk == k)) by {
                            if out@.contains(kk) {
                                let a = choose|a: int| 0 <= a < out@.len() && out@[a] == kk;
                                if a < prev_out.len() {
                                    assert(prev_out[a] == kk);
                                }
                            }
                            if prev_out.contains(kk) {
                                let a = choose|a: int| 0 <= a < prev_out.len() && prev_out[a] == kk;
                                assert(out@[a] == kk);
                            }
                            if kk == k {
                                assert(out@[prev_out.len() as int] == k);
                            }
                        }
                    }
                }
            }
            i = i + 1;
        }
        proof {
            assert(keys.take(entries@.len() as int) =~= keys);
            assert forall|k: u64| is_stale(self@, now, k) implies keys.contains(k) by {
                let a = choose|a: int| 0 <= a < entries@.len() && #[trigger] entries@[a].0 == k;
                assert(keys[a] == k);
            }
        }
        out
    }

    /// Enumerates the idle queues: each thread once with a copy of its
    /// queue.
    fn snapshot(&self) -> (r: Vec<(u64, VecDeque<PoolSlot>)>)
        requires
            self.wf(),
        ensures
            enumerates(self@.idle, r@.map_values(|e: (u64, VecDeque<PoolSlot>)| e.0)),
            forall|i: int| 0 <= i < r@.len() ==> self@.idle.dom().contains(#[trigger] r@[i].0)
                && r@[i].1@ == self@.idle[r@[i].0],
    {
        broadcast use vstd::seq_lib::group_seq_properties;
        let r = idle_entries(&self.idle);
        let ghost ks = r@.map_values(|e: (u64, VecDeque<PoolSlot>)| e.0);
        proof {
            assert forall|k: u64| self@.idle.dom().contains(k) <==> ks.contains(k) by {
                if self@.idle.dom().contains(k) {
                    let a = choose|a: int| 0 <= a < r@.len() && #[trigger] r@[a].0 == k;
                    assert(ks[a] == k);
                }
                if ks.contains(k) {
                    let a = choose|a: int| 0 <= a < ks.len() && ks[a] == k;
                    assert(r@[a].0 == k);
                }
            }
        }
        r
    }

    /// Number of idle resources over all threads (saturating).
    #[verifier::spinoff_prover]
    pub fn idle_count(&self) -> (n: usize)
        requires
            self.wf(),
        ensures
            exists|ks: Seq<u64>| enumerates(self@.idle, ks)
                && n == (if total_len(queues_in_order(self@.idle, ks)) > usize::MAX { usize::MAX as int }
                    else { total_len(queues_in_order(self@.idle, ks)) as int }),
    {
        let entries = self.snapshot();
        let ghost ks = entries@.map_values(|e: (u64, VecDeque<PoolSlot>)| e.0);
        let ghost qs = queues_in_order(self@.idle, ks);
        let mut n: usize = 0;
        let mut i: usize = 0;
        while i < entries.len()
            invariant
                i <= entries@.len(),
                ks == entries@.map_values(|e: (u64, VecDeque<PoolSlot>)| e.0),
                qs == queues_in_order(self@.idle, ks),
                forall|a: int| 0 <= a < entries@.len() ==> self@.idle.dom().contains(#[trigger] entries@[a].0)
                    && entries@[a].1@ == self@.idle[entries@[a].0],
                n == (if total_len(qs.take(i as int)) > usize::MAX { usize::MAX as int } else { total_len(qs.take(i as int)) as int }),
            decreases entries@.len() - i,
        {
            assert(qs.take((i + 1) as int).drop_last() =~= qs.take(i as int));
            assert(qs[i as int] == entries@[i as int].1@);
            n = n.saturating_add(entries[i].1.len());
            i = i + 1;
        }
        assert(qs.take(entries@.len() as int) =~= qs);
        n
    }

    /// Resources checked out: budget in use minus idle, never below zero.
    #[verifier::spinoff_prover]
    pub fn in_use_count(&self) -> (n: usize)
        requires
            self.wf(),
        ensures
            exists|ks: Seq<u64>| enumerates(self@.idle, ks) && {
                let idle = if total_len(queues_in_order(self@.idle, ks)) > usize::MAX { usize::MAX as int }
                    else { total_len(queues_in_order(self@.idle, ks)) as int };
                n == (if (self@.size as usize) >= idle { (self@.size as usize) - idle } else { 0 })
            },
    {
        let size = self.size as usize;
        let idle = self.idle_count();
        size.saturating_sub(idle)
    }

    /// Idle resources per thread: each thread with a queue once, in
    /// unspecified order.
    #[verifier::spinoff_prover]
    pub fn idle_by_thread(&self) -> (r: Vec<(u64, usize)>)
        requires
            self.wf(),
        ensures
            enumerates(self@.idle, r@.map_values(|e: (u64, usize)| e.0)),
            forall|i: int| 0 <= i < r@.len() ==> self@.idle.dom().contains(#[trigger] r@[i].0)
                && r@[i].1 == self@.idle[r@[i].0].len(),
    {
        let entries = self.snapshot();
        let mut r: Vec<(u64, usize)> = Vec::new();
        let mut i: usize = 0;
        while i < entries.len()
            invariant
                i <= entries@.len(),
                r@.len() == i,
                forall|a: int| 0 <= a < entries@.len() ==> self@.idle.dom().contains(#[trigger] entries@[a].0)
                    && entries@[a].1@ == self@.idle[entries@[a].0],
                forall|a: int| 0 <= a < i ==> #[trigger] r@[a].0 == entries@[a].0 && r@[a].1 == entries@[a].1@.len(),
            decreases entries@.len() - i,
        {
            r.push((entries[i].0, entries[i].1.len()));
            i = i + 1;
        }
        proof {
            assert(r@.map_values(|e: (u64, usize)| e.0) =~= entries@.map_values(|e: (u64, VecDeque<PoolSlot>)| e.0));
        }
        r
    }

    /// Marks the pool closed; idle resources stay until drained.
    pub fn close(&mut self)
        requires
            old(self).wf(),
        ensures
            final(self).wf(),
            final(self)@ == (PoolView { closed: true, ..old(self)@ }),
    {
        self.closed = true;
    }

    /// Adds `count` evictions to the counter of `reason` (wrapping).
    pub fn record_evicted(&mut self, count: u64, reason: EvictReason)
        requires
            old(self).wf(),
        ensures
            final(self).wf(),
            final(self)@ == (match reason {
                EvictReason::IdleTimeout => PoolView { evicted_idle: add_wrap(old(self)@.evicted_idle, count), ..old(self)@ },
                EvictReason::Manual => PoolView { evicted_manual: add_wrap(old(self)@.evicted_manual, count), ..old(self)@ },
                EvictReason::Shutdown => PoolView { evicted_shutdown: add_wrap(old(self)@.evicted_shutdown, count), ..old(self)@ },
            }),
    {
        if count == 0 {
            return;
        }
        match reason {
            EvictReason::IdleTimeout => {
                self.evicted_idle_total = self.evicted_idle_total.wrapping_add(count);
            }
            EvictReason::Manual => {
                self.evicted_manual_total = self.evicted_manual_total.wrapping_add(count);
            }
            EvictReason::Shutdown => {
                self.evicted_shutdown_total = self.evicted_shutdown_total.wrapping_add(count);
            }
        }
    }

    /// Pops the idle resources of thread `me` that have been idle for at
    /// least the idle timeout at `now`, oldest first, stopping at the first
    /// fresh one; hands them back to be destroyed, gives their budget back
    /// and counts them as evicted for `reason`.
    #[verifier::spinoff_prover]
    pub fn evict_stale_on_current_thread(&mut self, me: u64, now: u64, reason: EvictReason) -> (evicted: Vec<PoolSlot>)
        requires
            old(self).wf(),
        ensures
            final(self).wf(),
            ({
                let q = queue_of(old(self)@.idle, me);
                let n = evicted@.len();
                &&& n <= q.len()
                &&& evicted@ == q.take(n as int)
                &&& forall|i: int| 0 <= i < n ==> slot_stale(#[trigger] q[i], now, old(self)@.idle_timeout)
                &&& (n < q.len() ==> !slot_stale(q[n as int], now, old(self)@.idle_timeout))
                &&& final(self)@.idle == (if old(self)@.idle.dom().contains(me) {
                        old(self)@.idle.insert(me, q.skip(n as int))
                    } else {
                        old(self)@.idle
                    })
                &&& final(self)@.size == sub_wrap(old(self)@.size, n as u64)
                &&& final(self)@ == (match reason {
                        EvictReason::IdleTimeout => PoolView { idle: final(self)@.idle, size: final(self)@.size,
                            evicted_idle: add_wrap(old(self)@.evicted_idle, n as u64), ..old(self)@ },
                        EvictReason::Manual => PoolView { idle: final(self)@.idle, size: final(self)@.size,
                            evicted_manual: add_wrap(old(self)@.evicted_manual, n as u64), ..old(self)@ },
                        EvictReason::Shutdown => PoolView { idle: final(self)@.idle, size: final(self)@.size,
                            evicted_shutdown: add_wrap(old(self)@.evicted_shutdown, n as u64), ..old(self)@ },
                    })
            }),
    {
        let mut d = match idle_get(&self.idle, me) {
            Some(d) => d,
            None => {
                let ghost q = queue_of(old(self)@.idle, me);
                assert(q.take(0) =~= Seq::<PoolSlot>::empty());
                return Vec::new();
            }
        };
        let ghost q = d@;
        let ghost old_idle = idle_deques(self.idle);
        let timeout = self.idle_timeout;
        let mut popped: Vec<PoolSlot> = Vec::new();
        while d.len() > 0
            invariant_except_break
                popped@.len() <= q.len(),
                popped@ == q.take(popped@.len() as int),
                d@ == q.skip(popped@.len() as int),
                forall|i: int| 0 <= i < popped@.len() ==> slot_stale(#[trigger] q[i], now, timeout),
            ensures
                popped@.len() <= q.len(),
                popped@ == q.take(popped@.len() as int),
                d@ == q.skip(popped@.len() as int),
                forall|i: int| 0 <= i < popped@.len() ==> slot_stale(#[trigger] q[i], now, timeout),
                popped@.len() < q.len() ==> !slot_stale(q[popped@.len() as int], now, timeout),
            decreases d@.len(),
        {
            let front = d[0].last_active;
            let age = if now >= front { now - front } else { 0 };
            if age < timeout {
                break;
            }
            let ghost n = popped@.len();
            match d.pop_front() {
                Some(s) => {
                    popped.push(s);
                    assert(q.take((n + 1) as int) =~= q.take(n as int).push(q[n as int]));
                    assert(d@ =~= q.skip((n + 1) as int));
                }
                None => {}
            }
        }
        proof {
            if popped@.len() == q.len() {
                assert(d@.len() == 0);
            }
        }
        let ghost rest = d@;
        let _ = idle_insert(&mut self.idle, me, d);
        proof {
            assert forall|k: u64, i: int| #[trigger] idle_deques(self.idle).dom().contains(k)
                && 0 <= i < idle_deques(self.idle)[k].len()
                implies (#[trigger] idle_deques(self.idle)[k][i]).owner == k by {
                if k != me {
                    assert(idle_deques(self.idle)[k] == old_idle[k]);
                } else {
                    assert(idle_deques(self.idle)[k][i] == q[i + popped@.len()]);
                }
            }
        }
        let count = popped.len() as u64;
        self.size = self.size.wrapping_sub(count);
        self.record_evicted(count, reason);
        popped
    }

    /// Shutdown: closes the pool and drains every idle queue, handing all
    /// idle resources back to be destroyed (queue by queue, oldest first),
    /// giving their budget back and counting them as evicted at shutdown.
    #[verifier::spinoff_prover]
    pub fn on_shutdown_notify(&mut self) -> (drained: Vec<PoolSlot>)
        requires
            old(self).wf(),
        ensures
            final(self).wf(),
            exists|ks: Seq<u64>| enumerates(old(self)@.idle, ks)
                && drained@ == concat_queues(queues_in_order(old(self)@.idle, ks)),
            shutdown_step(old(self)@, drained@, final(self)@),
            final(self)@.idle.dom() == old(self)@.idle.dom(),
            forall|k: u64| #[trigger] final(self)@.idle.dom().contains(k) ==> final(self)@.idle[k].len() == 0,
            final(self)@ == (PoolView {
                closed: true,
                idle: final(self)@.idle,
                size: sub_wrap(old(self)@.size, drained@.len() as u64),
                evicted_shutdown: add_wrap(old(self)@.evicted_shutdown, drained@.len() as u64),
                ..old(self)@
            }),
    {
        self.closed = true;
        let entries = self.snapshot();
        let ghost ks = entries@.map_values(|e: (u64, VecDeque<PoolSlot>)| e.0);
        let ghost idle0 = idle_deques(self.idle);
        let ghost qs = queues_in_order(idle0, ks);
        let ghost v0 = self@;
        let mut drained: Vec<PoolSlot> = Vec::new();
        let mut i: usize = 0;
        while i < entries.len()
            invariant
                self.wf(),
                i <= entries@.len(),
                ks == entries@.map_values(|e: (u64, VecDeque<PoolSlot>)| e.0),
                enumerates(idle0, ks),
                qs == queues_in_order(idle0, ks),
                forall|a: int| 0 <= a < entries@.len() ==> idle0.dom().contains(#[trigger] entries@[a].0)
                    && entries@[a].1@ == idle0[entries@[a].0],
                drained@ == concat_queues(qs.take(i as int)),
                idle_deques(self.idle).dom() == idle0.dom(),
                forall|k: u64| #[trigger] idle_deques(self.idle).dom().contains(k) ==>
                    (ks.take(i as int).contains(k) ==> idle_deques(self.idle)[k].len() == 0)
                    && (!ks.take(i as int).contains(k) ==> idle_deques(self.idle)[k] == idle0[k]),
                self@ == (PoolView { idle: idle_deques(self.idle), ..v0 }),
            decreases entries@.len() - i,
        {
            let k = entries[i].0;
            let ghost before = drained@;
            let q = copy_deque(&entries[i].1);
            let mut j: usize = 0;
            while j < q.len()
                invariant
                    j <= q@.len(),
                    drained@ == before + q@.take(j as int),
                decreases q@.len() - j,
            {
                drained.push(q[j].duplicate());
                assert(q@.take((j + 1) as int) =~= q@.take(j as int).push(q@[j as int]));
                j = j + 1;
            }
            assert(q@.take(q@.len() as int) =~= q@);
            assert(qs.take((i + 1) as int).drop_last() =~= qs.take(i as int));
            assert(qs[i as int] == q@);
            let ghost prev_idle = idle_deques(self.idle);
            let _ = idle_insert(&mut self.idle, k, VecDeque::new());
            proof {
                broadcast use vstd::seq_lib::group_seq_properties;
                let t0 = ks.take(i as int);
                let t1 = ks.take((i + 1) as int);
                assert(t1 =~= t0.push(k));
                assert(ks[i as int] == k);
                assert(idle_deques(self.idle).dom() =~= idle0.dom());
                assert forall|kk: u64| #[trigger] idle_deques(self.idle).dom().contains(kk) implies
                    (t1.contains(kk) ==> idle_deques(self.idle)[kk].len() == 0)
                    && (!t1.contains(kk) ==> idle_deques(self.idle)[kk] == idle0[kk]) by {
                    assert(t1.contains(kk) <==> (t0.contains(kk) || kk == k)) by {
                        if t1.contains(kk) {
                            let a = choose|a: int| 0 <= a < t1.len() && t1[a] == kk;
                            if a < t0.len() {
                                assert(t0[a] == kk);
                            }
                        }
                        if t0.contains(kk) {
                            let a = choose|a: int| 0 <= a < t0.len() && t0[a] == kk;
                            assert(t1[a] == kk);
                        }
                        if kk == k {
                            assert(t1[i as int] == k);
                        }
                    }
                }
                assert forall|kk: u64, x: int| #[trigger] idle_deques(self.idle).dom().contains(kk)
                    && 0 <= x < idle_deques(self.idle)[kk].len()
                    implies (#[trigger] idle_deques(self.idle)[kk][x]).owner == kk by {
                    assert(idle_deques(self.idle)[kk] == prev_idle[kk]);
                }
            }
            i = i + 1;
        }
        proof {
            assert(qs.take(entries@.len() as int) =~= qs);
            assert(ks.take(entries@.len() as int) =~= ks);
            assert(idle0 == old(self)@.idle);
            assert(enumerates(old(self)@.idle, ks));
            assert(drained@ == concat_queues(queues_in_order(old(self)@.idle, ks)));
        }
        let count = drained.len() as u64;
        self.size = self.size.wrapping_sub(count);
        self.record_evicted(count, EvictReason::Shutdown);
        drained
    }

    /// One decision of an acquire by thread `me`: refuse when closed, else
    /// take from `me`'s own idle queue (counting it as checked out by `me`),
    /// else reserve budget for a fresh resource, else report the budget full.
    pub fn acquire_step(&mut self, me: u64) -> (step: AcquireStep)
        requires
            old(self).wf(),
        ensures
            final(self).wf(),
            old(self)@.closed ==> step is Closed && final(self)@ == old(self)@,
            !old(self)@.closed && queue_of(old(self)@.idle, me).len() > 0 ==>
                step == AcquireStep::Local(queue_of(old(self)@.idle, me)[0])
                && final(self)@ == (PoolView {
                    idle: old(self)@.idle.insert(me, queue_of(old(self)@.idle, me).subrange(1, queue_of(old(self)@.idle, me).len() as int)),
                    in_flight: old(self)@.in_flight.insert(me,
                        if old(self)@.in_flight.dom().contains(me) { add_wrap(old(self)@.in_flight[me], 1) } else { 1 }),
                    ..old(self)@
                }),
            !old(self)@.closed && queue_of(old(self)@.idle, me).len() == 0 && old(self)@.size < old(self)@.max_size ==>
                step is Reserved && final(self)@ == (PoolView { size: (old(self)@.size + 1) as u64, ..old(self)@ }),
            !old(self)@.closed && queue_of(old(self)@.idle, me).len() == 0 && old(self)@.size >= old(self)@.max_size ==>
                step is Full && final(self)@ == old(self)@,
    {
        if self.closed {
            return AcquireStep::Closed;
        }
        match self.try_acquire_local(me) {
            Some(slot) => {
                self.track_acquired_by_me(me);
                return AcquireStep::Local(slot);
            }
            None => {}
        }
        if self.try_reserve_budget() {
            AcquireStep::Reserved
        } else {
            AcquireStep::Full
        }
    }

    pub fn record_acquire_ok(&mut self)
        requires
            old(self).wf(),
        ensures
            final(self).wf(),
            final(self)@ == (PoolView { acquire_ok: add_wrap(old(self)@.acquire_ok, 1), ..old(self)@ }),
    {
        self.acquire_ok_total = self.acquire_ok_total.wrapping_add(1);
    }

    pub fn record_acquire_timeout(&mut self)
        requires
            old(self).wf(),
        ensures
            final(self).wf(),
            final(self)@ == (PoolView { acquire_timeout: add_wrap(old(self)@.acquire_timeout, 1), ..old(self)@ }),
    {
        self.acquire_timeout_total = self.acquire_timeout_total.wrapping_add(1);
    }

    pub fn record_acquire_closed(&mut self)
        requires
            old(self).wf(),
        ensures
            final(self).wf(),
            final(self)@ == (PoolView { acquire_closed: add_wrap(old(self)@.acquire_closed, 1), ..old(self)@ }),
    {
        self.acquire_closed_total = self.acquire_closed_total.wrapping_add(1);
    }

    /// Records one acquire that waited `nanos` nanoseconds.
    pub fn record_wait(&mut self, nanos: u64)
        requires
            old(self).wf(),
        ensures
            final(self).wf(),
            final(self)@ == (PoolView {
                wait_sum_nanos: add_wrap(old(self)@.wait_sum_nanos, nanos),
                wait_count: add_wrap(old(self)@.wait_count, 1),
                wait_buckets: old(self)@.wait_buckets.update(wait_bucket(nanos),
                    add_wrap(old(self)@.wait_buckets[wait_bucket(nanos)], 1)),
                ..old(self)@
            }),
    {
        self.wait_sum_nanos = self.wait_sum_nanos.wrapping_add(nanos);
        self.wait_count = self.wait_count.wrapping_add(1);
        let idx: usize = if nanos <= 1_000_000 {
            0
        } else if nanos <= 10_000_000 {
            1
        } else if nanos <= 100_000_000 {
            2
        } else if nanos <= 1_000_000_000 {
            3
        } else if nanos <= 10_000_000_000 {
            4
        } else {
            5
        };
        let v = self.wait_buckets[idx].wrapping_add(1);
        self.wait_buckets[idx] = v;
    }

    pub fn acquire_ok_total(&self) -> (r: u64)
        ensures
            r == self@.acquire_ok,
    {
        self.acquire_ok_total
    }

    pub fn acquire_timeout_total(&self) -> (r: u64)
        ensures
            r == self@.acquire_timeout,
    {
        self.acquire_timeout_total
    }

    pub fn acquire_closed_total(&self) -> (r: u64)
        ensures
            r == self@.acquire_closed,
    {
        self.acquire_closed_total
    }

    pub fn evicted_idle_total(&self) -> (r: u64)
        ensures
            r == self@.evicted_idle,
    {
        self.evicted_idle_total
    }

    pub fn evicted_manual_total(&self) -> (r: u64)
        ensures
            r == self@.evicted_manual,
    {
        self.evicted_manual_total
    }

    pub fn evicted_shutdown_total(&self) -> (r: u64)
        ensures
            r == self@.evicted_shutdown,
    {
        self.evicted_shutdown_total
    }

    /// Cumulative bucket counts (saturating), the sum of waits in
    /// nanoseconds, and the number of waits.
    pub fn wait_histogram_snapshot(&self) -> (r: ([u64; 6], u64, u64))
        ensures
            forall|i: int| 0 <= i < 6 ==> r.0@[i] == sat_prefix(self@.wait_buckets, i + 1),
            r.1 == self@.wait_sum_nanos,
            r.2 == self@.wait_count,
    {
        let mut cumulative = [0u64; 6];
        let mut running: u64 = 0;
        let mut i: usize = 0;
        while i < 6
            invariant
                i <= 6,
                self.wait_buckets@.len() == 6,
                cumulative@.len() == 6,
                running == sat_prefix(self.wait_buckets@, i as int),
                forall|j: int| 0 <= j < i ==> cumulative@[j] == sat_prefix(self.wait_buckets@, j + 1),
            decreases 6 - i,
        {
            running = running.saturating_add(self.wait_buckets[i]);
            cumulative[i] = running;
            i = i + 1;
        }
        (cumulative, self.wait_sum_nanos, self.wait_count)
    }
}


/// A dead thread's checked-out resources will never come back: every pool
/// forgets its count and gives that much budget back.
pub fn reclaim_all_pools_for_dead_worker(pools: &mut Vec<PoolInner>, key: u64)
    requires
        forall|i: int| 0 <= i < old(pools)@.len() ==> (#[trigger] old(pools)@[i]).wf(),
    ensures
        final(pools)@.len() == old(pools)@.len(),
        forall|i: int| 0 <= i < final(pools)@.len() ==> (#[trigger] final(pools)@[i]).wf()
            && final(pools)@[i]@ == (PoolView {
                in_flight: old(pools)@[i]@.in_flight.remove(key),
                size: sub_wrap(old(pools)@[i]@.size,
                    if old(pools)@[i]@.in_flight.dom().contains(key) { old(pools)@[i]@.in_flight[key] } else { 0 }),
                ..old(pools)@[i]@
            }),
{
    let ghost before = pools@;
    let mut i: usize = 0;
    while i < pools.len()
        invariant
            i <= pools@.len(),
            pools@.len() == before.len(),
            before == old(pools)@,
            forall|j: int| i <= j < pools@.len() ==> pools@[j] == before[j],
            forall|j: int| 0 <= j < pools@.len() ==> (#[trigger] before[j]).wf(),
            forall|j: int| 0 <= j < i ==> (#[trigger] pools@[j]).wf()
                && pools@[j]@ == (PoolView {
                    in_flight: before[j]@.in_flight.remove(key),
                    size: sub_wrap(before[j]@.size,
                        if before[j]@.in_flight.dom().contains(key) { before[j]@.in_flight[key] } else { 0 }),
                    ..before[j]@
                }),
        decreases pools@.len() - i,
    {
        let mut p = pools.remove(i);
        p.reclaim_budget_for_dead_worker(key);
        pools.insert(i, p);
        i = i + 1;
    }
}


/// Reserving budget took the pool view from `before` to `after`.
pub open spec fn reserve_step(before: PoolView, ok: bool, after: PoolView) -> bool {
    &&& ok == (before.size < before.max_size)
    &&& ok ==> after == (PoolView { size: (before.size + 1) as u64, ..before })
    &&& !ok ==> after == before
}

/// Law: reserving budget never takes a pool past its maximum size.
pub proof fn law_reserve_within_max(before: PoolView, ok: bool, after: PoolView)
    requires
        before.size <= before.max_size,
        reserve_step(before, ok, after),
    ensures
        after.size <= after.max_size,
        after.max_size == before.max_size,
{
}

/// A change of a pool's budget: a reservation attempt, or units given
/// back (one by `release_budget`; as many as were destroyed by eviction,
/// shutdown or a dead worker's reclaim).
pub enum BudgetOp {
    Reserve,
    Release(u64),
}

/// The size after `ops`, from `size`, with reservations as
/// `try_reserve_budget` makes them (only below `max`) and releases as
/// `release_budget` makes them (wrapping).
pub open spec fn budget_after(size: u64, max: usize, ops: Seq<BudgetOp>) -> u64
    decreases ops.len(),
{
    if ops.len() == 0 {
        size
    } else {
        let s = budget_after(size, max, ops.drop_last());
        match ops.last() {
            BudgetOp::Reserve => if s < max { (s + 1) as u64 } else { s },
            BudgetOp::Release(n) => sub_wrap(s, n),
        }
    }
}

/// Each release in `ops` gives back units that are held at that point.
pub open spec fn releases_held(size: u64, max: usize, ops: Seq<BudgetOp>) -> bool {
    forall|i: int| 0 <= i < ops.len() && #[trigger] ops[i] is Release
        ==> budget_after(size, max, ops.take(i)) >= ops[i]->0
}

proof fn lemma_budget_bounded(size: u64, max: usize, ops: Seq<BudgetOp>)
    requires
        size <= max,
        releases_held(size, max, ops),
    ensures
        budget_after(size, max, ops) <= max,
    decreases ops.len(),
{
    if ops.len() > 0 {
        let init = ops.drop_last();
        assert forall|i: int| 0 <= i < init.len() && #[trigger] init[i] is Release
            implies budget_after(size, max, init.take(i)) >= init[i]->0 by {
            assert(init.take(i) =~= ops.take(i));
            assert(ops[i] == init[i]);
        }
        lemma_budget_bounded(size, max, init);
        if ops.last() is Release {
            let j = ops.len() - 1;
            assert(ops.take(j) =~= init);
            assert(ops[j] == ops.last());
        }
    }
}

/// Law: starting within its maximum, a pool stays within it after every
/// prefix of any run of reservations and releases, as long as each release
/// gives back a unit that is held.
pub proof fn law_size_never_exceeds_max(size: u64, max: usize, ops: Seq<BudgetOp>)
    requires
        size <= max,
        releases_held(size, max, ops),
    ensures
        forall|n: int| 0 <= n <= ops.len() ==> #[trigger] budget_after(size, max, ops.take(n)) <= max,
{
    assert forall|n: int| 0 <= n <= ops.len() implies #[trigger] budget_after(size, max, ops.take(n)) <= max by {
        let pre = ops.take(n);
        assert forall|i: int| 0 <= i < pre.len() && #[trigger] pre[i] is Release
            implies budget_after(size, max, pre.take(i)) >= pre[i]->0 by {
            assert(pre.take(i) =~= ops.take(i));
            assert(ops[i] == pre[i]);
        }
        lemma_budget_bounded(size, max, pre);
    }
}

/// Law: a pool starts at size zero (`new`), so from its creation on it
/// stays within its maximum after every prefix of any run of reservations
/// and releases in which each release gives back units that are held.
pub proof fn law_fresh_pool_stays_within_max(max: usize, ops: Seq<BudgetOp>)
    requires
        releases_held(0, max, ops),
    ensures
        forall|n: int| 0 <= n <= ops.len() ==> #[trigger] budget_after(0, max, ops.take(n)) <= max,
{
    law_size_never_exceeds_max(0, max, ops);
}

/// One reservation step of `try_reserve_budget` moves the size as
/// `budget_after` does for a `Reserve`, and `release_budget` as for a
/// `Release`.
pub proof fn law_budget_steps_match(before: PoolView, ok: bool, after: PoolView)
    requires
        reserve_step(before, ok, after),
    ensures
        after.size == budget_after(before.size, before.max_size, seq![BudgetOp::Reserve]),
        sub_wrap(before.size, 1) == budget_after(before.size, before.max_size, seq![BudgetOp::Release(1)]),
{
    reveal_with_fuel(budget_after, 2);
    assert(seq![BudgetOp::Reserve].drop_last() =~= Seq::<BudgetOp>::empty());
    assert(seq![BudgetOp::Release(1)].drop_last() =~= Seq::<BudgetOp>::empty());
    assert(seq![BudgetOp::Reserve].last() == BudgetOp::Reserve);
    assert(seq![BudgetOp::Release(1)].last() == BudgetOp::Release(1));
}

/// What a shutdown notification does: the pool closes, every thread's idle
/// queue (taken in some order `ks`) is drained into `drained` and emptied,
/// and the size and the shutdown counter move by the number drained.
pub open spec fn shutdown_step(before: PoolView, drained: Seq<PoolSlot>, after: PoolView) -> bool {
    &&& exists|ks: Seq<u64>| enumerates(before.idle, ks)
        && drained == concat_queues(queues_in_order(before.idle, ks))
    &&& after.idle.dom() == before.idle.dom()
    &&& forall|k: u64| #[trigger] after.idle.dom().contains(k) ==> after.idle[k].len() == 0
    &&& after == (PoolView {
        closed: true,
        idle: after.idle,
        size: sub_wrap(before.size, drained.len() as u64),
        evicted_shutdown: add_wrap(before.evicted_shutdown, drained.len() as u64),
        ..before
    })
}

proof fn lemma_concat_len(qs: Seq<Seq<PoolSlot>>)
    ensures
        concat_queues(qs).len() == total_len(qs),
    decreases qs.len(),
{
    if qs.len() > 0 {
        lemma_concat_len(qs.drop_last());
    }
}

proof fn lemma_total_len_empty(qs: Seq<Seq<PoolSlot>>)
    requires
        forall|i: int| 0 <= i < qs.len() ==> #[trigger] qs[i].len() == 0,
    ensures
        total_len(qs) == 0,
    decreases qs.len(),
{
    if qs.len() > 0 {
        assert forall|i: int| 0 <= i < qs.drop_last().len() implies #[trigger] qs.drop_last()[i].len() == 0 by {
            assert(qs.drop_last()[i] == qs[i]);
        }
        lemma_total_len_empty(qs.drop_last());
        assert(qs.last() == qs[qs.len() - 1]);
    }
}

proof fn lemma_total_len_add(a: Seq<Seq<PoolSlot>>, b: Seq<Seq<PoolSlot>>)
    ensures
        total_len(a + b) == total_len(a) + total_len(b),
    decreases b.len(),
{
    if b.len() == 0 {
        assert(a + b =~= a);
    } else {
        assert((a + b).drop_last() =~= a + b.drop_last());
        assert((a + b).last() == b.last());
        lemma_total_len_add(a, b.drop_last());
    }
}

proof fn lemma_total_len_remove(idle: Map<u64, Seq<PoolSlot>>, ks: Seq<u64>, j: int)
    requires
        0 <= j < ks.len(),
    ensures
        total_len(queues_in_order(idle, ks)) == total_len(queues_in_order(idle, ks.remove(j))) + idle[ks[j]].len(),
{
    let a = ks.take(j);
    let b = ks.skip(j + 1);
    assert(ks =~= a + seq![ks[j]] + b);
    assert(ks.remove(j) =~= a + b);
    assert(queues_in_order(idle, ks) =~= queues_in_order(idle, a) + seq![idle[ks[j]]] + queues_in_order(idle, b));
    assert(queues_in_order(idle, ks.remove(j)) =~= queues_in_order(idle, a) + queues_in_order(idle, b));
    let one = seq![idle[ks[j]]];
    assert(one.drop_last() =~= Seq::<Seq<PoolSlot>>::empty());
    assert(total_len(Seq::<Seq<PoolSlot>>::empty()) == 0);
    assert(one.last() == idle[ks[j]]);
    assert(total_len(one) == idle[ks[j]].len());
    lemma_total_len_add(queues_in_order(idle, a) + one, queues_in_order(idle, b));
    lemma_total_len_add(queues_in_order(idle, a), one);
    lemma_total_len_add(queues_in_order(idle, a), queues_in_order(idle, b));
}

/// `s` holds no id twice.
pub open spec fn no_repeats(s: Seq<u64>) -> bool {
    forall|i: int, j: int| 0 <= i < j < s.len() ==> s[i] != s[j]
}

proof fn lemma_total_len_any_order(idle: Map<u64, Seq<PoolSlot>>, s1: Seq<u64>, s2: Seq<u64>)
    requires
        no_repeats(s1),
        no_repeats(s2),
        forall|k: u64| s1.contains(k) <==> s2.contains(k),
    ensures
        total_len(queues_in_order(idle, s1)) == total_len(queues_in_order(idle, s2)),
    decreases s1.len(),
{
    if s1.len() == 0 {
        if s2.len() > 0 {
            assert(s2.contains(s2[0]));
        }
        assert(queues_in_order(idle, s1).len() == 0);
        assert(queues_in_order(idle, s2).len() == 0);
    } else {
        let x = s1.last();
        assert(s1.contains(x));
        assert(s2.contains(x));
        let j = choose|j: int| 0 <= j < s2.len() && s2[j] == x;
        let t1 = s1.drop_last();
        let t2 = s2.remove(j);
        assert forall|k: u64| t1.contains(k) <==> t2.contains(k) by {
            if t1.contains(k) {
                let i = choose|i: int| 0 <= i < t1.len() && t1[i] == k;
                assert(s1[i] == k && i < s1.len() - 1);
                assert(k != x);
                assert(s1.contains(k));
                let i2 = choose|i2: int| 0 <= i2 < s2.len() && s2[i2] == k;
                assert(i2 != j);
                if i2 < j {
                    assert(t2[i2] == k);
                } else {
                    assert(t2[i2 - 1] == k);
                }
            }
            if t2.contains(k) {
                let i = choose|i: int| 0 <= i < t2.len() && t2[i] == k;
                if i < j {
                    assert(s2[i] == k);
                    assert(i != j);
                } else {
                    assert(s2[i + 1] == k);
                }
                assert(k != x);
                assert(s2.contains(k));
                assert(s1.contains(k));
                let i1 = choose|i1: int| 0 <= i1 < s1.len() && s1[i1] == k;
                assert(i1 != s1.len() - 1);
                assert(t1[i1] == k);
            }
        }
        assert forall|a: int, b: int| 0 <= a < b < t2.len() implies t2[a] != t2[b] by {
            let a2 = if a < j { a } else { a + 1 };
            let b2 = if b < j { b } else { b + 1 };
            assert(t2[a] == s2[a2] && t2[b] == s2[b2]);
        }
        lemma_total_len_any_order(idle, t1, t2);
        lemma_total_len_remove(idle, s2, j);
        assert(queues_in_order(idle, s1).drop_last() =~= queues_in_order(idle, t1));
        assert(queues_in_order(idle, s1).last() == idle[x]);
    }
}

/// Law: the number a shutdown drains is the total length of the idle
/// queues, taken in any order that lists each thread once (which is what
/// `idle_count` sums); the size and the shutdown counter move by it.
pub proof fn law_shutdown_drains_idle_total(a: PoolView, d: Seq<PoolSlot>, b: PoolView, ks: Seq<u64>)
    requires
        shutdown_step(a, d, b),
        enumerates(a.idle, ks),
    ensures
        d.len() == total_len(queues_in_order(a.idle, ks)),
        b.size == sub_wrap(a.size, d.len() as u64),
        b.evicted_shutdown == add_wrap(a.evicted_shutdown, d.len() as u64),
{
    let ks1 = choose|k1: Seq<u64>| enumerates(a.idle, k1) && d == concat_queues(queues_in_order(a.idle, k1));
    lemma_concat_len(queues_in_order(a.idle, ks1));
    assert forall|k: u64| ks1.contains(k) <==> ks.contains(k) by {
        assert(a.idle.dom().contains(k) <==> ks1.contains(k));
        assert(a.idle.dom().contains(k) <==> ks.contains(k));
    }
    lemma_total_len_any_order(a.idle, ks1, ks);
}

/// Law: a shutdown drains exactly the idle resources, as many as
/// `idle_count` counts over the same queues; a second shutdown drains
/// nothing and changes nothing.
pub proof fn law_shutdown_idempotent(a: PoolView, d1: Seq<PoolSlot>, b: PoolView, d2: Seq<PoolSlot>, c: PoolView)
    requires
        shutdown_step(a, d1, b),
        shutdown_step(b, d2, c),
    ensures
        exists|ks: Seq<u64>| enumerates(a.idle, ks) && d1.len() == #[trigger] total_len(queues_in_order(a.idle, ks)),
        d2.len() == 0,
        c == b,
{
    let ks1 = choose|ks: Seq<u64>| enumerates(a.idle, ks) && d1 == concat_queues(queues_in_order(a.idle, ks));
    lemma_concat_len(queues_in_order(a.idle, ks1));
    let ks2 = choose|ks: Seq<u64>| enumerates(b.idle, ks) && d2 == concat_queues(queues_in_order(b.idle, ks));
    let qs2 = queues_in_order(b.idle, ks2);
    assert forall|i: int| 0 <= i < qs2.len() implies #[trigger] qs2[i].len() == 0 by {
        assert(ks2.contains(ks2[i]));
        assert(b.idle.dom().contains(ks2[i]));
    }
    lemma_total_len_empty(qs2);
    lemma_concat_len(qs2);
    assert(c.idle =~= b.idle) by {
        assert forall|k: u64| #[trigger] c.idle.dom().contains(k) implies c.idle[k] == b.idle[k] by {
            assert(c.idle[k] =~= b.idle[k]);
        }
    }
    assert(sub_wrap(b.size, 0) == b.size);
    assert(add_wrap(b.evicted_shutdown, 0) == b.evicted_shutdown);
}

/// Tracking one acquisition by `me`.
pub open spec fn track_step(before: PoolView, me: u64, after: PoolView) -> bool {
    after == (PoolView {
        in_flight: before.in_flight.insert(me,
            if before.in_flight.dom().contains(me) { add_wrap(before.in_flight[me], 1) } else { 1 }),
        ..before
    })
}

/// Untracking one release by `owner`.
pub open spec fn untrack_step(before: PoolView, owner: u64, after: PoolView) -> bool {
    &&& (before.in_flight.dom().contains(owner) && before.in_flight[owner] > 0)
        ==> after == (PoolView {
            in_flight: before.in_flight.insert(owner, (before.in_flight[owner] - 1) as u64),
            ..before
        })
    &&& !(before.in_flight.dom().contains(owner) && before.in_flight[owner] > 0) ==> after == before
}

/// Law: tracking an acquisition and untracking its release leaves the
/// thread's in-flight count where it was (zero for a fresh thread), and
/// touches no other thread's count.
pub proof fn law_track_untrack_balance(v: PoolView, me: u64, a: PoolView, b: PoolView)
    requires
        !v.in_flight.dom().contains(me) || v.in_flight[me] < u64::MAX,
        track_step(v, me, a),
        untrack_step(a, me, b),
    ensures
        b.in_flight.dom().contains(me),
        b.in_flight[me] == (if v.in_flight.dom().contains(me) { v.in_flight[me] } else { 0 }),
        forall|k: u64| k != me ==> (#[trigger] b.in_flight.dom().contains(k) <==> v.in_flight.dom().contains(k)),
        forall|k: u64| k != me && v.in_flight.dom().contains(k) ==> #[trigger] b.in_flight[k] == v.in_flight[k],
        b.size == v.size,
{
}

/// Reclaiming the budget of a dead worker `key`.
pub open spec fn reclaim_step(before: PoolView, key: u64, count: u64, after: PoolView) -> bool {
    &&& count == (if before.in_flight.dom().contains(key) { before.in_flight[key] } else { 0 })
    &&& after == (PoolView { in_flight: before.in_flight.remove(key), size: sub_wrap(before.size, count), ..before })
}

/// Law: reclaiming refunds exactly the budget the dead worker still held,
/// forgets that worker, and leaves every other worker's count alone.
pub proof fn law_reclaim_refunds(before: PoolView, key: u64, count: u64, after: PoolView)
    requires
        reclaim_step(before, key, count, after),
        before.in_flight.dom().contains(key) ==> before.in_flight[key] <= before.size,
    ensures
        after.size == before.size - count,
        !after.in_flight.dom().contains(key),
        forall|k: u64| k != key ==> (#[trigger] after.in_flight.dom().contains(k) <==> before.in_flight.dom().contains(k)),
        forall|k: u64| k != key && before.in_flight.dom().contains(k) ==> #[trigger] after.in_flight[k] == before.in_flight[k],
{
}


/// Message of a factory that failed with status `rc`.
pub open spec fn factory_failure_message(rc: i32) -> Seq<char> {
    if rc == -1 {
        "Shared\\Pool factory threw (see EG(exception))"@
    } else if rc == -2 {
        "Shared\\Pool factory must return an object (v1 does not support scalar/array resources)"@
    } else {
        "factory invocation failed with rc="@ + crate::text::signed_decimal(rc as int)
    }
}

impl PoolInner {
    /// Settles the budget reserved for a fresh resource once the factory
    /// ran: on success the resource counts as checked out by `me`; on
    /// failure the budget is given back and the failure reported (a throw
    /// and an unknown status are generic errors, a non-object a type
    /// error).
    pub fn settle_factory(&mut self, me: u64, rc: i32) -> (r: Result<(), (SharedError, String)>)
        requires
            old(self).wf(),
        ensures
            final(self).wf(),
            rc == 0 ==> r is Ok && track_step(old(self)@, me, final(self)@),
            rc != 0 ==> final(self)@ == (PoolView { size: sub_wrap(old(self)@.size, 1), ..old(self)@ }),
            rc != 0 ==> (r matches Err((e, m)) && e == (if rc == -2 { SharedError::Type } else { SharedError::Generic })
                && m@ == factory_failure_message(rc)),
    {
        if rc == 0 {
            self.track_acquired_by_me(me);
            return Ok(());
        }
        self.release_budget();
        if rc == -1 {
            Err((SharedError::Generic, String::from_str("Shared\\Pool factory threw (see EG(exception))")))
        } else if rc == -2 {
            Err((SharedError::Type, String::from_str("Shared\\Pool factory must return an object (v1 does not support scalar/array resources)")))
        } else {
            let mut m = String::from_str("factory invocation failed with rc=");
            crate::text::push_signed_decimal(&mut m, rc as i64);
            Err((SharedError::Generic, m))
        }
    }

    /// Counts how an acquire ended: a success, a timeout or a close (other
    /// failures are not counted).
    pub fn record_acquire_outcome(&mut self, r: &Result<(), SharedError>)
        requires
            old(self).wf(),
        ensures
            final(self).wf(),
            r is Ok ==> final(self)@ == (PoolView { acquire_ok: add_wrap(old(self)@.acquire_ok, 1), ..old(self)@ }),
            r == Err::<(), SharedError>(SharedError::Timeout) ==> final(self)@ == (PoolView { acquire_timeout: add_wrap(old(self)@.acquire_timeout, 1), ..old(self)@ }),
            r == Err::<(), SharedError>(SharedError::Closed) ==> final(self)@ == (PoolView { acquire_closed: add_wrap(old(self)@.acquire_closed, 1), ..old(self)@ }),
            r is Err && r != Err::<(), SharedError>(SharedError::Timeout) && r != Err::<(), SharedError>(SharedError::Closed) ==> final(self)@ == old(self)@,
    {
        match r {
            Ok(()) => self.record_acquire_ok(),
            Err(SharedError::Timeout) => self.record_acquire_timeout(),
            Err(SharedError::Closed) => self.record_acquire_closed(),
            Err(_) => {},
        }
    }
}

/// How long an acquire that found the budget full waits before looking
/// again (nanoseconds): a non-waiting acquire times out at once; an
/// unbounded one polls every 50 ms; a bounded one waits out what is left
/// of its deadline, or times out once the deadline has passed.
pub fn acquire_wait(try_only: bool, now: u64, deadline: Option<u64>) -> (r: Result<u64, SharedError>)
    ensures
        try_only ==> r == Err::<u64, SharedError>(SharedError::Timeout),
        !try_only && deadline is None ==> r == Ok::<u64, SharedError>(50_000_000),
        !try_only && deadline is Some && now >= deadline->0 ==> r == Err::<u64, SharedError>(SharedError::Timeout),
        !try_only && deadline is Some && now < deadline->0 ==> r == Ok::<u64, SharedError>((deadline->0 - now) as u64),
{
    if try_only {
        return Err(SharedError::Timeout);
    }
    match deadline {
        None => Ok(50_000_000),
        Some(d) => {
            if now >= d {
                Err(SharedError::Timeout)
            } else {
                Ok(d - now)
            }
        },
    }
}


/// A local acquire by `me` took the pool view from `before` to `after` and
/// answered `r`.
pub open spec fn local_acquire_step(before: PoolView, me: u64, r: Option<PoolSlot>, after: PoolView) -> bool {
    &&& queue_of(before.idle, me).len() == 0 ==> r is None && after == before
    &&& queue_of(before.idle, me).len() > 0 ==> r == Some(queue_of(before.idle, me)[0])
        && after == (PoolView {
            idle: before.idle.insert(me, queue_of(before.idle, me).subrange(1, queue_of(before.idle, me).len() as int)),
            ..before
        })
}

/// Law: a thread only ever takes its own idle resources, oldest first; no
/// other thread's queue is touched, and the budget is unchanged.
pub proof fn law_no_cross_thread_steal(before: PoolView, me: u64, r: Option<PoolSlot>, after: PoolView, other: u64)
    requires
        local_acquire_step(before, me, r, after),
        other != me,
        forall|k: u64, i: int| #[trigger] before.idle.dom().contains(k) && 0 <= i < before.idle[k].len()
            ==> (#[trigger] before.idle[k][i]).owner == k,
    ensures
        queue_of(after.idle, other) == queue_of(before.idle, other),
        r matches Some(s) ==> s.owner == me && s == queue_of(before.idle, me)[0],
        after.size == before.size,
{
    if queue_of(before.idle, me).len() > 0 {
        assert(before.idle.dom().contains(me));
        assert(before.idle[me][0].owner == me);
    }
}

} // verus!
