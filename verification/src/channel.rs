//! Channel: a bounded multi-producer multi-consumer queue of serialised
//! values, plus the byte-budget and per-value size checks that guard it.

use vstd::prelude::*;
use vstd::multiset::Multiset;
use crate::error::{PhpError, SharedError};
use crate::atomic::is_exception;
use crate::text::{decimal, push_decimal};
use crate::slot_buffer::{slot_contents, slot_limit, stash_items, FrontStash, SlotBuffer, MAX_SLOT_CAPACITY};
use crate::value::SharedValue;

verus! {

/// A value in transit: its serialised bytes and the registry ids of the
/// shared entries it references, which stay pinned while it is in transit.
#[derive(Debug)]
pub struct Payload {
    pub bytes: Vec<u8>,
    pub keepalive: Vec<u64>,
}

/// A payload seen abstractly: its bytes and the ids it pins.
pub type PayloadView = (Seq<u8>, Seq<u64>);

impl View for Payload {
    type V = PayloadView;

    open spec fn view(&self) -> PayloadView {
        (self.bytes@, self.keepalive@)
    }
}

impl Payload {
    /// A payload of raw bytes that pins nothing.
    pub fn bytes_only(bytes: Vec<u8>) -> (p: Self)
        ensures
            p.bytes@ == bytes@,
            p.keepalive@.len() == 0,
    {
        Payload { bytes, keepalive: Vec::new() }
    }
}

/// Bytes booked per slot of a channel's buffer: one payload plus one
/// stamp word.
pub open spec fn slot_bytes_spec() -> nat {
    vstd::layout::size_of::<Payload>() + vstd::layout::size_of::<usize>()
}

pub fn slot_bytes() -> (s: u64)
    ensures
        s == slot_bytes_spec(),
        s > 0,
{
    vstd::layout::layout_for_type_is_valid::<Payload>();
    vstd::layout::layout_for_type_is_valid::<usize>();
    proof {
        broadcast use vstd::layout::layout_of_primitives;
    }
    let a = std::mem::size_of::<Payload>();
    let b = std::mem::size_of::<usize>();
    (a as u64) + (b as u64)
}

/// True iff a channel of `capacity` slots fits within `budget` bytes; a
/// product that overflows 64 bits does not fit.
pub fn channel_capacity_fits(capacity: u64, budget: u64) -> (r: bool)
    ensures
        r == (capacity * slot_bytes_spec() <= budget),
{
    let s = slot_bytes();
    match capacity.checked_mul(s) {
        Some(bytes) => bytes <= budget,
        None => false,
    }
}

/// The configured byte budget, raised to at least one slot.
pub fn effective_channel_budget(configured: u64) -> (b: u64)
    ensures
        b == (if configured >= slot_bytes_spec() { configured as int } else { slot_bytes_spec() as int }),
{
    let s = slot_bytes();
    if configured >= s { configured } else { s }
}

/// Size of element `i` of a concatenation: element `i` spans
/// `offsets[i]..offsets[i+1]` (the last one ends at `concat_len`), and a
/// backwards span counts as empty.
pub open spec fn element_size(offsets: Seq<usize>, concat_len: usize, i: int) -> int {
    let end: int = if i + 1 < offsets.len() { offsets[i + 1] as int } else { concat_len as int };
    if end >= offsets[i] { end - offsets[i] } else { 0 }
}

/// Index and size of the first element larger than `cap`, if any.
pub fn first_oversized_element(offsets: &[usize], concat_len: usize, cap: usize) -> (r: Option<(usize, usize)>)
    ensures
        r matches Some((i, size)) ==> {
            &&& i < offsets@.len()
            &&& size == element_size(offsets@, concat_len, i as int)
            &&& size > cap
            &&& forall|j: int| 0 <= j < i ==> element_size(offsets@, concat_len, j) <= cap
        },
        r is None ==> forall|j: int| 0 <= j < offsets@.len() ==> element_size(offsets@, concat_len, j) <= cap,
{
    let mut i: usize = 0;
    while i < offsets.len()
        invariant
            i <= offsets@.len(),
            forall|j: int| 0 <= j < i ==> element_size(offsets@, concat_len, j) <= cap,
        decreases offsets@.len() - i,
    {
        let start = offsets[i];
        let end = if i + 1 < offsets.len() { offsets[i + 1] } else { concat_len };
        let size = end.saturating_sub(start);
        if size > cap {
            return Some((i, size));
        }
        i = i + 1;
    }
    None
}

/// Message of the exception for a value of `len` bytes over the cap.
pub open spec fn value_too_large_message(method: Seq<char>, len: nat, cap: nat) -> Seq<char> {
    method + ": value of "@ + decimal(len) + " bytes exceeds the per-value cap of "@ + decimal(cap)
        + " bytes (SHARED_MAX_VALUE_SIZE)"@
}

/// Rejects a serialised value larger than `cap` bytes.
pub fn check_value_size(len: usize, cap: usize, method: &str) -> (r: Result<(), PhpError>)
    ensures
        r is Ok <==> len <= cap,
        r matches Err(e) ==> is_exception(e, "OxPHP\\Shared\\ValueTooLargeException"@,
            value_too_large_message(method@, len as nat, cap as nat)),
{
    if len > cap {
        let mut message = String::from_str(method);
        message.append(": value of ");
        push_decimal(&mut message, len as u64);
        message.append(" bytes exceeds the per-value cap of ");
        push_decimal(&mut message, cap as u64);
        message.append(" bytes (SHARED_MAX_VALUE_SIZE)");
        return Err(PhpError::Exception {
            class: String::from_str("OxPHP\\Shared\\ValueTooLargeException"),
            message,
            code: 0,
        });
    }
    Ok(())
}


/// The views of a sequence of payloads.
pub open spec fn payload_views(s: Seq<Payload>) -> Seq<PayloadView> {
    s.map_values(|p: Payload| p@)
}

/// What a parked fiber is woken with: a slot freed (retry the send), the
/// wait was cancelled, or the channel closed under a parked send.
#[derive(Clone, Copy, Debug, PartialEq, Eq, Structural)]
pub enum Wake {
    SlotFree,
    Cancelled,
    Closed,
}

/// Why a non-blocking send did not land; the payload comes back either way.
#[derive(Debug)]
pub enum TrySendErr {
    /// The buffer is full and the channel still open.
    Full(Payload),
    /// The channel was closed; no send is accepted any more.
    Closed(Payload),
}

/// Why a non-blocking receive found nothing: empty but still open.
#[derive(Debug, PartialEq, Eq, Structural)]
pub enum TryRecvErr {
    WouldBlockEmpty,
}

/// Every id pinned by the payloads of `q`, counted with multiplicity.
pub open spec fn keepalive_multiset(q: Seq<PayloadView>) -> Multiset<u64>
    decreases q.len(),
{
    if q.len() == 0 {
        Multiset::empty()
    } else {
        keepalive_multiset(q.drop_last()).add(q.last().1.to_multiset())
    }
}

proof fn lemma_keepalive_push(q: Seq<PayloadView>, x: PayloadView)
    ensures
        keepalive_multiset(q.push(x)) == keepalive_multiset(q).add(x.1.to_multiset()),
{
    assert(q.push(x).drop_last() =~= q);
}

proof fn lemma_keepalive_front(q: Seq<PayloadView>)
    requires
        q.len() > 0,
    ensures
        keepalive_multiset(q) == q[0].1.to_multiset().add(keepalive_multiset(q.drop_first())),
    decreases q.len(),
{
    broadcast use vstd::multiset::group_multiset_axioms;
    if q.len() == 1 {
        assert(q.drop_last() =~= Seq::<PayloadView>::empty());
        assert(q.drop_first() =~= Seq::<PayloadView>::empty());
        assert(keepalive_multiset(q) =~= q[0].1.to_multiset().add(keepalive_multiset(q.drop_first())));
    } else {
        lemma_keepalive_front(q.drop_last());
        assert(q.drop_last().drop_first() =~= q.drop_first().drop_last());
        assert(q.drop_first().last() == q.last());
        assert(keepalive_multiset(q) =~= q[0].1.to_multiset().add(keepalive_multiset(q.drop_first())));
    }
}

proof fn lemma_empty_to_multiset(s: Seq<u64>)
    requires
        s.len() == 0,
    ensures
        s.to_multiset() == Multiset::<u64>::empty(),
{
    broadcast use vstd::seq_lib::group_to_multiset_ensures;
    broadcast use vstd::multiset::group_multiset_axioms;
    assert forall|a: u64| s.to_multiset().count(a) == 0 by {
        assert(!s.contains(a));
    }
    assert(s.to_multiset() =~= Multiset::<u64>::empty());
}

/// A receiver callback that, when it cannot take a payload, hands the very
/// same payload back (so nothing is ever lost in a hand-off).
pub open spec fn delivers_whole<D: Fn(i64, Payload) -> Option<Payload>>(deliver: D) -> bool {
    &&& forall|id: i64, p: Payload| #[trigger] deliver.requires((id, p))
    &&& forall|id: i64, p: Payload, r: Option<Payload>|
        #[trigger] deliver.ensures((id, p), r) ==> (r matches Some(q) ==> q@ == p@)
}

/// Fiber `id` was offered a payload equal to `p` and handed it back: it had
/// gone and could not take it.
pub open spec fn declined<D: Fn(i64, Payload) -> Option<Payload>>(deliver: D, id: i64, p: PayloadView) -> bool {
    exists|q: Payload, b: Payload| q@ == p && #[trigger] deliver.ensures((id, q), Some(b))
}

/// Fiber `id` was offered a payload equal to `p` and took it.
pub open spec fn accepted<D: Fn(i64, Payload) -> Option<Payload>>(deliver: D, id: i64, p: PayloadView) -> bool {
    exists|q: Payload| q@ == p && #[trigger] deliver.ensures((id, q), None::<Payload>)
}

/// Every fiber of `ws` was offered `p` in turn and handed it back.
pub open spec fn all_declined<D: Fn(i64, Payload) -> Option<Payload>>(deliver: D, ws: Seq<i64>, p: PayloadView) -> bool {
    forall|j: int| 0 <= j < ws.len() ==> #[trigger] declined(deliver, ws[j], p)
}

/// `p` went to the parked receiver `ws[k - 1]`, after each receiver parked
/// ahead of it was offered `p` and handed it back.
pub open spec fn taken_at<D: Fn(i64, Payload) -> Option<Payload>>(deliver: D, ws: Seq<i64>, k: int, p: PayloadView) -> bool {
    &&& 1 <= k <= ws.len()
    &&& all_declined(deliver, ws.subrange(0, k - 1), p)
    &&& accepted(deliver, ws[k - 1], p)
}

proof fn lemma_declined_extend<D: Fn(i64, Payload) -> Option<Payload>>(deliver: D, ws: Seq<i64>, k: int, p: PayloadView)
    requires
        0 <= k < ws.len(),
        all_declined(deliver, ws.subrange(0, k), p),
        declined(deliver, ws[k], p),
    ensures
        all_declined(deliver, ws.subrange(0, k + 1), p),
{
    assert forall|j: int| 0 <= j < ws.subrange(0, k + 1).len() implies #[trigger] declined(deliver, ws.subrange(0, k + 1)[j], p) by {
        if j < k {
            assert(ws.subrange(0, k + 1)[j] == ws.subrange(0, k)[j]);
            assert(declined(deliver, ws.subrange(0, k)[j], p));
        } else {
            assert(ws.subrange(0, k + 1)[j] == ws[k]);
        }
    }
}

/// Fiber `id` was woken with `w` (whatever the callback answered).
pub open spec fn woken<N: Fn(i64, Wake) -> bool>(notify: N, id: i64, w: Wake) -> bool {
    exists|b: bool| #[trigger] notify.ensures((id, w), b)
}

/// The parked senders before `after` were taken off `before` from the
/// front, each woken to retry its send; at least one when any was parked.
pub open spec fn slot_freed_for<N: Fn(i64, Wake) -> bool>(notify: N, before: Seq<i64>, after: Seq<i64>) -> bool {
    exists|k: int| {
        &&& 0 <= k <= before.len()
        &&& (before.len() > 0 ==> k >= 1)
        &&& after == #[trigger] before.subrange(k, before.len() as int)
        &&& forall|i: int| 0 <= i < k ==> woken(notify, #[trigger] before[i], Wake::SlotFree)
    }
}

/// The parked fibers missing from `after` were taken off the front of
/// `before`, and each of them was woken with `w`: none left the list
/// without being woken.
pub open spec fn left_only_by_waking<N: Fn(i64, Wake) -> bool>(notify: N, before: Seq<i64>, after: Seq<i64>, w: Wake) -> bool {
    exists|k: int| {
        &&& 0 <= k <= before.len()
        &&& after == #[trigger] before.subrange(k, before.len() as int)
        &&& forall|i: int| 0 <= i < k ==> woken(notify, #[trigger] before[i], w)
    }
}

proof fn lemma_left_unchanged<N: Fn(i64, Wake) -> bool>(notify: N, s: Seq<i64>, w: Wake)
    ensures
        left_only_by_waking(notify, s, s, w),
{
    assert(s.subrange(0, s.len() as int) =~= s);
}

/// A wake-up callback that accepts every id and reason.
pub open spec fn wakes_any<N: Fn(i64, Wake) -> bool>(notify: N) -> bool {
    forall|id: i64, w: Wake| #[trigger] notify.requires((id, w))
}

/// Appends the pinned ids of a payload entering the channel.
fn index_add(in_flight: &mut Vec<u64>, keepalive: &Vec<u64>)
    ensures
        final(in_flight)@.to_multiset() == old(in_flight)@.to_multiset().add(keepalive@.to_multiset()),
{
    broadcast use vstd::seq_lib::group_to_multiset_ensures;
    let ghost orig = in_flight@;
    let mut i: usize = 0;
    while i < keepalive.len()
        invariant
            i <= keepalive@.len(),
            in_flight@ == orig + keepalive@.subrange(0, i as int),
        decreases keepalive@.len() - i,
    {
        in_flight.push(keepalive[i]);
        assert(keepalive@.subrange(0, i + 1) =~= keepalive@.subrange(0, i as int).push(keepalive@[i as int]));
        i = i + 1;
    }
    assert(keepalive@.subrange(0, i as int) =~= keepalive@);
    proof {
        vstd::seq_lib::lemma_multiset_commutative(orig, keepalive@);
    }
}

/// Removes one occurrence of each pinned id of a payload leaving the
/// channel.
fn index_remove(in_flight: &mut Vec<u64>, keepalive: &Vec<u64>)
    requires
        keepalive@.to_multiset().subset_of(old(in_flight)@.to_multiset()),
    ensures
        final(in_flight)@.to_multiset() == old(in_flight)@.to_multiset().sub(keepalive@.to_multiset()),
{
    broadcast use vstd::seq_lib::group_to_multiset_ensures;
    broadcast use vstd::multiset::group_multiset_axioms;
    let ghost orig = in_flight@.to_multiset();
    let mut i: usize = 0;
    while i < keepalive.len()
        invariant
            i <= keepalive@.len(),
            keepalive@.to_multiset().subset_of(orig),
            in_flight@.to_multiset().add(keepalive@.subrange(0, i as int).to_multiset()) == orig,
        decreases keepalive@.len() - i,
    {
        let v = keepalive[i];
        proof {
            let pre = keepalive@.subrange(0, i as int);
            let rest = keepalive@.subrange(i + 1, keepalive@.len() as int);
            assert(keepalive@ =~= pre.push(v) + rest);
            vstd::seq_lib::lemma_multiset_commutative(pre.push(v), rest);
            vstd::seq_lib::to_multiset_build(pre, v);
            assert(keepalive@.to_multiset().count(v) >= pre.to_multiset().count(v) + 1);
            assert(orig.count(v) >= keepalive@.to_multiset().count(v));
            assert(in_flight@.to_multiset().add(pre.to_multiset()).count(v) == orig.count(v));
            assert(in_flight@.to_multiset().count(v) > 0);
            vstd::seq_lib::to_multiset_contains(in_flight@, v);
        }
        let mut pos: usize = 0;
        while pos < in_flight.len() && in_flight[pos] != v
            invariant
                pos <= in_flight@.len(),
                forall|j: int| 0 <= j < pos ==> in_flight@[j] != v,
            decreases in_flight@.len() - pos,
        {
            pos = pos + 1;
        }
        proof {
            if pos == in_flight@.len() {
                let j = choose|j: int| 0 <= j < in_flight@.len() && in_flight@[j] == v;
                assert(in_flight@[j] == v);
            }
        }
        let ghost before = in_flight@;
        in_flight.remove(pos);
        proof {
            assert(before[pos as int] == v);
            let pre = keepalive@.subrange(0, i as int);
            assert(keepalive@.subrange(0, i + 1) =~= pre.push(v));
            vstd::seq_lib::to_multiset_build(pre, v);
            vstd::seq_lib::to_multiset_remove(before, pos as int);
            vstd::seq_lib::to_multiset_contains(before, v);
            assert(in_flight@ == before.remove(pos as int));
            assert(in_flight@.to_multiset().add(keepalive@.subrange(0, i + 1).to_multiset())
                =~= before.to_multiset().add(pre.to_multiset()));
        }
        i = i + 1;
    }
    assert(keepalive@.subrange(0, i as int) =~= keepalive@);
    assert(in_flight@.to_multiset() =~= orig.sub(keepalive@.to_multiset()));
}

/// A bounded multi-producer multi-consumer channel of payloads.
///
/// Payloads sit in a bounded first-in first-out buffer; one that bounced
/// off a receiver that had gone away is kept in a front stash and comes
/// out before anything still buffered. Fibers waiting to receive or to
/// send are parked by id and resolved through the callbacks handed to the
/// operations. The ids pinned by every payload still in the channel are
/// indexed so that reference walks can see them.
pub struct ChannelInner {
    buffer: SlotBuffer,
    capacity: usize,
    pending: usize,
    closed: bool,
    recv_waiters: Vec<i64>,
    send_waiters: Vec<i64>,
    recv_front: FrontStash,
    in_flight: Vec<u64>,
    senders_blocked: u32,
    receivers_blocked: u32,
    items_sent_total: u64,
    items_dropped_total: u64,
    self_id: Option<u64>,
}

impl ChannelInner {
    /// The re-deposited payloads, oldest first.
    pub closed spec fn stash(&self) -> Seq<PayloadView> {
        stash_items(self.recv_front)
    }

    /// The payloads in the bounded buffer, oldest first.
    pub closed spec fn buffered(&self) -> Seq<PayloadView> {
        slot_contents(self.buffer)
    }

    /// Everything the channel holds, in the order receivers get it.
    pub open spec fn queue(&self) -> Seq<PayloadView> {
        self.stash() + self.buffered()
    }

    pub closed spec fn cap(&self) -> nat {
        self.capacity as nat
    }

    pub closed spec fn is_closed_spec(&self) -> bool {
        self.closed
    }

    /// Ids of the fibers parked to receive, first parked first.
    pub closed spec fn recv_waiting(&self) -> Seq<i64> {
        self.recv_waiters@
    }

    /// Ids of the fibers parked to send, first parked first.
    pub closed spec fn send_waiting(&self) -> Seq<i64> {
        self.send_waiters@
    }

    /// The ids pinned by payloads in transit.
    pub closed spec fn in_flight_ids(&self) -> Seq<u64> {
        self.in_flight@
    }

    pub closed spec fn sent_total(&self) -> u64 {
        self.items_sent_total
    }

    pub closed spec fn dropped_total(&self) -> u64 {
        self.items_dropped_total
    }

    pub closed spec fn blocked_senders(&self) -> u32 {
        self.senders_blocked
    }

    pub closed spec fn blocked_receivers(&self) -> u32 {
        self.receivers_blocked
    }

    pub closed spec fn bound_id(&self) -> Option<u64> {
        self.self_id
    }

    /// Well-formedness: the buffer never holds more than the capacity, the
    /// front stash at most one payload, the pending count is the number of
    /// payloads held, and the index pins exactly the ids those payloads pin.
    pub closed spec fn wf(&self) -> bool {
        &&& 1 <= self.capacity <= MAX_SLOT_CAPACITY
        &&& slot_limit(self.buffer) == self.capacity
        &&& self.buffered().len() <= self.capacity
        &&& self.stash().len() <= 1
        &&& self.pending == self.queue().len()
        &&& self.in_flight@.to_multiset() == keepalive_multiset(self.queue())
    }

    /// A channel of `capacity` slots; zero is raised to one.
    pub fn new(capacity: usize) -> (ch: Self)
        requires
            capacity <= MAX_SLOT_CAPACITY,
        ensures
            ch.wf(),
            ch.queue() == Seq::<PayloadView>::empty(),
            ch.cap() == (if capacity == 0 { 1 } else { capacity as nat }),
            !ch.is_closed_spec(),
            ch.recv_waiting().len() == 0,
            ch.send_waiting().len() == 0,
            ch.in_flight_ids().len() == 0,
            ch.sent_total() == 0,
            ch.dropped_total() == 0,
            ch.blocked_senders() == 0,
            ch.blocked_receivers() == 0,
            ch.bound_id() is None,
    {
        let capacity = if capacity == 0 { 1 } else { capacity };
        let ch = ChannelInner {
            buffer: SlotBuffer::with_capacity(capacity),
            capacity,
            pending: 0,
            closed: false,
            recv_waiters: Vec::new(),
            send_waiters: Vec::new(),
            recv_front: FrontStash::new(),
            in_flight: Vec::new(),
            senders_blocked: 0,
            receivers_blocked: 0,
            items_sent_total: 0,
            items_dropped_total: 0,
            self_id: None,
        };
        proof {
            assert(ch.stash() =~= Seq::<PayloadView>::empty());
            assert(ch.queue() =~= Seq::<PayloadView>::empty());
            lemma_empty_to_multiset(ch.in_flight@);
        }
        ch
    }

    /// Records the registry id; only the first call has an effect.
    pub fn bind_id(&mut self, id: u64)
        ensures
            final(self).bound_id() == (if old(self).bound_id() is None { Some(id) } else { old(self).bound_id() }),
            final(self).queue() == old(self).queue(),
            final(self).wf() == old(self).wf(),
            final(self).cap() == old(self).cap(),
            final(self).is_closed_spec() == old(self).is_closed_spec(),
    {
        if self.self_id.is_none() {
            self.self_id = Some(id);
        }
    }

    pub fn self_id(&self) -> (r: Option<u64>)
        ensures
            r == self.bound_id(),
    {
        self.self_id
    }

    pub fn capacity(&self) -> (r: usize)
        ensures
            r == self.cap(),
    {
        self.capacity
    }

    /// Number of payloads the channel holds.
    pub fn pending(&self) -> (r: usize)
        requires
            self.wf(),
        ensures
            r == self.queue().len(),
    {
        self.pending
    }

    pub fn is_closed(&self) -> (r: bool)
        ensures
            r == self.is_closed_spec(),
    {
        self.closed
    }

    /// The in-transit payload for `bytes`. `roots` are the registry ids of
    /// the shared objects the value refers to (none when the bytes are not
    /// a serialised value), and `closes_cycle` the cycle walker's verdict
    /// on them; the walk only runs for a channel bound to its registry id.
    /// A value that would close a reference cycle back to this channel is
    /// refused; otherwise the payload pins every referenced object.
    pub fn build_payload(&self, bytes: Vec<u8>, roots: Vec<u64>, closes_cycle: bool) -> (r: Result<Payload, SharedError>)
        ensures
            (bytes@.len() == 0 || roots@.len() == 0) ==> (r matches Ok(p) && p.bytes@ == bytes@ && p.keepalive@.len() == 0),
            (bytes@.len() > 0 && roots@.len() > 0) ==> {
                &&& closes_cycle && self.bound_id() is Some ==> r == Err::<Payload, SharedError>(SharedError::Cycle)
                &&& !(closes_cycle && self.bound_id() is Some) ==> (r matches Ok(p) && p.bytes@ == bytes@ && p.keepalive@ == roots@)
            },
    {
        if bytes.len() == 0 || roots.len() == 0 {
            return Ok(Payload::bytes_only(bytes));
        }
        if closes_cycle && self.self_id.is_some() {
            return Err(SharedError::Cycle);
        }
        Ok(Payload { bytes, keepalive: roots })
    }
}


/// One more, wrapping at the top of the 32-bit range.
pub open spec fn inc_wrap32(a: u32) -> u32 {
    if a < u32::MAX { (a + 1) as u32 } else { 0 }
}

/// One less, wrapping at zero.
pub open spec fn dec_wrap32(a: u32) -> u32 {
    if a > 0 { (a - 1) as u32 } else { u32::MAX }
}

/// One more, wrapping at the top of the 64-bit range.
pub open spec fn inc_wrap64(a: u64) -> u64 {
    if a < u64::MAX { (a + 1) as u64 } else { 0 }
}

impl ChannelInner {
    /// Everything but the two waiter lists is the same.
    pub closed spec fn same_but_waiters(&self, other: &Self) -> bool {
        &&& self.buffer == other.buffer
        &&& self.capacity == other.capacity
        &&& self.pending == other.pending
        &&& self.closed == other.closed
        &&& self.recv_front == other.recv_front
        &&& self.in_flight == other.in_flight
        &&& self.senders_blocked == other.senders_blocked
        &&& self.receivers_blocked == other.receivers_blocked
        &&& self.items_sent_total == other.items_sent_total
        &&& self.items_dropped_total == other.items_dropped_total
        &&& self.self_id == other.self_id
    }

    /// The bookkeeping untouched by moving payloads and waiters.
    pub open spec fn same_settings(&self, other: &Self) -> bool {
        &&& self.cap() == other.cap()
        &&& self.is_closed_spec() == other.is_closed_spec()
        &&& self.blocked_senders() == other.blocked_senders()
        &&& self.blocked_receivers() == other.blocked_receivers()
        &&& self.dropped_total() == other.dropped_total()
        &&& self.bound_id() == other.bound_id()
    }

    proof fn lemma_same_but_waiters(&self, other: &Self)
        requires
            self.same_but_waiters(other),
        ensures
            self.queue() == other.queue(),
            self.wf() == other.wf(),
            self.same_settings(other),
            self.sent_total() == other.sent_total(),
            self.in_flight_ids() == other.in_flight_ids(),
    {
    }

    /// Takes the stashed payload, if there is one; the front of the queue.
    fn take_front_stash(&mut self) -> (r: Option<Payload>)
        requires
            old(self).wf(),
        ensures
            final(self).wf(),
            final(self).same_settings(old(self)),
            final(self).recv_waiters == old(self).recv_waiters,
            final(self).send_waiters == old(self).send_waiters,
            final(self).items_sent_total == old(self).items_sent_total,
            final(self).buffer == old(self).buffer,
            final(self).stash().len() == 0,
            r is None <==> old(self).stash().len() == 0,
            r is None ==> *final(self) == *old(self),
            r matches Some(p) ==> {
                &&& p@ == old(self).queue()[0]
                &&& final(self).queue() == old(self).queue().drop_first()
            },
    {
        if self.recv_front.len() == 0 {
            return None;
        }
        let ghost q = self.queue();
        let p = self.recv_front.remove_front();
        proof {
            assert(old(self).stash() =~= seq![p@]);
            assert(self.stash() =~= Seq::<PayloadView>::empty());
            assert(q[0] == p@);
            assert(self.queue() =~= q.drop_first());
            lemma_keepalive_front(q);
            broadcast use vstd::multiset::group_multiset_axioms;
            assert(p.keepalive@.to_multiset().subset_of(self.in_flight@.to_multiset()));
        }
        self.pending = self.pending - 1;
        index_remove(&mut self.in_flight, &p.keepalive);
        proof {
            broadcast use vstd::multiset::group_multiset_axioms;
            assert(self.in_flight@.to_multiset() =~= keepalive_multiset(self.queue()));
        }
        Some(p)
    }

    /// Takes the oldest buffered payload; the front of the queue, since the
    /// stash is empty.
    fn pop_buffer(&mut self) -> (r: Option<Payload>)
        requires
            old(self).wf(),
            old(self).stash().len() == 0,
        ensures
            final(self).wf(),
            final(self).same_settings(old(self)),
            final(self).recv_waiters == old(self).recv_waiters,
            final(self).send_waiters == old(self).send_waiters,
            final(self).items_sent_total == old(self).items_sent_total,
            final(self).stash().len() == 0,
            r is None <==> old(self).queue().len() == 0,
            r is None ==> final(self).queue() == old(self).queue(),
            r matches Some(p) ==> {
                &&& p@ == old(self).queue()[0]
                &&& final(self).queue() == old(self).queue().drop_first()
            },
    {
        let ghost q = self.queue();
        proof {
            assert(self.stash() =~= Seq::<PayloadView>::empty());
            assert(q =~= self.buffered());
        }
        match self.buffer.try_pop() {
            None => {
                proof {
                    assert(self.stash() =~= Seq::<PayloadView>::empty());
                    assert(self.queue() =~= q);
                }
                None
            },
            Some(p) => {
                proof {
                    assert(self.stash() =~= Seq::<PayloadView>::empty());
                    assert(self.queue() =~= q.drop_first());
                    lemma_keepalive_front(q);
                    broadcast use vstd::multiset::group_multiset_axioms;
                    assert(p.keepalive@.to_multiset().subset_of(self.in_flight@.to_multiset()));
                }
                self.pending = self.pending - 1;
                index_remove(&mut self.in_flight, &p.keepalive);
                proof {
                    broadcast use vstd::multiset::group_multiset_axioms;
                    assert(self.in_flight@.to_multiset() =~= keepalive_multiset(self.queue()));
                }
                Some(p)
            },
        }
    }

    /// Puts a payload back at the front of the queue, into the empty stash.
    fn push_front_stash(&mut self, p: Payload)
        requires
            old(self).wf(),
            old(self).stash().len() == 0,
        ensures
            final(self).wf(),
            final(self).same_settings(old(self)),
            final(self).recv_waiters == old(self).recv_waiters,
            final(self).send_waiters == old(self).send_waiters,
            final(self).items_sent_total == old(self).items_sent_total,
            final(self).buffer == old(self).buffer,
            final(self).queue() == seq![p@] + old(self).queue(),
    {
        let ghost q = self.queue();
        proof {
            assert(self.stash() =~= Seq::<PayloadView>::empty());
            assert(q =~= self.buffered());
        }
        index_add(&mut self.in_flight, &p.keepalive);
        self.recv_front.push(p);
        self.pending = self.pending + 1;
        proof {
            broadcast use vstd::multiset::group_multiset_axioms;
            assert(self.stash() =~= seq![p@]);
            assert(self.queue() =~= seq![p@] + q);
            lemma_keepalive_front(self.queue());
            assert(self.queue().drop_first() =~= q);
            assert(self.in_flight@.to_multiset() =~= keepalive_multiset(self.queue()));
        }
    }

    /// Appends a payload to the buffer when a slot is free; hands it back
    /// otherwise.
    fn push_buffer(&mut self, p: Payload) -> (r: Result<(), Payload>)
        requires
            old(self).wf(),
        ensures
            final(self).wf(),
            final(self).same_settings(old(self)),
            final(self).recv_waiters == old(self).recv_waiters,
            final(self).send_waiters == old(self).send_waiters,
            final(self).items_sent_total == old(self).items_sent_total,
            final(self).recv_front == old(self).recv_front,
            r is Ok <==> old(self).buffered().len() < old(self).cap(),
            r is Ok ==> final(self).queue() == old(self).queue().push(p@),
            r is Ok ==> final(self).buffered() == old(self).buffered().push(p@),
            r matches Err(q) ==> q@ == p@ && final(self).queue() == old(self).queue(),
            r is Err ==> final(self).buffered() == old(self).buffered(),
    {
        let ghost q = self.queue();
        let keepalive = p.keepalive.clone();
        proof {
            assert(keepalive@ =~= p.keepalive@);
        }
        match self.buffer.try_push(p) {
            Ok(()) => {
                index_add(&mut self.in_flight, &keepalive);
                self.pending = self.pending + 1;
                proof {
                    assert(self.queue() =~= q.push(p@));
                    lemma_keepalive_push(q, p@);
                }
                Ok(())
            },
            Err(back) => {
                proof {
                    assert(self.queue() =~= q);
                }
                Err(back)
            },
        }
    }

    /// Offers `payload` to the parked receivers, first parked first; a
    /// receiver that cannot take it hands it back and is dropped from the
    /// list. Gives the payload back when no parked receiver took it.
    fn drain_one_recv_waiter_with<D: Fn(i64, Payload) -> Option<Payload>>(&mut self, payload: Payload, deliver: &D) -> (r: Option<Payload>)
        requires
            delivers_whole(*deliver),
        ensures
            final(self).same_but_waiters(old(self)),
            final(self).send_waiters == old(self).send_waiters,
            r matches Some(q) ==> {
                &&& q@ == payload@
                &&& final(self).recv_waiters@.len() == 0
                &&& all_declined(*deliver, old(self).recv_waiters@, payload@)
            },
            r is None ==> exists|k: int| {
                &&& #[trigger] taken_at(*deliver, old(self).recv_waiters@, k, payload@)
                &&& final(self).recv_waiters@ == old(self).recv_waiters@.subrange(k, old(self).recv_waiters@.len() as int)
            },
    {
        let ghost orig = self.recv_waiters@;
        let ghost mut k: int = 0;
        let mut item = payload;
        loop
            invariant
                delivers_whole(*deliver),
                self.same_but_waiters(old(self)),
                self.send_waiters == old(self).send_waiters,
                orig == old(self).recv_waiters@,
                0 <= k <= orig.len(),
                self.recv_waiters@ == orig.subrange(k, orig.len() as int),
                item@ == payload@,
                all_declined(*deliver, orig.subrange(0, k), payload@),
            decreases self.recv_waiters@.len(),
        {
            if self.recv_waiters.len() == 0 {
                proof {
                    assert(orig.subrange(0, k) =~= orig);
                }
                return Some(item);
            }
            let id = self.recv_waiters.remove(0);
            proof {
                assert(id == orig[k]);
                k = k + 1;
                assert(self.recv_waiters@ =~= orig.subrange(k, orig.len() as int));
            }
            let ghost handed = item;
            match deliver(id, item) {
                None => {
                    proof {
                        assert(deliver.ensures((orig[k - 1], handed), None::<Payload>));
                        assert(accepted(*deliver, orig[k - 1], payload@));
                        assert(taken_at(*deliver, orig, k, payload@));
                    }
                    return None;
                },
                Some(back) => {
                    proof {
                        assert(deliver.ensures((orig[k - 1], handed), Some(back)));
                        assert(declined(*deliver, orig[k - 1], payload@));
                        lemma_declined_extend(*deliver, orig, k - 1, payload@);
                    }
                    item = back;
                },
            }
        }
    }

    /// Wakes the first parked sender that is still there to retry its send;
    /// the ones gone meanwhile are dropped from the list.
    fn drain_one_send_waiter_on_slot_free<N: Fn(i64, Wake) -> bool>(&mut self, notify: &N)
        requires
            wakes_any(*notify),
        ensures
            final(self).same_but_waiters(old(self)),
            final(self).recv_waiters == old(self).recv_waiters,
            exists|k: int| {
                &&& 0 <= k <= old(self).send_waiters@.len()
                &&& (old(self).send_waiters@.len() > 0 ==> k >= 1)
                &&& final(self).send_waiters@ == old(self).send_waiters@.subrange(k, old(self).send_waiters@.len() as int)
            },
            slot_freed_for(*notify, old(self).send_waiters@, final(self).send_waiters@),
    {
        let ghost orig = self.send_waiters@;
        let ghost mut k: int = 0;
        loop
            invariant
                wakes_any(*notify),
                self.same_but_waiters(old(self)),
                self.recv_waiters == old(self).recv_waiters,
                orig == old(self).send_waiters@,
                0 <= k <= orig.len(),
                orig.len() > 0 ==> k >= 1 || self.send_waiters@.len() > 0,
                self.send_waiters@ == orig.subrange(k, orig.len() as int),
                forall|i: int| 0 <= i < k ==> woken(*notify, #[trigger] orig[i], Wake::SlotFree),
            decreases self.send_waiters@.len(),
        {
            if self.send_waiters.len() == 0 {
                return;
            }
            let id = self.send_waiters.remove(0);
            proof {
                assert(id == orig[k]);
                k = k + 1;
                assert(self.send_waiters@ =~= orig.subrange(k, orig.len() as int));
            }
            let b = notify(id, Wake::SlotFree);
            proof {
                assert(notify.ensures((orig[k - 1], Wake::SlotFree), b));
            }
            if b {
                return;
            }
        }
    }
}


/// `a` is what is left of `b` once some first elements are taken off.
pub open spec fn is_suffix_of<T>(a: Seq<T>, b: Seq<T>) -> bool {
    exists|k: int| 0 <= k <= b.len() && a == #[trigger] b.subrange(k, b.len() as int)
}

proof fn lemma_suffix_refl<T>(s: Seq<T>)
    ensures
        is_suffix_of(s, s),
{
    assert(s.subrange(0, s.len() as int) =~= s);
}

/// The payloads `qs` left, in order, to the parked receivers `ws`, taken
/// from the front: `qs[i]` was offered to `ws[cuts[i]]`, `ws[cuts[i] + 1]`,
/// ... in turn and taken by `ws[cuts[i + 1] - 1]`, every receiver before
/// that one having handed it back.
pub open spec fn drained_in_order<D: Fn(i64, Payload) -> Option<Payload>>(
    deliver: D,
    qs: Seq<PayloadView>,
    ws: Seq<i64>,
    cuts: Seq<int>,
) -> bool {
    &&& cuts.len() == qs.len() + 1
    &&& cuts[0] == 0
    &&& forall|i: int| 0 <= i < qs.len() ==> cuts[i] < #[trigger] cuts[i + 1] <= ws.len()
    &&& forall|i: int| 0 <= i < qs.len() ==>
        #[trigger] taken_at(deliver, ws.subrange(cuts[i], ws.len() as int), cuts[i + 1] - cuts[i], qs[i])
}

/// Going from queue `q0` and parked receivers `w0` to `q1` and `w1`, the
/// first payloads of `q0` (and only those) left, each to a receiver as
/// `drained_in_order` says; the receivers left are those not yet offered
/// anything, or none when the last ones offered the next payload all handed
/// it back.
pub open spec fn drained_to_waiters<D: Fn(i64, Payload) -> Option<Payload>>(
    deliver: D,
    q0: Seq<PayloadView>,
    w0: Seq<i64>,
    q1: Seq<PayloadView>,
    w1: Seq<i64>,
) -> bool {
    exists|n: int, cuts: Seq<int>| {
        &&& 0 <= n <= q0.len()
        &&& q1 == q0.subrange(n, q0.len() as int)
        &&& #[trigger] drained_in_order(deliver, q0.subrange(0, n), w0, cuts)
        &&& 0 <= cuts[n] <= w0.len()
        &&& ({
            ||| w1 == w0.subrange(cuts[n], w0.len() as int)
            ||| {
                &&& n < q0.len()
                &&& w1.len() == 0
                &&& all_declined(deliver, w0.subrange(cuts[n], w0.len() as int), q0[n])
            }
        })
    }
}

proof fn lemma_drained_extend<D: Fn(i64, Payload) -> Option<Payload>>(
    deliver: D,
    qs: Seq<PayloadView>,
    ws: Seq<i64>,
    cuts: Seq<int>,
    p: PayloadView,
    k: int,
)
    requires
        drained_in_order(deliver, qs, ws, cuts),
        0 <= cuts[qs.len() as int] <= ws.len(),
        taken_at(deliver, ws.subrange(cuts[qs.len() as int], ws.len() as int), k, p),
    ensures
        drained_in_order(deliver, qs.push(p), ws, cuts.push(cuts[qs.len() as int] + k)),
        cuts.push(cuts[qs.len() as int] + k)[qs.len() as int + 1] <= ws.len(),
{
    let n = qs.len() as int;
    let c2 = cuts.push(cuts[n] + k);
    let q2 = qs.push(p);
    assert forall|i: int| 0 <= i < q2.len() implies c2[i] < #[trigger] c2[i + 1] <= ws.len() by {
        if i < n {
            assert(c2[i] == cuts[i] && c2[i + 1] == cuts[i + 1]);
            assert(cuts[i] < cuts[i + 1] <= ws.len());
        } else {
            assert(c2[i] == cuts[n] && c2[i + 1] == cuts[n] + k);
            assert(ws.subrange(cuts[n], ws.len() as int).len() == ws.len() - cuts[n]);
        }
    }
    assert forall|i: int| 0 <= i < q2.len() implies
        #[trigger] taken_at(deliver, ws.subrange(c2[i], ws.len() as int), c2[i + 1] - c2[i], q2[i]) by {
        if i < n {
            assert(c2[i] == cuts[i] && c2[i + 1] == cuts[i + 1] && q2[i] == qs[i]);
            assert(taken_at(deliver, ws.subrange(cuts[i], ws.len() as int), cuts[i + 1] - cuts[i], qs[i]));
        } else {
            assert(c2[i] == cuts[n] && c2[i + 1] == cuts[n] + k && q2[i] == p);
        }
    }
}

impl ChannelInner {
    /// Hands held payloads to parked receivers, oldest payload to the first
    /// parked receiver, for as long as both are there. A payload whose
    /// receiver turns out gone goes back to the front of the queue; only a
    /// payload that really left frees a slot for a parked sender.
    pub fn drain_buffered_to_waiters<D: Fn(i64, Payload) -> Option<Payload>, N: Fn(i64, Wake) -> bool>(
        &mut self,
        deliver: &D,
        notify: &N,
    )
        requires
            old(self).wf(),
            delivers_whole(*deliver),
            wakes_any(*notify),
        ensures
            final(self).wf(),
            final(self).same_settings(old(self)),
            final(self).sent_total() == old(self).sent_total(),
            exists|n: int| {
                &&& 0 <= n <= old(self).queue().len()
                &&& final(self).queue() == #[trigger] old(self).queue().subrange(n, old(self).queue().len() as int)
                &&& (n == 0 ==> final(self).send_waiting() == old(self).send_waiting())
            },
            drained_to_waiters(*deliver, old(self).queue(), old(self).recv_waiting(), final(self).queue(), final(self).recv_waiting()),
            is_suffix_of(final(self).recv_waiting(), old(self).recv_waiting()),
            is_suffix_of(final(self).send_waiting(), old(self).send_waiting()),
            left_only_by_waking(*notify, old(self).send_waiting(), final(self).send_waiting(), Wake::SlotFree),
            final(self).recv_waiting().len() == 0 || final(self).queue().len() == 0,
            old(self).recv_waiting().len() == 0 ==> *final(self) == *old(self),
            old(self).queue().len() == 0 ==> {
                &&& final(self).queue() == old(self).queue()
                &&& final(self).send_waiting() == old(self).send_waiting()
                &&& final(self).recv_waiting() == old(self).recv_waiting()
            },
    {
        let ghost oq = self.queue();
        let ghost orr = self.recv_waiters@;
        let ghost os = self.send_waiters@;
        let ghost mut n: int = 0;
        let ghost mut kr: int = 0;
        let ghost mut ks: int = 0;
        let ghost mut cuts: Seq<int> = seq![0int];
        proof {
            assert(oq.subrange(0, 0) =~= Seq::<PayloadView>::empty());
            assert(orr.subrange(0, orr.len() as int) =~= orr);
        }
        loop
            invariant
                delivers_whole(*deliver),
                wakes_any(*notify),
                drained_in_order(*deliver, oq.subrange(0, n), orr, cuts),
                0 <= cuts[n] <= orr.len(),
                kr == cuts[n] || (kr == orr.len() && n < oq.len()
                    && all_declined(*deliver, orr.subrange(cuts[n], orr.len() as int), oq[n])),
                self.wf(),
                self.same_settings(old(self)),
                self.items_sent_total == old(self).items_sent_total,
                oq == old(self).queue(),
                orr == old(self).recv_waiters@,
                os == old(self).send_waiters@,
                0 <= n <= oq.len(),
                self.queue() == oq.subrange(n, oq.len() as int),
                0 <= kr <= orr.len(),
                self.recv_waiters@ == orr.subrange(kr, orr.len() as int),
                0 <= ks <= os.len(),
                self.send_waiters@ == os.subrange(ks, os.len() as int),
                forall|i: int| 0 <= i < ks ==> woken(*notify, #[trigger] os[i], Wake::SlotFree),
                n == 0 ==> ks == 0,
                n > 0 ==> orr.len() > 0,
                oq.len() == 0 ==> kr == 0,
                orr.len() == 0 ==> *self == *old(self),
            decreases self.recv_waiters@.len(),
        {
            if self.recv_waiters.len() == 0 {
                proof {
                    assert(orr.subrange(0, orr.len() as int) =~= orr);
                    assert(os.subrange(0, os.len() as int) =~= os);
                    assert(oq.subrange(0, oq.len() as int) =~= oq);
                    assert(old(self).recv_waiting() == orr);
                    assert(drained_in_order(*deliver, old(self).queue().subrange(0, n), old(self).recv_waiting(), cuts));
                }
                return;
            }
            let item = match self.take_front_stash() {
                Some(p) => p,
                None => match self.pop_buffer() {
                    Some(p) => p,
                    None => {
                        proof {
                            assert(orr.subrange(0, orr.len() as int) =~= orr);
                            assert(os.subrange(0, os.len() as int) =~= os);
                            assert(oq.subrange(0, oq.len() as int) =~= oq);
                            assert(old(self).recv_waiting() == orr);
                            assert(drained_in_order(*deliver, old(self).queue().subrange(0, n), old(self).recv_waiting(), cuts));
                        }
                        return;
                    },
                },
            };
            proof {
                assert(item@ == oq[n]);
                assert(self.queue() =~= oq.subrange(n + 1, oq.len() as int));
            }
            let ghost before = *self;
            match self.drain_one_recv_waiter_with(item, deliver) {
                None => {
                    proof {
                        self.lemma_same_but_waiters(&before);
                        let k = choose|k: int| {
                            &&& #[trigger] taken_at(*deliver, before.recv_waiters@, k, item@)
                            &&& self.recv_waiters@ == before.recv_waiters@.subrange(k, before.recv_waiters@.len() as int)
                        };
                        assert(kr == cuts[n]);
                        lemma_drained_extend(*deliver, oq.subrange(0, n), orr, cuts, item@, k);
                        assert(oq.subrange(0, n).push(item@) =~= oq.subrange(0, n + 1));
                        cuts = cuts.push(cuts[n] + k);
                        kr = kr + k;
                        assert(self.recv_waiters@ =~= orr.subrange(kr, orr.len() as int));
                        n = n + 1;
                        assert(kr == cuts[n]);
                    }
                    let ghost mid = *self;
                    self.drain_one_send_waiter_on_slot_free(notify);
                    proof {
                        self.lemma_same_but_waiters(&mid);
                        assert(mid.send_waiting() == mid.send_waiters@);
                        assert(self.send_waiting() == self.send_waiters@);
                        let k = choose|k: int| {
                            &&& 0 <= k <= mid.send_waiters@.len()
                            &&& (mid.send_waiters@.len() > 0 ==> k >= 1)
                            &&& self.send_waiters@ == #[trigger] mid.send_waiters@.subrange(k, mid.send_waiters@.len() as int)
                            &&& forall|i: int| 0 <= i < k ==> woken(*notify, #[trigger] mid.send_waiters@[i], Wake::SlotFree)
                        };
                        assert forall|i: int| 0 <= i < ks + k implies woken(*notify, #[trigger] os[i], Wake::SlotFree) by {
                            if i >= ks {
                                assert(mid.send_waiters@[i - ks] == os[i]);
                            }
                        }
                        ks = ks + k;
                        assert(self.send_waiters@ =~= os.subrange(ks, os.len() as int));
                    }
                },
                Some(back) => {
                    proof {
                        self.lemma_same_but_waiters(&before);
                        assert(kr == cuts[n]);
                        assert(before.recv_waiters@ == orr.subrange(cuts[n], orr.len() as int));
                        kr = orr.len() as int;
                        assert(self.recv_waiters@ =~= orr.subrange(kr, orr.len() as int));
                    }
                    self.push_front_stash(back);
                    proof {
                        assert(self.queue() =~= oq.subrange(n, oq.len() as int));
                    }
                },
            }
        }
    }

    /// Takes the stashed payload and, when there was one, wakes a parked
    /// sender: the payload is leaving, so a slot really frees up.
    fn pop_front_stash<N: Fn(i64, Wake) -> bool>(&mut self, notify: &N) -> (r: Option<Payload>)
        requires
            old(self).wf(),
            wakes_any(*notify),
        ensures
            final(self).wf(),
            final(self).same_settings(old(self)),
            final(self).items_sent_total == old(self).items_sent_total,
            final(self).recv_waiters == old(self).recv_waiters,
            final(self).stash().len() == 0,
            r is None <==> old(self).stash().len() == 0,
            r is None ==> *final(self) == *old(self),
            r matches Some(p) ==> {
                &&& p@ == old(self).queue()[0]
                &&& final(self).queue() == old(self).queue().drop_first()
                &&& is_suffix_of(final(self).send_waiting(), old(self).send_waiting())
                &&& (old(self).send_waiting().len() > 0 ==> final(self).send_waiting().len() < old(self).send_waiting().len())
                &&& slot_freed_for(*notify, old(self).send_waiting(), final(self).send_waiting())
            },
    {
        let r = self.take_front_stash();
        if r.is_some() {
            let ghost mid = *self;
            self.drain_one_send_waiter_on_slot_free(notify);
            proof {
                self.lemma_same_but_waiters(&mid);
            }
        }
        r
    }

    /// Non-blocking send. A parked receiver takes the payload before the
    /// buffer does; otherwise it joins the back of the queue when a slot is
    /// free. A full or closed channel hands the payload back.
    pub fn try_send<D: Fn(i64, Payload) -> Option<Payload>, N: Fn(i64, Wake) -> bool>(
        &mut self,
        payload: Payload,
        deliver: &D,
        notify: &N,
    ) -> (r: Result<(), TrySendErr>)
        requires
            old(self).wf(),
            delivers_whole(*deliver),
            wakes_any(*notify),
        ensures
            final(self).wf(),
            final(self).same_settings(old(self)),
            final(self).send_waiting() == old(self).send_waiting(),
            r is Err ==> final(self).buffered() == old(self).buffered(),
            old(self).is_closed_spec() ==> {
                &&& (r matches Err(TrySendErr::Closed(q)) && q@ == payload@)
                &&& final(self).queue() == old(self).queue()
                &&& final(self).recv_waiting() == old(self).recv_waiting()
                &&& final(self).sent_total() == old(self).sent_total()
            },
            !old(self).is_closed_spec() ==> {
                &&& !(r matches Err(TrySendErr::Closed(_)))
                &&& r is Ok ==> final(self).sent_total() == inc_wrap64(old(self).sent_total())
                &&& r is Ok ==> ({
                    ||| handed_to_waiter(*old(self), *final(self), *deliver, payload@)
                    ||| {
                        &&& old(self).buffered().len() < old(self).cap()
                        &&& final(self).queue() == old(self).queue().push(payload@)
                        &&& final(self).buffered() == old(self).buffered().push(payload@)
                        &&& final(self).recv_waiting().len() == 0
                        &&& all_declined(*deliver, old(self).recv_waiting(), payload@)
                    }
                })
                &&& (r matches Err(TrySendErr::Full(q)) ==> {
                    &&& q@ == payload@
                    &&& old(self).buffered().len() == old(self).cap()
                    &&& final(self).queue() == old(self).queue()
                    &&& final(self).buffered() == old(self).buffered()
                    &&& final(self).recv_waiting().len() == 0
                    &&& all_declined(*deliver, old(self).recv_waiting(), payload@)
                    &&& final(self).sent_total() == old(self).sent_total()
                })
                &&& old(self).recv_waiting().len() == 0 ==> (r is Ok <==> old(self).buffered().len() < old(self).cap())
            },
    {
        if self.closed {
            return Err(TrySendErr::Closed(payload));
        }
        let ghost before = *self;
        let payload = match self.drain_one_recv_waiter_with(payload, deliver) {
            None => {
                proof {
                    self.lemma_same_but_waiters(&before);
                }
                self.items_sent_total = if self.items_sent_total < u64::MAX { self.items_sent_total + 1 } else { 0 };
                proof {
                    let k = choose|k: int| {
                        &&& #[trigger] taken_at(*deliver, before.recv_waiters@, k, payload@)
                        &&& self.recv_waiters@ == before.recv_waiters@.subrange(k, before.recv_waiters@.len() as int)
                    };
                    assert(self.queue() == before.queue());
                    assert(before.recv_waiting() == before.recv_waiters@);
                    assert(self.recv_waiting() == self.recv_waiters@);
                    assert(taken_at(*deliver, before.recv_waiting(), k, payload@));
                    assert(handed_to_waiter(before, *self, *deliver, payload@));
                }
                return Ok(());
            },
            Some(p) => p,
        };
        proof {
            self.lemma_same_but_waiters(&before);
            assert(before.recv_waiting() == before.recv_waiters@);
        }
        match self.push_buffer(payload) {
            Ok(()) => {
                self.items_sent_total = if self.items_sent_total < u64::MAX { self.items_sent_total + 1 } else { 0 };
                self.drain_buffered_to_waiters(deliver, notify);
                Ok(())
            },
            Err(p) => Err(TrySendErr::Full(p)),
        }
    }

    /// Non-blocking receive: the front of the queue, if any. A payload that
    /// leaves wakes a parked sender. Empty and closed is the end of the
    /// stream; empty and open asks the caller to come back.
    pub fn try_recv<N: Fn(i64, Wake) -> bool>(&mut self, notify: &N) -> (r: Result<Option<Payload>, TryRecvErr>)
        requires
            old(self).wf(),
            wakes_any(*notify),
        ensures
            final(self).wf(),
            final(self).same_settings(old(self)),
            final(self).recv_waiting() == old(self).recv_waiting(),
            final(self).sent_total() == old(self).sent_total(),
            old(self).queue().len() > 0 ==> {
                &&& (r matches Ok(Some(p)) && p@ == old(self).queue()[0])
                &&& final(self).queue() == old(self).queue().drop_first()
                &&& is_suffix_of(final(self).send_waiting(), old(self).send_waiting())
                &&& (old(self).send_waiting().len() > 0 ==> final(self).send_waiting().len() < old(self).send_waiting().len())
                &&& slot_freed_for(*notify, old(self).send_waiting(), final(self).send_waiting())
            },
            old(self).queue().len() == 0 ==> {
                &&& final(self).queue() == old(self).queue()
                &&& final(self).send_waiting() == old(self).send_waiting()
                &&& old(self).is_closed_spec() ==> (r matches Ok(None))
                &&& !old(self).is_closed_spec() ==> (r matches Err(TryRecvErr::WouldBlockEmpty))
            },
    {
        if let Some(p) = self.pop_front_stash(notify) {
            return Ok(Some(p));
        }
        match self.pop_buffer() {
            Some(p) => {
                let ghost mid = *self;
                self.drain_one_send_waiter_on_slot_free(notify);
                proof {
                    self.lemma_same_but_waiters(&mid);
                }
                Ok(Some(p))
            },
            None => {
                if self.closed {
                    Ok(None)
                } else {
                    Err(TryRecvErr::WouldBlockEmpty)
                }
            },
        }
    }
}

/// The payload went to a parked receiver: the queue is untouched; each
/// receiver parked ahead of the one that took it was offered it first and
/// handed it back (it had gone), and those are off the list together with
/// the one that took it.
pub open spec fn handed_to_waiter<D: Fn(i64, Payload) -> Option<Payload>>(
    before: ChannelInner,
    after: ChannelInner,
    deliver: D,
    p: PayloadView,
) -> bool {
    &&& after.queue() == before.queue()
    &&& exists|k: int| {
        &&& #[trigger] taken_at(deliver, before.recv_waiting(), k, p)
        &&& after.recv_waiting() == before.recv_waiting().subrange(k, before.recv_waiting().len() as int)
    }
}


/// How long a blocking operation may wait: indefinitely, not at all, or up
/// to a number of nanoseconds.
#[derive(Clone, Copy, Debug, PartialEq, Eq, Structural)]
pub enum Wait {
    Forever,
    Try,
    Bounded(u64),
}

/// The wait for the next item of a blocking batch: unbounded when the
/// batch has no deadline; otherwise what is left of the deadline, or `None`
/// (the batch stops there) once it has passed.
pub fn batch_item_wait(now: u64, deadline: Option<u64>) -> (r: Option<Wait>)
    ensures
        deadline is None ==> r == Some(Wait::Forever),
        deadline is Some && now >= deadline->0 ==> r is None,
        deadline is Some && now < deadline->0 ==> r == Some(Wait::Bounded((deadline->0 - now) as u64)),
{
    match deadline {
        None => Some(Wait::Forever),
        Some(d) => {
            if now >= d {
                None
            } else {
                Some(Wait::Bounded(d - now))
            }
        },
    }
}

/// The wait a wire timeout stands for: a negative timeout waits forever,
/// zero does not wait, and a positive one waits that many milliseconds
/// (saturating at the largest representable nanosecond count).
pub fn wait_from_timeout_ms(timeout_ms: i64) -> (w: Wait)
    ensures
        timeout_ms < 0 ==> w == Wait::Forever,
        timeout_ms == 0 ==> w == Wait::Try,
        timeout_ms > 0 ==> w == Wait::Bounded(
            if timeout_ms * 1_000_000 <= u64::MAX { (timeout_ms * 1_000_000) as u64 } else { u64::MAX },
        ),
{
    if timeout_ms < 0 {
        Wait::Forever
    } else if timeout_ms == 0 {
        Wait::Try
    } else {
        let ms = timeout_ms as u64;
        match ms.checked_mul(1_000_000) {
            Some(ns) => Wait::Bounded(ns),
            None => Wait::Bounded(u64::MAX),
        }
    }
}

/// Where a blocking send stands.
#[derive(Debug)]
pub enum SendOutcome {
    /// The payload landed (with a receiver or in the queue).
    Sent,
    /// The channel is closed; the payload was not taken.
    Closed,
    /// The wait ran out before a slot freed.
    Timeout,
    /// No slot yet: the caller waits and retries with the payload.
    Blocked(Payload),
}

/// Where a blocking receive stands.
#[derive(Debug)]
pub enum RecvOutcome {
    /// The front payload of the queue.
    Received(Payload),
    /// Closed and empty: the end of the stream.
    Drained,
    /// The wait ran out before a payload arrived.
    Timeout,
    /// Nothing yet: the caller waits and retries.
    Blocked,
}

/// A deadline has passed at `now` (both in nanoseconds on one clock).
pub open spec fn deadline_passed(now: u64, deadline: Option<u64>) -> bool {
    deadline matches Some(d) && now >= d
}

/// Wakes every id of `ids`, in order, with `w`.
fn wake_each<N: Fn(i64, Wake) -> bool>(ids: &Vec<i64>, w: Wake, notify: &N)
    requires
        wakes_any(*notify),
    ensures
        forall|j: int| 0 <= j < ids@.len() ==> woken(*notify, #[trigger] ids@[j], w),
{
    let mut i: usize = 0;
    while i < ids.len()
        invariant
            wakes_any(*notify),
            i <= ids@.len(),
            forall|j: int| 0 <= j < i ==> woken(*notify, #[trigger] ids@[j], w),
        decreases ids@.len() - i,
    {
        let b = notify(ids[i], w);
        proof {
            assert(notify.ensures((ids@[i as int], w), b));
        }
        i = i + 1;
    }
}

impl ChannelInner {
    /// Resolves every parked receiver as cancelled and empties the list.
    fn cancel_all_recv_waiters<N: Fn(i64, Wake) -> bool>(&mut self, notify: &N)
        requires
            wakes_any(*notify),
        ensures
            final(self).same_but_waiters(old(self)),
            final(self).send_waiters == old(self).send_waiters,
            final(self).recv_waiters@.len() == 0,
            forall|i: int| 0 <= i < old(self).recv_waiters@.len() ==> woken(*notify, #[trigger] old(self).recv_waiters@[i], Wake::Cancelled),
    {
        let mut drained: Vec<i64> = Vec::new();
        std::mem::swap(&mut drained, &mut self.recv_waiters);
        wake_each(&drained, Wake::Cancelled, notify);
    }

    /// Resolves every parked sender with "closed" and empties the list.
    fn cancel_all_send_waiters_with_closed<N: Fn(i64, Wake) -> bool>(&mut self, notify: &N)
        requires
            wakes_any(*notify),
        ensures
            final(self).same_but_waiters(old(self)),
            final(self).recv_waiters == old(self).recv_waiters,
            final(self).send_waiters@.len() == 0,
            forall|i: int| 0 <= i < old(self).send_waiters@.len() ==> woken(*notify, #[trigger] old(self).send_waiters@[i], Wake::Closed),
    {
        let mut drained: Vec<i64> = Vec::new();
        std::mem::swap(&mut drained, &mut self.send_waiters);
        wake_each(&drained, Wake::Closed, notify);
    }

    /// Closes the channel. True only for the call that closed it; that call
    /// cancels every parked receiver and tells every parked sender the
    /// channel closed. What is queued stays receivable.
    pub fn close<N: Fn(i64, Wake) -> bool>(&mut self, notify: &N) -> (r: bool)
        requires
            old(self).wf(),
            wakes_any(*notify),
        ensures
            final(self).wf(),
            r == !old(self).is_closed_spec(),
            final(self).is_closed_spec(),
            final(self).queue() == old(self).queue(),
            final(self).cap() == old(self).cap(),
            final(self).sent_total() == old(self).sent_total(),
            final(self).bound_id() == old(self).bound_id(),
            final(self).blocked_senders() == old(self).blocked_senders(),
            final(self).blocked_receivers() == old(self).blocked_receivers(),
            final(self).in_flight_ids() == old(self).in_flight_ids(),
            r ==> final(self).recv_waiting().len() == 0 && final(self).send_waiting().len() == 0,
            r ==> forall|i: int| 0 <= i < old(self).recv_waiting().len() ==> woken(*notify, #[trigger] old(self).recv_waiting()[i], Wake::Cancelled),
            r ==> forall|i: int| 0 <= i < old(self).send_waiting().len() ==> woken(*notify, #[trigger] old(self).send_waiting()[i], Wake::Closed),
            !r ==> final(self).recv_waiting() == old(self).recv_waiting() && final(self).send_waiting() == old(self).send_waiting(),
    {
        let ghost rw = self.recv_waiters@;
        let was_open = !self.closed;
        self.closed = true;
        if was_open {
            let ghost pre = *self;
            proof {
                assert(pre.recv_waiters@ == rw);
            }
            self.cancel_all_recv_waiters(notify);
            proof {
                assert forall|i: int| 0 <= i < rw.len() implies woken(*notify, #[trigger] rw[i], Wake::Cancelled) by {
                    assert(pre.recv_waiters@[i] == rw[i]);
                }
            }
            self.cancel_all_send_waiters_with_closed(notify);
            proof {
                assert(old(self).recv_waiting() == rw);
            }
        }
        was_open
    }

    /// Parks a receiver. On a closed and empty channel nothing will ever
    /// arrive, so it is cancelled at once; otherwise it joins the list and
    /// anything already held is handed out to the parked receivers.
    pub fn register_recv_waiter<D: Fn(i64, Payload) -> Option<Payload>, N: Fn(i64, Wake) -> bool>(
        &mut self,
        promise_id: i64,
        deliver: &D,
        notify: &N,
    )
        requires
            old(self).wf(),
            delivers_whole(*deliver),
            wakes_any(*notify),
        ensures
            final(self).wf(),
            final(self).same_settings(old(self)),
            final(self).sent_total() == old(self).sent_total(),
            old(self).is_closed_spec() && old(self).queue().len() == 0 ==> {
                &&& final(self).queue() == old(self).queue()
                &&& final(self).recv_waiting() == old(self).recv_waiting()
                &&& final(self).send_waiting() == old(self).send_waiting()
                &&& woken(*notify, promise_id, Wake::Cancelled)
            },
            !(old(self).is_closed_spec() && old(self).queue().len() == 0) ==> {
                &&& exists|n: int| 0 <= n <= old(self).queue().len()
                    && final(self).queue() == #[trigger] old(self).queue().subrange(n, old(self).queue().len() as int)
                &&& is_suffix_of(final(self).recv_waiting(), old(self).recv_waiting().push(promise_id))
                &&& drained_to_waiters(*deliver, old(self).queue(), old(self).recv_waiting().push(promise_id),
                        final(self).queue(), final(self).recv_waiting())
                &&& is_suffix_of(final(self).send_waiting(), old(self).send_waiting())
                &&& left_only_by_waking(*notify, old(self).send_waiting(), final(self).send_waiting(), Wake::SlotFree)
                &&& final(self).recv_waiting().len() == 0 || final(self).queue().len() == 0
                &&& old(self).queue().len() == 0 ==> {
                    &&& final(self).queue() == old(self).queue()
                    &&& final(self).recv_waiting() == old(self).recv_waiting().push(promise_id)
                    &&& final(self).send_waiting() == old(self).send_waiting()
                }
            },
    {
        if self.closed && self.pending == 0 {
            let b = notify(promise_id, Wake::Cancelled);
            proof {
                assert(notify.ensures((promise_id, Wake::Cancelled), b));
            }
            return;
        }
        self.recv_waiters.push(promise_id);
        self.drain_buffered_to_waiters(deliver, notify);
    }

    /// Parks a sender waiting for a slot; on a closed channel it is told at
    /// once that the channel closed.
    pub fn register_send_waiter<N: Fn(i64, Wake) -> bool>(&mut self, promise_id: i64, notify: &N)
        requires
            old(self).wf(),
            wakes_any(*notify),
        ensures
            final(self).wf(),
            final(self).same_settings(old(self)),
            final(self).sent_total() == old(self).sent_total(),
            final(self).queue() == old(self).queue(),
            final(self).recv_waiting() == old(self).recv_waiting(),
            final(self).send_waiting() == (if old(self).is_closed_spec() {
                old(self).send_waiting()
            } else {
                old(self).send_waiting().push(promise_id)
            }),
            old(self).is_closed_spec() ==> woken(*notify, promise_id, Wake::Closed),
    {
        if self.closed {
            let b = notify(promise_id, Wake::Closed);
            proof {
                assert(notify.ensures((promise_id, Wake::Closed), b));
            }
            return;
        }
        self.send_waiters.push(promise_id);
    }

    /// First attempt of a blocking send: a non-blocking send, and on a full
    /// channel either a timeout (when not allowed to wait) or the payload
    /// back for the caller to wait with.
    pub fn send_blocking<D: Fn(i64, Payload) -> Option<Payload>, N: Fn(i64, Wake) -> bool>(
        &mut self,
        payload: Payload,
        wait: Wait,
        deliver: &D,
        notify: &N,
    ) -> (r: SendOutcome)
        requires
            old(self).wf(),
            delivers_whole(*deliver),
            wakes_any(*notify),
        ensures
            final(self).wf(),
            final(self).same_settings(old(self)),
            final(self).send_waiting() == old(self).send_waiting(),
            old(self).is_closed_spec() <==> r is Closed,
            old(self).is_closed_spec() ==> final(self).queue() == old(self).queue(),
            !old(self).is_closed_spec() && old(self).recv_waiting().len() == 0 ==> {
                &&& (r is Sent <==> old(self).buffered().len() < old(self).cap())
                &&& r is Sent ==> final(self).queue() == old(self).queue().push(payload@)
            },
            r is Sent ==> final(self).sent_total() == inc_wrap64(old(self).sent_total()),
            r is Timeout || r is Blocked ==> {
                &&& old(self).buffered().len() == old(self).cap()
                &&& final(self).queue() == old(self).queue()
                &&& final(self).recv_waiting().len() == 0
                &&& final(self).sent_total() == old(self).sent_total()
            },
            r is Timeout <==> (!old(self).is_closed_spec() && wait == Wait::Try && !(r is Sent)),
            r matches SendOutcome::Blocked(q) ==> q@ == payload@,
    {
        match self.try_send(payload, deliver, notify) {
            Ok(()) => SendOutcome::Sent,
            Err(TrySendErr::Closed(_)) => SendOutcome::Closed,
            Err(TrySendErr::Full(p)) => {
                if wait == Wait::Try {
                    SendOutcome::Timeout
                } else {
                    SendOutcome::Blocked(p)
                }
            },
        }
    }

    /// A retry of a blocked send at time `now`: closed first, then the
    /// deadline, then a deposit into the buffer if a slot freed.
    pub fn send_blocking_retry<D: Fn(i64, Payload) -> Option<Payload>, N: Fn(i64, Wake) -> bool>(
        &mut self,
        payload: Payload,
        now: u64,
        deadline: Option<u64>,
        deliver: &D,
        notify: &N,
    ) -> (r: SendOutcome)
        requires
            old(self).wf(),
            delivers_whole(*deliver),
            wakes_any(*notify),
        ensures
            final(self).wf(),
            final(self).same_settings(old(self)),
            old(self).is_closed_spec() ==> r is Closed && final(self).queue() == old(self).queue(),
            !old(self).is_closed_spec() && deadline_passed(now, deadline) ==> r is Timeout && final(self).queue() == old(self).queue(),
            !old(self).is_closed_spec() && !deadline_passed(now, deadline) ==> {
                &&& (r is Sent <==> old(self).buffered().len() < old(self).cap())
                &&& r is Sent ==> {
                    &&& final(self).sent_total() == inc_wrap64(old(self).sent_total())
                    &&& exists|n: int| 0 <= n <= old(self).queue().len() + 1
                        && final(self).queue() == #[trigger] old(self).queue().push(payload@).subrange(n, old(self).queue().len() + 1int)
                    &&& drained_to_waiters(*deliver, old(self).queue().push(payload@), old(self).recv_waiting(),
                            final(self).queue(), final(self).recv_waiting())
                }
                &&& r matches SendOutcome::Blocked(q) ==> q@ == payload@ && final(self).queue() == old(self).queue()
                &&& !(r is Closed) && !(r is Timeout)
            },
            !(r is Sent) ==> final(self).recv_waiting() == old(self).recv_waiting()
                && final(self).send_waiting() == old(self).send_waiting(),
            left_only_by_waking(*notify, old(self).send_waiting(), final(self).send_waiting(), Wake::SlotFree),
    {
        proof {
            lemma_left_unchanged(*notify, self.send_waiting(), Wake::SlotFree);
        }
        if self.closed {
            return SendOutcome::Closed;
        }
        match deadline {
            Some(d) => {
                if now >= d {
                    return SendOutcome::Timeout;
                }
            },
            None => {},
        }
        match self.push_buffer(payload) {
            Ok(()) => {
                self.items_sent_total = if self.items_sent_total < u64::MAX { self.items_sent_total + 1 } else { 0 };
                self.drain_buffered_to_waiters(deliver, notify);
                SendOutcome::Sent
            },
            Err(p) => SendOutcome::Blocked(p),
        }
    }

    /// First attempt of a blocking receive: the front payload when there is
    /// one, the end of the stream when closed and empty, and otherwise a
    /// timeout (when not allowed to wait) or a request to wait.
    pub fn recv_blocking<N: Fn(i64, Wake) -> bool>(&mut self, wait: Wait, notify: &N) -> (r: RecvOutcome)
        requires
            old(self).wf(),
            wakes_any(*notify),
        ensures
            final(self).wf(),
            final(self).same_settings(old(self)),
            final(self).recv_waiting() == old(self).recv_waiting(),
            final(self).sent_total() == old(self).sent_total(),
            is_suffix_of(final(self).send_waiting(), old(self).send_waiting()),
            old(self).stash().len() > 0 ==> slot_freed_for(*notify, old(self).send_waiting(), final(self).send_waiting()),
            old(self).stash().len() == 0 ==> final(self).send_waiting() == old(self).send_waiting(),
            old(self).queue().len() > 0 ==> {
                &&& (r matches RecvOutcome::Received(p) && p@ == old(self).queue()[0])
                &&& final(self).queue() == old(self).queue().drop_first()
            },
            old(self).queue().len() == 0 ==> {
                &&& final(self).queue() == old(self).queue()
                &&& final(self).send_waiting() == old(self).send_waiting()
                &&& old(self).is_closed_spec() ==> r is Drained
                &&& !old(self).is_closed_spec() && wait == Wait::Try ==> r is Timeout
                &&& !old(self).is_closed_spec() && wait != Wait::Try ==> r is Blocked
            },
    {
        proof {
            lemma_suffix_refl(self.send_waiters@);
        }
        if let Some(p) = self.pop_front_stash(notify) {
            return RecvOutcome::Received(p);
        }
        match self.pop_buffer() {
            Some(p) => RecvOutcome::Received(p),
            None => {
                if self.closed {
                    RecvOutcome::Drained
                } else if wait == Wait::Try {
                    RecvOutcome::Timeout
                } else {
                    RecvOutcome::Blocked
                }
            },
        }
    }

    /// A retry of a blocked receive at time `now`: the stashed payload
    /// first; on a closed channel whatever is left or the end of the
    /// stream; then the deadline; then the buffer.
    pub fn recv_blocking_retry<N: Fn(i64, Wake) -> bool>(&mut self, now: u64, deadline: Option<u64>, notify: &N) -> (r: RecvOutcome)
        requires
            old(self).wf(),
            wakes_any(*notify),
        ensures
            final(self).wf(),
            final(self).same_settings(old(self)),
            final(self).recv_waiting() == old(self).recv_waiting(),
            final(self).sent_total() == old(self).sent_total(),
            is_suffix_of(final(self).send_waiting(), old(self).send_waiting()),
            old(self).stash().len() > 0 ==> slot_freed_for(*notify, old(self).send_waiting(), final(self).send_waiting()),
            old(self).stash().len() == 0 ==> final(self).send_waiting() == old(self).send_waiting(),
            r matches RecvOutcome::Received(p) ==> {
                &&& old(self).queue().len() > 0
                &&& p@ == old(self).queue()[0]
                &&& final(self).queue() == old(self).queue().drop_first()
            },
            !(r is Received) ==> final(self).queue() == old(self).queue(),
            old(self).queue().len() > 0 && (old(self).is_closed_spec() || !deadline_passed(now, deadline)) ==> r is Received,
            old(self).stash().len() > 0 ==> r is Received,
            old(self).queue().len() == 0 ==> {
                &&& old(self).is_closed_spec() ==> r is Drained
                &&& !old(self).is_closed_spec() && deadline_passed(now, deadline) ==> r is Timeout
                &&& !old(self).is_closed_spec() && !deadline_passed(now, deadline) ==> r is Blocked
            },
            r is Timeout ==> !old(self).is_closed_spec() && deadline_passed(now, deadline),
    {
        proof {
            lemma_suffix_refl(self.send_waiters@);
        }
        if let Some(p) = self.pop_front_stash(notify) {
            return RecvOutcome::Received(p);
        }
        if self.closed {
            return match self.pop_buffer() {
                Some(p) => RecvOutcome::Received(p),
                None => RecvOutcome::Drained,
            };
        }
        match deadline {
            Some(d) => {
                if now >= d {
                    return RecvOutcome::Timeout;
                }
            },
            None => {},
        }
        match self.pop_buffer() {
            Some(p) => RecvOutcome::Received(p),
            None => RecvOutcome::Blocked,
        }
    }
}


impl ChannelInner {
    /// Sends payloads in order without waiting and stops at the first that
    /// does not land; the count of those that did.
    pub fn send_many_try<D: Fn(i64, Payload) -> Option<Payload>, N: Fn(i64, Wake) -> bool>(
        &mut self,
        payloads: Vec<Payload>,
        deliver: &D,
        notify: &N,
    ) -> (sent: u64)
        requires
            old(self).wf(),
            delivers_whole(*deliver),
            wakes_any(*notify),
        ensures
            final(self).wf(),
            final(self).same_settings(old(self)),
            final(self).send_waiting() == old(self).send_waiting(),
            sent <= payloads@.len(),
            old(self).is_closed_spec() ==> sent == 0 && final(self).queue() == old(self).queue(),
            sent < payloads@.len() ==> old(self).is_closed_spec() || (final(self).buffered().len() == final(self).cap()
                && final(self).recv_waiting().len() == 0),
            old(self).recv_waiting().len() == 0 ==> {
                &&& final(self).queue() == old(self).queue() + payload_views(payloads@).subrange(0, sent as int)
                &&& final(self).recv_waiting().len() == 0
                &&& !old(self).is_closed_spec() ==> sent == (if payloads@.len() <= old(self).cap() - old(self).buffered().len() {
                    payloads@.len() as int
                } else {
                    old(self).cap() - old(self).buffered().len()
                })
            },
    {
        let ghost views = payload_views(payloads@);
        let ghost n = payloads@.len();
        let ghost no_waiters = old(self).recv_waiters@.len() == 0;
        let total = payloads.len();
        let mut rest = payloads;
        let mut sent: u64 = 0;
        let mut stopped = false;
        while !stopped && rest.len() > 0
            invariant
                delivers_whole(*deliver),
                wakes_any(*notify),
                self.wf(),
                self.same_settings(old(self)),
                self.send_waiters@ == old(self).send_waiters@,
                views == payload_views(payloads@),
                n == payloads@.len(),
                n == total,
                !stopped ==> sent + rest@.len() == n,
                !stopped ==> payload_views(rest@) == views.subrange(sent as int, n as int),
                stopped ==> sent < n,
                sent <= n,
                old(self).closed ==> sent == 0 && self.queue() == old(self).queue(),
                stopped ==> old(self).closed || (self.buffered().len() == self.cap() && self.recv_waiters@.len() == 0),
                no_waiters == (old(self).recv_waiters@.len() == 0),
                no_waiters ==> {
                    &&& self.queue() == old(self).queue() + views.subrange(0, sent as int)
                    &&& self.recv_waiters@.len() == 0
                    &&& self.buffered().len() == old(self).buffered().len() + sent
                },
            decreases rest@.len() + (if stopped { 0int } else { 1int }),
        {
            let ghost old_rest = rest@;
            let p = rest.remove(0);
            proof {
                assert(payload_views(old_rest)[0] == old_rest[0]@);
                assert(p@ == views[sent as int]);
                assert(rest@ =~= old_rest.subrange(1, old_rest.len() as int));
                assert(payload_views(rest@) =~= views.subrange(sent + 1, n as int)) by {
                    assert forall|i: int| 0 <= i < rest@.len() implies #[trigger] payload_views(rest@)[i]
                        == views.subrange(sent + 1, n as int)[i] by {
                        assert(payload_views(old_rest)[i + 1] == old_rest[i + 1]@);
                    }
                }
            }
            let ghost before = *self;
            match self.try_send(p, deliver, notify) {
                Ok(()) => {
                    proof {
                        if no_waiters {
                            assert(views.subrange(0, sent + 1) =~= views.subrange(0, sent as int).push(views[sent as int]));
                        }
                    }
                    sent = sent + 1;
                },
                Err(_) => {
                    proof {
                        assert(payload_views(rest@) =~= views.subrange(sent as int, n as int).drop_first());
                    }
                    stopped = true;
                },
            }
        }
        sent
    }

    /// Takes payloads off the front of the queue without waiting: all of
    /// them when `max` is zero, else at most `max`.
    pub fn recv_many_try<N: Fn(i64, Wake) -> bool>(&mut self, max: usize, notify: &N) -> (out: Vec<Payload>)
        requires
            old(self).wf(),
            wakes_any(*notify),
        ensures
            final(self).wf(),
            final(self).same_settings(old(self)),
            final(self).recv_waiting() == old(self).recv_waiting(),
            final(self).sent_total() == old(self).sent_total(),
            out@.len() == (if max == 0 || old(self).queue().len() <= max { old(self).queue().len() as int } else { max as int }),
            payload_views(out@) == old(self).queue().subrange(0, out@.len() as int),
            final(self).queue() == old(self).queue().subrange(out@.len() as int, old(self).queue().len() as int),
    {
        let ghost oq = self.queue();
        let mut out: Vec<Payload> = Vec::new();
        let mut done = false;
        while !done && (max == 0 || out.len() < max)
            invariant
                wakes_any(*notify),
                self.wf(),
                self.same_settings(old(self)),
                self.recv_waiters@ == old(self).recv_waiters@,
                self.items_sent_total == old(self).items_sent_total,
                oq == old(self).queue(),
                out@.len() <= oq.len(),
                max > 0 ==> out@.len() <= max,
                payload_views(out@) == oq.subrange(0, out@.len() as int),
                self.queue() == oq.subrange(out@.len() as int, oq.len() as int),
                done ==> self.queue().len() == 0,
            decreases self.queue().len() + (if done { 0int } else { 1int }),
        {
            match self.try_recv(notify) {
                Ok(Some(p)) => {
                    proof {
                        assert(p@ == oq[out@.len() as int]);
                    }
                    out.push(p);
                    proof {
                        assert(payload_views(out@) =~= oq.subrange(0, out@.len() as int));
                        assert(self.queue() =~= oq.subrange(out@.len() as int, oq.len() as int));
                    }
                },
                _ => {
                    done = true;
                },
            }
        }
        out
    }

    /// A thread starts blocking on a send (wrapping gauge).
    pub fn enter_blocked_send(&mut self)
        ensures
            final(self).blocked_senders() == inc_wrap32(old(self).blocked_senders()),
            final(self).queue() == old(self).queue(),
            final(self).wf() == old(self).wf(),
            final(self).is_closed_spec() == old(self).is_closed_spec(),
            final(self).cap() == old(self).cap(),
    {
        self.senders_blocked = if self.senders_blocked < u32::MAX { self.senders_blocked + 1 } else { 0 };
    }

    /// A thread stops blocking on a send (wrapping gauge).
    pub fn leave_blocked_send(&mut self)
        ensures
            final(self).blocked_senders() == dec_wrap32(old(self).blocked_senders()),
            final(self).queue() == old(self).queue(),
            final(self).wf() == old(self).wf(),
            final(self).is_closed_spec() == old(self).is_closed_spec(),
            final(self).cap() == old(self).cap(),
    {
        self.senders_blocked = if self.senders_blocked > 0 { self.senders_blocked - 1 } else { u32::MAX };
    }

    /// A thread starts blocking on a receive (wrapping gauge).
    pub fn enter_blocked_recv(&mut self)
        ensures
            final(self).blocked_receivers() == inc_wrap32(old(self).blocked_receivers()),
            final(self).queue() == old(self).queue(),
            final(self).wf() == old(self).wf(),
            final(self).is_closed_spec() == old(self).is_closed_spec(),
            final(self).cap() == old(self).cap(),
    {
        self.receivers_blocked = if self.receivers_blocked < u32::MAX { self.receivers_blocked + 1 } else { 0 };
    }

    /// A thread stops blocking on a receive (wrapping gauge).
    pub fn leave_blocked_recv(&mut self)
        ensures
            final(self).blocked_receivers() == dec_wrap32(old(self).blocked_receivers()),
            final(self).queue() == old(self).queue(),
            final(self).wf() == old(self).wf(),
            final(self).is_closed_spec() == old(self).is_closed_spec(),
            final(self).cap() == old(self).cap(),
    {
        self.receivers_blocked = if self.receivers_blocked > 0 { self.receivers_blocked - 1 } else { u32::MAX };
    }

    pub fn senders_blocked(&self) -> (r: u32)
        ensures
            r == self.blocked_senders(),
    {
        self.senders_blocked
    }

    pub fn receivers_blocked(&self) -> (r: u32)
        ensures
            r == self.blocked_receivers(),
    {
        self.receivers_blocked
    }

    pub fn items_sent_total(&self) -> (r: u64)
        ensures
            r == self.sent_total(),
    {
        self.items_sent_total
    }

    pub fn items_dropped_total(&self) -> (r: u64)
        ensures
            r == self.dropped_total(),
    {
        self.items_dropped_total
    }

    /// The snapshot shown for debugging: the number of payloads held.
    pub fn debug_snapshot(&self) -> (v: SharedValue)
        requires
            self.wf(),
        ensures
            v@ == crate::value::ValueView::Long(self.queue().len() as i64),
    {
        SharedValue::Long(self.pending as i64)
    }

    /// Bytes booked for the channel: a fixed part plus a per-payload part.
    pub fn mem_bytes(&self) -> (n: usize)
        requires
            self.wf(),
            64 + 32 * self.queue().len() <= usize::MAX,
        ensures
            n == 64 + 32 * self.queue().len(),
    {
        64 + self.pending * 32
    }

    /// Appends the ids pinned by the payloads in transit.
    pub fn children(&self, out: &mut Vec<u64>)
        ensures
            final(out)@ == old(out)@ + self.in_flight_ids(),
    {
        let ghost start = out@;
        let mut i: usize = 0;
        while i < self.in_flight.len()
            invariant
                i <= self.in_flight@.len(),
                out@ == start + self.in_flight@.subrange(0, i as int),
            decreases self.in_flight@.len() - i,
        {
            out.push(self.in_flight[i]);
            proof {
                assert(self.in_flight@.subrange(0, i + 1) =~= self.in_flight@.subrange(0, i as int).push(self.in_flight@[i as int]));
            }
            i = i + 1;
        }
        proof {
            assert(self.in_flight@.subrange(0, i as int) =~= self.in_flight@);
        }
    }

    /// Process shutdown closes the channel, as `close` does: an open
    /// channel cancels every parked receiver and tells every parked sender
    /// that it closed; what is queued stays receivable.
    pub fn on_shutdown_notify<N: Fn(i64, Wake) -> bool>(&mut self, notify: &N)
        requires
            old(self).wf(),
            wakes_any(*notify),
        ensures
            final(self).wf(),
            final(self).is_closed_spec(),
            final(self).queue() == old(self).queue(),
            final(self).cap() == old(self).cap(),
            final(self).sent_total() == old(self).sent_total(),
            final(self).bound_id() == old(self).bound_id(),
            final(self).blocked_senders() == old(self).blocked_senders(),
            final(self).blocked_receivers() == old(self).blocked_receivers(),
            final(self).in_flight_ids() == old(self).in_flight_ids(),
            !old(self).is_closed_spec() ==> final(self).recv_waiting().len() == 0 && final(self).send_waiting().len() == 0,
            !old(self).is_closed_spec() ==> forall|i: int| 0 <= i < old(self).recv_waiting().len()
                ==> woken(*notify, #[trigger] old(self).recv_waiting()[i], Wake::Cancelled),
            !old(self).is_closed_spec() ==> forall|i: int| 0 <= i < old(self).send_waiting().len()
                ==> woken(*notify, #[trigger] old(self).send_waiting()[i], Wake::Closed),
            old(self).is_closed_spec() ==> final(self).recv_waiting() == old(self).recv_waiting()
                && final(self).send_waiting() == old(self).send_waiting(),
    {
        let _ = self.close(notify);
    }
}


/// A send put `p` at the back of the queue.
pub open spec fn send_appends(before: ChannelInner, p: PayloadView, after: ChannelInner) -> bool {
    after.queue() == before.queue().push(p)
}

/// A receive took `p` off the front of the queue.
pub open spec fn recv_takes(before: ChannelInner, p: PayloadView, after: ChannelInner) -> bool {
    &&& before.queue().len() > 0
    &&& p == before.queue()[0]
    &&& after.queue() == before.queue().drop_first()
}

/// Law: payloads come out in the order they went in.
pub proof fn law_fifo(
    a: ChannelInner,
    b: ChannelInner,
    c: ChannelInner,
    d: ChannelInner,
    e: ChannelInner,
    p1: PayloadView,
    p2: PayloadView,
    r1: PayloadView,
    r2: PayloadView,
)
    requires
        a.queue().len() == 0,
        send_appends(a, p1, b),
        send_appends(b, p2, c),
        recv_takes(c, r1, d),
        recv_takes(d, r2, e),
    ensures
        r1 == p1,
        r2 == p2,
        e.queue().len() == 0,
{
    assert(c.queue() =~= seq![p1, p2]);
    assert(d.queue() =~= seq![p2]);
}

/// Law: the buffer never holds more than the capacity, and the channel as
/// a whole at most one payload more (one re-deposited at the front).
pub proof fn law_capacity_bound(ch: ChannelInner)
    requires
        ch.wf(),
    ensures
        ch.buffered().len() <= ch.cap(),
        ch.queue().len() <= ch.cap() + 1,
        ch.cap() >= 1,
{
}

/// Law: the ids a channel reports as pinned are exactly, with multiplicity,
/// the ids pinned by the payloads it still holds.
pub proof fn law_in_flight_matches_queue(ch: ChannelInner)
    requires
        ch.wf(),
    ensures
        ch.in_flight_ids().to_multiset() == keepalive_multiset(ch.queue()),
{
}

/// Closing took the channel from `before` to `after` and answered `r`.
pub open spec fn close_step(before: ChannelInner, r: bool, after: ChannelInner) -> bool {
    &&& r == !before.is_closed_spec()
    &&& after.is_closed_spec()
    &&& after.queue() == before.queue()
}

/// Law: only the first close reports that it closed the channel, and
/// closing never drops what is queued.
pub proof fn law_close_is_idempotent(a: ChannelInner, r1: bool, b: ChannelInner, r2: bool, c: ChannelInner)
    requires
        close_step(a, r1, b),
        close_step(b, r2, c),
    ensures
        !r2,
        c.is_closed_spec(),
        c.queue() == a.queue(),
{
}

} // verus!
