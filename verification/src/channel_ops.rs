//! What the engine-facing channel operations decide: framing batches of
//! serialised values, checking a requested capacity, reading the outcome of
//! a receive, and what to do after each attempt or wake-up of a fiber that
//! sends or receives.

use vstd::prelude::*;
use crate::error::{PhpError, SharedError};
use crate::atomic::is_exception;
use crate::channel::{
    channel_capacity_fits, effective_channel_budget, slot_bytes, slot_bytes_spec, Payload,
    TryRecvErr, TrySendErr,
};
use crate::rc::{channel_rc_class, counter_rc_class, counter_rc_to_result, map_channel_rc};
use crate::slot_buffer::MAX_SLOT_CAPACITY;
use crate::text::{decimal, push_decimal, push_signed_decimal, signed_decimal};

verus! {

/// The offsets frame a concatenation: they never go backwards and none
/// passes the last one, which is the total length.
pub open spec fn offsets_frame(offsets: Seq<usize>) -> bool {
    forall|i: int| 0 <= i < offsets.len() - 1 ==> #[trigger] offsets[i] <= offsets[i + 1] <= offsets.last()
}

fn copy_range(src: &[u8], start: usize, end: usize) -> (r: Vec<u8>)
    requires
        start <= end <= src@.len(),
    ensures
        r@ == src@.subrange(start as int, end as int),
{
    let mut r: Vec<u8> = Vec::new();
    let mut i = start;
    while i < end
        invariant
            start <= i <= end <= src@.len(),
            r@ == src@.subrange(start as int, i as int),
        decreases end - i,
    {
        r.push(src[i]);
        proof {
            assert(src@.subrange(start as int, i + 1) =~= src@.subrange(start as int, i as int).push(src@[i as int]));
        }
        i = i + 1;
    }
    r
}

/// Splits a concatenation of `offsets.len() - 1` values at the offsets
/// (value `i` spans `offsets[i]..offsets[i + 1]`). Offsets that go
/// backwards or past the total are refused.
pub fn split_concat(concat: &[u8], offsets: &[usize]) -> (r: Result<Vec<Vec<u8>>, SharedError>)
    requires
        offsets@.len() >= 1,
        offsets@.last() <= concat@.len(),
    ensures
        r is Ok <==> offsets_frame(offsets@),
        r matches Err(e) ==> e == SharedError::Generic,
        r matches Ok(parts) ==> {
            &&& parts@.len() == offsets@.len() - 1
            &&& forall|i: int| 0 <= i < parts@.len() ==>
                #[trigger] parts@[i]@ == concat@.subrange(offsets@[i] as int, offsets@[i + 1] as int)
        },
{
    let n = offsets.len() - 1;
    let total = offsets[n];
    let mut parts: Vec<Vec<u8>> = Vec::new();
    let mut i: usize = 0;
    while i < n
        invariant
            n == offsets@.len() - 1,
            total == offsets@.last(),
            total <= concat@.len(),
            i <= n,
            parts@.len() == i,
            forall|j: int| 0 <= j < i ==> #[trigger] offsets@[j] <= offsets@[j + 1] <= total,
            forall|j: int| 0 <= j < i ==> #[trigger] parts@[j]@ == concat@.subrange(offsets@[j] as int, offsets@[j + 1] as int),
        decreases n - i,
    {
        let start = offsets[i];
        let end = offsets[i + 1];
        if end < start || end > total {
            proof {
                assert(!(offsets@[i as int] <= offsets@[i + 1] <= offsets@.last()));
            }
            return Err(SharedError::Generic);
        }
        let part = copy_range(concat, start, end);
        parts.push(part);
        i = i + 1;
    }
    Ok(parts)
}

/// The bytes of a sequence of payloads, one after the other.
pub open spec fn joined_bytes(s: Seq<Payload>) -> Seq<u8>
    decreases s.len(),
{
    if s.len() == 0 {
        Seq::empty()
    } else {
        joined_bytes(s.drop_last()) + s.last().bytes@
    }
}

/// Concatenates the bytes of the payloads and records where each one ends
/// (the offsets start at 0 and there is one more of them than payloads).
pub fn concat_payloads(items: &[Payload]) -> (r: (Vec<u8>, Vec<usize>))
    requires
        joined_bytes(items@).len() <= usize::MAX,
    ensures
        r.0@ == joined_bytes(items@),
        r.1@.len() == items@.len() + 1,
        r.1@[0] == 0,
        forall|i: int| 0 <= i < items@.len() ==> #[trigger] r.1@[i + 1] == joined_bytes(items@.subrange(0, i + 1)).len(),
        forall|i: int| 0 <= i < items@.len() ==> r.0@.subrange(r.1@[i] as int, #[trigger] r.1@[i + 1] as int) == items@[i].bytes@,
{
    let mut concat: Vec<u8> = Vec::new();
    let mut offsets: Vec<usize> = Vec::new();
    offsets.push(0);
    let mut i: usize = 0;
    proof {
        assert(items@.subrange(0, 0) =~= Seq::<Payload>::empty());
    }
    while i < items.len()
        invariant
            i <= items@.len(),
            joined_bytes(items@).len() <= usize::MAX,
            concat@ == joined_bytes(items@.subrange(0, i as int)),
            offsets@.len() == i + 1,
            offsets@[0] == 0,
            forall|j: int| 0 <= j <= i ==> #[trigger] offsets@[j] == joined_bytes(items@.subrange(0, j)).len(),
            forall|j: int| 0 <= j < i ==> concat@.subrange(offsets@[j] as int, #[trigger] offsets@[j + 1] as int) == items@[j].bytes@,
        decreases items@.len() - i,
    {
        proof {
            lemma_joined_prefix_le(items@, i as int + 1);
            assert(items@.subrange(0, i + 1).drop_last() =~= items@.subrange(0, i as int));
        }
        let ghost before = concat@;
        let bytes = &items[i].bytes;
        let mut k: usize = 0;
        while k < bytes.len()
            invariant
                k <= bytes@.len(),
                concat@ == before + bytes@.subrange(0, k as int),
                before.len() + bytes@.len() <= usize::MAX,
            decreases bytes@.len() - k,
        {
            concat.push(bytes[k]);
            proof {
                assert(bytes@.subrange(0, k + 1) =~= bytes@.subrange(0, k as int).push(bytes@[k as int]));
            }
            k = k + 1;
        }
        proof {
            assert(bytes@.subrange(0, k as int) =~= bytes@);
            assert(concat@ =~= before + bytes@);
            assert(concat@ =~= joined_bytes(items@.subrange(0, i + 1)));
        }
        offsets.push(concat.len());
        proof {
            assert(concat@.subrange(before.len() as int, concat@.len() as int) =~= items@[i as int].bytes@);
            assert forall|j: int| 0 <= j < i implies concat@.subrange(offsets@[j] as int, #[trigger] offsets@[j + 1] as int) == items@[j].bytes@ by {
                lemma_joined_mono(items@, j + 1, i as int);
                lemma_joined_mono(items@, j, j + 1);
                assert(offsets@[j] <= offsets@[j + 1] <= before.len());
                assert(concat@.subrange(offsets@[j] as int, offsets@[j + 1] as int) =~= before.subrange(offsets@[j] as int, offsets@[j + 1] as int));
            }
        }
        i = i + 1;
    }
    proof {
        assert(items@.subrange(0, i as int) =~= items@);
    }
    (concat, offsets)
}

proof fn lemma_joined_prefix_le(s: Seq<Payload>, j: int)
    requires
        0 <= j <= s.len(),
    ensures
        joined_bytes(s.subrange(0, j)).len() <= joined_bytes(s).len(),
        forall|k: int| 0 <= k <= j ==> #[trigger] joined_bytes(s.subrange(0, k)).len() <= joined_bytes(s.subrange(0, j)).len(),
    decreases s.len() - j,
{
    if j < s.len() {
        lemma_joined_prefix_le(s, j + 1);
        assert(s.subrange(0, j + 1).drop_last() =~= s.subrange(0, j));
    } else {
        assert(s.subrange(0, j) =~= s);
    }
    assert forall|k: int| 0 <= k <= j implies #[trigger] joined_bytes(s.subrange(0, k)).len() <= joined_bytes(s.subrange(0, j)).len() by {
        lemma_joined_mono(s, k, j);
    }
}

proof fn lemma_joined_mono(s: Seq<Payload>, k: int, j: int)
    requires
        0 <= k <= j <= s.len(),
    ensures
        joined_bytes(s.subrange(0, k)).len() <= joined_bytes(s.subrange(0, j)).len(),
    decreases j - k,
{
    if k < j {
        lemma_joined_mono(s, k, j - 1);
        assert(s.subrange(0, j).drop_last() =~= s.subrange(0, j - 1));
    }
}

/// Message for a capacity that would need more slot memory than allowed.
pub open spec fn capacity_over_budget_message(capacity: u64, budget: u64) -> Seq<char> {
    "Channel capacity "@ + decimal(capacity as nat) + " would allocate ~"@
        + (if capacity * slot_bytes_spec() <= u64::MAX { decimal((capacity * slot_bytes_spec()) as nat) } else { "overflow"@ })
        + " bytes for its slot array, exceeding SHARED_MAX_CHANNEL_BYTES ("@ + decimal(budget as nat)
        + "); lower the capacity or raise the budget"@
}

/// Checks a requested channel capacity against the configured slot-memory
/// budget (raised to at least one slot). Zero is a type error; a capacity
/// whose slot array would not fit is refused with a message that names
/// the sizes; so is one the buffer cannot be made with on this machine.
pub fn validate_channel_capacity(capacity: u64, configured_budget: u64) -> (r: Result<usize, (SharedError, String)>)
    ensures
        capacity == 0 ==> (r matches Err((e, m)) && e == SharedError::Type && m@ == "Channel capacity must be >= 1"@),
        capacity > 0 ==> {
            let budget = if configured_budget >= slot_bytes_spec() { configured_budget as int } else { slot_bytes_spec() as int };
            &&& !(capacity * slot_bytes_spec() <= budget) ==> (r matches Err((e, m)) && e == SharedError::CapacityExceeded
                && m@ == capacity_over_budget_message(capacity, budget as u64))
            &&& capacity * slot_bytes_spec() <= budget && capacity <= MAX_SLOT_CAPACITY ==> r == Ok::<usize, (SharedError, String)>(capacity as usize)
            &&& capacity * slot_bytes_spec() <= budget && capacity > MAX_SLOT_CAPACITY ==> (r matches Err((e, _)) && e == SharedError::CapacityExceeded)
        },
{
    if capacity == 0 {
        return Err((SharedError::Type, String::from_str("Channel capacity must be >= 1")));
    }
    let budget = effective_channel_budget(configured_budget);
    if !channel_capacity_fits(capacity, budget) {
        let mut m = String::from_str("Channel capacity ");
        push_decimal(&mut m, capacity);
        m.append(" would allocate ~");
        let s = slot_bytes();
        match capacity.checked_mul(s) {
            Some(bytes) => push_decimal(&mut m, bytes),
            None => m.append("overflow"),
        }
        m.append(" bytes for its slot array, exceeding SHARED_MAX_CHANNEL_BYTES (");
        push_decimal(&mut m, budget);
        m.append("); lower the capacity or raise the budget");
        return Err((SharedError::CapacityExceeded, m));
    }
    if capacity > MAX_SLOT_CAPACITY as u64 {
        return Err((SharedError::CapacityExceeded, String::from_str("Channel capacity too large for this machine")));
    }
    Ok(capacity as usize)
}

/// The status pair of a non-blocking send, as the boundary reports it: the
/// call's code and whether the payload went in. A full channel is no error
/// (code 0, not sent); a closed one is the closed error, -6.
pub fn try_send_status(r: &Result<(), TrySendErr>) -> (s: (i32, i32))
    ensures
        r is Ok ==> s == (0i32, 1i32),
        r matches Err(TrySendErr::Full(_)) ==> s == (0i32, 0i32),
        r matches Err(TrySendErr::Closed(_)) ==> s == (-6i32, 0i32),
{
    match r {
        Ok(()) => (0, 1),
        Err(TrySendErr::Full(_)) => (0, 0),
        Err(TrySendErr::Closed(_)) => (-6, 0),
    }
}

/// The state code of a non-blocking receive: 0 for a payload, 1 for empty
/// and open, 2 for closed and drained.
pub fn try_recv_state(r: &Result<Option<Payload>, TryRecvErr>) -> (s: i32)
    ensures
        r matches Ok(Some(_)) ==> s == 0,
        r matches Err(_) ==> s == 1,
        r matches Ok(None) ==> s == 2,
{
    match r {
        Ok(Some(_)) => 0,
        Err(_) => 1,
        Ok(None) => 2,
    }
}

/// How a send ends, as the caller sees it.
#[derive(Clone, Copy, Debug, PartialEq, Eq, Structural)]
pub enum SendKind {
    Sent,
    Closed,
    Timeout,
}

/// After a non-blocking send attempt of a fiber: finished (sent, or the
/// channel closed), park until a slot frees (full), or a failure of the
/// call itself.
pub fn send_attempt_decision(rc: i32, success: i32) -> (r: Result<Option<SendKind>, PhpError>)
    ensures
        rc == -6 ==> r == Ok::<Option<SendKind>, PhpError>(Some(SendKind::Closed)),
        rc == 0 && success != 0 ==> r == Ok::<Option<SendKind>, PhpError>(Some(SendKind::Sent)),
        rc == 0 && success == 0 ==> r == Ok::<Option<SendKind>, PhpError>(None),
        rc != 0 && rc != -6 ==> (r matches Err(e) && is_exception(e, channel_rc_class(rc), Seq::<char>::empty())),
{
    if rc == -6 {
        return Ok(Some(SendKind::Closed));
    }
    if rc == 0 && success != 0 {
        return Ok(Some(SendKind::Sent));
    }
    if rc != 0 {
        return Err(map_channel_rc(rc));
    }
    Ok(None)
}

/// The milliseconds a parked fiber send may wait at `now`: none of a
/// timeout without a deadline (0), the deadline already reached (a
/// timeout), else what is left, floored to whole milliseconds but at least
/// one so that the timer stays armed.
pub fn send_park_timeout(now: u64, deadline: Option<u64>) -> (r: Result<u64, SendKind>)
    ensures
        deadline is None ==> r == Ok::<u64, SendKind>(0),
        deadline is Some && now >= deadline->0 ==> r == Err::<u64, SendKind>(SendKind::Timeout),
        deadline is Some && now < deadline->0 ==> r == Ok::<u64, SendKind>(
            if (deadline->0 - now) / 1_000_000 >= 1 { ((deadline->0 - now) / 1_000_000) as u64 } else { 1 },
        ),
{
    match deadline {
        None => Ok(0),
        Some(d) => {
            if now >= d {
                Err(SendKind::Timeout)
            } else {
                let ms = (d - now) / 1_000_000;
                Ok(if ms >= 1 { ms } else { 1 })
            }
        },
    }
}

/// What a fiber send does after its wait ends.
#[derive(Debug)]
pub enum SendWake {
    /// A slot may have freed: try again.
    Retry,
    /// The send is over.
    Finish(SendKind),
    /// Raise this error.
    Raise(PhpError),
}

fn message_or(message: String, fallback: &str) -> (m: String)
    ensures
        m@ == (if message@.len() == 0 { fallback@ } else { message@ }),
{
    if message.as_str().is_empty() {
        String::from_str(fallback)
    } else {
        message
    }
}

/// Text of an unexpected wait status.
pub open spec fn fiber_rc_text(op: Seq<char>, rc: i32) -> Seq<char> {
    op + ": fiber_await rc="@ + signed_decimal(rc as int)
}

fn fiber_rc_error(op: &str, rc: i32) -> (e: PhpError)
    ensures
        e matches PhpError::Custom(t) && t@ == fiber_rc_text(op@, rc),
{
    let mut t = String::from_str(op);
    t.append(": fiber_await rc=");
    push_signed_decimal(&mut t, rc as i64);
    PhpError::Custom(t)
}

/// Decides what a fiber send does once its wait ends, from the wait status
/// (0 woken, -1 resolved with an exception, -2 timed out), the class and
/// message of that exception, the wire timeout and whether the deadline
/// has passed. A close resolves as "closed"; a cancel after the deadline of
/// a bounded send as a timeout; a cancel of an unbounded send is raised;
/// an early cancel of a bounded send retries.
pub fn send_wake_decision(fiber_rc: i32, class: Option<String>, message: String, timeout_ms: i64, deadline_passed: bool) -> (r: SendWake)
    ensures
        fiber_rc == 0 ==> r is Retry,
        fiber_rc == -2 ==> (r matches SendWake::Finish(k) && k == SendKind::Timeout),
        fiber_rc != 0 && fiber_rc != -1 && fiber_rc != -2 ==> (r matches SendWake::Raise(e) && e matches PhpError::Custom(t)
            && t@ == fiber_rc_text("send"@, fiber_rc)),
        fiber_rc == -1 ==> match class {
            None => r matches SendWake::Raise(e) && e matches PhpError::Custom(t) && t@ == "send: waker resolution failed"@,
            Some(c) => if c@ == "OxPHP\\Shared\\ClosedException"@ {
                r matches SendWake::Finish(k) && k == SendKind::Closed
            } else if c@ == "OxPHP\\Async\\AsyncException"@ {
                if timeout_ms > 0 && deadline_passed {
                    r matches SendWake::Finish(k) && k == SendKind::Timeout
                } else if timeout_ms < 0 {
                    r matches SendWake::Raise(e) && is_exception(e, "OxPHP\\Async\\AsyncException"@,
                        if message@.len() == 0 { "send: fiber cancelled"@ } else { message@ })
                } else {
                    r is Retry
                }
            } else {
                r matches SendWake::Raise(e) && is_exception(e, c@, message@)
            },
        },
{
    if fiber_rc == 0 {
        return SendWake::Retry;
    }
    if fiber_rc == -2 {
        return SendWake::Finish(SendKind::Timeout);
    }
    if fiber_rc != -1 {
        return SendWake::Raise(fiber_rc_error("send", fiber_rc));
    }
    match class {
        None => SendWake::Raise(PhpError::Custom(String::from_str("send: waker resolution failed"))),
        Some(c) => {
            if c.eq(&String::from_str("OxPHP\\Shared\\ClosedException")) {
                SendWake::Finish(SendKind::Closed)
            } else if c.eq(&String::from_str("OxPHP\\Async\\AsyncException")) {
                if timeout_ms > 0 && deadline_passed {
                    SendWake::Finish(SendKind::Timeout)
                } else if timeout_ms < 0 {
                    SendWake::Raise(PhpError::Exception {
                        class: c,
                        message: message_or(message, "send: fiber cancelled"),
                        code: 0,
                    })
                } else {
                    SendWake::Retry
                }
            } else {
                SendWake::Raise(PhpError::Exception { class: c, message, code: 0 })
            }
        },
    }
}

/// The outcome of a thread-blocking send from its status code: closed and
/// timeout are results, zero is success, anything else is raised.
pub fn send_blocking_decision(rc: i32, message: String) -> (r: Result<SendKind, PhpError>)
    ensures
        rc == -6 ==> r == Ok::<SendKind, PhpError>(SendKind::Closed),
        rc == -7 ==> r == Ok::<SendKind, PhpError>(SendKind::Timeout),
        rc == 0 ==> r == Ok::<SendKind, PhpError>(SendKind::Sent),
        rc != 0 && rc != -6 && rc != -7 ==> (r matches Err(e) && is_exception(e, counter_rc_class(rc), message@)),
{
    if rc == -6 {
        return Ok(SendKind::Closed);
    }
    if rc == -7 {
        return Ok(SendKind::Timeout);
    }
    match counter_rc_to_result(rc, message) {
        Ok(()) => Ok(SendKind::Sent),
        Err(e) => Err(e),
    }
}

/// How a receive ends, as the caller sees it (a payload is written by the
/// caller itself).
#[derive(Clone, Copy, Debug, PartialEq, Eq, Structural)]
pub enum RecvKind {
    Item,
    Closed,
    Timeout,
}

/// After a non-blocking receive of a fiber: a payload, the end of the
/// stream, or park (empty and open).
pub fn recv_state_decision(state: i32) -> (r: Option<RecvKind>)
    ensures
        state == 0 ==> r == Some(RecvKind::Item),
        state == 2 ==> r == Some(RecvKind::Closed),
        state != 0 && state != 2 ==> r is None,
{
    if state == 0 {
        Some(RecvKind::Item)
    } else if state == 2 {
        Some(RecvKind::Closed)
    } else {
        None
    }
}

/// The milliseconds a parked fiber receive waits (0: no timeout) for a
/// wire timeout.
pub fn recv_park_timeout(timeout_ms: i64) -> (ms: u64)
    ensures
        ms == (if timeout_ms < 0 { 0 } else { timeout_ms as u64 }),
{
    if timeout_ms < 0 { 0 } else { timeout_ms as u64 }
}

/// What a fiber receive does after its wait ends.
#[derive(Debug)]
pub enum RecvWake {
    /// The waker delivered a payload into the result.
    Delivered,
    /// A cancel arrived: probe the channel once more before deciding.
    Probe,
    /// The receive is over.
    Finish(RecvKind),
    /// Raise this error.
    Raise(PhpError),
}

/// Decides what a fiber receive does once its wait ends.
pub fn recv_wake_decision(fiber_rc: i32, class: Option<String>, message: String) -> (r: RecvWake)
    ensures
        fiber_rc == 0 ==> r is Delivered,
        fiber_rc == -2 ==> (r matches RecvWake::Finish(k) && k == RecvKind::Timeout),
        fiber_rc != 0 && fiber_rc != -1 && fiber_rc != -2 ==> (r matches RecvWake::Raise(e) && e matches PhpError::Custom(t)
            && t@ == fiber_rc_text("recv"@, fiber_rc)),
        fiber_rc == -1 ==> match class {
            None => r matches RecvWake::Raise(e) && e matches PhpError::Custom(t) && t@ == "recv: waker resolution failed"@,
            Some(c) => if c@ == "OxPHP\\Async\\AsyncException"@ {
                r is Probe
            } else {
                r matches RecvWake::Raise(e) && is_exception(e, c@, message@)
            },
        },
{
    if fiber_rc == 0 {
        return RecvWake::Delivered;
    }
    if fiber_rc == -2 {
        return RecvWake::Finish(RecvKind::Timeout);
    }
    if fiber_rc != -1 {
        return RecvWake::Raise(fiber_rc_error("recv", fiber_rc));
    }
    match class {
        None => RecvWake::Raise(PhpError::Custom(String::from_str("recv: waker resolution failed"))),
        Some(c) => {
            if c.eq(&String::from_str("OxPHP\\Async\\AsyncException")) {
                RecvWake::Probe
            } else {
                RecvWake::Raise(PhpError::Exception { class: c, message, code: 0 })
            }
        },
    }
}

/// After the probe that follows a cancelled fiber receive: a payload that
/// landed just before the cancel, the end of the stream, a timeout when the
/// deadline really passed, and otherwise the cancel itself, raised.
pub fn recv_probe_decision(probe_state: i32, deadline_hit: bool, message: String) -> (r: Result<RecvKind, PhpError>)
    ensures
        probe_state == 0 ==> r == Ok::<RecvKind, PhpError>(RecvKind::Item),
        probe_state == 2 ==> r == Ok::<RecvKind, PhpError>(RecvKind::Closed),
        probe_state != 0 && probe_state != 2 && deadline_hit ==> r == Ok::<RecvKind, PhpError>(RecvKind::Timeout),
        probe_state != 0 && probe_state != 2 && !deadline_hit ==> (r matches Err(e) && is_exception(e,
            "OxPHP\\Async\\AsyncException"@, if message@.len() == 0 { "recv: fiber cancelled"@ } else { message@ })),
{
    if probe_state == 0 {
        Ok(RecvKind::Item)
    } else if probe_state == 2 {
        Ok(RecvKind::Closed)
    } else if deadline_hit {
        Ok(RecvKind::Timeout)
    } else {
        Err(PhpError::Exception {
            class: String::from_str("OxPHP\\Async\\AsyncException"),
            message: message_or(message, "recv: fiber cancelled"),
            code: 0,
        })
    }
}

/// Text of an unexpected receive state.
pub open spec fn recv_state_text(state: i32) -> Seq<char> {
    "recv: unexpected state "@ + signed_decimal(state as int)
}

/// The outcome of a thread-blocking receive from its status code and
/// state: a timeout status is a result, another failure is raised, and
/// the state tells a payload from the end of the stream.
pub fn recv_blocking_decision(rc: i32, state: i32, message: String) -> (r: Result<RecvKind, PhpError>)
    ensures
        rc == -7 ==> r == Ok::<RecvKind, PhpError>(RecvKind::Timeout),
        rc != 0 && rc != -7 ==> (r matches Err(e) && is_exception(e, counter_rc_class(rc), message@)),
        rc == 0 && state == 0 ==> r == Ok::<RecvKind, PhpError>(RecvKind::Item),
        rc == 0 && state == 2 ==> r == Ok::<RecvKind, PhpError>(RecvKind::Closed),
        rc == 0 && state != 0 && state != 2 ==> (r matches Err(e) && e matches PhpError::Custom(t) && t@ == recv_state_text(state)),
{
    if rc == -7 {
        return Ok(RecvKind::Timeout);
    }
    match counter_rc_to_result(rc, message) {
        Err(e) => Err(e),
        Ok(()) => {
            if state == 0 {
                Ok(RecvKind::Item)
            } else if state == 2 {
                Ok(RecvKind::Closed)
            } else {
                let mut t = String::from_str("recv: unexpected state ");
                push_signed_decimal(&mut t, state as i64);
                Err(PhpError::Custom(t))
            }
        },
    }
}

} // verus!
