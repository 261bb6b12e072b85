//! Mutex: exclusive access to one shared value, run through a callback. A
//! panic during a callback marks the mutex corrupted for good; a callback
//! that throws or returns something unusable still keeps the mutation it
//! made (there is no rollback).

use vstd::prelude::*;
use crate::error::SharedError;
use crate::text::{push_signed_decimal, signed_decimal};
use crate::value::{SharedValue, ValueView};

verus! {

/// The state behind a mutex: the guarded value and the sticky corruption
/// mark.
pub struct MutexInner {
    value: SharedValue,
    corrupted: bool,
}

/// Which locking entry point ran the callback (it names itself in
/// messages).
#[derive(Clone, Copy, Debug, PartialEq, Eq, Structural)]
pub enum LockOp {
    With,
    TryWith,
}

/// How running the callback under the lock ended. A new state, when the
/// callback produced one, comes decoded, or as the error its decoding gave.
#[derive(Debug)]
pub enum InvokeOutcome {
    /// Returned normally; `did_mutate` tells whether it assigned the state.
    Returned { did_mutate: bool, new_state: Option<Result<SharedValue, SharedError>> },
    /// Threw; the state it had assigned so far, if any.
    Threw { new_state: Option<Result<SharedValue, SharedError>> },
    /// Returned or assigned a value that cannot be shared.
    BadReturn { new_state: Option<Result<SharedValue, SharedError>> },
    /// The argument was not callable.
    NotCallable,
    /// A panic unwound out of the call.
    Panicked,
}

/// The state a mutation leaves behind: a decoded new state replaces the
/// old one, anything else leaves it.
pub open spec fn after_mutation(cur: ValueView, new_state: Option<Result<SharedValue, SharedError>>) -> ValueView {
    match new_state {
        Some(Ok(v)) => v@,
        _ => cur,
    }
}

/// Law: only a new state that decoded replaces the guarded value; an
/// outcome without one (none produced, or one that failed to decode)
/// leaves the value as it was.
pub proof fn law_only_decoded_state_replaces(cur: ValueView, ns: Option<Result<SharedValue, SharedError>>)
    ensures
        ns matches Some(Ok(v)) ==> after_mutation(cur, ns) == v@,
        !(ns matches Some(Ok(_))) ==> after_mutation(cur, ns) == cur,
{
}

pub open spec fn op_name(op: LockOp) -> Seq<char> {
    match op {
        LockOp::With => "Mutex::with"@,
        LockOp::TryWith => "Mutex::tryWithLock"@,
    }
}

impl MutexInner {
    pub closed spec fn value_view(&self) -> ValueView {
        self.value@
    }

    pub closed spec fn corrupted_spec(&self) -> bool {
        self.corrupted
    }

    pub fn new(initial: SharedValue) -> (m: Self)
        ensures
            m.value_view() == initial@,
            !m.corrupted_spec(),
    {
        MutexInner { value: initial, corrupted: false }
    }

    pub fn is_corrupted(&self) -> (r: bool)
        ensures
            r == self.corrupted_spec(),
    {
        self.corrupted
    }

    /// Marks the mutex corrupted; nothing clears the mark.
    pub fn mark_corrupted(&mut self)
        ensures
            final(self).corrupted_spec(),
            final(self).value_view() == old(self).value_view(),
    {
        self.corrupted = true;
    }

    /// A copy of the guarded value (taken while the lock is free).
    pub fn try_snapshot(&self) -> (v: SharedValue)
        ensures
            v@ == self.value_view(),
    {
        self.value.duplicate()
    }

    /// The snapshot shown for debugging.
    pub fn debug_snapshot(&self) -> (v: SharedValue)
        ensures
            v@ == self.value_view(),
    {
        self.try_snapshot()
    }

    /// Refuses to run a callback on a corrupted mutex.
    pub fn check_usable(&self) -> (r: Result<(), (SharedError, String)>)
        ensures
            r is Ok <==> !self.corrupted_spec(),
            r matches Err((e, m)) ==> e == SharedError::Panicked && m@ == "mutex corrupted by prior Rust panic"@,
    {
        if self.corrupted {
            return Err((SharedError::Panicked, String::from_str("mutex corrupted by prior Rust panic")));
        }
        Ok(())
    }

    /// Once the lock is held: a mutex corrupted while the caller waited is
    /// refused with a panic error (with no message of its own), and the
    /// callback is not run.
    pub fn check_after_acquire(&self) -> (r: Result<(), SharedError>)
        ensures
            r is Ok <==> !self.corrupted_spec(),
            r is Err ==> r == Err::<(), SharedError>(SharedError::Panicked),
    {
        if self.corrupted {
            return Err(SharedError::Panicked);
        }
        Ok(())
    }

    /// Applies how the callback ended. A panic corrupts the mutex; a
    /// normal return commits a decoded mutation (a mutation that failed to
    /// decode is the error); a throw or an unusable return commits what
    /// decoded and is still an error; a non-callable argument is a type
    /// error.
    pub fn apply_invoke(&mut self, op: LockOp, outcome: InvokeOutcome) -> (r: Result<(), (SharedError, String)>)
        ensures
            final(self).corrupted_spec() == (old(self).corrupted_spec() || outcome is Panicked),
            match outcome {
                InvokeOutcome::Panicked => {
                    &&& final(self).value_view() == old(self).value_view()
                    &&& (r matches Err((e, m)) && e == SharedError::Panicked
                        && m@ == "Rust panic inside "@ + op_name(op) + " closure invocation"@)
                },
                InvokeOutcome::Returned { did_mutate, new_state } => {
                    &&& did_mutate ==> (new_state matches Some(Err(de)) ==> {
                        &&& final(self).value_view() == old(self).value_view()
                        &&& (r matches Err((e, m)) && e == de && m@.len() == 0)
                    })
                    &&& !(did_mutate && new_state matches Some(Err(_))) ==> {
                        &&& r is Ok
                        &&& final(self).value_view() == (if did_mutate {
                            after_mutation(old(self).value_view(), new_state)
                        } else {
                            old(self).value_view()
                        })
                    }
                },
                InvokeOutcome::Threw { new_state } => {
                    &&& final(self).value_view() == after_mutation(old(self).value_view(), new_state)
                    &&& (r matches Err((e, m)) && e == SharedError::Generic && m@ == "closure threw"@)
                },
                InvokeOutcome::BadReturn { new_state } => {
                    &&& final(self).value_view() == after_mutation(old(self).value_view(), new_state)
                    &&& (r matches Err((e, m)) && e == SharedError::Type
                        && m@ == op_name(op) + ": closure returned or assigned a non-serialisable value (closure, resource, non-Shareable object)"@)
                },
                InvokeOutcome::NotCallable => {
                    &&& final(self).value_view() == old(self).value_view()
                    &&& (r matches Err((e, m)) && e == SharedError::Type
                        && m@ == op_name(op) + ": arg is not a valid callable"@)
                },
            },
    {
        let name = match op {
            LockOp::With => "Mutex::with",
            LockOp::TryWith => "Mutex::tryWithLock",
        };
        match outcome {
            InvokeOutcome::Panicked => {
                self.corrupted = true;
                let mut m = String::from_str("Rust panic inside ");
                m.append(name);
                m.append(" closure invocation");
                Err((SharedError::Panicked, m))
            },
            InvokeOutcome::Returned { did_mutate, new_state } => {
                if did_mutate {
                    match new_state {
                        Some(Ok(v)) => {
                            self.value = v;
                        },
                        Some(Err(e)) => {
                            let empty = String::new();
                            proof {
                                assert(empty@ =~= Seq::<char>::empty());
                            }
                            return Err((e, empty));
                        },
                        None => {},
                    }
                }
                Ok(())
            },
            InvokeOutcome::Threw { new_state } => {
                match new_state {
                    Some(Ok(v)) => {
                        self.value = v;
                    },
                    _ => {},
                }
                Err((SharedError::Generic, String::from_str("closure threw")))
            },
            InvokeOutcome::BadReturn { new_state } => {
                match new_state {
                    Some(Ok(v)) => {
                        self.value = v;
                    },
                    _ => {},
                }
                let mut m = String::from_str(name);
                m.append(": closure returned or assigned a non-serialisable value (closure, resource, non-Shareable object)");
                Err((SharedError::Type, m))
            },
            InvokeOutcome::NotCallable => {
                let mut m = String::from_str(name);
                m.append(": arg is not a valid callable");
                Err((SharedError::Type, m))
            },
        }
    }
}

/// Before waiting for the lock: a waiter that the wait-for-cycle detector
/// has already asked to back off gives up with a deadlock error.
pub fn break_before_wait(cycle_broken: bool) -> (r: Result<(), (SharedError, String)>)
    ensures
        r is Ok <==> !cycle_broken,
        r matches Err((e, m)) ==> e == SharedError::Deadlock && m@ == "Mutex::with: detected wait-for cycle; breaking"@,
{
    if cycle_broken {
        return Err((SharedError::Deadlock, String::from_str("Mutex::with: detected wait-for cycle; breaking")));
    }
    Ok(())
}

/// One turn of a wait without a deadline that ended without the lock: the
/// mutex corrupted meanwhile ends the wait with a panic error; otherwise a
/// back-off request from the wait-for-cycle detector ends it with a
/// deadlock error; otherwise the waiter waits on (`None`).
pub fn forever_wait_step(corrupted: bool, cycle_broken: bool) -> (r: Option<(SharedError, String)>)
    ensures
        corrupted ==> (r matches Some((e, m)) && e == SharedError::Panicked
            && m@ == "Mutex::with: corrupted during wait"@),
        !corrupted && cycle_broken ==> (r matches Some((e, m)) && e == SharedError::Deadlock
            && m@ == "Mutex::with: wait-for cycle detected during forever wait"@),
        !corrupted && !cycle_broken ==> r is None,
{
    if corrupted {
        Some((SharedError::Panicked, String::from_str("Mutex::with: corrupted during wait")))
    } else if cycle_broken {
        Some((SharedError::Deadlock, String::from_str("Mutex::with: wait-for cycle detected during forever wait")))
    } else {
        None
    }
}

/// Message of a lock that could not be taken in time.
pub open spec fn acquire_timeout_message(timeout_ms: i64) -> Seq<char> {
    "mutex acquire timed out (timeout_ms="@ + signed_decimal(timeout_ms as int) + ")"@
}

/// Why a lock was not taken: a deadlock when the wait-for-cycle detector
/// asked this waiter to back off, else a timeout; a failed try-lock is
/// contention, reported as a timeout as well.
pub fn acquire_failure(op: LockOp, timeout_ms: i64, cycle_broken: bool) -> (r: (SharedError, String))
    ensures
        op == LockOp::With && cycle_broken ==> r.0 == SharedError::Deadlock
            && r.1@ == "Mutex::with: wait-for cycle detected during timeout"@,
        op == LockOp::With && !cycle_broken ==> r.0 == SharedError::Timeout && r.1@ == acquire_timeout_message(timeout_ms),
        op == LockOp::TryWith ==> r.0 == SharedError::Timeout
            && r.1@ == "mutex contended; tryWithLock returning ContentionException"@,
{
    match op {
        LockOp::TryWith => (SharedError::Timeout, String::from_str("mutex contended; tryWithLock returning ContentionException")),
        LockOp::With => {
            if cycle_broken {
                (SharedError::Deadlock, String::from_str("Mutex::with: wait-for cycle detected during timeout"))
            } else {
                let mut m = String::from_str("mutex acquire timed out (timeout_ms=");
                push_signed_decimal(&mut m, timeout_ms);
                m.append(")");
                (SharedError::Timeout, m)
            }
        },
    }
}

} // verus!
