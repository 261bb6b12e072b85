//! Status codes coming back across the engine boundary, turned into the
//! exceptions each primitive raises. The message is the text the failing
//! call left behind.

use vstd::prelude::*;
use crate::error::{PhpError, SharedError};
use crate::atomic::is_exception;

verus! {

pub open spec fn stale_class() -> Seq<char> { "OxPHP\\Shared\\StaleHandleException"@ }
pub open spec fn type_class() -> Seq<char> { "OxPHP\\Shared\\TypeException"@ }
pub open spec fn capacity_class() -> Seq<char> { "OxPHP\\Shared\\CapacityException"@ }
pub open spec fn closed_class() -> Seq<char> { "OxPHP\\Shared\\ClosedException"@ }
pub open spec fn op_timeout_class() -> Seq<char> { "OxPHP\\Shared\\OperationTimeoutException"@ }
pub open spec fn timeout_class() -> Seq<char> { "OxPHP\\Shared\\TimeoutException"@ }
pub open spec fn deadlock_class() -> Seq<char> { "OxPHP\\Shared\\DeadlockException"@ }
pub open spec fn cycle_class() -> Seq<char> { "OxPHP\\Shared\\CycleException"@ }
pub open spec fn uninit_class() -> Seq<char> { "OxPHP\\Shared\\UninitializedException"@ }
pub open spec fn too_large_class() -> Seq<char> { "OxPHP\\Shared\\ValueTooLargeException"@ }
pub open spec fn poisoned_class() -> Seq<char> { "OxPHP\\Shared\\PoisonedException"@ }
pub open spec fn corrupted_class() -> Seq<char> { "OxPHP\\Shared\\CorruptedMutexException"@ }
pub open spec fn shared_class() -> Seq<char> { "OxPHP\\Shared\\SharedException"@ }

fn exception(class: &str, message: String) -> (e: PhpError)
    ensures
        is_exception(e, class@, message@),
{
    PhpError::Exception { class: String::from_str(class), message, code: 0 }
}

/// Exception class for a failed atomic operation.
pub open spec fn atomic_rc_class(rc: i32) -> Seq<char> {
    if rc == -2 { stale_class() }
    else if rc == -3 { type_class() }
    else if rc == -4 { capacity_class() }
    else if rc == -10 { uninit_class() }
    else { shared_class() }
}

/// Success on a zero status, else the atomic's exception.
pub fn atomic_rc_to_result(rc: i32, message: String) -> (r: Result<(), PhpError>)
    ensures
        r is Ok <==> rc == 0,
        r matches Err(e) ==> is_exception(e, atomic_rc_class(rc), message@),
{
    if rc == 0 {
        return Ok(());
    }
    let class = if rc == -2 {
        "OxPHP\\Shared\\StaleHandleException"
    } else if rc == -3 {
        "OxPHP\\Shared\\TypeException"
    } else if rc == -4 {
        "OxPHP\\Shared\\CapacityException"
    } else if rc == -10 {
        "OxPHP\\Shared\\UninitializedException"
    } else {
        "OxPHP\\Shared\\SharedException"
    };
    Err(exception(class, message))
}

/// Exception class for a failed counter (and generic shared) operation.
pub open spec fn counter_rc_class(rc: i32) -> Seq<char> {
    if rc == -2 { stale_class() }
    else if rc == -3 { type_class() }
    else if rc == -4 { capacity_class() }
    else if rc == -9 { cycle_class() }
    else if rc == -10 { uninit_class() }
    else { shared_class() }
}

/// Success on a zero status, else the counter's exception.
pub fn counter_rc_to_result(rc: i32, message: String) -> (r: Result<(), PhpError>)
    ensures
        r is Ok <==> rc == 0,
        r matches Err(e) ==> is_exception(e, counter_rc_class(rc), message@),
{
    if rc == 0 {
        return Ok(());
    }
    let class = if rc == -2 {
        "OxPHP\\Shared\\StaleHandleException"
    } else if rc == -3 {
        "OxPHP\\Shared\\TypeException"
    } else if rc == -4 {
        "OxPHP\\Shared\\CapacityException"
    } else if rc == -9 {
        "OxPHP\\Shared\\CycleException"
    } else if rc == -10 {
        "OxPHP\\Shared\\UninitializedException"
    } else {
        "OxPHP\\Shared\\SharedException"
    };
    Err(exception(class, message))
}

/// Exception class for a failed map operation.
pub open spec fn map_rc_class(rc: i32) -> Seq<char> {
    if rc == -11 { too_large_class() } else { counter_rc_class(rc) }
}

/// Law: for each failure a map raises the exception every primitive raises
/// for it (a capacity refusal is a `CapacityException`), and a value too
/// large its own exception.
pub proof fn law_map_exception_classes(e: SharedError)
    ensures
        map_rc_class(e.code_spec()) == (match e {
            SharedError::StaleHandle => "OxPHP\\Shared\\StaleHandleException"@,
            SharedError::Type => "OxPHP\\Shared\\TypeException"@,
            SharedError::CapacityExceeded => "OxPHP\\Shared\\CapacityException"@,
            SharedError::Cycle => "OxPHP\\Shared\\CycleException"@,
            SharedError::Uninitialized => "OxPHP\\Shared\\UninitializedException"@,
            SharedError::ValueTooLarge => "OxPHP\\Shared\\ValueTooLargeException"@,
            _ => "OxPHP\\Shared\\SharedException"@,
        }),
        e != SharedError::ValueTooLarge ==> map_rc_class(e.code_spec()) == counter_rc_class(e.code_spec()),
{
}

/// Success on a zero status, else the map's exception.
pub fn map_rc_to_result(rc: i32, message: String) -> (r: Result<(), PhpError>)
    ensures
        r is Ok <==> rc == 0,
        r matches Err(e) ==> is_exception(e, map_rc_class(rc), message@),
{
    if rc == -11 {
        return Err(exception("OxPHP\\Shared\\ValueTooLargeException", message));
    }
    counter_rc_to_result(rc, message)
}

/// Exception class for a failed channel operation.
pub open spec fn channel_rc_class(rc: i32) -> Seq<char> {
    if rc == -6 { closed_class() }
    else if rc == -7 { op_timeout_class() }
    else if rc == -4 || rc == -9 { counter_rc_class(rc) }
    else { atomic_rc_class(rc) }
}

/// The channel's exception for a status code; it carries no message.
pub fn map_channel_rc(rc: i32) -> (e: PhpError)
    ensures
        is_exception(e, channel_rc_class(rc), Seq::<char>::empty()),
{
    let class = if rc == -2 {
        "OxPHP\\Shared\\StaleHandleException"
    } else if rc == -3 {
        "OxPHP\\Shared\\TypeException"
    } else if rc == -4 {
        "OxPHP\\Shared\\CapacityException"
    } else if rc == -6 {
        "OxPHP\\Shared\\ClosedException"
    } else if rc == -7 {
        "OxPHP\\Shared\\OperationTimeoutException"
    } else if rc == -9 {
        "OxPHP\\Shared\\CycleException"
    } else if rc == -10 {
        "OxPHP\\Shared\\UninitializedException"
    } else {
        "OxPHP\\Shared\\SharedException"
    };
    let empty = String::new();
    proof {
        assert(empty@ =~= Seq::<char>::empty());
    }
    exception(class, empty)
}

/// Exception class for a failed mutex operation; -99 marks a mutex whose
/// holder panicked.
pub open spec fn mutex_rc_class(rc: i32) -> Seq<char> {
    if rc == -7 { op_timeout_class() }
    else if rc == -8 { deadlock_class() }
    else if rc == -99 { corrupted_class() }
    else { atomic_rc_class(rc) }
}

/// The mutex's exception for a non-zero status code.
pub fn mutex_rc_to_phperr(rc: i32, message: String) -> (e: PhpError)
    ensures
        is_exception(e, mutex_rc_class(rc), message@),
{
    let class = if rc == -2 {
        "OxPHP\\Shared\\StaleHandleException"
    } else if rc == -3 {
        "OxPHP\\Shared\\TypeException"
    } else if rc == -4 {
        "OxPHP\\Shared\\CapacityException"
    } else if rc == -7 {
        "OxPHP\\Shared\\OperationTimeoutException"
    } else if rc == -8 {
        "OxPHP\\Shared\\DeadlockException"
    } else if rc == -10 {
        "OxPHP\\Shared\\UninitializedException"
    } else if rc == -99 {
        "OxPHP\\Shared\\CorruptedMutexException"
    } else {
        "OxPHP\\Shared\\SharedException"
    };
    exception(class, message)
}

/// Exception class for a failed pool operation.
pub open spec fn pool_rc_class(rc: i32) -> Seq<char> {
    if rc == -6 { closed_class() }
    else if rc == -7 { timeout_class() }
    else { atomic_rc_class(rc) }
}

/// The pool's error for a non-zero status code. The generic code means the
/// user's callable threw (its exception is already pending) or an internal
/// failure: that is passed through as a free-form error naming the
/// context, so the pending exception is not replaced.
pub fn pool_rc_to_phperr(rc: i32, context: &str, message: String) -> (e: PhpError)
    ensures
        rc == -1 ==> (e matches PhpError::Custom(t) && t@ == context@ + ": "@ + message@),
        rc != -1 ==> is_exception(e, pool_rc_class(rc), message@),
{
    if rc == -1 {
        let mut text = String::from_str(context);
        text.append(": ");
        text.append(message.as_str());
        return PhpError::Custom(text);
    }
    let class = if rc == -2 {
        "OxPHP\\Shared\\StaleHandleException"
    } else if rc == -3 {
        "OxPHP\\Shared\\TypeException"
    } else if rc == -4 {
        "OxPHP\\Shared\\CapacityException"
    } else if rc == -6 {
        "OxPHP\\Shared\\ClosedException"
    } else if rc == -7 {
        "OxPHP\\Shared\\TimeoutException"
    } else if rc == -10 {
        "OxPHP\\Shared\\UninitializedException"
    } else {
        "OxPHP\\Shared\\SharedException"
    };
    exception(class, message)
}

/// Exception class for an error of a lazy-initialisation cell.
pub open spec fn err_class(e: SharedError) -> Seq<char> {
    match e {
        SharedError::StaleHandle => stale_class(),
        SharedError::Type => type_class(),
        SharedError::CapacityExceeded => capacity_class(),
        SharedError::Uninitialized => uninit_class(),
        SharedError::Deadlock => deadlock_class(),
        SharedError::Timeout => op_timeout_class(),
        SharedError::Poisoned => poisoned_class(),
        SharedError::Closed => closed_class(),
        SharedError::Cycle => cycle_class(),
        _ => shared_class(),
    }
}

/// The exception for an error, with the error's own text as message.
pub fn err_to_phperr(e: SharedError, message: String) -> (r: PhpError)
    ensures
        is_exception(r, err_class(e), message@),
{
    let class = match e {
        SharedError::StaleHandle => "OxPHP\\Shared\\StaleHandleException",
        SharedError::Type => "OxPHP\\Shared\\TypeException",
        SharedError::CapacityExceeded => "OxPHP\\Shared\\CapacityException",
        SharedError::Uninitialized => "OxPHP\\Shared\\UninitializedException",
        SharedError::Deadlock => "OxPHP\\Shared\\DeadlockException",
        SharedError::Timeout => "OxPHP\\Shared\\OperationTimeoutException",
        SharedError::Poisoned => "OxPHP\\Shared\\PoisonedException",
        SharedError::Closed => "OxPHP\\Shared\\ClosedException",
        SharedError::Cycle => "OxPHP\\Shared\\CycleException",
        _ => "OxPHP\\Shared\\SharedException",
    };
    exception(class, message)
}


/// A type exception with the given message.
pub fn type_error(msg: &str) -> (e: PhpError)
    ensures
        is_exception(e, type_class(), msg@),
{
    exception("OxPHP\\Shared\\TypeException", String::from_str(msg))
}

/// Message refusing to clone a shared object.
pub open spec fn clone_forbidden_message() -> Seq<char> {
    "Shared instances cannot be cloned. Use cross-thread transfer via oxphp_async(fn() use ($this) {...}) for sharing, or explicitly create a new instance for an independent copy."@
}

/// The exception raised when a script clones a shared object.
pub fn throw_clone_forbidden() -> (e: PhpError)
    ensures
        is_exception(e, shared_class(), clone_forbidden_message()),
{
    exception(
        "OxPHP\\Shared\\SharedException",
        String::from_str(
            "Shared instances cannot be cloned. Use cross-thread transfer via oxphp_async(fn() use ($this) {...}) for sharing, or explicitly create a new instance for an independent copy.",
        ),
    )
}

} // verus!
