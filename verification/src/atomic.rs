//! Atomic: a 64-bit integer with load / store / swap / CAS and the
//! fetch-arithmetic and fetch-bitwise operations, each taking an explicit
//! memory ordering; plus the validation of the ordering arguments that the
//! scripting surface accepts.

use std::sync::atomic::Ordering;
use vstd::prelude::*;
use crate::counter::wrap_i64;
use crate::error::PhpError;
use crate::text::{narrow_to_u8, push_signed_decimal, signed_decimal};

verus! {

/// An atomic 64-bit integer. Its view is the current value. The ordering
/// arguments constrain how the access is ordered against other memory; on a
/// single value they do not change the outcome.
pub struct AtomicInner {
    value: i64,
}

impl View for AtomicInner {
    type V = i64;

    closed spec fn view(&self) -> i64 {
        self.value
    }
}

impl AtomicInner {
    /// The snapshot shown for debugging: the value.
    pub fn debug_snapshot(&self) -> (v: crate::value::SharedValue)
        ensures
            v@ == crate::value::ValueView::Long(self@),
    {
        crate::value::SharedValue::Long(self.value)
    }

    /// Bytes booked for the atomic: its own size.
    pub fn mem_bytes(&self) -> (n: usize)
        ensures
            n as nat == vstd::layout::size_of::<AtomicInner>(),
    {
        vstd::layout::layout_for_type_is_valid::<AtomicInner>();
        std::mem::size_of::<AtomicInner>()
    }

    pub fn new(initial: i64) -> (a: Self)
        ensures
            a@ == initial,
    {
        AtomicInner { value: initial }
    }

    pub fn load(&self, order: Ordering) -> (v: i64)
        ensures
            v == self@,
    {
        self.value
    }

    pub fn store(&mut self, v: i64, order: Ordering)
        ensures
            final(self)@ == v,
    {
        self.value = v;
    }

    pub fn swap(&mut self, v: i64, order: Ordering) -> (prev: i64)
        ensures
            prev == old(self)@,
            final(self)@ == v,
    {
        let prev = self.value;
        self.value = v;
        prev
    }

    /// Replaces the value with `new` exactly when it equals `expect`.
    pub fn compare_and_set(&mut self, expect: i64, new: i64, success: Ordering, failure: Ordering) -> (swapped: bool)
        ensures
            swapped == (old(self)@ == expect),
            final(self)@ == (if swapped { new } else { old(self)@ }),
    {
        if self.value == expect {
            self.value = new;
            true
        } else {
            false
        }
    }

    /// Wrapping add; returns the previous value.
    pub fn fetch_add(&mut self, delta: i64, order: Ordering) -> (prev: i64)
        ensures
            prev == old(self)@,
            final(self)@ == wrap_i64(old(self)@ + delta),
    {
        let prev = self.value;
        self.value = prev.wrapping_add(delta);
        prev
    }

    /// Wrapping subtract; returns the previous value.
    pub fn fetch_sub(&mut self, delta: i64, order: Ordering) -> (prev: i64)
        ensures
            prev == old(self)@,
            final(self)@ == wrap_i64(old(self)@ - delta),
    {
        let prev = self.value;
        self.value = prev.wrapping_sub(delta);
        prev
    }

    /// Bitwise and; returns the previous value.
    pub fn fetch_and(&mut self, mask: i64, order: Ordering) -> (prev: i64)
        ensures
            prev == old(self)@,
            final(self)@ == old(self)@ & mask,
    {
        let prev = self.value;
        self.value = prev & mask;
        prev
    }

    /// Bitwise or; returns the previous value.
    pub fn fetch_or(&mut self, mask: i64, order: Ordering) -> (prev: i64)
        ensures
            prev == old(self)@,
            final(self)@ == old(self)@ | mask,
    {
        let prev = self.value;
        self.value = prev | mask;
        prev
    }

    /// Bitwise exclusive or; returns the previous value.
    pub fn fetch_xor(&mut self, mask: i64, order: Ordering) -> (prev: i64)
        ensures
            prev == old(self)@,
            final(self)@ == old(self)@ ^ mask,
    {
        let prev = self.value;
        self.value = prev ^ mask;
        prev
    }
}

/// The memory ordering that the wire code `v` stands for: 0 Relaxed,
/// 1 Acquire, 2 Release, 3 AcqRel, 4 SeqCst; anything else falls back to
/// SeqCst, the strongest ordering.
pub open spec fn ordering_of_code(v: u8) -> Ordering {
    if v == 0 {
        Ordering::Relaxed
    } else if v == 1 {
        Ordering::Acquire
    } else if v == 2 {
        Ordering::Release
    } else if v == 3 {
        Ordering::AcqRel
    } else {
        Ordering::SeqCst
    }
}

pub fn ordering_from_u8(v: u8) -> (o: Ordering)
    ensures
        o == ordering_of_code(v),
{
    match v {
        0 => Ordering::Relaxed,
        1 => Ordering::Acquire,
        2 => Ordering::Release,
        3 => Ordering::AcqRel,
        _ => Ordering::SeqCst,
    }
}

/// Display name of an ordering code; `"?"` outside `0..=4`.
pub open spec fn ordering_name_of(v: u8) -> Seq<char> {
    if v == 0 {
        "Relaxed"@
    } else if v == 1 {
        "Acquire"@
    } else if v == 2 {
        "Release"@
    } else if v == 3 {
        "AcqRel"@
    } else if v == 4 {
        "SeqCst"@
    } else {
        "?"@
    }
}

pub fn ordering_name(v: u8) -> (name: &'static str)
    ensures
        name@ == ordering_name_of(v),
{
    match v {
        0 => "Relaxed",
        1 => "Acquire",
        2 => "Release",
        3 => "AcqRel",
        4 => "SeqCst",
        _ => "?",
    }
}

/// Class of the exception raised for an ordering the operation cannot use.
pub open spec fn invalid_ordering_class() -> Seq<char> {
    "OxPHP\\Shared\\InvalidOrderingException"@
}

/// Message of that exception for operation `op`, code `v` and the list of
/// allowed orderings.
pub open spec fn invalid_ordering_message(op: Seq<char>, v: u8, allowed: Seq<char>) -> Seq<char> {
    op + "() cannot use Ordering::"@ + ordering_name_of(v) + " — allowed: "@ + allowed
}

/// `e` is the exception with the given class and message and code 0.
pub open spec fn is_exception(e: PhpError, class: Seq<char>, message: Seq<char>) -> bool {
    match e {
        PhpError::Exception { class: c, message: m, code } => c@ == class && m@ == message && code == 0,
        PhpError::Custom(_) => false,
    }
}

pub fn invalid_ordering(op: &str, v: u8, allowed: &str) -> (e: PhpError)
    ensures
        is_exception(e, invalid_ordering_class(), invalid_ordering_message(op@, v, allowed@)),
{
    let mut message = String::from_str(op);
    message.append("() cannot use Ordering::");
    message.append(ordering_name(v));
    message.append(" — allowed: ");
    message.append(allowed);
    PhpError::Exception {
        class: String::from_str("OxPHP\\Shared\\InvalidOrderingException"),
        message,
        code: 0,
    }
}

/// Orderings a load may use: Relaxed, Acquire, SeqCst.
pub open spec fn load_ordering_ok(v: u8) -> bool {
    v == 0 || v == 1 || v == 4
}

/// Orderings a store may use: Relaxed, Release, SeqCst.
pub open spec fn store_ordering_ok(v: u8) -> bool {
    v == 0 || v == 2 || v == 4
}

pub fn validate_ordering_for_load(v: u8) -> (r: Result<(), PhpError>)
    ensures
        r is Ok <==> load_ordering_ok(v),
        r matches Err(e) ==> is_exception(e, invalid_ordering_class(),
            invalid_ordering_message("load"@, v, "Relaxed, Acquire, SeqCst"@)),
{
    match v {
        0 | 1 | 4 => Ok(()),
        _ => Err(invalid_ordering("load", v, "Relaxed, Acquire, SeqCst")),
    }
}

pub fn validate_ordering_for_store(v: u8) -> (r: Result<(), PhpError>)
    ensures
        r is Ok <==> store_ordering_ok(v),
        r matches Err(e) ==> is_exception(e, invalid_ordering_class(),
            invalid_ordering_message("store"@, v, "Relaxed, Release, SeqCst"@)),
{
    match v {
        0 | 2 | 4 => Ok(()),
        _ => Err(invalid_ordering("store", v, "Relaxed, Release, SeqCst")),
    }
}

/// The failure ordering of a compare-and-set obeys the load rules.
pub fn validate_cas_failure_ordering(v: u8) -> (r: Result<(), PhpError>)
    ensures
        r is Ok <==> load_ordering_ok(v),
        r matches Err(e) ==> is_exception(e, invalid_ordering_class(),
            invalid_ordering_message("compareAndSet failure"@, v, "Relaxed, Acquire, SeqCst"@)),
{
    match v {
        0 | 1 | 4 => Ok(()),
        _ => Err(invalid_ordering("compareAndSet failure", v, "Relaxed, Acquire, SeqCst")),
    }
}

/// Message for an ordering argument outside `0..=4`.
pub open spec fn order_range_message(v: int) -> Seq<char> {
    "Ordering value "@ + signed_decimal(v)
        + " out of range — expected 0..=4 (Relaxed, Acquire, Release, AcqRel, SeqCst)"@
}

/// Decodes the optional ordering argument of a call: absent means SeqCst
/// (4); a value in `0..=4` is passed through; anything else is rejected.
pub fn read_order_arg(arg: Option<i64>) -> (r: Result<u8, PhpError>)
    ensures
        arg is None ==> r == Ok::<u8, PhpError>(4u8),
        arg matches Some(v) ==> (0 <= v <= 4 <==> r is Ok),
        arg matches Some(v) ==> (r matches Ok(o) ==> o == v),
        arg matches Some(v) ==> (r matches Err(e) ==> is_exception(e, invalid_ordering_class(),
            order_range_message(v as int))),
{
    match arg {
        None => Ok(4),
        Some(v) => {
            if 0 <= v && v <= 4 {
                Ok(narrow_to_u8(v))
            } else {
                let mut message = String::from_str("Ordering value ");
                push_signed_decimal(&mut message, v);
                message.append(
                    " out of range — expected 0..=4 (Relaxed, Acquire, Release, AcqRel, SeqCst)",
                );
                Err(PhpError::Exception {
                    class: String::from_str("OxPHP\\Shared\\InvalidOrderingException"),
                    message,
                    code: 0,
                })
            }
        }
    }
}

/// Default value expression of an ordering parameter.
pub fn order_default() -> (s: String)
    ensures
        s@ == "\\OxPHP\\Shared\\Ordering::SeqCst"@,
{
    String::from_str("\\OxPHP\\Shared\\Ordering::SeqCst")
}

/// Enum type of an ordering parameter.
pub fn order_type() -> (s: String)
    ensures
        s@ == "OxPHP\\Shared\\Ordering"@,
{
    String::from_str("OxPHP\\Shared\\Ordering")
}


/// Law: exclusive-or with the same mask twice restores the value.
pub proof fn law_xor_twice_restores(x: i64, m: i64)
    ensures
        (x ^ m) ^ m == x,
{
    assert((x ^ m) ^ m == x) by (bit_vector);
}

/// Law: and-ing with all bits set, or or-ing with none, changes nothing;
/// and-ing with no bits clears the value.
pub proof fn law_bitwise_identities(x: i64)
    ensures
        x & -1i64 == x,
        x | 0i64 == x,
        x & 0i64 == 0,
{
    assert(x & -1i64 == x) by (bit_vector);
    assert(x | 0i64 == x) by (bit_vector);
    assert(x & 0i64 == 0) by (bit_vector);
}

} // verus!
