//! Counter: a 64-bit integer with get / swap / wrapping add / CAS.

use vstd::prelude::*;

verus! {

/// Two's-complement wrap of a mathematical sum into `i64`.
pub open spec fn wrap_i64(x: int) -> i64 {
    if x > i64::MAX {
        (x - 0x1_0000_0000_0000_0000) as i64
    } else if x < i64::MIN {
        (x + 0x1_0000_0000_0000_0000) as i64
    } else {
        x as i64
    }
}

/// A statistics counter. Its view is the current value.
pub struct CounterInner {
    value: i64,
}

impl View for CounterInner {
    type V = i64;

    closed spec fn view(&self) -> i64 {
        self.value
    }
}

impl CounterInner {
    /// The snapshot shown for debugging: the value.
    pub fn debug_snapshot(&self) -> (v: crate::value::SharedValue)
        ensures
            v@ == crate::value::ValueView::Long(self@),
    {
        crate::value::SharedValue::Long(self.value)
    }

    /// Bytes booked for the counter: its own size.
    pub fn mem_bytes(&self) -> (n: usize)
        ensures
            n as nat == vstd::layout::size_of::<CounterInner>(),
    {
        vstd::layout::layout_for_type_is_valid::<CounterInner>();
        std::mem::size_of::<CounterInner>()
    }

    pub fn new(initial: i64) -> (c: Self)
        ensures
            c@ == initial,
    {
        CounterInner { value: initial }
    }

    pub fn get(&self) -> (v: i64)
        ensures
            v == self@,
    {
        self.value
    }

    /// Replaces the value and returns the previous one.
    pub fn swap(&mut self, v: i64) -> (prev: i64)
        ensures
            prev == old(self)@,
            final(self)@ == v,
    {
        let prev = self.value;
        self.value = v;
        prev
    }

    /// Adds `delta` with two's-complement wrap-around and returns the NEW value.
    pub fn add(&mut self, delta: i64) -> (new: i64)
        ensures
            new == wrap_i64(old(self)@ + delta),
            final(self)@ == new,
    {
        let new = self.value.wrapping_add(delta);
        self.value = new;
        new
    }

    /// Replaces the value with `new` exactly when it equals `expect`;
    /// returns whether it did.
    pub fn compare_and_set(&mut self, expect: i64, new: i64) -> (swapped: bool)
        ensures
            swapped == (old(self)@ == expect),
            final(self)@ == (if swapped { new } else { old(self)@ }),
    {
        if self.value == expect {
            self.value = new;
            true
        } else {
            false
        }
    }
}


/// Law: adding `a` then `b` is adding `a + b`, all with wrap-around.
pub proof fn law_add_associates(x: i64, a: i64, b: i64)
    ensures
        wrap_i64(wrap_i64(x + a) + b) == wrap_i64(x + a + b),
{
}

/// Law: subtracting what was added restores the value, even across a
/// wrap-around.
pub proof fn law_add_then_sub_restores(x: i64, d: i64)
    ensures
        wrap_i64(wrap_i64(x + d) - d) == x,
{
}

/// Law: adding zero changes nothing.
pub proof fn law_add_zero(x: i64)
    ensures
        wrap_i64(x + 0) == x,
{
}

} // verus!
