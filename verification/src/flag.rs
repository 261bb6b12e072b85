//! Flag: the boolean twin of the atomic integer — load / store / swap /
//! compare-and-set, each taking an explicit memory ordering.

use std::sync::atomic::Ordering;
use vstd::prelude::*;

verus! {

/// An atomic boolean. Its view is the current value.
pub struct FlagInner {
    value: bool,
}

impl View for FlagInner {
    type V = bool;

    closed spec fn view(&self) -> bool {
        self.value
    }
}

impl FlagInner {
    /// The snapshot shown for debugging: the value.
    pub fn debug_snapshot(&self) -> (v: crate::value::SharedValue)
        ensures
            v@ == crate::value::ValueView::Bool(self@),
    {
        crate::value::SharedValue::Bool(self.value)
    }

    /// Bytes booked for the flag: its own size.
    pub fn mem_bytes(&self) -> (n: usize)
        ensures
            n as nat == vstd::layout::size_of::<FlagInner>(),
    {
        vstd::layout::layout_for_type_is_valid::<FlagInner>();
        std::mem::size_of::<FlagInner>()
    }

    pub fn new(initial: bool) -> (f: Self)
        ensures
            f@ == initial,
    {
        FlagInner { value: initial }
    }

    pub fn load(&self, order: Ordering) -> (v: bool)
        ensures
            v == self@,
    {
        self.value
    }

    pub fn store(&mut self, v: bool, order: Ordering)
        ensures
            final(self)@ == v,
    {
        self.value = v;
    }

    pub fn swap(&mut self, v: bool, order: Ordering) -> (prev: bool)
        ensures
            prev == old(self)@,
            final(self)@ == v,
    {
        let prev = self.value;
        self.value = v;
        prev
    }

    /// Replaces the value with `new` exactly when it equals `expect`.
    pub fn compare_and_set(&mut self, expect: bool, new: bool, success: Ordering, failure: Ordering) -> (swapped: bool)
        ensures
            swapped == (old(self)@ == expect),
            final(self)@ == (if swapped { new } else { old(self)@ }),
    {
        if self.value == expect {
            self.value = new;
            true
        } else {
            false
        }
    }
}

} // verus!
