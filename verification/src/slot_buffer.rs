//! The bounded first-in first-out buffer under a channel, kept in a
//! `crossbeam_channel` bounded channel whose two ends are owned together,
//! and the small front stash beside it, kept in a `smallvec::SmallVec`.

use vstd::prelude::*;
use crate::channel::{Payload, PayloadView};

verus! {

/// Largest capacity taken for the underlying bounded channel: its ring
/// index packs a lap counter above the slot index and refuses a capacity
/// whose doubled next power of two overflows the index word.
pub const MAX_SLOT_CAPACITY: usize = usize::MAX / 4;

/// Both ends of one bounded crossbeam channel. Holding the receiver beside
/// the sender means the channel is never disconnected while the buffer
/// lives; its contents are reachable only through the pair, so the pair is
/// what the specification names.
#[verifier::external_body]
pub struct SlotBuffer {
    tx: crossbeam_channel::Sender<Payload>,
    rx: crossbeam_channel::Receiver<Payload>,
}

/// The payloads the buffer holds, oldest first.
pub uninterp spec fn slot_contents(b: SlotBuffer) -> Seq<PayloadView>;

/// The capacity the buffer was made with.
pub uninterp spec fn slot_limit(b: SlotBuffer) -> nat;

impl SlotBuffer {
    /// `crossbeam_channel::bounded(cap)`: an empty array-backed channel of
    /// `cap` slots (a capacity of zero would make a rendezvous channel, and
    /// an oversized one panics, so both are excluded).
    #[verifier::external_body]
    pub fn with_capacity(cap: usize) -> (b: SlotBuffer)
        requires
            0 < cap <= MAX_SLOT_CAPACITY,
        ensures
            slot_contents(b) == Seq::<PayloadView>::empty(),
            slot_limit(b) == cap,
    {
        let (tx, rx) = crossbeam_channel::bounded(cap);
        SlotBuffer { tx, rx }
    }

    /// `Sender::try_send`: appends `p` behind the newest payload when a slot
    /// is free, and otherwise hands `p` back untouched. The receiver lives
    /// in the same value, so the disconnected outcome cannot occur; it is
    /// mapped to the same hand-back.
    #[verifier::external_body]
    pub fn try_push(&mut self, p: Payload) -> (r: Result<(), Payload>)
        ensures
            slot_limit(*final(self)) == slot_limit(*old(self)),
            slot_contents(*old(self)).len() < slot_limit(*old(self)) ==> {
                &&& r is Ok
                &&& slot_contents(*final(self)) == slot_contents(*old(self)).push(p@)
            },
            slot_contents(*old(self)).len() >= slot_limit(*old(self)) ==> {
                &&& r matches Err(q) && q@ == p@
                &&& slot_contents(*final(self)) == slot_contents(*old(self))
            },
    {
        match self.tx.try_send(p) {
            Ok(()) => Ok(()),
            Err(crossbeam_channel::TrySendError::Full(q)) => Err(q),
            Err(crossbeam_channel::TrySendError::Disconnected(q)) => Err(q),
        }
    }

    /// `Receiver::try_recv`: takes out the oldest payload, if any.
    #[verifier::external_body]
    pub fn try_pop(&mut self) -> (r: Option<Payload>)
        ensures
            slot_limit(*final(self)) == slot_limit(*old(self)),
            slot_contents(*old(self)).len() == 0 ==> {
                &&& r is None
                &&& slot_contents(*final(self)) == slot_contents(*old(self))
            },
            slot_contents(*old(self)).len() > 0 ==> {
                &&& r matches Some(q) && q@ == slot_contents(*old(self))[0]
                &&& slot_contents(*final(self)) == slot_contents(*old(self)).drop_first()
            },
    {
        self.rx.try_recv().ok()
    }
}

/// The front stash of a channel: payloads put back at the front of the
/// stream, oldest first, in a `SmallVec` that holds two inline.
#[verifier::external_body]
pub struct FrontStash {
    items: smallvec::SmallVec<[Payload; 2]>,
}

/// The payloads a front stash holds, oldest first.
pub uninterp spec fn stash_items(s: FrontStash) -> Seq<PayloadView>;

impl FrontStash {
    /// `SmallVec::new`: an empty stash.
    #[verifier::external_body]
    pub(crate) fn new() -> (s: FrontStash)
        ensures
            stash_items(s) == Seq::<PayloadView>::empty(),
    {
        FrontStash { items: smallvec::SmallVec::new() }
    }

    /// `SmallVec::len`: the number of payloads held.
    #[verifier::external_body]
    pub(crate) fn len(&self) -> (n: usize)
        ensures
            n == stash_items(*self).len(),
    {
        self.items.len()
    }

    /// `SmallVec::push`: appends `p` at the back (with room to count one
    /// more, since a full count would panic).
    #[verifier::external_body]
    pub(crate) fn push(&mut self, p: Payload)
        requires
            stash_items(*old(self)).len() < usize::MAX,
        ensures
            stash_items(*final(self)) == stash_items(*old(self)).push(p@),
    {
        self.items.push(p)
    }

    /// `SmallVec::remove(0)`: takes out the oldest payload, shifting the
    /// rest forward (an empty stash would panic, so it is excluded).
    #[verifier::external_body]
    pub(crate) fn remove_front(&mut self) -> (p: Payload)
        requires
            stash_items(*old(self)).len() > 0,
        ensures
            p@ == stash_items(*old(self))[0],
            stash_items(*final(self)) == stash_items(*old(self)).drop_first(),
    {
        self.items.remove(0)
    }
}

} // verus!
