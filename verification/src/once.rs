//! Once: a lazy-initialisation cell. It moves from Uninitialized to Ready
//! (a value is stored, and never changes again) or, under the Poison
//! failure mode, to Poisoned (terminal, carrying the factory's failure).

use vstd::prelude::*;
use crate::error::PhpError;
use crate::error::SharedError;
use crate::value::{SharedValue, ValueView};

verus! {

pub const ST_UNINIT: u8 = 0;
pub const ST_PENDING: u8 = 1;
pub const ST_READY: u8 = 2;
pub const ST_POISONED: u8 = 3;

/// What a failing factory does to the cell: Reset leaves it retryable,
/// Poison makes it terminally Poisoned.
#[derive(Copy, Clone, PartialEq, Eq, Debug, Structural)]
pub enum OnceFailureMode {
    Reset,
    Poison,
}

impl OnceFailureMode {
    /// Decodes the backing integer (Reset = 0, Poison = 1); any other value
    /// is the safe default, Reset.
    pub fn from_i64(v: i64) -> (m: Self)
        ensures
            m == (if v == 1 { OnceFailureMode::Poison } else { OnceFailureMode::Reset }),
    {
        match v {
            1 => OnceFailureMode::Poison,
            _ => OnceFailureMode::Reset,
        }
    }
}

/// Abstract poison record.
pub struct PoisonView {
    pub class: Seq<char>,
    pub message: Seq<char>,
    pub code: i64,
}

/// The exception a failed factory raised.
#[derive(Clone, Debug)]
pub struct PoisonInfo {
    pub class: String,
    pub message: String,
    pub code: i64,
}

impl View for PoisonInfo {
    type V = PoisonView;

    open spec fn view(&self) -> PoisonView {
        PoisonView { class: self.class@, message: self.message@, code: self.code }
    }
}

impl PoisonInfo {
    /// A copy with the same abstract value.
    pub fn duplicate(&self) -> (r: PoisonInfo)
        ensures
            r@ == self@,
    {
        PoisonInfo { class: self.class.clone(), message: self.message.clone(), code: self.code }
    }
}

impl PartialEq for PoisonInfo {
    fn eq(&self, other: &PoisonInfo) -> (r: bool) {
        self.class == other.class && self.message == other.message && self.code == other.code
    }
}

impl vstd::std_specs::cmp::PartialEqSpecImpl for PoisonInfo {
    open spec fn obeys_eq_spec() -> bool {
        true
    }

    open spec fn eq_spec(&self, other: &PoisonInfo) -> bool {
        self@ == other@
    }
}

impl Eq for PoisonInfo {}

/// How a factory run failed. `Threw` and `NotSerialisable` are factory
/// failures and honour the failure mode; `Invalid` (the argument was not
/// callable) always leaves the cell retryable.
#[derive(Clone, Debug)]
pub enum OnceFactoryError {
    Threw(PoisonInfo),
    Invalid,
    NotSerialisable,
}

/// Observable state of a cell. (Pending exists only while a factory runs,
/// inside `get_or_init`.)
pub enum OnceStatus {
    Uninitialized,
    Ready(ValueView),
    Poisoned(PoisonView),
}

/// Numeric code of a status as reported by `state()`.
pub open spec fn status_code(s: OnceStatus) -> u8 {
    match s {
        OnceStatus::Uninitialized => ST_UNINIT,
        OnceStatus::Ready(_) => ST_READY,
        OnceStatus::Poisoned(_) => ST_POISONED,
    }
}

/// Poison record stored when a factory returns a value that cannot be
/// shared.
pub open spec fn not_serialisable_poison() -> PoisonView {
    PoisonView {
        class: "OxPHP\\Shared\\TypeException"@,
        message: "factory returned a non-serialisable value (closure / resource / non-Shareable object)"@,
        code: 0,
    }
}

/// Status after a factory run with outcome `o` under `mode`.
pub open spec fn status_after(mode: OnceFailureMode, o: Result<SharedValue, OnceFactoryError>) -> OnceStatus {
    match o {
        Ok(v) => OnceStatus::Ready(v@),
        Err(OnceFactoryError::Threw(info)) => if mode == OnceFailureMode::Poison {
            OnceStatus::Poisoned(info@)
        } else {
            OnceStatus::Uninitialized
        },
        Err(OnceFactoryError::NotSerialisable) => if mode == OnceFailureMode::Poison {
            OnceStatus::Poisoned(not_serialisable_poison())
        } else {
            OnceStatus::Uninitialized
        },
        Err(OnceFactoryError::Invalid) => OnceStatus::Uninitialized,
    }
}

/// `r` is what a factory run with outcome `o` returns to the caller: the
/// value, Generic for a throw (the scripting exception stays pending), Type
/// for an unusable callable or an unshareable value.
pub open spec fn result_after(o: Result<SharedValue, OnceFactoryError>, r: Result<SharedValue, SharedError>) -> bool {
    match o {
        Ok(v) => r matches Ok(x) && x@ == v@,
        Err(OnceFactoryError::Threw(_)) => r == Err::<SharedValue, SharedError>(SharedError::Generic),
        Err(_) => r == Err::<SharedValue, SharedError>(SharedError::Type),
    }
}

/// What a read of the cell gives in a status: the value when Ready.
pub open spec fn read_view(s: OnceStatus) -> Option<ValueView> {
    match s {
        OnceStatus::Ready(v) => Some(v),
        _ => None,
    }
}

/// The status a push-model write of `v` leaves: only an Uninitialized cell
/// takes it.
pub open spec fn status_after_set(s: OnceStatus, v: ValueView) -> OnceStatus {
    match s {
        OnceStatus::Uninitialized => OnceStatus::Ready(v),
        _ => s,
    }
}

pub struct OnceInner {
    state: u8,
    value: Option<SharedValue>,
    poison: Option<PoisonInfo>,
    failure_mode: OnceFailureMode,
}

impl OnceInner {
    #[verifier::type_invariant]
    spec fn well_formed(self) -> bool {
        &&& (self.state == ST_UNINIT || self.state == ST_READY || self.state == ST_POISONED)
        &&& (self.state == ST_READY <==> self.value is Some)
        &&& (self.state == ST_POISONED <==> self.poison is Some)
    }

    pub closed spec fn status(&self) -> OnceStatus {
        if self.state == ST_READY {
            OnceStatus::Ready(self.value->0@)
        } else if self.state == ST_POISONED {
            OnceStatus::Poisoned(self.poison->0@)
        } else {
            OnceStatus::Uninitialized
        }
    }

    pub closed spec fn mode(&self) -> OnceFailureMode {
        self.failure_mode
    }

    pub fn new() -> (c: Self)
        ensures
            c.status() is Uninitialized,
            c.mode() == OnceFailureMode::Reset,
    {
        Self::with_mode(OnceFailureMode::Reset)
    }

    pub fn with_mode(failure_mode: OnceFailureMode) -> (c: Self)
        ensures
            c.status() is Uninitialized,
            c.mode() == failure_mode,
    {
        OnceInner { state: ST_UNINIT, value: None, poison: None, failure_mode }
    }

    pub fn state(&self) -> (s: u8)
        ensures
            s == status_code(self.status()),
    {
        proof {
            use_type_invariant(self);
        }
        self.state
    }

    pub fn failure_mode(&self) -> (m: OnceFailureMode)
        ensures
            m == self.mode(),
    {
        self.failure_mode
    }

    /// The snapshot shown for debugging: the value, or null when there is
    /// none.
    pub fn debug_snapshot(&self) -> (v: SharedValue)
        ensures
            v@ == (match read_view(self.status()) { Some(x) => x, None => ValueView::Null }),
    {
        match self.get() {
            Some(v) => v,
            None => SharedValue::Null,
        }
    }

    /// The value, if and only if the cell is Ready.
    pub fn get(&self) -> (r: Option<SharedValue>)
        ensures
            crate::map::opt_view(r) == read_view(self.status()),
            match self.status() {
                OnceStatus::Ready(v) => r matches Some(x) && x@ == v,
                _ => r is None,
            },
    {
        proof {
            use_type_invariant(self);
        }
        if self.state == ST_READY {
            match &self.value {
                Some(v) => Some(v.duplicate()),
                None => None,
            }
        } else {
            None
        }
    }

    /// The failure record, if and only if the cell is Poisoned.
    pub fn poison_info(&self) -> (r: Option<PoisonInfo>)
        ensures
            match self.status() {
                OnceStatus::Poisoned(p) => r matches Some(x) && x@ == p,
                _ => r is None,
            },
    {
        proof {
            use_type_invariant(self);
        }
        match &self.poison {
            Some(p) => Some(p.duplicate()),
            None => None,
        }
    }

    /// Push-model write: stores `v` if the cell is Uninitialized
    /// (`Ok(true)`), leaves a Ready cell alone (`Ok(false)`), and refuses on a
    /// Poisoned cell.
    pub fn try_set(&mut self, v: SharedValue) -> (r: Result<bool, SharedError>)
        ensures
            old(self).mode() == final(self).mode(),
            final(self).status() == status_after_set(old(self).status(), v@),
            match old(self).status() {
                OnceStatus::Uninitialized => r == Ok::<bool, SharedError>(true)
                    && final(self).status() == OnceStatus::Ready(v@),
                OnceStatus::Ready(_) => r == Ok::<bool, SharedError>(false)
                    && final(self).status() == old(self).status(),
                OnceStatus::Poisoned(_) => r == Err::<bool, SharedError>(SharedError::Poisoned)
                    && final(self).status() == old(self).status(),
            },
    {
        proof {
            use_type_invariant(&*self);
        }
        if self.state == ST_POISONED {
            return Err(SharedError::Poisoned);
        }
        if self.state == ST_READY {
            return Ok(false);
        }
        let mode = self.failure_mode;
        *self = OnceInner { state: ST_READY, value: Some(v), poison: None, failure_mode: mode };
        Ok(true)
    }

    /// Settles an initialisation round from the factory's outcome: a value
    /// makes the cell Ready; a failure resets or poisons it per the failure
    /// mode (an unusable callable always resets).
    pub fn finish_init(&mut self, outcome: Result<SharedValue, OnceFactoryError>) -> (r: Result<SharedValue, SharedError>)
        requires
            old(self).status() is Uninitialized,
        ensures
            final(self).mode() == old(self).mode(),
            final(self).status() == status_after(old(self).mode(), outcome),
            result_after(outcome, r),
    {
        proof {
            use_type_invariant(&*self);
        }
        match outcome {
            Ok(v) => {
                let out = v.duplicate();
                let mode = self.failure_mode;
                *self = OnceInner { state: ST_READY, value: Some(v), poison: None, failure_mode: mode };
                Ok(out)
            }
            Err(OnceFactoryError::Threw(info)) => {
                match self.failure_mode {
                    OnceFailureMode::Reset => {}
                    OnceFailureMode::Poison => {
                        *self = OnceInner {
                            state: ST_POISONED,
                            value: None,
                            poison: Some(info),
                            failure_mode: OnceFailureMode::Poison,
                        };
                    }
                }
                Err(SharedError::Generic)
            }
            Err(OnceFactoryError::NotSerialisable) => {
                match self.failure_mode {
                    OnceFailureMode::Reset => {}
                    OnceFailureMode::Poison => {
                        let info = PoisonInfo {
                            class: String::from_str("OxPHP\\Shared\\TypeException"),
                            message: String::from_str(
                                "factory returned a non-serialisable value (closure / resource / non-Shareable object)",
                            ),
                            code: 0,
                        };
                        *self = OnceInner {
                            state: ST_POISONED,
                            value: None,
                            poison: Some(info),
                            failure_mode: OnceFailureMode::Poison,
                        };
                    }
                }
                Err(SharedError::Type)
            }
            Err(OnceFactoryError::Invalid) => Err(SharedError::Type),
        }
    }

    /// Pull-model get-or-init: a Ready cell returns its value, a Poisoned one
    /// refuses; otherwise `factory` runs once and its outcome settles the
    /// cell (see `finish_init`).
    pub fn get_or_init<F>(&mut self, factory: F) -> (r: Result<SharedValue, SharedError>)
        where
            F: FnOnce() -> Result<SharedValue, OnceFactoryError>,
        requires
            call_requires(factory, ()),
        ensures
            final(self).mode() == old(self).mode(),
            match old(self).status() {
                OnceStatus::Ready(v) => (r matches Ok(x) && x@ == v) && final(self).status() == old(self).status(),
                OnceStatus::Poisoned(_) => r == Err::<SharedValue, SharedError>(SharedError::Poisoned)
                    && final(self).status() == old(self).status(),
                OnceStatus::Uninitialized => exists|o: Result<SharedValue, OnceFactoryError>|
                    #[trigger] call_ensures(factory, (), o)
                    && final(self).status() == status_after(old(self).mode(), o)
                    && result_after(o, r),
            },
    {
        proof {
            use_type_invariant(&*self);
        }
        if self.state == ST_READY {
            match &self.value {
                Some(v) => return Ok(v.duplicate()),
                None => return Err(SharedError::Generic),
            }
        }
        if self.state == ST_POISONED {
            return Err(SharedError::Poisoned);
        }
        let outcome = factory();
        self.finish_init(outcome)
    }
}

/// The once cells whose initialisation is running on one thread, in the
/// order it began, kept in a `SmallVec` that holds four inline.
#[verifier::external_body]
pub struct HeldOnces {
    ids: smallvec::SmallVec<[u64; 4]>,
}

/// The ids a `HeldOnces` holds, in order.
pub uninterp spec fn held_ids(h: HeldOnces) -> Seq<u64>;

impl HeldOnces {
    /// `SmallVec::new`: no cell held.
    #[verifier::external_body]
    fn fresh() -> (h: HeldOnces)
        ensures
            held_ids(h) == Seq::<u64>::empty(),
    {
        HeldOnces { ids: smallvec::SmallVec::new() }
    }

    /// `SmallVec::len`.
    #[verifier::external_body]
    fn len(&self) -> (n: usize)
        ensures
            n == held_ids(*self).len(),
    {
        self.ids.len()
    }

    /// Indexing a `SmallVec` (in bounds, since out of bounds panics).
    #[verifier::external_body]
    fn at(&self, i: usize) -> (x: u64)
        requires
            i < held_ids(*self).len(),
        ensures
            x == held_ids(*self)[i as int],
    {
        self.ids[i]
    }

    /// `SmallVec::push` (with room to count one more, since a full count
    /// would panic).
    #[verifier::external_body]
    fn push(&mut self, x: u64)
        requires
            held_ids(*old(self)).len() < usize::MAX,
        ensures
            held_ids(*final(self)) == held_ids(*old(self)).push(x),
    {
        self.ids.push(x)
    }

    /// `SmallVec::swap_remove`: the last id takes the place of the one at
    /// `i` (in bounds, since out of bounds panics).
    #[verifier::external_body]
    fn swap_remove(&mut self, i: usize)
        requires
            i < held_ids(*old(self)).len(),
        ensures
            held_ids(*final(self)) == held_ids(*old(self)).update(i as int, held_ids(*old(self)).last()).drop_last(),
    {
        let _ = self.ids.swap_remove(i);
    }

    /// No cell held.
    pub fn new() -> (h: HeldOnces)
        ensures
            held_ids(h).len() == 0,
    {
        HeldOnces::fresh()
    }
}

/// Marks once-cell `id` as being initialised on the current thread; refuses
/// (Deadlock) when it already is, which would be a factory re-entering its
/// own cell.
pub fn push_once_held(held: &mut HeldOnces, id: u64) -> (r: Result<(), SharedError>)
    requires
        held_ids(*old(held)).len() < usize::MAX,
    ensures
        r is Err <==> held_ids(*old(held)).contains(id),
        r is Err ==> r == Err::<(), SharedError>(SharedError::Deadlock) && held_ids(*final(held)) == held_ids(*old(held)),
        r is Ok ==> held_ids(*final(held)) == held_ids(*old(held)).push(id),
{
    let n = held.len();
    let mut i: usize = 0;
    while i < n
        invariant
            n == held_ids(*held).len(),
            *held == *old(held),
            i <= n,
            forall|j: int| 0 <= j < i ==> held_ids(*held)[j] != id,
        decreases n - i,
    {
        if held.at(i) == id {
            return Err(SharedError::Deadlock);
        }
        i = i + 1;
    }
    held.push(id);
    Ok(())
}

/// Clears the mark for once-cell `id`: removes its last occurrence (the
/// last element takes its place); no-op when absent.
pub fn pop_once_held(held: &mut HeldOnces, id: u64)
    ensures
        !held_ids(*old(held)).contains(id) ==> held_ids(*final(held)) == held_ids(*old(held)),
        held_ids(*old(held)).contains(id) ==> exists|i: int| 0 <= i < held_ids(*old(held)).len()
            && held_ids(*old(held))[i] == id
            && (forall|j: int| i < j < held_ids(*old(held)).len() ==> held_ids(*old(held))[j] != id)
            && held_ids(*final(held)) == held_ids(*old(held)).update(i, held_ids(*old(held)).last()).drop_last(),
{
    let mut i: usize = held.len();
    while i > 0
        invariant
            i <= held_ids(*held).len(),
            *held == *old(held),
            forall|j: int| i <= j < held_ids(*held).len() ==> held_ids(*held)[j] != id,
        decreases i,
    {
        if held.at(i - 1) == id {
            held.swap_remove(i - 1);
            return;
        }
        i = i - 1;
    }
}


/// Message of the exception raised by a poisoned cell.
pub open spec fn poisoned_message(status: OnceStatus) -> Seq<char> {
    match status {
        OnceStatus::Poisoned(p) => "Once poisoned by failed factory: "@ + p.class + ": "@ + p.message,
        _ => "Once poisoned by failed factory"@,
    }
}

/// The exception a poisoned cell raises: it names the class and message of
/// the factory's original exception and carries that exception's code.
pub fn poisoned_error(inner: &OnceInner) -> (e: PhpError)
    ensures
        e matches PhpError::Exception { class, message, code } && class@ == "OxPHP\\Shared\\PoisonedException"@
            && message@ == poisoned_message(inner.status())
            && code == (match inner.status() { OnceStatus::Poisoned(p) => p.code, _ => 0 }),
{
    let (message, code) = match inner.poison_info() {
        Some(p) => {
            let mut m = String::from_str("Once poisoned by failed factory: ");
            m.append(p.class.as_str());
            m.append(": ");
            m.append(p.message.as_str());
            (m, p.code)
        },
        None => (String::from_str("Once poisoned by failed factory"), 0),
    };
    PhpError::Exception { class: String::from_str("OxPHP\\Shared\\PoisonedException"), message, code }
}


/// Law: a read after a successful first write gives back what was
/// written, and a later write does not change it (the first write wins).
pub proof fn law_first_write_wins(v1: ValueView, v2: ValueView)
    ensures
        read_view(status_after_set(OnceStatus::Uninitialized, v1)) == Some(v1),
        read_view(status_after_set(status_after_set(OnceStatus::Uninitialized, v1), v2)) == Some(v1),
{
}

/// Law: a settled cell (Ready or Poisoned) stays exactly as it is under a
/// write, and a factory is never run for it.
pub proof fn law_settled_is_final(s: OnceStatus, v: ValueView)
    requires
        !(s is Uninitialized),
    ensures
        status_after_set(s, v) == s,
{
}

/// Law: under the Reset failure mode no factory outcome poisons the cell.
pub proof fn law_reset_never_poisons(o: Result<SharedValue, OnceFactoryError>)
    ensures
        !(status_after(OnceFailureMode::Reset, o) is Poisoned),
{
}

/// Law: an argument that is not callable leaves the cell retryable under
/// either failure mode.
pub proof fn law_invalid_callable_resets(mode: OnceFailureMode)
    ensures
        status_after(mode, Err(OnceFactoryError::Invalid)) == OnceStatus::Uninitialized,
{
}

/// Law: a factory that returns a value readies the cell with it, and the
/// caller gets that same value.
pub proof fn law_success_readies(mode: OnceFailureMode, v: SharedValue, r: Result<SharedValue, SharedError>)
    requires
        result_after(Ok(v), r),
    ensures
        read_view(status_after(mode, Ok(v))) == Some(v@),
        r matches Ok(x) && x@ == v@,
{
}

/// Law: under the Poison failure mode a thrown factory exception poisons
/// the cell with that exception, and from then on the cell never changes.
pub proof fn law_poison_is_terminal(info: PoisonInfo, v: ValueView)
    ensures
        status_after(OnceFailureMode::Poison, Err(OnceFactoryError::Threw(info))) == OnceStatus::Poisoned(info@),
        status_after_set(OnceStatus::Poisoned(info@), v) == OnceStatus::Poisoned(info@),
{
}

} // verus!
