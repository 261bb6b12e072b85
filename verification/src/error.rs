//! Error values shared by every primitive.

use vstd::prelude::*;

verus! {

/// Failure kinds of the shared primitives.
#[derive(Clone, Copy, Debug, PartialEq, Eq, Structural)]
pub enum SharedError {
    Generic,
    StaleHandle,
    Type,
    CapacityExceeded,
    Poisoned,
    Closed,
    Timeout,
    Deadlock,
    Cycle,
    Uninitialized,
    ValueTooLarge,
    Panicked,
}

impl SharedError {
    /// The negative status code that stands for this error at the
    /// boundary with the scripting engine.
    pub open spec fn code_spec(self) -> i32 {
        match self {
            SharedError::Generic => -1i32,
            SharedError::StaleHandle => -2i32,
            SharedError::Type => -3i32,
            SharedError::CapacityExceeded => -4i32,
            SharedError::Poisoned => -5i32,
            SharedError::Closed => -6i32,
            SharedError::Timeout => -7i32,
            SharedError::Deadlock => -8i32,
            SharedError::Cycle => -9i32,
            SharedError::Uninitialized => -10i32,
            SharedError::ValueTooLarge => -11i32,
            SharedError::Panicked => -99i32,
        }
    }

    pub fn code(&self) -> (c: i32)
        ensures
            c == self.code_spec(),
    {
        match self {
            SharedError::Generic => -1,
            SharedError::StaleHandle => -2,
            SharedError::Type => -3,
            SharedError::CapacityExceeded => -4,
            SharedError::Poisoned => -5,
            SharedError::Closed => -6,
            SharedError::Timeout => -7,
            SharedError::Deadlock => -8,
            SharedError::Cycle => -9,
            SharedError::Uninitialized => -10,
            SharedError::ValueTooLarge => -11,
            SharedError::Panicked => -99,
        }
    }
}

/// An exception to raise on the scripting side: its class name, message
/// and code, or a free-form error.
#[derive(Clone, Debug)]
pub enum PhpError {
    Exception { class: String, message: String, code: i64 },
    Custom(String),
}

} // verus!
