//! The failures an operation can report, and the one among them that callers
//! branch on: lock contention.

use vstd::prelude::*;

verus! {

/// Why an operation on a file or on a volume did not succeed.
#[derive(Clone, Copy, Debug, PartialEq, Eq, Hash, Structural)]
pub enum Error {
    /// A lock request that does not wait met a lock it cannot coexist with.
    Contended,
    /// The storage cannot reserve what was asked for.
    NoSpace,
    /// The handle names no open file description.
    BadHandle,
    /// No further handle or file description can be given out.
    Exhausted,
    /// A volume reported counts that cannot hold together.
    BadStats,
    /// Any other failure, with the code the platform gave for it.
    Os(i32),
}

impl Error {
    /// The error that stands for the platform's failure code `code`, on a
    /// platform that reports lock contention as `contended`.
    pub open spec fn of_raw(code: i32, contended: i32) -> Error {
        if code == contended {
            Error::Contended
        } else {
            Error::Os(code)
        }
    }

    /// The platform's code for this error, where it has one.
    pub open spec fn raw(self, contended: i32) -> Option<i32> {
        match self {
            Error::Contended => Some(contended),
            Error::Os(code) => Some(code),
            _ => None,
        }
    }

    /// Takes a failure code as the platform reported it. The code that the
    /// platform uses for lock contention becomes [`Error::Contended`]; every
    /// other code is kept as it came.
    pub fn from_raw_os_error(code: i32, contended: i32) -> (e: Error)
        ensures
            e == Error::of_raw(code, contended),
    {
        if code == contended {
            Error::Contended
        } else {
            Error::Os(code)
        }
    }

    /// Gives back the platform's code: `contended` for lock contention, the
    /// code that came for any other platform failure, and `None` for a
    /// failure that no platform code stands for.
    pub fn raw_os_error(&self, contended: i32) -> (code: Option<i32>)
        ensures
            code == self.raw(contended),
    {
        match self {
            Error::Contended => Some(contended),
            Error::Os(code) => Some(*code),
            _ => None,
        }
    }

    /// Whether this error says that a lock request met an incompatible lock.
    pub fn is_lock_contended(&self) -> (b: bool)
        ensures
            b == (*self == Error::Contended),
    {
        match self {
            Error::Contended => true,
            _ => false,
        }
    }
}

/// The error that a lock request which does not wait returns when the file
/// is locked in a way that excludes it.
pub fn lock_contended_error() -> (e: Error)
    ensures
        e == Error::Contended,
{
    Error::Contended
}

/// A platform's failure code survives the way into an [`Error`] and back,
/// and exactly the platform's contention code is recognised as contention.
pub proof fn lemma_raw_code_is_kept(code: i32, contended: i32)
    ensures
        Error::of_raw(code, contended).raw(contended) == Some(code),
        Error::of_raw(code, contended) == Error::Contended <==> code == contended,
{
}

} // verus!
