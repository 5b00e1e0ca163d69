//! Advisory locking for a shared on-disk repository.
//!
//! Multiple independent processes coordinate exclusive and shared access to a
//! repository directory using only filesystem primitives.  The heart of the
//! scheme is the atomicity of directory creation: an exclusive session is
//! signalled by a guard directory, and a persisted roster file records every
//! current holder and its mode.  This crate holds the verified core: the
//! roster state machine, its on-disk encoding, the guard and lock protocols
//! (as step machines whose filesystem effects are reified as actions), and
//! the small configuration-file grammar used to read repository metadata.
//! The thin binary shell performs the actual filesystem calls.

use vstd::prelude::*;

pub mod identity;
pub mod codec;
pub mod config;
pub mod guard;
pub mod lock;
pub mod roster;

verus! {

/// The error taxonomy of the locking subsystem.
///
/// `ContractViolation` (double acquisition on one `Lock` value) is not here:
/// that is a caller bug, excluded by `requires`, and the unverified shell
/// turns it into a panic rather than an error value.
#[derive(Debug)]
pub enum Error {
    /// Another holder exists in a mode incompatible with the request; the
    /// string is the path of the contended guard directory or roster file.
    LockBusy(String),
    /// An unexpected filesystem failure, always propagated.
    Io,
    /// The roster file is present but not parseable; never treated as empty.
    RosterCorrupt,
}

impl Error {
    /// True exactly for the recoverable busy-lock condition.
    pub fn is_busy(&self) -> (r: bool)
        ensures
            r == (self is LockBusy),
    {
        match self {
            Error::LockBusy(_) => true,
            _ => false,
        }
    }
}

} // verus!
