//! One running tray per instance: what an attempt to take the lock file means.
use crate::text::{numeral, push_u64};
use vstd::prelude::*;

verus! {

/// What came of an attempt to take the lock.
#[derive(Debug, Clone, Copy, PartialEq, Eq, Structural)]
pub enum LockOutcome {
    /// The lock is ours.
    Acquired,
    /// Another running tray holds it.
    Held,
    /// The system refused, with this error number.
    Failed(i32),
}

/// What the system's answer to a non-blocking request for an exclusive lock
/// means: zero is success, and the error number for a lock in use is no failure.
pub fn lock_outcome(returned: i32, errno: i32, would_block: i32) -> (r: LockOutcome)
    ensures
        r == (if returned == 0 {
            LockOutcome::Acquired
        } else if errno == would_block {
            LockOutcome::Held
        } else {
            LockOutcome::Failed(errno)
        }),
{
    if returned == 0 {
        LockOutcome::Acquired
    } else if errno == would_block {
        LockOutcome::Held
    } else {
        LockOutcome::Failed(errno)
    }
}

/// What a held lock file contains: the number of the process.
pub fn lock_contents(pid: u32) -> (r: String)
    ensures
        r@ == numeral(pid as nat),
{
    let mut out = String::new();
    push_u64(&mut out, pid as u64);
    out
}

/// Whether the tray starts: a lock that another tray holds stops it, a lock that
/// could not be tried does not.
pub fn may_start(outcome: Option<LockOutcome>) -> (r: bool)
    ensures
        r == (outcome != Some(LockOutcome::Held)),
{
    match outcome {
        Some(LockOutcome::Held) => false,
        _ => true,
    }
}

} // verus!
