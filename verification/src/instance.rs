//! Decisions of single-instance startup: when a failed lock means that
//! another instance holds it, and what the startup loop does next.

use vstd::prelude::*;

use crate::text::str_eq;

verus! {

#[verifier::external_type_specification]
#[verifier::external_body]
pub struct ExIoError(std::io::Error);

/// Whether the error's kind is `WouldBlock` (as `io::Error::kind` reads it
/// from the error).
pub uninterp spec fn would_block_of(error: std::io::Error) -> bool;

/// The operating system's error code that the error carries, if it came
/// from the operating system (as `io::Error::raw_os_error` reads it).
pub uninterp spec fn raw_os_error_of(error: std::io::Error) -> Option<i32>;

/// Calls `io::Error::kind` and tells whether the kind is `WouldBlock`; the
/// contract claims only that the answer is the one named for the error.
#[verifier::external_body]
fn is_would_block(error: &std::io::Error) -> (r: bool)
    ensures
        r == would_block_of(*error),
{
    matches!(error.kind(), std::io::ErrorKind::WouldBlock)
}

/// Calls `io::Error::raw_os_error`: the operating system's error code, if
/// the error came from the operating system; the contract claims only that
/// it is the one named for the error.
#[verifier::external_body]
fn raw_os_error(error: &std::io::Error) -> (r: Option<i32>)
    ensures
        r == raw_os_error_of(*error),
{
    error.raw_os_error()
}

/// A failed lock attempt means another instance holds the lock: the lock
/// would block, or, on Windows, it failed with a lock or sharing violation
/// (codes 33 and 32).
pub open spec fn contention(would_block: bool, os_error: Option<i32>, on_windows: bool) -> bool {
    would_block || (on_windows && (os_error == Some(32i32) || os_error == Some(33i32)))
}

/// Whether a failed lock attempt means contention (see `contention`).
pub fn lock_contention(would_block: bool, os_error: Option<i32>, on_windows: bool) -> (contended: bool)
    ensures
        contended == contention(would_block, os_error, on_windows),
{
    if would_block {
        return true;
    }
    if !on_windows {
        return false;
    }
    match os_error {
        Some(code) => code == 32 || code == 33,
        None => false,
    }
}

/// Whether a lock error means contention, from the error's kind and code.
pub fn is_lock_contention(error: &std::io::Error, on_windows: bool) -> (contended: bool)
    ensures
        contended == contention(would_block_of(*error), raw_os_error_of(*error), on_windows),
{
    let would_block = is_would_block(error);
    let os_error = raw_os_error(error);
    lock_contention(would_block, os_error, on_windows)
}

/// How an attempt to take the instance lock ended.
#[derive(Clone, Copy, Debug, PartialEq, Eq, Structural)]
pub enum LockAttempt {
    Acquired,
    Contended,
    Failed,
}

/// What startup does after a lock attempt.
#[derive(Clone, Copy, Debug, PartialEq, Eq, Structural)]
pub enum AfterLock {
    /// Become the primary instance.
    StartPrimary,
    /// Hand the paths to the running instance.
    TryForward,
    /// Report that the lock could not be taken.
    Fail,
}

/// The lock's owner becomes the primary; on contention the paths go to the
/// running instance; any other failure is reported.
pub fn after_lock(attempt: LockAttempt) -> (next: AfterLock)
    ensures
        next == match attempt {
            LockAttempt::Acquired => AfterLock::StartPrimary,
            LockAttempt::Contended => AfterLock::TryForward,
            LockAttempt::Failed => AfterLock::Fail,
        },
{
    match attempt {
        LockAttempt::Acquired => AfterLock::StartPrimary,
        LockAttempt::Contended => AfterLock::TryForward,
        LockAttempt::Failed => AfterLock::Fail,
    }
}

/// What startup does after trying to forward the paths.
#[derive(Clone, Copy, Debug, PartialEq, Eq, Structural)]
pub enum AfterForward {
    /// The running instance took the paths; this process is done.
    Forwarded,
    /// Report that the running instance did not answer in time.
    GiveUp,
    /// Pause briefly and try the lock again.
    Retry,
}

/// A delivered request ends startup; otherwise it retries until the
/// deadline, then gives up.
pub fn after_forward(forwarded: bool, deadline_passed: bool) -> (next: AfterForward)
    ensures
        next == if forwarded {
            AfterForward::Forwarded
        } else if deadline_passed {
            AfterForward::GiveUp
        } else {
            AfterForward::Retry
        },
{
    if forwarded {
        AfterForward::Forwarded
    } else if deadline_passed {
        AfterForward::GiveUp
    } else {
        AfterForward::Retry
    }
}

/// The most bytes read from a forwarding request.
pub const MAX_REQUEST_BYTES: u64 = 1048576;

/// A forwarded request is served only when it carries the running
/// instance's token, character for character.
pub fn accepts_token(request_token: &str, token: &str) -> (accepted: bool)
    ensures
        accepted == (request_token@ == token@),
{
    str_eq(request_token, token)
}

} // verus!
