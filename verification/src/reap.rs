//! Reading what `waitpid` reports of the child: its exit code, or the signal
//! that ended it.

use vstd::prelude::*;

verus! {

/// The low seven bits of a wait status: the signal that ended the child,
/// zero if it exited by itself.
pub open spec fn status_signal(status: i32) -> int {
    (status as int) % 128
}

/// Bits eight to fifteen of a wait status: what the child passed to `exit`.
pub open spec fn status_exit_code(status: i32) -> int {
    ((status as int) / 256) % 256
}

/// The exit code that a session reports for a wait status: the child's own
/// code if it exited, 128 plus the number of the signal if a signal ended
/// it, and -1 in any other case.
pub open spec fn exit_code_of(status: i32) -> int {
    if status_signal(status) == 0 {
        status_exit_code(status)
    } else if status_signal(status) != 127 {
        128 + status_signal(status)
    } else {
        -1
    }
}

/// `libc::WIFEXITED`: whether the child exited by itself.
///
/// Trusted: true exactly when the low seven bits of the status are zero.
#[verifier::external_body]
fn wait_exited(status: i32) -> (exited: bool)
    ensures
        exited == (status_signal(status) == 0),
{
    libc::WIFEXITED(status)
}

/// `libc::WEXITSTATUS`: the code the child exited with.
///
/// Trusted: bits eight to fifteen of the status.
#[verifier::external_body]
fn wait_exit_status(status: i32) -> (code: i32)
    ensures
        code == status_exit_code(status),
{
    libc::WEXITSTATUS(status)
}

/// `libc::WIFSIGNALED`: whether a signal ended the child.
///
/// Trusted: true exactly when the low seven bits of the status are neither
/// zero, which stands for an exit, nor all set, which stands for a stop.
#[verifier::external_body]
fn wait_signaled(status: i32) -> (signaled: bool)
    ensures
        signaled == (status_signal(status) != 0 && status_signal(status) != 127),
{
    libc::WIFSIGNALED(status)
}

/// `libc::WTERMSIG`: the signal that ended the child.
///
/// Trusted: the low seven bits of the status.
#[verifier::external_body]
fn wait_term_signal(status: i32) -> (signal: i32)
    ensures
        signal == status_signal(status),
{
    libc::WTERMSIG(status)
}

/// The exit code to report for the wait status of the child.
pub fn exit_code_from_status(status: i32) -> (code: i32)
    ensures
        code == exit_code_of(status),
        -1 <= code <= 255,
{
    if wait_exited(status) {
        wait_exit_status(status)
    } else if wait_signaled(status) {
        128 + wait_term_signal(status)
    } else {
        -1
    }
}

} // verus!
