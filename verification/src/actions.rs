//! Kill requests: which signal, and what a refusal means.

use vstd::prelude::*;

use crate::text::{push_decimal, signed_decimal_chars};
use crate::CoreError;

verus! {

/// The signal a kill request sends.
#[derive(Debug, Clone, Copy, PartialEq, Eq, Structural)]
pub enum KillSignal {
    /// SIGTERM — polite ask.
    Term,
    /// SIGKILL — force.
    Kill,
}

impl KillSignal {
    pub open spec fn number(self) -> i32 {
        match self {
            KillSignal::Term => 15,
            KillSignal::Kill => 9,
        }
    }

    /// The POSIX signal number: SIGTERM is 15, SIGKILL is 9.
    pub fn signal_number(self) -> (n: i32)
        ensures
            n == self.number(),
    {
        match self {
            KillSignal::Term => 15,
            KillSignal::Kill => 9,
        }
    }
}

/// `errno` for "operation not permitted".
pub const EPERM: i32 = 1;

/// `errno` for "no such process".
pub const ESRCH: i32 = 3;

/// The pid as the kernel's signed process id (`pid as i32`).
pub open spec fn raw_pid(pid: u32) -> int {
    if pid <= 0x7fff_ffff {
        pid as int
    } else {
        pid - 0x1_0000_0000
    }
}

/// `"pid {raw pid}"`.
pub open spec fn pid_label(pid: u32) -> Seq<char> {
    seq!['p', 'i', 'd', ' '] + signed_decimal_chars(raw_pid(pid))
}

/// The error a failed kill of `pid` reports, given the `errno` the kernel
/// answered and that errno's description: not permitted and no such process
/// name the pid; anything else passes the description on.
pub open spec fn kill_failure_is(e: CoreError, pid: u32, errno: i32, description: Seq<char>) -> bool {
    match e {
        CoreError::PermissionDenied(Some(m)) => errno == EPERM && m@ == pid_label(pid),
        CoreError::NotFound(m) => errno == ESRCH && m@ == pid_label(pid),
        CoreError::Invalid(m) => errno != EPERM && errno != ESRCH && m@ == description,
        _ => false,
    }
}

/// `"pid {pid}"`, the pid shown as the kernel's signed id.
pub fn pid_text(pid: u32) -> (s: String)
    ensures
        s@ == pid_label(pid),
{
    let mut s = String::new();
    s.push('p');
    s.push('i');
    s.push('d');
    s.push(' ');
    if pid <= 0x7fff_ffff {
        push_decimal(&mut s, pid as u128);
    } else {
        s.push('-');
        push_decimal(&mut s, 0x1_0000_0000u128 - pid as u128);
    }
    assert(s@ =~= pid_label(pid));
    s
}

/// Maps a refused kill to the library's error.
pub fn kill_failure(pid: u32, errno: i32, description: String) -> (e: CoreError)
    ensures
        kill_failure_is(e, pid, errno, description@),
{
    if errno == EPERM {
        CoreError::PermissionDenied(Some(pid_text(pid)))
    } else if errno == ESRCH {
        CoreError::NotFound(pid_text(pid))
    } else {
        CoreError::Invalid(description)
    }
}

} // verus!
