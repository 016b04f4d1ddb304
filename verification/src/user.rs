//! Ring-3 entry: the system calls user code can make, and what each
//! returns.

use vstd::prelude::*;

verus! {

pub const SYS_EXIT: u64 = 0;
pub const SYS_TICKS: u64 = 1;
pub const USER_CODE: u64 = 0x0000_0000_0040_0000;
pub const USER_STACK: u64 = 0x0000_0000_0080_0000;
/// What `SYS_EXIT` returns to the entry code, which then leaves user mode.
pub const EXIT_SENTINEL: u64 = 0xffff_ffff_ffff_ffff;
/// What an unknown system call returns.
pub const ENOSYS: u64 = 0xffff_ffff_ffff_fffe;

#[derive(Clone, Copy, Debug)]
pub struct Diagnostics {
    pub probe_ok: bool,
    pub last_cpl: u8,
    pub last_exit: u64,
}

/// The outcome of a system call: the value returned in `rax`, the exit code
/// to record (for `SYS_EXIT`) and the privilege level of the caller.
#[derive(Clone, Copy, Debug, PartialEq, Eq, Structural)]
pub struct SyscallOutcome {
    pub result: u64,
    pub exit_code: Option<u64>,
    pub caller_cpl: u64,
}

/// System call `number` with argument `arg0`, from code segment
/// `caller_cs`, when the timer has counted `ticks`.
pub fn dispatch(number: u64, arg0: u64, caller_cs: u64, ticks: u64) -> (r: SyscallOutcome)
    ensures
        r.caller_cpl == caller_cs & 3,
        number == SYS_EXIT ==> r.result == EXIT_SENTINEL && r.exit_code == Some(arg0),
        number == SYS_TICKS ==> r.result == ticks && r.exit_code is None,
        number != SYS_EXIT && number != SYS_TICKS ==> r.result == ENOSYS && r.exit_code is None,
{
    let caller_cpl = caller_cs & 3;
    if number == SYS_EXIT {
        SyscallOutcome { result: EXIT_SENTINEL, exit_code: Some(arg0), caller_cpl }
    } else if number == SYS_TICKS {
        SyscallOutcome { result: ticks, exit_code: None, caller_cpl }
    } else {
        SyscallOutcome { result: ENOSYS, exit_code: None, caller_cpl }
    }
}

/// Whether a user program's exit value shows that the system call path
/// worked: something was returned, and not the unknown-call error.
pub fn exit_ok(exit: u64) -> (r: bool)
    ensures
        r == (exit > 0 && exit != ENOSYS),
{
    exit > 0 && exit != ENOSYS
}

} // verus!
