//! The user-side system-call ABI: each call is a request of one call
//! number and three argument registers; the machine-level `ecall` that
//! submits a request is hardware and stays outside this crate.
use vstd::prelude::*;

verus! {

/// Call number of `write(fd, buffer, len)`.
pub const SYSCALL_WRITE: u64 = 64;
/// Call number of `exit(code)`.
pub const SYSCALL_EXIT: u64 = 93;
/// Call number of `yield()`.
pub const SYSCALL_YIELD: u64 = 124;

/// One marshalled system call: the number for the call register and the
/// three argument registers.
#[derive(Copy, Clone, Debug)]
pub struct SyscallRequest {
    pub id: u64,
    pub args: [u64; 3],
}

/// Write `buffer_len` bytes at `buffer_addr` to file `fd`.
pub fn sys_write(fd: u64, buffer_addr: u64, buffer_len: u64) -> (r: SyscallRequest)
    ensures
        r.id == SYSCALL_WRITE,
        r.args@[0] == fd,
        r.args@[1] == buffer_addr,
        r.args@[2] == buffer_len,
{
    SyscallRequest { id: SYSCALL_WRITE, args: [fd, buffer_addr, buffer_len] }
}

/// Exit the calling task with `exit_code`.
pub fn sys_exit(exit_code: i32) -> (r: SyscallRequest)
    ensures
        r.id == SYSCALL_EXIT,
        r.args@[0] == exit_code as u64,
        r.args@[1] == 0,
        r.args@[2] == 0,
{
    SyscallRequest { id: SYSCALL_EXIT, args: [exit_code as u64, 0, 0] }
}

/// Give the processor up to the next ready task.
pub fn sys_yield() -> (r: SyscallRequest)
    ensures
        r.id == SYSCALL_YIELD,
        r.args@[0] == 0,
        r.args@[1] == 0,
        r.args@[2] == 0,
{
    SyscallRequest { id: SYSCALL_YIELD, args: [0, 0, 0] }
}

} // verus!
