//! Placement of the embedded applications of the pre-paging stage: each
//! gets a fixed physical slot and an initial trap context pushed onto its
//! kernel stack.
use vstd::prelude::*;

use crate::config::{APP_BASE_ADDRESS, APP_SIZE_LIMIT, MAX_APP_NUM};
use crate::stack::{KernelStack, UserStack};
use crate::trap::TrapContext;

verus! {

/// Bytes the saved trap context occupies on the kernel stack: 32 general
/// registers, the status snapshot and the program counter, 8 bytes each.
pub const TRAP_CONTEXT_BYTES: u64 = 34 * 8;

/// Base physical address of application slot `app_id`.
pub fn get_base_i(app_id: usize) -> (r: u64)
    requires
        app_id < MAX_APP_NUM,
    ensures
        r == APP_BASE_ADDRESS + app_id * APP_SIZE_LIMIT,
{
    APP_BASE_ADDRESS + (app_id as u64) * APP_SIZE_LIMIT
}

/// The initial trap context of application `app_id` and the kernel-stack
/// address where it is stored: entry at the slot base, user stack pointer
/// at the user stack's top, frame pushed just below the kernel stack's
/// top. Writing the frame to that address is left to the caller.
pub fn init_app_ctx(app_id: usize, kstack: &KernelStack, ustack: &UserStack, sstatus: u64) -> (r: (
    u64,
    TrapContext,
))
    requires
        app_id < MAX_APP_NUM,
        kstack.base + crate::config::KERNEL_STACK_SIZE <= u64::MAX,
        ustack.base + crate::config::USER_STACK_SIZE <= u64::MAX,
        kstack.base + crate::config::KERNEL_STACK_SIZE >= TRAP_CONTEXT_BYTES,
    ensures
        r.0 == kstack.base + crate::config::KERNEL_STACK_SIZE - TRAP_CONTEXT_BYTES,
        r.1.sepc == APP_BASE_ADDRESS + app_id * APP_SIZE_LIMIT,
        r.1.x@[2] == ustack.base + crate::config::USER_STACK_SIZE,
        r.1.sstatus == crate::trap::spec_with_user_spp(sstatus),
{
    let ctx = TrapContext::app_init_context(get_base_i(app_id), ustack.get_sp(), sstatus);
    let addr = kstack.get_sp() - TRAP_CONTEXT_BYTES;
    (addr, ctx)
}

} // verus!
