//! The saved user-register frame and the supervisor-level reaction to a
//! trap: system-call dispatch, killing a faulting task, and rescheduling.
use vstd::prelude::*;

use crate::syscall::{SYSCALL_EXIT, SYSCALL_WRITE, SYSCALL_YIELD};
use crate::task::{TaskManager, TaskStatus};

verus! {

/// Previous-privilege bit of the status-register snapshot; clear means
/// user mode.
pub const SSTATUS_SPP: u64 = 0x100;

/// The status snapshot with the previous-privilege bit forced to user.
pub open spec fn spec_with_user_spp(sstatus: u64) -> u64 {
    (sstatus - ((sstatus / 0x100) % 2) * 0x100) as u64
}

/// The register frame saved on a trap from user mode: 32 general
/// registers, the status snapshot, and the faulting program counter.
#[derive(Copy, Clone, Debug)]
pub struct TrapContext {
    pub x: [u64; 32],
    pub sstatus: u64,
    pub sepc: u64,
}

impl TrapContext {
    /// Sets the user stack pointer (register x2).
    pub fn set_sp(&mut self, sp: u64)
        ensures
            final(self).x@ == old(self).x@.update(2, sp),
            final(self).sstatus == old(self).sstatus,
            final(self).sepc == old(self).sepc,
    {
        self.x[2] = sp;
    }

    /// The frame a task sees on its very first entry to user mode: all
    /// registers zero but the stack pointer, previous privilege forced to
    /// user, and the program counter at the entry point.
    pub fn app_init_context(entry: u64, sp: u64, sstatus: u64) -> (r: Self)
        ensures
            r.sepc == entry,
            r.x@[2] == sp,
            forall|i: int| 0 <= i < 32 && i != 2 ==> r.x@[i] == 0,
            r.sstatus == spec_with_user_spp(sstatus),
    {
        let clean_sstatus = if (sstatus / 0x100) % 2 == 1 {
            sstatus - 0x100
        } else {
            sstatus
        };
        let mut cx = TrapContext { x: [0; 32], sstatus: clean_sstatus, sepc: entry };
        cx.set_sp(sp);
        cx
    }
}

/// The trap causes this kernel reacts to; anything else is fatal.
#[derive(Copy, Clone, PartialEq, Eq, Structural, Debug)]
pub enum TrapCause {
    UserEnvCall,
    StoreFault,
    StorePageFault,
    IllegalInstruction,
    Other,
}

/// What the caller must do after the handler's decision.
#[derive(Copy, Clone, PartialEq, Eq, Structural, Debug)]
pub enum TrapOutcome {
    /// Resume the same task.
    Resume,
    /// Write `len` bytes at user address `addr` to the console, then
    /// resume the same task.
    Output { addr: u64, len: u64 },
    /// The current task yielded or was terminated: switch to the next
    /// ready task.
    Schedule,
    /// An unsupported trap or system call: halt the machine.
    Fatal,
}

/// Reacts to one trap from user mode: a system call advances the saved
/// program counter past `ecall` and is dispatched; a store fault or an
/// illegal instruction kills the current task; anything else is fatal.
/// No task other than the current one is ever touched.
pub fn trap_handler(cx: &mut TrapContext, cause: TrapCause, tm: &mut TaskManager) -> (r:
    TrapOutcome)
    requires
        old(tm).wf(),
        cause == TrapCause::UserEnvCall ==> old(cx).sepc + 4 <= u64::MAX,
    ensures
        final(tm).wf(),
        final(tm).spec_num() == old(tm).spec_num(),
        final(tm).spec_current() == old(tm).spec_current(),
        forall|k: int|
            0 <= k < old(tm).spec_num() && k != old(tm).spec_current() ==> final(tm).spec_tasks()[
                k] == old(tm).spec_tasks()[k],
        cause == TrapCause::UserEnvCall ==> final(cx).sepc == old(cx).sepc + 4,
        cause != TrapCause::UserEnvCall ==> *final(cx) == *old(cx),
        (cause == TrapCause::StoreFault || cause == TrapCause::StorePageFault || cause
            == TrapCause::IllegalInstruction) ==> {
            &&& final(tm).spec_tasks()[old(tm).spec_current()].task_status == TaskStatus::Exited
            &&& r == TrapOutcome::Schedule
        },
        cause == TrapCause::Other ==> r == TrapOutcome::Fatal && *final(tm) == *old(tm),
        cause == TrapCause::UserEnvCall ==> {
            let id = old(cx).x@[17];
            &&& (id == SYSCALL_WRITE ==> {
                let fd = old(cx).x@[10];
                &&& final(tm).spec_tasks() == old(tm).spec_tasks()
                &&& (fd == 1 ==> final(cx).x@ == old(cx).x@.update(10, old(cx).x@[12]) && r == (
                TrapOutcome::Output { addr: old(cx).x@[11], len: old(cx).x@[12] }))
                &&& (fd != 1 ==> final(cx).x@ == old(cx).x@.update(10, u64::MAX) && r
                    == TrapOutcome::Resume)
            })
            &&& (id == SYSCALL_EXIT ==> final(tm).spec_tasks()[old(tm).spec_current()].task_status
                == TaskStatus::Exited && r == TrapOutcome::Schedule && final(cx).x@ == old(cx).x@)
            &&& (id == SYSCALL_YIELD ==> final(tm).spec_tasks()[old(tm).spec_current()].task_status == TaskStatus::Ready && final(cx).x@ == old(cx).x@.update(10, 0u64) && r == TrapOutcome::Schedule)
            &&& (id != SYSCALL_WRITE && id != SYSCALL_EXIT && id != SYSCALL_YIELD ==> r
                == TrapOutcome::Fatal && final(cx).x@ == old(cx).x@ && *final(tm) == *old(tm))
        },
        cause == TrapCause::UserEnvCall ==> final(cx).sstatus == old(cx).sstatus,
{
    match cause {
        TrapCause::UserEnvCall => {
            cx.sepc = cx.sepc + 4;
            let id = cx.x[17];
            if id == SYSCALL_WRITE {
                let fd = cx.x[10];
                let addr = cx.x[11];
                let len = cx.x[12];
                if fd == 1 {
                    cx.x[10] = len;
                    TrapOutcome::Output { addr, len }
                } else {
                    cx.x[10] = u64::MAX;
                    TrapOutcome::Resume
                }
            } else if id == SYSCALL_EXIT {
                tm.mark_current_exited();
                TrapOutcome::Schedule
            } else if id == SYSCALL_YIELD {
                cx.x[10] = 0;
                tm.mark_current_suspended();
                TrapOutcome::Schedule
            } else {
                TrapOutcome::Fatal
            }
        },
        TrapCause::StoreFault | TrapCause::StorePageFault | TrapCause::IllegalInstruction => {
            tm.mark_current_exited();
            TrapOutcome::Schedule
        },
        TrapCause::Other => TrapOutcome::Fatal,
    }
}

} // verus!
