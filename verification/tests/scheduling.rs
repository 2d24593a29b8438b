//! Trap handling, system calls, task state transitions and scheduling.
use sv39_kernel::address::{PhysicPageNum, VirtualPageNum};
use sv39_kernel::frame_allocator::StackFrameAllocator;
use sv39_kernel::loader::{get_base_i, init_app_ctx};
use sv39_kernel::memory_set::MemorySet;
use sv39_kernel::stack::{KernelStack, UserStack};
use sv39_kernel::syscall::{sys_exit, sys_write, sys_yield};
use sv39_kernel::task::{TaskContext, TaskManager, TaskStatus};
use sv39_kernel::trap::{trap_handler, TrapCause, TrapContext, TrapOutcome};

fn fresh_manager(n: usize) -> TaskManager {
    let mut ctxs = Vec::new();
    for i in 0..n {
        ctxs.push(TaskContext::goto_restore(0x8000_0000, 0x9000_0000 + (i as u64) * 0x2000));
    }
    TaskManager::new(ctxs)
}

fn user_frame() -> TrapContext {
    TrapContext::app_init_context(0x10000, 0x16000, 0)
}

#[test]
fn syscall_requests_carry_number_and_arguments() {
    let w = sys_write(1, 0x4000, 13);
    assert_eq!(w.id, 64);
    assert_eq!(w.args, [1, 0x4000, 13]);
    let e = sys_exit(7);
    assert_eq!(e.id, 93);
    assert_eq!(e.args, [7, 0, 0]);
    let y = sys_yield();
    assert_eq!(y.id, 124);
    assert_eq!(y.args, [0, 0, 0]);
}

#[test]
fn app_init_context_zeroes_registers_and_selects_user_mode() {
    let cx = TrapContext::app_init_context(0x1234, 0xfeed, 0x122);
    assert_eq!(cx.sepc, 0x1234);
    assert_eq!(cx.x[2], 0xfeed);
    for i in 0..32 {
        if i != 2 {
            assert_eq!(cx.x[i], 0);
        }
    }
    // The previous-privilege bit (0x100) is cleared, other bits kept.
    assert_eq!(cx.sstatus, 0x022);
}

#[test]
fn task_contexts_zero_or_point_at_the_restore_path() {
    let z = TaskContext::zero_init();
    assert_eq!(z.ra, 0);
    assert_eq!(z.sp, 0);
    assert_eq!(z.s, [0; 12]);
    let g = TaskContext::goto_restore(0xdead, 0xbeef);
    assert_eq!(g.ra, 0xdead);
    assert_eq!(g.sp, 0xbeef);
    assert_eq!(g.s, [0; 12]);
}

#[test]
fn init_app_ctx_places_the_frame_below_the_kernel_stack_top() {
    let kstack = KernelStack { base: 0x8100_0000 };
    let ustack = UserStack { base: 0x8200_0000 };
    let (addr, cx) = init_app_ctx(1, &kstack, &ustack, 0x100);
    assert_eq!(addr, 0x8100_0000 + 8192 - 34 * 8);
    assert_eq!(cx.sepc, get_base_i(1));
    assert_eq!(cx.sepc, 0x80400000 + 0x20000);
    assert_eq!(cx.x[2], 0x8200_0000 + 8192);
    assert_eq!(cx.sstatus, 0);
}

#[test]
fn write_syscall_reports_length_and_advances_the_program_counter() {
    let mut tm = fresh_manager(2);
    let mut cx = user_frame();
    let pc = cx.sepc;
    cx.x[17] = 64;
    cx.x[10] = 1;
    cx.x[11] = 0x4000;
    cx.x[12] = 42;
    let out = trap_handler(&mut cx, TrapCause::UserEnvCall, &mut tm);
    assert_eq!(out, TrapOutcome::Output { addr: 0x4000, len: 42 });
    assert_eq!(cx.x[10], 42);
    assert_eq!(cx.sepc, pc + 4);
    // A bad file descriptor reports an error instead.
    let mut cx = user_frame();
    cx.x[17] = 64;
    cx.x[10] = 3;
    let out = trap_handler(&mut cx, TrapCause::UserEnvCall, &mut tm);
    assert_eq!(out, TrapOutcome::Resume);
    assert_eq!(cx.x[10], u64::MAX);
}

#[test]
fn exit_syscall_terminates_the_task_and_the_scheduler_skips_it() {
    let mut tm = fresh_manager(3);
    let mut cx = user_frame();
    cx.x[17] = 93;
    cx.x[10] = 5; // arbitrary exit code
    let out = trap_handler(&mut cx, TrapCause::UserEnvCall, &mut tm);
    assert_eq!(out, TrapOutcome::Schedule);
    assert_eq!(tm.task_status(0), TaskStatus::Exited);
    // The scheduler selects a different, ready task.
    let (outgoing, next) = tm.schedule_next().unwrap();
    assert_eq!(outgoing, 0);
    assert_eq!(next, 1);
    assert_eq!(tm.task_status(1), TaskStatus::Running);
    // Once every task has exited, nothing is selectable: fatal for the
    // caller.
    let mut cx = user_frame();
    cx.x[17] = 93;
    trap_handler(&mut cx, TrapCause::UserEnvCall, &mut tm);
    let mut cx = user_frame();
    cx.x[17] = 93;
    // Make task 2 current first, then exit it too.
    let (_, next) = tm.schedule_next().unwrap();
    assert_eq!(next, 2);
    trap_handler(&mut cx, TrapCause::UserEnvCall, &mut tm);
    assert!(tm.schedule_next().is_none());
}

#[test]
fn yield_syscall_keeps_the_task_ready_and_rotates() {
    let mut tm = fresh_manager(2);
    let mut cx = user_frame();
    cx.x[17] = 124;
    let out = trap_handler(&mut cx, TrapCause::UserEnvCall, &mut tm);
    assert_eq!(out, TrapOutcome::Schedule);
    assert_eq!(cx.x[10], 0);
    assert_eq!(tm.task_status(0), TaskStatus::Ready);
    let (_, next) = tm.schedule_next().unwrap();
    assert_eq!(next, 1);
    // Yielding again rotates back to task 0.
    let mut cx = user_frame();
    cx.x[17] = 124;
    trap_handler(&mut cx, TrapCause::UserEnvCall, &mut tm);
    let (_, next) = tm.schedule_next().unwrap();
    assert_eq!(next, 0);
}

#[test]
fn unknown_syscall_and_unknown_trap_are_fatal() {
    let mut tm = fresh_manager(1);
    let mut cx = user_frame();
    cx.x[17] = 9999;
    assert_eq!(trap_handler(&mut cx, TrapCause::UserEnvCall, &mut tm), TrapOutcome::Fatal);
    let mut cx = user_frame();
    assert_eq!(trap_handler(&mut cx, TrapCause::Other, &mut tm), TrapOutcome::Fatal);
}

#[test]
fn store_page_fault_kills_only_the_faulting_task() {
    let mut tm = fresh_manager(3);
    // Another task's address space, built before the fault.
    let mut a = StackFrameAllocator::new();
    a.init(PhysicPageNum(0x100), PhysicPageNum(0x180));
    let mut other = MemorySet::new_bare(&mut a).unwrap();
    other
        .insert_framed_area(
            &mut a,
            sv39_kernel::address::VirtualAddress(0x4000),
            sv39_kernel::address::VirtualAddress(0x5000),
            sv39_kernel::memory_set::MapPermission::new(true, true, false, true),
        )
        .unwrap();
    let before = other.translate(VirtualPageNum(4)).unwrap();
    let avail_before = a.allocate().unwrap();
    a.dealloc(avail_before).unwrap();

    let mut cx = user_frame();
    let out = trap_handler(&mut cx, TrapCause::StorePageFault, &mut tm);
    assert_eq!(out, TrapOutcome::Schedule);
    assert_eq!(tm.task_status(0), TaskStatus::Exited);
    // Every other task is untouched and still schedulable.
    assert_eq!(tm.task_status(1), TaskStatus::Ready);
    assert_eq!(tm.task_status(2), TaskStatus::Ready);
    let (_, next) = tm.schedule_next().unwrap();
    assert_eq!(next, 1);
    // The other address space's mappings and frame pool are untouched.
    let after = other.translate(VirtualPageNum(4)).unwrap();
    assert_eq!(after.bits, before.bits);
    let avail_after = a.allocate().unwrap();
    assert_eq!(avail_after.0, avail_before.0);
    a.dealloc(avail_after).unwrap();
    assert_eq!(trap_handler(&mut cx, TrapCause::StoreFault, &mut tm), TrapOutcome::Schedule);
    assert_eq!(
        trap_handler(&mut cx, TrapCause::IllegalInstruction, &mut tm),
        TrapOutcome::Schedule
    );
}
