//! Kernel-level task bookkeeping: the callee-saved switch context, the
//! per-task control block, and the cyclic scheduler over them.
use vstd::prelude::*;

use crate::config::MAX_APP_NUM;

verus! {

/// The registers a kernel-level context switch exchanges: return address,
/// stack pointer and the twelve callee-saved registers.
#[derive(Copy, Clone, Debug)]
pub struct TaskContext {
    pub ra: u64,
    pub sp: u64,
    pub s: [u64; 12],
}

impl TaskContext {
    /// A context with no resume point: everything zero.
    pub fn zero_init() -> (r: Self)
        ensures
            r.ra == 0,
            r.sp == 0,
            forall|i: int| 0 <= i < 12 ==> r.s[i] == 0,
    {
        TaskContext { ra: 0, sp: 0, s: [0; 12] }
    }

    /// The context installed for a task's first run: resuming it returns
    /// into the trap-restore path with the task's kernel stack.
    pub fn goto_restore(restore_pc: u64, kstack_ptr: u64) -> (r: Self)
        ensures
            r.ra == restore_pc,
            r.sp == kstack_ptr,
            forall|i: int| 0 <= i < 12 ==> r.s[i] == 0,
    {
        TaskContext { ra: restore_pc, sp: kstack_ptr, s: [0; 12] }
    }
}

/// Life cycle of a task; `Exited` is terminal.
#[derive(Copy, Clone, PartialEq, Eq, Structural, Debug)]
pub enum TaskStatus {
    UnInit,
    Ready,
    Running,
    Exited,
}

/// One schedulable unit: its status and its saved switch context.
#[derive(Copy, Clone, Debug)]
pub struct TaskControlBlock {
    pub task_status: TaskStatus,
    pub task_cx: TaskContext,
}

/// Runs tasks in order, cyclically, skipping those that exited.
pub struct TaskManager {
    app_num: usize,
    tasks: Vec<TaskControlBlock>,
    current_task: usize,
}

impl TaskManager {
    pub closed spec fn spec_num(&self) -> int {
        self.app_num as int
    }

    pub closed spec fn spec_tasks(&self) -> Seq<TaskControlBlock> {
        self.tasks@
    }

    pub closed spec fn spec_current(&self) -> int {
        self.current_task as int
    }

    pub open spec fn wf(&self) -> bool {
        &&& self.spec_tasks().len() == self.spec_num()
        &&& 1 <= self.spec_num() <= MAX_APP_NUM
        &&& 0 <= self.spec_current() < self.spec_num()
    }

    /// Task index at cyclic offset `o` past the current task.
    pub open spec fn spec_cyc(&self, o: int) -> int {
        (self.spec_current() + 1 + o) % self.spec_num()
    }

    /// All tasks start `Ready` with their first-run contexts; task 0 is
    /// considered current.
    pub fn new(ctxs: Vec<TaskContext>) -> (r: TaskManager)
        requires
            1 <= ctxs@.len() <= MAX_APP_NUM,
        ensures
            r.wf(),
            r.spec_num() == ctxs@.len(),
            r.spec_current() == 0,
            forall|k: int|
                0 <= k < ctxs@.len() ==> (#[trigger] r.spec_tasks()[k]).task_status
                    == TaskStatus::Ready && r.spec_tasks()[k].task_cx == ctxs@[k],
    {
        let n = ctxs.len();
        let mut tasks: Vec<TaskControlBlock> = Vec::new();
        let mut i: usize = 0;
        while i < n
            invariant
                n == ctxs@.len(),
                i <= n,
                tasks@.len() == i,
                forall|k: int|
                    0 <= k < i ==> (#[trigger] tasks@[k]).task_status == TaskStatus::Ready
                        && tasks@[k].task_cx == ctxs@[k],
            decreases n - i,
        {
            tasks.push(TaskControlBlock { task_status: TaskStatus::Ready, task_cx: ctxs[i] });
            i = i + 1;
        }
        TaskManager { app_num: n, tasks, current_task: 0 }
    }

    pub fn current(&self) -> (r: usize)
        requires
            self.wf(),
        ensures
            r == self.spec_current(),
    {
        self.current_task
    }

    pub fn task_status(&self, i: usize) -> (r: TaskStatus)
        requires
            self.wf(),
            i < self.spec_num(),
        ensures
            r == self.spec_tasks()[i as int].task_status,
    {
        self.tasks[i].task_status
    }

    /// Marks the current task terminated; no other task changes.
    pub fn mark_current_exited(&mut self)
        requires
            old(self).wf(),
        ensures
            final(self).wf(),
            final(self).spec_num() == old(self).spec_num(),
            final(self).spec_current() == old(self).spec_current(),
            final(self).spec_tasks()[old(self).spec_current()].task_status == TaskStatus::Exited,
            final(self).spec_tasks()[old(self).spec_current()].task_cx == old(self).spec_tasks()[
                old(self).spec_current()].task_cx,
            forall|k: int|
                0 <= k < old(self).spec_num() && k != old(self).spec_current() ==> final(self).spec_tasks()[k] == old(self).spec_tasks()[k],
    {
        let cur = self.current_task;
        let cx = self.tasks[cur].task_cx;
        self.tasks[cur] = TaskControlBlock { task_status: TaskStatus::Exited, task_cx: cx };
    }

    /// Marks the current task ready to run again; no other task changes.
    pub fn mark_current_suspended(&mut self)
        requires
            old(self).wf(),
        ensures
            final(self).wf(),
            final(self).spec_num() == old(self).spec_num(),
            final(self).spec_current() == old(self).spec_current(),
            final(self).spec_tasks()[old(self).spec_current()].task_status == TaskStatus::Ready,
            final(self).spec_tasks()[old(self).spec_current()].task_cx == old(self).spec_tasks()[
                old(self).spec_current()].task_cx,
            forall|k: int|
                0 <= k < old(self).spec_num() && k != old(self).spec_current() ==> final(self).spec_tasks()[k] == old(self).spec_tasks()[k],
    {
        let cur = self.current_task;
        let cx = self.tasks[cur].task_cx;
        self.tasks[cur] = TaskControlBlock { task_status: TaskStatus::Ready, task_cx: cx };
    }

    /// The next `Ready` task after the current one in cyclic index order,
    /// skipping every task that is not ready; `None` when no task is.
    pub fn find_next_task(&self) -> (r: Option<usize>)
        requires
            self.wf(),
        ensures
            match r {
                Some(i) => i < self.spec_num() && self.spec_tasks()[i as int].task_status
                    == TaskStatus::Ready && exists|o: int|
                    0 <= o < self.spec_num() && i == #[trigger] self.spec_cyc(o) && (forall|
                        o2: int,
                    |
                        0 <= o2 < o ==> self.spec_tasks()[#[trigger] self.spec_cyc(o2)].task_status
                            != TaskStatus::Ready),
                None => forall|k: int|
                    0 <= k < self.spec_num() ==> (#[trigger] self.spec_tasks()[k]).task_status
                        != TaskStatus::Ready,
            },
    {
        let n = self.app_num;
        let mut o: usize = 0;
        while o < n
            invariant
                self.wf(),
                n == self.spec_num(),
                o <= n,
                forall|o2: int|
                    0 <= o2 < o ==> self.spec_tasks()[#[trigger] self.spec_cyc(o2)].task_status
                        != TaskStatus::Ready,
            decreases n - o,
        {
            let i = (self.current_task + 1 + o) % n;
            proof {
                assert(i == self.spec_cyc(o as int));
            }
            if self.tasks[i].task_status == TaskStatus::Ready {
                return Some(i);
            }
            o = o + 1;
        }
        proof {
            assert forall|k: int|
                0 <= k < self.spec_num() implies (#[trigger] self.spec_tasks()[k]).task_status
                != TaskStatus::Ready by {
                let c = self.spec_current();
                let nn = self.spec_num();
                let o2 = if k > c {
                    k - c - 1
                } else {
                    k + nn - c - 1
                };
                assert(0 <= o2 < nn);
                if k > c {
                    assert((c + 1 + o2) % nn == k) by (nonlinear_arith)
                        requires
                            0 <= k < nn,
                            c + 1 + o2 == k,
                    ;
                } else {
                    assert((c + 1 + o2) % nn == k) by (nonlinear_arith)
                        requires
                            0 <= k < nn,
                            c + 1 + o2 == k + nn,
                    ;
                }
                assert(self.spec_cyc(o2) == k);
            }
        }
        None
    }

    /// Picks the next ready task, marks it running, and makes it current;
    /// returns the outgoing and incoming task indices for the context
    /// switch, or `None` when no task is left to run (a fatal condition
    /// for the caller).
    pub fn schedule_next(&mut self) -> (r: Option<(usize, usize)>)
        requires
            old(self).wf(),
        ensures
            final(self).wf(),
            final(self).spec_num() == old(self).spec_num(),
            r is None <==> (forall|k: int|
                0 <= k < old(self).spec_num() ==> (#[trigger] old(self).spec_tasks()[
                k]).task_status != TaskStatus::Ready),
            r is None ==> *final(self) == *old(self),
            r matches Some(p) ==> {
                let out = p.0;
                let next = p.1;
                &&& out == old(self).spec_current()
                &&& next < old(self).spec_num()
                &&& old(self).spec_tasks()[next as int].task_status == TaskStatus::Ready
                &&& final(self).spec_current() == next
                &&& final(self).spec_tasks()[next as int].task_status == TaskStatus::Running
                &&& final(self).spec_tasks()[next as int].task_cx == old(self).spec_tasks()[
                    next as int].task_cx
                &&& (forall|k: int|
                    0 <= k < old(self).spec_num() && k != next ==> final(self).spec_tasks()[k]
                        == old(self).spec_tasks()[k])
            },
    {
        match self.find_next_task() {
            None => None,
            Some(next) => {
                let out = self.current_task;
                let cx = self.tasks[next].task_cx;
                self.tasks[next] = TaskControlBlock {
                    task_status: TaskStatus::Running,
                    task_cx: cx,
                };
                self.current_task = next;
                Some((out, next))
            },
        }
    }
}

} // verus!
