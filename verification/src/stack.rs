//! Per-task kernel and user stacks of the pre-paging stage, described by
//! their base addresses; the stack grows down from `base + size`.
use vstd::prelude::*;

use crate::config::{KERNEL_STACK_SIZE, USER_STACK_SIZE};

verus! {

/// A task's kernel-mode stack.
#[derive(Copy, Clone, Debug)]
pub struct KernelStack {
    pub base: u64,
}

impl KernelStack {
    /// Initial stack pointer: one past the highest byte of the stack.
    pub fn get_sp(&self) -> (r: u64)
        requires
            self.base + KERNEL_STACK_SIZE <= u64::MAX,
        ensures
            r == self.base + KERNEL_STACK_SIZE,
    {
        self.base + KERNEL_STACK_SIZE
    }
}

/// A task's user-mode stack.
#[derive(Copy, Clone, Debug)]
pub struct UserStack {
    pub base: u64,
}

impl UserStack {
    /// Initial stack pointer: one past the highest byte of the stack.
    pub fn get_sp(&self) -> (r: u64)
        requires
            self.base + USER_STACK_SIZE <= u64::MAX,
        ensures
            r == self.base + USER_STACK_SIZE,
    {
        self.base + USER_STACK_SIZE
    }
}

} // verus!
