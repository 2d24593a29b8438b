//! Core of a small SV39 paging kernel: typed physical/virtual addresses,
//! a stack-based physical frame allocator with owned frame trackers, a
//! three-level page table, per-address-space segment management built
//! from ELF images,
//! and the trap/task bookkeeping that drives cooperative scheduling.
//!
//! Hardware access (CSR writes, raw physical memory, the trampoline code
//! page) stays outside this crate; frame contents are modelled as data owned
//! by the structure that maps them.
pub mod address;
pub mod config;
pub mod elf;
pub mod frame_allocator;
pub mod loader;
pub mod memory_set;
pub mod page_table;
pub mod stack;
pub mod syscall;
pub mod task;
pub mod trap;
