//! Compile-time layout constants of the machine and of the kernel image.
//!
//! Addresses, page numbers and table entries are 64-bit machine words.
use vstd::prelude::*;

verus! {

pub const APP_BASE_ADDRESS: u64 = 0x80400000;
pub const APP_SIZE_LIMIT: u64 = 0x20000;
pub const MAX_APP_NUM: usize = 4;
pub const KERNEL_STACK_SIZE: u64 = 4096 * 2;
pub const KERNEL_HEAP_SIZE: u64 = 0x30_0000;
pub const USER_STACK_SIZE: u64 = 4096 * 2;
pub const CLOCK_FREQ: u64 = 12500000;

pub const PAGE_SIZE: u64 = 0x1000;
pub const PAGE_SIZE_BITS: u64 = 0xc;
pub const PA_WIDTH_SV39: u64 = 56;
pub const VA_WIDTH_SV39: u64 = 39;
pub const PPN_WIDTH_SV39: u64 = PA_WIDTH_SV39 - PAGE_SIZE_BITS;
pub const VPN_WIDTH_SV39: u64 = VA_WIDTH_SV39 - PAGE_SIZE_BITS;

/// One past the largest representable physical address (2^56).
pub const PA_LIMIT: u64 = 0x100_0000_0000_0000;
/// One past the largest representable virtual address (2^39).
pub const VA_LIMIT: u64 = 0x80_0000_0000;
/// One past the largest physical page number (2^44).
pub const PPN_LIMIT: u64 = 0x1000_0000_0000;
/// One past the largest virtual page number (2^27).
pub const VPN_LIMIT: u64 = 0x800_0000;

/// End of usable physical memory.
pub const MEMORY_END: u64 = 0x80800000;

/// Virtual address of the trampoline code page: the top page of the
/// virtual address space.
pub const TRAMPOLINE: u64 = u64::MAX - PAGE_SIZE + 1;
/// Virtual address of the trap-context page, directly below the trampoline.
pub const TRAP_CONTEXT: u64 = TRAMPOLINE - PAGE_SIZE;

} // verus!
