//! Layout constants of the modelled machine and kernel.

use vstd::prelude::*;

verus! {

/// Bytes in one page of virtual or physical memory.
pub const PAGE_SIZE: usize = 4096;

/// Number of recognized syscall numbers; the length of every per-process
/// usage-counter table.
pub const MAX_SYSCALL_NUM: usize = 500;

/// Bytes of the initial user stack of a process.
pub const USER_STACK_SIZE: usize = 8192;

/// Bytes of the kernel-side execution stack of a process.
pub const KERNEL_STACK_SIZE: usize = 8192;

/// Pages of one user stack.
pub const USER_STACK_PAGES: usize = USER_STACK_SIZE / PAGE_SIZE;

/// Pages of one kernel stack.
pub const KERNEL_STACK_PAGES: usize = KERNEL_STACK_SIZE / PAGE_SIZE;

/// The highest virtual page, reserved for the trampoline shared by all
/// address spaces.
pub const TRAMPOLINE_VPN: usize = usize::MAX / PAGE_SIZE;

/// The page just below the trampoline, holding a process's trap frame.
pub const TRAP_CONTEXT_VPN: usize = TRAMPOLINE_VPN - 1;

/// The fixed physical page behind every trampoline mapping; owned by the
/// kernel image, never handed out by the frame accountant.
pub const TRAMPOLINE_PPN: usize = 0;

/// No physical frame number ever reaches this bound, which keeps all frame
/// arithmetic well inside a machine word.
pub const PPN_LIMIT: usize = 0x4000_0000;

/// Upper bound on process slots; kernel stacks for this many slots fit below
/// the trampoline.
pub const MAX_TASKS: usize = 4096;

/// Program segments must end below this page, leaving room for the stack
/// guard, the user stack and the trap-frame page.
pub const USER_VPN_LIMIT: usize = TRAMPOLINE_VPN - 8;

/// Mapping permission bit: readable.
pub const PERM_R: u8 = 2;

/// Mapping permission bit: writable.
pub const PERM_W: u8 = 4;

/// Mapping permission bit: executable.
pub const PERM_X: u8 = 8;

/// Mapping permission bit: accessible from user mode.
pub const PERM_U: u8 = 16;

/// Syscall number of `exit`.
pub const SYSCALL_EXIT: usize = 93;

/// Syscall number of `yield`.
pub const SYSCALL_YIELD: usize = 124;

/// Syscall number of `set_priority`.
pub const SYSCALL_SET_PRIORITY: usize = 140;

/// Syscall number of `get_time`.
pub const SYSCALL_GET_TIME: usize = 169;

/// Syscall number of `munmap`.
pub const SYSCALL_MUNMAP: usize = 215;

/// Syscall number of `mmap`.
pub const SYSCALL_MMAP: usize = 222;

/// Syscall number of `task_info`.
pub const SYSCALL_TASK_INFO: usize = 410;

/// Microseconds in a second, for splitting the monotonic counter.
pub const MICROS_PER_SEC: usize = 1_000_000;

} // verus!
