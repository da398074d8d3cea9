//! Address-space and process-lifecycle core of a single-core, cooperatively
//! scheduled kernel.
//!
//! The crate models the state that the syscall layer of such a kernel
//! mediates: per-process control records ([`task::TaskControlBlock`]), their
//! page-grained address spaces ([`mem::MemorySet`]), the physical frame
//! accountant ([`mem::FrameAllocator`]), and the machine state that ties them
//! together ([`kernel::Kernel`]). The syscall handlers in [`syscall`] validate
//! and apply requests against that state and are verified to return exactly
//! the documented status codes and to mutate exactly the documented state.
//!
//! Hardware concerns — the page-table walk itself, trap entry and exit, the
//! timer device, the run-queue policy — stay outside: the kernel state exposes
//! seams for them (`advance_clock`, `schedule`, the values returned by the
//! pointer-writing syscalls) and the core is verified for every behaviour of
//! those collaborators.

pub mod config;
pub mod kernel;
pub mod mem;
pub mod syscall;
pub mod task;
