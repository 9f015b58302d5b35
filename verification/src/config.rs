//! Sizes and limits shared by the whole kernel.

use vstd::prelude::*;

verus! {

/// Bytes in one page of virtual memory.
pub const PAGE_SIZE: usize = 4096;

/// Number of distinct system call identifiers that are counted per task.
pub const MAX_SYSCALL_NUM: usize = 500;

/// Stride that a task of priority one would advance by at each dispatch.
pub const BIG_STRIDE: u64 = 0x100000;

/// Priority of a task that never asked for another one.
pub const DEFAULT_PRIORITY: isize = 16;

/// Smallest priority that a task may ask for.
pub const MIN_PRIORITY: isize = 2;

/// Microseconds in one second.
pub const MICRO_PER_SEC: usize = 1_000_000;

/// Identifier of the system call by which a task exits.
pub const SYSCALL_EXIT: usize = 93;

/// Identifier of the system call by which a task gives the processor up.
pub const SYSCALL_YIELD: usize = 124;

/// Identifier of the system call that sets a task's priority.
pub const SYSCALL_SET_PRIORITY: usize = 140;

/// Identifier of the system call that reads the clock.
pub const SYSCALL_GET_TIME: usize = 169;

/// Identifier of the system call that answers a task's identifier.
pub const SYSCALL_GETPID: usize = 172;

/// Identifier of the system call that moves the program break.
pub const SYSCALL_SBRK: usize = 214;

/// Identifier of the system call that unmaps a range.
pub const SYSCALL_MUNMAP: usize = 215;

/// Identifier of the system call that copies a task.
pub const SYSCALL_FORK: usize = 220;

/// Identifier of the system call that replaces a task's program.
pub const SYSCALL_EXEC: usize = 221;

/// Identifier of the system call that maps a range.
pub const SYSCALL_MMAP: usize = 222;

/// Identifier of the system call that collects a child.
pub const SYSCALL_WAITPID: usize = 260;

/// Identifier of the system call that starts a program as a child.
pub const SYSCALL_SPAWN: usize = 400;

/// Identifier of the system call by which a task learns of itself.
pub const SYSCALL_TASK_INFO: usize = 410;

} // verus!
