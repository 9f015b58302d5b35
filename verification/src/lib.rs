//! Process and task layer of a small kernel.
//!
//! - `mm`: virtual addresses, mapped areas and address spaces.
//! - `loader`: the programs that the kernel can start.
//! - `task`: task control blocks, the ready queue with its stride
//!   scheduler, the processor, and the kernel state that binds them.
//! - `syscall`: the system calls and the layout of their answers in user
//!   memory.
//! - `laws`: what holds across several operations.
//!
//! One context object, `task::kernel::Kernel`, holds the whole state. The
//! caller owns it and hands it to each operation, so that at any time one
//! owner at most works on a task, on the processor or on the ready queue.
//! What only the machine can do stays with the caller: it reads the clock
//! and hands the time in, and it switches the registers that the dispatch
//! loop names.

pub mod config;
pub mod mm;
pub mod loader;
pub mod task;
pub mod syscall;
pub mod laws;
