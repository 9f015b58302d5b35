//! System calls: what user code asks of the kernel, and how the answers
//! are laid out in user memory.

pub mod encode;
pub mod process;
pub mod dispatch;
