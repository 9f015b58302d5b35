//! Tasks: their saved contexts, their control blocks, the ready queue, the
//! processor and the kernel state that binds them.

pub mod context;
pub mod tcb;
pub mod state;
pub mod kernel;
pub mod processor;
