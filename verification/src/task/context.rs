//! Register state saved across traps and across task switches.

use vstd::prelude::*;

verus! {

/// Index of the register that carries a system call's return value.
pub const REG_RETURN: usize = 10;

/// Index of the register that carries a system call's first argument; the
/// second and the third argument follow in the next two registers.
pub const REG_ARG0: usize = 10;

/// Index of the register that carries a system call's identifier.
pub const REG_SYSCALL_ID: usize = 17;

/// Index of the register that holds the stack pointer.
pub const REG_SP: usize = 2;

/// The user-mode registers of a task as the trap entry saved them.
#[derive(Clone, Copy, Debug)]
pub struct TrapContext {
    /// General registers.
    pub x: [usize; 32],
    /// Status word.
    pub sstatus: usize,
    /// Address of the instruction at which user code resumes.
    pub sepc: usize,
}

/// A trap context as contracts see it.
pub struct TrapView {
    pub regs: Seq<usize>,
    pub sstatus: usize,
    pub sepc: usize,
}

impl TrapView {
    /// The context of a program that is about to start at `entry` with its
    /// stack pointer at `sp`.
    pub open spec fn app_init(entry: usize, sp: usize) -> TrapView {
        TrapView { regs: Seq::new(32, |i: int| 0usize).update(REG_SP as int, sp), sstatus: 0, sepc: entry }
    }

    /// The context with `v` in the return-value register.
    pub open spec fn with_return(self, v: usize) -> TrapView {
        TrapView { regs: self.regs.update(REG_RETURN as int, v), ..self }
    }
}

impl View for TrapContext {
    type V = TrapView;

    open spec fn view(&self) -> TrapView {
        TrapView { regs: self.x@, sstatus: self.sstatus, sepc: self.sepc }
    }
}

impl TrapContext {
    /// The context of a program that is about to start at `entry` with its
    /// stack pointer at `sp`.
    pub fn app_init_context(entry: usize, sp: usize) -> (cx: TrapContext)
        ensures
            cx@ == TrapView::app_init(entry, sp),
    {
        let mut x = [0usize;32];
        x[REG_SP] = sp;
        let cx = TrapContext { x, sstatus: 0, sepc: entry };
        assert(cx@.regs =~= TrapView::app_init(entry, sp).regs);
        cx
    }

    /// Stores `v` in the return-value register.
    pub fn set_return(&mut self, v: usize)
        ensures
            final(self)@ == old(self)@.with_return(v),
    {
        self.x[REG_RETURN] = v;
    }

    /// The value in the return-value register.
    pub fn return_value(&self) -> (v: usize)
        ensures
            v == self@.regs[REG_RETURN as int],
    {
        self.x[REG_RETURN]
    }
}

/// The registers that a task switch saves and restores.
#[derive(Clone, Copy, Debug)]
pub struct TaskContext {
    /// Return address.
    pub ra: usize,
    /// Stack pointer.
    pub sp: usize,
    /// Callee-saved registers.
    pub s: [usize; 12],
}

/// A task context as contracts see it.
pub struct TaskContextView {
    pub ra: usize,
    pub sp: usize,
    pub saved: Seq<usize>,
}

impl View for TaskContext {
    type V = TaskContextView;

    open spec fn view(&self) -> TaskContextView {
        TaskContextView { ra: self.ra, sp: self.sp, saved: self.s@ }
    }
}

impl TaskContextView {
    /// The context with every register zero.
    pub open spec fn zero() -> TaskContextView {
        TaskContextView { ra: 0, sp: 0, saved: Seq::new(12, |i: int| 0usize) }
    }
}

impl TaskContext {
    /// The context with every register zero.
    pub fn zero_init() -> (cx: TaskContext)
        ensures
            cx@ == TaskContextView::zero(),
    {
        let cx = TaskContext { ra: 0, sp: 0, s: [0usize;12] };
        assert(cx@.saved =~= TaskContextView::zero().saved);
        cx
    }
}

} // verus!
