//! Task control blocks: what the kernel records of one schedulable task.

use vstd::prelude::*;
use crate::config::{BIG_STRIDE, DEFAULT_PRIORITY, MAX_SYSCALL_NUM, MIN_PRIORITY};
use crate::loader::{ProgramImage, ProgramView};
use crate::mm::memory_set::MemorySet;
use crate::mm::space::MemorySetView;
use crate::task::context::{TaskContext, TaskContextView, TrapContext, TrapView};

verus! {

/// Where a task stands in its life.
#[derive(Clone, Copy, Debug, PartialEq, Eq, Structural)]
pub enum TaskStatus {
    /// Waiting in the ready queue.
    Ready,
    /// Running on the processor.
    Running,
    /// Exited, and not yet collected by its parent.
    Zombie,
}

/// The kernel's record of one task.
pub struct TaskControlBlock {
    /// Process identifier.
    pub pid: usize,
    pub task_status: TaskStatus,
    /// The task's address space.
    pub memory_set: MemorySet,
    /// User registers saved at the last trap.
    pub trap_cx: TrapContext,
    /// Kernel registers saved at the last switch away from the task.
    pub task_cx: TaskContext,
    /// How often the task made each system call.
    pub task_syscall_times: [u32; MAX_SYSCALL_NUM],
    /// Time of the task's first dispatch, in microseconds.
    pub task_time: Option<usize>,
    pub priority: isize,
    pub stride: u64,
    pub exit_code: i32,
    /// Identifier of the parent; the parent does not own the task through it.
    pub parent: Option<usize>,
    /// Identifiers of the children, oldest first.
    pub children: Vec<usize>,
}

/// A task control block as contracts see it.
pub struct TaskView {
    pub pid: usize,
    pub status: TaskStatus,
    pub memory: MemorySetView,
    pub trap_cx: TrapView,
    pub task_cx: TaskContextView,
    pub syscall_times: Seq<u32>,
    pub first_dispatch: Option<usize>,
    pub priority: isize,
    pub stride: u64,
    pub exit_code: i32,
    pub parent: Option<usize>,
    pub children: Seq<usize>,
}

/// Stride that one dispatch adds to a task of the given priority: inversely
/// proportional to the priority, and never zero.
pub open spec fn pass_of(priority: isize) -> u64 {
    if BIG_STRIDE as int / priority as int >= 1 {
        (BIG_STRIDE as int / priority as int) as u64
    } else {
        1
    }
}

/// The quotient of a stride by a priority: at least one up to the stride,
/// zero beyond it, and never more than half the stride.
pub proof fn lemma_quotient_bounds(big: int, p: int)
    by (nonlinear_arith)
    requires
        2 <= p,
        2 <= big,
    ensures
        0 <= big / p <= big / 2,
        p <= big ==> big / p >= 1,
        p > big ==> big / p == 0,
{
}

/// A higher priority never has the larger quotient.
pub proof fn lemma_quotient_monotone(big: int, p: int, q: int)
    by (nonlinear_arith)
    requires
        2 <= p <= q,
        0 <= big,
    ensures
        big / q <= big / p,
{
}

/// Computes `pass_of(priority)`.
pub fn stride_pass(priority: isize) -> (p: u64)
    requires
        priority >= MIN_PRIORITY,
    ensures
        p == pass_of(priority),
        1 <= p <= BIG_STRIDE / 2,
{
    proof {
        lemma_quotient_bounds(BIG_STRIDE as int, priority as int);
    }
    if priority as u64 > BIG_STRIDE {
        1
    } else {
        BIG_STRIDE / (priority as u64)
    }
}

impl TaskView {
    /// The address space is well formed, there are 32 user registers, every
    /// system call has a counter,
    /// the priority is valid and no child is listed twice.
    pub open spec fn wf(self) -> bool {
        &&& self.memory.wf()
        &&& self.trap_cx.regs.len() == 32
        &&& self.syscall_times.len() == MAX_SYSCALL_NUM
        &&& self.priority >= MIN_PRIORITY
        &&& self.children.no_duplicates()
    }

    /// The child that a fork of the task creates under `pid`: a copy of
    /// the address space and of the trap context, ready to run, with no
    /// history of its own.
    pub open spec fn forked(self, pid: usize) -> TaskView {
        TaskView {
            pid,
            status: TaskStatus::Ready,
            memory: self.memory,
            trap_cx: self.trap_cx,
            task_cx: TaskContextView::zero(),
            syscall_times: Seq::new(MAX_SYSCALL_NUM as nat, |i: int| 0u32),
            first_dispatch: None,
            priority: DEFAULT_PRIORITY,
            stride: 0,
            exit_code: 0,
            parent: Some(self.pid),
            children: Seq::empty(),
        }
    }

    /// The task after it replaced its program by `img`: a new address space
    /// and a new trap context; everything else stays.
    pub open spec fn execed(self, img: ProgramView) -> TaskView {
        TaskView { memory: img.space, trap_cx: TrapView::app_init(img.entry, img.user_sp), ..self }
    }

    /// The child that the task spawns under `pid` to run `img`.
    pub open spec fn spawned(self, pid: usize, img: ProgramView) -> TaskView {
        self.forked(pid).execed(img)
    }

    /// The first task of a program: ready, without parent.
    pub open spec fn initial(pid: usize, img: ProgramView) -> TaskView {
        TaskView {
            pid,
            status: TaskStatus::Ready,
            memory: img.space,
            trap_cx: TrapView::app_init(img.entry, img.user_sp),
            task_cx: TaskContextView::zero(),
            syscall_times: Seq::new(MAX_SYSCALL_NUM as nat, |i: int| 0u32),
            first_dispatch: None,
            priority: DEFAULT_PRIORITY,
            stride: 0,
            exit_code: 0,
            parent: None,
            children: Seq::empty(),
        }
    }

    /// The task after it exited with `code`: a zombie that keeps the code,
    /// and neither frames nor children.
    pub open spec fn exited(self, code: i32) -> TaskView {
        TaskView {
            status: TaskStatus::Zombie,
            exit_code: code,
            memory: self.memory.released(),
            children: Seq::empty(),
            ..self
        }
    }

    /// The task after one more dispatch: running, its stride advanced by
    /// its pass, and the time noted if it is the first dispatch.
    pub open spec fn dispatched(self, now: usize) -> TaskView {
        TaskView {
            status: TaskStatus::Running,
            stride: if self.stride + pass_of(self.priority) > u64::MAX {
                u64::MAX
            } else {
                (self.stride + pass_of(self.priority)) as u64
            },
            first_dispatch: if self.first_dispatch is None {
                Some(now)
            } else {
                self.first_dispatch
            },
            ..self
        }
    }

    /// The task after one more call of the system call `id` was counted. A
    /// counter that reached the largest value stays there.
    pub open spec fn counted(self, id: int) -> TaskView {
        TaskView {
            syscall_times: self.syscall_times.update(
                id,
                if self.syscall_times[id] == u32::MAX {
                    u32::MAX
                } else {
                    (self.syscall_times[id] + 1) as u32
                },
            ),
            ..self
        }
    }

    /// Microseconds between the first dispatch and `now`; zero before the
    /// first dispatch.
    pub open spec fn elapsed(self, now: usize) -> usize {
        match self.first_dispatch {
            Some(t) => if now >= t {
                (now - t) as usize
            } else {
                0
            },
            None => 0,
        }
    }
}

impl View for TaskControlBlock {
    type V = TaskView;

    open spec fn view(&self) -> TaskView {
        TaskView {
            pid: self.pid,
            status: self.task_status,
            memory: self.memory_set@,
            trap_cx: self.trap_cx@,
            task_cx: self.task_cx@,
            syscall_times: self.task_syscall_times@,
            first_dispatch: self.task_time,
            priority: self.priority,
            stride: self.stride,
            exit_code: self.exit_code,
            parent: self.parent,
            children: self.children@,
        }
    }
}

/// A counter table with every counter at zero.
pub fn zero_counters() -> (v: [u32; MAX_SYSCALL_NUM])
    ensures
        v@ == Seq::new(MAX_SYSCALL_NUM as nat, |i: int| 0u32),
{
    let v = [0u32;MAX_SYSCALL_NUM];
    assert(v@ =~= Seq::new(MAX_SYSCALL_NUM as nat, |i: int| 0u32));
    v
}

impl TaskControlBlock {
    /// The first task of the program `image`, under the identifier `pid`.
    pub fn new(pid: usize, image: &ProgramImage) -> (t: TaskControlBlock)
        ensures
            t@ == TaskView::initial(pid, image@),
    {
        TaskControlBlock {
            pid,
            task_status: TaskStatus::Ready,
            memory_set: image.instantiate(),
            trap_cx: TrapContext::app_init_context(image.entry(), image.user_sp()),
            task_cx: TaskContext::zero_init(),
            task_syscall_times: zero_counters(),
            task_time: None,
            priority: DEFAULT_PRIORITY,
            stride: 0,
            exit_code: 0,
            parent: None,
            children: Vec::new(),
        }
    }

    /// The child of the task under the identifier `pid`: its address space
    /// holds a copy of every frame, its trap context is a copy too.
    pub fn fork(&self, pid: usize) -> (child: TaskControlBlock)
        ensures
            child@ == self@.forked(pid),
    {
        TaskControlBlock {
            pid,
            task_status: TaskStatus::Ready,
            memory_set: self.memory_set.duplicate(),
            trap_cx: self.trap_cx,
            task_cx: TaskContext::zero_init(),
            task_syscall_times: zero_counters(),
            task_time: None,
            priority: DEFAULT_PRIORITY,
            stride: 0,
            exit_code: 0,
            parent: Some(self.pid),
            children: Vec::new(),
        }
    }

    /// Replaces the task's program by `image`. The frames of the address
    /// space that it had are given up.
    pub fn exec(&mut self, image: &ProgramImage)
        ensures
            final(self)@ == old(self)@.execed(image@),
    {
        self.memory_set = image.instantiate();
        self.trap_cx = TrapContext::app_init_context(image.entry(), image.user_sp());
    }

    /// The child of the task under the identifier `pid` that runs `image`.
    /// No frame of the parent is copied.
    pub fn spawn(&self, pid: usize, image: &ProgramImage) -> (child: TaskControlBlock)
        ensures
            child@ == self@.spawned(pid, image@),
    {
        TaskControlBlock {
            pid,
            task_status: TaskStatus::Ready,
            memory_set: image.instantiate(),
            trap_cx: TrapContext::app_init_context(image.entry(), image.user_sp()),
            task_cx: TaskContext::zero_init(),
            task_syscall_times: zero_counters(),
            task_time: None,
            priority: DEFAULT_PRIORITY,
            stride: 0,
            exit_code: 0,
            parent: Some(self.pid),
            children: Vec::new(),
        }
    }

    /// The task's identifier.
    pub fn getpid(&self) -> (pid: usize)
        ensures
            pid == self@.pid,
    {
        self.pid
    }

    /// Whether the task exited and was not collected yet.
    pub fn is_zombie(&self) -> (b: bool)
        ensures
            b == (self@.status == TaskStatus::Zombie),
    {
        self.task_status == TaskStatus::Zombie
    }

    /// Sets the scheduling priority.
    pub fn set_priority(&mut self, prio: isize)
        requires
            prio >= MIN_PRIORITY,
        ensures
            final(self)@ == (TaskView { priority: prio, ..old(self)@ }),
    {
        self.priority = prio;
    }

    /// Microseconds between the first dispatch and `now`.
    pub fn elapsed(&self, now: usize) -> (d: usize)
        ensures
            d == self@.elapsed(now),
    {
        match self.task_time {
            Some(t) => if now >= t {
                now - t
            } else {
                0
            },
            None => 0,
        }
    }
}

} // verus!
