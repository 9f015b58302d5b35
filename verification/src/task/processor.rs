//! The processor: which task runs on it, and the idle control flow that
//! picks the next one.

use vstd::prelude::*;
use vstd::pervasive::unreached;
use crate::config::MAX_SYSCALL_NUM;
use crate::mm::address::VirtAddr;
use crate::mm::area::MapPermission;
use crate::mm::memory_set::{MemorySet, MmError};
use crate::task::context::{TaskContext, TaskContextView, TrapContext};
use crate::task::kernel::Kernel;
use crate::task::state::lemma_with_memory;
use crate::task::tcb::{TaskControlBlock, TaskView};

verus! {

/// What the kernel records of the processor.
pub struct Processor {
    /// The task that runs on the processor.
    current: Option<usize>,
    /// Registers of the idle control flow, which selects and switches tasks.
    idle_task_cx: TaskContext,
}

impl Processor {
    /// Identifier of the task on the processor.
    pub closed spec fn spec_current(&self) -> Option<usize> {
        self.current
    }

    /// Saved registers of the idle control flow.
    pub closed spec fn spec_idle(&self) -> TaskContextView {
        self.idle_task_cx@
    }

    /// A processor without a task.
    pub fn new() -> (p: Processor)
        ensures
            p.spec_current() is None,
            p.spec_idle() == TaskContextView::zero(),
    {
        Processor { current: None, idle_task_cx: TaskContext::zero_init() }
    }

    /// Takes the current task off the processor.
    pub fn take_current(&mut self) -> (r: Option<usize>)
        ensures
            r == old(self).spec_current(),
            final(self).spec_current() is None,
            final(self).spec_idle() == old(self).spec_idle(),
    {
        self.current.take()
    }

    /// Identifier of the current task.
    #[verifier::when_used_as_spec(spec_current)]
    pub fn current(&self) -> (r: Option<usize>)
        ensures
            r == self.spec_current(),
    {
        self.current
    }

    /// Puts the task `pid` on the processor and saves the idle flow's
    /// registers.
    pub fn install(&mut self, pid: usize, idle: TaskContext)
        ensures
            final(self).spec_current() == Some(pid),
            final(self).spec_idle() == idle@,
    {
        self.current = Some(pid);
        self.idle_task_cx = idle;
    }

    /// The idle flow's saved registers.
    pub fn idle_task_cx(&self) -> (cx: TaskContext)
        ensures
            cx@ == self.spec_idle(),
    {
        self.idle_task_cx
    }
}

/// One turn of the dispatch loop. Where the processor is free and a task is
/// ready, the task with the smallest stride (of several, the one that
/// waited longest) leaves the queue and goes on the processor: it is
/// running, its stride advanced by its pass. The answer names the task and
/// the registers to switch to; the idle flow's registers `idle` are kept
/// for the way back. Where the processor is busy or no task is ready,
/// nothing changes.
pub fn run_tasks(kernel: &mut Kernel, idle: TaskContext, now: usize) -> (r: Option<(usize, TaskContext)>)
    requires
        old(kernel)@.wf(),
    ensures
        final(kernel)@.wf(),
        old(kernel)@.settled() ==> final(kernel)@.settled(),
        r is Some <==> old(kernel)@.current is None && old(kernel)@.ready.len() > 0,
        r matches Some((pid, cx)) ==> {
            &&& old(kernel)@.is_next(old(kernel)@.next_index())
            &&& pid == old(kernel)@.ready[old(kernel)@.next_index()]
            &&& cx@ == old(kernel)@.task(pid as int).task_cx
            &&& final(kernel)@ == old(kernel)@.dequeued(old(kernel)@.next_index()).dispatched(
                pid,
                idle@,
                now,
            )
        },
        r is None ==> final(kernel)@ == old(kernel)@,
{
    if kernel.current().is_some() {
        return None;
    }
    match kernel.fetch_task() {
        Some(pid) => {
            let cx = kernel.dispatch(pid, idle, now);
            Some((pid, cx))
        },
        None => None,
    }
}

/// Takes the current task off the processor and answers its identifier.
/// The task itself does not change.
pub fn take_current_task(kernel: &mut Kernel) -> (r: Option<usize>)
    requires
        old(kernel)@.wf(),
    ensures
        r == old(kernel)@.current,
        final(kernel)@ == old(kernel)@.vacated(),
        final(kernel)@.wf(),
{
    kernel.take_current()
}

/// The current task.
pub fn current_task(kernel: &Kernel) -> (r: Option<&TaskControlBlock>)
    requires
        kernel@.wf(),
    ensures
        r is Some <==> kernel@.current is Some,
        r matches Some(t) ==> t@ == kernel@.cur(),
{
    match kernel.current() {
        Some(c) => kernel.task(c),
        None => None,
    }
}

/// The handle of the current task's address space: the task's identifier.
pub fn current_user_token(kernel: &Kernel) -> (token: usize)
    requires
        kernel@.wf(),
        kernel@.current is Some,
    ensures
        Some(token) == kernel@.current,
{
    match kernel.current() {
        Some(c) => c,
        None => unreached(),
    }
}

/// The saved user registers of the current task.
pub fn current_trap_cx(kernel: &mut Kernel) -> (cx: &mut TrapContext)
    requires
        old(kernel)@.wf(),
        old(kernel)@.current is Some,
    ensures
        cx@ == old(kernel)@.cur().trap_cx,
        final(kernel)@ == old(kernel)@.with_cur(TaskView { trap_cx: final(cx)@, ..old(kernel)@.cur() }),
{
    let c = match kernel.current() {
        Some(c) => c,
        None => unreached(),
    };
    kernel.trap_cx_of(c)
}

/// Goes back to the idle flow: keeps `task_cx` as the registers to resume
/// the task `switched` with, where there is such a task, and answers the
/// idle flow's registers to switch to.
pub fn schedule(kernel: &mut Kernel, switched: usize, task_cx: TaskContext) -> (idle: TaskContext)
    requires
        old(kernel)@.wf(),
    ensures
        final(kernel)@.wf(),
        old(kernel)@.settled() ==> final(kernel)@.settled(),
        idle@ == old(kernel)@.idle_cx,
        final(kernel)@ == if old(kernel)@.live(switched as int) {
            old(kernel)@.with_task(
                switched as int,
                TaskView { task_cx: task_cx@, ..old(kernel)@.task(switched as int) },
            )
        } else {
            old(kernel)@
        },
{
    let idle = kernel.idle_task_cx();
    if kernel.task(switched).is_some() {
        kernel.save_task_cx(switched, task_cx);
    }
    idle
}

/// Microseconds between the first dispatch of the current task and `now`.
pub fn get_current_task_time(kernel: &Kernel, now: usize) -> (time: usize)
    requires
        kernel@.wf(),
        kernel@.current is Some,
    ensures
        time == kernel@.cur().elapsed(now),
{
    match current_task(kernel) {
        Some(t) => t.elapsed(now),
        None => unreached(),
    }
}

/// How often the current task made each system call.
pub fn get_current_syscall_times(kernel: &Kernel) -> (times: [u32; MAX_SYSCALL_NUM])
    requires
        kernel@.wf(),
        kernel@.current is Some,
    ensures
        times@ == kernel@.cur().syscall_times,
{
    match current_task(kernel) {
        Some(t) => t.task_syscall_times,
        None => unreached(),
    }
}

/// Counts one more call of the system call `syscall_id` by the current
/// task. A counter that reached the largest value stays there.
pub fn update_current_syscall_times(kernel: &mut Kernel, syscall_id: usize)
    requires
        old(kernel)@.wf(),
        old(kernel)@.current is Some,
        syscall_id < MAX_SYSCALL_NUM,
    ensures
        final(kernel)@ == old(kernel)@.with_cur(old(kernel)@.cur().counted(syscall_id as int)),
        final(kernel)@.wf(),
        old(kernel)@.settled() ==> final(kernel)@.settled(),
{
    kernel.count_current_syscall(syscall_id);
}

/// Inserts a framed area into the address space of the current task.
pub fn task_insert_framed_area(
    kernel: &mut Kernel,
    start_va: VirtAddr,
    end_va: VirtAddr,
    permission: MapPermission,
) -> (r: Result<(), MmError>)
    requires
        old(kernel)@.wf(),
        old(kernel)@.current is Some,
    ensures
        final(kernel)@.wf(),
        old(kernel)@.settled() ==> final(kernel)@.settled(),
        r == MemorySet::insert_outcome(old(kernel)@.cur().memory, start_va, end_va, permission),
        r is Ok ==> final(kernel)@ == old(kernel)@.with_memory(
            old(kernel)@.cur().memory.insert(start_va.spec_floor(), end_va.spec_ceil(), permission),
        ),
        r is Err ==> final(kernel)@ == old(kernel)@,
{
    let ghost kv = old(kernel)@;
    assert(kv.live(kv.current->0 as int));
    let ms = kernel.current_memory_set();
    let r = ms.insert_framed_area(start_va, end_va, permission);
    proof {
        lemma_with_memory(kv, kernel@.cur().memory);
        if r is Err {
            assert(kernel@.tasks =~= kv.tasks);
        }
    }
    r
}

/// Drops the framed area with exactly these bounds from the address space
/// of the current task. Answers 0, or -1 where there is no such area.
pub fn task_drop_framed_area(kernel: &mut Kernel, start_va: VirtAddr, end_va: VirtAddr) -> (r: isize)
    requires
        old(kernel)@.wf(),
        old(kernel)@.current is Some,
    ensures
        final(kernel)@.wf(),
        old(kernel)@.settled() ==> final(kernel)@.settled(),
        r == if old(kernel)@.cur().memory.has_span(start_va.spec_floor(), end_va.spec_ceil()) {
            0isize
        } else {
            -1isize
        },
        r == 0 ==> final(kernel)@ == old(kernel)@.with_memory(
            old(kernel)@.cur().memory.remove(
                old(kernel)@.cur().memory.first_span(start_va.spec_floor(), end_va.spec_ceil()),
            ),
        ),
        r != 0 ==> final(kernel)@ == old(kernel)@,
{
    let ghost kv = old(kernel)@;
    assert(kv.live(kv.current->0 as int));
    let ms = kernel.current_memory_set();
    let r = ms.drop_framed_area(start_va, end_va);
    proof {
        lemma_with_memory(kv, kernel@.cur().memory);
        if r is Err {
            assert(kernel@.tasks =~= kv.tasks);
        }
    }
    match r {
        Ok(_) => 0,
        Err(_) => -1,
    }
}

} // verus!
