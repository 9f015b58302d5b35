//! The kernel's state: the task table, the ready queue, the processor and
//! the loader, with the operations that change them.

use vstd::prelude::*;
use vstd::pervasive::unreached;
use crate::config::{MAX_SYSCALL_NUM, MIN_PRIORITY};
use crate::loader::Loader;
use crate::mm::memory_set::MemorySet;
use crate::task::context::{TaskContext, TaskContextView, TrapContext};
use crate::task::processor::Processor;
use crate::task::state::{
    lemma_admitted, lemma_adopted, lemma_dequeued, lemma_dispatched, lemma_enqueued, lemma_exited,
    lemma_next_unique, lemma_reaped, lemma_suspended, lemma_vacated, lemma_with_task, KernelView,
};
use crate::task::tcb::{stride_pass, TaskControlBlock, TaskStatus, TaskView};

verus! {

/// Everything the kernel knows of its tasks. A task's identifier is its
/// place in the task table; the place of a task that was collected is
/// never used again.
pub struct Kernel {
    tasks: Vec<Option<Box<TaskControlBlock>>>,
    ready: Vec<usize>,
    processor: Processor,
    loader: Loader,
}

/// Whether `q` is one of the first `i` entries of `children`.
spec fn orphaned_before(children: Seq<usize>, i: int, q: int) -> bool {
    exists|k: int| 0 <= k < i && k < children.len() && #[trigger] children[k] == q
}

/// To be among all entries of a list is to be in the list.
proof fn lemma_orphaned_all(children: Seq<usize>, q: int)
    requires
        0 <= q <= usize::MAX,
    ensures
        orphaned_before(children, children.len() as int, q) == children.contains(q as usize),
{
    if children.contains(q as usize) {
        let k = choose|k: int| 0 <= k < children.len() && children[k] == q as usize;
        assert(children[k] == q);
    }
}

/// What contracts see of a place in the task table.
spec fn slot_view(slot: Option<Box<TaskControlBlock>>) -> Option<TaskView> {
    match slot {
        Some(t) => Some(t@),
        None => None,
    }
}

impl View for Kernel {
    type V = KernelView;

    closed spec fn view(&self) -> KernelView {
        KernelView {
            tasks: Seq::new(self.tasks@.len(), |i: int| slot_view(self.tasks@[i])),
            ready: self.ready@,
            current: self.processor.spec_current(),
            idle_cx: self.processor.spec_idle(),
            loader: self.loader@,
        }
    }
}

impl Kernel {
    /// A kernel without tasks that can start the programs of `loader`.
    pub fn new(loader: Loader) -> (k: Kernel)
        requires
            loader@.wf(),
        ensures
            k@ == (KernelView {
                tasks: Seq::empty(),
                ready: Seq::empty(),
                current: None,
                idle_cx: TaskContextView::zero(),
                loader: loader@,
            }),
            k@.wf(),
            k@.settled(),
    {
        let k = Kernel { tasks: Vec::new(), ready: Vec::new(), processor: Processor::new(), loader };
        assert(k@.tasks =~= Seq::empty());
        k
    }

    /// Identifier of the task on the processor.
    pub fn current(&self) -> (r: Option<usize>)
        ensures
            r == self@.current,
    {
        self.processor.current()
    }

    /// Number of identifiers issued so far; the next task gets this number.
    pub fn task_count(&self) -> (n: usize)
        ensures
            n == self@.tasks.len(),
    {
        self.tasks.len()
    }

    /// The task with the identifier `pid`.
    pub fn task(&self, pid: usize) -> (r: Option<&TaskControlBlock>)
        ensures
            r is Some <==> self@.live(pid as int),
            r matches Some(t) ==> t@ == self@.task(pid as int),
    {
        if pid < self.tasks.len() {
            match &self.tasks[pid] {
                Some(t) => Some(&**t),
                None => None,
            }
        } else {
            None
        }
    }

    /// The ready queue, oldest entry first.
    pub fn ready_queue(&self) -> (q: &Vec<usize>)
        ensures
            q@ == self@.ready,
    {
        &self.ready
    }

    /// The programs that the kernel can start.
    pub fn loader(&self) -> (l: &Loader)
        ensures
            l@ == self@.loader,
    {
        &self.loader
    }

    /// The idle flow's saved registers.
    pub fn idle_task_cx(&self) -> (cx: TaskContext)
        ensures
            cx@ == self@.idle_cx,
    {
        self.processor.idle_task_cx()
    }

    /// Takes the current task off the processor without changing the task.
    pub fn take_current(&mut self) -> (r: Option<usize>)
        requires
            old(self)@.wf(),
        ensures
            r == old(self)@.current,
            final(self)@ == old(self)@.vacated(),
            final(self)@.wf(),
    {
        let r = self.processor.take_current();
        proof {
            assert(self@.tasks =~= old(self)@.tasks);
            lemma_vacated(old(self)@);
        }
        r
    }

    /// The address space of the current task.
    pub fn current_memory_set(&mut self) -> (ms: &mut MemorySet)
        requires
            old(self)@.wf(),
            old(self)@.current is Some,
        ensures
            ms@ == old(self)@.cur().memory,
            final(self)@ == old(self)@.with_cur(TaskView { memory: final(ms)@, ..old(self)@.cur() }),
    {
        let c = match self.processor.current() {
            Some(c) => c,
            None => unreached(),
        };
        let ghost before = self@;
        assert(before.live(c as int));
        match &mut self.tasks[c] {
            Some(t) => {
                let ms = &mut t.memory_set;
                proof {
                    assert(after_borrow(self)@.tasks =~= before.with_cur(
                        TaskView { memory: final(ms)@, ..before.cur() },
                    ).tasks);
                }
                ms
            },
            None => unreached(),
        }
    }

    /// The saved user registers of the task `pid`.
    pub fn trap_cx_of(&mut self, pid: usize) -> (cx: &mut TrapContext)
        requires
            old(self)@.wf(),
            old(self)@.live(pid as int),
        ensures
            cx@ == old(self)@.task(pid as int).trap_cx,
            final(self)@ == old(self)@.with_task(
                pid as int,
                TaskView { trap_cx: final(cx)@, ..old(self)@.task(pid as int) },
            ),
    {
        let ghost before = self@;
        match &mut self.tasks[pid] {
            Some(t) => {
                let cx = &mut t.trap_cx;
                proof {
                    assert(after_borrow(self)@.tasks =~= before.with_task(
                        pid as int,
                        TaskView { trap_cx: final(cx)@, ..before.task(pid as int) },
                    ).tasks);
                }
                cx
            },
            None => unreached(),
        }
    }

    /// Stores `cx` as the registers to resume the task `pid` with.
    pub(crate) fn save_task_cx(&mut self, pid: usize, cx: TaskContext)
        requires
            old(self)@.wf(),
            old(self)@.live(pid as int),
        ensures
            final(self)@ == old(self)@.with_task(
                pid as int,
                TaskView { task_cx: cx@, ..old(self)@.task(pid as int) },
            ),
            final(self)@.wf(),
            old(self)@.settled() ==> final(self)@.settled(),
    {
        match &mut self.tasks[pid] {
            Some(t) => {
                t.task_cx = cx;
            },
            None => {},
        }
        proof {
            let kv = old(self)@;
            let t = TaskView { task_cx: cx@, ..kv.task(pid as int) };
            assert(self@.tasks =~= kv.with_task(pid as int, t).tasks);
            lemma_with_task(kv, pid as int, t);
        }
    }

    /// Sets the priority of the current task.
    pub(crate) fn set_current_priority(&mut self, prio: isize)
        requires
            old(self)@.wf(),
            old(self)@.current is Some,
            prio >= MIN_PRIORITY,
        ensures
            final(self)@ == old(self)@.with_cur(TaskView { priority: prio, ..old(self)@.cur() }),
            final(self)@.wf(),
            old(self)@.settled() ==> final(self)@.settled(),
    {
        let c = match self.processor.current() {
            Some(c) => c,
            None => unreached(),
        };
        assert(self@.live(c as int));
        match &mut self.tasks[c] {
            Some(t) => {
                t.set_priority(prio);
            },
            None => {},
        }
        proof {
            let kv = old(self)@;
            let t = TaskView { priority: prio, ..kv.cur() };
            assert(self@.tasks =~= kv.with_cur(t).tasks);
            lemma_with_task(kv, c as int, t);
        }
    }

    /// Counts one more call of the system call `syscall_id` by the current
    /// task. A counter that reached the largest value stays there.
    pub(crate) fn count_current_syscall(&mut self, syscall_id: usize)
        requires
            old(self)@.wf(),
            old(self)@.current is Some,
            syscall_id < MAX_SYSCALL_NUM,
        ensures
            final(self)@ == old(self)@.with_cur(old(self)@.cur().counted(syscall_id as int)),
            final(self)@.wf(),
            old(self)@.settled() ==> final(self)@.settled(),
    {
        let c = match self.processor.current() {
            Some(c) => c,
            None => unreached(),
        };
        assert(self@.live(c as int));
        match &mut self.tasks[c] {
            Some(t) => {
                let n = t.task_syscall_times[syscall_id];
                t.task_syscall_times[syscall_id] = if n < u32::MAX {
                    n + 1
                } else {
                    n
                };
            },
            None => {},
        }
        proof {
            let kv = old(self)@;
            let t = kv.cur().counted(syscall_id as int);
            assert(self@.tasks =~= kv.with_cur(t).tasks);
            lemma_with_task(kv, c as int, t);
        }
    }

    /// Creates the first task of the program known as `name`, ready and
    /// queued, and answers its identifier.
    pub fn add_initproc(&mut self, name: &Vec<u8>) -> (r: Option<usize>)
        requires
            old(self)@.wf(),
        ensures
            final(self)@.wf(),
            old(self)@.settled() ==> final(self)@.settled(),
            r is Some <==> old(self)@.loader.knows(name@) && old(self)@.tasks.len() < isize::MAX,
            r matches Some(pid) ==> pid == old(self)@.tasks.len() && final(self)@ == old(self)@.admitted(
                TaskView::initial(pid, old(self)@.loader.image_of(name@)),
            ).enqueued(pid),
            r is None ==> final(self)@ == old(self)@,
    {
        let n = self.tasks.len();
        if n >= isize::MAX as usize {
            return None;
        }
        let task = match self.loader.get_app_data_by_name(name) {
            Some(img) => TaskControlBlock::new(n, img),
            None => {
                return None;
            },
        };
        let ghost kv = old(self)@;
        let ghost tv = task@;
        self.tasks.push(Some(Box::new(task)));
        self.ready.push(n);
        proof {
            assert(self@.tasks =~= kv.admitted(tv).tasks);
            lemma_admitted(kv, tv);
            lemma_enqueued(kv.admitted(tv), n);
        }
        Some(n)
    }

    /// Creates a child of the current task that is a copy of it, and
    /// answers the child's identifier. The child is ready, and not queued
    /// yet.
    pub(crate) fn fork_current(&mut self) -> (r: Option<usize>)
        requires
            old(self)@.wf(),
            old(self)@.current is Some,
        ensures
            final(self)@.wf(),
            r is Some <==> old(self)@.tasks.len() < isize::MAX,
            r matches Some(pid) ==> {
                &&& pid == old(self)@.tasks.len()
                &&& final(self)@ == old(self)@.adopted(
                    old(self)@.current->0 as int,
                    old(self)@.cur().forked(pid),
                )
                &&& old(self)@.settled() ==> final(self)@.settled_but(pid as int)
                &&& !final(self)@.ready.contains(pid)
            },
            r is None ==> final(self)@ == old(self)@,
    {
        let c = match self.processor.current() {
            Some(c) => c,
            None => unreached(),
        };
        let n = self.tasks.len();
        if n >= isize::MAX as usize {
            return None;
        }
        let ghost kv = old(self)@;
        assert(kv.live(c as int));
        assert(kv.task(c as int).wf());
        let child = match &self.tasks[c] {
            Some(t) => t.fork(n),
            None => unreached(),
        };
        let ghost tv = child@;
        match &mut self.tasks[c] {
            Some(t) => {
                t.children.push(n);
            },
            None => {},
        }
        self.tasks.push(Some(Box::new(child)));
        proof {
            assert(self@.tasks =~= kv.adopted(c as int, tv).tasks);
            lemma_adopted(kv, c as int, tv);
        }
        Some(n)
    }

    /// Creates a child of the current task that runs the program known as
    /// `name`, and answers the child's identifier. The child is ready, and
    /// not queued yet.
    pub(crate) fn spawn_current(&mut self, name: &Vec<u8>) -> (r: Option<usize>)
        requires
            old(self)@.wf(),
            old(self)@.current is Some,
        ensures
            final(self)@.wf(),
            r is Some <==> old(self)@.loader.knows(name@) && old(self)@.tasks.len() < isize::MAX,
            r matches Some(pid) ==> {
                &&& pid == old(self)@.tasks.len()
                &&& final(self)@ == old(self)@.adopted(
                    old(self)@.current->0 as int,
                    old(self)@.cur().spawned(pid, old(self)@.loader.image_of(name@)),
                )
                &&& old(self)@.settled() ==> final(self)@.settled_but(pid as int)
                &&& !final(self)@.ready.contains(pid)
            },
            r is None ==> final(self)@ == old(self)@,
    {
        let c = match self.processor.current() {
            Some(c) => c,
            None => unreached(),
        };
        let n = self.tasks.len();
        if n >= isize::MAX as usize {
            return None;
        }
        let ghost kv = old(self)@;
        assert(kv.live(c as int));
        let child = match self.loader.get_app_data_by_name(name) {
            Some(img) => match &self.tasks[c] {
                Some(t) => t.spawn(n, img),
                None => unreached(),
            },
            None => {
                return None;
            },
        };
        let ghost tv = child@;
        match &mut self.tasks[c] {
            Some(t) => {
                t.children.push(n);
            },
            None => {},
        }
        self.tasks.push(Some(Box::new(child)));
        proof {
            assert(self@.tasks =~= kv.adopted(c as int, tv).tasks);
            lemma_adopted(kv, c as int, tv);
        }
        Some(n)
    }

    /// Replaces the program of the current task by the one known as
    /// `name`, and says whether such a program is known.
    pub(crate) fn exec_current(&mut self, name: &Vec<u8>) -> (r: bool)
        requires
            old(self)@.wf(),
            old(self)@.current is Some,
        ensures
            final(self)@.wf(),
            old(self)@.settled() ==> final(self)@.settled(),
            r == old(self)@.loader.knows(name@),
            r ==> final(self)@ == old(self)@.with_cur(
                old(self)@.cur().execed(old(self)@.loader.image_of(name@)),
            ),
            !r ==> final(self)@ == old(self)@,
    {
        let c = match self.processor.current() {
            Some(c) => c,
            None => unreached(),
        };
        let ghost kv = old(self)@;
        assert(kv.live(c as int));
        match self.loader.get_app_data_by_name(name) {
            Some(img) => {
                match &mut self.tasks[c] {
                    Some(t) => {
                        t.exec(img);
                    },
                    None => {},
                }
                proof {
                    let t = kv.cur().execed(kv.loader.image_of(name@));
                    assert(self@.tasks =~= kv.with_cur(t).tasks);
                    lemma_with_task(kv, c as int, t);
                }
                true
            },
            None => false,
        }
    }

    /// Puts the task `pid` at the back of the ready queue.
    pub(crate) fn add_task(&mut self, pid: usize)
        requires
            old(self)@.wf(),
            old(self)@.live(pid as int),
            old(self)@.task(pid as int).status == TaskStatus::Ready,
            !old(self)@.ready.contains(pid),
        ensures
            final(self)@ == old(self)@.enqueued(pid),
            final(self)@.wf(),
            old(self)@.settled_but(pid as int) ==> final(self)@.settled(),
    {
        self.ready.push(pid);
        proof {
            assert(self@.tasks =~= old(self)@.tasks);
            lemma_enqueued(old(self)@, pid);
        }
    }

    /// Takes the next task to dispatch off the ready queue: the one with
    /// the smallest stride, and of those the one that waited longest.
    pub(crate) fn fetch_task(&mut self) -> (r: Option<usize>)
        requires
            old(self)@.wf(),
        ensures
            final(self)@.wf(),
            r is Some <==> old(self)@.ready.len() > 0,
            r matches Some(pid) ==> {
                &&& old(self)@.is_next(old(self)@.next_index())
                &&& pid == old(self)@.ready[old(self)@.next_index()]
                &&& final(self)@ == old(self)@.dequeued(old(self)@.next_index())
                &&& final(self)@.live(pid as int)
                &&& final(self)@.task(pid as int).status == TaskStatus::Ready
                &&& !final(self)@.ready.contains(pid)
                &&& old(self)@.settled() ==> final(self)@.settled_but(pid as int)
            },
            r is None ==> final(self)@ == old(self)@,
    {
        if self.ready.len() == 0 {
            return None;
        }
        let ghost kv = old(self)@;
        let mut best: usize = 0;
        let mut best_stride: u64 = self.stride_of(self.ready[0]);
        let mut i: usize = 1;
        while i < self.ready.len()
            invariant
                self@ == kv,
                kv.wf(),
                1 <= i <= self.ready.len(),
                best < i,
                best_stride == kv.task(kv.ready[best as int] as int).stride,
                forall|k: int|
                    0 <= k < i ==> best_stride <= kv.task(#[trigger] kv.ready[k] as int).stride,
                forall|k: int|
                    0 <= k < best ==> best_stride < kv.task(#[trigger] kv.ready[k] as int).stride,
            decreases self.ready.len() - i,
        {
            let s = self.stride_of(self.ready[i]);
            if s < best_stride {
                best = i;
                best_stride = s;
            }
            i = i + 1;
        }
        proof {
            assert(kv.is_next(best as int));
            lemma_next_unique(kv, best as int);
            lemma_dequeued(kv, best as int);
        }
        let pid = self.ready.remove(best);
        assert(self@.tasks =~= kv.tasks);
        Some(pid)
    }

    /// Stride of the queued task `pid`.
    fn stride_of(&self, pid: usize) -> (s: u64)
        requires
            self@.wf(),
            self@.ready.contains(pid),
        ensures
            s == self@.task(pid as int).stride,
    {
        proof {
            let i = choose|i: int| 0 <= i < self@.ready.len() && self@.ready[i] == pid;
            assert(self@.live(self@.ready[i] as int));
        }
        match &self.tasks[pid] {
            Some(t) => t.stride,
            None => unreached(),
        }
    }

    /// Puts the task `pid` on the free processor at time `now`, saves the
    /// idle flow's registers `idle`, and answers the registers to resume
    /// the task with.
    pub(crate) fn dispatch(&mut self, pid: usize, idle: TaskContext, now: usize) -> (cx: TaskContext)
        requires
            old(self)@.wf(),
            old(self)@.current is None,
            old(self)@.live(pid as int),
            old(self)@.task(pid as int).status == TaskStatus::Ready,
            !old(self)@.ready.contains(pid),
        ensures
            final(self)@ == old(self)@.dispatched(pid, idle@, now),
            final(self)@.wf(),
            old(self)@.settled_but(pid as int) ==> final(self)@.settled(),
            cx@ == old(self)@.task(pid as int).task_cx,
    {
        let ghost kv = old(self)@;
        assert(kv.task(pid as int).wf());
        let mut cx = TaskContext::zero_init();
        match &mut self.tasks[pid] {
            Some(t) => {
                t.task_status = TaskStatus::Running;
                let pass = stride_pass(t.priority);
                if t.stride <= u64::MAX - pass {
                    t.stride = t.stride + pass;
                } else {
                    t.stride = u64::MAX;
                }
                if t.task_time.is_none() {
                    t.task_time = Some(now);
                }
                cx = t.task_cx;
            },
            None => {},
        }
        self.processor.install(pid, idle);
        proof {
            assert(self@.tasks =~= kv.dispatched(pid, idle@, now).tasks);
            lemma_dispatched(kv, pid, idle@, now);
        }
        cx
    }

    /// The current task gives the processor up: it is ready again and
    /// queued at the back. Answers its identifier.
    pub fn suspend_current_and_run_next(&mut self) -> (pid: usize)
        requires
            old(self)@.wf(),
            old(self)@.current is Some,
        ensures
            Some(pid) == old(self)@.current,
            final(self)@ == old(self)@.suspended(),
            final(self)@.wf(),
            old(self)@.settled() ==> final(self)@.settled(),
    {
        let c = match self.processor.take_current() {
            Some(c) => c,
            None => unreached(),
        };
        let ghost kv = old(self)@;
        assert(kv.live(c as int));
        match &mut self.tasks[c] {
            Some(t) => {
                t.task_status = TaskStatus::Ready;
            },
            None => {},
        }
        self.ready.push(c);
        proof {
            assert(self@.tasks =~= kv.suspended().tasks);
            lemma_suspended(kv);
        }
        c
    }

    /// The current task exits with `exit_code`: it becomes a zombie that
    /// keeps the code, gives up its frames and its children, and leaves the
    /// processor. Answers its identifier.
    pub fn exit_current_and_run_next(&mut self, exit_code: i32) -> (pid: usize)
        requires
            old(self)@.wf(),
            old(self)@.current is Some,
        ensures
            Some(pid) == old(self)@.current,
            final(self)@ == old(self)@.exited(exit_code),
            final(self)@.wf(),
            old(self)@.settled() ==> final(self)@.settled(),
    {
        let c = match self.processor.take_current() {
            Some(c) => c,
            None => unreached(),
        };
        let ghost kv = old(self)@;
        assert(kv.live(c as int));
        assert(kv.task(c as int).wf());
        let n = match &self.tasks[c] {
            Some(t) => t.children.len(),
            None => 0,
        };
        let mut i: usize = 0;
        while i < n
            invariant
                i <= n,
                n == kv.task(c as int).children.len(),
                kv.wf(),
                kv.live(c as int),
                kv.current == Some(c),
                self.tasks@.len() == kv.tasks.len(),
                self.ready@ == kv.ready,
                self.loader@ == kv.loader,
                self.processor.spec_current() is None,
                self.processor.spec_idle() == kv.idle_cx,
                forall|q: int|
                    0 <= q < kv.tasks.len() ==> slot_view(#[trigger] self.tasks@[q]) == if q != c
                        && kv.live(q) && orphaned_before(kv.task(c as int).children, i as int, q) {
                        Some(TaskView { parent: None, ..kv.task(q) })
                    } else {
                        kv.tasks[q]
                    },
            decreases n - i,
        {
            let ghost prev = self.tasks@;
            assert(slot_view(prev[c as int]) == kv.tasks[c as int]);
            let child = match &self.tasks[c] {
                Some(t) => t.children[i],
                None => c,
            };
            assert(child == kv.task(c as int).children[i as int]);
            assert(kv.live(child as int));
            if child != c {
                assert(slot_view(prev[child as int]) == if orphaned_before(
                    kv.task(c as int).children,
                    i as int,
                    child as int,
                ) {
                    Some(TaskView { parent: None, ..kv.task(child as int) })
                } else {
                    kv.tasks[child as int]
                });
                match &mut self.tasks[child] {
                    Some(t) => {
                        t.parent = None;
                    },
                    None => {},
                }
            }
            proof {
                assert forall|q: int| 0 <= q < kv.tasks.len() implies slot_view(
                    #[trigger] self.tasks@[q],
                ) == if q != c && kv.live(q) && orphaned_before(
                    kv.task(c as int).children,
                    i + 1,
                    q,
                ) {
                    Some(TaskView { parent: None, ..kv.task(q) })
                } else {
                    kv.tasks[q]
                } by {
                    assert(slot_view(prev[q]) == if q != c && kv.live(q) && orphaned_before(
                        kv.task(c as int).children,
                        i as int,
                        q,
                    ) {
                        Some(TaskView { parent: None, ..kv.task(q) })
                    } else {
                        kv.tasks[q]
                    });
                    if q != child {
                        assert(self.tasks@[q] == prev[q]);
                    }
                }
            }
            i = i + 1;
        }
        assert(slot_view(self.tasks@[c as int]) == kv.tasks[c as int]);
        let ghost mid = self.tasks@;
        match &mut self.tasks[c] {
            Some(t) => {
                t.task_status = TaskStatus::Zombie;
                t.exit_code = exit_code;
                t.memory_set.recycle_data_pages();
                t.children.clear();
            },
            None => {},
        }
        proof {
            assert forall|q: int| 0 <= q < kv.tasks.len() implies self@.tasks[q] == kv.exited(
                exit_code,
            ).tasks[q] by {
                if q != c {
                    assert(self.tasks@[q] == mid[q]);
                    lemma_orphaned_all(kv.task(c as int).children, q);
                }
            }
            assert(self@.tasks =~= kv.exited(exit_code).tasks);
            lemma_exited(kv, exit_code);
        }
        c
    }

    /// The current task collects its `i`-th child, a zombie: the child
    /// leaves the list and the task table. Answers the child's identifier
    /// and exit code.
    pub(crate) fn reap_child(&mut self, i: usize) -> (r: (usize, i32))
        requires
            old(self)@.wf(),
            old(self)@.current is Some,
            i < old(self)@.cur().children.len(),
            old(self)@.task(old(self)@.cur().children[i as int] as int).status == TaskStatus::Zombie,
        ensures
            r.0 == old(self)@.cur().children[i as int],
            r.1 == old(self)@.task(r.0 as int).exit_code,
            final(self)@ == old(self)@.reaped(old(self)@.current->0 as int, i as int),
            final(self)@.wf(),
            old(self)@.settled() ==> final(self)@.settled(),
            final(self)@.current == old(self)@.current,
            final(self)@.cur().memory == old(self)@.cur().memory,
            r.0 < old(self)@.tasks.len(),
    {
        let c = match self.processor.current() {
            Some(c) => c,
            None => unreached(),
        };
        let ghost kv = old(self)@;
        assert(kv.live(c as int));
        assert(kv.live(kv.task(c as int).children[i as int] as int));
        let mut z: usize = 0;
        match &mut self.tasks[c] {
            Some(t) => {
                z = t.children.remove(i);
            },
            None => {},
        }
        let code = match &self.tasks[z] {
            Some(t) => t.exit_code,
            None => unreached(),
        };
        self.tasks[z] = None;
        proof {
            assert(self@.tasks =~= kv.reaped(c as int, i as int).tasks);
            lemma_reaped(kv, c as int, i as int);
        }
        (z, code)
    }
}

} // verus!
