//! The mathematical model of the kernel's state: the task table, the ready
//! queue and the processor, the invariant that binds them, and the
//! transitions that keep it.

use vstd::prelude::*;
use crate::loader::LoaderView;
use crate::mm::space::MemorySetView;
use crate::task::context::TaskContextView;
use crate::task::tcb::{TaskStatus, TaskView};

verus! {

/// The kernel's state as contracts see it. `tasks[p]` is the task with
/// identifier `p`, or `None` where no task has it; `ready` is the ready
/// queue, oldest entry first; `current` is the task on the processor.
pub struct KernelView {
    pub tasks: Seq<Option<TaskView>>,
    pub ready: Seq<usize>,
    pub current: Option<usize>,
    pub idle_cx: TaskContextView,
    pub loader: LoaderView,
}

/// Whether a wait for `pid` accepts the child `child`: `-1` accepts any.
pub open spec fn wait_accepts(pid: isize, child: usize) -> bool {
    pid == -1 || pid as int == child as int
}

impl KernelView {
    /// Whether a task has the identifier `p`.
    pub open spec fn live(self, p: int) -> bool {
        0 <= p < self.tasks.len() && self.tasks[p] is Some
    }

    /// Whether the identifier `p` was issued and given up.
    pub open spec fn retired(self, p: int) -> bool {
        0 <= p < self.tasks.len() && self.tasks[p] is None
    }

    /// The task with the identifier `p`.
    pub open spec fn task(self, p: int) -> TaskView {
        self.tasks[p]->0
    }

    /// The task on the processor.
    pub open spec fn cur(self) -> TaskView {
        self.task(self.current->0 as int)
    }

    /// The invariant of the kernel's state. Every task is well formed and
    /// stored under its own identifier; the task on the processor is
    /// running; the ready queue holds ready tasks, none twice; every child
    /// that a task lists exists and names that task as its parent, and
    /// every task that names a parent is listed by it; a zombie lists no
    /// child.
    pub open spec fn wf(self) -> bool {
        &&& self.tasks.len() <= isize::MAX
        &&& self.loader.wf()
        &&& forall|p: int| #[trigger] self.live(p) ==> self.task(p).pid == p && self.task(p).wf()
        &&& self.current matches Some(c) ==> self.live(c as int) && self.task(c as int).status
            == TaskStatus::Running
        &&& forall|i: int|
            0 <= i < self.ready.len() ==> self.live(#[trigger] self.ready[i] as int) && self.task(
                self.ready[i] as int,
            ).status == TaskStatus::Ready
        &&& self.ready.no_duplicates()
        &&& forall|p: int, i: int|
            self.live(p) && 0 <= i < self.task(p).children.len() ==> self.live(
                #[trigger] self.task(p).children[i] as int,
            ) && self.task(self.task(p).children[i] as int).parent == Some(p as usize)
        &&& forall|q: int| #[trigger] self.live(q) ==> self.family_of(q)
    }

    /// Whether the task `q` fits into the family: the parent that it names
    /// is another task, exists and lists it, and as a zombie it lists no
    /// child.
    pub open spec fn family_of(self, q: int) -> bool {
        &&& self.task(q).parent matches Some(p) ==> p != q && self.live(p as int) && self.task(
            p as int,
        ).children.contains(q as usize)
        &&& self.task(q).status == TaskStatus::Zombie ==> self.task(q).children.len() == 0
    }

    /// Whether the state is at rest between two operations: no task runs
    /// but the one on the processor, and every ready task is queued.
    pub open spec fn settled(self) -> bool {
        forall|p: int| #[trigger]
            self.live(p) ==> {
                &&& self.task(p).status == TaskStatus::Running ==> self.current == Some(p as usize)
                &&& self.task(p).status == TaskStatus::Ready ==> self.ready.contains(p as usize)
            }
    }

    /// Whether the state is at rest but for the task `x`, of which nothing
    /// is asked.
    pub open spec fn settled_but(self, x: int) -> bool {
        forall|p: int| #[trigger]
            self.live(p) && p != x ==> {
                &&& self.task(p).status == TaskStatus::Running ==> self.current == Some(p as usize)
                &&& self.task(p).status == TaskStatus::Ready ==> self.ready.contains(p as usize)
            }
    }

    /// The state with `t` in place of the task `p`.
    pub open spec fn with_task(self, p: int, t: TaskView) -> KernelView {
        KernelView { tasks: self.tasks.update(p, Some(t)), ..self }
    }

    /// The state with `t` in place of the task on the processor.
    pub open spec fn with_cur(self, t: TaskView) -> KernelView {
        self.with_task(self.current->0 as int, t)
    }

    /// The state with `m` as the address space of the task on the processor.
    pub open spec fn with_memory(self, m: MemorySetView) -> KernelView {
        self.with_cur(TaskView { memory: m, ..self.cur() })
    }

    /// Whether `after` differs from this state at most in the bytes of the
    /// current task's address space from `va` on, which in `after` hold
    /// `data`.
    pub open spec fn stored(self, after: KernelView, va: int, data: Seq<u8>) -> bool {
        &&& after == self.with_memory(after.cur().memory)
        &&& self.cur().memory.written(after.cur().memory, va, data)
    }

    /// The state after the task `parent` got the new child `child`, stored
    /// under the next free identifier.
    pub open spec fn adopted(self, parent: int, child: TaskView) -> KernelView {
        let p = self.task(parent);
        KernelView {
            tasks: self.tasks.update(
                parent,
                Some(TaskView { children: p.children.push(self.tasks.len() as usize), ..p }),
            ).push(Some(child)),
            ..self
        }
    }

    /// The state with one more task, stored under the next free identifier.
    pub open spec fn admitted(self, t: TaskView) -> KernelView {
        KernelView { tasks: self.tasks.push(Some(t)), ..self }
    }

    /// The state with `p` at the back of the ready queue.
    pub open spec fn enqueued(self, p: usize) -> KernelView {
        KernelView { ready: self.ready.push(p), ..self }
    }

    /// Whether the queue entry `m` is the one to dispatch next: no entry
    /// has a smaller stride, and every earlier entry has a larger one.
    pub open spec fn is_next(self, m: int) -> bool {
        &&& 0 <= m < self.ready.len()
        &&& forall|k: int|
            0 <= k < self.ready.len() ==> self.task(self.ready[m] as int).stride <= self.task(
                #[trigger] self.ready[k] as int,
            ).stride
        &&& forall|k: int|
            0 <= k < m ==> self.task(self.ready[m] as int).stride < self.task(
                #[trigger] self.ready[k] as int,
            ).stride
    }

    /// Index in the ready queue of the entry to dispatch next.
    pub open spec fn next_index(self) -> int {
        choose|m: int| self.is_next(m)
    }

    /// The state without the queue entry `m`.
    pub open spec fn dequeued(self, m: int) -> KernelView {
        KernelView { ready: self.ready.remove(m), ..self }
    }

    /// The state after the task `p` was put on the processor at time `now`,
    /// the idle flow's registers saved as `idle`.
    pub open spec fn dispatched(self, p: usize, idle: TaskContextView, now: usize) -> KernelView {
        KernelView {
            tasks: self.tasks.update(p as int, Some(self.task(p as int).dispatched(now))),
            current: Some(p),
            idle_cx: idle,
            ..self
        }
    }

    /// The state after the task on the processor gave the processor up: it
    /// is ready again, at the back of the queue.
    pub open spec fn suspended(self) -> KernelView {
        let c = self.current->0;
        KernelView {
            tasks: self.tasks.update(
                c as int,
                Some(TaskView { status: TaskStatus::Ready, ..self.task(c as int) }),
            ),
            ready: self.ready.push(c),
            current: None,
            ..self
        }
    }

    /// The state after the task on the processor exited with `code`: it is
    /// a zombie, its children have no parent any more, and the processor
    /// is free.
    pub open spec fn exited(self, code: i32) -> KernelView {
        let c = self.current->0;
        KernelView {
            tasks: Seq::new(
                self.tasks.len(),
                |p: int|
                    if p == c {
                        Some(self.task(p).exited(code))
                    } else if self.live(p) && self.task(c as int).children.contains(p as usize) {
                        Some(TaskView { parent: None, ..self.task(p) })
                    } else {
                        self.tasks[p]
                    },
            ),
            current: None,
            ..self
        }
    }

    /// The state after the task on the processor took the processor's
    /// claim on it away, without changing the task.
    pub open spec fn vacated(self) -> KernelView {
        KernelView { current: None, ..self }
    }

    /// The state after the task `parent` collected its `i`-th child: the
    /// child is off the list, and no task has its identifier any more.
    pub open spec fn reaped(self, parent: int, i: int) -> KernelView {
        let p = self.task(parent);
        KernelView {
            tasks: self.tasks.update(parent, Some(TaskView { children: p.children.remove(i), ..p })).update(
                p.children[i] as int,
                None,
            ),
            ..self
        }
    }

    /// Whether the task `parent` has a child that a wait for `pid` accepts.
    pub open spec fn has_child(self, parent: int, pid: isize) -> bool {
        exists|i: int|
            0 <= i < self.task(parent).children.len() && wait_accepts(
                pid,
                #[trigger] self.task(parent).children[i],
            )
    }

    /// Whether the `i`-th child of the task `parent` is a zombie that a
    /// wait for `pid` accepts.
    pub open spec fn collectable(self, parent: int, pid: isize, i: int) -> bool {
        &&& 0 <= i < self.task(parent).children.len()
        &&& wait_accepts(pid, self.task(parent).children[i])
        &&& self.task(self.task(parent).children[i] as int).status == TaskStatus::Zombie
    }

    /// Whether the task `parent` has a zombie child that a wait for `pid`
    /// accepts.
    pub open spec fn has_zombie(self, parent: int, pid: isize) -> bool {
        exists|i: int| self.collectable(parent, pid, i)
    }

    /// Whether the `i`-th child of the task `parent` is the first zombie
    /// that a wait for `pid` accepts.
    pub open spec fn is_first_zombie(self, parent: int, pid: isize, i: int) -> bool {
        &&& self.collectable(parent, pid, i)
        &&& forall|j: int| 0 <= j < i ==> !self.collectable(parent, pid, j)
    }

    /// Index, in the child list of `parent`, of the first zombie that a
    /// wait for `pid` accepts.
    pub open spec fn first_zombie(self, parent: int, pid: isize) -> int {
        choose|i: int| self.is_first_zombie(parent, pid, i)
    }
}

/// Where a child can be collected, there is a first one.
pub proof fn lemma_first_zombie(kv: KernelView, parent: int, pid: isize, i: int)
    requires
        kv.collectable(parent, pid, i),
    ensures
        kv.has_zombie(parent, pid),
        kv.is_first_zombie(parent, pid, kv.first_zombie(parent, pid)),
        kv.first_zombie(parent, pid) <= i,
    decreases i,
{
    if exists|j: int| 0 <= j < i && #[trigger] kv.collectable(parent, pid, j) {
        let j = choose|j: int| 0 <= j < i && #[trigger] kv.collectable(parent, pid, j);
        lemma_first_zombie(kv, parent, pid, j);
    } else {
        assert(kv.is_first_zombie(parent, pid, i));
        let first = kv.first_zombie(parent, pid);
        assert(kv.is_first_zombie(parent, pid, first));
        if first > i {
            assert(!kv.collectable(parent, pid, i));
        }
    }
}

/// The first zombie is the one before which there is none.
pub proof fn lemma_first_zombie_is(kv: KernelView, parent: int, pid: isize, i: int)
    requires
        kv.is_first_zombie(parent, pid, i),
    ensures
        kv.first_zombie(parent, pid) == i,
        kv.has_zombie(parent, pid),
{
    let first = kv.first_zombie(parent, pid);
    assert(kv.is_first_zombie(parent, pid, first));
    if first < i {
        assert(!kv.collectable(parent, pid, first));
    }
    if first > i {
        assert(!kv.collectable(parent, pid, i));
    }
}

/// Replacing a task by one with the same identifier, status, parent and
/// children keeps the invariant, and keeps the state at rest.
pub proof fn lemma_with_task(kv: KernelView, p: int, t: TaskView)
    requires
        kv.wf(),
        kv.live(p),
        t.wf(),
        t.pid == kv.task(p).pid,
        t.status == kv.task(p).status,
        t.parent == kv.task(p).parent,
        t.children == kv.task(p).children,
    ensures
        kv.with_task(p, t).wf(),
        kv.settled() ==> kv.with_task(p, t).settled(),
        forall|x: int| kv.settled_but(x) ==> kv.with_task(p, t).settled_but(x),
{
    let n = kv.with_task(p, t);
    assert forall|q: int| #[trigger] n.live(q) implies n.family_of(q) by {
        assert(kv.live(q));
        assert(kv.family_of(q));
    }
    assert forall|x: int| kv.settled_but(x) implies n.settled_but(x) by {
        assert forall|q: int| #[trigger] n.live(q) && q != x implies {
            &&& n.task(q).status == TaskStatus::Running ==> n.current == Some(q as usize)
            &&& n.task(q).status == TaskStatus::Ready ==> n.ready.contains(q as usize)
        } by {
            assert(kv.live(q));
        }
    }
    assert forall|q: int| #[trigger] n.live(q) implies n.task(q).pid == q && n.task(q).wf() by {
        assert(kv.live(q));
    }
    assert forall|i: int| 0 <= i < n.ready.len() implies n.live(#[trigger] n.ready[i] as int)
        && n.task(n.ready[i] as int).status == TaskStatus::Ready by {
        assert(kv.live(kv.ready[i] as int));
    }
    assert forall|q: int, i: int| n.live(q) && 0 <= i < n.task(q).children.len() implies n.live(
        #[trigger] n.task(q).children[i] as int,
    ) && n.task(n.task(q).children[i] as int).parent == Some(q as usize) by {
        assert(kv.live(q));
        assert(kv.live(kv.task(q).children[i] as int));
    }
    if kv.settled() {
        assert forall|q: int| #[trigger] n.live(q) implies {
            &&& n.task(q).status == TaskStatus::Running ==> n.current == Some(q as usize)
            &&& n.task(q).status == TaskStatus::Ready ==> n.ready.contains(q as usize)
        } by {
            assert(kv.live(q));
        }
    }
}

/// Replacing the address space of the current task by a well-formed one
/// keeps the invariant, and keeps the state at rest.
pub proof fn lemma_with_memory(kv: KernelView, m: MemorySetView)
    requires
        kv.wf(),
        kv.current is Some,
        m.wf(),
    ensures
        kv.with_memory(m).wf(),
        kv.with_memory(m).current == kv.current,
        kv.with_memory(m).cur() == (TaskView { memory: m, ..kv.cur() }),
        kv.settled() ==> kv.with_memory(m).settled(),
{
    let c = kv.current->0 as int;
    assert(kv.live(c));
    lemma_with_task(kv, c, TaskView { memory: m, ..kv.cur() });
}

/// A new child of a live task, stored under the next free identifier,
/// keeps the invariant.
pub proof fn lemma_adopted(kv: KernelView, parent: int, child: TaskView)
    requires
        kv.wf(),
        kv.live(parent),
        kv.tasks.len() < isize::MAX,
        child.wf(),
        child.pid == kv.tasks.len(),
        child.status == TaskStatus::Ready,
        child.parent == Some(parent as usize),
        child.children.len() == 0,
        kv.task(parent).status != TaskStatus::Zombie,
    ensures
        kv.adopted(parent, child).wf(),
        !kv.ready.contains(child.pid),
        kv.settled() ==> kv.adopted(parent, child).settled_but(child.pid as int),
{
    let n = kv.adopted(parent, child);
    assert forall|q: int| #[trigger] n.live(q) implies n.family_of(q) by {
        if q < kv.tasks.len() {
            assert(kv.live(q));
            assert(kv.family_of(q));
            if kv.task(q).parent is Some {
                let pp = kv.task(q).parent->0;
                if pp == parent {
                    let i = choose|i: int|
                        0 <= i < kv.task(parent).children.len() && kv.task(parent).children[i]
                            == q as usize;
                    assert(n.task(parent).children[i] == q as usize);
                }
            }
        } else {
            assert(n.task(parent).children[kv.task(parent).children.len() as int] == q as usize);
        }
    }
    if kv.settled() {
        assert forall|q: int| #[trigger] n.live(q) && q != child.pid implies {
            &&& n.task(q).status == TaskStatus::Running ==> n.current == Some(q as usize)
            &&& n.task(q).status == TaskStatus::Ready ==> n.ready.contains(q as usize)
        } by {
            assert(kv.live(q));
        }
    }
    let k = kv.tasks.len() as int;
    let old_p = kv.task(parent);
    assert(n.task(parent).children =~= old_p.children.push(k as usize));
    assert forall|i: int| 0 <= i < old_p.children.len() implies old_p.children[i] != k by {
        assert(kv.live(old_p.children[i] as int));
    }
    assert(n.task(parent).children.no_duplicates());
    assert forall|q: int| #[trigger] n.live(q) implies n.task(q).pid == q && n.task(q).wf() by {
        if q < k {
            assert(kv.live(q));
        }
    }
    assert forall|i: int| 0 <= i < n.ready.len() implies n.live(#[trigger] n.ready[i] as int)
        && n.task(n.ready[i] as int).status == TaskStatus::Ready by {
        assert(kv.live(kv.ready[i] as int));
    }
    assert forall|q: int, i: int| n.live(q) && 0 <= i < n.task(q).children.len() implies n.live(
        #[trigger] n.task(q).children[i] as int,
    ) && n.task(n.task(q).children[i] as int).parent == Some(q as usize) by {
        if q < k {
            assert(kv.live(q));
            if q == parent && i == old_p.children.len() {
            } else {
                assert(n.task(q).children[i] == kv.task(q).children[i]);
                assert(kv.live(kv.task(q).children[i] as int));
            }
        }
    }
    if kv.ready.contains(child.pid) {
        let i = choose|i: int| 0 <= i < kv.ready.len() && kv.ready[i] == child.pid;
        assert(kv.live(kv.ready[i] as int));
    }
}

/// A new task without parent or children, stored under the next free
/// identifier, keeps the invariant.
pub proof fn lemma_admitted(kv: KernelView, t: TaskView)
    requires
        kv.wf(),
        kv.tasks.len() < isize::MAX,
        t.wf(),
        t.pid == kv.tasks.len(),
        t.status == TaskStatus::Ready,
        t.children.len() == 0,
        t.parent is None,
    ensures
        kv.admitted(t).wf(),
        !kv.ready.contains(t.pid),
        kv.settled() ==> kv.admitted(t).settled_but(t.pid as int),
{
    let n = kv.admitted(t);
    assert forall|q: int| #[trigger] n.live(q) implies n.family_of(q) by {
        if q < kv.tasks.len() {
            assert(kv.live(q));
            assert(kv.family_of(q));
        }
    }
    if kv.settled() {
        assert forall|q: int| #[trigger] n.live(q) && q != t.pid implies {
            &&& n.task(q).status == TaskStatus::Running ==> n.current == Some(q as usize)
            &&& n.task(q).status == TaskStatus::Ready ==> n.ready.contains(q as usize)
        } by {
            assert(kv.live(q));
        }
    }
    let k = kv.tasks.len() as int;
    assert forall|q: int| #[trigger] n.live(q) implies n.task(q).pid == q && n.task(q).wf() by {
        if q < k {
            assert(kv.live(q));
        }
    }
    assert forall|i: int| 0 <= i < n.ready.len() implies n.live(#[trigger] n.ready[i] as int)
        && n.task(n.ready[i] as int).status == TaskStatus::Ready by {
        assert(kv.live(kv.ready[i] as int));
    }
    assert forall|q: int, i: int| n.live(q) && 0 <= i < n.task(q).children.len() implies n.live(
        #[trigger] n.task(q).children[i] as int,
    ) && n.task(n.task(q).children[i] as int).parent == Some(q as usize) by {
        if q < k {
            assert(kv.live(q));
            assert(kv.live(kv.task(q).children[i] as int));
        }
    }
    if kv.ready.contains(t.pid) {
        let i = choose|i: int| 0 <= i < kv.ready.len() && kv.ready[i] == t.pid;
        assert(kv.live(kv.ready[i] as int));
    }
}

/// Queueing a ready task that is not queued keeps the invariant.
pub proof fn lemma_enqueued(kv: KernelView, p: usize)
    requires
        kv.wf(),
        kv.live(p as int),
        kv.task(p as int).status == TaskStatus::Ready,
        !kv.ready.contains(p),
    ensures
        kv.enqueued(p).wf(),
        kv.settled_but(p as int) ==> kv.enqueued(p).settled(),
{
    let n = kv.enqueued(p);
    assert forall|q: int| #[trigger] n.live(q) implies n.family_of(q) by {
        assert(kv.live(q));
        assert(kv.family_of(q));
    }
    if kv.settled_but(p as int) {
        assert forall|q: int| #[trigger] n.live(q) implies {
            &&& n.task(q).status == TaskStatus::Running ==> n.current == Some(q as usize)
            &&& n.task(q).status == TaskStatus::Ready ==> n.ready.contains(q as usize)
        } by {
            assert(kv.live(q));
            if q == p {
                assert(n.ready[kv.ready.len() as int] == p);
            } else if kv.task(q).status == TaskStatus::Ready {
                let i = choose|i: int| 0 <= i < kv.ready.len() && kv.ready[i] == q as usize;
                assert(n.ready[i] == q as usize);
            }
        }
    }
    assert forall|q: int| #[trigger] n.live(q) implies n.task(q).pid == q && n.task(q).wf() by {
        assert(kv.live(q));
    }
    assert forall|q: int, i: int| n.live(q) && 0 <= i < n.task(q).children.len() implies n.live(
        #[trigger] n.task(q).children[i] as int,
    ) && n.task(n.task(q).children[i] as int).parent == Some(q as usize) by {
        assert(kv.live(q));
        assert(kv.live(kv.task(q).children[i] as int));
    }
    assert forall|i: int| 0 <= i < n.ready.len() implies n.live(#[trigger] n.ready[i] as int)
        && n.task(n.ready[i] as int).status == TaskStatus::Ready by {
        if i < kv.ready.len() {
            assert(kv.live(kv.ready[i] as int));
        }
    }
    assert forall|i: int, j: int| 0 <= i < n.ready.len() && 0 <= j < n.ready.len() && i != j implies n.ready[i]
        != n.ready[j] by {
        if i < kv.ready.len() && j < kv.ready.len() {
        } else if i < kv.ready.len() {
            assert(kv.ready.contains(kv.ready[i]));
        } else {
            assert(kv.ready.contains(kv.ready[j]));
        }
    }
}

/// The entry to dispatch next is unique.
pub proof fn lemma_next_unique(kv: KernelView, m: int)
    requires
        kv.is_next(m),
    ensures
        kv.next_index() == m,
{
    let n = kv.next_index();
    assert(kv.is_next(n));
    if n < m {
        assert(kv.task(kv.ready[m] as int).stride < kv.task(kv.ready[n] as int).stride);
        assert(kv.task(kv.ready[n] as int).stride <= kv.task(kv.ready[m] as int).stride);
    }
    if m < n {
        assert(kv.task(kv.ready[n] as int).stride < kv.task(kv.ready[m] as int).stride);
        assert(kv.task(kv.ready[m] as int).stride <= kv.task(kv.ready[n] as int).stride);
    }
}

/// Taking an entry off the ready queue keeps the invariant.
pub proof fn lemma_dequeued(kv: KernelView, m: int)
    requires
        kv.wf(),
        0 <= m < kv.ready.len(),
    ensures
        kv.dequeued(m).wf(),
        !kv.dequeued(m).ready.contains(kv.ready[m]),
        forall|p: usize| p != kv.ready[m] && kv.ready.contains(p) ==> kv.dequeued(m).ready.contains(p),
        kv.settled() ==> kv.dequeued(m).settled_but(kv.ready[m] as int),
        kv.live(kv.ready[m] as int),
        kv.task(kv.ready[m] as int).status == TaskStatus::Ready,
{
    let n = kv.dequeued(m);
    assert forall|q: int| #[trigger] n.live(q) implies n.family_of(q) by {
        assert(kv.live(q));
        assert(kv.family_of(q));
    }
    assert forall|q: int| #[trigger] n.live(q) implies n.task(q).pid == q && n.task(q).wf() by {
        assert(kv.live(q));
    }
    assert forall|q: int, i: int| n.live(q) && 0 <= i < n.task(q).children.len() implies n.live(
        #[trigger] n.task(q).children[i] as int,
    ) && n.task(n.task(q).children[i] as int).parent == Some(q as usize) by {
        assert(kv.live(q));
        assert(kv.live(kv.task(q).children[i] as int));
    }
    assert forall|i: int| 0 <= i < n.ready.len() implies n.live(#[trigger] n.ready[i] as int)
        && n.task(n.ready[i] as int).status == TaskStatus::Ready by {
        let i0 = if i < m { i } else { i + 1 };
        assert(n.ready[i] == kv.ready[i0]);
        assert(kv.live(kv.ready[i0] as int));
    }
    assert forall|i: int, j: int| 0 <= i < n.ready.len() && 0 <= j < n.ready.len() && i != j implies n.ready[i]
        != n.ready[j] by {
        let i0 = if i < m { i } else { i + 1 };
        let j0 = if j < m { j } else { j + 1 };
        assert(n.ready[i] == kv.ready[i0]);
        assert(n.ready[j] == kv.ready[j0]);
    }
    if n.ready.contains(kv.ready[m]) {
        let i = choose|i: int| 0 <= i < n.ready.len() && n.ready[i] == kv.ready[m];
        let i0 = if i < m { i } else { i + 1 };
        assert(n.ready[i] == kv.ready[i0]);
    }
    assert forall|p: usize| p != kv.ready[m] && kv.ready.contains(p) implies n.ready.contains(p) by {
        let i0 = choose|i: int| 0 <= i < kv.ready.len() && kv.ready[i] == p;
        let i = if i0 < m { i0 } else { i0 - 1 };
        assert(n.ready[i] == p);
    }
    if kv.settled() {
        assert forall|q: int| #[trigger] n.live(q) && q != kv.ready[m] implies {
            &&& n.task(q).status == TaskStatus::Running ==> n.current == Some(q as usize)
            &&& n.task(q).status == TaskStatus::Ready ==> n.ready.contains(q as usize)
        } by {
            assert(kv.live(q));
        }
    }
}

/// Putting a ready task that is not queued on a free processor keeps the
/// invariant; and where nothing else was running and every other ready
/// task was queued, the state is at rest afterwards.
pub proof fn lemma_dispatched(kv: KernelView, p: usize, idle: TaskContextView, now: usize)
    requires
        kv.wf(),
        kv.current is None,
        kv.live(p as int),
        kv.task(p as int).status == TaskStatus::Ready,
        !kv.ready.contains(p),
    ensures
        kv.dispatched(p, idle, now).wf(),
        kv.settled_but(p as int) ==> kv.dispatched(p, idle, now).settled(),
{
    let n = kv.dispatched(p, idle, now);
    assert forall|q: int| #[trigger] n.live(q) implies n.family_of(q) by {
        assert(kv.live(q));
        assert(kv.family_of(q));
    }
    assert forall|q: int| #[trigger] n.live(q) implies n.task(q).pid == q && n.task(q).wf() by {
        assert(kv.live(q));
    }
    assert forall|i: int| 0 <= i < n.ready.len() implies n.live(#[trigger] n.ready[i] as int)
        && n.task(n.ready[i] as int).status == TaskStatus::Ready by {
        assert(kv.live(kv.ready[i] as int));
        assert(kv.ready.contains(kv.ready[i]));
    }
    assert forall|q: int, i: int| n.live(q) && 0 <= i < n.task(q).children.len() implies n.live(
        #[trigger] n.task(q).children[i] as int,
    ) && n.task(n.task(q).children[i] as int).parent == Some(q as usize) by {
        assert(kv.live(q));
        assert(kv.live(kv.task(q).children[i] as int));
    }
    if kv.settled_but(p as int) {
        assert forall|q: int| #[trigger] n.live(q) implies {
            &&& n.task(q).status == TaskStatus::Running ==> n.current == Some(q as usize)
            &&& n.task(q).status == TaskStatus::Ready ==> n.ready.contains(q as usize)
        } by {
            assert(kv.live(q));
        }
    }
}

/// Taking the current task off the processor keeps the invariant.
pub proof fn lemma_vacated(kv: KernelView)
    requires
        kv.wf(),
    ensures
        kv.vacated().wf(),
{
    let n = kv.vacated();
    assert forall|q: int| #[trigger] n.live(q) implies n.family_of(q) by {
        assert(kv.live(q));
        assert(kv.family_of(q));
    }
    assert forall|q: int| #[trigger] n.live(q) implies n.task(q).pid == q && n.task(q).wf() by {
        assert(kv.live(q));
    }
    assert forall|i: int| 0 <= i < n.ready.len() implies n.live(#[trigger] n.ready[i] as int)
        && n.task(n.ready[i] as int).status == TaskStatus::Ready by {
        assert(kv.live(kv.ready[i] as int));
    }
    assert forall|q: int, i: int| n.live(q) && 0 <= i < n.task(q).children.len() implies n.live(
        #[trigger] n.task(q).children[i] as int,
    ) && n.task(n.task(q).children[i] as int).parent == Some(q as usize) by {
        assert(kv.live(q));
        assert(kv.live(kv.task(q).children[i] as int));
    }
}

/// Giving the processor up keeps the invariant and keeps the state at rest.
pub proof fn lemma_suspended(kv: KernelView)
    requires
        kv.wf(),
        kv.current is Some,
    ensures
        kv.suspended().wf(),
        kv.settled() ==> kv.suspended().settled(),
{
    let n = kv.suspended();
    let c = kv.current->0;
    assert forall|q: int| #[trigger] n.live(q) implies n.family_of(q) by {
        assert(kv.live(q));
        assert(kv.family_of(q));
    }
    assert forall|q: int| #[trigger] n.live(q) implies n.task(q).pid == q && n.task(q).wf() by {
        assert(kv.live(q));
    }
    assert forall|i: int| 0 <= i < n.ready.len() implies n.live(#[trigger] n.ready[i] as int)
        && n.task(n.ready[i] as int).status == TaskStatus::Ready by {
        if i < kv.ready.len() {
            assert(kv.live(kv.ready[i] as int));
        }
    }
    assert forall|i: int, j: int| 0 <= i < n.ready.len() && 0 <= j < n.ready.len() && i != j implies n.ready[i]
        != n.ready[j] by {
        if i < kv.ready.len() {
            assert(kv.live(kv.ready[i] as int));
        }
        if j < kv.ready.len() {
            assert(kv.live(kv.ready[j] as int));
        }
    }
    assert forall|q: int, i: int| n.live(q) && 0 <= i < n.task(q).children.len() implies n.live(
        #[trigger] n.task(q).children[i] as int,
    ) && n.task(n.task(q).children[i] as int).parent == Some(q as usize) by {
        assert(kv.live(q));
        assert(kv.live(kv.task(q).children[i] as int));
    }
    if kv.settled() {
        assert forall|q: int| #[trigger] n.live(q) implies {
            &&& n.task(q).status == TaskStatus::Running ==> n.current == Some(q as usize)
            &&& n.task(q).status == TaskStatus::Ready ==> n.ready.contains(q as usize)
        } by {
            assert(kv.live(q));
            if q == c {
                assert(n.ready[kv.ready.len() as int] == c);
            } else if kv.task(q).status == TaskStatus::Ready {
                let i = choose|i: int| 0 <= i < kv.ready.len() && kv.ready[i] == q as usize;
                assert(n.ready[i] == q as usize);
            }
        }
    }
}

/// Exiting keeps the invariant and keeps the state at rest.
#[verifier::rlimit(40)]
pub proof fn lemma_exited(kv: KernelView, code: i32)
    requires
        kv.wf(),
        kv.current is Some,
    ensures
        kv.exited(code).wf(),
        kv.settled() ==> kv.exited(code).settled(),
{
    let n = kv.exited(code);
    let c = kv.current->0 as int;
    crate::mm::space::lemma_released_wf(kv.task(c).memory);
    assert(kv.live(c));
    assert forall|q: int| #[trigger] n.live(q) implies n.family_of(q) by {
        assert(kv.live(q));
        assert(kv.family_of(q));
        if q != c {
            if n.task(q).parent is Some {
                let pp = n.task(q).parent->0;
                assert(kv.task(q).parent == Some(pp));
                assert(pp != c);
                assert(kv.live(pp as int));
                assert(n.task(pp as int).children == kv.task(pp as int).children);
            }
        } else {
            if kv.task(c).parent is Some {
                let pp = kv.task(c).parent->0;
                assert(pp != c);
                assert(n.task(pp as int).children == kv.task(pp as int).children);
            }
        }
    }
    assert forall|q: int| #[trigger] n.live(q) implies n.task(q).pid == q && n.task(q).wf() by {
        assert(kv.live(q));
    }
    assert forall|i: int| 0 <= i < n.ready.len() implies n.live(#[trigger] n.ready[i] as int)
        && n.task(n.ready[i] as int).status == TaskStatus::Ready by {
        assert(kv.live(kv.ready[i] as int));
    }
    assert forall|q: int, i: int| n.live(q) && 0 <= i < n.task(q).children.len() implies n.live(
        #[trigger] n.task(q).children[i] as int,
    ) && n.task(n.task(q).children[i] as int).parent == Some(q as usize) by {
        assert(kv.live(q));
        assert(q != c);
        assert(n.task(q).children == kv.task(q).children);
        assert(kv.live(kv.task(q).children[i] as int));
    }
    if kv.settled() {
        assert forall|q: int| #[trigger] n.live(q) implies {
            &&& n.task(q).status == TaskStatus::Running ==> n.current == Some(q as usize)
            &&& n.task(q).status == TaskStatus::Ready ==> n.ready.contains(q as usize)
        } by {
            assert(kv.live(q));
        }
    }
}

/// Collecting a zombie child keeps the invariant and keeps the state at
/// rest.
#[verifier::rlimit(40)]
pub proof fn lemma_reaped(kv: KernelView, parent: int, i: int)
    requires
        kv.wf(),
        kv.live(parent),
        0 <= i < kv.task(parent).children.len(),
        kv.task(kv.task(parent).children[i] as int).status == TaskStatus::Zombie,
        kv.task(parent).status != TaskStatus::Zombie,
    ensures
        kv.reaped(parent, i).wf(),
        kv.settled() ==> kv.reaped(parent, i).settled(),
        !kv.reaped(parent, i).live(kv.task(parent).children[i] as int),
        !kv.reaped(parent, i).task(parent).children.contains(kv.task(parent).children[i]),
        kv.reaped(parent, i).live(parent),
        kv.reaped(parent, i).task(parent) == (TaskView {
            children: kv.task(parent).children.remove(i),
            ..kv.task(parent)
        }),
{
    let n = kv.reaped(parent, i);
    let p = kv.task(parent);
    let z = p.children[i] as int;
    assert(kv.live(z));
    assert(z != parent);
    let rest = p.children.remove(i);
    assert(n.task(parent).children == rest);
    assert forall|j: int| 0 <= j < rest.len() implies rest[j] != z by {
        let j0 = if j < i { j } else { j + 1 };
        assert(rest[j] == p.children[j0]);
    }
    assert(kv.family_of(z));
    assert forall|q: int| #[trigger] n.live(q) implies n.family_of(q) by {
        assert(kv.live(q));
        assert(kv.family_of(q));
        if kv.task(q).parent is Some {
                let pp = kv.task(q).parent->0;
            if pp == z {
                assert(kv.task(z).children.contains(q as usize));
            }
            if pp == parent {
                let k0 = choose|k: int| 0 <= k < p.children.len() && p.children[k] == q as usize;
                assert(k0 != i);
                let k = if k0 < i { k0 } else { k0 - 1 };
                assert(rest[k] == q as usize);
            }
        }
    }
    assert forall|a: int, b: int| 0 <= a < rest.len() && 0 <= b < rest.len() && a != b implies rest[a]
        != rest[b] by {
        let a0 = if a < i { a } else { a + 1 };
        let b0 = if b < i { b } else { b + 1 };
        assert(rest[a] == p.children[a0]);
        assert(rest[b] == p.children[b0]);
    }
    assert forall|q: int| #[trigger] n.live(q) implies n.task(q).pid == q && n.task(q).wf() by {
        assert(kv.live(q));
    }
    assert forall|k: int| 0 <= k < n.ready.len() implies n.live(#[trigger] n.ready[k] as int)
        && n.task(n.ready[k] as int).status == TaskStatus::Ready by {
        assert(kv.live(kv.ready[k] as int));
    }
    assert forall|q: int, k: int| n.live(q) && 0 <= k < n.task(q).children.len() implies n.live(
        #[trigger] n.task(q).children[k] as int,
    ) && n.task(n.task(q).children[k] as int).parent == Some(q as usize) by {
        assert(kv.live(q));
        if q == parent {
            let k0 = if k < i { k } else { k + 1 };
            assert(rest[k] == p.children[k0]);
            assert(kv.live(p.children[k0] as int));
        } else {
            assert(kv.live(kv.task(q).children[k] as int));
            if kv.task(q).children[k] as int == z {
                assert(kv.task(z).parent == Some(q as usize));
            }
        }
    }
    if kv.settled() {
        assert forall|q: int| #[trigger] n.live(q) implies {
            &&& n.task(q).status == TaskStatus::Running ==> n.current == Some(q as usize)
            &&& n.task(q).status == TaskStatus::Ready ==> n.ready.contains(q as usize)
        } by {
            assert(kv.live(q));
        }
    }
    if rest.contains(z as usize) {
        let j = choose|j: int| 0 <= j < rest.len() && rest[j] == z as usize;
        assert(rest[j] != z);
    }
}

} // verus!
