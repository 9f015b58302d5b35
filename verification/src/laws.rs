//! What holds of the kernel whatever the tasks do: laws that relate
//! several operations, each proved from the operations' contracts.

use vstd::prelude::*;
use crate::config::{MICRO_PER_SEC, MIN_PRIORITY, PAGE_SIZE};
use crate::mm::address::pages_for;
use crate::mm::area::MapPermission;
use crate::mm::space::{lemma_area_of, lemma_range_free, lemma_written_reads_back};
use crate::syscall::encode::{le_bytes, twos_complement};
use crate::syscall::process::{
    collected_state, exit_code_bytes, forked_state, mmap_state, mmap_valid, munmap_state,
    munmap_valid, waited_child, waitpid_collects, waitpid_result, TimeVal,
};
use crate::task::context::REG_RETURN;
use crate::task::state::KernelView;
use crate::task::tcb::{lemma_quotient_bounds, lemma_quotient_monotone, pass_of, TaskStatus, TaskView};
use crate::config::BIG_STRIDE;

verus! {

/// Mapping a range of at least one byte and unmapping the same range at
/// once succeeds both times, and leaves the state as it was before: no
/// area covers the range.
pub proof fn law_mmap_then_munmap(kv: KernelView, start: usize, len: usize, port: usize)
    requires
        kv.wf(),
        kv.current is Some,
        len > 0,
        mmap_valid(kv, start, len, port),
    ensures
        munmap_valid(mmap_state(kv, start, len, port), start, len),
        munmap_state(mmap_state(kv, start, len, port), start, len) == kv,
        kv.cur().memory.range_free(
            start as int / PAGE_SIZE as int,
            start as int / PAGE_SIZE as int + pages_for(len as int),
        ),
{
    let c = kv.current->0 as int;
    assert(kv.live(c));
    let s = start as int / PAGE_SIZE as int;
    let e = s + pages_for(len as int);
    let m0 = kv.cur().memory;
    let perm = MapPermission::of_port(port as int);
    let m1 = m0.insert(s, e, perm);
    let k = m0.areas.len() as int;
    let mid = mmap_state(kv, start, len, port);
    assert(mid.cur().memory == m1);
    assert(m1.areas[k].spans(s, e));
    lemma_range_free(m0, s, e);
    assert forall|j: int| 1 <= j < k implies !(#[trigger] m1.areas[j]).spans(s, e) by {
        assert(m1.areas[j] == m0.areas[j]);
        assert(m0.areas[j].wf());
        if m0.areas[j].spans(s, e) {
            assert(m0.areas[j].overlaps(s, e));
        }
    }
    crate::mm::space::lemma_first_span_is(m1, s, e, k);
    assert(m1.remove(k).areas =~= m0.areas);
    assert(m1.remove(k) == m0);
    let fin = munmap_state(mid, start, len);
    assert(fin.tasks =~= kv.tasks);
}

/// Once a range is mapped, each of its pages is mapped, and a further
/// request to map a range that holds one of these pages is not valid.
pub proof fn law_mmap_over_mapped(
    kv: KernelView,
    start: usize,
    len: usize,
    port: usize,
    start2: usize,
    len2: usize,
    port2: usize,
    vpn: int,
)
    requires
        kv.wf(),
        kv.current is Some,
        mmap_valid(kv, start, len, port),
        start as int / PAGE_SIZE as int <= vpn < start as int / PAGE_SIZE as int + pages_for(len as int),
        start2 as int / PAGE_SIZE as int <= vpn < start2 as int / PAGE_SIZE as int + pages_for(
            len2 as int,
        ),
    ensures
        mmap_state(kv, start, len, port).cur().memory.mapped(vpn),
        !mmap_valid(mmap_state(kv, start, len, port), start2, len2, port2),
{
    let c = kv.current->0 as int;
    assert(kv.live(c));
    let s = start as int / PAGE_SIZE as int;
    let e = s + pages_for(len as int);
    let m1 = kv.cur().memory.insert(s, e, MapPermission::of_port(port as int));
    let mid = mmap_state(kv, start, len, port);
    assert(mid.cur().memory == m1);
    let k = kv.cur().memory.areas.len() as int;
    assert(m1.areas[k].contains(vpn));
    assert(m1.mapped(vpn));
}

/// A request to map a range that holds a mapped page is not valid,
/// whoever mapped the page.
pub proof fn law_mmap_refuses_mapped(kv: KernelView, start: usize, len: usize, port: usize, vpn: int)
    requires
        kv.cur().memory.mapped(vpn),
        start as int / PAGE_SIZE as int <= vpn < start as int / PAGE_SIZE as int + pages_for(len as int),
    ensures
        !mmap_valid(kv, start, len, port),
{
}

/// A request to unmap a range is valid only where an inserted area has
/// exactly the range's pages.
pub proof fn law_munmap_needs_exact_area(kv: KernelView, start: usize, len: usize)
    requires
        forall|i: int|
            1 <= i < kv.cur().memory.areas.len() ==> !(#[trigger] kv.cur().memory.areas[i]).spans(
                start as int / PAGE_SIZE as int,
                start as int / PAGE_SIZE as int + pages_for(len as int),
            ),
    ensures
        !munmap_valid(kv, start, len),
{
}

/// After a fork the child is a task of its own with a nonzero identifier,
/// whose return-value register holds 0 and whose memory holds what the
/// parent's holds; the parent's registers are as they were.
pub proof fn law_fork_child(kv: KernelView)
    requires
        kv.wf(),
        kv.current is Some,
        kv.tasks.len() < isize::MAX,
    ensures
        kv.tasks.len() != 0,
        forked_state(kv, kv.tasks.len() as usize).live(kv.tasks.len() as int),
        forked_state(kv, kv.tasks.len() as usize).task(kv.tasks.len() as int).trap_cx.regs[REG_RETURN as int]
            == 0,
        forked_state(kv, kv.tasks.len() as usize).task(kv.tasks.len() as int).memory == kv.cur().memory,
        forked_state(kv, kv.tasks.len() as usize).task(kv.tasks.len() as int).parent == kv.current,
        forked_state(kv, kv.tasks.len() as usize).current == kv.current,
        forked_state(kv, kv.tasks.len() as usize).cur().trap_cx == kv.cur().trap_cx,
        forked_state(kv, kv.tasks.len() as usize).cur().memory == kv.cur().memory,
{
    let c = kv.current->0 as int;
    assert(kv.live(c));
}

/// While no child of the current task has exited, a wait for any child
/// answers -2 where the task has a child, and -1 where it has none.
pub proof fn law_wait_before_exit(kv: KernelView, ptr: usize)
    requires
        kv.wf(),
        kv.current is Some,
        forall|i: int|
            0 <= i < kv.cur().children.len() ==> kv.task(#[trigger] kv.cur().children[i] as int).status
                != TaskStatus::Zombie,
    ensures
        waitpid_result(kv, -1isize, ptr) == if kv.cur().children.len() > 0 {
            -2isize
        } else {
            -1isize
        },
        !waitpid_collects(kv, -1isize, ptr),
{
    let c = kv.current->0 as int;
    let any: isize = -1isize;
    if kv.cur().children.len() > 0 {
        assert(crate::task::state::wait_accepts(any, kv.cur().children[0]));
        assert(kv.has_child(c, any));
    }
    if kv.has_zombie(c, any) {
        let i = choose|i: int| #[trigger] kv.collectable(c, any, i);
        assert(kv.task(kv.cur().children[i] as int).status != TaskStatus::Zombie);
    }
}

/// A task that exits with a code is a zombie that keeps the code.
pub proof fn law_exit_keeps_code(kv: KernelView, code: i32)
    requires
        kv.wf(),
        kv.current is Some,
    ensures
        kv.exited(code).live(kv.current->0 as int),
        kv.exited(code).task(kv.current->0 as int).status == TaskStatus::Zombie,
        kv.exited(code).task(kv.current->0 as int).exit_code == code,
        kv.exited(code).task(kv.current->0 as int).parent == kv.cur().parent,
{
    let c = kv.current->0 as int;
    assert(kv.live(c));
}

/// A task that exited holds no frame any more: no page of its address
/// space is mapped.
pub proof fn law_exit_releases_frames(kv: KernelView, code: i32, vpn: int)
    requires
        kv.wf(),
        kv.current is Some,
    ensures
        !kv.exited(code).task(kv.current->0 as int).memory.mapped(vpn),
        kv.exited(code).current is None,
{
    let c = kv.current->0 as int;
    assert(kv.live(c));
    let m = kv.exited(code).task(c).memory;
    assert(m == kv.task(c).memory.released());
    assert(m.areas.len() == 1);
    if m.mapped(vpn) {
        let i = m.area_of(vpn);
        assert(m.areas[i].contains(vpn));
    }
}

/// A wait for a child that exited, and that is the only child to collect
/// or the one named, answers the child's identifier; afterwards the four
/// bytes at the place given hold the child's exit code, no task has the
/// child's identifier, and the task does not list the child.
pub proof fn law_wait_observes_code(kv: KernelView, after: KernelView, pid: isize, ptr: usize, i: int)
    requires
        kv.wf(),
        kv.current is Some,
        kv.collectable(kv.current->0 as int, pid, i),
        forall|j: int| 0 <= j < i ==> !kv.collectable(kv.current->0 as int, pid, j),
        kv.cur().memory.range_user_writable(ptr as int, 4),
        kv.reaped(kv.current->0 as int, i).stored(
            after,
            ptr as int,
            exit_code_bytes(kv.task(kv.cur().children[i] as int).exit_code),
        ),
    ensures
        kv.first_zombie(kv.current->0 as int, pid) == i,
        waitpid_collects(kv, pid, ptr),
        waitpid_result(kv, pid, ptr) == kv.cur().children[i],
        waited_child(kv, pid) == kv.cur().children[i],
        collected_state(kv, pid) == kv.reaped(kv.current->0 as int, i),
        after.cur().memory.bytes_at(ptr as int, 4) == exit_code_bytes(
            kv.task(kv.cur().children[i] as int).exit_code,
        ),
        after.retired(kv.cur().children[i] as int),
        !after.cur().children.contains(kv.cur().children[i]),
{
    let c = kv.current->0 as int;
    let z = kv.cur().children[i];
    assert(kv.live(c));
    assert(kv.live(z as int));
    crate::task::state::lemma_first_zombie_is(kv, c, pid, i);
    assert(crate::task::state::wait_accepts(pid, kv.cur().children[i]));
    assert(kv.has_child(c, pid));
    crate::task::state::lemma_reaped(kv, c, i);
    let mid = kv.reaped(c, i);
    crate::syscall::encode::lemma_le_bytes_len(twos_complement(kv.task(z as int).exit_code), 4);
    lemma_written_reads_back(
        mid.cur().memory,
        after.cur().memory,
        ptr as int,
        le_bytes(twos_complement(kv.task(z as int).exit_code), 4),
    );
}

/// No wait answers an identifier that no task has. Since an identifier
/// that was given up is never issued again, the identifier of a child that
/// was collected is never the answer of a later wait.
pub proof fn law_wait_never_answers_retired(kv: KernelView, z: int, pid: isize, ptr: usize)
    requires
        kv.wf(),
        kv.current is Some,
        kv.retired(z),
    ensures
        waitpid_result(kv, pid, ptr) != z,
{
    let c = kv.current->0 as int;
    assert(kv.live(c));
    if waitpid_collects(kv, pid, ptr) {
        let w = choose|i: int| kv.collectable(c, pid, i);
        crate::task::state::lemma_first_zombie(kv, c, pid, w);
        let i = kv.first_zombie(c, pid);
        assert(kv.live(kv.cur().children[i] as int));
    }
}

/// The exit code can be told from the four bytes that hold it.
pub proof fn law_exit_code_readable(a: i32, b: i32)
    requires
        exit_code_bytes(a) == exit_code_bytes(b),
    ensures
        a == b,
{
    let x = twos_complement(a);
    let y = twos_complement(b);
    reveal_with_fuel(le_bytes, 5);
    let sx = le_bytes(x, 4);
    let sy = le_bytes(y, 4);
    assert(sx[0] == sy[0]);
    assert(sx[1] == sy[1]);
    assert(sx[2] == sy[2]);
    assert(sx[3] == sy[3]);
    assert(sx[0] == (x % 256) as u8);
    assert(sx[1] == ((x / 256) % 256) as u8);
    assert(sx[2] == ((x / 256 / 256) % 256) as u8);
    assert(sx[3] == ((x / 256 / 256 / 256) % 256) as u8);
    assert(sy[0] == (y % 256) as u8);
    assert(sy[1] == ((y / 256) % 256) as u8);
    assert(sy[2] == ((y / 256 / 256) % 256) as u8);
    assert(sy[3] == ((y / 256 / 256 / 256) % 256) as u8);
}

/// A later reading of the clock never gives the earlier time, and the
/// microseconds stay below one second.
pub proof fn law_time_monotone(us1: usize, us2: usize)
    requires
        us1 <= us2,
    ensures
        TimeVal::of_micros(us1).sec < TimeVal::of_micros(us2).sec || (TimeVal::of_micros(us1).sec
            == TimeVal::of_micros(us2).sec && TimeVal::of_micros(us1).usec <= TimeVal::of_micros(
            us2,
        ).usec),
        TimeVal::of_micros(us1).usec < MICRO_PER_SEC,
        TimeVal::of_micros(us2).usec < MICRO_PER_SEC,
{
}

/// The pass of a valid priority is at least one and at most half the big
/// stride, and a higher priority never has the larger pass: at each
/// dispatch its stride advances by no more.
pub proof fn law_pass_by_priority(p: isize, q: isize)
    requires
        MIN_PRIORITY <= p <= q,
    ensures
        1 <= pass_of(q) <= pass_of(p) <= BIG_STRIDE / 2,
{
    lemma_quotient_bounds(BIG_STRIDE as int, p as int);
    lemma_quotient_bounds(BIG_STRIDE as int, q as int);
    lemma_quotient_monotone(BIG_STRIDE as int, p as int, q as int);
}

/// To spawn a child is to fork it and to replace its program at once.
pub proof fn law_spawn_is_fork_then_exec(parent: TaskView, pid: usize, img: crate::loader::ProgramView)
    ensures
        parent.spawned(pid, img) == parent.forked(pid).execed(img),
        parent.spawned(pid, img).memory == img.space,
        parent.spawned(pid, img).parent == Some(parent.pid),
{
}

/// An identifier that was given up stays so whatever happens next: no
/// operation stores a task under it again.
pub proof fn law_identifiers_never_reissued(kv: KernelView, z: int)
    requires
        kv.wf(),
        kv.retired(z),
    ensures
        forall|p: int, t: TaskView| kv.live(p) ==> (#[trigger] kv.with_task(p, t)).retired(z),
        forall|p: int, child: TaskView| kv.live(p) ==> (#[trigger] kv.adopted(p, child)).retired(z),
        forall|t: TaskView| (#[trigger] kv.admitted(t)).retired(z),
        forall|p: usize| (#[trigger] kv.enqueued(p)).retired(z),
        forall|m: int| (#[trigger] kv.dequeued(m)).retired(z),
        forall|p: usize, idle: crate::task::context::TaskContextView, now: usize|
            kv.live(p as int) ==> (#[trigger] kv.dispatched(p, idle, now)).retired(z),
        kv.current is Some && kv.live(kv.current->0 as int) ==> kv.suspended().retired(z),
        forall|code: i32|
            kv.current is Some && kv.live(kv.current->0 as int) ==> (#[trigger] kv.exited(code)).retired(
                z,
            ),
        kv.vacated().retired(z),
        forall|p: int, i: int|
            kv.live(p) && 0 <= i < kv.task(p).children.len() ==> (#[trigger] kv.reaped(p, i)).retired(z),
{
    assert forall|p: int, i: int| kv.live(p) && 0 <= i < kv.task(p).children.len() implies (
    #[trigger] kv.reaped(p, i)).retired(z) by {
        assert(kv.live(kv.task(p).children[i] as int));
    }
}

/// Whether the task `z` is a zombie in the state `kv`.
pub open spec fn is_zombie(kv: KernelView, z: int) -> bool {
    kv.live(z) && kv.task(z).status == TaskStatus::Zombie
}

/// A zombie stays a zombie until it is collected: it is never ready or
/// running again.
pub proof fn law_zombie_stays(kv: KernelView, z: int)
    requires
        kv.wf(),
        is_zombie(kv, z),
    ensures
        forall|p: int, t: TaskView|
            kv.live(p) && t.status == kv.task(p).status ==> is_zombie(#[trigger] kv.with_task(p, t), z),
        forall|p: int, child: TaskView| kv.live(p) ==> is_zombie(#[trigger] kv.adopted(p, child), z),
        forall|t: TaskView| is_zombie(#[trigger] kv.admitted(t), z),
        forall|p: usize| is_zombie(#[trigger] kv.enqueued(p), z),
        forall|m: int| is_zombie(#[trigger] kv.dequeued(m), z),
        forall|p: usize, idle: crate::task::context::TaskContextView, now: usize|
            kv.live(p as int) && kv.task(p as int).status == TaskStatus::Ready ==> is_zombie(
                #[trigger] kv.dispatched(p, idle, now),
                z,
            ),
        kv.current is Some ==> is_zombie(kv.suspended(), z),
        forall|code: i32| kv.current is Some ==> is_zombie(#[trigger] kv.exited(code), z),
        is_zombie(kv.vacated(), z),
        forall|p: int, i: int|
            kv.live(p) && 0 <= i < kv.task(p).children.len() && kv.task(p).status != TaskStatus::Zombie
                ==> is_zombie(#[trigger] kv.reaped(p, i), z) || (kv.reaped(p, i).retired(z)
                && kv.task(p).children[i] == z),
{
    assert forall|p: int, i: int|
        kv.live(p) && 0 <= i < kv.task(p).children.len() && kv.task(p).status
            != TaskStatus::Zombie implies is_zombie(#[trigger] kv.reaped(p, i), z) || (kv.reaped(
        p,
        i,
    ).retired(z) && kv.task(p).children[i] == z) by {
        assert(kv.live(kv.task(p).children[i] as int));
    }
    if kv.current is Some {
        let c = kv.current->0 as int;
        assert(kv.live(c));
    }
}

/// At rest no two tasks run: the task on the processor is the only one
/// whose status is running.
pub proof fn law_one_running(kv: KernelView, p: int, q: int)
    requires
        kv.wf(),
        kv.settled(),
        kv.live(p),
        kv.live(q),
        kv.task(p).status == TaskStatus::Running,
        kv.task(q).status == TaskStatus::Running,
    ensures
        p == q,
        kv.current == Some(p as usize),
{
}

/// No page belongs to two areas of an address space.
pub proof fn law_one_owner(ms: crate::mm::space::MemorySetView, i: int, j: int, vpn: int)
    requires
        ms.wf(),
        0 <= i < ms.areas.len(),
        0 <= j < ms.areas.len(),
        ms.areas[i].contains(vpn),
        ms.areas[j].contains(vpn),
    ensures
        i == j,
{
    lemma_area_of(ms, i, vpn);
    lemma_area_of(ms, j, vpn);
}

/// The memory of a task changes only by what the task itself asks for:
/// what the current task stores leaves every other task as it was.
pub proof fn law_store_leaves_others(kv: KernelView, after: KernelView, va: int, data: Seq<u8>, p: int)
    requires
        kv.wf(),
        kv.current is Some,
        kv.stored(after, va, data),
        p != kv.current->0,
    ensures
        after.live(p) == kv.live(p),
        kv.live(p) ==> after.task(p) == kv.task(p),
        after.ready == kv.ready,
        after.current == kv.current,
{
    assert(kv.live(kv.current->0 as int));
}

/// Whether no queued task is ahead of another by more than half the big
/// stride.
pub open spec fn strides_close(kv: KernelView) -> bool {
    forall|i: int, j: int|
        0 <= i < kv.ready.len() && 0 <= j < kv.ready.len() ==> kv.task(
            #[trigger] kv.ready[i] as int,
        ).stride <= kv.task(#[trigger] kv.ready[j] as int).stride + BIG_STRIDE / 2
}

/// While the tasks take turns, their strides stay close: where no queued
/// task is ahead of another by more than half the big stride, the same
/// holds after the next task was dispatched and gave the processor up
/// again. So a task that waits is overtaken by each other task only so
/// often, and then is the next itself.
pub proof fn law_strides_stay_close(
    kv: KernelView,
    m: int,
    idle: crate::task::context::TaskContextView,
    now: usize,
)
    requires
        kv.wf(),
        kv.current is None,
        kv.is_next(m),
        strides_close(kv),
        kv.task(kv.ready[m] as int).stride + pass_of(kv.task(kv.ready[m] as int).priority) <= u64::MAX,
    ensures
        strides_close(kv.dequeued(m).dispatched(kv.ready[m], idle, now).suspended()),
        kv.dequeued(m).dispatched(kv.ready[m], idle, now).suspended().task(kv.ready[m] as int).stride
            == kv.task(kv.ready[m] as int).stride + pass_of(kv.task(kv.ready[m] as int).priority),
{
    let p = kv.ready[m];
    assert(kv.live(p as int));
    assert(kv.task(p as int).wf());
    lemma_quotient_bounds(BIG_STRIDE as int, kv.task(p as int).priority as int);
    let n = kv.dequeued(m).dispatched(p, idle, now).suspended();
    let k = kv.ready.len() - 1;
    assert(n.ready.len() == k + 1);
    assert(n.ready[k] == p);
    assert forall|i: int| 0 <= i < k implies n.ready[i] == kv.ready[if i < m { i } else { i + 1 }]
        && n.ready[i] != p by {
        let i0 = if i < m { i } else { i + 1 };
        assert(kv.ready[i0] != kv.ready[m]);
    }
    assert forall|i: int, j: int| 0 <= i < n.ready.len() && 0 <= j < n.ready.len() implies n.task(
        #[trigger] n.ready[i] as int,
    ).stride <= n.task(#[trigger] n.ready[j] as int).stride + BIG_STRIDE / 2 by {
        let i0 = if i == k { m } else if i < m { i } else { i + 1 };
        let j0 = if j == k { m } else if j < m { j } else { j + 1 };
        assert(n.ready[i] == kv.ready[i0]);
        assert(n.ready[j] == kv.ready[j0]);
        assert(kv.live(kv.ready[i0] as int));
        assert(kv.live(kv.ready[j0] as int));
        assert(kv.task(kv.ready[i0] as int).stride <= kv.task(kv.ready[j0] as int).stride + BIG_STRIDE
            / 2);
        assert(kv.task(kv.ready[m] as int).stride <= kv.task(kv.ready[i0] as int).stride);
        assert(kv.task(kv.ready[m] as int).stride <= kv.task(kv.ready[j0] as int).stride);
    }
}

} // verus!
