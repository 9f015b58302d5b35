//! System calls for process management, timing, memory and priority. Each
//! call acts for the task on the processor.

use vstd::prelude::*;
use crate::config::{MAX_SYSCALL_NUM, MICRO_PER_SEC, MIN_PRIORITY, PAGE_SIZE};
use crate::mm::address::{pages_for, VirtAddr};
use crate::mm::area::MapPermission;
use crate::syscall::encode::{
    le_bytes, le_words, lemma_le_bytes_len, lemma_le_words_len, put_le, put_words,
    to_twos_complement, twos_complement,
};
use crate::task::kernel::Kernel;
use crate::task::processor::{
    current_task, get_current_syscall_times, get_current_task_time, task_drop_framed_area,
    task_insert_framed_area,
};
use crate::task::state::{
    lemma_first_zombie_is, lemma_with_memory, lemma_with_task, wait_accepts, KernelView,
};
use crate::task::tcb::{TaskStatus, TaskView};

verus! {

/// Bytes that a `TimeVal` takes in user memory.
pub const TIME_VAL_SIZE: usize = 16;

/// Bytes that a `TaskInfo` takes in user memory.
pub const TASK_INFO_SIZE: usize = 2016;

/// A time as seconds and microseconds.
#[derive(Clone, Copy, Debug, PartialEq, Eq, Structural)]
pub struct TimeVal {
    pub sec: usize,
    pub usec: usize,
}

impl TimeVal {
    /// The time `us` microseconds after the clock's origin.
    pub open spec fn of_micros(us: usize) -> TimeVal {
        TimeVal { sec: us / MICRO_PER_SEC, usec: us % MICRO_PER_SEC }
    }

    /// The value as user memory holds it: the seconds, then the
    /// microseconds, each as eight bytes, lowest first.
    pub open spec fn bytes(self) -> Seq<u8> {
        le_bytes(self.sec as nat, 8) + le_bytes(self.usec as nat, 8)
    }

    /// Splits a count of microseconds into seconds and microseconds.
    pub fn from_micros(us: usize) -> (tv: TimeVal)
        ensures
            tv == Self::of_micros(us),
            tv.usec < MICRO_PER_SEC,
    {
        TimeVal { sec: us / MICRO_PER_SEC, usec: us % MICRO_PER_SEC }
    }

    /// The value as user memory holds it.
    pub fn encode(&self) -> (buf: Vec<u8>)
        ensures
            buf@ == self.bytes(),
            buf@.len() == TIME_VAL_SIZE,
    {
        let mut buf: Vec<u8> = Vec::new();
        put_le(&mut buf, self.sec as u64, 8);
        put_le(&mut buf, self.usec as u64, 8);
        proof {
            lemma_le_bytes_len(self.sec as nat, 8);
            lemma_le_bytes_len(self.usec as nat, 8);
            assert(buf@ =~= self.bytes());
        }
        buf
    }
}

/// The number that stands for a status in user memory.
pub open spec fn status_tag(status: TaskStatus) -> nat {
    match status {
        TaskStatus::Ready => 0,
        TaskStatus::Running => 1,
        TaskStatus::Zombie => 2,
    }
}

/// What a task learns of itself.
pub struct TaskInfo {
    /// Status of the task.
    status: TaskStatus,
    /// How often the task made each system call.
    syscall_times: [u32; MAX_SYSCALL_NUM],
    /// Microseconds since the task's first dispatch.
    time: usize,
}

/// A `TaskInfo` as contracts see it.
pub struct TaskInfoView {
    pub status: TaskStatus,
    pub syscall_times: Seq<u32>,
    pub time: usize,
}

impl TaskInfoView {
    /// The record as user memory holds it: the status tag as four bytes,
    /// the counters as four bytes each, four zero bytes, and the time as
    /// eight bytes; every number lowest byte first.
    pub open spec fn bytes(self) -> Seq<u8> {
        le_bytes(status_tag(self.status), 4) + le_words(self.syscall_times) + le_bytes(0, 4)
            + le_bytes(self.time as nat, 8)
    }
}

impl View for TaskInfo {
    type V = TaskInfoView;

    closed spec fn view(&self) -> TaskInfoView {
        TaskInfoView { status: self.status, syscall_times: self.syscall_times@, time: self.time }
    }
}

impl TaskInfo {
    /// The record of a task with this status, these counters and this time.
    pub fn new(status: TaskStatus, syscall_times: [u32; MAX_SYSCALL_NUM], time: usize) -> (ti: TaskInfo)
        ensures
            ti@ == (TaskInfoView { status, syscall_times: syscall_times@, time }),
    {
        TaskInfo { status, syscall_times, time }
    }

    /// Status of the task.
    pub fn status(&self) -> (s: TaskStatus)
        ensures
            s == self@.status,
    {
        self.status
    }

    /// How often the task made each system call.
    pub fn syscall_times(&self) -> (t: [u32; MAX_SYSCALL_NUM])
        ensures
            t@ == self@.syscall_times,
    {
        self.syscall_times
    }

    /// Microseconds since the task's first dispatch.
    pub fn time(&self) -> (t: usize)
        ensures
            t == self@.time,
    {
        self.time
    }

    /// The record as user memory holds it.
    pub fn encode(&self) -> (buf: Vec<u8>)
        ensures
            buf@ == self@.bytes(),
            buf@.len() == TASK_INFO_SIZE,
    {
        let tag: u64 = match self.status {
            TaskStatus::Ready => 0,
            TaskStatus::Running => 1,
            TaskStatus::Zombie => 2,
        };
        let mut buf: Vec<u8> = Vec::new();
        put_le(&mut buf, tag, 4);
        put_words(&mut buf, self.syscall_times.as_slice());
        put_le(&mut buf, 0, 4);
        put_le(&mut buf, self.time as u64, 8);
        proof {
            lemma_le_bytes_len(status_tag(self.status), 4);
            lemma_le_words_len(self.syscall_times@);
            lemma_le_bytes_len(0, 4);
            lemma_le_bytes_len(self.time as nat, 8);
            assert(buf@ =~= self@.bytes());
        }
        buf
    }
}

/// Stores `data` at `va` in the address space of the current task, and
/// says whether user code may write there.
fn store_user(kernel: &mut Kernel, va: usize, data: &Vec<u8>) -> (ok: bool)
    requires
        old(kernel)@.wf(),
        old(kernel)@.current is Some,
    ensures
        final(kernel)@.wf(),
        old(kernel)@.settled() ==> final(kernel)@.settled(),
        ok == old(kernel)@.cur().memory.range_user_writable(va as int, data@.len() as int),
        ok ==> old(kernel)@.stored(final(kernel)@, va as int, data@),
        !ok ==> final(kernel)@ == old(kernel)@,
{
    let ghost kv = old(kernel)@;
    assert(kv.live(kv.current->0 as int));
    let ms = kernel.current_memory_set();
    let r = ms.write_bytes(va, data);
    proof {
        lemma_with_memory(kv, kernel@.cur().memory);
        if r is Err {
            assert(kernel@.tasks =~= kv.tasks);
        }
    }
    r.is_ok()
}

/// The current task exits with `exit_code`: it becomes a zombie that keeps
/// the code, its frames are given up, its children have no parent any
/// more, and the processor is free for the next task.
pub fn sys_exit(kernel: &mut Kernel, exit_code: i32)
    requires
        old(kernel)@.wf(),
        old(kernel)@.current is Some,
    ensures
        final(kernel)@ == old(kernel)@.exited(exit_code),
        final(kernel)@.wf(),
        old(kernel)@.settled() ==> final(kernel)@.settled(),
{
    kernel.exit_current_and_run_next(exit_code);
}

/// The current task gives the processor up and waits, ready, at the back
/// of the queue. Answers 0.
pub fn sys_yield(kernel: &mut Kernel) -> (r: isize)
    requires
        old(kernel)@.wf(),
        old(kernel)@.current is Some,
    ensures
        r == 0,
        final(kernel)@ == old(kernel)@.suspended(),
        final(kernel)@.wf(),
        old(kernel)@.settled() ==> final(kernel)@.settled(),
{
    kernel.suspend_current_and_run_next();
    0
}

/// Identifier of the current task.
pub fn sys_getpid(kernel: &Kernel) -> (r: isize)
    requires
        kernel@.wf(),
        kernel@.current is Some,
    ensures
        r == kernel@.current->0,
        r == kernel@.cur().pid,
{
    match kernel.current() {
        Some(c) => {
            assert(kernel@.live(c as int));
            c as isize
        },
        None => 0,
    }
}

/// The state after the current task forked the child `pid`: the child is a
/// copy of the task with 0 in its return-value register, listed as its
/// child, ready and queued.
pub open spec fn forked_state(kv: KernelView, pid: usize) -> KernelView {
    let child = kv.cur().forked(pid);
    kv.adopted(
        kv.current->0 as int,
        TaskView { trap_cx: child.trap_cx.with_return(0), ..child },
    ).enqueued(pid)
}

/// Creates a copy of the current task as its child. Answers the child's
/// identifier; the child will find 0 as the answer. Where no identifier is
/// left, answers -1 and changes nothing.
pub fn sys_fork(kernel: &mut Kernel) -> (r: isize)
    requires
        old(kernel)@.wf(),
        old(kernel)@.current is Some,
    ensures
        final(kernel)@.wf(),
        old(kernel)@.settled() ==> final(kernel)@.settled(),
        r == if old(kernel)@.tasks.len() < isize::MAX {
            old(kernel)@.tasks.len() as isize
        } else {
            -1isize
        },
        r != -1 ==> final(kernel)@ == forked_state(old(kernel)@, r as usize),
        r == -1 ==> final(kernel)@ == old(kernel)@,
{
    let ghost kv = old(kernel)@;
    match kernel.fork_current() {
        Some(new_pid) => {
            let ghost mid = kernel@;
            assert(mid.live(new_pid as int));
            let trap_cx = kernel.trap_cx_of(new_pid);
            trap_cx.set_return(0);
            proof {
                let child = mid.task(new_pid as int);
                let answered = TaskView { trap_cx: child.trap_cx.with_return(0), ..child };
                lemma_with_task(mid, new_pid as int, answered);
                assert(kernel@.tasks =~= kv.adopted(kv.current->0 as int, answered).tasks);
            }
            kernel.add_task(new_pid);
            new_pid as isize
        },
        None => -1,
    }
}

/// The state after the current task replaced its program by the one
/// known as `name`.
pub open spec fn execed_state(kv: KernelView, name: Seq<u8>) -> KernelView {
    kv.with_cur(kv.cur().execed(kv.loader.image_of(name)))
}

/// Whether the string at `path` in the current task's memory names a
/// known program.
pub open spec fn names_program(kv: KernelView, path: usize) -> bool {
    kv.cur().memory.str_at(path as int) matches Some(name) && kv.loader.knows(name)
}

/// The string at `path` in the current task's memory.
pub open spec fn path_at(kv: KernelView, path: usize) -> Seq<u8> {
    kv.cur().memory.str_at(path as int)->0
}

/// Replaces the program of the current task by the one that the string at
/// `path` names: a new address space and fresh registers, while the
/// identifier, the family and the counters stay. Answers 0, or -1 where
/// the string cannot be read or names no known program.
pub fn sys_exec(kernel: &mut Kernel, path: usize) -> (r: isize)
    requires
        old(kernel)@.wf(),
        old(kernel)@.current is Some,
    ensures
        final(kernel)@.wf(),
        old(kernel)@.settled() ==> final(kernel)@.settled(),
        r == if names_program(old(kernel)@, path) {
            0isize
        } else {
            -1isize
        },
        r == 0 ==> final(kernel)@ == execed_state(old(kernel)@, path_at(old(kernel)@, path)),
        r != 0 ==> final(kernel)@ == old(kernel)@,
{
    let name = match read_path(kernel, path) {
        Some(name) => name,
        None => {
            return -1;
        },
    };
    if kernel.exec_current(&name) {
        0
    } else {
        -1
    }
}

/// Reads the string at `path` in the current task's memory.
fn read_path(kernel: &Kernel, path: usize) -> (r: Option<Vec<u8>>)
    requires
        kernel@.wf(),
        kernel@.current is Some,
    ensures
        r matches Some(s) ==> kernel@.cur().memory.str_at(path as int) == Some(s@),
        r is None ==> kernel@.cur().memory.str_at(path as int) is None,
{
    assert(kernel@.live(kernel@.current->0 as int));
    match current_task(kernel) {
        Some(t) => t.memory_set.read_str(path),
        None => None,
    }
}

/// What a wait for `pid` by the current task answers, the exit code to be
/// stored at `ptr`.
pub open spec fn waitpid_result(kv: KernelView, pid: isize, ptr: usize) -> isize {
    let c = kv.current->0 as int;
    if !kv.has_child(c, pid) {
        -1isize
    } else if !kv.has_zombie(c, pid) {
        -2isize
    } else if !kv.cur().memory.range_user_writable(ptr as int, 4) {
        -1isize
    } else {
        waited_child(kv, pid) as isize
    }
}

/// Whether a wait for `pid` by the current task collects a child.
pub open spec fn waitpid_collects(kv: KernelView, pid: isize, ptr: usize) -> bool {
    &&& kv.has_zombie(kv.current->0 as int, pid)
    &&& kv.cur().memory.range_user_writable(ptr as int, 4)
}

/// The child that a wait for `pid` by the current task collects.
pub open spec fn waited_child(kv: KernelView, pid: isize) -> usize {
    kv.cur().children[kv.first_zombie(kv.current->0 as int, pid)]
}

/// The state after the current task collected the child that a wait for
/// `pid` collects, before the exit code is stored.
pub open spec fn collected_state(kv: KernelView, pid: isize) -> KernelView {
    kv.reaped(kv.current->0 as int, kv.first_zombie(kv.current->0 as int, pid))
}

/// An exit code as user memory holds it: four bytes, lowest first, in
/// two's complement.
pub open spec fn exit_code_bytes(code: i32) -> Seq<u8> {
    le_bytes(twos_complement(code), 4)
}

/// Whether the current task has a child that a wait for `pid` accepts.
fn any_child(kernel: &Kernel, pid: isize) -> (b: bool)
    requires
        kernel@.wf(),
        kernel@.current is Some,
    ensures
        b == kernel@.has_child(kernel@.current->0 as int, pid),
{
    let task = match current_task(kernel) {
        Some(t) => t,
        None => {
            return false;
        },
    };
    let mut i: usize = 0;
    while i < task.children.len()
        invariant
            i <= task.children.len(),
            task@ == kernel@.cur(),
            forall|k: int| 0 <= k < i ==> !wait_accepts(pid, #[trigger] task@.children[k]),
        decreases task.children.len() - i,
    {
        let child = task.children[i];
        if pid == -1 || (pid >= 0 && pid as usize == child) {
            assert(wait_accepts(pid, task@.children[i as int]));
            return true;
        }
        i = i + 1;
    }
    false
}

/// Place, in the current task's child list, of the first zombie that a
/// wait for `pid` accepts.
fn find_zombie(kernel: &Kernel, pid: isize) -> (r: Option<usize>)
    requires
        kernel@.wf(),
        kernel@.current is Some,
    ensures
        r is Some <==> kernel@.has_zombie(kernel@.current->0 as int, pid),
        r matches Some(i) ==> i == kernel@.first_zombie(kernel@.current->0 as int, pid)
            && kernel@.collectable(kernel@.current->0 as int, pid, i as int),
{
    let ghost c = kernel@.current->0 as int;
    assert(kernel@.live(c));
    let task = match current_task(kernel) {
        Some(t) => t,
        None => {
            return None;
        },
    };
    let mut i: usize = 0;
    while i < task.children.len()
        invariant
            i <= task.children.len(),
            kernel@.wf(),
            kernel@.current is Some,
            c == kernel@.current->0,
            kernel@.live(c),
            task@ == kernel@.cur(),
            forall|k: int| 0 <= k < i ==> !kernel@.collectable(c, pid, k),
        decreases task.children.len() - i,
    {
        let child = task.children[i];
        assert(kernel@.live(kernel@.task(c).children[i as int] as int));
        if pid == -1 || (pid >= 0 && pid as usize == child) {
            let zombie = match kernel.task(child) {
                Some(t) => t.is_zombie(),
                None => false,
            };
            if zombie {
                proof {
                    assert(kernel@.collectable(c, pid, i as int));
                    lemma_first_zombie_is(kernel@, c, pid, i as int);
                }
                return Some(i);
            }
        }
        i = i + 1;
    }
    None
}

/// Collects a child that exited. `pid` names the child, or is -1 for any
/// child. Answers -1 where the task has no such child, and -2 where it has
/// one but none that exited. Else the first such child that exited leaves
/// the task's list and the task table, its exit code is stored at
/// `exit_code_ptr` as four bytes, lowest first, and the answer is its
/// identifier. Where user code may not write there, nothing is collected
/// and the answer is -1.
pub fn sys_waitpid(kernel: &mut Kernel, pid: isize, exit_code_ptr: usize) -> (r: isize)
    requires
        old(kernel)@.wf(),
        old(kernel)@.current is Some,
    ensures
        final(kernel)@.wf(),
        old(kernel)@.settled() ==> final(kernel)@.settled(),
        r == waitpid_result(old(kernel)@, pid, exit_code_ptr),
        waitpid_collects(old(kernel)@, pid, exit_code_ptr) ==> collected_state(old(kernel)@, pid).stored(
            final(kernel)@,
            exit_code_ptr as int,
            exit_code_bytes(old(kernel)@.task(waited_child(old(kernel)@, pid) as int).exit_code),
        ),
        !waitpid_collects(old(kernel)@, pid, exit_code_ptr) ==> final(kernel)@ == old(kernel)@,
{
    let ghost kv = old(kernel)@;
    let ghost c = kv.current->0 as int;
    assert(kv.live(c));
    assert(kv.task(c).wf());
    if !any_child(kernel, pid) {
        proof {
            if kv.has_zombie(c, pid) {
                let i = choose|i: int| kv.collectable(c, pid, i);
                assert(wait_accepts(pid, kv.task(c).children[i]));
            }
            assert(!waitpid_collects(kv, pid, exit_code_ptr));
        }
        return -1;
    }
    let idx = match find_zombie(kernel, pid) {
        Some(idx) => idx,
        None => {
            assert(!waitpid_collects(kv, pid, exit_code_ptr));
            return -2;
        },
    };
    let writable = match current_task(kernel) {
        Some(t) => t.memory_set.is_range_user_writable(exit_code_ptr, 4),
        None => false,
    };
    if !writable {
        assert(!waitpid_collects(kv, pid, exit_code_ptr));
        return -1;
    }
    collect(kernel, pid, idx, exit_code_ptr)
}

/// The current task collects its `idx`-th child, the first zombie that a
/// wait for `pid` accepts, and stores the child's exit code at `ptr`.
/// Answers the child's identifier.
fn collect(kernel: &mut Kernel, pid: isize, idx: usize, ptr: usize) -> (r: isize)
    requires
        old(kernel)@.wf(),
        old(kernel)@.current is Some,
        old(kernel)@.collectable(old(kernel)@.current->0 as int, pid, idx as int),
        idx == old(kernel)@.first_zombie(old(kernel)@.current->0 as int, pid),
        old(kernel)@.cur().memory.range_user_writable(ptr as int, 4),
    ensures
        final(kernel)@.wf(),
        old(kernel)@.settled() ==> final(kernel)@.settled(),
        r == waited_child(old(kernel)@, pid) as isize,
        collected_state(old(kernel)@, pid).stored(
            final(kernel)@,
            ptr as int,
            exit_code_bytes(old(kernel)@.task(waited_child(old(kernel)@, pid) as int).exit_code),
        ),
{
    let (found_pid, exit_code) = kernel.reap_child(idx);
    let mut buf: Vec<u8> = Vec::new();
    put_le(&mut buf, to_twos_complement(exit_code), 4);
    proof {
        lemma_le_bytes_len(twos_complement(exit_code), 4);
        assert(buf@ =~= le_bytes(twos_complement(exit_code), 4));
    }
    let stored = store_user(kernel, ptr, &buf);
    assert(stored);
    found_pid as isize
}

/// Stores the time `now_us`, split into seconds and microseconds, at `ts`
/// in the current task's memory: sixteen bytes, which may lie on two
/// pages. Answers 0, or -1 where user code may not write there.
pub fn sys_get_time(kernel: &mut Kernel, ts: usize, _tz: usize, now_us: usize) -> (r: isize)
    requires
        old(kernel)@.wf(),
        old(kernel)@.current is Some,
    ensures
        final(kernel)@.wf(),
        old(kernel)@.settled() ==> final(kernel)@.settled(),
        r == if old(kernel)@.cur().memory.range_user_writable(ts as int, TIME_VAL_SIZE as int) {
            0isize
        } else {
            -1isize
        },
        r == 0 ==> old(kernel)@.stored(final(kernel)@, ts as int, TimeVal::of_micros(now_us).bytes()),
        r != 0 ==> final(kernel)@ == old(kernel)@,
{
    let tv = TimeVal::from_micros(now_us);
    let buf = tv.encode();
    if store_user(kernel, ts, &buf) {
        0
    } else {
        -1
    }
}

/// What the current task learns of itself at time `now`.
pub open spec fn task_info_of(kv: KernelView, now: usize) -> TaskInfoView {
    TaskInfoView {
        status: TaskStatus::Running,
        syscall_times: kv.cur().syscall_times,
        time: kv.cur().elapsed(now),
    }
}

/// Stores, at `ti` in the current task's memory, the task's status, its
/// system call counters and the microseconds since its first dispatch.
/// Answers 0, or -1 where user code may not write there.
pub fn sys_task_info(kernel: &mut Kernel, ti: usize, now_us: usize) -> (r: isize)
    requires
        old(kernel)@.wf(),
        old(kernel)@.current is Some,
    ensures
        final(kernel)@.wf(),
        old(kernel)@.settled() ==> final(kernel)@.settled(),
        r == if old(kernel)@.cur().memory.range_user_writable(ti as int, TASK_INFO_SIZE as int) {
            0isize
        } else {
            -1isize
        },
        r == 0 ==> old(kernel)@.stored(final(kernel)@, ti as int, task_info_of(old(kernel)@, now_us).bytes()),
        r != 0 ==> final(kernel)@ == old(kernel)@,
{
    let info = TaskInfo::new(
        TaskStatus::Running,
        get_current_syscall_times(kernel),
        get_current_task_time(kernel, now_us),
    );
    let buf = info.encode();
    if store_user(kernel, ti, &buf) {
        0
    } else {
        -1
    }
}

/// Whether `port` asks for at least one of read, write and execute, and
/// for nothing else.
pub open spec fn port_valid(port: usize) -> bool {
    1 <= port <= 7
}

/// Whether the current task may map `len` bytes from `start` on with the
/// permissions of `port`: `start` is the first byte of a page, `port` is
/// valid, the range ends inside the address space, and none of its pages
/// is mapped.
pub open spec fn mmap_valid(kv: KernelView, start: usize, len: usize, port: usize) -> bool {
    &&& start % PAGE_SIZE == 0
    &&& port_valid(port)
    &&& start + len <= usize::MAX + 1
    &&& kv.cur().memory.range_free(
        start as int / PAGE_SIZE as int,
        start as int / PAGE_SIZE as int + pages_for(len as int),
    )
}

/// The state after the current task mapped `len` bytes from `start` on.
pub open spec fn mmap_state(kv: KernelView, start: usize, len: usize, port: usize) -> KernelView {
    kv.with_memory(
        kv.cur().memory.insert(
            start as int / PAGE_SIZE as int,
            start as int / PAGE_SIZE as int + pages_for(len as int),
            MapPermission::of_port(port as int),
        ),
    )
}

/// The last address of the range of `len` bytes from `start` on, moved up
/// by one where it is the first byte of a page, so that the range's pages
/// end at the first page that starts at or after it. `None` where the
/// range does not end inside the address space.
fn range_end(start: usize, len: usize) -> (r: Option<VirtAddr>)
    requires
        start % PAGE_SIZE == 0,
    ensures
        r is Some <==> start + len <= usize::MAX + 1,
        r matches Some(end_va) ==> end_va.spec_ceil() == start as int / PAGE_SIZE as int + pages_for(
            len as int,
        ),
{
    if len == 0 {
        return Some(VirtAddr(start));
    }
    if len - 1 > usize::MAX - start {
        return None;
    }
    let mut end_va = VirtAddr(start + (len - 1));
    if end_va.page_offset() == 0 {
        end_va = VirtAddr(end_va.0 + 1);
    }
    Some(end_va)
}

/// Maps `len` bytes from `start` on into the current task's address
/// space, zero filled, with the permissions that the three low bits of
/// `port` ask for (bit 0 read, bit 1 write, bit 2 execute) and access from
/// user mode. Answers 0, or -1 where the request is not valid; then
/// nothing changes.
pub fn sys_mmap(kernel: &mut Kernel, start: usize, len: usize, port: usize) -> (r: isize)
    requires
        old(kernel)@.wf(),
        old(kernel)@.current is Some,
    ensures
        final(kernel)@.wf(),
        old(kernel)@.settled() ==> final(kernel)@.settled(),
        r == if mmap_valid(old(kernel)@, start, len, port) {
            0isize
        } else {
            -1isize
        },
        r == 0 ==> final(kernel)@ == mmap_state(old(kernel)@, start, len, port),
        r != 0 ==> final(kernel)@ == old(kernel)@,
{
    let start_va = VirtAddr(start);
    assert((port & !0x7 != 0) == (port > 7)) by (bit_vector);
    if port & !0x7 != 0 {
        return -1;
    }
    assert(port <= 7 ==> ((port & 0x7 == 0) == (port == 0))) by (bit_vector);
    if port & 0x7 == 0 {
        return -1;
    }
    if start_va.page_offset() != 0 {
        return -1;
    }
    let end_va = match range_end(start, len) {
        Some(end_va) => end_va,
        None => {
            return -1;
        },
    };
    let permission = MapPermission::from_port(port);
    match task_insert_framed_area(kernel, start_va, end_va, permission) {
        Ok(_) => 0,
        Err(_) => -1,
    }
}

/// Whether the current task may unmap `len` bytes from `start` on: `start`
/// is the first byte of a page, the range ends inside the address space,
/// and an inserted area has exactly its pages.
pub open spec fn munmap_valid(kv: KernelView, start: usize, len: usize) -> bool {
    &&& start % PAGE_SIZE == 0
    &&& start + len <= usize::MAX + 1
    &&& kv.cur().memory.has_span(
        start as int / PAGE_SIZE as int,
        start as int / PAGE_SIZE as int + pages_for(len as int),
    )
}

/// The state after the current task unmapped `len` bytes from `start` on.
pub open spec fn munmap_state(kv: KernelView, start: usize, len: usize) -> KernelView {
    kv.with_memory(
        kv.cur().memory.remove(
            kv.cur().memory.first_span(
                start as int / PAGE_SIZE as int,
                start as int / PAGE_SIZE as int + pages_for(len as int),
            ),
        ),
    )
}

/// Unmaps `len` bytes from `start` on from the current task's address
/// space: the area that was inserted with exactly these pages goes, with
/// its frames. Answers 0, or -1 where there is no such area; then nothing
/// changes.
pub fn sys_munmap(kernel: &mut Kernel, start: usize, len: usize) -> (r: isize)
    requires
        old(kernel)@.wf(),
        old(kernel)@.current is Some,
    ensures
        final(kernel)@.wf(),
        old(kernel)@.settled() ==> final(kernel)@.settled(),
        r == if munmap_valid(old(kernel)@, start, len) {
            0isize
        } else {
            -1isize
        },
        r == 0 ==> final(kernel)@ == munmap_state(old(kernel)@, start, len),
        r != 0 ==> final(kernel)@ == old(kernel)@,
{
    let start_va = VirtAddr(start);
    if start_va.page_offset() != 0 {
        return -1;
    }
    let end_va = match range_end(start, len) {
        Some(end_va) => end_va,
        None => {
            return -1;
        },
    };
    task_drop_framed_area(kernel, start_va, end_va)
}

/// Moves the program break of the current task by `size` bytes. Answers
/// the break as it was before, or -1 where the break would fall below the
/// heap's bottom, beyond the last address or onto a page that another area
/// holds; then nothing changes.
pub fn sys_sbrk(kernel: &mut Kernel, size: i32) -> (r: isize)
    requires
        old(kernel)@.wf(),
        old(kernel)@.current is Some,
    ensures
        final(kernel)@.wf(),
        old(kernel)@.settled() ==> final(kernel)@.settled(),
        r == if old(kernel)@.cur().memory.brk_fits(old(kernel)@.cur().memory.brk + size) {
            old(kernel)@.cur().memory.brk as isize
        } else {
            -1isize
        },
        old(kernel)@.cur().memory.brk_fits(old(kernel)@.cur().memory.brk + size) ==> final(kernel)@
            == old(kernel)@.with_memory(
            old(kernel)@.cur().memory.with_brk(old(kernel)@.cur().memory.brk + size),
        ),
        !old(kernel)@.cur().memory.brk_fits(old(kernel)@.cur().memory.brk + size) ==> final(kernel)@
            == old(kernel)@,
{
    let ghost kv = old(kernel)@;
    assert(kv.live(kv.current->0 as int));
    let ms = kernel.current_memory_set();
    let old_brk = ms.program_brk();
    let r = ms.change_program_brk(size);
    proof {
        lemma_with_memory(kv, kernel@.cur().memory);
        if r is Err {
            assert(kernel@.tasks =~= kv.tasks);
        }
    }
    match r {
        Ok(_) => #[verifier::truncate] (old_brk as isize),
        Err(_) => -1,
    }
}

/// The state after the current task spawned the child `pid` to run the
/// program known as `name`: the child is listed, ready and queued.
pub open spec fn spawned_state(kv: KernelView, pid: usize, name: Seq<u8>) -> KernelView {
    kv.adopted(kv.current->0 as int, kv.cur().spawned(pid, kv.loader.image_of(name))).enqueued(pid)
}

/// Creates a child of the current task that runs the program which the
/// string at `path` names; no frame of the task is copied for it. Answers
/// the child's identifier, or -1 where the string cannot be read, names no
/// known program, or no identifier is left; then nothing changes.
pub fn sys_spawn(kernel: &mut Kernel, path: usize) -> (r: isize)
    requires
        old(kernel)@.wf(),
        old(kernel)@.current is Some,
    ensures
        final(kernel)@.wf(),
        old(kernel)@.settled() ==> final(kernel)@.settled(),
        r == if names_program(old(kernel)@, path) && old(kernel)@.tasks.len() < isize::MAX {
            old(kernel)@.tasks.len() as isize
        } else {
            -1isize
        },
        r != -1 ==> final(kernel)@ == spawned_state(old(kernel)@, r as usize, path_at(old(kernel)@, path)),
        r == -1 ==> final(kernel)@ == old(kernel)@,
{
    let name = match read_path(kernel, path) {
        Some(name) => name,
        None => {
            return -1;
        },
    };
    match kernel.spawn_current(&name) {
        Some(new_pid) => {
            assert(kernel@.live(new_pid as int));
            kernel.add_task(new_pid);
            new_pid as isize
        },
        None => -1,
    }
}

/// Sets the priority of the current task to `prio` and answers it, or
/// answers -1 and changes nothing where `prio` is below 2.
pub fn sys_set_priority(kernel: &mut Kernel, prio: isize) -> (r: isize)
    requires
        old(kernel)@.wf(),
        old(kernel)@.current is Some,
    ensures
        final(kernel)@.wf(),
        old(kernel)@.settled() ==> final(kernel)@.settled(),
        r == if prio >= MIN_PRIORITY {
            prio
        } else {
            -1isize
        },
        prio >= MIN_PRIORITY ==> final(kernel)@ == old(kernel)@.with_cur(
            TaskView { priority: prio, ..old(kernel)@.cur() },
        ),
        prio < MIN_PRIORITY ==> final(kernel)@ == old(kernel)@,
{
    if prio >= 2 {
        kernel.set_current_priority(prio);
        prio
    } else {
        -1
    }
}

} // verus!
