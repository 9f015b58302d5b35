//! The entry of all system calls: counts the call and hands it to the
//! function that serves it.

use vstd::prelude::*;
use crate::config::{
    MAX_SYSCALL_NUM, MIN_PRIORITY, SYSCALL_EXEC, SYSCALL_EXIT, SYSCALL_FORK, SYSCALL_GETPID,
    SYSCALL_GET_TIME, SYSCALL_MMAP, SYSCALL_MUNMAP, SYSCALL_SBRK, SYSCALL_SET_PRIORITY,
    SYSCALL_SPAWN, SYSCALL_TASK_INFO, SYSCALL_WAITPID, SYSCALL_YIELD,
};
use crate::syscall::process::{
    collected_state, execed_state, exit_code_bytes, forked_state, mmap_state, mmap_valid,
    munmap_state, munmap_valid, names_program, path_at, spawned_state, sys_exec, sys_exit,
    sys_fork, sys_get_time, sys_getpid, sys_mmap, sys_munmap, sys_sbrk, sys_set_priority,
    sys_spawn, sys_task_info, sys_waitpid, sys_yield, task_info_of, waited_child,
    waitpid_collects, waitpid_result, TimeVal, TASK_INFO_SIZE, TIME_VAL_SIZE,
};
use crate::task::context::{REG_ARG0, REG_SYSCALL_ID};
use crate::task::kernel::Kernel;
use crate::task::processor::update_current_syscall_times;
use crate::task::state::{lemma_with_task, KernelView};
use crate::task::tcb::{TaskStatus, TaskView};

verus! {

/// The state after the current task's call of the system call `id` was
/// counted. A call whose identifier has no counter is not counted.
pub open spec fn entered(kv: KernelView, id: usize) -> KernelView {
    if id < MAX_SYSCALL_NUM {
        kv.with_cur(kv.cur().counted(id as int))
    } else {
        kv
    }
}

/// Whether the system call `id` with the arguments `a0`, `a1`, `a2`, made
/// at time `now` in the state `kv` after the call was counted, leads to the
/// state `after` and the answer `r`.
pub open spec fn served(
    kv: KernelView,
    id: usize,
    a0: usize,
    a1: usize,
    a2: usize,
    now: usize,
    after: KernelView,
    r: isize,
) -> bool {
    if id == SYSCALL_EXIT {
        r == 0 && after == kv.exited(a0 as i32)
    } else if id == SYSCALL_YIELD {
        r == 0 && after == kv.suspended()
    } else if id == SYSCALL_GETPID {
        r == kv.cur().pid && after == kv
    } else if id == SYSCALL_FORK {
        &&& r == if kv.tasks.len() < isize::MAX {
            kv.tasks.len() as isize
        } else {
            -1isize
        }
        &&& r != -1 ==> after == forked_state(kv, r as usize)
        &&& r == -1 ==> after == kv
    } else if id == SYSCALL_EXEC {
        &&& r == if names_program(kv, a0) {
            0isize
        } else {
            -1isize
        }
        &&& r == 0 ==> after == execed_state(kv, path_at(kv, a0))
        &&& r != 0 ==> after == kv
    } else if id == SYSCALL_WAITPID {
        &&& r == waitpid_result(kv, a0 as isize, a1)
        &&& waitpid_collects(kv, a0 as isize, a1) ==> collected_state(kv, a0 as isize).stored(
            after,
            a1 as int,
            exit_code_bytes(kv.task(waited_child(kv, a0 as isize) as int).exit_code),
        )
        &&& !waitpid_collects(kv, a0 as isize, a1) ==> after == kv
    } else if id == SYSCALL_GET_TIME {
        &&& r == if kv.cur().memory.range_user_writable(a0 as int, TIME_VAL_SIZE as int) {
            0isize
        } else {
            -1isize
        }
        &&& r == 0 ==> kv.stored(after, a0 as int, TimeVal::of_micros(now).bytes())
        &&& r != 0 ==> after == kv
    } else if id == SYSCALL_TASK_INFO {
        &&& r == if kv.cur().memory.range_user_writable(a0 as int, TASK_INFO_SIZE as int) {
            0isize
        } else {
            -1isize
        }
        &&& r == 0 ==> kv.stored(after, a0 as int, task_info_of(kv, now).bytes())
        &&& r != 0 ==> after == kv
    } else if id == SYSCALL_MMAP {
        &&& r == if mmap_valid(kv, a0, a1, a2) {
            0isize
        } else {
            -1isize
        }
        &&& r == 0 ==> after == mmap_state(kv, a0, a1, a2)
        &&& r != 0 ==> after == kv
    } else if id == SYSCALL_MUNMAP {
        &&& r == if munmap_valid(kv, a0, a1) {
            0isize
        } else {
            -1isize
        }
        &&& r == 0 ==> after == munmap_state(kv, a0, a1)
        &&& r != 0 ==> after == kv
    } else if id == SYSCALL_SBRK {
        &&& r == if kv.cur().memory.brk_fits(kv.cur().memory.brk + (a0 as i32)) {
            kv.cur().memory.brk as isize
        } else {
            -1isize
        }
        &&& kv.cur().memory.brk_fits(kv.cur().memory.brk + (a0 as i32)) ==> after == kv.with_memory(
            kv.cur().memory.with_brk(kv.cur().memory.brk + (a0 as i32)),
        )
        &&& !kv.cur().memory.brk_fits(kv.cur().memory.brk + (a0 as i32)) ==> after == kv
    } else if id == SYSCALL_SPAWN {
        &&& r == if names_program(kv, a0) && kv.tasks.len() < isize::MAX {
            kv.tasks.len() as isize
        } else {
            -1isize
        }
        &&& r != -1 ==> after == spawned_state(kv, r as usize, path_at(kv, a0))
        &&& r == -1 ==> after == kv
    } else if id == SYSCALL_SET_PRIORITY {
        &&& r == if (a0 as isize) >= MIN_PRIORITY {
            a0 as isize
        } else {
            -1isize
        }
        &&& (a0 as isize) >= MIN_PRIORITY ==> after == kv.with_cur(
            TaskView { priority: a0 as isize, ..kv.cur() },
        )
        &&& (a0 as isize) < MIN_PRIORITY ==> after == kv
    } else {
        r == -1 && after == kv
    }
}

/// Serves the system call `syscall_id` of the current task with the
/// arguments `args`, at the time `now_us`. The call is counted first, then
/// served; a call with an unknown identifier is answered with -1. The
/// arguments are the registers' bits: a signed argument is read from the
/// low bits of its register.
pub fn syscall(kernel: &mut Kernel, syscall_id: usize, args: [usize; 3], now_us: usize) -> (r: isize)
    requires
        old(kernel)@.wf(),
        old(kernel)@.current is Some,
    ensures
        final(kernel)@.wf(),
        old(kernel)@.settled() ==> final(kernel)@.settled(),
        served(
            entered(old(kernel)@, syscall_id),
            syscall_id,
            args@[0],
            args@[1],
            args@[2],
            now_us,
            final(kernel)@,
            r,
        ),
{
    if syscall_id < MAX_SYSCALL_NUM {
        update_current_syscall_times(kernel, syscall_id);
    }
    assert(kernel@ == entered(old(kernel)@, syscall_id));
    assert(kernel@.current is Some);
    if syscall_id == SYSCALL_EXIT {
        sys_exit(kernel, #[verifier::truncate] (args[0] as i32));
        0
    } else if syscall_id == SYSCALL_YIELD {
        sys_yield(kernel)
    } else if syscall_id == SYSCALL_GETPID {
        sys_getpid(kernel)
    } else if syscall_id == SYSCALL_FORK {
        sys_fork(kernel)
    } else if syscall_id == SYSCALL_EXEC {
        sys_exec(kernel, args[0])
    } else if syscall_id == SYSCALL_WAITPID {
        sys_waitpid(kernel, #[verifier::truncate] (args[0] as isize), args[1])
    } else if syscall_id == SYSCALL_GET_TIME {
        sys_get_time(kernel, args[0], args[1], now_us)
    } else if syscall_id == SYSCALL_TASK_INFO {
        sys_task_info(kernel, args[0], now_us)
    } else if syscall_id == SYSCALL_MMAP {
        sys_mmap(kernel, args[0], args[1], args[2])
    } else if syscall_id == SYSCALL_MUNMAP {
        sys_munmap(kernel, args[0], args[1])
    } else if syscall_id == SYSCALL_SBRK {
        sys_sbrk(kernel, #[verifier::truncate] (args[0] as i32))
    } else if syscall_id == SYSCALL_SPAWN {
        sys_spawn(kernel, args[0])
    } else if syscall_id == SYSCALL_SET_PRIORITY {
        sys_set_priority(kernel, #[verifier::truncate] (args[0] as isize))
    } else {
        -1
    }
}

/// The state after the answer `r` was left in the return-value register of
/// the task `pid`. A task that exited gets no answer.
pub open spec fn answered(kv: KernelView, pid: int, r: isize) -> KernelView {
    if kv.live(pid) && kv.task(pid).status != TaskStatus::Zombie {
        kv.with_task(
            pid,
            TaskView { trap_cx: kv.task(pid).trap_cx.with_return(r as usize), ..kv.task(pid) },
        )
    } else {
        kv
    }
}

/// Serves the system call that the current task trapped with: the
/// identifier and the three arguments are taken from the task's saved
/// registers, the call is counted and served, and the answer is left in
/// the task's saved return-value register, unless the task exited.
pub fn trap_syscall(kernel: &mut Kernel, now_us: usize) -> (r: isize)
    requires
        old(kernel)@.wf(),
        old(kernel)@.current is Some,
    ensures
        final(kernel)@.wf(),
        old(kernel)@.settled() ==> final(kernel)@.settled(),
        exists|mid: KernelView| #[trigger]
            served(
                entered(old(kernel)@, old(kernel)@.cur().trap_cx.regs[REG_SYSCALL_ID as int]),
                old(kernel)@.cur().trap_cx.regs[REG_SYSCALL_ID as int],
                old(kernel)@.cur().trap_cx.regs[REG_ARG0 as int],
                old(kernel)@.cur().trap_cx.regs[REG_ARG0 + 1],
                old(kernel)@.cur().trap_cx.regs[REG_ARG0 + 2],
                now_us,
                mid,
                r,
            ) && final(kernel)@ == answered(mid, old(kernel)@.current->0 as int, r),
{
    let pid = match kernel.current() {
        Some(c) => c,
        None => 0,
    };
    assert(kernel@.live(pid as int));
    let (id, args) = match kernel.task(pid) {
        Some(t) => (
            t.trap_cx.x[REG_SYSCALL_ID],
            [t.trap_cx.x[REG_ARG0], t.trap_cx.x[REG_ARG0 + 1], t.trap_cx.x[REG_ARG0 + 2]],
        ),
        None => (0, [0, 0, 0]),
    };
    let r = syscall(kernel, id, args, now_us);
    let ghost mid = kernel@;
    let alive = match kernel.task(pid) {
        Some(t) => !t.is_zombie(),
        None => false,
    };
    if alive {
        let cx = kernel.trap_cx_of(pid);
        cx.set_return(#[verifier::truncate] (r as usize));
        proof {
            let t = TaskView {
                trap_cx: mid.task(pid as int).trap_cx.with_return(r as usize),
                ..mid.task(pid as int)
            };
            assert(mid.task(pid as int).wf());
            lemma_with_task(mid, pid as int, t);
        }
    }
    assert(kernel@ == answered(mid, pid as int, r));
    r
}

} // verus!
