use task_kernel::loader::{Loader, ProgramImage};
use task_kernel::mm::address::VirtAddr;
use task_kernel::mm::area::MapPermission;
use task_kernel::mm::memory_set::MemorySet;
use task_kernel::syscall::process::{
    sys_exec, sys_exit, sys_fork, sys_get_time, sys_getpid, sys_mmap, sys_munmap, sys_sbrk,
    sys_set_priority, sys_spawn, sys_task_info, sys_waitpid, sys_yield, TaskInfo, TimeVal,
    TASK_INFO_SIZE, TIME_VAL_SIZE,
};
use task_kernel::task::context::{TaskContext, REG_RETURN, REG_SP};
use task_kernel::task::kernel::Kernel;
use task_kernel::task::processor::{
    current_task, current_trap_cx, current_user_token, get_current_syscall_times,
    get_current_task_time, run_tasks, schedule, take_current_task, task_drop_framed_area,
    task_insert_framed_area, update_current_syscall_times, Processor,
};
use task_kernel::task::tcb::{stride_pass, TaskStatus};

const DATA: usize = 0x1_0000;
const STACK_TOP: usize = 0x8_0000;

fn rw_user() -> MapPermission {
    MapPermission { r: true, w: true, x: false, u: true }
}

/// A program with two pages of data at `DATA`, a page of stack below
/// `STACK_TOP` and its heap above; `marker` is its first data byte.
fn image(marker: u8, entry: usize) -> ProgramImage {
    let mut space = MemorySet::new_bare(VirtAddr(STACK_TOP));
    assert_eq!(space.insert_framed_area(VirtAddr(DATA), VirtAddr(DATA + 0x2000), rw_user()), Ok(()));
    assert_eq!(
        space.insert_framed_area(VirtAddr(STACK_TOP - 0x1000), VirtAddr(STACK_TOP), rw_user()),
        Ok(())
    );
    assert_eq!(space.write_bytes(DATA, &vec![marker]), Ok(()));
    ProgramImage::new(space, entry, STACK_TOP)
}

fn boot() -> Kernel {
    let mut loader = Loader::new();
    loader.add(b"init".to_vec(), image(0xa1, 0x1_0000));
    loader.add(b"shell".to_vec(), image(0xb2, 0x1_0040));
    let mut kernel = Kernel::new(loader);
    assert_eq!(kernel.add_initproc(&b"init".to_vec()), Some(0));
    kernel
}

fn dispatch(kernel: &mut Kernel) -> usize {
    match run_tasks(kernel, TaskContext::zero_init(), 0) {
        Some((pid, _)) => pid,
        None => panic!("no task is ready"),
    }
}

/// A kernel whose first task runs.
fn running() -> Kernel {
    let mut kernel = boot();
    assert_eq!(dispatch(&mut kernel), 0);
    kernel
}

fn put_str(kernel: &mut Kernel, va: usize, s: &[u8]) {
    let mut bytes = s.to_vec();
    bytes.push(0);
    assert_eq!(kernel.current_memory_set().write_bytes(va, &bytes), Ok(()));
}

fn read(kernel: &Kernel, pid: usize, va: usize, len: usize) -> Vec<u8> {
    let task = kernel.task(pid).unwrap();
    let mut out = Vec::new();
    for i in 0..len {
        out.push(task.memory_set.read_byte(va + i).unwrap());
    }
    out
}

#[test]
fn boot_queues_the_first_task() {
    let kernel = boot();
    assert_eq!(kernel.task_count(), 1);
    assert_eq!(kernel.current(), None);
    assert_eq!(kernel.ready_queue(), &vec![0]);
    let task = kernel.task(0).unwrap();
    assert_eq!(task.pid, 0);
    assert_eq!(task.task_status, TaskStatus::Ready);
    assert_eq!(task.parent, None);
    assert_eq!(task.priority, 16);
    assert_eq!(task.stride, 0);
    assert_eq!(task.trap_cx.sepc, 0x1_0000);
    assert_eq!(task.trap_cx.x[REG_SP], STACK_TOP);
    assert_eq!(task.memory_set.read_byte(DATA), Some(0xa1));
    assert!(kernel.task(1).is_none());
}

#[test]
fn unknown_first_program_is_refused() {
    let mut kernel = Kernel::new(Loader::new());
    assert_eq!(kernel.add_initproc(&b"init".to_vec()), None);
    assert_eq!(kernel.task_count(), 0);
}

#[test]
fn loader_finds_the_first_program_of_a_name() {
    let mut loader = Loader::new();
    loader.add(b"a".to_vec(), image(1, 0x100));
    loader.add(b"b".to_vec(), image(2, 0x200));
    loader.add(b"a".to_vec(), image(3, 0x300));
    assert_eq!(loader.get_app_data_by_name(&b"a".to_vec()).unwrap().entry(), 0x100);
    assert_eq!(loader.get_app_data_by_name(&b"b".to_vec()).unwrap().entry(), 0x200);
    assert_eq!(loader.get_app_data_by_name(&b"b".to_vec()).unwrap().user_sp(), STACK_TOP);
    assert!(loader.get_app_data_by_name(&b"c".to_vec()).is_none());
    assert!(loader.get_app_data_by_name(&b"".to_vec()).is_none());
}

#[test]
fn getpid_names_the_current_task() {
    let kernel = running();
    assert_eq!(sys_getpid(&kernel), 0);
    assert_eq!(current_user_token(&kernel), 0);
    assert_eq!(current_task(&kernel).unwrap().pid, 0);
}

#[test]
fn mmap_then_munmap_returns_zero_twice() {
    let mut kernel = running();
    let start = 0x20_0000;
    for (len, port) in [(1usize, 1usize), (4096, 3), (4097, 7), (3 * 4096, 2), (10000, 4)] {
        assert_eq!(sys_mmap(&mut kernel, start, len, port), 0);
        let ms = &current_task(&kernel).unwrap().memory_set;
        assert!(ms.translate(VirtAddr(start)).is_ok());
        assert!(ms.translate(VirtAddr(start + len - 1)).is_ok());
        assert_eq!(sys_munmap(&mut kernel, start, len), 0);
        let ms = &current_task(&kernel).unwrap().memory_set;
        assert!(ms.translate(VirtAddr(start)).is_err());
        assert!(ms.translate(VirtAddr(start + len - 1)).is_err());
        assert!(ms.is_range_free(start / 4096, start / 4096 + 4));
    }
}

#[test]
fn mmap_sets_permissions_from_port() {
    let mut kernel = running();
    assert_eq!(sys_mmap(&mut kernel, 0x20_0000, 4096, 1), 0);
    assert_eq!(sys_mmap(&mut kernel, 0x20_1000, 4096, 2), 0);
    let ms = kernel.current_memory_set();
    assert_eq!(ms.read_byte(0x20_0000), Some(0));
    assert!(!ms.is_range_user_writable(0x20_0000, 1));
    assert_eq!(ms.read_byte(0x20_1000), None);
    assert!(ms.is_range_user_writable(0x20_1000, 4096));
    assert!(!ms.is_range_user_writable(0x20_1000, 4097));
}

#[test]
fn mmap_over_mapped_page_returns_minus_one() {
    let mut kernel = running();
    assert_eq!(sys_mmap(&mut kernel, 0x20_0000, 2 * 4096, 3), 0);
    assert_eq!(kernel.current_memory_set().write_bytes(0x20_1000, &vec![0x5a]), Ok(()));
    assert_eq!(sys_mmap(&mut kernel, 0x20_0000, 4096, 3), -1);
    assert_eq!(sys_mmap(&mut kernel, 0x20_1000, 4096, 1), -1);
    assert_eq!(sys_mmap(&mut kernel, 0x1f_f000, 2 * 4096, 3), -1);
    assert_eq!(sys_mmap(&mut kernel, 0x20_1000, 3 * 4096, 7), -1);
    let ms = kernel.current_memory_set();
    assert_eq!(ms.read_byte(0x20_1000), Some(0x5a));
    assert!(ms.translate(VirtAddr(0x1f_f000)).is_err());
    assert!(ms.translate(VirtAddr(0x20_2000)).is_err());
    assert_eq!(sys_mmap(&mut kernel, 0x20_2000, 4096, 3), 0);
    assert_eq!(sys_mmap(&mut kernel, DATA, 4096, 3), -1);
}

#[test]
fn mmap_refuses_bad_requests() {
    let mut kernel = running();
    assert_eq!(sys_mmap(&mut kernel, 0x20_0001, 4096, 3), -1);
    assert_eq!(sys_mmap(&mut kernel, 0x20_0000, 4096, 0), -1);
    assert_eq!(sys_mmap(&mut kernel, 0x20_0000, 4096, 8), -1);
    assert_eq!(sys_mmap(&mut kernel, 0x20_0000, 4096, 0x13), -1);
    assert_eq!(sys_mmap(&mut kernel, 0x20_0000, 4096, usize::MAX), -1);
    assert_eq!(sys_mmap(&mut kernel, usize::MAX - 4095, 4097, 3), -1);
    assert!(current_task(&kernel).unwrap().memory_set.translate(VirtAddr(0x20_0000)).is_err());
}

#[test]
fn mmap_of_no_bytes_maps_no_page() {
    let mut kernel = running();
    assert_eq!(sys_mmap(&mut kernel, 0x20_0000, 0, 3), 0);
    assert!(current_task(&kernel).unwrap().memory_set.translate(VirtAddr(0x20_0000)).is_err());
    assert_eq!(sys_mmap(&mut kernel, 0x20_0000, 4096, 3), 0);
    assert_eq!(sys_munmap(&mut kernel, 0x20_0000, 0), 0);
    assert_eq!(sys_munmap(&mut kernel, 0x20_0000, 0), -1);
    assert!(current_task(&kernel).unwrap().memory_set.translate(VirtAddr(0x20_0000)).is_ok());
}

#[test]
fn munmap_of_other_bounds_returns_minus_one() {
    let mut kernel = running();
    assert_eq!(sys_mmap(&mut kernel, 0x20_0000, 3 * 4096, 3), 0);
    assert_eq!(sys_munmap(&mut kernel, 0x20_0000, 4096), -1);
    assert_eq!(sys_munmap(&mut kernel, 0x20_1000, 2 * 4096), -1);
    assert_eq!(sys_munmap(&mut kernel, 0x20_0000, 4 * 4096), -1);
    assert_eq!(sys_munmap(&mut kernel, 0x20_0001, 3 * 4096), -1);
    assert_eq!(sys_munmap(&mut kernel, 0x30_0000, 4096), -1);
    assert_eq!(sys_munmap(&mut kernel, usize::MAX - 4095, 4097), -1);
    let ms = &current_task(&kernel).unwrap().memory_set;
    assert!(ms.translate(VirtAddr(0x20_0000)).is_ok());
    assert!(ms.translate(VirtAddr(0x20_2fff)).is_ok());
    assert_eq!(sys_munmap(&mut kernel, 0x20_0000, 2 * 4096 + 1), 0);
    assert_eq!(sys_munmap(&mut kernel, 0x20_0000, 3 * 4096), -1);
}

#[test]
fn task_area_functions_act_on_the_current_task() {
    let mut kernel = running();
    assert_eq!(
        task_insert_framed_area(&mut kernel, VirtAddr(0x20_0000), VirtAddr(0x20_2000), rw_user()),
        Ok(())
    );
    assert!(task_insert_framed_area(&mut kernel, VirtAddr(0x20_1000), VirtAddr(0x20_3000), rw_user()).is_err());
    assert_eq!(task_drop_framed_area(&mut kernel, VirtAddr(0x20_0000), VirtAddr(0x20_1000)), -1);
    assert_eq!(task_drop_framed_area(&mut kernel, VirtAddr(0x20_0000), VirtAddr(0x20_2000)), 0);
    assert_eq!(task_drop_framed_area(&mut kernel, VirtAddr(0x20_0000), VirtAddr(0x20_2000)), -1);
}

#[test]
fn fork_returns_child_pid_and_child_sees_zero() {
    let mut kernel = running();
    current_trap_cx(&mut kernel).x[REG_RETURN] = 77;
    current_trap_cx(&mut kernel).x[5] = 1234;
    let pid = sys_fork(&mut kernel);
    assert_eq!(pid, 1);
    let child = kernel.task(1).unwrap();
    assert_eq!(child.trap_cx.x[REG_RETURN], 0);
    assert_eq!(child.trap_cx.return_value(), 0);
    assert_eq!(child.trap_cx.x[5], 1234);
    assert_eq!(child.trap_cx.sepc, 0x1_0000);
    assert_eq!(child.pid, 1);
    assert_eq!(child.parent, Some(0));
    assert_eq!(child.task_status, TaskStatus::Ready);
    assert!(child.children.is_empty());
    let parent = kernel.task(0).unwrap();
    assert_eq!(parent.trap_cx.x[REG_RETURN], 77);
    assert_eq!(parent.children, vec![1]);
    assert_eq!(parent.task_status, TaskStatus::Running);
    assert_eq!(kernel.ready_queue(), &vec![1]);
    assert_eq!(sys_fork(&mut kernel), 2);
    assert_eq!(kernel.task(0).unwrap().children, vec![1, 2]);
    assert_eq!(kernel.ready_queue(), &vec![1, 2]);
}

#[test]
fn fork_copies_memory() {
    let mut kernel = running();
    assert_eq!(sys_mmap(&mut kernel, 0x20_0000, 4096, 3), 0);
    assert_eq!(kernel.current_memory_set().write_bytes(0x20_0ffe, &vec![1, 2]), Ok(()));
    assert_eq!(sys_fork(&mut kernel), 1);
    assert_eq!(read(&kernel, 1, 0x20_0ffe, 2), vec![1, 2]);
    assert_eq!(read(&kernel, 1, DATA, 1), vec![0xa1]);
    assert_eq!(kernel.current_memory_set().write_bytes(0x20_0ffe, &vec![9]), Ok(()));
    assert_eq!(read(&kernel, 1, 0x20_0ffe, 2), vec![1, 2]);
    assert_eq!(read(&kernel, 0, 0x20_0ffe, 2), vec![9, 2]);
}

#[test]
fn waitpid_without_children_returns_minus_one() {
    let mut kernel = running();
    assert_eq!(sys_waitpid(&mut kernel, -1, DATA), -1);
    assert_eq!(sys_waitpid(&mut kernel, 1, DATA), -1);
    assert_eq!(sys_waitpid(&mut kernel, 0, DATA), -1);
    assert_eq!(sys_waitpid(&mut kernel, -1, 0), -1);
}

#[test]
fn waitpid_before_exit_returns_minus_two() {
    let mut kernel = running();
    assert_eq!(sys_fork(&mut kernel), 1);
    assert_eq!(sys_waitpid(&mut kernel, -1, DATA), -2);
    assert_eq!(sys_waitpid(&mut kernel, 1, DATA), -2);
    assert_eq!(sys_waitpid(&mut kernel, 2, DATA), -1);
    assert_eq!(sys_waitpid(&mut kernel, -2, DATA), -1);
    assert_eq!(sys_waitpid(&mut kernel, isize::MIN, DATA), -1);
    assert_eq!(sys_waitpid(&mut kernel, -1, 0), -2);
    assert_eq!(kernel.task(0).unwrap().children, vec![1]);
    assert_eq!(read(&kernel, 0, DATA, 4), vec![0xa1, 0, 0, 0]);
}

/// Task 0 forks task 1, yields; task 1 runs and exits with `code`; task 0
/// runs again.
fn child_exited(code: i32) -> Kernel {
    let mut kernel = running();
    assert_eq!(sys_fork(&mut kernel), 1);
    assert_eq!(sys_yield(&mut kernel), 0);
    assert_eq!(dispatch(&mut kernel), 1);
    sys_exit(&mut kernel, code);
    assert_eq!(dispatch(&mut kernel), 0);
    kernel
}

#[test]
fn exit_then_waitpid_gives_the_code() {
    let mut kernel = child_exited(42);
    let zombie = kernel.task(1).unwrap();
    assert_eq!(zombie.task_status, TaskStatus::Zombie);
    assert_eq!(zombie.exit_code, 42);
    assert!(zombie.memory_set.translate(VirtAddr(DATA)).is_err());
    let ptr = DATA + 0x100;
    assert_eq!(sys_waitpid(&mut kernel, 1, ptr), 1);
    let bytes = read(&kernel, 0, ptr, 4);
    assert_eq!(i32::from_le_bytes([bytes[0], bytes[1], bytes[2], bytes[3]]), 42);
    assert!(kernel.task(1).is_none());
    assert!(kernel.task(0).unwrap().children.is_empty());
    assert_eq!(sys_waitpid(&mut kernel, 1, ptr), -1);
    assert_eq!(sys_waitpid(&mut kernel, -1, ptr), -1);
    assert_eq!(sys_fork(&mut kernel), 2);
    assert_eq!(sys_waitpid(&mut kernel, 1, ptr), -1);
    assert_eq!(sys_waitpid(&mut kernel, -1, ptr), -2);
}

#[test]
fn waitpid_any_gives_a_negative_code() {
    let mut kernel = child_exited(-3);
    let ptr = DATA + 0xffe;
    assert_eq!(sys_waitpid(&mut kernel, -1, ptr), 1);
    assert_eq!(read(&kernel, 0, ptr, 4), vec![0xfd, 0xff, 0xff, 0xff]);
    assert_eq!(read(&kernel, 0, ptr + 4, 1), vec![0]);
    assert_eq!(read(&kernel, 0, ptr - 1, 1), vec![0]);
}

#[test]
fn waitpid_extreme_codes() {
    for code in [0, 1, -1, i32::MAX, i32::MIN, 0x0102_0304] {
        let mut kernel = child_exited(code);
        assert_eq!(sys_waitpid(&mut kernel, -1, DATA), 1);
        let bytes = read(&kernel, 0, DATA, 4);
        assert_eq!(i32::from_le_bytes([bytes[0], bytes[1], bytes[2], bytes[3]]), code);
    }
}

#[test]
fn waitpid_with_bad_pointer_collects_nothing() {
    let mut kernel = child_exited(5);
    assert_eq!(sys_waitpid(&mut kernel, 1, 0x50_0000), -1);
    assert_eq!(sys_waitpid(&mut kernel, 1, DATA + 0x1ffe), -1);
    assert_eq!(kernel.task(0).unwrap().children, vec![1]);
    assert_eq!(kernel.task(1).unwrap().exit_code, 5);
    assert_eq!(read(&kernel, 0, DATA + 0x1ffe, 2), vec![0, 0]);
    assert_eq!(sys_waitpid(&mut kernel, 1, DATA), 1);
}

#[test]
fn waitpid_takes_the_first_zombie() {
    let mut kernel = running();
    assert_eq!(sys_fork(&mut kernel), 1);
    assert_eq!(sys_fork(&mut kernel), 2);
    assert_eq!(sys_fork(&mut kernel), 3);
    assert_eq!(sys_yield(&mut kernel), 0);
    assert_eq!(dispatch(&mut kernel), 1);
    assert_eq!(sys_yield(&mut kernel), 0);
    assert_eq!(dispatch(&mut kernel), 2);
    sys_exit(&mut kernel, 20);
    assert_eq!(dispatch(&mut kernel), 3);
    sys_exit(&mut kernel, 30);
    assert_eq!(dispatch(&mut kernel), 0);
    assert_eq!(sys_waitpid(&mut kernel, 1, DATA), -2);
    assert_eq!(sys_waitpid(&mut kernel, 3, DATA), 3);
    assert_eq!(read(&kernel, 0, DATA, 4), vec![30, 0, 0, 0]);
    assert_eq!(kernel.task(0).unwrap().children, vec![1, 2]);
    assert_eq!(sys_waitpid(&mut kernel, -1, DATA), 2);
    assert_eq!(read(&kernel, 0, DATA, 4), vec![20, 0, 0, 0]);
    assert_eq!(kernel.task(0).unwrap().children, vec![1]);
    assert_eq!(sys_waitpid(&mut kernel, -1, DATA), -2);
    assert_eq!(sys_waitpid(&mut kernel, 2, DATA), -1);
    assert_eq!(sys_waitpid(&mut kernel, 3, DATA), -1);
}

#[test]
fn exit_orphans_children() {
    let mut kernel = running();
    assert_eq!(sys_fork(&mut kernel), 1);
    assert_eq!(sys_yield(&mut kernel), 0);
    assert_eq!(dispatch(&mut kernel), 1);
    assert_eq!(sys_fork(&mut kernel), 2);
    assert_eq!(kernel.task(2).unwrap().parent, Some(1));
    sys_exit(&mut kernel, 7);
    assert_eq!(kernel.current(), None);
    assert_eq!(kernel.task(2).unwrap().parent, None);
    let zombie = kernel.task(1).unwrap();
    assert!(zombie.children.is_empty());
    assert_eq!(zombie.parent, Some(0));
    assert!(zombie.is_zombie());
    assert_eq!(zombie.getpid(), 1);
    assert_eq!(kernel.ready_queue(), &vec![0, 2]);
    assert_eq!(dispatch(&mut kernel), 2);
    assert_eq!(sys_yield(&mut kernel), 0);
    assert_eq!(dispatch(&mut kernel), 0);
    assert_eq!(sys_waitpid(&mut kernel, 2, DATA), -1);
    assert_eq!(sys_waitpid(&mut kernel, -1, DATA), 1);
    assert_eq!(kernel.task(2).unwrap().task_status, TaskStatus::Ready);
}

#[test]
fn yield_requeues_the_task() {
    let mut kernel = running();
    assert_eq!(sys_fork(&mut kernel), 1);
    assert_eq!(sys_yield(&mut kernel), 0);
    assert_eq!(kernel.current(), None);
    assert_eq!(kernel.ready_queue(), &vec![1, 0]);
    assert_eq!(kernel.task(0).unwrap().task_status, TaskStatus::Ready);
}

#[test]
fn exec_replaces_the_program() {
    let mut kernel = running();
    assert_eq!(sys_fork(&mut kernel), 1);
    assert_eq!(sys_set_priority(&mut kernel, 5), 5);
    update_current_syscall_times(&mut kernel, 221);
    assert_eq!(sys_mmap(&mut kernel, 0x20_0000, 2 * 4096, 3), 0);
    put_str(&mut kernel, 0x20_0ffd, b"shell");
    let stride = kernel.task(0).unwrap().stride;
    assert_eq!(sys_exec(&mut kernel, 0x20_0ffd), 0);
    let task = kernel.task(0).unwrap();
    assert_eq!(task.memory_set.read_byte(DATA), Some(0xb2));
    assert!(task.memory_set.translate(VirtAddr(0x20_0000)).is_err());
    assert_eq!(task.trap_cx.sepc, 0x1_0040);
    assert_eq!(task.trap_cx.x[REG_SP], STACK_TOP);
    assert_eq!(task.trap_cx.x[REG_RETURN], 0);
    assert_eq!(task.pid, 0);
    assert_eq!(task.children, vec![1]);
    assert_eq!(task.priority, 5);
    assert_eq!(task.stride, stride);
    assert_eq!(task.task_syscall_times[221], 1);
    assert_eq!(task.task_status, TaskStatus::Running);
    assert_eq!(kernel.current(), Some(0));
}

#[test]
fn exec_of_unknown_program_returns_minus_one() {
    let mut kernel = running();
    put_str(&mut kernel, DATA + 0x10, b"nothing");
    assert_eq!(sys_exec(&mut kernel, DATA + 0x10), -1);
    assert_eq!(sys_exec(&mut kernel, 0x50_0000), -1);
    let task = kernel.task(0).unwrap();
    assert_eq!(task.memory_set.read_byte(DATA), Some(0xa1));
    assert_eq!(task.trap_cx.sepc, 0x1_0000);
}

#[test]
fn exec_of_unterminated_name_returns_minus_one() {
    let mut kernel = running();
    assert_eq!(kernel.current_memory_set().write_bytes(DATA + 0x1ffb, &b"shell".to_vec()), Ok(()));
    assert_eq!(sys_exec(&mut kernel, DATA + 0x1ffb), -1);
}

#[test]
fn spawn_creates_a_child_with_the_program() {
    let mut kernel = running();
    put_str(&mut kernel, DATA + 0x10, b"shell");
    assert_eq!(kernel.current_memory_set().write_bytes(DATA + 0x100, &vec![0x77]), Ok(()));
    assert_eq!(sys_spawn(&mut kernel, DATA + 0x10), 1);
    let child = kernel.task(1).unwrap();
    assert_eq!(child.memory_set.read_byte(DATA), Some(0xb2));
    assert_eq!(child.memory_set.read_byte(DATA + 0x100), Some(0));
    assert_eq!(child.trap_cx.sepc, 0x1_0040);
    assert_eq!(child.trap_cx.x[REG_SP], STACK_TOP);
    assert_eq!(child.parent, Some(0));
    assert_eq!(child.task_status, TaskStatus::Ready);
    assert_eq!(child.priority, 16);
    assert_eq!(kernel.task(0).unwrap().children, vec![1]);
    assert_eq!(kernel.ready_queue(), &vec![1]);
    assert_eq!(read(&kernel, 0, DATA, 1), vec![0xa1]);
}

#[test]
fn spawn_of_unknown_program_returns_minus_one() {
    let mut kernel = running();
    put_str(&mut kernel, DATA + 0x10, b"nothing");
    assert_eq!(sys_spawn(&mut kernel, DATA + 0x10), -1);
    assert_eq!(sys_spawn(&mut kernel, 0x50_0000), -1);
    assert_eq!(kernel.task_count(), 1);
    assert!(kernel.task(0).unwrap().children.is_empty());
    assert!(kernel.ready_queue().is_empty());
}

#[test]
fn spawn_matches_fork_then_exec() {
    let mut spawned = running();
    put_str(&mut spawned, DATA + 0x10, b"shell");
    assert_eq!(sys_spawn(&mut spawned, DATA + 0x10), 1);

    let mut forked = running();
    put_str(&mut forked, DATA + 0x10, b"shell");
    assert_eq!(sys_fork(&mut forked), 1);
    assert_eq!(sys_yield(&mut forked), 0);
    assert_eq!(dispatch(&mut forked), 1);
    assert_eq!(sys_exec(&mut forked, DATA + 0x10), 0);

    let a = spawned.task(1).unwrap();
    let b = forked.task(1).unwrap();
    assert_eq!(a.pid, b.pid);
    assert_eq!(a.parent, b.parent);
    assert_eq!(a.trap_cx.sepc, b.trap_cx.sepc);
    assert_eq!(a.trap_cx.x, b.trap_cx.x);
    assert_eq!(a.priority, b.priority);
    for va in [DATA, DATA + 0x10, DATA + 0x1fff, STACK_TOP - 1] {
        assert_eq!(a.memory_set.read_byte(va), b.memory_set.read_byte(va));
    }
    assert_eq!(a.memory_set.program_brk(), b.memory_set.program_brk());
}

#[test]
fn get_time_splits_microseconds() {
    let mut kernel = running();
    assert_eq!(sys_get_time(&mut kernel, DATA + 8, 0, 1_234_567), 0);
    let bytes = read(&kernel, 0, DATA + 8, TIME_VAL_SIZE);
    let mut sec = [0u8; 8];
    let mut usec = [0u8; 8];
    sec.copy_from_slice(&bytes[0..8]);
    usec.copy_from_slice(&bytes[8..16]);
    assert_eq!(u64::from_le_bytes(sec), 1);
    assert_eq!(u64::from_le_bytes(usec), 234_567);
    assert_eq!(read(&kernel, 0, DATA, 1), vec![0xa1]);
    assert_eq!(read(&kernel, 0, DATA + 24, 1), vec![0]);
}

#[test]
fn get_time_across_two_pages() {
    let mut kernel = running();
    let ts = DATA + 0x1000 - 5;
    assert_eq!(sys_get_time(&mut kernel, ts, 0, 0x0102_0304_0506), 0);
    let bytes = read(&kernel, 0, ts, TIME_VAL_SIZE);
    let expected = TimeVal::from_micros(0x0102_0304_0506);
    assert_eq!(expected, TimeVal { sec: 0x0102_0304_0506 / 1_000_000, usec: 0x0102_0304_0506 % 1_000_000 });
    assert_eq!(bytes, expected.encode());
    let mut sec = [0u8; 8];
    sec.copy_from_slice(&bytes[0..8]);
    assert_eq!(u64::from_le_bytes(sec) as usize, expected.sec);
}

#[test]
fn get_time_is_monotone() {
    let mut kernel = running();
    let mut last = (0u64, 0u64);
    for now in [0usize, 1, 999_999, 1_000_000, 1_000_001, 59_999_999, 60_000_000, usize::MAX] {
        assert_eq!(sys_get_time(&mut kernel, DATA, 0, now), 0);
        let bytes = read(&kernel, 0, DATA, TIME_VAL_SIZE);
        let mut sec = [0u8; 8];
        let mut usec = [0u8; 8];
        sec.copy_from_slice(&bytes[0..8]);
        usec.copy_from_slice(&bytes[8..16]);
        let this = (u64::from_le_bytes(sec), u64::from_le_bytes(usec));
        assert!(this >= last);
        assert!(this.1 <= 999_999);
        assert_eq!(this.0 as u128 * 1_000_000 + this.1 as u128, now as u128);
        last = this;
    }
}

#[test]
fn get_time_to_bad_pointer_returns_minus_one() {
    let mut kernel = running();
    assert_eq!(sys_get_time(&mut kernel, 0x50_0000, 0, 5), -1);
    assert_eq!(sys_get_time(&mut kernel, DATA + 0x2000 - 15, 0, 5_000_000), -1);
    assert_eq!(read(&kernel, 0, DATA + 0x2000 - 15, 15), vec![0; 15]);
    assert_eq!(sys_get_time(&mut kernel, usize::MAX - 3, 0, 5), -1);
}

#[test]
fn time_val_exact_values() {
    assert_eq!(TimeVal::from_micros(0), TimeVal { sec: 0, usec: 0 });
    assert_eq!(TimeVal::from_micros(999_999), TimeVal { sec: 0, usec: 999_999 });
    assert_eq!(TimeVal::from_micros(1_000_000), TimeVal { sec: 1, usec: 0 });
    assert_eq!(TimeVal::from_micros(3_600_000_001), TimeVal { sec: 3600, usec: 1 });
    assert_eq!(
        TimeVal { sec: 0x0102, usec: 0x0a0b0c }.encode(),
        vec![2, 1, 0, 0, 0, 0, 0, 0, 0x0c, 0x0b, 0x0a, 0, 0, 0, 0, 0]
    );
}

#[test]
fn task_info_reports_counters_and_time() {
    let mut kernel = boot();
    assert!(run_tasks(&mut kernel, TaskContext::zero_init(), 1_000).is_some());
    update_current_syscall_times(&mut kernel, 169);
    update_current_syscall_times(&mut kernel, 169);
    update_current_syscall_times(&mut kernel, 0);
    update_current_syscall_times(&mut kernel, 499);
    assert_eq!(get_current_syscall_times(&kernel)[169], 2);
    assert_eq!(get_current_task_time(&kernel, 4_500), 3_500);
    assert_eq!(get_current_task_time(&kernel, 500), 0);
    assert_eq!(sys_mmap(&mut kernel, 0x20_0000, 2 * 4096, 3), 0);
    let ti = 0x20_0000 + 4096 - 1000;
    assert_eq!(sys_task_info(&mut kernel, ti, 4_500), 0);
    let bytes = read(&kernel, 0, ti, TASK_INFO_SIZE);
    assert_eq!(&bytes[0..4], &[1, 0, 0, 0]);
    let count = |id: usize| {
        let at = 4 + 4 * id;
        u32::from_le_bytes([bytes[at], bytes[at + 1], bytes[at + 2], bytes[at + 3]])
    };
    assert_eq!(count(0), 1);
    assert_eq!(count(1), 0);
    assert_eq!(count(169), 2);
    assert_eq!(count(498), 0);
    assert_eq!(count(499), 1);
    assert_eq!(&bytes[2004..2008], &[0, 0, 0, 0]);
    let mut time = [0u8; 8];
    time.copy_from_slice(&bytes[2008..2016]);
    assert_eq!(u64::from_le_bytes(time), 3_500);
    assert_eq!(read(&kernel, 0, ti + TASK_INFO_SIZE, 1), vec![0]);
}

#[test]
fn task_info_to_bad_pointer_returns_minus_one() {
    let mut kernel = running();
    assert_eq!(sys_task_info(&mut kernel, 0x50_0000, 10), -1);
    assert_eq!(sys_task_info(&mut kernel, DATA + 0x2000 - 2015, 10), -1);
    assert_eq!(read(&kernel, 0, DATA + 0x2000 - 2015, 4), vec![0, 0, 0, 0]);
    assert_eq!(sys_task_info(&mut kernel, DATA + 0x2000 - 2016, 10), 0);
    assert_eq!(read(&kernel, 0, DATA + 0x2000 - 2016, 4), vec![1, 0, 0, 0]);
}

#[test]
fn task_info_record_layout() {
    let mut counts = [0u32; 500];
    counts[0] = 0x0102_0304;
    counts[499] = 7;
    let info = TaskInfo::new(TaskStatus::Zombie, counts, 0x1122_3344);
    assert_eq!(info.status(), TaskStatus::Zombie);
    assert_eq!(info.time(), 0x1122_3344);
    assert_eq!(info.syscall_times()[499], 7);
    let bytes = info.encode();
    assert_eq!(bytes.len(), 2016);
    assert_eq!(&bytes[0..8], &[2, 0, 0, 0, 4, 3, 2, 1]);
    assert_eq!(&bytes[2000..2004], &[7, 0, 0, 0]);
    assert_eq!(&bytes[2004..2016], &[0, 0, 0, 0, 0x44, 0x33, 0x22, 0x11, 0, 0, 0, 0]);
    assert_eq!(TaskInfo::new(TaskStatus::Ready, counts, 0).encode()[0], 0);
}

#[test]
fn syscall_counters_count_each_call() {
    let mut kernel = running();
    let cx = current_trap_cx(&mut kernel);
    cx.sepc = 0x44;
    assert_eq!(current_task(&kernel).unwrap().trap_cx.sepc, 0x44);
    for _ in 0..3 {
        update_current_syscall_times(&mut kernel, 7);
    }
    assert_eq!(get_current_syscall_times(&kernel)[7], 3);
    assert_eq!(get_current_syscall_times(&kernel)[8], 0);
}

#[test]
fn sbrk_returns_the_old_break() {
    let mut kernel = running();
    assert_eq!(sys_sbrk(&mut kernel, 0), STACK_TOP as isize);
    assert_eq!(sys_sbrk(&mut kernel, 100), STACK_TOP as isize);
    assert_eq!(sys_sbrk(&mut kernel, 4096), STACK_TOP as isize + 100);
    assert_eq!(sys_sbrk(&mut kernel, -4196), STACK_TOP as isize + 4196);
    assert_eq!(sys_sbrk(&mut kernel, 0), STACK_TOP as isize);
    assert_eq!(sys_sbrk(&mut kernel, -1), -1);
    assert_eq!(sys_sbrk(&mut kernel, 0), STACK_TOP as isize);
    assert_eq!(sys_sbrk(&mut kernel, 8192), STACK_TOP as isize);
    assert_eq!(kernel.current_memory_set().write_bytes(STACK_TOP + 8191, &vec![1]), Ok(()));
    assert_eq!(kernel.current_memory_set().write_bytes(STACK_TOP + 8192, &vec![1]).is_err(), true);
}

#[test]
fn sbrk_onto_a_mapped_page_returns_minus_one() {
    let mut kernel = running();
    assert_eq!(sys_mmap(&mut kernel, STACK_TOP + 4096, 4096, 3), 0);
    assert_eq!(sys_sbrk(&mut kernel, 4096), STACK_TOP as isize);
    assert_eq!(sys_sbrk(&mut kernel, 1), -1);
    assert_eq!(sys_sbrk(&mut kernel, 0), STACK_TOP as isize + 4096);
}

#[test]
fn set_priority_checks_the_floor() {
    let mut kernel = running();
    assert_eq!(kernel.task(0).unwrap().priority, 16);
    assert_eq!(sys_set_priority(&mut kernel, 1), -1);
    assert_eq!(sys_set_priority(&mut kernel, 0), -1);
    assert_eq!(sys_set_priority(&mut kernel, -5), -1);
    assert_eq!(sys_set_priority(&mut kernel, isize::MIN), -1);
    assert_eq!(kernel.task(0).unwrap().priority, 16);
    assert_eq!(sys_set_priority(&mut kernel, 2), 2);
    assert_eq!(kernel.task(0).unwrap().priority, 2);
    assert_eq!(sys_set_priority(&mut kernel, isize::MAX), isize::MAX);
    assert_eq!(kernel.task(0).unwrap().priority, isize::MAX);
    assert_eq!(sys_set_priority(&mut kernel, 1), -1);
    assert_eq!(kernel.task(0).unwrap().priority, isize::MAX);
}

#[test]
fn pass_is_inverse_to_priority() {
    assert_eq!(stride_pass(2), 0x80000);
    assert_eq!(stride_pass(10), 0x100000 / 10);
    assert_eq!(stride_pass(16), 0x10000);
    assert_eq!(stride_pass(0x100000), 1);
    assert_eq!(stride_pass(0x100001), 1);
    assert_eq!(stride_pass(isize::MAX), 1);
    let mut last = stride_pass(2);
    for prio in 3..200 {
        let pass = stride_pass(prio);
        assert!(pass <= last);
        assert!(pass >= 1);
        last = pass;
    }
}

#[test]
fn processor_holds_the_current_task() {
    let mut processor = Processor::new();
    assert_eq!(processor.current(), None);
    assert_eq!(processor.take_current(), None);
    let mut idle = TaskContext::zero_init();
    idle.ra = 0x80;
    processor.install(3, idle);
    assert_eq!(processor.current(), Some(3));
    assert_eq!(processor.idle_task_cx().ra, 0x80);
    assert_eq!(processor.take_current(), Some(3));
    assert_eq!(processor.current(), None);
    assert_eq!(processor.idle_task_cx().ra, 0x80);
}

#[test]
fn take_current_task_frees_the_processor() {
    let mut kernel = running();
    assert_eq!(take_current_task(&mut kernel), Some(0));
    assert_eq!(kernel.current(), None);
    assert!(current_task(&kernel).is_none());
    assert_eq!(take_current_task(&mut kernel), None);
    assert_eq!(kernel.task(0).unwrap().task_status, TaskStatus::Running);
}

#[test]
fn schedule_keeps_the_registers() {
    let mut kernel = boot();
    let mut idle = TaskContext::zero_init();
    idle.sp = 0x9000;
    let (pid, cx) = run_tasks(&mut kernel, idle, 10).unwrap();
    assert_eq!(pid, 0);
    assert_eq!(cx.ra, 0);
    assert_eq!(kernel.idle_task_cx().sp, 0x9000);
    assert_eq!(sys_yield(&mut kernel), 0);
    let mut saved = TaskContext::zero_init();
    saved.ra = 0x1234;
    saved.s[3] = 9;
    let back = schedule(&mut kernel, 0, saved);
    assert_eq!(back.sp, 0x9000);
    assert_eq!(kernel.task(0).unwrap().task_cx.ra, 0x1234);
    let other = schedule(&mut kernel, 17, TaskContext::zero_init());
    assert_eq!(other.sp, 0x9000);
    let (pid, cx) = run_tasks(&mut kernel, idle, 20).unwrap();
    assert_eq!(pid, 0);
    assert_eq!(cx.ra, 0x1234);
    assert_eq!(cx.s[3], 9);
    assert_eq!(kernel.task(0).unwrap().task_time, Some(10));
}

#[test]
fn mmap_of_the_last_page() {
    let mut kernel = running();
    let top = usize::MAX - 4095;
    assert_eq!(sys_mmap(&mut kernel, top, 4096, 3), 0);
    assert_eq!(kernel.current_memory_set().write_bytes(usize::MAX - 1, &vec![7, 8]), Ok(()));
    assert_eq!(read(&kernel, 0, usize::MAX - 1, 1), vec![7]);
    assert_eq!(kernel.current_memory_set().read_byte(usize::MAX), Some(8));
    assert_eq!(kernel.current_memory_set().write_bytes(usize::MAX, &vec![1, 2]).is_err(), true);
    assert_eq!(sys_get_time(&mut kernel, usize::MAX - 14, 0, 1), -1);
    assert_eq!(sys_get_time(&mut kernel, usize::MAX - 15, 0, 1), 0);
    assert_eq!(sys_munmap(&mut kernel, top, 4095), 0);
    assert_eq!(kernel.current_memory_set().read_byte(usize::MAX), None);
}
