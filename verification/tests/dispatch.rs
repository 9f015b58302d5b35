use task_kernel::config::{
    SYSCALL_EXEC, SYSCALL_EXIT, SYSCALL_FORK, SYSCALL_GETPID, SYSCALL_GET_TIME, SYSCALL_MMAP,
    SYSCALL_MUNMAP, SYSCALL_SBRK, SYSCALL_SET_PRIORITY, SYSCALL_SPAWN, SYSCALL_TASK_INFO,
    SYSCALL_WAITPID, SYSCALL_YIELD,
};
use task_kernel::loader::{Loader, ProgramImage};
use task_kernel::mm::address::VirtAddr;
use task_kernel::mm::area::MapPermission;
use task_kernel::mm::memory_set::MemorySet;
use task_kernel::syscall::dispatch::{syscall, trap_syscall};
use task_kernel::syscall::encode::{put_le, put_words, to_twos_complement};
use task_kernel::task::context::{TaskContext, REG_ARG0, REG_RETURN, REG_SP, REG_SYSCALL_ID};
use task_kernel::task::kernel::Kernel;
use task_kernel::task::processor::{get_current_syscall_times, run_tasks};
use task_kernel::task::tcb::TaskStatus;

const DATA: usize = 0x1_0000;
const HEAP: usize = 0x8_0000;

fn image() -> ProgramImage {
    let mut space = MemorySet::new_bare(VirtAddr(HEAP));
    let rw = MapPermission { r: true, w: true, x: false, u: true };
    assert_eq!(space.insert_framed_area(VirtAddr(DATA), VirtAddr(DATA + 0x1000), rw), Ok(()));
    assert_eq!(space.write_bytes(DATA, &b"init\0".to_vec()), Ok(()));
    ProgramImage::new(space, 0x1000, HEAP)
}

fn running() -> Kernel {
    let mut loader = Loader::new();
    loader.add(b"init".to_vec(), image());
    let mut kernel = Kernel::new(loader);
    assert_eq!(kernel.add_initproc(&b"init".to_vec()), Some(0));
    assert!(run_tasks(&mut kernel, TaskContext::zero_init(), 100).is_some());
    kernel
}

fn dispatch(kernel: &mut Kernel) -> usize {
    run_tasks(kernel, TaskContext::zero_init(), 100).unwrap().0
}

#[test]
fn every_call_is_counted() {
    let mut kernel = running();
    assert_eq!(syscall(&mut kernel, SYSCALL_GETPID, [0, 0, 0], 0), 0);
    assert_eq!(syscall(&mut kernel, SYSCALL_GETPID, [9, 9, 9], 0), 0);
    assert_eq!(syscall(&mut kernel, SYSCALL_MMAP, [0x20_0001, 1, 1], 0), -1);
    assert_eq!(syscall(&mut kernel, 7, [0, 0, 0], 0), -1);
    assert_eq!(syscall(&mut kernel, 500, [0, 0, 0], 0), -1);
    assert_eq!(syscall(&mut kernel, usize::MAX, [0, 0, 0], 0), -1);
    let times = get_current_syscall_times(&kernel);
    assert_eq!(times[SYSCALL_GETPID], 2);
    assert_eq!(times[SYSCALL_MMAP], 1);
    assert_eq!(times[7], 1);
    assert_eq!(times.iter().map(|&n| n as usize).sum::<usize>(), 4);
}

#[test]
fn memory_calls_by_identifier() {
    let mut kernel = running();
    assert_eq!(syscall(&mut kernel, SYSCALL_MMAP, [0x20_0000, 4096, 3], 0), 0);
    assert_eq!(syscall(&mut kernel, SYSCALL_MMAP, [0x20_0000, 4096, 3], 0), -1);
    assert_eq!(syscall(&mut kernel, SYSCALL_MUNMAP, [0x20_0000, 4095, 0], 0), 0);
    assert_eq!(syscall(&mut kernel, SYSCALL_MUNMAP, [0x20_0000, 4096, 0], 0), -1);
    assert_eq!(syscall(&mut kernel, SYSCALL_SBRK, [16, 0, 0], 0), HEAP as isize);
    assert_eq!(syscall(&mut kernel, SYSCALL_SBRK, [(-16isize) as usize, 0, 0], 0), HEAP as isize + 16);
    assert_eq!(syscall(&mut kernel, SYSCALL_SBRK, [(-1isize) as usize, 0, 0], 0), -1);
    assert_eq!(syscall(&mut kernel, SYSCALL_SBRK, [0, 0, 0], 0), HEAP as isize);
}

#[test]
fn time_and_info_by_identifier() {
    let mut kernel = running();
    assert_eq!(syscall(&mut kernel, SYSCALL_GET_TIME, [DATA + 16, 0, 0], 2_000_003), 0);
    let ms = kernel.current_memory_set();
    assert_eq!(ms.read_byte(DATA + 16), Some(2));
    assert_eq!(ms.read_byte(DATA + 24), Some(3));
    assert_eq!(syscall(&mut kernel, SYSCALL_TASK_INFO, [DATA + 0x1000 - 2016, 0, 0], 350), 0);
    let ms = kernel.current_memory_set();
    assert_eq!(ms.read_byte(DATA + 0x1000 - 2016), Some(1));
    assert_eq!(ms.read_byte(DATA + 0x1000 - 2012 + 4 * SYSCALL_GET_TIME), Some(1));
    assert_eq!(ms.read_byte(DATA + 0x1000 - 2012 + 4 * SYSCALL_TASK_INFO), Some(1));
    assert_eq!(ms.read_byte(DATA + 0x1000 - 8), Some(250));
    assert_eq!(syscall(&mut kernel, SYSCALL_TASK_INFO, [DATA + 0x1000 - 2015, 0, 0], 350), -1);
}

#[test]
fn process_calls_by_identifier() {
    let mut kernel = running();
    assert_eq!(syscall(&mut kernel, SYSCALL_SET_PRIORITY, [1, 0, 0], 0), -1);
    assert_eq!(syscall(&mut kernel, SYSCALL_SET_PRIORITY, [(-7isize) as usize, 0, 0], 0), -1);
    assert_eq!(syscall(&mut kernel, SYSCALL_SET_PRIORITY, [7, 0, 0], 0), 7);
    assert_eq!(kernel.task(0).unwrap().priority, 7);
    assert_eq!(syscall(&mut kernel, SYSCALL_FORK, [0, 0, 0], 0), 1);
    assert_eq!(kernel.task(1).unwrap().task_syscall_times[SYSCALL_FORK], 0);
    assert_eq!(syscall(&mut kernel, SYSCALL_SPAWN, [DATA, 0, 0], 0), 2);
    assert_eq!(syscall(&mut kernel, SYSCALL_SPAWN, [DATA + 1, 0, 0], 0), -1);
    assert_eq!(syscall(&mut kernel, SYSCALL_WAITPID, [(-1isize) as usize, DATA + 64, 0], 0), -2);
    assert_eq!(syscall(&mut kernel, SYSCALL_WAITPID, [5, DATA + 64, 0], 0), -1);
    assert_eq!(syscall(&mut kernel, SYSCALL_YIELD, [0, 0, 0], 0), 0);
    assert_eq!(kernel.current(), None);
    assert_eq!(dispatch(&mut kernel), 1);
    assert_eq!(syscall(&mut kernel, SYSCALL_GETPID, [0, 0, 0], 0), 1);
    assert_eq!(syscall(&mut kernel, SYSCALL_EXIT, [(-2isize) as usize, 0, 0], 0), 0);
    assert_eq!(kernel.task(1).unwrap().task_status, TaskStatus::Zombie);
    assert_eq!(kernel.task(1).unwrap().exit_code, -2);
    assert_eq!(kernel.task(1).unwrap().task_syscall_times[SYSCALL_EXIT], 1);
    assert_eq!(dispatch(&mut kernel), 2);
    assert_eq!(syscall(&mut kernel, SYSCALL_EXEC, [DATA, 0, 0], 0), 0);
    assert_eq!(syscall(&mut kernel, SYSCALL_EXEC, [DATA + 2, 0, 0], 0), -1);
    assert_eq!(kernel.task(2).unwrap().task_syscall_times[SYSCALL_EXEC], 2);
    assert_eq!(syscall(&mut kernel, SYSCALL_YIELD, [0, 0, 0], 0), 0);
    assert_eq!(dispatch(&mut kernel), 0);
    assert_eq!(syscall(&mut kernel, SYSCALL_WAITPID, [(-1isize) as usize, DATA + 64, 0], 0), 1);
    let ms = kernel.current_memory_set();
    assert_eq!(ms.read_byte(DATA + 64), Some(0xfe));
    assert_eq!(ms.read_byte(DATA + 67), Some(0xff));
    assert_eq!(get_current_syscall_times(&kernel)[SYSCALL_WAITPID], 3);
}

#[test]
fn low_bytes_first() {
    let mut buf: Vec<u8> = vec![9];
    put_le(&mut buf, 0x0102_0304_0506_0708, 8);
    assert_eq!(buf, vec![9, 8, 7, 6, 5, 4, 3, 2, 1]);
    put_le(&mut buf, 0x0102_0304_0506_0708, 2);
    assert_eq!(&buf[9..], &[8, 7]);
    put_le(&mut buf, 5, 0);
    assert_eq!(buf.len(), 11);
    let mut words: Vec<u8> = Vec::new();
    put_words(&mut words, &[1, 0x0a0b_0c0d, u32::MAX]);
    assert_eq!(words, vec![1, 0, 0, 0, 0x0d, 0x0c, 0x0b, 0x0a, 0xff, 0xff, 0xff, 0xff]);
    put_words(&mut words, &[]);
    assert_eq!(words.len(), 12);
}

#[test]
fn twos_complement_of_codes() {
    assert_eq!(to_twos_complement(0), 0);
    assert_eq!(to_twos_complement(1), 1);
    assert_eq!(to_twos_complement(-1), 0xffff_ffff);
    assert_eq!(to_twos_complement(i32::MIN), 0x8000_0000);
    assert_eq!(to_twos_complement(i32::MAX), 0x7fff_ffff);
}

#[test]
fn trap_leaves_the_answer_in_the_register() {
    let mut kernel = running();
    {
        let cx = kernel.trap_cx_of(0);
        cx.x[REG_SYSCALL_ID] = SYSCALL_MMAP;
        cx.x[REG_ARG0] = 0x20_0000;
        cx.x[REG_ARG0 + 1] = 8192;
        cx.x[REG_ARG0 + 2] = 3;
    }
    assert_eq!(trap_syscall(&mut kernel, 0), 0);
    assert_eq!(kernel.task(0).unwrap().trap_cx.x[REG_RETURN], 0);
    assert!(kernel.current_memory_set().is_range_user_writable(0x20_0000, 8192));
    {
        let cx = kernel.trap_cx_of(0);
        cx.x[REG_SYSCALL_ID] = SYSCALL_MMAP;
        cx.x[REG_ARG0] = 0x20_0000;
    }
    assert_eq!(trap_syscall(&mut kernel, 0), -1);
    assert_eq!(kernel.task(0).unwrap().trap_cx.x[REG_RETURN], usize::MAX);
    assert_eq!(kernel.task(0).unwrap().trap_cx.x[REG_ARG0 + 1], 8192);
    kernel.trap_cx_of(0).x[REG_SYSCALL_ID] = SYSCALL_FORK;
    assert_eq!(trap_syscall(&mut kernel, 0), 1);
    assert_eq!(kernel.task(0).unwrap().trap_cx.x[REG_RETURN], 1);
    assert_eq!(kernel.task(1).unwrap().trap_cx.x[REG_RETURN], 0);
    assert_eq!(kernel.task(1).unwrap().trap_cx.x[REG_SYSCALL_ID], SYSCALL_FORK);
    assert_eq!(get_current_syscall_times(&kernel)[SYSCALL_MMAP], 2);
    assert_eq!(get_current_syscall_times(&kernel)[SYSCALL_FORK], 1);
}

#[test]
fn trap_answers_a_task_that_yields_and_none_that_exits() {
    let mut kernel = running();
    {
        let cx = kernel.trap_cx_of(0);
        cx.x[REG_SYSCALL_ID] = SYSCALL_YIELD;
        cx.x[REG_ARG0] = 55;
    }
    assert_eq!(trap_syscall(&mut kernel, 0), 0);
    assert_eq!(kernel.current(), None);
    assert_eq!(kernel.task(0).unwrap().trap_cx.x[REG_RETURN], 0);
    assert_eq!(dispatch(&mut kernel), 0);
    {
        let cx = kernel.trap_cx_of(0);
        cx.x[REG_SYSCALL_ID] = SYSCALL_EXIT;
        cx.x[REG_ARG0] = 9;
    }
    assert_eq!(trap_syscall(&mut kernel, 0), 0);
    assert_eq!(kernel.task(0).unwrap().trap_cx.x[REG_RETURN], 9);
    assert_eq!(kernel.task(0).unwrap().exit_code, 9);
    assert_eq!(kernel.task(0).unwrap().task_status, TaskStatus::Zombie);
}

#[test]
fn trap_answers_in_the_registers_of_the_new_program() {
    let mut kernel = running();
    {
        let cx = kernel.trap_cx_of(0);
        cx.x[REG_SYSCALL_ID] = SYSCALL_EXEC;
        cx.x[REG_ARG0] = DATA;
        cx.x[5] = 5;
    }
    assert_eq!(trap_syscall(&mut kernel, 0), 0);
    let cx = kernel.task(0).unwrap().trap_cx;
    assert_eq!(cx.x[REG_RETURN], 0);
    assert_eq!(cx.x[REG_SYSCALL_ID], 0);
    assert_eq!(cx.x[5], 0);
    assert_eq!(cx.x[REG_SP], HEAP);
    assert_eq!(cx.sepc, 0x1000);
}
