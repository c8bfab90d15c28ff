use os_core::config::BIG_STRIDE;
use os_core::syscall::process::{sys_exit, sys_yield};
use os_core::task::manager::{
    add_task, fetch_task, TaskManager, TaskManagerFIFO, TaskManagerInterface, TaskManagerStride,
};
use os_core::task::stride::{charge, pass_of, stride_before, HALF_RANGE};
use os_core::task::task::{TaskControlBlock, TaskStatus};
use os_core::task::{exit_current_and_run_next, run_next, suspend_current_and_run_next};

fn task_with_stride(pid: usize, stride: u64, pass: u64) -> TaskControlBlock {
    let mut task = TaskControlBlock::new(pid, 1, 0);
    task.stride = stride;
    task.pass = pass;
    task
}

#[test]
fn new_task_starts_ready_with_zero_stride() {
    let task = TaskControlBlock::new(7, 4, 0x8000);
    assert_eq!(task.pid, 7);
    assert_eq!(task.status, TaskStatus::Ready);
    assert_eq!(task.stride, 0);
    assert_eq!(task.pass, BIG_STRIDE / 4);
    assert_eq!(task.first_run_time, None);
    assert_eq!(task.exit_code, 0);
    assert_eq!(task.heap_bottom, 0x8000);
    assert_eq!(task.program_brk, 0x8000);
    assert!(task.syscall_times.iter().all(|&n| n == 0));
}

#[test]
fn pass_is_big_stride_divided_by_priority() {
    assert_eq!(BIG_STRIDE, 0x10_0000);
    assert_eq!(pass_of(1), 0x10_0000);
    assert_eq!(pass_of(2), 0x8_0000);
    assert_eq!(pass_of(4), 0x4_0000);
    assert_eq!(pass_of(3), 349_525);
    assert_eq!(pass_of(u64::MAX), 0);
}

#[test]
fn stride_comparison_follows_the_sign_of_the_wrapped_difference() {
    assert!(stride_before(1, 2));
    assert!(!stride_before(2, 1));
    assert!(!stride_before(5, 5));
    // Past the top of the counter the small number is the later stride.
    assert!(stride_before(u64::MAX - 10, 5));
    assert!(!stride_before(5, u64::MAX - 10));
    assert!(stride_before(u64::MAX, 0));
    // Exactly half the range apart: the difference is the least signed
    // number either way round.
    assert_eq!(HALF_RANGE, 1u64 << 63);
    assert!(stride_before(0, HALF_RANGE));
    assert!(stride_before(HALF_RANGE, 0));
    assert!(!stride_before(HALF_RANGE - 1, 0));
    assert!(stride_before(0, HALF_RANGE - 1));
}

#[test]
fn charging_wraps_around() {
    assert_eq!(charge(10, 5), 15);
    assert_eq!(charge(u64::MAX, 1), 0);
    assert_eq!(charge(u64::MAX - 3, 10), 6);
    assert_eq!(charge(0, 0), 0);
}

#[test]
fn update_stride_adds_exactly_one_pass() {
    let mut task = TaskControlBlock::new(1, 2, 0);
    task.update_stride();
    assert_eq!(task.stride, BIG_STRIDE / 2);
    task.update_stride();
    assert_eq!(task.stride, BIG_STRIDE);
    let mut wrapping = task_with_stride(2, u64::MAX - 1, 5);
    wrapping.update_stride();
    assert_eq!(wrapping.stride, 3);
}

#[test]
fn fetch_from_an_empty_queue_gives_nothing() {
    let mut stride = TaskManagerStride::new();
    assert!(stride.fetch().is_none());
    let mut fifo = TaskManagerFIFO::new();
    assert!(fifo.fetch().is_none());
    let mut manager: TaskManager = TaskManager::new();
    assert!(fetch_task(&mut manager).is_none());
}

#[test]
fn fifo_serves_in_arrival_order_and_charges_nothing() {
    let mut fifo = TaskManagerFIFO::new();
    fifo.add(task_with_stride(1, 500, 7));
    fifo.add(task_with_stride(2, 0, 7));
    fifo.add(task_with_stride(3, 100, 7));
    let first = fifo.fetch().unwrap();
    assert_eq!((first.pid, first.stride), (1, 500));
    let second = fifo.fetch().unwrap();
    assert_eq!((second.pid, second.stride), (2, 0));
    let third = fifo.fetch().unwrap();
    assert_eq!((third.pid, third.stride), (3, 100));
    assert!(fifo.fetch().is_none());
}

#[test]
fn stride_policy_serves_the_least_stride_and_charges_it() {
    let mut manager = TaskManagerStride::new();
    manager.add(task_with_stride(1, 300, 10));
    manager.add(task_with_stride(2, 100, 20));
    manager.add(task_with_stride(3, 200, 30));
    let first = manager.fetch().unwrap();
    assert_eq!((first.pid, first.stride, first.pass), (2, 120, 20));
    let second = manager.fetch().unwrap();
    assert_eq!((second.pid, second.stride), (3, 230));
    let third = manager.fetch().unwrap();
    assert_eq!((third.pid, third.stride), (1, 310));
    assert!(manager.fetch().is_none());
}

#[test]
fn equal_strides_are_served_in_the_order_they_were_added() {
    let mut manager = TaskManagerStride::new();
    manager.add(task_with_stride(5, 40, 1));
    manager.add(task_with_stride(9, 40, 1));
    manager.add(task_with_stride(2, 40, 1));
    assert_eq!(manager.fetch().unwrap().pid, 5);
    assert_eq!(manager.fetch().unwrap().pid, 9);
    assert_eq!(manager.fetch().unwrap().pid, 2);
    // The same queue built again is served in the same order.
    let mut again = TaskManagerStride::new();
    again.add(task_with_stride(5, 40, 1));
    again.add(task_with_stride(9, 40, 1));
    again.add(task_with_stride(2, 40, 1));
    assert_eq!(again.fetch().unwrap().pid, 5);
    assert_eq!(again.fetch().unwrap().pid, 9);
    assert_eq!(again.fetch().unwrap().pid, 2);
}

#[test]
fn stride_policy_orders_strides_across_the_wrap() {
    let mut manager = TaskManagerStride::new();
    // Task 1 has already wrapped around: it is ahead of the other two.
    manager.add(task_with_stride(1, 4, 16));
    manager.add(task_with_stride(2, u64::MAX - 7, 16));
    manager.add(task_with_stride(3, u64::MAX - 20, 16));
    let first = manager.fetch().unwrap();
    assert_eq!((first.pid, first.stride), (3, u64::MAX - 4));
    let second = manager.fetch().unwrap();
    assert_eq!((second.pid, second.stride), (2, 8));
    let third = manager.fetch().unwrap();
    assert_eq!((third.pid, third.stride), (1, 20));
}

#[test]
fn a_fetched_task_is_gone_until_it_is_added_again() {
    let mut manager = TaskManagerStride::new();
    manager.add(task_with_stride(1, 0, 100));
    manager.add(task_with_stride(2, 50, 100));
    let first = manager.fetch().unwrap();
    assert_eq!(first.pid, 1);
    // Only task 2 is left in the queue, at stride 50; task 1 is at 100.
    let second = manager.fetch().unwrap();
    assert_eq!(second.pid, 2);
    assert!(manager.fetch().is_none());
    manager.add(first);
    let back = manager.fetch().unwrap();
    assert_eq!((back.pid, back.stride), (1, 200));
}

#[test]
fn add_task_and_fetch_task_use_the_stride_policy() {
    let mut manager: TaskManager = TaskManager::new();
    add_task(&mut manager, task_with_stride(1, 9, 3));
    add_task(&mut manager, task_with_stride(2, 8, 3));
    let first = fetch_task(&mut manager).unwrap();
    assert_eq!((first.pid, first.stride), (2, 11));
    let second = fetch_task(&mut manager).unwrap();
    assert_eq!((second.pid, second.stride), (1, 12));
    assert!(fetch_task(&mut manager).is_none());
}

#[test]
fn three_priorities_share_seven_time_slices_in_proportion() {
    let mut manager = TaskManagerStride::new();
    manager.add(TaskControlBlock::new(1, 1, 0));
    manager.add(TaskControlBlock::new(2, 2, 0));
    manager.add(TaskControlBlock::new(4, 4, 0));
    let mut order: Vec<usize> = Vec::new();
    for _ in 0..7 {
        let task = manager.fetch().unwrap();
        order.push(task.pid);
        manager.add(task);
    }
    assert_eq!(order, vec![1, 2, 4, 4, 2, 4, 4]);
    let runs = |pid: usize| order.iter().filter(|&&p| p == pid).count();
    assert_eq!(runs(1), 1);
    assert_eq!(runs(2), 2);
    assert_eq!(runs(4), 4);
    assert!(runs(4) >= runs(2) && runs(2) >= runs(1));
    // After seven slices every task has used one full big stride.
    for _ in 0..3 {
        let task = manager.fetch().unwrap();
        assert_eq!(task.stride - task.pass, BIG_STRIDE);
    }
}

#[test]
fn charging_the_least_stride_keeps_strides_within_one_big_stride() {
    let mut manager = TaskManagerStride::new();
    manager.add(TaskControlBlock::new(1, 1, 0));
    manager.add(TaskControlBlock::new(2, 3, 0));
    manager.add(TaskControlBlock::new(3, 7, 0));
    let mut strides = [0u64; 4];
    for _ in 0..200 {
        let task = manager.fetch().unwrap();
        strides[task.pid] = task.stride;
        let least = strides[1].min(strides[2]).min(strides[3]);
        let most = strides[1].max(strides[2]).max(strides[3]);
        assert!(most - least <= BIG_STRIDE);
        manager.add(task);
    }
}

#[test]
fn run_next_marks_the_task_running_and_remembers_its_first_run() {
    let mut manager: TaskManager = TaskManager::new();
    assert!(run_next(&mut manager, 5).is_none());
    manager.add(TaskControlBlock::new(1, 1, 0));
    let first = run_next(&mut manager, 40).unwrap();
    assert_eq!(first.status, TaskStatus::Running);
    assert_eq!(first.first_run_time, Some(40));
    assert_eq!(first.stride, BIG_STRIDE);
    let mut again = first;
    again.status = TaskStatus::Ready;
    manager.add(again);
    let second = run_next(&mut manager, 90).unwrap();
    assert_eq!(second.status, TaskStatus::Running);
    assert_eq!(second.first_run_time, Some(40));
}

#[test]
fn yield_puts_the_caller_behind_the_ready_tasks() {
    let mut manager: TaskManager = TaskManager::new();
    manager.add(TaskControlBlock::new(2, 1, 0));
    let mut current = TaskControlBlock::new(1, 1, 0);
    current.mark_running(10);
    current.update_stride();
    let (status, next) = sys_yield(current, &mut manager, 20);
    assert_eq!(status, 0);
    assert_eq!(next.pid, 2);
    assert_eq!(next.status, TaskStatus::Running);
    assert_eq!(next.first_run_time, Some(20));
    // The task that gave up waits in the queue, ready.
    let waiting = manager.fetch().unwrap();
    assert_eq!(waiting.pid, 1);
    assert_eq!(waiting.status, TaskStatus::Ready);
    assert_eq!(waiting.first_run_time, Some(10));
    assert!(manager.fetch().is_none());
}

#[test]
fn a_task_that_yields_alone_runs_again_at_once() {
    let mut manager: TaskManager = TaskManager::new();
    let mut current = TaskControlBlock::new(1, 2, 0);
    current.mark_running(3);
    let (status, next) = sys_yield(current, &mut manager, 8);
    assert_eq!(status, 0);
    assert_eq!(next.pid, 1);
    assert_eq!(next.status, TaskStatus::Running);
    assert_eq!(next.first_run_time, Some(3));
    assert_eq!(next.stride, BIG_STRIDE / 2);
    assert!(manager.fetch().is_none());
    let next = suspend_current_and_run_next(next, &mut manager, 9);
    assert_eq!((next.pid, next.stride), (1, BIG_STRIDE));
}

#[test]
fn exit_marks_the_task_and_never_queues_it_again() {
    let mut manager: TaskManager = TaskManager::new();
    manager.add(TaskControlBlock::new(2, 1, 0));
    let mut current = TaskControlBlock::new(1, 1, 0);
    current.mark_running(1);
    let (gone, next) = sys_exit(current, -3, &mut manager, 50);
    assert_eq!(gone.pid, 1);
    assert_eq!(gone.status, TaskStatus::Exited);
    assert_eq!(gone.exit_code, -3);
    let next = next.unwrap();
    assert_eq!(next.pid, 2);
    assert_eq!(next.status, TaskStatus::Running);
    assert!(manager.fetch().is_none());
    // The last task exits: nothing is left to run.
    let (gone, next) = exit_current_and_run_next(next, 0, &mut manager, 60);
    assert_eq!((gone.pid, gone.status, gone.exit_code), (2, TaskStatus::Exited, 0));
    assert!(next.is_none());
}
