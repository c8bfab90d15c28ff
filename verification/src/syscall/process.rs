//! System calls that manage the calling task: its time, its accounting, its
//! address space and its place on the processor.
//!
//! Every function here acts for the task that is running. The task, the
//! ready queue, the time and the buffers in the task's memory are handed in
//! by the caller.

use vstd::prelude::*;
use crate::config::MAX_SYSCALL_NUM;
use crate::mm::address::VirtAddr;
use crate::mm::permission::{check_port, permission_of_port};
use crate::syscall::buffer::{
    contents, copy_to_segments, le_bytes, lemma_le_bytes_len, push_le_bytes, rows, total_len,
    written,
};
use crate::syscall::error::SyscallError;
use crate::syscall::mapping::{mmap_outcome, mmap_space, munmap_outcome, munmap_space};
use crate::task::manager::{fetch_step, TaskManager, TaskManagerInterface};
use crate::task::task::{brk_accepts, brk_moved, TaskControlBlock, TaskStatus, TaskView};
use crate::task::{
    exit_current_and_run_next, exited, next_running, suspend_current_and_run_next, suspended,
};

verus! {

/// A point in time, as seconds and microseconds since the clock started.
#[derive(Clone, Copy, Debug, PartialEq, Eq, Structural)]
pub struct TimeVal {
    pub sec: usize,
    pub usec: usize,
}

/// The number of bytes of a `TimeVal` in a task's memory.
pub const TIME_VAL_BYTES: usize = 16;

impl TimeVal {
    /// The time `us` microseconds after the clock started.
    pub open spec fn of_micros(us: usize) -> TimeVal {
        TimeVal { sec: us / 1_000_000, usec: us % 1_000_000 }
    }

    /// Whether `self` is the same time as `other` or an earlier one.
    pub open spec fn not_after(self, other: TimeVal) -> bool {
        self.sec < other.sec || (self.sec == other.sec && self.usec <= other.usec)
    }

    /// The bytes of this value in a task's memory: the seconds and then the
    /// microseconds, each as eight little-endian bytes.
    pub open spec fn bytes(self) -> Seq<u8> {
        le_bytes(self.sec as nat, 8) + le_bytes(self.usec as nat, 8)
    }

    /// Splits a count of microseconds into seconds and microseconds.
    pub fn from_micros(us: usize) -> (time: TimeVal)
        ensures
            time == TimeVal::of_micros(us),
    {
        TimeVal { sec: us / 1_000_000, usec: us % 1_000_000 }
    }

    /// The bytes of this value as they are written to a task's memory.
    pub fn to_bytes(&self) -> (bytes: Vec<u8>)
        ensures
            bytes@ == self.bytes(),
            bytes@.len() == TIME_VAL_BYTES,
    {
        let mut bytes: Vec<u8> = Vec::new();
        push_le_bytes(&mut bytes, self.sec as u64, 8);
        push_le_bytes(&mut bytes, self.usec as u64, 8);
        proof {
            assert(bytes@ =~= self.bytes());
            lemma_le_bytes_len(self.sec as nat, 8);
            lemma_le_bytes_len(self.usec as nat, 8);
        }
        bytes
    }
}

/// A clock that never runs backwards gives times that never run backwards:
/// of two readings the earlier one gives a time that is not after the time
/// of the later one.
pub proof fn lemma_time_val_monotone(earlier: usize, later: usize)
    requires
        earlier <= later,
    ensures
        TimeVal::of_micros(earlier).not_after(TimeVal::of_micros(later)),
{
}

/// The model of a `TaskInfo`.
pub struct TaskInfoView {
    pub status: TaskStatus,
    pub syscall_times: Seq<u32>,
    pub time: usize,
}

/// What a task learns about itself: its status, how often it has made each
/// system call, and for how many milliseconds it has been running since it
/// first ran.
pub struct TaskInfo {
    status: TaskStatus,
    syscall_times: [u32; MAX_SYSCALL_NUM],
    time: usize,
}

/// The number of bytes of a `TaskInfo` in a task's memory.
pub const TASK_INFO_BYTES: usize = 2016;

/// The number that stands for a status in a task's memory.
pub open spec fn status_code(status: TaskStatus) -> nat {
    match status {
        TaskStatus::UnInit => 0,
        TaskStatus::Ready => 1,
        TaskStatus::Running => 2,
        TaskStatus::Exited => 3,
    }
}

/// The given counters, each as four little-endian bytes.
pub open spec fn counter_bytes(times: Seq<u32>) -> Seq<u8>
    decreases times.len(),
{
    if times.len() == 0 {
        Seq::empty()
    } else {
        counter_bytes(times.drop_last()) + le_bytes(times.last() as nat, 4)
    }
}

/// Each counter takes four bytes.
pub proof fn lemma_counter_bytes_len(times: Seq<u32>)
    ensures
        counter_bytes(times).len() == 4 * times.len(),
    decreases times.len(),
{
    if times.len() > 0 {
        lemma_counter_bytes_len(times.drop_last());
        lemma_le_bytes_len(times.last() as nat, 4);
    }
}

/// What the task `v` learns about itself at time `now_ms`. A task that asks
/// is running. The time that has passed is counted from its first run; for a
/// task that has never run it is zero.
pub open spec fn info_of(v: TaskView, now_ms: usize) -> TaskInfoView {
    TaskInfoView {
        status: TaskStatus::Running,
        syscall_times: v.syscall_times,
        time: match v.first_run_time {
            Some(first) => (now_ms - first) as usize,
            None => 0,
        },
    }
}

impl TaskInfoView {
    /// The bytes of this value in a task's memory: the status as four
    /// bytes, the counters as four bytes each, four bytes of padding, and
    /// the time as eight bytes, all little-endian.
    pub open spec fn bytes(self) -> Seq<u8> {
        le_bytes(status_code(self.status), 4) + counter_bytes(self.syscall_times) + le_bytes(0, 4)
            + le_bytes(self.time as nat, 8)
    }
}

impl TaskInfo {
    /// The model of this value.
    pub closed spec fn view(&self) -> TaskInfoView {
        TaskInfoView { status: self.status, syscall_times: self.syscall_times@, time: self.time }
    }

    /// The status of the task.
    pub fn status(&self) -> (status: TaskStatus)
        ensures
            status == self@.status,
    {
        self.status
    }

    /// How often the task has made system call `id`.
    pub fn syscall_times(&self, id: usize) -> (times: u32)
        requires
            id < MAX_SYSCALL_NUM,
        ensures
            self@.syscall_times.len() == MAX_SYSCALL_NUM,
            times == self@.syscall_times[id as int],
    {
        self.syscall_times[id]
    }

    /// The milliseconds since the task first ran.
    pub fn time(&self) -> (time: usize)
        ensures
            time == self@.time,
    {
        self.time
    }

    /// The bytes of this value as they are written to a task's memory.
    pub fn to_bytes(&self) -> (bytes: Vec<u8>)
        ensures
            bytes@ == self@.bytes(),
            bytes@.len() == TASK_INFO_BYTES,
    {
        let mut bytes: Vec<u8> = Vec::new();
        let code: u64 = match self.status {
            TaskStatus::UnInit => 0,
            TaskStatus::Ready => 1,
            TaskStatus::Running => 2,
            TaskStatus::Exited => 3,
        };
        push_le_bytes(&mut bytes, code, 4);
        let ghost head: Seq<u8> = bytes@;
        let ghost times: Seq<u32> = self.syscall_times@;
        let mut i: usize = 0;
        assert(times.take(0) =~= Seq::<u32>::empty());
        assert(bytes@ =~= head + counter_bytes(times.take(0)));
        while i < MAX_SYSCALL_NUM
            invariant
                0 <= i <= MAX_SYSCALL_NUM,
                times == self.syscall_times@,
                times.len() == MAX_SYSCALL_NUM,
                bytes@ == head + counter_bytes(times.take(i as int)),
            decreases MAX_SYSCALL_NUM - i,
        {
            let ghost before: Seq<u8> = bytes@;
            push_le_bytes(&mut bytes, self.syscall_times[i] as u64, 4);
            proof {
                let more = times.take(i + 1);
                assert(more.drop_last() =~= times.take(i as int));
                assert(more.last() == times[i as int]);
                assert(bytes@ =~= head + counter_bytes(more));
            }
            i = i + 1;
        }
        assert(times.take(MAX_SYSCALL_NUM as int) =~= times);
        push_le_bytes(&mut bytes, 0, 4);
        push_le_bytes(&mut bytes, self.time as u64, 8);
        proof {
            assert(bytes@ =~= self@.bytes());
            lemma_le_bytes_len(status_code(self.status), 4);
            lemma_counter_bytes_len(times);
            lemma_le_bytes_len(0, 4);
            lemma_le_bytes_len(self.time as nat, 8);
        }
        bytes
    }
}

/// What the task learns about itself at time `now_ms`.
pub fn task_info(task: &TaskControlBlock, now_ms: usize) -> (info: TaskInfo)
    requires
        task@.first_run_time matches Some(first) ==> first <= now_ms,
    ensures
        info@ == info_of(task@, now_ms),
{
    let time: usize = match task.first_run_time {
        Some(first) => now_ms - first,
        None => 0,
    };
    TaskInfo { status: TaskStatus::Running, syscall_times: task.syscall_times, time }
}

/// The running task exits with code `exit_code`. The task is handed back
/// marked as exited, together with the task that runs next, if one is ready.
/// The caller switches to that task and never comes back to the one that
/// exited.
pub fn sys_exit(
    current: TaskControlBlock,
    exit_code: i32,
    manager: &mut TaskManager,
    now_ms: usize,
) -> (gone_and_next: (TaskControlBlock, Option<TaskControlBlock>))
    ensures
        gone_and_next.0@ == exited(current@, exit_code),
        fetch_step(
            old(manager).ready(),
            TaskManager::selects(old(manager).ready()),
            next_running(old(manager).ready(), now_ms),
            final(manager).ready(),
            gone_and_next.1,
        ),
{
    exit_current_and_run_next(current, exit_code, manager, now_ms)
}

/// The running task gives up the rest of its time slice. It joins the ready
/// queue, and the task that runs next is handed back beside the result 0.
pub fn sys_yield(
    current: TaskControlBlock,
    manager: &mut TaskManager,
    now_ms: usize,
) -> (result: (isize, TaskControlBlock))
    ensures
        result.0 == 0,
        result.1@ == next_running(old(manager).ready().push(suspended(current@)), now_ms),
        final(manager).ready() == old(manager).ready().push(suspended(current@)).remove(
            TaskManager::selects(old(manager).ready().push(suspended(current@))),
        ),
{
    let next = suspend_current_and_run_next(current, manager, now_ms);
    (0, next)
}

/// Writes the time `now_us` microseconds after the clock started, as a
/// `TimeVal`, to the buffer that the segments `ts` make up. Always returns 0.
pub fn sys_get_time(now_us: usize, ts: &mut Vec<Vec<u8>>, _tz: usize) -> (status: isize)
    ensures
        status == 0,
        rows(final(ts)@) == written(TimeVal::of_micros(now_us).bytes(), rows(old(ts)@)),
        total_len(rows(old(ts)@)) == TIME_VAL_BYTES ==> contents(rows(final(ts)@))
            == TimeVal::of_micros(now_us).bytes(),
{
    let time_val = TimeVal::from_micros(now_us);
    let bytes = time_val.to_bytes();
    copy_to_segments(&bytes, ts);
    0
}

/// Writes what the task learns about itself at time `now_ms`, as a
/// `TaskInfo`, to the buffer that the segments `ti` make up. Always
/// returns 0.
pub fn sys_task_info(
    task: &TaskControlBlock,
    now_ms: usize,
    ti: &mut Vec<Vec<u8>>,
) -> (status: isize)
    requires
        task@.first_run_time matches Some(first) ==> first <= now_ms,
    ensures
        status == 0,
        rows(final(ti)@) == written(info_of(task@, now_ms).bytes(), rows(old(ti)@)),
        total_len(rows(old(ti)@)) == TASK_INFO_BYTES ==> contents(rows(final(ti)@)) == info_of(
            task@,
            now_ms,
        ).bytes(),
{
    let info = task_info(task, now_ms);
    let bytes = info.to_bytes();
    copy_to_segments(&bytes, ti);
    0
}

/// Maps `len` bytes from address `start` into the address space of `task`,
/// with the permission that the port bits `port` ask for.
pub fn mmap(
    task: &mut TaskControlBlock,
    start: usize,
    len: usize,
    port: usize,
) -> (outcome: Result<(), SyscallError>)
    requires
        start + len <= usize::MAX,
    ensures
        outcome == mmap_outcome(old(task)@.space, start, len, port),
        final(task)@ == (TaskView {
            space: mmap_space(old(task)@.space, start, len, port),
            ..old(task)@
        }),
{
    let start_va = VirtAddr(start);
    if !start_va.aligned() || !check_port(port) {
        return Err(SyscallError::InvalidArgument);
    }
    let end_va = VirtAddr(start + len);
    let permission = permission_of_port(port);
    if task.memory_set.conflicts_check(start_va, end_va) {
        return Err(SyscallError::RegionConflict);
    }
    task.memory_set.insert_framed_area(start_va, end_va, permission);
    Ok(())
}

/// Unmaps `len` bytes from address `start` from the address space of `task`.
pub fn munmap(
    task: &mut TaskControlBlock,
    start: usize,
    len: usize,
) -> (outcome: Result<(), SyscallError>)
    requires
        start + len <= usize::MAX,
    ensures
        outcome == munmap_outcome(old(task)@.space, start, len),
        final(task)@ == (TaskView {
            space: munmap_space(old(task)@.space, start, len),
            ..old(task)@
        }),
{
    let start_va = VirtAddr(start);
    if !start_va.aligned() {
        return Err(SyscallError::InvalidArgument);
    }
    let end_va = VirtAddr(start + len);
    if task.memory_set.remove_framed_area(start_va, end_va) == 0 {
        Ok(())
    } else {
        Err(SyscallError::RegionNotFullyMapped)
    }
}

/// Moves the end of the heap of `task` by `size` bytes and returns the
/// address at which it ended before.
pub fn sbrk(task: &mut TaskControlBlock, size: i32) -> (outcome: Result<usize, SyscallError>)
    ensures
        brk_accepts(old(task)@, size) ==> outcome == Ok::<usize, SyscallError>(
            old(task)@.program_brk,
        ) && final(task)@ == brk_moved(old(task)@, size),
        !brk_accepts(old(task)@, size) ==> outcome == Err::<usize, SyscallError>(
            SyscallError::BreakAdjustmentRejected,
        ) && final(task)@ == old(task)@,
{
    match task.change_program_brk(size) {
        Some(old_brk) => Ok(old_brk),
        None => Err(SyscallError::BreakAdjustmentRejected),
    }
}

/// The system call that maps memory: returns 0 if the request is granted
/// and -1 if it is refused.
pub fn sys_mmap(
    task: &mut TaskControlBlock,
    start: usize,
    len: usize,
    port: usize,
) -> (status: isize)
    requires
        start + len <= usize::MAX,
    ensures
        mmap_outcome(old(task)@.space, start, len, port) is Ok ==> status == 0,
        mmap_outcome(old(task)@.space, start, len, port) is Err ==> status == -1,
        final(task)@ == (TaskView {
            space: mmap_space(old(task)@.space, start, len, port),
            ..old(task)@
        }),
{
    match mmap(task, start, len, port) {
        Ok(_) => 0,
        Err(_) => -1,
    }
}

/// The system call that unmaps memory: returns 0 if the request is granted
/// and -1 if it is refused.
pub fn sys_munmap(task: &mut TaskControlBlock, start: usize, len: usize) -> (status: isize)
    requires
        start + len <= usize::MAX,
    ensures
        munmap_outcome(old(task)@.space, start, len) is Ok ==> status == 0,
        munmap_outcome(old(task)@.space, start, len) is Err ==> status == -1,
        final(task)@ == (TaskView {
            space: munmap_space(old(task)@.space, start, len),
            ..old(task)@
        }),
{
    match munmap(task, start, len) {
        Ok(_) => 0,
        Err(_) => -1,
    }
}

/// The system call that moves the end of the heap: returns the address at
/// which the heap ended before, or -1 if the move is refused.
pub fn sys_sbrk(task: &mut TaskControlBlock, size: i32) -> (status: isize)
    ensures
        brk_accepts(old(task)@, size) ==> status == old(task)@.program_brk as isize
            && final(task)@ == brk_moved(old(task)@, size),
        !brk_accepts(old(task)@, size) ==> status == -1 && final(task)@ == old(task)@,
{
    match sbrk(task, size) {
        Ok(old_brk) => old_brk as isize,
        Err(_) => -1,
    }
}

} // verus!
