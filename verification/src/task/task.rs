//! The task control block and its mathematical model.

use vstd::prelude::*;
use crate::config::{BIG_STRIDE, MAX_SYSCALL_NUM};
use crate::mm::address::{page_ceil, VirtAddr};
use crate::mm::memory_set::{all_mapped, any_mapped, map_range, unmap_range, MemorySet};
use crate::mm::permission::{MapPermission, PERM_R, PERM_U, PERM_W};
use crate::task::stride::{charge, charged, pass_of};

verus! {

/// Where a task stands in its life cycle.
#[derive(Clone, Copy, Debug, PartialEq, Eq, Structural)]
pub enum TaskStatus {
    UnInit,
    Ready,
    Running,
    Exited,
}

/// The mathematical model of a task: what the contracts of this library say
/// about a task control block.
#[verifier::ext_equal]
pub struct TaskView {
    pub pid: usize,
    pub status: TaskStatus,
    pub stride: u64,
    pub pass: u64,
    pub syscall_times: Seq<u32>,
    pub first_run_time: Option<usize>,
    pub exit_code: i32,
    pub space: Map<usize, MapPermission>,
    pub heap_bottom: usize,
    pub program_brk: usize,
}

/// One schedulable task with its accounting and its address space.
pub struct TaskControlBlock {
    /// The identity of the task.
    pub pid: usize,
    /// Where the task stands in its life cycle.
    pub status: TaskStatus,
    /// The virtual run time that the task has used so far.
    pub stride: u64,
    /// What the stride grows by each time the task is picked to run.
    pub pass: u64,
    /// How often the task has made each system call, by system-call id.
    pub syscall_times: [u32; MAX_SYSCALL_NUM],
    /// The time in milliseconds at which the task first ran, once it has.
    pub first_run_time: Option<usize>,
    /// The code that the task handed over when it exited.
    pub exit_code: i32,
    /// The address space that the task owns.
    pub memory_set: MemorySet,
    /// The lowest address of the heap.
    pub heap_bottom: usize,
    /// The address at which the heap ends now.
    pub program_brk: usize,
}

/// The permission of heap pages: read and write, from user mode.
pub open spec fn heap_permission() -> MapPermission {
    MapPermission { bits: 0x16 }
}

/// The counters `times` after one more call of system call `id`.
pub open spec fn counted(times: Seq<u32>, id: usize) -> Seq<u32> {
    times.update(id as int, (times[id as int] + 1) as u32)
}

/// The task `v` once it has been picked to run at time `now_ms`: it is
/// running, and its first run is remembered if this is it.
pub open spec fn started(v: TaskView, now_ms: usize) -> TaskView {
    TaskView {
        status: TaskStatus::Running,
        first_run_time: if v.first_run_time is Some {
            v.first_run_time
        } else {
            Some(now_ms)
        },
        ..v
    }
}

/// Whether the heap of `v` may be moved by `size` bytes. Growth must stay
/// inside the address range and must not reach a page that is mapped
/// already; a shrink must not go below the bottom of the heap, and every
/// page it gives up must be mapped.
pub open spec fn brk_accepts(v: TaskView, size: i32) -> bool {
    if size >= 0 {
        &&& v.program_brk + size <= usize::MAX
        &&& !any_mapped(
            v.space,
            page_ceil(v.program_brk),
            page_ceil((v.program_brk + size) as usize),
        )
    } else {
        &&& v.program_brk + size >= v.heap_bottom
        &&& all_mapped(
            v.space,
            page_ceil((v.program_brk + size) as usize),
            page_ceil(v.program_brk),
        )
    }
}

/// The task `v` after its heap has been moved by `size` bytes.
pub open spec fn brk_moved(v: TaskView, size: i32) -> TaskView {
    let new_brk = (v.program_brk + size) as usize;
    TaskView {
        program_brk: new_brk,
        space: if size >= 0 {
            map_range(v.space, page_ceil(v.program_brk), page_ceil(new_brk), heap_permission())
        } else {
            unmap_range(v.space, page_ceil(new_brk), page_ceil(v.program_brk))
        },
        ..v
    }
}

impl TaskControlBlock {
    /// What the contracts say about the task.
    pub open spec fn view(&self) -> TaskView {
        TaskView {
            pid: self.pid,
            status: self.status,
            stride: self.stride,
            pass: self.pass,
            syscall_times: self.syscall_times@,
            first_run_time: self.first_run_time,
            exit_code: self.exit_code,
            space: self.memory_set@,
            heap_bottom: self.heap_bottom,
            program_brk: self.program_brk,
        }
    }

    /// A fresh task: ready, never run, with stride zero, an empty address
    /// space and an empty heap at `heap_bottom`. Its pass is `BIG_STRIDE`
    /// divided by its priority.
    pub fn new(pid: usize, priority: u64, heap_bottom: usize) -> (task: TaskControlBlock)
        requires
            priority >= 1,
        ensures
            task@ == (TaskView {
                pid,
                status: TaskStatus::Ready,
                stride: 0,
                pass: BIG_STRIDE / priority,
                syscall_times: Seq::new(MAX_SYSCALL_NUM as nat, |i: int| 0u32),
                first_run_time: None,
                exit_code: 0,
                space: Map::empty(),
                heap_bottom,
                program_brk: heap_bottom,
            }),
    {
        let task = TaskControlBlock {
            pid,
            status: TaskStatus::Ready,
            stride: 0,
            pass: pass_of(priority),
            syscall_times: [0u32; MAX_SYSCALL_NUM],
            first_run_time: None,
            exit_code: 0,
            memory_set: MemorySet::new_bare(),
            heap_bottom,
            program_brk: heap_bottom,
        };
        assert(task@.syscall_times =~= Seq::new(MAX_SYSCALL_NUM as nat, |i: int| 0u32));
        task
    }

    /// Charges the task for the time slice it is about to use: the stride
    /// grows by the pass, wrapping around at the top of the counter.
    pub fn update_stride(&mut self)
        ensures
            final(self)@ == (TaskView {
                stride: charged(old(self)@.stride, old(self)@.pass),
                ..old(self)@
            }),
    {
        self.stride = charge(self.stride, self.pass);
    }

    /// Counts one more call of system call `id`.
    pub fn record_syscall(&mut self, id: usize)
        requires
            id < MAX_SYSCALL_NUM,
            old(self)@.syscall_times[id as int] < u32::MAX,
        ensures
            final(self)@ == (TaskView {
                syscall_times: counted(old(self)@.syscall_times, id),
                ..old(self)@
            }),
    {
        let seen: u32 = self.syscall_times[id];
        self.syscall_times[id] = seen + 1;
    }

    /// Marks the task as running from time `now_ms` on.
    pub fn mark_running(&mut self, now_ms: usize)
        ensures
            final(self)@ == started(old(self)@, now_ms),
    {
        self.status = TaskStatus::Running;
        if self.first_run_time.is_none() {
            self.first_run_time = Some(now_ms);
        }
    }

    /// Moves the end of the heap by `size` bytes and returns the address at
    /// which it ended before. Where the move is not accepted, nothing
    /// changes and the result is `None`.
    pub fn change_program_brk(&mut self, size: i32) -> (old_brk: Option<usize>)
        ensures
            brk_accepts(old(self)@, size) ==> old_brk == Some(old(self)@.program_brk)
                && final(self)@ == brk_moved(old(self)@, size),
            !brk_accepts(old(self)@, size) ==> old_brk is None && final(self)@ == old(self)@,
    {
        let old_brk: usize = self.program_brk;
        if size >= 0 {
            let grow: usize = size as usize;
            if grow > usize::MAX - old_brk {
                return None;
            }
            let new_brk: usize = old_brk + grow;
            let first = VirtAddr(old_brk).ceil();
            let last = VirtAddr(new_brk).ceil();
            if self.memory_set.range_conflicts(first, last) {
                return None;
            }
            let permission = MapPermission { bits: PERM_R | PERM_W | PERM_U };
            assert(PERM_R | PERM_W | PERM_U == 0x16u8) by (bit_vector);
            self.memory_set.map_pages(first, last, permission);
            self.program_brk = new_brk;
            Some(old_brk)
        } else {
            let wide: i64 = size as i64;
            let shrink: usize = (-wide) as usize;
            if old_brk < self.heap_bottom || shrink > old_brk - self.heap_bottom {
                return None;
            }
            let new_brk: usize = old_brk - shrink;
            let first = VirtAddr(new_brk).ceil();
            let last = VirtAddr(old_brk).ceil();
            if !self.memory_set.unmap_pages(first, last) {
                return None;
            }
            self.program_brk = new_brk;
            Some(old_brk)
        }
    }
}

/// How often `id` stands in `ids`.
pub open spec fn occurrences(ids: Seq<usize>, id: usize) -> nat
    decreases ids.len(),
{
    if ids.len() == 0 {
        0
    } else {
        occurrences(ids.drop_last(), id) + if ids.last() == id {
            1nat
        } else {
            0nat
        }
    }
}

/// The counters `times` after the system calls `ids` have been counted one
/// after the other.
pub open spec fn counted_all(times: Seq<u32>, ids: Seq<usize>) -> Seq<u32>
    decreases ids.len(),
{
    if ids.len() == 0 {
        times
    } else {
        counted(counted_all(times, ids.drop_last()), ids.last())
    }
}

/// Each counter grows by exactly one for each call of its system call: after
/// the calls `ids` have been counted, the counter of `id` has grown by the
/// number of times that `id` stands in `ids`, as long as no counter runs over
/// the top of its range.
pub proof fn lemma_counters_count_calls(times: Seq<u32>, ids: Seq<usize>, id: usize)
    requires
        times.len() == MAX_SYSCALL_NUM,
        id < MAX_SYSCALL_NUM,
        forall|k: int| 0 <= k < ids.len() ==> #[trigger] ids[k] < MAX_SYSCALL_NUM,
        times[id as int] + occurrences(ids, id) <= u32::MAX,
    ensures
        counted_all(times, ids).len() == MAX_SYSCALL_NUM,
        counted_all(times, ids)[id as int] == times[id as int] + occurrences(ids, id),
    decreases ids.len(),
{
    if ids.len() > 0 {
        let front = ids.drop_last();
        assert forall|k: int| 0 <= k < front.len() implies #[trigger] front[k]
            < MAX_SYSCALL_NUM by {
            assert(front[k] == ids[k]);
        }
        assert(ids[ids.len() - 1] < MAX_SYSCALL_NUM);
        lemma_counters_count_calls(times, front, id);
    }
}

} // verus!
