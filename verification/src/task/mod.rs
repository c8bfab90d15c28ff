//! Tasks, the ready queue and the rule that picks the next task to run.
//!
//! The functions of this module are the steps of a task's life cycle. Each
//! takes the task that is running and the ready queue, and hands back the
//! task that runs next: switching to it is left to the caller.

pub mod manager;
pub mod stride;
pub mod task;

use vstd::prelude::*;
use crate::task::manager::{
    distinct_pids, fetch_step, has_pid, lemma_push_keeps_distinct, lemma_remove_keeps_distinct,
    TaskManager, TaskManagerInterface,
};
use crate::task::stride::lemma_least_index_in_range;
use crate::task::manager::strides;
use crate::task::task::{started, TaskControlBlock, TaskStatus, TaskView};

verus! {

/// The task `v` once it has given up the processor: ready to run again.
pub open spec fn suspended(v: TaskView) -> TaskView {
    TaskView { status: TaskStatus::Ready, ..v }
}

/// The task `v` once it has exited with code `exit_code`.
pub open spec fn exited(v: TaskView, exit_code: i32) -> TaskView {
    TaskView { status: TaskStatus::Exited, exit_code, ..v }
}

/// Whether every task of the queue is ready to run.
pub open spec fn all_ready(queue: Seq<TaskView>) -> bool {
    forall|i: int| 0 <= i < queue.len() ==> (#[trigger] queue[i]).status == TaskStatus::Ready
}

/// The task that the policy serves next from a queue that is not empty, as
/// it starts to run at time `now_ms`.
pub open spec fn next_running(queue: Seq<TaskView>, now_ms: usize) -> TaskView {
    started(TaskManager::charges(queue[TaskManager::selects(queue)]), now_ms)
}

/// Takes the next task out of the ready queue and marks it as running from
/// time `now_ms` on. Returns `None`, and changes nothing, if no task is
/// ready.
pub fn run_next(manager: &mut TaskManager, now_ms: usize) -> (next: Option<TaskControlBlock>)
    ensures
        fetch_step(
            old(manager).ready(),
            TaskManager::selects(old(manager).ready()),
            next_running(old(manager).ready(), now_ms),
            final(manager).ready(),
            next,
        ),
{
    match manager.fetch() {
        Some(task) => {
            let mut task = task;
            task.mark_running(now_ms);
            Some(task)
        },
        None => None,
    }
}

/// The running task gives up the processor: it becomes ready and joins the
/// back of the ready queue, and the task that the policy serves next is
/// taken out and returned, running from time `now_ms` on. The queue is never
/// empty at that point, so there always is a next task (it may be the one
/// that just gave up).
pub fn suspend_current_and_run_next(
    current: TaskControlBlock,
    manager: &mut TaskManager,
    now_ms: usize,
) -> (next: TaskControlBlock)
    ensures
        next@ == next_running(old(manager).ready().push(suspended(current@)), now_ms),
        final(manager).ready() == old(manager).ready().push(suspended(current@)).remove(
            TaskManager::selects(old(manager).ready().push(suspended(current@))),
        ),
{
    let mut current = current;
    current.status = TaskStatus::Ready;
    manager.add(current);
    let next = run_next(manager, now_ms);
    next.unwrap()
}

/// The running task exits with code `exit_code`: it is marked as exited and
/// handed back, never to join the ready queue again, together with the task
/// that runs next, if one is ready.
pub fn exit_current_and_run_next(
    current: TaskControlBlock,
    exit_code: i32,
    manager: &mut TaskManager,
    now_ms: usize,
) -> (gone_and_next: (TaskControlBlock, Option<TaskControlBlock>))
    ensures
        gone_and_next.0@ == exited(current@, exit_code),
        fetch_step(
            old(manager).ready(),
            TaskManager::selects(old(manager).ready()),
            next_running(old(manager).ready(), now_ms),
            final(manager).ready(),
            gone_and_next.1,
        ),
{
    let mut current = current;
    current.status = TaskStatus::Exited;
    current.exit_code = exit_code;
    let next = run_next(manager, now_ms);
    (current, next)
}

/// Giving up the processor keeps the ready set in order. If every task in
/// the queue was ready, no two had the same identity and none had the
/// identity of the running task, then the task that runs next is running,
/// it is no longer in the queue, every task in the queue is still ready and
/// no two have the same identity.
pub proof fn lemma_suspend_keeps_ready_set(queue: Seq<TaskView>, current: TaskView, now_ms: usize)
    requires
        all_ready(queue),
        distinct_pids(queue),
        !has_pid(queue, current.pid),
    ensures
        ({
            let joined = queue.push(suspended(current));
            let k = TaskManager::selects(joined);
            let next = next_running(joined, now_ms);
            let after = joined.remove(k);
            &&& 0 <= k < joined.len()
            &&& next.status == TaskStatus::Running
            &&& next.pid == joined[k].pid
            &&& all_ready(after)
            &&& distinct_pids(after)
            &&& !has_pid(after, next.pid)
        }),
{
    let joined = queue.push(suspended(current));
    let k = TaskManager::selects(joined);
    lemma_least_index_in_range(strides(joined));
    lemma_push_keeps_distinct(queue, suspended(current));
    lemma_remove_keeps_distinct(joined, k);
    let after = joined.remove(k);
    assert forall|i: int| 0 <= i < after.len() implies (#[trigger] after[i]).status
        == TaskStatus::Ready by {
        let i0 = if i < k { i } else { i + 1 };
        assert(after[i] == joined[i0]);
        if i0 < queue.len() {
            assert(joined[i0] == queue[i0]);
        }
    }
}

} // verus!
