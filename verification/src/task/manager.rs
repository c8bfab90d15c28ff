//! The ready queue and the two policies that pick the next task from it.
//!
//! The model of a ready queue is the sequence of the models of its tasks, in
//! the order in which they were added.

use vstd::prelude::*;
use std::collections::VecDeque;
use crate::task::stride::{
    charged, comparable, least_index, lemma_least_index_is_minimum, stride_before, stride_less,
};
use crate::task::task::{TaskControlBlock, TaskView};

verus! {

/// The models of the given tasks, in order.
pub open spec fn views(tasks: Seq<TaskControlBlock>) -> Seq<TaskView> {
    tasks.map_values(|t: TaskControlBlock| t@)
}

/// The strides of the given tasks, in order.
pub open spec fn strides(queue: Seq<TaskView>) -> Seq<u64> {
    queue.map_values(|v: TaskView| v.stride)
}

/// Whether no two tasks of the queue have the same identity.
pub open spec fn distinct_pids(queue: Seq<TaskView>) -> bool {
    forall|i: int, j: int|
        0 <= i < j < queue.len() ==> (#[trigger] queue[i]).pid != (#[trigger] queue[j]).pid
}

/// Whether a task with identity `pid` stands in the queue.
pub open spec fn has_pid(queue: Seq<TaskView>, pid: usize) -> bool {
    exists|i: int| 0 <= i < queue.len() && (#[trigger] queue[i]).pid == pid
}

/// Whether the strides of the queue lie so close together that the wrapping
/// comparison orders them: all of them lie less than half the counter's
/// range ahead of one base.
pub open spec fn strides_comparable(queue: Seq<TaskView>) -> bool {
    exists|base: u64| comparable(strides(queue), base)
}

/// Whether the task at place `k` is the first of those with the least
/// stride: no task's stride comes before its stride, and its stride comes
/// before the stride of every task in front of it.
pub open spec fn first_of_least(queue: Seq<TaskView>, k: int) -> bool {
    &&& forall|j: int|
        0 <= j < queue.len() ==> !stride_less((#[trigger] queue[j]).stride, queue[k].stride)
    &&& forall|j: int| 0 <= j < k ==> stride_less(queue[k].stride, (#[trigger] queue[j]).stride)
}

/// What one fetch does. From an empty queue nothing is taken and nothing
/// changes. Otherwise the task at place `k` leaves the queue, the others keep
/// their order, and the task is handed out as `served`.
pub open spec fn fetch_step(
    before: Seq<TaskView>,
    k: int,
    served: TaskView,
    after: Seq<TaskView>,
    task: Option<TaskControlBlock>,
) -> bool {
    if before.len() == 0 {
        task is None && after == before
    } else {
        &&& 0 <= k < before.len()
        &&& task is Some
        &&& task->0@ == served
        &&& after == before.remove(k)
    }
}

/// A task that stood in a queue of distinct identities is gone from it once
/// it has been taken out, and the identities that stay are still distinct.
pub proof fn lemma_remove_keeps_distinct(queue: Seq<TaskView>, k: int)
    requires
        distinct_pids(queue),
        0 <= k < queue.len(),
    ensures
        distinct_pids(queue.remove(k)),
        !has_pid(queue.remove(k), queue[k].pid),
{
    let rest = queue.remove(k);
    assert forall|i: int, j: int| 0 <= i < j < rest.len() implies (#[trigger] rest[i]).pid != (
    #[trigger] rest[j]).pid by {
        let i0 = if i < k { i } else { i + 1 };
        let j0 = if j < k { j } else { j + 1 };
        assert(rest[i] == queue[i0]);
        assert(rest[j] == queue[j0]);
    }
    assert forall|i: int| 0 <= i < rest.len() implies (#[trigger] rest[i]).pid != queue[k].pid by {
        let i0 = if i < k { i } else { i + 1 };
        assert(rest[i] == queue[i0]);
    }
}

/// Adding a task whose identity is not in the queue yet keeps the
/// identities distinct.
pub proof fn lemma_push_keeps_distinct(queue: Seq<TaskView>, task: TaskView)
    requires
        distinct_pids(queue),
        !has_pid(queue, task.pid),
    ensures
        distinct_pids(queue.push(task)),
{
    let more = queue.push(task);
    assert forall|i: int, j: int| 0 <= i < j < more.len() implies (#[trigger] more[i]).pid != (
    #[trigger] more[j]).pid by {
        assert(more[i] == queue[i]);
        if j < queue.len() {
            assert(more[j] == queue[j]);
        }
    }
}

/// While the strides of the ready tasks are comparable, the stride policy
/// serves the first of the tasks with the least stride.
pub proof fn lemma_stride_policy_serves_least(queue: Seq<TaskView>)
    requires
        queue.len() > 0,
        strides_comparable(queue),
    ensures
        0 <= TaskManagerStride::selects(queue) < queue.len(),
        first_of_least(queue, TaskManagerStride::selects(queue)),
{
    let all = strides(queue);
    let k = least_index(all);
    let base = choose|base: u64| comparable(all, base);
    lemma_least_index_is_minimum(all, base);
    assert forall|j: int| 0 <= j < queue.len() implies !stride_less(
        (#[trigger] queue[j]).stride,
        queue[k].stride,
    ) by {
        assert(all[j] == queue[j].stride);
    }
    assert forall|j: int| 0 <= j < k implies stride_less(
        queue[k].stride,
        (#[trigger] queue[j]).stride,
    ) by {
        assert(all[j] == queue[j].stride);
    }
}

/// What every scheduling policy offers: tasks are added to the ready queue,
/// and the policy picks which one leaves it next.
pub trait TaskManagerInterface: Sized {
    /// The ready queue, in the order in which the tasks were added.
    spec fn ready(&self) -> Seq<TaskView>;

    /// The place in a queue that is not empty of the task that the policy
    /// serves next.
    spec fn selects(queue: Seq<TaskView>) -> int;

    /// The task as it is handed out: what serving does to it.
    spec fn charges(task: TaskView) -> TaskView;

    /// A manager whose ready queue is empty.
    fn new() -> (manager: Self)
        ensures
            manager.ready() == Seq::<TaskView>::empty(),
    ;

    /// Puts `task` at the back of the ready queue.
    fn add(&mut self, task: TaskControlBlock)
        ensures
            final(self).ready() == old(self).ready().push(task@),
    ;

    /// Takes the task that the policy serves next out of the ready queue,
    /// or returns `None` if the queue is empty.
    fn fetch(&mut self) -> (task: Option<TaskControlBlock>)
        ensures
            fetch_step(
                old(self).ready(),
                Self::selects(old(self).ready()),
                Self::charges(old(self).ready()[Self::selects(old(self).ready())]),
                final(self).ready(),
                task,
            ),
    ;
}

/// The policy that serves tasks in the order in which they arrived.
pub struct TaskManagerFIFO {
    ready_queue: VecDeque<TaskControlBlock>,
}

impl TaskManagerInterface for TaskManagerFIFO {
    closed spec fn ready(&self) -> Seq<TaskView> {
        views(self.ready_queue@)
    }

    /// The task at the front is served.
    open spec fn selects(queue: Seq<TaskView>) -> int {
        0
    }

    /// Serving leaves the task as it is.
    open spec fn charges(task: TaskView) -> TaskView {
        task
    }

    fn new() -> (manager: Self) {
        let manager = TaskManagerFIFO { ready_queue: VecDeque::new() };
        assert(manager.ready() =~= Seq::<TaskView>::empty());
        manager
    }

    fn add(&mut self, task: TaskControlBlock) {
        self.ready_queue.push_back(task);
        assert(self.ready() =~= old(self).ready().push(task@));
    }

    fn fetch(&mut self) -> (task: Option<TaskControlBlock>)
        ensures
            // A task that has been taken out stays out until it is added
            // again.
            distinct_pids(old(self).ready()) ==> distinct_pids(final(self).ready()) && (
            task matches Some(t) ==> !has_pid(final(self).ready(), t@.pid)),
    {
        let task = self.ready_queue.pop_front();
        proof {
            if old(self).ready().len() > 0 {
                assert(self.ready_queue@ =~= old(self).ready_queue@.remove(0));
                assert(self.ready() =~= old(self).ready().remove(0));
                if distinct_pids(old(self).ready()) {
                    lemma_remove_keeps_distinct(old(self).ready(), 0);
                }
            } else {
                assert(self.ready() =~= old(self).ready());
            }
        }
        task
    }
}

/// The policy that serves the task with the least stride and charges it its
/// pass, so that each task runs in proportion to its priority.
pub struct TaskManagerStride {
    ready_queue: Vec<TaskControlBlock>,
}

impl TaskManagerStride {
    /// The place of the task that is served next.
    fn select(&self) -> (k: usize)
        requires
            self.ready().len() > 0,
        ensures
            k == least_index(strides(self.ready())),
            k < self.ready().len(),
    {
        let ghost all: Seq<u64> = strides(self.ready());
        let n: usize = self.ready_queue.len();
        let mut best: usize = 0;
        let mut i: usize = 1;
        assert(least_index(all.take(1)) == 0);
        while i < n
            invariant
                n == self.ready_queue@.len(),
                all == strides(self.ready()),
                1 <= i <= n,
                best < i,
                best == least_index(all.take(i as int)),
            decreases n - i,
        {
            let ghost front: Seq<u64> = all.take(i as int);
            let ghost more: Seq<u64> = all.take(i + 1);
            proof {
                assert(more.drop_last() =~= front);
                assert(more.last() == all[i as int]);
                assert(more[best as int] == all[best as int]);
                assert(all[i as int] == self.ready_queue@[i as int].stride);
                assert(all[best as int] == self.ready_queue@[best as int].stride);
            }
            if stride_before(self.ready_queue[i].stride, self.ready_queue[best].stride) {
                best = i;
            }
            i = i + 1;
        }
        assert(all.take(n as int) =~= all);
        best
    }
}

impl TaskManagerInterface for TaskManagerStride {
    closed spec fn ready(&self) -> Seq<TaskView> {
        views(self.ready_queue@)
    }

    /// The first task that no other task's stride comes before is served.
    open spec fn selects(queue: Seq<TaskView>) -> int {
        least_index(strides(queue))
    }

    /// Serving charges the task its pass.
    open spec fn charges(task: TaskView) -> TaskView {
        TaskView { stride: charged(task.stride, task.pass), ..task }
    }

    fn new() -> (manager: Self) {
        let manager = TaskManagerStride { ready_queue: Vec::new() };
        assert(manager.ready() =~= Seq::<TaskView>::empty());
        manager
    }

    fn add(&mut self, task: TaskControlBlock) {
        self.ready_queue.push(task);
        assert(self.ready() =~= old(self).ready().push(task@));
    }

    fn fetch(&mut self) -> (task: Option<TaskControlBlock>)
        ensures
            // While the strides are comparable, the task that is served is
            // the first of those that had the least stride.
            old(self).ready().len() > 0 && strides_comparable(old(self).ready())
                ==> first_of_least(old(self).ready(), Self::selects(old(self).ready())),
            // A task that has been taken out stays out until it is added
            // again.
            distinct_pids(old(self).ready()) ==> distinct_pids(final(self).ready()) && (
            task matches Some(t) ==> !has_pid(final(self).ready(), t@.pid)),
    {
        if self.ready_queue.len() == 0 {
            assert(self.ready() =~= old(self).ready());
            return None;
        }
        let k: usize = self.select();
        let mut task: TaskControlBlock = self.ready_queue.remove(k);
        task.update_stride();
        proof {
            let before = old(self).ready();
            assert(self.ready() =~= before.remove(k as int));
            assert(before[k as int] == old(self).ready_queue@[k as int]@);
            if distinct_pids(before) {
                lemma_remove_keeps_distinct(before, k as int);
            }
            if strides_comparable(before) {
                lemma_stride_policy_serves_least(before);
            }
        }
        Some(task)
    }
}

/// The policy that this kernel schedules with.
pub type TaskManager = TaskManagerStride;

/// Adds a task to the ready queue of `manager`.
pub fn add_task(manager: &mut TaskManager, task: TaskControlBlock)
    ensures
        final(manager).ready() == old(manager).ready().push(task@),
{
    manager.add(task);
}

/// Takes the task that runs next out of the ready queue of `manager`.
pub fn fetch_task(manager: &mut TaskManager) -> (task: Option<TaskControlBlock>)
    ensures
        fetch_step(
            old(manager).ready(),
            TaskManager::selects(old(manager).ready()),
            TaskManager::charges(old(manager).ready()[TaskManager::selects(old(manager).ready())]),
            final(manager).ready(),
            task,
        ),
        old(manager).ready().len() > 0 && strides_comparable(old(manager).ready())
            ==> first_of_least(old(manager).ready(), TaskManager::selects(old(manager).ready())),
        distinct_pids(old(manager).ready()) ==> distinct_pids(final(manager).ready()) && (
        task matches Some(t) ==> !has_pid(final(manager).ready(), t@.pid)),
{
    manager.fetch()
}

} // verus!
