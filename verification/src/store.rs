//! The in-memory task store: a FIFO queue of pending work, a status table in
//! insertion order, and a table of completed results consumed on read.
//!
//! Every operation is specified against `StoreModel`, the store's
//! mathematical value, and preserves its well-formedness: queued indices
//! point at `Enqueued` entries and only at those, entries are ordered by
//! strictly increasing id keys, and completed results belong to entries in a
//! terminal status.

use vstd::prelude::*;
use crate::messages::{StoreState, StoredTask, StoredTaskStatus, StoredTaskView, Task, TaskResult,
    TaskResultView, TaskView};
use crate::task_id::{TaskId, TaskIdGenerator};

verus! {

/// Store failures. A result may be published only for a task that is
/// currently being processed; anything else is a caller bug.
#[derive(Debug, Clone, Copy, PartialEq, Eq, Structural)]
pub enum StoreError {
    PublishToUnknownId,
}

/// What asking for a completed result yields: the result (consumed), a
/// definite "already consumed", or nothing yet.
#[derive(Debug, Clone, PartialEq, Eq)]
pub enum CompletionPoll {
    /// The result was present; it has been removed from the store.
    Ready(TaskResult),
    /// The task finished earlier and its result was already consumed.
    NotFound,
    /// The task is unknown or still in flight; the caller should wait.
    Pending,
}

/// The mathematical value of a `CompletionPoll`.
#[verifier::ext_equal]
pub enum CompletionPollView {
    Ready(TaskResultView),
    NotFound,
    Pending,
}

impl View for CompletionPoll {
    type V = CompletionPollView;

    open spec fn view(&self) -> CompletionPollView {
        match self {
            CompletionPoll::Ready(r) => CompletionPollView::Ready(r@),
            CompletionPoll::NotFound => CompletionPollView::NotFound,
            CompletionPoll::Pending => CompletionPollView::Pending,
        }
    }
}

/// Whether a status is terminal.
pub open spec fn is_terminal(s: StoredTaskStatus) -> bool {
    s == StoredTaskStatus::Completed || s == StoredTaskStatus::Failed
}

/// The first index of `id` among the stored entries, or their number if the
/// id is absent.
pub open spec fn task_index_of(tasks: Seq<StoredTaskView>, id: TaskId) -> int
    decreases tasks.len(),
{
    if tasks.len() == 0 {
        0
    } else if tasks[0].id == id {
        0
    } else {
        1 + task_index_of(tasks.skip(1), id)
    }
}

/// `task_index_of` finds the first occurrence, or the length.
pub proof fn lemma_task_index_of(tasks: Seq<StoredTaskView>, id: TaskId)
    ensures
        0 <= task_index_of(tasks, id) <= tasks.len(),
        task_index_of(tasks, id) < tasks.len() ==> tasks[task_index_of(tasks, id)].id == id,
        forall|j: int| 0 <= j < task_index_of(tasks, id) ==> tasks[j].id != id,
    decreases tasks.len(),
{
    if tasks.len() > 0 && tasks[0].id != id {
        lemma_task_index_of(tasks.skip(1), id);
        assert forall|j: int| 0 <= j < task_index_of(tasks, id) implies tasks[j].id != id by {
            if j > 0 {
                assert(tasks.skip(1)[j - 1].id != id);
            }
        }
    }
}

/// The first index of `id` among the completed results, or their number.
pub open spec fn completed_index_of(completed: Seq<(TaskId, TaskResultView)>, id: TaskId) -> int
    decreases completed.len(),
{
    if completed.len() == 0 {
        0
    } else if completed[0].0 == id {
        0
    } else {
        1 + completed_index_of(completed.skip(1), id)
    }
}

/// `completed_index_of` finds the first occurrence, or the length.
pub proof fn lemma_completed_index_of(completed: Seq<(TaskId, TaskResultView)>, id: TaskId)
    ensures
        0 <= completed_index_of(completed, id) <= completed.len(),
        completed_index_of(completed, id) < completed.len() ==> completed[completed_index_of(
            completed,
            id,
        )].0 == id,
        forall|j: int| 0 <= j < completed_index_of(completed, id) ==> completed[j].0 != id,
    decreases completed.len(),
{
    if completed.len() > 0 && completed[0].0 != id {
        lemma_completed_index_of(completed.skip(1), id);
        assert forall|j: int| 0 <= j < completed_index_of(completed, id) implies completed[j].0
            != id by {
            if j > 0 {
                assert(completed.skip(1)[j - 1].0 != id);
            }
        }
    }
}

/// The mathematical value of the store.
#[verifier::ext_equal]
pub struct StoreModel {
    pub gen: TaskIdGenerator,
    pub tasks: Seq<StoredTaskView>,
    pub queue: Seq<int>,
    pub completed: Seq<(TaskId, TaskResultView)>,
}

impl StoreModel {
    /// Some entry holds `id` in a terminal status.
    pub open spec fn has_terminal_entry(self, id: TaskId) -> bool {
        exists|k: int|
            0 <= k < self.tasks.len() && (#[trigger] self.tasks[k]).id == id && is_terminal(
                self.tasks[k].status,
            )
    }

    /// The queue holds valid indices, in increasing order, of exactly the
    /// `Enqueued` entries.
    pub open spec fn queue_wf(self) -> bool {
        &&& forall|i: int|
            0 <= i < self.queue.len() ==> 0 <= #[trigger] self.queue[i] < self.tasks.len()
        &&& forall|i: int, j: int|
            0 <= i < j < self.queue.len() ==> #[trigger] self.queue[i] < #[trigger] self.queue[j]
        &&& forall|i: int|
            0 <= i < self.queue.len() ==> self.tasks[#[trigger] self.queue[i]].status
                == StoredTaskStatus::Enqueued
        &&& forall|k: int|
            0 <= k < self.tasks.len() && (#[trigger] self.tasks[k]).status
                == StoredTaskStatus::Enqueued ==> self.queue.contains(k)
    }

    /// Entries are ordered by strictly increasing id keys, all at most the
    /// generator's key, so every future id is fresh.
    pub open spec fn tasks_wf(self) -> bool {
        &&& forall|i: int, j: int|
            0 <= i < j < self.tasks.len() ==> (#[trigger] self.tasks[i]).id.spec_key() < (
            #[trigger] self.tasks[j]).id.spec_key()
        &&& forall|k: int|
            0 <= k < self.tasks.len() ==> (#[trigger] self.tasks[k]).id.spec_key()
                <= self.gen.spec_key()
    }

    /// Completed results belong to distinct ids whose entries are terminal.
    pub open spec fn completed_wf(self) -> bool {
        &&& forall|i: int|
            0 <= i < self.completed.len() ==> self.has_terminal_entry(
                (#[trigger] self.completed[i]).0,
            )
        &&& forall|i: int, j: int|
            0 <= i < j < self.completed.len() ==> (#[trigger] self.completed[i]).0 != (
            #[trigger] self.completed[j]).0
    }

    /// The store's invariant.
    pub open spec fn wf(self) -> bool {
        self.queue_wf() && self.tasks_wf() && self.completed_wf()
    }

    /// Whether a push at time `now` is possible; forced by machine limits
    /// (a non-regressing clock and counter headroom within a millisecond).
    pub open spec fn can_push(self, now: u128) -> bool {
        self.gen.spec_can_issue(now)
    }

    /// Pushing records the task under a fresh id, appends that id's entry to
    /// the table, and appends its index to the queue.
    pub open spec fn spec_push(self, now: u128, t: TaskView) -> (StoreModel, TaskId) {
        let gen = self.gen.spec_next(now).0;
        let id = self.gen.spec_next(now).1;
        let entry = StoredTaskView {
            id,
            status: StoredTaskStatus::Enqueued,
            definition: t.definition,
            args: t.args,
            kwargs: t.kwargs,
        };
        (
            StoreModel {
                gen,
                tasks: self.tasks.push(entry),
                queue: self.queue.push(self.tasks.len() as int),
                completed: self.completed,
            },
            id,
        )
    }

    /// Dequeuing pops the oldest queued index, marks its entry `Processing`,
    /// and returns the id with the task body; an empty queue yields nothing.
    pub open spec fn spec_dequeue(self) -> (StoreModel, Option<(TaskId, TaskView)>) {
        if self.queue.len() == 0 {
            (self, None)
        } else {
            let k = self.queue[0];
            let e = self.tasks[k];
            let updated = StoredTaskView {
                id: e.id,
                status: StoredTaskStatus::Processing,
                definition: e.definition,
                args: e.args,
                kwargs: e.kwargs,
            };
            (
                StoreModel {
                    gen: self.gen,
                    tasks: self.tasks.update(k, updated),
                    queue: self.queue.skip(1),
                    completed: self.completed,
                },
                Some((e.id, e.spec_task())),
            )
        }
    }

    /// Publishing moves a `Processing` entry to `Completed` or `Failed` and
    /// records the result; for any other id it changes nothing and fails.
    pub open spec fn spec_publish(self, id: TaskId, r: TaskResultView) -> (StoreModel, bool) {
        let k = task_index_of(self.tasks, id);
        if k < self.tasks.len() && self.tasks[k].status == StoredTaskStatus::Processing {
            let e = self.tasks[k];
            let status = match r {
                TaskResultView::Success { .. } => StoredTaskStatus::Completed,
                TaskResultView::Failure { .. } => StoredTaskStatus::Failed,
            };
            let updated = StoredTaskView {
                id: e.id,
                status,
                definition: e.definition,
                args: e.args,
                kwargs: e.kwargs,
            };
            (
                StoreModel {
                    gen: self.gen,
                    tasks: self.tasks.update(k, updated),
                    queue: self.queue,
                    completed: self.completed.push((id, r)),
                },
                true,
            )
        } else {
            (self, false)
        }
    }

    /// Taking a completion consumes and returns a present result; an id whose
    /// entry is terminal but whose result is gone was already consumed; any
    /// other id leaves the caller waiting.
    pub open spec fn spec_take_completed(self, id: TaskId) -> (StoreModel, CompletionPollView) {
        let i = completed_index_of(self.completed, id);
        if i < self.completed.len() {
            (
                StoreModel {
                    gen: self.gen,
                    tasks: self.tasks,
                    queue: self.queue,
                    completed: self.completed.remove(i),
                },
                CompletionPollView::Ready(self.completed[i].1),
            )
        } else {
            let k = task_index_of(self.tasks, id);
            if k < self.tasks.len() && is_terminal(self.tasks[k].status) {
                (self, CompletionPollView::NotFound)
            } else {
                (self, CompletionPollView::Pending)
            }
        }
    }
}

/// Relies on `std::time::SystemTime::now` and `duration_since` against the
/// Unix epoch: the clock's current reading in milliseconds. Nothing is
/// promised of the value; callers state what holds of every reading.
#[verifier::external_body]
fn now_millis() -> u128 {
    std::time::SystemTime::now().duration_since(std::time::SystemTime::UNIX_EPOCH).map(
        |d| d.as_millis(),
    ).unwrap_or(0)
}

/// Entries with equal ids coincide in a well-formed store.
pub proof fn lemma_task_ids_unique(m: StoreModel, i: int, j: int)
    requires
        m.wf(),
        0 <= i < m.tasks.len(),
        0 <= j < m.tasks.len(),
        m.tasks[i].id == m.tasks[j].id,
    ensures
        i == j,
{
    if i < j {
        assert(m.tasks[i].id.spec_key() < m.tasks[j].id.spec_key());
    } else if j < i {
        assert(m.tasks[j].id.spec_key() < m.tasks[i].id.spec_key());
    }
}

/// An in-memory store of tasks and their results. All data is lost when the
/// store is dropped; the interface is such that a durable store could be
/// substituted.
#[derive(Debug)]
pub struct TasksInMemory {
    pub gen: TaskIdGenerator,
    pub tasks: Vec<StoredTask>,
    pub queue: Vec<usize>,
    pub completed: Vec<(TaskId, TaskResult)>,
}

impl View for TasksInMemory {
    type V = StoreModel;

    open spec fn view(&self) -> StoreModel {
        StoreModel {
            gen: self.gen,
            tasks: self.tasks.deep_view(),
            queue: self.queue@.map_values(|u: usize| u as int),
            completed: self.completed@.map_values(|p: (TaskId, TaskResult)| (p.0, p.1@)),
        }
    }
}

impl TasksInMemory {
    /// An empty store.
    pub fn new() -> (r: TasksInMemory)
        ensures
            r@.wf(),
            r@.tasks.len() == 0,
            r@.queue.len() == 0,
            r@.completed.len() == 0,
            r@.gen.spec_last() == 0,
            r@.gen.spec_count() == 0,
    {
        let r = TasksInMemory {
            gen: TaskIdGenerator::new(),
            tasks: Vec::new(),
            queue: Vec::new(),
            completed: Vec::new(),
        };
        proof {
            assert(r@.tasks =~= Seq::<StoredTaskView>::empty());
            assert(r@.queue =~= Seq::<int>::empty());
            assert(r@.completed =~= Seq::<(TaskId, TaskResultView)>::empty());
        }
        r
    }

    /// The timestamp of the most recently issued id; a caller clamps its
    /// clock reading to this before pushing.
    pub fn last_issued_millis(&self) -> (r: u128)
        ensures
            r == self@.gen.spec_last(),
    {
        self.gen.last
    }

    /// Whether a push at time `now` is possible.
    pub fn can_push_at(&self, now: u128) -> (r: bool)
        ensures
            r == self@.can_push(now),
    {
        now >= self.gen.last && (now != self.gen.last || self.gen.count < u32::MAX)
    }

    /// Record `task` under a fresh id on the queue named `queue` and wake a
    /// waiting dequeuer. The in-memory store keeps a single queue; the name
    /// is accepted and not recorded; a sharded store could route by it.
    pub fn push(&mut self, now: u128, queue: &Vec<u8>, task: Task) -> (r: TaskId)
        requires
            old(self)@.wf(),
            old(self)@.can_push(now),
        ensures
            final(self)@ == old(self)@.spec_push(now, task@).0,
            r == old(self)@.spec_push(now, task@).1,
            final(self)@.wf(),
    {
        let ghost m0 = self@;
        let id = self.gen.next_id(now);
        let idx = self.tasks.len();
        let entry = StoredTask {
            id,
            status: StoredTaskStatus::Enqueued,
            definition: task.definition,
            args: task.args,
            kwargs: task.kwargs,
        };
        self.tasks.push(entry);
        self.queue.push(idx);
        proof {
            assert(self@.tasks =~= m0.spec_push(now, task@).0.tasks);
            assert(self@.queue =~= m0.spec_push(now, task@).0.queue);
            assert(self@.completed =~= m0.spec_push(now, task@).0.completed);
            lemma_push_preserves_wf(m0, now, task@);
        }
        id
    }

    /// Pop the oldest enqueued task, marking it `Processing`. Returns
    /// nothing when the queue is empty; a caller then waits for a push.
    pub fn try_dequeue(&mut self) -> (r: Option<(TaskId, Task)>)
        requires
            old(self)@.wf(),
        ensures
            final(self)@ == old(self)@.spec_dequeue().0,
            final(self)@.wf(),
            match r {
                Option::None => old(self)@.spec_dequeue().1 is None,
                Option::Some(p) => old(self)@.spec_dequeue().1 == Some((p.0, p.1@)),
            },
    {
        let ghost m0 = self@;
        if self.queue.len() == 0 {
            proof {
                assert(m0.queue.len() == 0);
            }
            return None;
        }
        let k = self.queue.remove(0);
        proof {
            assert(m0.queue[0] == k as int);
        }
        let id = self.tasks[k].id;
        let definition = crate::text::clone_bytes(&self.tasks[k].definition);
        let args = crate::text::clone_bytes(&self.tasks[k].args);
        let kwargs = crate::text::clone_bytes(&self.tasks[k].kwargs);
        let updated = StoredTask {
            id,
            status: StoredTaskStatus::Processing,
            definition: crate::text::clone_bytes(&self.tasks[k].definition),
            args: crate::text::clone_bytes(&self.tasks[k].args),
            kwargs: crate::text::clone_bytes(&self.tasks[k].kwargs),
        };
        self.tasks[k] = updated;
        proof {
            assert(self@.tasks =~= m0.spec_dequeue().0.tasks);
            assert(self@.queue =~= m0.spec_dequeue().0.queue);
            assert(self@.completed =~= m0.spec_dequeue().0.completed);
            lemma_dequeue_preserves_wf(m0);
        }
        Some((id, Task { definition, args, kwargs }))
    }

    /// Record the result of a task that is currently `Processing`, moving it
    /// to `Completed` or `Failed`; any other id is rejected unchanged.
    pub fn publish_result(&mut self, id: TaskId, result: TaskResult) -> (r: Result<
        (),
        StoreError,
    >)
        requires
            old(self)@.wf(),
        ensures
            final(self)@ == old(self)@.spec_publish(id, result@).0,
            r is Ok <==> old(self)@.spec_publish(id, result@).1,
            r is Err ==> *final(self) == *old(self),
            final(self)@.wf(),
    {
        let ghost m0 = self@;
        proof {
            lemma_task_index_of(m0.tasks, id);
        }
        let k = match self.find_task(id) {
            Some(k) => k,
            None => {
                return Err(StoreError::PublishToUnknownId);
            },
        };
        let processing = match self.tasks[k].status {
            StoredTaskStatus::Processing => true,
            _ => false,
        };
        if !processing {
            return Err(StoreError::PublishToUnknownId);
        }
        let status = match &result {
            TaskResult::Success { .. } => StoredTaskStatus::Completed,
            TaskResult::Failure { .. } => StoredTaskStatus::Failed,
        };
        let updated = StoredTask {
            id,
            status,
            definition: crate::text::clone_bytes(&self.tasks[k].definition),
            args: crate::text::clone_bytes(&self.tasks[k].args),
            kwargs: crate::text::clone_bytes(&self.tasks[k].kwargs),
        };
        self.tasks[k] = updated;
        self.completed.push((id, result));
        proof {
            assert(self@.tasks =~= m0.spec_publish(id, result@).0.tasks);
            assert(self@.queue =~= m0.spec_publish(id, result@).0.queue);
            assert(self@.completed =~= m0.spec_publish(id, result@).0.completed);
            lemma_publish_preserves_wf(m0, id, result@);
        }
        Ok(())
    }

    /// Ask for the completed result of `id`. A present result is consumed:
    /// asking again later yields `NotFound`. An id that is unknown or still
    /// in flight yields `Pending`, and the store is unchanged.
    pub fn take_completed(&mut self, id: TaskId) -> (r: CompletionPoll)
        requires
            old(self)@.wf(),
        ensures
            final(self)@ == old(self)@.spec_take_completed(id).0,
            r@ == old(self)@.spec_take_completed(id).1,
            final(self)@.wf(),
    {
        let ghost m0 = self@;
        proof {
            lemma_completed_index_of(m0.completed, id);
        }
        let mut i: usize = 0;
        while i < self.completed.len()
            invariant
                0 <= i <= self.completed.len(),
                self == old(self),
                m0 == self@,
                m0.wf(),
                forall|j: int| 0 <= j < i ==> m0.completed[j].0 != id,
            decreases self.completed.len() - i,
        {
            if self.completed[i].0 == id {
                proof {
                    lemma_completed_index_of_agrees(m0.completed, id, i as int);
                }
                let (_, result) = self.completed.remove(i);
                proof {
                    assert(self@.completed =~= m0.spec_take_completed(id).0.completed);
                    assert(self@.tasks =~= m0.tasks);
                    assert(self@.queue =~= m0.queue);
                    lemma_take_preserves_wf(m0, id);
                }
                return CompletionPoll::Ready(result);
            }
            i = i + 1;
        }
        proof {
            assert(completed_index_of(m0.completed, id) == m0.completed.len()) by {
                lemma_completed_index_of(m0.completed, id);
                if completed_index_of(m0.completed, id) < m0.completed.len() {
                    assert(m0.completed[completed_index_of(m0.completed, id)].0 == id);
                }
            }
            lemma_task_index_of(m0.tasks, id);
        }
        let k = match self.find_task(id) {
            Some(k) => k,
            None => {
                return CompletionPoll::Pending;
            },
        };
        let terminal = match self.tasks[k].status {
            StoredTaskStatus::Completed => true,
            StoredTaskStatus::Failed => true,
            _ => false,
        };
        if terminal {
            CompletionPoll::NotFound
        } else {
            CompletionPoll::Pending
        }
    }

    /// Record `task` at the system clock's current time. The clock reading
    /// is clamped to the last issued timestamp, so ids keep increasing even
    /// if the clock steps back; the push is refused only if this
    /// millisecond's counter is exhausted, which a machine cannot reach.
    /// So whenever the counter has headroom, the push succeeds, whatever
    /// the clock returned.
    pub fn push_now(&mut self, queue: &Vec<u8>, task: Task) -> (r: Option<TaskId>)
        requires
            old(self)@.wf(),
        ensures
            final(self)@.wf(),
            old(self)@.gen.spec_count() < u32::MAX ==> r is Some,
            match r {
                Option::Some(id) => exists|now: u128|
                    {
                        &&& #[trigger] old(self)@.can_push(now)
                        &&& final(self)@ == old(self)@.spec_push(now, task@).0
                        &&& id == old(self)@.spec_push(now, task@).1
                    },
                Option::None => *final(self) == *old(self) && old(self)@.gen.spec_count()
                    == u32::MAX,
            },
    {
        let t = now_millis();
        let now = if t > self.gen.last {
            t
        } else {
            self.gen.last
        };
        if now == self.gen.last && self.gen.count == u32::MAX {
            return None;
        }
        let id = self.push(now, queue, task);
        proof {
            assert(old(self)@.can_push(now) && self@ == old(self)@.spec_push(now, task@).0 && id
                == old(self)@.spec_push(now, task@).1);
        }
        Some(id)
    }

    /// A snapshot of every entry, in insertion order.
    pub fn state(&self) -> (r: StoreState)
        ensures
            r@ == self@.tasks,
    {
        let mut tasks: Vec<StoredTask> = Vec::new();
        let mut i: usize = 0;
        while i < self.tasks.len()
            invariant
                0 <= i <= self.tasks@.len(),
                tasks@.len() == i,
                forall|j: int| 0 <= j < i ==> (#[trigger] tasks@[j])@ == self.tasks@[j]@,
            decreases self.tasks@.len() - i,
        {
            let t = &self.tasks[i];
            let copy = StoredTask {
                id: t.id,
                status: t.status,
                definition: crate::text::clone_bytes(&t.definition),
                args: crate::text::clone_bytes(&t.args),
                kwargs: crate::text::clone_bytes(&t.kwargs),
            };
            tasks.push(copy);
            i = i + 1;
        }
        proof {
            assert forall|j: int| 0 <= j < tasks@.len() implies tasks.deep_view()[j]
                == self.tasks.deep_view()[j] by {
                assert(tasks@[j]@ == self.tasks@[j]@);
            }
            assert(tasks.deep_view() =~= self.tasks.deep_view());
        }
        StoreState { tasks }
    }

    /// Find the index of the entry holding `id`, scanning in order.
    fn find_task(&self, id: TaskId) -> (r: Option<usize>)
        ensures
            match r {
                Option::Some(k) => k as int == task_index_of(self@.tasks, id) && k
                    < self@.tasks.len() && self@.tasks[k as int].id == id,
                Option::None => task_index_of(self@.tasks, id) == self@.tasks.len(),
            },
    {
        let ghost tasks = self@.tasks;
        let mut i: usize = 0;
        while i < self.tasks.len()
            invariant
                0 <= i <= self.tasks.len(),
                tasks == self@.tasks,
                tasks.len() == self.tasks@.len(),
                forall|j: int| 0 <= j < i ==> tasks[j].id != id,
            decreases self.tasks.len() - i,
        {
            if self.tasks[i].id == id {
                proof {
                    lemma_task_index_of_agrees(tasks, id, i as int);
                }
                return Some(i);
            }
            i = i + 1;
        }
        proof {
            lemma_task_index_of(tasks, id);
            if task_index_of(tasks, id) < tasks.len() {
                assert(tasks[task_index_of(tasks, id)].id == id);
            }
        }
        None
    }
}

/// A first occurrence seen by a scan agrees with `task_index_of`.
proof fn lemma_task_index_of_agrees(tasks: Seq<StoredTaskView>, id: TaskId, i: int)
    requires
        0 <= i < tasks.len(),
        tasks[i].id == id,
        forall|j: int| 0 <= j < i ==> tasks[j].id != id,
    ensures
        task_index_of(tasks, id) == i,
    decreases tasks.len(),
{
    if i > 0 {
        assert(forall|j: int| 0 <= j < i - 1 ==> tasks.skip(1)[j].id != id);
        lemma_task_index_of_agrees(tasks.skip(1), id, i - 1);
    }
}

/// A first occurrence seen by a scan agrees with `completed_index_of`.
proof fn lemma_completed_index_of_agrees(completed: Seq<(TaskId, TaskResultView)>, id: TaskId, i: int)
    requires
        0 <= i < completed.len(),
        completed[i].0 == id,
        forall|j: int| 0 <= j < i ==> completed[j].0 != id,
    ensures
        completed_index_of(completed, id) == i,
    decreases completed.len(),
{
    if i > 0 {
        assert(forall|j: int| 0 <= j < i - 1 ==> completed.skip(1)[j].0 != id);
        lemma_completed_index_of_agrees(completed.skip(1), id, i - 1);
    }
}

/// Pushing preserves well-formedness, and the new entry carries a fresh id.
pub proof fn lemma_push_preserves_wf(m: StoreModel, now: u128, t: TaskView)
    requires
        m.wf(),
        m.can_push(now),
    ensures
        m.spec_push(now, t).0.wf(),
        forall|k: int|
            0 <= k < m.tasks.len() ==> (#[trigger] m.tasks[k]).id != m.spec_push(now, t).1,
{
    let m1 = m.spec_push(now, t).0;
    let id = m.spec_push(now, t).1;
    let gen1 = m.gen.spec_next(now).0;
    assert(id.spec_key() == gen1.spec_key() && id.spec_key() > m.gen.spec_key()) by {
        lemma_spec_next_key(m.gen, now);
    }
    assert forall|k: int| 0 <= k < m.tasks.len() implies (#[trigger] m.tasks[k]).id != id by {
        assert(m.tasks[k].id.spec_key() <= m.gen.spec_key());
    }
    let n = m.tasks.len() as int;
    assert forall|k: int|
        0 <= k < m1.tasks.len() && (#[trigger] m1.tasks[k]).status
            == StoredTaskStatus::Enqueued implies m1.queue.contains(k) by {
        if k < n {
            assert(m.queue.contains(k));
            let p = choose|p: int| 0 <= p < m.queue.len() && m.queue[p] == k;
            assert(m1.queue[p] == k);
        } else {
            assert(m1.queue[m.queue.len() as int] == k);
        }
    }
    assert(m1.queue_wf());
    assert(m1.tasks_wf());
    assert forall|i: int|
        0 <= i < m1.completed.len() implies m1.has_terminal_entry(
        (#[trigger] m1.completed[i]).0,
    ) by {
        assert(m.has_terminal_entry(m.completed[i].0));
        let k = choose|k: int|
            0 <= k < m.tasks.len() && (#[trigger] m.tasks[k]).id == m.completed[i].0 && is_terminal(
                m.tasks[k].status,
            );
        assert(m1.tasks[k].id == m.completed[i].0 && is_terminal(m1.tasks[k].status));
    }
    assert(m1.completed_wf());
}

/// The key of a freshly issued id exceeds the generator's previous key.
proof fn lemma_spec_next_key(g: TaskIdGenerator, now: u128)
    requires
        g.spec_can_issue(now),
    ensures
        g.spec_next(now).1.spec_key() == g.spec_next(now).0.spec_key(),
        g.spec_next(now).1.spec_key() > g.spec_key(),
        g.spec_next(now).0.spec_last() == now,
{
    let id = g.spec_next(now).1;
    let count = g.spec_next(now).0.spec_count();
    assert((now / crate::task_id::TIMESTAMP_SPLIT) * crate::task_id::TIMESTAMP_SPLIT + now
        % crate::task_id::TIMESTAMP_SPLIT == now && now / crate::task_id::TIMESTAMP_SPLIT
        < crate::task_id::TIMESTAMP_SPLIT && now % crate::task_id::TIMESTAMP_SPLIT
        < crate::task_id::TIMESTAMP_SPLIT) by (nonlinear_arith);
    assert(id.spec_timestamp() == now);
    if now != g.spec_last() {
        crate::task_id::lemma_key_order(g.spec_last() as int, g.spec_count() as int, now as int, count as int);
    }
}

/// Dequeuing preserves well-formedness and every entry's id and body.
pub proof fn lemma_dequeue_preserves_wf(m: StoreModel)
    requires
        m.wf(),
    ensures
        m.spec_dequeue().0.wf(),
        m.spec_dequeue().0.tasks.len() == m.tasks.len(),
        forall|k: int|
            0 <= k < m.tasks.len() ==> (#[trigger] m.spec_dequeue().0.tasks[k]).id
                == m.tasks[k].id && m.spec_dequeue().0.tasks[k].spec_task() == m.tasks[
                k
            ].spec_task(),
        m.queue.len() > 0 ==> m.spec_dequeue().0.queue == m.queue.skip(1),
        m.spec_dequeue().0.gen == m.gen,
        m.spec_dequeue().0.completed == m.completed,
{
    if m.queue.len() == 0 {
        return ;
    }
    let m1 = m.spec_dequeue().0;
    let k0 = m.queue[0];
    assert forall|i: int|
        0 <= i < m1.queue.len() implies m1.tasks[#[trigger] m1.queue[i]].status
        == StoredTaskStatus::Enqueued by {
        assert(m.queue[i + 1] == m1.queue[i]);
        assert(m.queue[0] < m.queue[i + 1]);
    }
    assert forall|k: int|
        0 <= k < m1.tasks.len() && (#[trigger] m1.tasks[k]).status
            == StoredTaskStatus::Enqueued implies m1.queue.contains(k) by {
        assert(m.tasks[k].status == StoredTaskStatus::Enqueued);
        assert(m.queue.contains(k));
        let p = choose|p: int| 0 <= p < m.queue.len() && m.queue[p] == k;
        assert(p != 0);
        assert(m1.queue[p - 1] == k);
    }
    assert(m1.queue_wf());
    assert(m1.tasks_wf());
    assert forall|i: int|
        0 <= i < m1.completed.len() implies m1.has_terminal_entry(
        (#[trigger] m1.completed[i]).0,
    ) by {
        assert(m.has_terminal_entry(m.completed[i].0));
        let k = choose|k: int|
            0 <= k < m.tasks.len() && (#[trigger] m.tasks[k]).id == m.completed[i].0 && is_terminal(
                m.tasks[k].status,
            );
        assert(k != k0);
        assert(m1.tasks[k].id == m.completed[i].0 && is_terminal(m1.tasks[k].status));
    }
    assert(m1.completed_wf());
}

/// Publishing preserves well-formedness.
pub proof fn lemma_publish_preserves_wf(m: StoreModel, id: TaskId, r: TaskResultView)
    requires
        m.wf(),
    ensures
        m.spec_publish(id, r).0.wf(),
{
    let m1 = m.spec_publish(id, r).0;
    if !m.spec_publish(id, r).1 {
        return ;
    }
    let k = task_index_of(m.tasks, id);
    lemma_task_index_of(m.tasks, id);
    assert forall|i: int|
        0 <= i < m1.queue.len() implies m1.tasks[#[trigger] m1.queue[i]].status
        == StoredTaskStatus::Enqueued by {
        assert(m.tasks[m.queue[i]].status == StoredTaskStatus::Enqueued);
        assert(m.queue[i] != k);
    }
    assert forall|j: int|
        0 <= j < m1.tasks.len() && (#[trigger] m1.tasks[j]).status
            == StoredTaskStatus::Enqueued implies m1.queue.contains(j) by {
        assert(j != k);
        assert(m.tasks[j].status == StoredTaskStatus::Enqueued);
        assert(m.queue.contains(j));
    }
    assert(m1.queue_wf());
    assert(m1.tasks_wf());
    assert forall|i: int|
        0 <= i < m1.completed.len() implies m1.has_terminal_entry(
        (#[trigger] m1.completed[i]).0,
    ) by {
        if i < m.completed.len() {
            assert(m.has_terminal_entry(m.completed[i].0));
            let k2 = choose|k2: int|
                0 <= k2 < m.tasks.len() && (#[trigger] m.tasks[k2]).id == m.completed[i].0
                    && is_terminal(m.tasks[k2].status);
            assert(k2 != k);
            assert(m1.tasks[k2].id == m.completed[i].0 && is_terminal(m1.tasks[k2].status));
        } else {
            assert(m1.completed[i].0 == id);
            assert(m1.tasks[k].id == id && is_terminal(m1.tasks[k].status));
        }
    }
    assert forall|i: int, j: int|
        0 <= i < j < m1.completed.len() implies (#[trigger] m1.completed[i]).0 != (
    #[trigger] m1.completed[j]).0 by {
        if j == m.completed.len() as int {
            if m.completed[i].0 == id {
                assert(m.has_terminal_entry(id));
                let k2 = choose|k2: int|
                    0 <= k2 < m.tasks.len() && (#[trigger] m.tasks[k2]).id == id && is_terminal(
                        m.tasks[k2].status,
                    );
                lemma_task_ids_unique(m, k2, k);
                assert(false);
            }
        }
    }
    assert(m1.completed_wf());
}

/// No id is both queued and completed: a queued entry is `Enqueued`, a
/// completed one is terminal, and ids name entries uniquely.
pub proof fn lemma_queue_completed_disjoint(m: StoreModel, qi: int, ci: int)
    requires
        m.wf(),
        0 <= qi < m.queue.len(),
        0 <= ci < m.completed.len(),
    ensures
        m.tasks[m.queue[qi]].id != m.completed[ci].0,
{
    let k = m.queue[qi];
    if m.tasks[k].id == m.completed[ci].0 {
        assert(m.has_terminal_entry(m.completed[ci].0));
        let k2 = choose|k2: int|
            0 <= k2 < m.tasks.len() && (#[trigger] m.tasks[k2]).id == m.completed[ci].0
                && is_terminal(m.tasks[k2].status);
        lemma_task_ids_unique(m, k, k2);
        assert(false);
    }
}

/// Dequeue is FIFO over residence time: the entry it returns is the
/// longest-resident `Enqueued` entry, since entries are appended in
/// insertion order and every older entry has left the `Enqueued` status.
pub proof fn lemma_dequeue_returns_oldest_enqueued(m: StoreModel)
    requires
        m.wf(),
        m.queue.len() > 0,
    ensures
        m.tasks[m.queue[0]].status == StoredTaskStatus::Enqueued,
        forall|k: int|
            0 <= k < m.queue[0] ==> (#[trigger] m.tasks[k]).status != StoredTaskStatus::Enqueued,
{
    assert forall|k: int|
        0 <= k < m.queue[0] implies (#[trigger] m.tasks[k]).status
        != StoredTaskStatus::Enqueued by {
        if m.tasks[k].status == StoredTaskStatus::Enqueued {
            assert(m.queue.contains(k));
            let p = choose|p: int| 0 <= p < m.queue.len() && m.queue[p] == k;
            if p > 0 {
                assert(m.queue[0] < m.queue[p]);
            }
        }
    }
}

/// The store after `n` dequeues, oldest first.
pub open spec fn after_dequeues(m: StoreModel, n: int) -> StoreModel
    decreases n,
{
    if n <= 0 {
        m
    } else {
        after_dequeues(m.spec_dequeue().0, n - 1)
    }
}

/// The `n`th dequeue (counting from zero) returns the id and body of the
/// `n`th queued entry, and the store stays well-formed throughout.
pub proof fn lemma_dequeue_n(m: StoreModel, n: int)
    requires
        m.wf(),
        0 <= n < m.queue.len(),
    ensures
        after_dequeues(m, n).wf(),
        after_dequeues(m, n).queue == m.queue.skip(n),
        after_dequeues(m, n).tasks.len() == m.tasks.len(),
        forall|k: int|
            0 <= k < m.tasks.len() ==> (#[trigger] after_dequeues(m, n).tasks[k]).id == m.tasks[
                k
            ].id && after_dequeues(m, n).tasks[k].spec_task() == m.tasks[k].spec_task(),
        after_dequeues(m, n).spec_dequeue().1 == Some(
            (m.tasks[m.queue[n]].id, m.tasks[m.queue[n]].spec_task()),
        ),
    decreases n,
{
    if n == 0 {
        assert(after_dequeues(m, 0) == m);
    } else {
        let m1 = m.spec_dequeue().0;
        lemma_dequeue_preserves_wf(m);
        lemma_dequeue_n(m1, n - 1);
        assert(m1.queue.skip(n - 1) =~= m.queue.skip(n));
        assert(m1.queue[n - 1] == m.queue[n]);
    }
}

/// Every pushed task is eventually dequeued: once the entries queued ahead
/// of it are drained, the very next dequeue returns its id and body.
pub proof fn lemma_push_then_dequeue(m: StoreModel, now: u128, t: TaskView)
    requires
        m.wf(),
        m.can_push(now),
    ensures
        after_dequeues(m.spec_push(now, t).0, m.queue.len() as int).spec_dequeue().1 == Some(
            (m.spec_push(now, t).1, t),
        ),
{
    let m1 = m.spec_push(now, t).0;
    let id = m.spec_push(now, t).1;
    let n = m.queue.len() as int;
    lemma_push_preserves_wf(m, now, t);
    assert(m1.queue[n] == m.tasks.len() as int);
    lemma_dequeue_n(m1, n);
    assert(m1.tasks[m.tasks.len() as int].id == id);
    assert(m1.tasks[m.tasks.len() as int].spec_task() =~= t);
}

/// Whether `n` pushes at time `now` are possible; forced by machine limits.
pub open spec fn can_push_all(m: StoreModel, now: u128, n: int) -> bool {
    now >= m.gen.spec_last() && m.gen.spec_count() + n <= u32::MAX && n >= 0
}

/// The store after pushing each task of `ts` in order at time `now`.
pub open spec fn after_pushes(m: StoreModel, now: u128, ts: Seq<TaskView>) -> StoreModel
    decreases ts.len(),
{
    if ts.len() == 0 {
        m
    } else {
        after_pushes(m, now, ts.drop_last()).spec_push(now, ts.last()).0
    }
}

/// The ids those pushes return, in order.
pub open spec fn pushed_ids(m: StoreModel, now: u128, ts: Seq<TaskView>) -> Seq<TaskId>
    decreases ts.len(),
{
    if ts.len() == 0 {
        Seq::empty()
    } else {
        pushed_ids(m, now, ts.drop_last()).push(
            after_pushes(m, now, ts.drop_last()).spec_push(now, ts.last()).1,
        )
    }
}

/// Pushing a sequence of tasks appends their entries in order, queues their
/// indices in order, and keeps the store well-formed.
pub proof fn lemma_after_pushes(m: StoreModel, now: u128, ts: Seq<TaskView>)
    requires
        m.wf(),
        can_push_all(m, now, ts.len() as int),
    ensures
        after_pushes(m, now, ts).wf(),
        after_pushes(m, now, ts).tasks.len() == m.tasks.len() + ts.len(),
        pushed_ids(m, now, ts).len() == ts.len(),
        forall|j: int|
            0 <= j < m.tasks.len() ==> (#[trigger] after_pushes(m, now, ts).tasks[j]) == m.tasks[j],
        forall|j: int|
            0 <= j < ts.len() ==> (#[trigger] after_pushes(m, now, ts).tasks[m.tasks.len() + j]).id
                == pushed_ids(m, now, ts)[j] && after_pushes(m, now, ts).tasks[m.tasks.len()
                + j].spec_task() == ts[j] && after_pushes(m, now, ts).tasks[m.tasks.len()
                + j].status == StoredTaskStatus::Enqueued,
        after_pushes(m, now, ts).queue == m.queue + Seq::new(
            ts.len(),
            |j: int| m.tasks.len() + j,
        ),
        after_pushes(m, now, ts).completed == m.completed,
        after_pushes(m, now, ts).gen.spec_last() == if ts.len() == 0 {
            m.gen.spec_last() as int
        } else {
            now as int
        },
        after_pushes(m, now, ts).gen.spec_count() <= m.gen.spec_count() + ts.len(),
    decreases ts.len(),
{
    if ts.len() == 0 {
        assert(m.queue + Seq::new(0, |j: int| m.tasks.len() + j) =~= m.queue);
    } else {
        let prior = ts.drop_last();
        lemma_after_pushes(m, now, prior);
        let mp = after_pushes(m, now, prior);
        assert(mp.can_push(now));
        lemma_push_preserves_wf(mp, now, ts.last());
        let m1 = after_pushes(m, now, ts);
        assert(m1.queue =~= m.queue + Seq::new(ts.len(), |j: int| m.tasks.len() + j));
        assert(m1.tasks[m.tasks.len() + (ts.len() - 1)].spec_task() =~= ts.last());
        assert forall|j: int|
            0 <= j < ts.len() implies (#[trigger] m1.tasks[m.tasks.len() + j]).id == pushed_ids(
            m,
            now,
            ts,
        )[j] && m1.tasks[m.tasks.len() + j].spec_task() == ts[j] && m1.tasks[m.tasks.len()
            + j].status == StoredTaskStatus::Enqueued by {
            if j < ts.len() - 1 {
                assert(mp.tasks[m.tasks.len() + j].spec_task() == prior[j]);
                assert(prior[j] == ts[j]);
            }
        }
    }
}

/// FIFO delivery: after `n` pushes onto an empty queue, the `i`th dequeue
/// returns the `i`th task with its matching id.
pub proof fn lemma_fifo(m: StoreModel, now: u128, ts: Seq<TaskView>, i: int)
    requires
        m.wf(),
        m.queue.len() == 0,
        can_push_all(m, now, ts.len() as int),
        0 <= i < ts.len(),
    ensures
        after_dequeues(after_pushes(m, now, ts), i).spec_dequeue().1 == Some(
            (pushed_ids(m, now, ts)[i], ts[i]),
        ),
{
    lemma_after_pushes(m, now, ts);
    let m1 = after_pushes(m, now, ts);
    assert(m1.queue =~= Seq::new(ts.len(), |j: int| m.tasks.len() + j));
    lemma_dequeue_n(m1, i);
    assert(m1.queue[i] == m.tasks.len() + i);
    assert(m1.tasks[m.tasks.len() + i].id == pushed_ids(m, now, ts)[i]);
    assert(m1.tasks[m.tasks.len() + i].spec_task() == ts[i]);
}

/// A published result is exactly what the next take for that id returns.
pub proof fn lemma_publish_then_take(m: StoreModel, id: TaskId, r: TaskResultView)
    requires
        m.wf(),
        m.spec_publish(id, r).1,
    ensures
        m.spec_publish(id, r).0.spec_take_completed(id).1 == CompletionPollView::Ready(r),
{
    let m1 = m.spec_publish(id, r).0;
    let k = task_index_of(m.tasks, id);
    lemma_task_index_of(m.tasks, id);
    assert forall|j: int| 0 <= j < m.completed.len() implies (#[trigger] m.completed[j]).0
        != id by {
        if m.completed[j].0 == id {
            assert(m.has_terminal_entry(id));
            let k2 = choose|k2: int|
                0 <= k2 < m.tasks.len() && (#[trigger] m.tasks[k2]).id == id && is_terminal(
                    m.tasks[k2].status,
                );
            lemma_task_ids_unique(m, k2, k);
        }
    }
    lemma_completed_index_of_agrees(m1.completed, id, m.completed.len() as int);
}

/// An id the store has never seen stays pending: taking it changes nothing
/// and reports that the caller must keep waiting.
pub proof fn lemma_take_unknown_pending(m: StoreModel, id: TaskId)
    requires
        m.wf(),
        forall|k: int| 0 <= k < m.tasks.len() ==> (#[trigger] m.tasks[k]).id != id,
    ensures
        m.spec_take_completed(id).0 == m,
        m.spec_take_completed(id).1 == CompletionPollView::Pending,
{
    lemma_completed_index_of(m.completed, id);
    if completed_index_of(m.completed, id) < m.completed.len() {
        let j = completed_index_of(m.completed, id);
        assert(m.has_terminal_entry(m.completed[j].0));
        let k2 = choose|k2: int|
            0 <= k2 < m.tasks.len() && (#[trigger] m.tasks[k2]).id == id && is_terminal(
                m.tasks[k2].status,
            );
        assert(false);
    }
    lemma_task_index_of(m.tasks, id);
    if task_index_of(m.tasks, id) < m.tasks.len() {
        assert(m.tasks[task_index_of(m.tasks, id)].id == id);
        assert(false);
    }
}

/// Consuming a completion preserves well-formedness.
pub proof fn lemma_take_preserves_wf(m: StoreModel, id: TaskId)
    requires
        m.wf(),
    ensures
        m.spec_take_completed(id).0.wf(),
        m.spec_take_completed(id).0.tasks == m.tasks,
        m.spec_take_completed(id).0.queue == m.queue,
        m.spec_take_completed(id).0.gen == m.gen,
{
    let m1 = m.spec_take_completed(id).0;
    let i = completed_index_of(m.completed, id);
    lemma_completed_index_of(m.completed, id);
    if i < m.completed.len() {
        assert forall|x: int|
            0 <= x < m1.completed.len() implies m1.has_terminal_entry(
            (#[trigger] m1.completed[x]).0,
        ) by {
            if x < i {
                assert(m1.completed[x] == m.completed[x]);
            } else {
                assert(m1.completed[x] == m.completed[x + 1]);
            }
        }
        assert forall|x: int, y: int|
            0 <= x < y < m1.completed.len() implies (#[trigger] m1.completed[x]).0 != (
        #[trigger] m1.completed[y]).0 by {
            let x0 = if x < i {
                x
            } else {
                x + 1
            };
            let y0 = if y < i {
                y
            } else {
                y + 1
            };
            assert(m1.completed[x] == m.completed[x0]);
            assert(m1.completed[y] == m.completed[y0]);
        }
        assert(m1.completed_wf());
    }
}

} // verus!
