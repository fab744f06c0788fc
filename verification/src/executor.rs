//! The task executor's dispatcher: it matches tasks dequeued from the store
//! with worker threads that reported ready, buffering whichever side is
//! waiting. Tasks leave the buffer oldest first; ready workers are taken
//! most recent first, which keeps a warm worker busy. The pending buffer
//! never grows past its soft cap, because the dispatcher stops polling the
//! store at the cap.
//!
//! The worker side is a small state machine: a worker reports ready, runs
//! one task at a time, reports its completion, and stops when its channel
//! closes. A host exception never escapes; it becomes a failure result.

use vstd::prelude::*;
use crate::messages::{Task, TaskResult, TaskView};
use crate::task_id::TaskId;

verus! {

/// ID associated with a worker thread created by the task executor.
pub type ThreadId = usize;

/// How many dequeued tasks the dispatcher will hold while no worker is
/// ready, before it stops polling the store.
pub const PENDING_CAP: usize = 100;

/// Options for configuring the task executor.
#[derive(Debug, Clone, Copy, PartialEq, Eq, Structural)]
pub struct TaskExecutorOptions {
    /// Number of worker threads to create.
    pub rb_thread_count: usize,
}

/// A message a worker sends the dispatcher.
#[derive(Debug, Clone, PartialEq, Eq)]
pub enum ThreadMessage {
    /// The worker is idle and ready to accept a task.
    ThreadReady(ThreadId),
    /// The worker finished a task, successfully or not.
    TaskComplete(TaskId, TaskResult),
}

/// What a dispatcher turn is about: a worker message, or the next task
/// dequeued from the store.
#[derive(Debug, Clone, PartialEq, Eq)]
pub enum TaskOutputKind {
    ThreadReady(ThreadId),
    TaskComplete(TaskId, TaskResult),
    NextTask(TaskId, Task),
}

impl TaskOutputKind {
    /// A worker message as a dispatcher turn.
    pub fn from_message(value: ThreadMessage) -> (r: TaskOutputKind)
        ensures
            match value {
                ThreadMessage::ThreadReady(id) => r == TaskOutputKind::ThreadReady(id),
                ThreadMessage::TaskComplete(id, res) => r == TaskOutputKind::TaskComplete(
                    id,
                    res,
                ),
            },
    {
        match value {
            ThreadMessage::ThreadReady(id) => TaskOutputKind::ThreadReady(id),
            ThreadMessage::TaskComplete(id, res) => TaskOutputKind::TaskComplete(id, res),
        }
    }
}

/// The side effect a dispatcher turn asks for.
#[derive(Debug, Clone, PartialEq, Eq)]
pub enum DispatchAction {
    /// Send the task to this worker's channel; the worker is ready, so the
    /// single-slot channel is empty and the send cannot block.
    RunOnThread(ThreadId, TaskId, Task),
    /// Nothing to do outside: the task or the worker was buffered.
    Buffered,
    /// Record this result in the store for the task named.
    Publish(TaskId, TaskResult),
}

/// The mathematical value of the dispatcher state.
#[verifier::ext_equal]
pub struct TaskExecutorModel {
    pub task_buf: Seq<(TaskId, TaskView)>,
    pub ready_buf: Seq<ThreadId>,
    pub thread_count: int,
}

impl TaskExecutorModel {
    /// The dispatcher's invariant: the pending buffer respects the cap and
    /// ready workers are the ids of created workers.
    pub open spec fn wf(self) -> bool {
        &&& self.task_buf.len() <= PENDING_CAP
        &&& forall|i: int|
            0 <= i < self.ready_buf.len() ==> (#[trigger] self.ready_buf[i]) < self.thread_count
    }
}

/// The dispatcher state: tasks waiting for a worker, and workers waiting
/// for a task. At most one of the two buffers is non-empty at rest.
#[derive(Debug)]
pub struct TaskExecutor {
    pub task_buf: Vec<(TaskId, Task)>,
    pub thread_ready_buf: Vec<ThreadId>,
    pub thread_count: usize,
}

impl View for TaskExecutor {
    type V = TaskExecutorModel;

    open spec fn view(&self) -> TaskExecutorModel {
        TaskExecutorModel {
            task_buf: self.task_buf@.map_values(|p: (TaskId, Task)| (p.0, p.1@)),
            ready_buf: self.thread_ready_buf@,
            thread_count: self.thread_count as int,
        }
    }
}

impl TaskExecutor {
    /// A dispatcher for `options.rb_thread_count` workers, with empty
    /// buffers.
    pub fn new(options: &TaskExecutorOptions) -> (r: TaskExecutor)
        ensures
            r@.wf(),
            r@.task_buf.len() == 0,
            r@.ready_buf.len() == 0,
            r@.thread_count == options.rb_thread_count,
    {
        let r = TaskExecutor {
            task_buf: Vec::new(),
            thread_ready_buf: Vec::new(),
            thread_count: options.rb_thread_count,
        };
        proof {
            assert(r@.task_buf =~= Seq::<(TaskId, TaskView)>::empty());
        }
        r
    }

    /// Whether the dispatcher may poll the store for another task: only
    /// while the pending buffer is below its cap, which is the backpressure
    /// that keeps the buffer bounded.
    pub fn wants_next_task(&self) -> (r: bool)
        ensures
            r == (self@.task_buf.len() < PENDING_CAP),
    {
        self.task_buf.len() < PENDING_CAP
    }

    /// One dispatcher turn. A dequeued task goes to the most recently ready
    /// worker, or waits in the buffer. A ready worker takes the oldest
    /// buffered task, or waits. A completion is handed back for the store.
    /// The pending buffer never exceeds its cap.
    pub fn on_task_ready(&mut self, output: TaskOutputKind) -> (r: DispatchAction)
        requires
            old(self)@.wf(),
            output matches TaskOutputKind::NextTask(_, _) ==> old(self)@.task_buf.len()
                < PENDING_CAP,
            output matches TaskOutputKind::ThreadReady(id) ==> id < old(self)@.thread_count,
        ensures
            final(self)@.wf(),
            final(self)@.thread_count == old(self)@.thread_count,
            match output {
                TaskOutputKind::NextTask(task_id, task) => {
                    if old(self)@.ready_buf.len() > 0 {
                        &&& r == DispatchAction::RunOnThread(
                            old(self)@.ready_buf.last(),
                            task_id,
                            task,
                        )
                        &&& final(self)@.ready_buf == old(self)@.ready_buf.drop_last()
                        &&& final(self)@.task_buf == old(self)@.task_buf
                    } else {
                        &&& r == DispatchAction::Buffered
                        &&& final(self)@.task_buf == old(self)@.task_buf.push((task_id, task@))
                        &&& final(self)@.ready_buf == old(self)@.ready_buf
                    }
                },
                TaskOutputKind::ThreadReady(id) => {
                    if old(self)@.task_buf.len() > 0 {
                        &&& r matches DispatchAction::RunOnThread(tid, task_id, task) && tid == id
                            && task_id == old(self)@.task_buf[0].0 && task@ == old(
                            self,
                        )@.task_buf[0].1
                        &&& final(self)@.task_buf == old(self)@.task_buf.skip(1)
                        &&& final(self)@.ready_buf == old(self)@.ready_buf
                    } else {
                        &&& r == DispatchAction::Buffered
                        &&& final(self)@.ready_buf == old(self)@.ready_buf.push(id)
                        &&& final(self)@.task_buf == old(self)@.task_buf
                    }
                },
                TaskOutputKind::TaskComplete(id, res) => {
                    &&& r == DispatchAction::Publish(id, res)
                    &&& *final(self) == *old(self)
                },
            },
    {
        match output {
            TaskOutputKind::NextTask(task_id, task) => {
                match self.thread_ready_buf.pop() {
                    Some(thread_id) => {
                        proof {
                            assert(self@.task_buf =~= old(self)@.task_buf);
                        }
                        DispatchAction::RunOnThread(thread_id, task_id, task)
                    },
                    None => {
                        let ghost prior = self@.task_buf;
                        self.task_buf.push((task_id, task));
                        proof {
                            assert(self@.task_buf =~= prior.push(
                                (task_id, task@),
                            ));
                        }
                        DispatchAction::Buffered
                    },
                }
            },
            TaskOutputKind::ThreadReady(thread_id) => {
                if self.task_buf.len() > 0 {
                    let (task_id, task) = self.task_buf.remove(0);
                    proof {
                        assert(self@.task_buf =~= old(self)@.task_buf.skip(1));
                    }
                    DispatchAction::RunOnThread(thread_id, task_id, task)
                } else {
                    self.thread_ready_buf.push(thread_id);
                    proof {
                        assert(self@.task_buf =~= old(self)@.task_buf);
                    }
                    DispatchAction::Buffered
                }
            },
            TaskOutputKind::TaskComplete(task_id, result) => {
                DispatchAction::Publish(task_id, result)
            },
        }
    }
}

/// The state a worker is in, as the dispatcher understands it.
#[derive(Debug, Clone, Copy, PartialEq, Eq, Structural)]
pub enum WorkerState {
    /// Spawned, not yet announced.
    Created,
    /// Announced ready; its task channel is empty.
    Ready,
    /// Running the named task.
    Busy(TaskId),
    /// Its channel closed; the worker has left its loop.
    Stopped,
}

/// What happens to a worker.
#[derive(Debug, Clone, PartialEq, Eq)]
pub enum WorkerEvent {
    /// The worker's loop started.
    Started,
    /// A task arrived on the worker's channel.
    TaskAssigned(TaskId, Task),
    /// The host callable returned or raised. A raised exception has been
    /// caught and turned into a failure result: either way a result exists.
    CallFinished(TaskResult),
    /// The dispatcher dropped the sending end of the worker's channel.
    ChannelClosed,
}

/// One step of worker `me`'s loop: the next state and the messages the
/// worker sends the dispatcher, in order. Starting announces readiness; an
/// assignment makes the worker busy; a finished call reports the completion
/// and then fresh readiness; a closed channel stops the worker. Anything
/// out of protocol changes nothing.
pub fn worker_step(me: ThreadId, state: WorkerState, event: WorkerEvent) -> (r: (
    WorkerState,
    Vec<ThreadMessage>,
))
    ensures
        match (state, event) {
            (WorkerState::Created, WorkerEvent::Started) => r.0 == WorkerState::Ready && r.1@
                == seq![ThreadMessage::ThreadReady(me)],
            (WorkerState::Ready, WorkerEvent::TaskAssigned(id, _)) => r.0 == WorkerState::Busy(id)
                && r.1@.len() == 0,
            (WorkerState::Busy(id), WorkerEvent::CallFinished(res)) => r.0 == WorkerState::Ready
                && r.1@.len() == 2 && r.1@[0] == ThreadMessage::TaskComplete(id, res) && r.1@[1]
                == ThreadMessage::ThreadReady(me),
            (_, WorkerEvent::ChannelClosed) => r.0 == WorkerState::Stopped && r.1@.len() == 0,
            _ => r.0 == state && r.1@.len() == 0,
        },
{
    match (state, event) {
        (WorkerState::Created, WorkerEvent::Started) => {
            let mut msgs: Vec<ThreadMessage> = Vec::new();
            msgs.push(ThreadMessage::ThreadReady(me));
            proof {
                assert(msgs@ =~= seq![ThreadMessage::ThreadReady(me)]);
            }
            (WorkerState::Ready, msgs)
        },
        (WorkerState::Ready, WorkerEvent::TaskAssigned(id, _)) => {
            (WorkerState::Busy(id), Vec::new())
        },
        (WorkerState::Busy(id), WorkerEvent::CallFinished(res)) => {
            let mut msgs: Vec<ThreadMessage> = Vec::new();
            msgs.push(ThreadMessage::TaskComplete(id, res));
            msgs.push(ThreadMessage::ThreadReady(me));
            (WorkerState::Ready, msgs)
        },
        (_, WorkerEvent::ChannelClosed) => {
            (WorkerState::Stopped, Vec::new())
        },
        (s, _) => {
            (s, Vec::new())
        },
    }
}

/// The failure result a caught host exception becomes: the exception's
/// class, message and backtrace, carried verbatim.
pub fn host_exception_to_result(class: Vec<u8>, message: Vec<u8>, backtrace: Vec<Vec<u8>>) -> (r:
    TaskResult)
    ensures
        r == (TaskResult::Failure { class, message, backtrace }),
{
    TaskResult::Failure { class, message, backtrace }
}

} // verus!
