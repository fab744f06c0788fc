//! Protocol data: tasks, task results, requests and responses, and the
//! store-state snapshot, together with their mathematical views. Text fields
//! are held as bytes; the wire carries them inside JSON strings.

use vstd::prelude::*;
use crate::task_id::TaskId;

verus! {

/// A task as submitted over the wire: the queue it is aimed at, the name of
/// the callable in the host runtime, and two opaque serialized payloads.
#[derive(Debug, Clone, PartialEq, Eq)]
pub struct NewTask {
    pub queue: Vec<u8>,
    pub definition: Vec<u8>,
    pub args: Vec<u8>,
    pub kwargs: Vec<u8>,
}

/// An enqueued unit of work; immutable once created.
#[derive(Debug, Clone, PartialEq, Eq)]
pub struct Task {
    pub definition: Vec<u8>,
    pub args: Vec<u8>,
    pub kwargs: Vec<u8>,
}

/// The outcome of running a task: an opaque serialized return value, or the
/// host exception that ended it.
#[derive(Debug, Clone, PartialEq, Eq)]
pub enum TaskResult {
    Success { result: Vec<u8> },
    Failure { class: Vec<u8>, message: Vec<u8>, backtrace: Vec<Vec<u8>> },
}

/// The status a stored task is in. `Retrying` is reserved for retry policies
/// and never entered by the dispatcher here.
#[derive(Debug, Clone, Copy, PartialEq, Eq, Structural)]
pub enum StoredTaskStatus {
    Enqueued,
    Processing,
    Completed,
    Retrying,
    Failed,
}

/// One entry of a store-state snapshot.
#[derive(Debug, Clone, PartialEq, Eq)]
pub struct StoredTask {
    pub id: TaskId,
    pub status: StoredTaskStatus,
    pub definition: Vec<u8>,
    pub args: Vec<u8>,
    pub kwargs: Vec<u8>,
}

/// A snapshot of every entry the store knows, in insertion order.
#[derive(Debug, Clone, PartialEq, Eq)]
pub struct StoreState {
    pub tasks: Vec<StoredTask>,
}

/// A request made by a TCP client.
#[derive(Debug, Clone, PartialEq, Eq)]
pub enum MavrikRequest {
    /// A new task being submitted.
    NewTask(NewTask),
    /// Wait for a task to finish and return its result.
    AwaitTask { task_id: TaskId },
    /// Get the state of the storage container.
    GetStoreState,
    /// Request to terminate the server.
    Terminate,
}

/// A response given to a TCP client.
#[derive(Debug, Clone, PartialEq, Eq)]
pub enum MavrikResponse {
    /// The id assigned to a newly submitted task.
    NewTaskId(TaskId),
    /// The result of waiting for a task to complete.
    CompletedTask(TaskResult),
    /// The state of the storage container.
    StoreState(StoreState),
    /// Whether a request for termination was fulfilled.
    Terminated(bool),
}

/// The mathematical value of a `Task`.
#[verifier::ext_equal]
pub struct TaskView {
    pub definition: Seq<u8>,
    pub args: Seq<u8>,
    pub kwargs: Seq<u8>,
}

impl View for Task {
    type V = TaskView;

    open spec fn view(&self) -> TaskView {
        TaskView { definition: self.definition@, args: self.args@, kwargs: self.kwargs@ }
    }
}

/// The mathematical value of a `NewTask`.
#[verifier::ext_equal]
pub struct NewTaskView {
    pub queue: Seq<u8>,
    pub definition: Seq<u8>,
    pub args: Seq<u8>,
    pub kwargs: Seq<u8>,
}

impl View for NewTask {
    type V = NewTaskView;

    open spec fn view(&self) -> NewTaskView {
        NewTaskView {
            queue: self.queue@,
            definition: self.definition@,
            args: self.args@,
            kwargs: self.kwargs@,
        }
    }
}

impl NewTaskView {
    /// The task a submission turns into: the queue name is dropped.
    pub open spec fn spec_task(self) -> TaskView {
        TaskView { definition: self.definition, args: self.args, kwargs: self.kwargs }
    }
}

impl Task {
    /// Turn a submission into the task to store.
    pub fn from_new_task(value: NewTask) -> (r: Task)
        ensures
            r@ == value@.spec_task(),
    {
        Task { definition: value.definition, args: value.args, kwargs: value.kwargs }
    }
}

/// The mathematical value of a `TaskResult`.
#[verifier::ext_equal]
pub enum TaskResultView {
    Success { result: Seq<u8> },
    Failure { class: Seq<u8>, message: Seq<u8>, backtrace: Seq<Seq<u8>> },
}

impl View for TaskResult {
    type V = TaskResultView;

    open spec fn view(&self) -> TaskResultView {
        match self {
            TaskResult::Success { result } => TaskResultView::Success { result: result@ },
            TaskResult::Failure { class, message, backtrace } => TaskResultView::Failure {
                class: class@,
                message: message@,
                backtrace: backtrace.deep_view(),
            },
        }
    }
}

/// The mathematical value of a `StoredTask`.
#[verifier::ext_equal]
pub struct StoredTaskView {
    pub id: TaskId,
    pub status: StoredTaskStatus,
    pub definition: Seq<u8>,
    pub args: Seq<u8>,
    pub kwargs: Seq<u8>,
}

impl View for StoredTask {
    type V = StoredTaskView;

    open spec fn view(&self) -> StoredTaskView {
        StoredTaskView {
            id: self.id,
            status: self.status,
            definition: self.definition@,
            args: self.args@,
            kwargs: self.kwargs@,
        }
    }
}

impl DeepView for StoredTask {
    type V = StoredTaskView;

    open spec fn deep_view(&self) -> StoredTaskView {
        self@
    }
}

impl StoredTaskView {
    /// The task body this entry records.
    pub open spec fn spec_task(self) -> TaskView {
        TaskView { definition: self.definition, args: self.args, kwargs: self.kwargs }
    }
}

impl View for StoreState {
    type V = Seq<StoredTaskView>;

    open spec fn view(&self) -> Seq<StoredTaskView> {
        self.tasks.deep_view()
    }
}

/// The mathematical value of a `MavrikRequest`.
#[verifier::ext_equal]
pub enum MavrikRequestView {
    NewTask(NewTaskView),
    AwaitTask { task_id: TaskId },
    GetStoreState,
    Terminate,
}

impl View for MavrikRequest {
    type V = MavrikRequestView;

    open spec fn view(&self) -> MavrikRequestView {
        match self {
            MavrikRequest::NewTask(t) => MavrikRequestView::NewTask(t@),
            MavrikRequest::AwaitTask { task_id } => MavrikRequestView::AwaitTask {
                task_id: *task_id,
            },
            MavrikRequest::GetStoreState => MavrikRequestView::GetStoreState,
            MavrikRequest::Terminate => MavrikRequestView::Terminate,
        }
    }
}

/// The mathematical value of a `MavrikResponse`.
#[verifier::ext_equal]
pub enum MavrikResponseView {
    NewTaskId(TaskId),
    CompletedTask(TaskResultView),
    StoreState(Seq<StoredTaskView>),
    Terminated(bool),
}

impl View for MavrikResponse {
    type V = MavrikResponseView;

    open spec fn view(&self) -> MavrikResponseView {
        match self {
            MavrikResponse::NewTaskId(id) => MavrikResponseView::NewTaskId(*id),
            MavrikResponse::CompletedTask(r) => MavrikResponseView::CompletedTask(r@),
            MavrikResponse::StoreState(s) => MavrikResponseView::StoreState(s@),
            MavrikResponse::Terminated(b) => MavrikResponseView::Terminated(*b),
        }
    }
}

} // verus!
