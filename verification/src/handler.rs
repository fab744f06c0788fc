//! The per-connection request handler: it turns one request into store
//! operations and the response to write back, or into a suspension when the
//! awaited task has not finished, or into a termination of the whole server.

use vstd::prelude::*;
use crate::messages::{
    MavrikRequest, MavrikResponse, MavrikResponseView, Task, TaskResult, TaskResultView,
};
use crate::store::{CompletionPoll, CompletionPollView, TasksInMemory};
use crate::task_id::TaskId;

verus! {

/// The bytes of `Mavrik::Error`, the class reported for server-side
/// failures.
pub open spec fn spec_error_class() -> Seq<u8> {
    seq![0x4d, 0x61, 0x76, 0x72, 0x69, 0x6b, 0x3a, 0x3a, 0x45, 0x72, 0x72, 0x6f, 0x72]
}

/// The bytes of `Mavrik::Error`.
pub fn error_class() -> (r: Vec<u8>)
    ensures
        r@ == spec_error_class(),
{
    let mut r: Vec<u8> = Vec::new();
    r.push(0x4d);
    r.push(0x61);
    r.push(0x76);
    r.push(0x72);
    r.push(0x69);
    r.push(0x6b);
    r.push(0x3a);
    r.push(0x3a);
    r.push(0x45);
    r.push(0x72);
    r.push(0x72);
    r.push(0x6f);
    r.push(0x72);
    proof {
        assert(r@ =~= spec_error_class());
    }
    r
}

/// The bytes of `no task w/ ID `.
pub open spec fn spec_no_task_prefix() -> Seq<u8> {
    seq![0x6e, 0x6f, 0x20, 0x74, 0x61, 0x73, 0x6b, 0x20, 0x77, 0x2f, 0x20, 0x49, 0x44, 0x20]
}

/// The bytes of `no task w/ ID `.
pub fn no_task_prefix() -> (r: Vec<u8>)
    ensures
        r@ == spec_no_task_prefix(),
{
    let mut r: Vec<u8> = Vec::new();
    r.push(0x6e);
    r.push(0x6f);
    r.push(0x20);
    r.push(0x74);
    r.push(0x61);
    r.push(0x73);
    r.push(0x6b);
    r.push(0x20);
    r.push(0x77);
    r.push(0x2f);
    r.push(0x20);
    r.push(0x49);
    r.push(0x44);
    r.push(0x20);
    proof {
        assert(r@ =~= spec_no_task_prefix());
    }
    r
}

/// The bytes of ` found`.
pub open spec fn spec_no_task_suffix() -> Seq<u8> {
    seq![0x20, 0x66, 0x6f, 0x75, 0x6e, 0x64]
}

/// The bytes of ` found`.
pub fn no_task_suffix() -> (r: Vec<u8>)
    ensures
        r@ == spec_no_task_suffix(),
{
    let mut r: Vec<u8> = Vec::new();
    r.push(0x20);
    r.push(0x66);
    r.push(0x6f);
    r.push(0x75);
    r.push(0x6e);
    r.push(0x64);
    proof {
        assert(r@ =~= spec_no_task_suffix());
    }
    r
}

/// The failure returned for an await whose result was already consumed:
/// class `Mavrik::Error`, a message naming the id, and no backtrace.
pub open spec fn spec_not_found_failure(id: TaskId) -> TaskResultView {
    TaskResultView::Failure {
        class: spec_error_class(),
        message: spec_no_task_prefix() + id.spec_display_bytes() + spec_no_task_suffix(),
        backtrace: Seq::empty(),
    }
}

/// What handling one request asks the connection driver to do.
#[derive(Debug, Clone, PartialEq, Eq)]
pub enum HandlerOutcome {
    /// Write this response and read the next request.
    Respond(MavrikResponse),
    /// Nothing to write back until the named task finishes; handle the
    /// same request once more after its completion arrives.
    Suspend(TaskId),
    /// Write this response, propagate termination to the supervisor, and
    /// stop serving.
    RespondAndTerminate(MavrikResponse),
}

/// Handle one request against the store. A submission is pushed and its
/// fresh id returned; an await consumes a present result, reports a
/// consumed one as a failure, and suspends otherwise; a state query
/// snapshots the store; a termination request is acknowledged and passed
/// upward.
pub fn handle_request(store: &mut TasksInMemory, now: u128, req: MavrikRequest) -> (r:
    HandlerOutcome)
    requires
        old(store)@.wf(),
        req is NewTask ==> old(store)@.can_push(now),
    ensures
        final(store)@.wf(),
        match req {
            MavrikRequest::NewTask(t) => {
                &&& final(store)@ == old(store)@.spec_push(now, t@.spec_task()).0
                &&& r == HandlerOutcome::Respond(
                    MavrikResponse::NewTaskId(old(store)@.spec_push(now, t@.spec_task()).1),
                )
            },
            MavrikRequest::AwaitTask { task_id } => {
                &&& final(store)@ == old(store)@.spec_take_completed(task_id).0
                &&& match old(store)@.spec_take_completed(task_id).1 {
                    CompletionPollView::Ready(res) => r matches HandlerOutcome::Respond(resp)
                        && resp@ == MavrikResponseView::CompletedTask(res),
                    CompletionPollView::NotFound => r matches HandlerOutcome::Respond(resp)
                        && resp@ == MavrikResponseView::CompletedTask(
                        spec_not_found_failure(task_id),
                    ),
                    CompletionPollView::Pending => r == HandlerOutcome::Suspend(task_id),
                }
            },
            MavrikRequest::GetStoreState => {
                &&& *final(store) == *old(store)
                &&& r matches HandlerOutcome::Respond(resp) && resp@
                    == MavrikResponseView::StoreState(old(store)@.tasks)
            },
            MavrikRequest::Terminate => {
                &&& *final(store) == *old(store)
                &&& r == HandlerOutcome::RespondAndTerminate(MavrikResponse::Terminated(true))
            },
        },
{
    match req {
        MavrikRequest::NewTask(t) => {
            let ghost tv = t@;
            let queue = t.queue;
            let task = Task { definition: t.definition, args: t.args, kwargs: t.kwargs };
            proof {
                assert(task@ == tv.spec_task());
            }
            let id = store.push(now, &queue, task);
            HandlerOutcome::Respond(MavrikResponse::NewTaskId(id))
        },
        MavrikRequest::AwaitTask { task_id } => {
            match store.take_completed(task_id) {
                CompletionPoll::Ready(res) => HandlerOutcome::Respond(
                    MavrikResponse::CompletedTask(res),
                ),
                CompletionPoll::NotFound => {
                    let mut message = no_task_prefix();
                    let mut id_text = task_id.display_bytes();
                    message.append(&mut id_text);
                    let mut suffix = no_task_suffix();
                    message.append(&mut suffix);
                    let failure = TaskResult::Failure {
                        class: error_class(),
                        message,
                        backtrace: Vec::new(),
                    };
                    proof {
                        assert(failure@ =~~= spec_not_found_failure(task_id));
                    }
                    HandlerOutcome::Respond(MavrikResponse::CompletedTask(failure))
                },
                CompletionPoll::Pending => HandlerOutcome::Suspend(task_id),
            }
        },
        MavrikRequest::GetStoreState => {
            let snapshot = store.state();
            HandlerOutcome::Respond(MavrikResponse::StoreState(snapshot))
        },
        MavrikRequest::Terminate => {
            HandlerOutcome::RespondAndTerminate(MavrikResponse::Terminated(true))
        },
    }
}

} // verus!
