use mavrik::executor::{
    host_exception_to_result, worker_step, DispatchAction, TaskExecutor, TaskExecutorOptions,
    TaskOutputKind, ThreadMessage, WorkerEvent, WorkerState, PENDING_CAP,
};
use mavrik::messages::{Task, TaskResult};
use mavrik::task_id::TaskId;

fn task(name: &str) -> Task {
    Task {
        definition: name.as_bytes().to_vec(),
        args: b"[]".to_vec(),
        kwargs: b"{}".to_vec(),
    }
}

// Failure handling lives in the host-runtime seam; the worker protocol
// tests below cover the decisions around it.
#[test]
fn handles_task_failures() {
}

#[test]
fn a_caught_host_exception_becomes_a_failure_result() {
    let result = host_exception_to_result(
        b"RuntimeError".to_vec(),
        b"boom".to_vec(),
        vec![b"a.rb:1".to_vec()],
    );
    assert_eq!(
        result,
        TaskResult::Failure {
            class: b"RuntimeError".to_vec(),
            message: b"boom".to_vec(),
            backtrace: vec![b"a.rb:1".to_vec()],
        }
    );
}

#[test]
fn worker_protocol_announces_runs_and_reports() {
    let me = 3usize;
    let id = TaskId::from_parts(77, 0);
    let (state, msgs) = worker_step(me, WorkerState::Created, WorkerEvent::Started);
    assert_eq!(state, WorkerState::Ready);
    assert_eq!(msgs, vec![ThreadMessage::ThreadReady(me)]);

    let (state, msgs) = worker_step(me, state, WorkerEvent::TaskAssigned(id, task("A")));
    assert_eq!(state, WorkerState::Busy(id));
    assert!(msgs.is_empty());

    let result = TaskResult::Success { result: b"\"hi\"".to_vec() };
    let (state, msgs) = worker_step(me, state, WorkerEvent::CallFinished(result.clone()));
    assert_eq!(state, WorkerState::Ready);
    assert_eq!(
        msgs,
        vec![
            ThreadMessage::TaskComplete(id, result),
            ThreadMessage::ThreadReady(me),
        ]
    );

    let (state, msgs) = worker_step(me, state, WorkerEvent::ChannelClosed);
    assert_eq!(state, WorkerState::Stopped);
    assert!(msgs.is_empty());
}

#[test]
fn dispatcher_matches_tasks_with_the_most_recent_ready_worker() {
    let mut exe = TaskExecutor::new(&TaskExecutorOptions { rb_thread_count: 4 });
    // Two workers report ready with no work queued.
    assert_eq!(
        exe.on_task_ready(TaskOutputKind::ThreadReady(0)),
        DispatchAction::Buffered
    );
    assert_eq!(
        exe.on_task_ready(TaskOutputKind::ThreadReady(1)),
        DispatchAction::Buffered
    );
    // The next task goes to the worker that reported ready last.
    let id = TaskId::from_parts(10, 0);
    assert_eq!(
        exe.on_task_ready(TaskOutputKind::NextTask(id, task("A"))),
        DispatchAction::RunOnThread(1, id, task("A"))
    );
    let id2 = TaskId::from_parts(10, 1);
    assert_eq!(
        exe.on_task_ready(TaskOutputKind::NextTask(id2, task("B"))),
        DispatchAction::RunOnThread(0, id2, task("B"))
    );
}

#[test]
fn dispatcher_hands_buffered_tasks_out_oldest_first() {
    let mut exe = TaskExecutor::new(&TaskExecutorOptions { rb_thread_count: 2 });
    let a = TaskId::from_parts(20, 0);
    let b = TaskId::from_parts(20, 1);
    assert_eq!(
        exe.on_task_ready(TaskOutputKind::NextTask(a, task("A"))),
        DispatchAction::Buffered
    );
    assert_eq!(
        exe.on_task_ready(TaskOutputKind::NextTask(b, task("B"))),
        DispatchAction::Buffered
    );
    assert_eq!(
        exe.on_task_ready(TaskOutputKind::ThreadReady(0)),
        DispatchAction::RunOnThread(0, a, task("A"))
    );
    assert_eq!(
        exe.on_task_ready(TaskOutputKind::ThreadReady(0)),
        DispatchAction::RunOnThread(0, b, task("B"))
    );
    assert_eq!(
        exe.on_task_ready(TaskOutputKind::ThreadReady(0)),
        DispatchAction::Buffered
    );
}

#[test]
fn dispatcher_forwards_completions_to_the_store() {
    let mut exe = TaskExecutor::new(&TaskExecutorOptions { rb_thread_count: 1 });
    let id = TaskId::from_parts(30, 0);
    let result = TaskResult::Success { result: b"1".to_vec() };
    assert_eq!(
        exe.on_task_ready(TaskOutputKind::TaskComplete(id, result.clone())),
        DispatchAction::Publish(id, result)
    );
}

#[test]
fn pending_tasks_never_exceed_the_soft_cap_with_no_workers() {
    // With no workers ever ready, the dispatcher buffers tasks until the
    // cap, then stops asking the store for more.
    let mut exe = TaskExecutor::new(&TaskExecutorOptions { rb_thread_count: 0 });
    let mut polled = 0usize;
    for i in 0..(PENDING_CAP * 3) as u32 {
        if !exe.wants_next_task() {
            break;
        }
        let id = TaskId::from_parts(40, i);
        assert_eq!(
            exe.on_task_ready(TaskOutputKind::NextTask(id, task("T"))),
            DispatchAction::Buffered
        );
        polled += 1;
    }
    assert_eq!(polled, PENDING_CAP);
    assert!(!exe.wants_next_task());
    assert_eq!(exe.task_buf.len(), PENDING_CAP);
}
