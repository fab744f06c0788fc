use mavrik::messages::{StoredTaskStatus, Task, TaskResult};
use mavrik::store::{CompletionPoll, StoreError, TasksInMemory};

fn task(name: &str) -> Task {
    Task {
        definition: name.as_bytes().to_vec(),
        args: b"[]".to_vec(),
        kwargs: b"{}".to_vec(),
    }
}

#[test]
fn pushed_task_is_dequeued_with_its_id() {
    let mut store = TasksInMemory::new();
    let queue = b"default".to_vec();
    let id = store.push(1000, &queue, task("A"));
    let (got_id, got_task) = store.try_dequeue().expect("one task queued");
    assert_eq!(got_id, id);
    assert_eq!(got_task, task("A"));
    assert!(store.try_dequeue().is_none());
}

#[test]
fn published_result_is_returned_by_next_take() {
    let mut store = TasksInMemory::new();
    let queue = b"default".to_vec();
    let id = store.push(1000, &queue, task("A"));
    store.try_dequeue().expect("queued");
    let result = TaskResult::Success { result: b"\"done\"".to_vec() };
    store.publish_result(id, result.clone()).expect("processing");
    match store.take_completed(id) {
        CompletionPoll::Ready(r) => assert_eq!(r, result),
        other => panic!("expected the published result, got {:?}", other),
    }
    // Consume-on-read: a second take reports the result as gone.
    match store.take_completed(id) {
        CompletionPoll::NotFound => {}
        other => panic!("expected NotFound after consuming, got {:?}", other),
    }
}

#[test]
fn three_pushes_dequeue_in_fifo_order_with_matching_ids() {
    let mut store = TasksInMemory::new();
    let queue = b"default".to_vec();
    let ids = [
        store.push(2000, &queue, task("A")),
        store.push(2000, &queue, task("B")),
        store.push(2001, &queue, task("C")),
    ];
    let names = ["A", "B", "C"];
    for i in 0..3 {
        let (id, t) = store.try_dequeue().expect("queued");
        assert_eq!(id, ids[i]);
        assert_eq!(t, task(names[i]));
    }
    assert!(store.try_dequeue().is_none());
}

#[test]
fn awaiting_an_unknown_id_stays_pending() {
    let mut store = TasksInMemory::new();
    let queue = b"default".to_vec();
    let known = store.push(1000, &queue, task("A"));
    let unknown = mavrik::task_id::TaskId::from_parts(999999, 42);
    assert_ne!(known, unknown);
    for _ in 0..10 {
        match store.take_completed(unknown) {
            CompletionPoll::Pending => {}
            other => panic!("an unpublished id must stay pending, got {:?}", other),
        }
    }
}

#[test]
fn awaiting_an_enqueued_or_processing_id_is_pending() {
    let mut store = TasksInMemory::new();
    let queue = b"default".to_vec();
    let id = store.push(1000, &queue, task("A"));
    assert!(matches!(store.take_completed(id), CompletionPoll::Pending));
    store.try_dequeue().expect("queued");
    assert!(matches!(store.take_completed(id), CompletionPoll::Pending));
}

#[test]
fn publish_for_id_not_processing_is_rejected() {
    let mut store = TasksInMemory::new();
    let queue = b"default".to_vec();
    let enqueued = store.push(1000, &queue, task("A"));
    let result = TaskResult::Success { result: b"1".to_vec() };
    // Still enqueued, not processing.
    assert_eq!(
        store.publish_result(enqueued, result.clone()),
        Err(StoreError::PublishToUnknownId)
    );
    // Never seen at all.
    let unknown = mavrik::task_id::TaskId::from_parts(5, 5);
    assert_eq!(
        store.publish_result(unknown, result),
        Err(StoreError::PublishToUnknownId)
    );
}

#[test]
fn snapshot_keeps_insertion_order_and_statuses() {
    let mut store = TasksInMemory::new();
    let queue = b"default".to_vec();
    let a = store.push(3000, &queue, task("A"));
    let b = store.push(3000, &queue, task("B"));
    let c = store.push(3001, &queue, task("C"));
    store.try_dequeue().expect("queued");
    let failure = TaskResult::Failure {
        class: b"RuntimeError".to_vec(),
        message: b"boom".to_vec(),
        backtrace: vec![b"a.rb:1".to_vec()],
    };
    store.publish_result(a, failure).expect("processing");
    let state = store.state();
    assert_eq!(state.tasks.len(), 3);
    assert_eq!(state.tasks[0].id, a);
    assert_eq!(state.tasks[0].status, StoredTaskStatus::Failed);
    assert_eq!(state.tasks[1].id, b);
    assert_eq!(state.tasks[1].status, StoredTaskStatus::Enqueued);
    assert_eq!(state.tasks[2].id, c);
    assert_eq!(state.tasks[2].status, StoredTaskStatus::Enqueued);
    assert_eq!(state.tasks[1].definition, b"B".to_vec());
}

#[test]
fn ids_within_one_millisecond_count_up() {
    let mut store = TasksInMemory::new();
    let queue = b"q".to_vec();
    let a = store.push(7777, &queue, task("A"));
    let b = store.push(7777, &queue, task("B"));
    let c = store.push(7778, &queue, task("C"));
    assert_eq!(a.to_text(), "0-7777-0");
    assert_eq!(b.to_text(), "0-7777-1");
    assert_eq!(c.to_text(), "0-7778-0");
}

#[test]
fn push_now_assigns_fresh_increasing_ids() {
    let mut store = TasksInMemory::new();
    let queue = b"default".to_vec();
    let a = store.push_now(&queue, task("A")).expect("counter has headroom");
    let b = store.push_now(&queue, task("B")).expect("counter has headroom");
    assert_ne!(a, b);
    let (first, _) = store.try_dequeue().expect("queued");
    assert_eq!(first, a);
}

#[test]
fn a_submission_becomes_the_task_it_carries() {
    let new_task = mavrik::messages::NewTask {
        queue: b"default".to_vec(),
        definition: b"Echo".to_vec(),
        args: b"[1]".to_vec(),
        kwargs: b"{}".to_vec(),
    };
    let task = mavrik::messages::Task::from_new_task(new_task);
    assert_eq!(task.definition, b"Echo".to_vec());
    assert_eq!(task.args, b"[1]".to_vec());
    assert_eq!(task.kwargs, b"{}".to_vec());
}
