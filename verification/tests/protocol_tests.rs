use mavrik::framing::{frame_decode, frame_encode, FramingError};
use mavrik::handler::{handle_request, HandlerOutcome};
use mavrik::messages::{
    MavrikRequest, MavrikResponse, NewTask, StoredTaskStatus, TaskResult,
};
use mavrik::protocol::{encode_request, encode_response, parse_request};
use mavrik::store::TasksInMemory;
use mavrik::task_id::TaskId;

#[test]
fn test_roundtrip() {
    let payload = b"{\"field1\":\"test\",\"field2\":42}".to_vec();
    let buffer = frame_encode(&payload);
    let (read_back, end) = frame_decode(&buffer, 0, 1 << 20).unwrap();
    assert_eq!(read_back, payload);
    assert_eq!(end, buffer.len());
}

#[test]
fn a_stream_of_frames_reads_back_in_order() {
    let payloads = [b"one".to_vec(), b"".to_vec(), b"three".to_vec()];
    let mut stream: Vec<u8> = Vec::new();
    for p in &payloads {
        stream.extend_from_slice(&frame_encode(p));
    }
    let mut pos = 0usize;
    for p in &payloads {
        let (got, next) = frame_decode(&stream, pos, 1 << 20).unwrap();
        assert_eq!(&got, p);
        pos = next;
    }
    assert_eq!(pos, stream.len());
}

#[test]
fn truncated_frames_are_unexpected_eof() {
    let buf = frame_encode(&b"hello".to_vec());
    assert_eq!(
        frame_decode(&buf[..4].to_vec(), 0, 1 << 20),
        Err(FramingError::UnexpectedEof)
    );
    assert_eq!(
        frame_decode(&buf[..10].to_vec(), 0, 1 << 20),
        Err(FramingError::UnexpectedEof)
    );
}

#[test]
fn oversized_length_header_is_length_overflow() {
    let buf = frame_encode(&vec![0u8; 100]);
    assert_eq!(frame_decode(&buf, 0, 99), Err(FramingError::LengthOverflow));
    assert!(frame_decode(&buf, 0, 100).is_ok());
}

#[test]
fn zero_length_payload_is_bad_json() {
    let buf = frame_encode(&Vec::new());
    let (payload, _) = frame_decode(&buf, 0, 1 << 20).unwrap();
    assert_eq!(payload.len(), 0);
    assert_eq!(parse_request(&payload), Err(FramingError::BadJson));
}

#[test]
fn requests_round_trip_through_the_wire_form() {
    let requests = [
        MavrikRequest::NewTask(NewTask {
            queue: b"default".to_vec(),
            definition: b"Echo".to_vec(),
            args: b"[\"hi\"]".to_vec(),
            kwargs: b"{}".to_vec(),
        }),
        MavrikRequest::AwaitTask { task_id: TaskId::from_parts(1729971388959, 3) },
        MavrikRequest::GetStoreState,
        MavrikRequest::Terminate,
    ];
    for req in requests {
        let bytes = encode_request(&req);
        assert_eq!(parse_request(&bytes), Ok(req));
    }
}

#[test]
fn escaped_payloads_round_trip() {
    let req = MavrikRequest::NewTask(NewTask {
        queue: b"with \"quotes\" and \\slashes\\".to_vec(),
        definition: b"Tab\there".to_vec(),
        args: b"line\nbreak\r".to_vec(),
        kwargs: vec![0x01, 0x1f, 0x20, 0x7f, 0xc3, 0xa9],
    });
    let bytes = encode_request(&req);
    assert_eq!(parse_request(&bytes), Ok(req));
}

#[test]
fn malformed_requests_are_bad_json() {
    let cases: [&[u8]; 6] = [
        b"{}",
        b"{\"type\":\"unknown\"}",
        b"{\"type\":\"new_task\",\"queue\":\"q\"}",
        b"{\"type\":\"await_task\",\"task_id\":\"123-0\"}",
        b"{\"type\":\"terminate\"} ",
        b"nonsense",
    ];
    for case in cases {
        assert_eq!(parse_request(&case.to_vec()), Err(FramingError::BadJson));
    }
}

#[test]
fn submit_then_echo_complete_round_trip() {
    // A client submits an Echo task...
    let wire = b"{\"type\":\"new_task\",\"queue\":\"default\",\"definition\":\"Echo\",\"args\":\"[\\\"hi\\\"]\",\"kwargs\":\"{}\"}";
    let req = parse_request(&wire.to_vec()).expect("a well-formed submission");
    let mut store = TasksInMemory::new();
    let now = 1729971388959u128;
    let outcome = handle_request(&mut store, now, req);
    let response = match outcome {
        HandlerOutcome::Respond(r) => r,
        other => panic!("a submission is answered at once, got {:?}", other),
    };
    // ... and the server replies with the fresh id "{hi}-{lo}-0".
    let reply = String::from_utf8(encode_response(&response)).unwrap();
    assert_eq!(reply, "\"0-1729971388959-0\"");

    // The worker receives the task and returns a success result.
    let (id, task) = store.try_dequeue().expect("the submission is queued");
    assert_eq!(task.definition, b"Echo".to_vec());
    assert_eq!(task.args, b"[\"hi\"]".to_vec());
    assert_eq!(task.kwargs, b"{}".to_vec());
    let result = TaskResult::Success { result: b"\"hi\"".to_vec() };
    store.publish_result(id, result).expect("the task is processing");

    // The client awaits the task by its printed id...
    let await_wire = b"{\"type\":\"await_task\",\"task_id\":\"0-1729971388959-0\"}";
    let req = parse_request(&await_wire.to_vec()).expect("a well-formed await");
    let outcome = handle_request(&mut store, now, req);
    let response = match outcome {
        HandlerOutcome::Respond(r) => r,
        other => panic!("the result is ready, got {:?}", other),
    };
    // ... and receives the success reply.
    let reply = String::from_utf8(encode_response(&response)).unwrap();
    assert_eq!(reply, "{\"type\":\"success\",\"result\":\"\\\"hi\\\"\"}");
}

#[test]
fn failure_path_reports_class_message_and_backtrace() {
    let mut store = TasksInMemory::new();
    let queue = b"default".to_vec();
    let id = store.push(
        1000,
        &queue,
        mavrik::messages::Task {
            definition: b"Boom".to_vec(),
            args: b"[]".to_vec(),
            kwargs: b"{}".to_vec(),
        },
    );
    store.try_dequeue().expect("queued");
    let failure = mavrik::executor::host_exception_to_result(
        b"RuntimeError".to_vec(),
        b"boom".to_vec(),
        vec![b"a.rb:1".to_vec()],
    );
    store.publish_result(id, failure).expect("processing");
    let req = MavrikRequest::AwaitTask { task_id: id };
    let outcome = handle_request(&mut store, 1000, req);
    let response = match outcome {
        HandlerOutcome::Respond(r) => r,
        other => panic!("the result is ready, got {:?}", other),
    };
    let reply = String::from_utf8(encode_response(&response)).unwrap();
    assert_eq!(
        reply,
        "{\"type\":\"failure\",\"class\":\"RuntimeError\",\"message\":\"boom\",\"backtrace\":[\"a.rb:1\"]}"
    );
}

#[test]
fn state_query_lists_three_submissions_in_order() {
    let mut store = TasksInMemory::new();
    let now = 4000u128;
    let mut texts = Vec::new();
    for name in ["A", "B", "C"] {
        let req = MavrikRequest::NewTask(NewTask {
            queue: b"default".to_vec(),
            definition: name.as_bytes().to_vec(),
            args: b"[]".to_vec(),
            kwargs: b"{}".to_vec(),
        });
        match handle_request(&mut store, now, req) {
            HandlerOutcome::Respond(MavrikResponse::NewTaskId(id)) => {
                texts.push(id.to_text());
            }
            other => panic!("a submission is answered with its id, got {:?}", other),
        }
    }
    let outcome = handle_request(&mut store, now, MavrikRequest::GetStoreState);
    let state = match outcome {
        HandlerOutcome::Respond(MavrikResponse::StoreState(s)) => s,
        other => panic!("a state query is answered at once, got {:?}", other),
    };
    assert_eq!(state.tasks.len(), 3);
    for (i, name) in ["A", "B", "C"].iter().enumerate() {
        assert_eq!(state.tasks[i].status, StoredTaskStatus::Enqueued);
        assert_eq!(state.tasks[i].definition, name.as_bytes().to_vec());
        assert_eq!(state.tasks[i].id.to_text(), texts[i]);
    }
    let reply = String::from_utf8(encode_response(&MavrikResponse::StoreState(state))).unwrap();
    let expected = format!(
        "{{\"tasks\":[{},{},{}]}}",
        format!("{{\"id\":\"{}\",\"status\":\"enqueued\",\"definition\":\"A\",\"args\":\"[]\",\"kwargs\":\"{{}}\"}}", texts[0]),
        format!("{{\"id\":\"{}\",\"status\":\"enqueued\",\"definition\":\"B\",\"args\":\"[]\",\"kwargs\":\"{{}}\"}}", texts[1]),
        format!("{{\"id\":\"{}\",\"status\":\"enqueued\",\"definition\":\"C\",\"args\":\"[]\",\"kwargs\":\"{{}}\"}}", texts[2]),
    );
    assert_eq!(reply, expected);
}

#[test]
fn await_after_consuming_reports_not_found() {
    let mut store = TasksInMemory::new();
    let queue = b"default".to_vec();
    let id = store.push(
        1000,
        &queue,
        mavrik::messages::Task {
            definition: b"A".to_vec(),
            args: b"[]".to_vec(),
            kwargs: b"{}".to_vec(),
        },
    );
    store.try_dequeue().expect("queued");
    store
        .publish_result(id, TaskResult::Success { result: b"1".to_vec() })
        .expect("processing");
    // First await consumes the result.
    match handle_request(&mut store, 1000, MavrikRequest::AwaitTask { task_id: id }) {
        HandlerOutcome::Respond(MavrikResponse::CompletedTask(TaskResult::Success {
            ..
        })) => {}
        other => panic!("the first await succeeds, got {:?}", other),
    }
    // The second await gets a well-defined failure naming the id.
    match handle_request(&mut store, 1000, MavrikRequest::AwaitTask { task_id: id }) {
        HandlerOutcome::Respond(MavrikResponse::CompletedTask(TaskResult::Failure {
            class,
            message,
            backtrace,
        })) => {
            assert_eq!(class, b"Mavrik::Error".to_vec());
            assert_eq!(
                String::from_utf8(message).unwrap(),
                format!("no task w/ ID {} found", id.to_text())
            );
            assert!(backtrace.is_empty());
        }
        other => panic!("the second await reports not found, got {:?}", other),
    }
}

#[test]
fn terminate_request_acknowledges_and_terminates() {
    let mut store = TasksInMemory::new();
    match handle_request(&mut store, 1000, MavrikRequest::Terminate) {
        HandlerOutcome::RespondAndTerminate(resp) => {
            assert_eq!(String::from_utf8(encode_response(&resp)).unwrap(), "true");
        }
        other => panic!("terminate is acknowledged, got {:?}", other),
    }
    assert_eq!(
        String::from_utf8(encode_response(&MavrikResponse::Terminated(false))).unwrap(),
        "false"
    );
}

#[test]
fn suspended_await_resumes_after_publish() {
    let mut store = TasksInMemory::new();
    let queue = b"default".to_vec();
    let id = store.push(1000, &queue, mavrik::messages::Task {
        definition: b"Slow".to_vec(),
        args: b"[]".to_vec(),
        kwargs: b"{}".to_vec(),
    });
    // The await finds nothing yet and suspends on the id.
    match handle_request(&mut store, 1000, MavrikRequest::AwaitTask { task_id: id }) {
        HandlerOutcome::Suspend(waiting_on) => assert_eq!(waiting_on, id),
        other => panic!("the await must suspend, got {:?}", other),
    }
    store.try_dequeue().expect("queued");
    let result = TaskResult::Success { result: b"9".to_vec() };
    store.publish_result(id, result.clone()).expect("processing");
    // Asking again after the publish delivers the result.
    match handle_request(&mut store, 1000, MavrikRequest::AwaitTask { task_id: id }) {
        HandlerOutcome::Respond(MavrikResponse::CompletedTask(r)) => assert_eq!(r, result),
        other => panic!("the await resumes with the result, got {:?}", other),
    }
}

#[test]
fn encoded_responses_are_valid_json_for_other_readers() {
    let failure = MavrikResponse::CompletedTask(TaskResult::Failure {
        class: b"RuntimeError".to_vec(),
        message: b"line\nbreak \"quoted\" \x01".to_vec(),
        backtrace: vec![b"a.rb:1".to_vec(), b"b.rb:2".to_vec()],
    });
    let bytes = encode_response(&failure);
    let value: serde_json::Value = serde_json::from_slice(&bytes).expect("well-formed JSON");
    assert_eq!(value["type"], "failure");
    assert_eq!(value["class"], "RuntimeError");
    assert_eq!(value["message"], "line\nbreak \"quoted\" \u{1}");
    assert_eq!(value["backtrace"][1], "b.rb:2");

    let req = MavrikRequest::NewTask(NewTask {
        queue: b"default".to_vec(),
        definition: b"Echo".to_vec(),
        args: b"[\"hi\"]".to_vec(),
        kwargs: b"{}".to_vec(),
    });
    let bytes = encode_request(&req);
    let value: serde_json::Value = serde_json::from_slice(&bytes).expect("well-formed JSON");
    assert_eq!(value["type"], "new_task");
    assert_eq!(value["queue"], "default");
    assert_eq!(value["args"], "[\"hi\"]");
}
