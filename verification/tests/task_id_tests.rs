use mavrik::json::parse_json_string;
use mavrik::messages::MavrikResponse;
use mavrik::protocol::encode_response;
use mavrik::task_id::TaskId;

#[test]
fn task_id_displays() {
    let task_id = TaskId::from_parts(1729971388959, 3);
    assert_eq!(task_id.to_text(), "0-1729971388959-3");
}

#[test]
fn task_id_serializes_to_string() {
    let task_id = TaskId::from_parts(1729971388959, 3);
    let bytes = encode_response(&MavrikResponse::NewTaskId(task_id));
    let task_id_str = String::from_utf8(bytes).unwrap();
    assert_eq!(task_id_str, "\"0-1729971388959-3\"");
}

#[test]
fn task_id_deserializes_from_string() {
    let task_id_str = b"\"0-123-4\"".to_vec();
    let (decoded, end) = parse_json_string(&task_id_str, 0).expect("a JSON string");
    assert_eq!(end, task_id_str.len());
    let task_id = TaskId::parse_text(&decoded).expect("a task id");
    assert_eq!(task_id, TaskId::from_parts(123, 4));
}

#[test]
fn task_id_deserialization_fails_on_invalid_string() {
    let task_id_str = b"\"123-0\"".to_vec();
    let (decoded, _) = parse_json_string(&task_id_str, 0).expect("a JSON string");
    match TaskId::parse_text(&decoded) {
        Ok(_) => panic!("expected deserialization to fail"),
        Err(e) => assert_eq!(e.message(), "count part not found"),
    }
}

#[test]
fn task_id_text_round_trips_for_varied_ids() {
    let ids = [
        TaskId::from_parts(0, 0),
        TaskId::from_parts(1, 0),
        TaskId::from_parts(1729971388959, 3),
        TaskId::from_parts(u128::MAX, u32::MAX),
        TaskId::from_split_parts(18446744073709551615, 0, 7),
        TaskId::from_split_parts(5, 18446744073709551615, 4294967295),
    ];
    for id in ids {
        let text = id.display_bytes();
        let back = TaskId::parse_text(&text).expect("round trip");
        assert_eq!(back, id);
    }
}

#[test]
fn task_id_parse_ignores_extra_parts() {
    let back = TaskId::parse_text(&b"1-2-3-4".to_vec()).expect("three parts suffice");
    assert_eq!(back, TaskId::from_split_parts(1, 2, 3));
}

#[test]
fn task_id_parse_rejects_missing_fields() {
    assert_eq!(
        TaskId::parse_text(&b"".to_vec()).unwrap_err().message(),
        "second part of timestamp not found"
    );
    assert_eq!(
        TaskId::parse_text(&b"123".to_vec()).unwrap_err().message(),
        "second part of timestamp not found"
    );
    assert_eq!(
        TaskId::parse_text(&b"a-1-2".to_vec()).unwrap_err().message(),
        "first part of timestamp is not a number"
    );
    assert_eq!(
        TaskId::parse_text(&b"1-b-2".to_vec()).unwrap_err().message(),
        "second part of timestamp is not a number"
    );
    assert_eq!(
        TaskId::parse_text(&b"1-2-c".to_vec()).unwrap_err().message(),
        "count part is not a number"
    );
    assert_eq!(
        TaskId::parse_text(&b"1-2-4294967296".to_vec()).unwrap_err().message(),
        "count part is not a number"
    );
}

#[test]
fn task_ids_order_by_timestamp_then_counter() {
    let a = TaskId::from_parts(100, 0);
    let b = TaskId::from_parts(100, 1);
    let c = TaskId::from_parts(101, 0);
    let d = TaskId::from_split_parts(1, 0, 0);
    assert!(a.lt(&b) && b.lt(&c) && c.lt(&d));
    assert!(!b.lt(&a) && !a.lt(&a));
}

#[test]
fn twenty_byte_form_sorts_like_the_ids() {
    let ids = [
        TaskId::from_parts(0, 0),
        TaskId::from_parts(0, 1),
        TaskId::from_parts(255, 0),
        TaskId::from_parts(256, 0),
        TaskId::from_parts(1729971388959, 3),
        TaskId::from_split_parts(1, 0, 0),
    ];
    for id in &ids {
        assert_eq!(id.to_bytes().len(), 20);
    }
    for i in 0..ids.len() {
        for j in 0..ids.len() {
            assert_eq!(ids[i].lt(&ids[j]), ids[i].to_bytes() < ids[j].to_bytes());
        }
    }
}
