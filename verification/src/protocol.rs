//! The wire protocol: requests and responses as canonical JSON byte
//! strings, with an encoder for both directions and a parser for requests.
//! The byte tables below spell out the fixed fragments of the grammar.
//!
//! The wire form is canonical by requirement: compact JSON with the fields
//! in the order written here, strings escaped as `json_string` escapes
//! them, and task ids in their printed form without leading zeros. This is
//! exactly what compact JSON serializers emit for these shapes, and it is
//! what the parser accepts; a reordered, padded or otherwise non-canonical
//! request is refused as `BadJson`.

use vstd::prelude::*;
use crate::json::{
    json_string, lemma_scan_string_complete, parse_json_string, spec_scan_string,
    write_json_string, COMMA, RBRACE, RBRACKET,
};
use crate::messages::{
    MavrikRequest, MavrikRequestView, MavrikResponse, MavrikResponseView, NewTask, NewTaskView,
    StoredTask, StoredTaskStatus, StoredTaskView, TaskResult, TaskResultView,
};
use crate::framing::FramingError;
use crate::text::{bytes_eq, match_at};
use crate::task_id::TaskId;

verus! {

/// The bytes of `{"type":"new_task","queue":`.
pub open spec fn spec_lit_new_task_prefix() -> Seq<u8> {
    seq![0x7b, 0x22, 0x74, 0x79, 0x70, 0x65, 0x22, 0x3a, 0x22, 0x6e, 0x65, 0x77, 0x5f, 0x74, 0x61, 0x73, 0x6b, 0x22, 0x2c, 0x22, 0x71, 0x75, 0x65, 0x75, 0x65, 0x22, 0x3a]
}

/// The bytes of `{"type":"new_task","queue":`.
pub fn lit_new_task_prefix() -> (r: Vec<u8>)
    ensures
        r@ == spec_lit_new_task_prefix(),
{
    let mut r: Vec<u8> = Vec::new();
    r.push(0x7b);
    r.push(0x22);
    r.push(0x74);
    r.push(0x79);
    r.push(0x70);
    r.push(0x65);
    r.push(0x22);
    r.push(0x3a);
    r.push(0x22);
    r.push(0x6e);
    r.push(0x65);
    r.push(0x77);
    r.push(0x5f);
    r.push(0x74);
    r.push(0x61);
    r.push(0x73);
    r.push(0x6b);
    r.push(0x22);
    r.push(0x2c);
    r.push(0x22);
    r.push(0x71);
    r.push(0x75);
    r.push(0x65);
    r.push(0x75);
    r.push(0x65);
    r.push(0x22);
    r.push(0x3a);
    proof {
        assert(r@ =~= spec_lit_new_task_prefix());
    }
    r
}

/// The bytes of `,"definition":`.
pub open spec fn spec_lit_definition_sep() -> Seq<u8> {
    seq![0x2c, 0x22, 0x64, 0x65, 0x66, 0x69, 0x6e, 0x69, 0x74, 0x69, 0x6f, 0x6e, 0x22, 0x3a]
}

/// The bytes of `,"definition":`.
pub fn lit_definition_sep() -> (r: Vec<u8>)
    ensures
        r@ == spec_lit_definition_sep(),
{
    let mut r: Vec<u8> = Vec::new();
    r.push(0x2c);
    r.push(0x22);
    r.push(0x64);
    r.push(0x65);
    r.push(0x66);
    r.push(0x69);
    r.push(0x6e);
    r.push(0x69);
    r.push(0x74);
    r.push(0x69);
    r.push(0x6f);
    r.push(0x6e);
    r.push(0x22);
    r.push(0x3a);
    proof {
        assert(r@ =~= spec_lit_definition_sep());
    }
    r
}

/// The bytes of `,"args":`.
pub open spec fn spec_lit_args_sep() -> Seq<u8> {
    seq![0x2c, 0x22, 0x61, 0x72, 0x67, 0x73, 0x22, 0x3a]
}

/// The bytes of `,"args":`.
pub fn lit_args_sep() -> (r: Vec<u8>)
    ensures
        r@ == spec_lit_args_sep(),
{
    let mut r: Vec<u8> = Vec::new();
    r.push(0x2c);
    r.push(0x22);
    r.push(0x61);
    r.push(0x72);
    r.push(0x67);
    r.push(0x73);
    r.push(0x22);
    r.push(0x3a);
    proof {
        assert(r@ =~= spec_lit_args_sep());
    }
    r
}

/// The bytes of `,"kwargs":`.
pub open spec fn spec_lit_kwargs_sep() -> Seq<u8> {
    seq![0x2c, 0x22, 0x6b, 0x77, 0x61, 0x72, 0x67, 0x73, 0x22, 0x3a]
}

/// The bytes of `,"kwargs":`.
pub fn lit_kwargs_sep() -> (r: Vec<u8>)
    ensures
        r@ == spec_lit_kwargs_sep(),
{
    let mut r: Vec<u8> = Vec::new();
    r.push(0x2c);
    r.push(0x22);
    r.push(0x6b);
    r.push(0x77);
    r.push(0x61);
    r.push(0x72);
    r.push(0x67);
    r.push(0x73);
    r.push(0x22);
    r.push(0x3a);
    proof {
        assert(r@ =~= spec_lit_kwargs_sep());
    }
    r
}

/// The bytes of `{"type":"await_task","task_id":`.
pub open spec fn spec_lit_await_task_prefix() -> Seq<u8> {
    seq![0x7b, 0x22, 0x74, 0x79, 0x70, 0x65, 0x22, 0x3a, 0x22, 0x61, 0x77, 0x61, 0x69, 0x74, 0x5f, 0x74, 0x61, 0x73, 0x6b, 0x22, 0x2c, 0x22, 0x74, 0x61, 0x73, 0x6b, 0x5f, 0x69, 0x64, 0x22, 0x3a]
}

/// The bytes of `{"type":"await_task","task_id":`.
pub fn lit_await_task_prefix() -> (r: Vec<u8>)
    ensures
        r@ == spec_lit_await_task_prefix(),
{
    let mut r: Vec<u8> = Vec::new();
    r.push(0x7b);
    r.push(0x22);
    r.push(0x74);
    r.push(0x79);
    r.push(0x70);
    r.push(0x65);
    r.push(0x22);
    r.push(0x3a);
    r.push(0x22);
    r.push(0x61);
    r.push(0x77);
    r.push(0x61);
    r.push(0x69);
    r.push(0x74);
    r.push(0x5f);
    r.push(0x74);
    r.push(0x61);
    r.push(0x73);
    r.push(0x6b);
    r.push(0x22);
    r.push(0x2c);
    r.push(0x22);
    r.push(0x74);
    r.push(0x61);
    r.push(0x73);
    r.push(0x6b);
    r.push(0x5f);
    r.push(0x69);
    r.push(0x64);
    r.push(0x22);
    r.push(0x3a);
    proof {
        assert(r@ =~= spec_lit_await_task_prefix());
    }
    r
}

/// The bytes of `{"type":"get_store_state"}`.
pub open spec fn spec_lit_get_store_state() -> Seq<u8> {
    seq![0x7b, 0x22, 0x74, 0x79, 0x70, 0x65, 0x22, 0x3a, 0x22, 0x67, 0x65, 0x74, 0x5f, 0x73, 0x74, 0x6f, 0x72, 0x65, 0x5f, 0x73, 0x74, 0x61, 0x74, 0x65, 0x22, 0x7d]
}

/// The bytes of `{"type":"get_store_state"}`.
pub fn lit_get_store_state() -> (r: Vec<u8>)
    ensures
        r@ == spec_lit_get_store_state(),
{
    let mut r: Vec<u8> = Vec::new();
    r.push(0x7b);
    r.push(0x22);
    r.push(0x74);
    r.push(0x79);
    r.push(0x70);
    r.push(0x65);
    r.push(0x22);
    r.push(0x3a);
    r.push(0x22);
    r.push(0x67);
    r.push(0x65);
    r.push(0x74);
    r.push(0x5f);
    r.push(0x73);
    r.push(0x74);
    r.push(0x6f);
    r.push(0x72);
    r.push(0x65);
    r.push(0x5f);
    r.push(0x73);
    r.push(0x74);
    r.push(0x61);
    r.push(0x74);
    r.push(0x65);
    r.push(0x22);
    r.push(0x7d);
    proof {
        assert(r@ =~= spec_lit_get_store_state());
    }
    r
}

/// The bytes of `{"type":"terminate"}`.
pub open spec fn spec_lit_terminate() -> Seq<u8> {
    seq![0x7b, 0x22, 0x74, 0x79, 0x70, 0x65, 0x22, 0x3a, 0x22, 0x74, 0x65, 0x72, 0x6d, 0x69, 0x6e, 0x61, 0x74, 0x65, 0x22, 0x7d]
}

/// The bytes of `{"type":"terminate"}`.
pub fn lit_terminate() -> (r: Vec<u8>)
    ensures
        r@ == spec_lit_terminate(),
{
    let mut r: Vec<u8> = Vec::new();
    r.push(0x7b);
    r.push(0x22);
    r.push(0x74);
    r.push(0x79);
    r.push(0x70);
    r.push(0x65);
    r.push(0x22);
    r.push(0x3a);
    r.push(0x22);
    r.push(0x74);
    r.push(0x65);
    r.push(0x72);
    r.push(0x6d);
    r.push(0x69);
    r.push(0x6e);
    r.push(0x61);
    r.push(0x74);
    r.push(0x65);
    r.push(0x22);
    r.push(0x7d);
    proof {
        assert(r@ =~= spec_lit_terminate());
    }
    r
}

/// The bytes of `{"type":"success","result":`.
pub open spec fn spec_lit_success_prefix() -> Seq<u8> {
    seq![0x7b, 0x22, 0x74, 0x79, 0x70, 0x65, 0x22, 0x3a, 0x22, 0x73, 0x75, 0x63, 0x63, 0x65, 0x73, 0x73, 0x22, 0x2c, 0x22, 0x72, 0x65, 0x73, 0x75, 0x6c, 0x74, 0x22, 0x3a]
}

/// The bytes of `{"type":"success","result":`.
pub fn lit_success_prefix() -> (r: Vec<u8>)
    ensures
        r@ == spec_lit_success_prefix(),
{
    let mut r: Vec<u8> = Vec::new();
    r.push(0x7b);
    r.push(0x22);
    r.push(0x74);
    r.push(0x79);
    r.push(0x70);
    r.push(0x65);
    r.push(0x22);
    r.push(0x3a);
    r.push(0x22);
    r.push(0x73);
    r.push(0x75);
    r.push(0x63);
    r.push(0x63);
    r.push(0x65);
    r.push(0x73);
    r.push(0x73);
    r.push(0x22);
    r.push(0x2c);
    r.push(0x22);
    r.push(0x72);
    r.push(0x65);
    r.push(0x73);
    r.push(0x75);
    r.push(0x6c);
    r.push(0x74);
    r.push(0x22);
    r.push(0x3a);
    proof {
        assert(r@ =~= spec_lit_success_prefix());
    }
    r
}

/// The bytes of `{"type":"failure","class":`.
pub open spec fn spec_lit_failure_prefix() -> Seq<u8> {
    seq![0x7b, 0x22, 0x74, 0x79, 0x70, 0x65, 0x22, 0x3a, 0x22, 0x66, 0x61, 0x69, 0x6c, 0x75, 0x72, 0x65, 0x22, 0x2c, 0x22, 0x63, 0x6c, 0x61, 0x73, 0x73, 0x22, 0x3a]
}

/// The bytes of `{"type":"failure","class":`.
pub fn lit_failure_prefix() -> (r: Vec<u8>)
    ensures
        r@ == spec_lit_failure_prefix(),
{
    let mut r: Vec<u8> = Vec::new();
    r.push(0x7b);
    r.push(0x22);
    r.push(0x74);
    r.push(0x79);
    r.push(0x70);
    r.push(0x65);
    r.push(0x22);
    r.push(0x3a);
    r.push(0x22);
    r.push(0x66);
    r.push(0x61);
    r.push(0x69);
    r.push(0x6c);
    r.push(0x75);
    r.push(0x72);
    r.push(0x65);
    r.push(0x22);
    r.push(0x2c);
    r.push(0x22);
    r.push(0x63);
    r.push(0x6c);
    r.push(0x61);
    r.push(0x73);
    r.push(0x73);
    r.push(0x22);
    r.push(0x3a);
    proof {
        assert(r@ =~= spec_lit_failure_prefix());
    }
    r
}

/// The bytes of `,"message":`.
pub open spec fn spec_lit_message_sep() -> Seq<u8> {
    seq![0x2c, 0x22, 0x6d, 0x65, 0x73, 0x73, 0x61, 0x67, 0x65, 0x22, 0x3a]
}

/// The bytes of `,"message":`.
pub fn lit_message_sep() -> (r: Vec<u8>)
    ensures
        r@ == spec_lit_message_sep(),
{
    let mut r: Vec<u8> = Vec::new();
    r.push(0x2c);
    r.push(0x22);
    r.push(0x6d);
    r.push(0x65);
    r.push(0x73);
    r.push(0x73);
    r.push(0x61);
    r.push(0x67);
    r.push(0x65);
    r.push(0x22);
    r.push(0x3a);
    proof {
        assert(r@ =~= spec_lit_message_sep());
    }
    r
}

/// The bytes of `,"backtrace":[`.
pub open spec fn spec_lit_backtrace_sep() -> Seq<u8> {
    seq![0x2c, 0x22, 0x62, 0x61, 0x63, 0x6b, 0x74, 0x72, 0x61, 0x63, 0x65, 0x22, 0x3a, 0x5b]
}

/// The bytes of `,"backtrace":[`.
pub fn lit_backtrace_sep() -> (r: Vec<u8>)
    ensures
        r@ == spec_lit_backtrace_sep(),
{
    let mut r: Vec<u8> = Vec::new();
    r.push(0x2c);
    r.push(0x22);
    r.push(0x62);
    r.push(0x61);
    r.push(0x63);
    r.push(0x6b);
    r.push(0x74);
    r.push(0x72);
    r.push(0x61);
    r.push(0x63);
    r.push(0x65);
    r.push(0x22);
    r.push(0x3a);
    r.push(0x5b);
    proof {
        assert(r@ =~= spec_lit_backtrace_sep());
    }
    r
}

/// The bytes of `{"tasks":[`.
pub open spec fn spec_lit_tasks_prefix() -> Seq<u8> {
    seq![0x7b, 0x22, 0x74, 0x61, 0x73, 0x6b, 0x73, 0x22, 0x3a, 0x5b]
}

/// The bytes of `{"tasks":[`.
pub fn lit_tasks_prefix() -> (r: Vec<u8>)
    ensures
        r@ == spec_lit_tasks_prefix(),
{
    let mut r: Vec<u8> = Vec::new();
    r.push(0x7b);
    r.push(0x22);
    r.push(0x74);
    r.push(0x61);
    r.push(0x73);
    r.push(0x6b);
    r.push(0x73);
    r.push(0x22);
    r.push(0x3a);
    r.push(0x5b);
    proof {
        assert(r@ =~= spec_lit_tasks_prefix());
    }
    r
}

/// The bytes of `{"id":`.
pub open spec fn spec_lit_id_prefix() -> Seq<u8> {
    seq![0x7b, 0x22, 0x69, 0x64, 0x22, 0x3a]
}

/// The bytes of `{"id":`.
pub fn lit_id_prefix() -> (r: Vec<u8>)
    ensures
        r@ == spec_lit_id_prefix(),
{
    let mut r: Vec<u8> = Vec::new();
    r.push(0x7b);
    r.push(0x22);
    r.push(0x69);
    r.push(0x64);
    r.push(0x22);
    r.push(0x3a);
    proof {
        assert(r@ =~= spec_lit_id_prefix());
    }
    r
}

/// The bytes of `,"status":`.
pub open spec fn spec_lit_status_sep() -> Seq<u8> {
    seq![0x2c, 0x22, 0x73, 0x74, 0x61, 0x74, 0x75, 0x73, 0x22, 0x3a]
}

/// The bytes of `,"status":`.
pub fn lit_status_sep() -> (r: Vec<u8>)
    ensures
        r@ == spec_lit_status_sep(),
{
    let mut r: Vec<u8> = Vec::new();
    r.push(0x2c);
    r.push(0x22);
    r.push(0x73);
    r.push(0x74);
    r.push(0x61);
    r.push(0x74);
    r.push(0x75);
    r.push(0x73);
    r.push(0x22);
    r.push(0x3a);
    proof {
        assert(r@ =~= spec_lit_status_sep());
    }
    r
}

/// The bytes of `true`.
pub open spec fn spec_lit_true_text() -> Seq<u8> {
    seq![0x74, 0x72, 0x75, 0x65]
}

/// The bytes of `true`.
pub fn lit_true_text() -> (r: Vec<u8>)
    ensures
        r@ == spec_lit_true_text(),
{
    let mut r: Vec<u8> = Vec::new();
    r.push(0x74);
    r.push(0x72);
    r.push(0x75);
    r.push(0x65);
    proof {
        assert(r@ =~= spec_lit_true_text());
    }
    r
}

/// The bytes of `false`.
pub open spec fn spec_lit_false_text() -> Seq<u8> {
    seq![0x66, 0x61, 0x6c, 0x73, 0x65]
}

/// The bytes of `false`.
pub fn lit_false_text() -> (r: Vec<u8>)
    ensures
        r@ == spec_lit_false_text(),
{
    let mut r: Vec<u8> = Vec::new();
    r.push(0x66);
    r.push(0x61);
    r.push(0x6c);
    r.push(0x73);
    r.push(0x65);
    proof {
        assert(r@ =~= spec_lit_false_text());
    }
    r
}

/// The bytes of `enqueued`.
pub open spec fn spec_lit_enqueued() -> Seq<u8> {
    seq![0x65, 0x6e, 0x71, 0x75, 0x65, 0x75, 0x65, 0x64]
}

/// The bytes of `enqueued`.
pub fn lit_enqueued() -> (r: Vec<u8>)
    ensures
        r@ == spec_lit_enqueued(),
{
    let mut r: Vec<u8> = Vec::new();
    r.push(0x65);
    r.push(0x6e);
    r.push(0x71);
    r.push(0x75);
    r.push(0x65);
    r.push(0x75);
    r.push(0x65);
    r.push(0x64);
    proof {
        assert(r@ =~= spec_lit_enqueued());
    }
    r
}

/// The bytes of `processing`.
pub open spec fn spec_lit_processing() -> Seq<u8> {
    seq![0x70, 0x72, 0x6f, 0x63, 0x65, 0x73, 0x73, 0x69, 0x6e, 0x67]
}

/// The bytes of `processing`.
pub fn lit_processing() -> (r: Vec<u8>)
    ensures
        r@ == spec_lit_processing(),
{
    let mut r: Vec<u8> = Vec::new();
    r.push(0x70);
    r.push(0x72);
    r.push(0x6f);
    r.push(0x63);
    r.push(0x65);
    r.push(0x73);
    r.push(0x73);
    r.push(0x69);
    r.push(0x6e);
    r.push(0x67);
    proof {
        assert(r@ =~= spec_lit_processing());
    }
    r
}

/// The bytes of `completed`.
pub open spec fn spec_lit_completed() -> Seq<u8> {
    seq![0x63, 0x6f, 0x6d, 0x70, 0x6c, 0x65, 0x74, 0x65, 0x64]
}

/// The bytes of `completed`.
pub fn lit_completed() -> (r: Vec<u8>)
    ensures
        r@ == spec_lit_completed(),
{
    let mut r: Vec<u8> = Vec::new();
    r.push(0x63);
    r.push(0x6f);
    r.push(0x6d);
    r.push(0x70);
    r.push(0x6c);
    r.push(0x65);
    r.push(0x74);
    r.push(0x65);
    r.push(0x64);
    proof {
        assert(r@ =~= spec_lit_completed());
    }
    r
}

/// The bytes of `retrying`.
pub open spec fn spec_lit_retrying() -> Seq<u8> {
    seq![0x72, 0x65, 0x74, 0x72, 0x79, 0x69, 0x6e, 0x67]
}

/// The bytes of `retrying`.
pub fn lit_retrying() -> (r: Vec<u8>)
    ensures
        r@ == spec_lit_retrying(),
{
    let mut r: Vec<u8> = Vec::new();
    r.push(0x72);
    r.push(0x65);
    r.push(0x74);
    r.push(0x72);
    r.push(0x79);
    r.push(0x69);
    r.push(0x6e);
    r.push(0x67);
    proof {
        assert(r@ =~= spec_lit_retrying());
    }
    r
}

/// The bytes of `failed`.
pub open spec fn spec_lit_failed() -> Seq<u8> {
    seq![0x66, 0x61, 0x69, 0x6c, 0x65, 0x64]
}

/// The bytes of `failed`.
pub fn lit_failed() -> (r: Vec<u8>)
    ensures
        r@ == spec_lit_failed(),
{
    let mut r: Vec<u8> = Vec::new();
    r.push(0x66);
    r.push(0x61);
    r.push(0x69);
    r.push(0x6c);
    r.push(0x65);
    r.push(0x64);
    proof {
        assert(r@ =~= spec_lit_failed());
    }
    r
}
/// The name of a stored-task status on the wire.
pub open spec fn spec_status_name(s: StoredTaskStatus) -> Seq<u8> {
    match s {
        StoredTaskStatus::Enqueued => spec_lit_enqueued(),
        StoredTaskStatus::Processing => spec_lit_processing(),
        StoredTaskStatus::Completed => spec_lit_completed(),
        StoredTaskStatus::Retrying => spec_lit_retrying(),
        StoredTaskStatus::Failed => spec_lit_failed(),
    }
}

/// The name of a stored-task status on the wire.
pub fn status_name(s: StoredTaskStatus) -> (r: Vec<u8>)
    ensures
        r@ == spec_status_name(s),
{
    match s {
        StoredTaskStatus::Enqueued => lit_enqueued(),
        StoredTaskStatus::Processing => lit_processing(),
        StoredTaskStatus::Completed => lit_completed(),
        StoredTaskStatus::Retrying => lit_retrying(),
        StoredTaskStatus::Failed => lit_failed(),
    }
}

/// A request as its canonical JSON bytes.
pub open spec fn spec_encode_request(m: MavrikRequestView) -> Seq<u8> {
    match m {
        MavrikRequestView::NewTask(t) => spec_lit_new_task_prefix() + json_string(t.queue)
            + spec_lit_definition_sep() + json_string(t.definition) + spec_lit_args_sep()
            + json_string(t.args) + spec_lit_kwargs_sep() + json_string(t.kwargs) + seq![RBRACE],
        MavrikRequestView::AwaitTask { task_id } => spec_lit_await_task_prefix() + json_string(
            task_id.spec_display_bytes(),
        ) + seq![RBRACE],
        MavrikRequestView::GetStoreState => spec_lit_get_store_state(),
        MavrikRequestView::Terminate => spec_lit_terminate(),
    }
}

/// A task result as its canonical JSON bytes.
pub open spec fn spec_encode_result(r: TaskResultView) -> Seq<u8> {
    match r {
        TaskResultView::Success { result } => spec_lit_success_prefix() + json_string(result)
            + seq![RBRACE],
        TaskResultView::Failure { class, message, backtrace } => spec_lit_failure_prefix()
            + json_string(class) + spec_lit_message_sep() + json_string(message)
            + spec_lit_backtrace_sep() + spec_string_list(backtrace) + seq![RBRACKET, RBRACE],
    }
}

/// JSON strings joined by commas.
pub open spec fn spec_string_list(items: Seq<Seq<u8>>) -> Seq<u8>
    decreases items.len(),
{
    if items.len() == 0 {
        Seq::empty()
    } else if items.len() == 1 {
        json_string(items[0])
    } else {
        spec_string_list(items.drop_last()) + seq![COMMA] + json_string(items.last())
    }
}

/// A store-state entry as its canonical JSON bytes.
pub open spec fn spec_encode_stored(t: StoredTaskView) -> Seq<u8> {
    spec_lit_id_prefix() + json_string(t.id.spec_display_bytes()) + spec_lit_status_sep()
        + json_string(spec_status_name(t.status)) + spec_lit_definition_sep() + json_string(
        t.definition,
    ) + spec_lit_args_sep() + json_string(t.args) + spec_lit_kwargs_sep() + json_string(t.kwargs)
        + seq![RBRACE]
}

/// Store-state entries joined by commas.
pub open spec fn spec_stored_list(items: Seq<StoredTaskView>) -> Seq<u8>
    decreases items.len(),
{
    if items.len() == 0 {
        Seq::empty()
    } else if items.len() == 1 {
        spec_encode_stored(items[0])
    } else {
        spec_stored_list(items.drop_last()) + seq![COMMA] + spec_encode_stored(items.last())
    }
}

/// A response as its canonical JSON bytes.
pub open spec fn spec_encode_response(m: MavrikResponseView) -> Seq<u8> {
    match m {
        MavrikResponseView::NewTaskId(id) => json_string(id.spec_display_bytes()),
        MavrikResponseView::CompletedTask(r) => spec_encode_result(r),
        MavrikResponseView::StoreState(tasks) => spec_lit_tasks_prefix() + spec_stored_list(tasks)
            + seq![RBRACKET, RBRACE],
        MavrikResponseView::Terminated(b) => if b {
            spec_lit_true_text()
        } else {
            spec_lit_false_text()
        },
    }
}

/// Encode a request for the wire.
pub fn encode_request(req: &MavrikRequest) -> (r: Vec<u8>)
    ensures
        r@ == spec_encode_request(req@),
{
    let mut out: Vec<u8> = Vec::new();
    match req {
        MavrikRequest::NewTask(t) => {
            let mut l = lit_new_task_prefix();
            out.append(&mut l);
            write_json_string(&mut out, &t.queue);
            let mut l = lit_definition_sep();
            out.append(&mut l);
            write_json_string(&mut out, &t.definition);
            let mut l = lit_args_sep();
            out.append(&mut l);
            write_json_string(&mut out, &t.args);
            let mut l = lit_kwargs_sep();
            out.append(&mut l);
            write_json_string(&mut out, &t.kwargs);
            out.push(RBRACE);
            proof {
                assert(out@ =~= spec_encode_request(req@));
            }
        },
        MavrikRequest::AwaitTask { task_id } => {
            let mut l = lit_await_task_prefix();
            out.append(&mut l);
            let id_text = task_id.display_bytes();
            write_json_string(&mut out, &id_text);
            out.push(RBRACE);
            proof {
                assert(out@ =~= spec_encode_request(req@));
            }
        },
        MavrikRequest::GetStoreState => {
            let mut l = lit_get_store_state();
            out.append(&mut l);
            proof {
                assert(out@ =~= spec_encode_request(req@));
            }
        },
        MavrikRequest::Terminate => {
            let mut l = lit_terminate();
            out.append(&mut l);
            proof {
                assert(out@ =~= spec_encode_request(req@));
            }
        },
    }
    out
}

/// Append the JSON strings of `items`, comma separated.
fn write_string_list(out: &mut Vec<u8>, items: &Vec<Vec<u8>>)
    ensures
        final(out)@ == old(out)@ + spec_string_list(items.deep_view()),
{
    let ghost base = out@;
    let ghost dv = items.deep_view();
    let mut i: usize = 0;
    while i < items.len()
        invariant
            0 <= i <= items@.len(),
            dv == items.deep_view(),
            dv.len() == items@.len(),
            out@ == base + spec_string_list(dv.take(i as int)),
        decreases items@.len() - i,
    {
        if i > 0 {
            out.push(COMMA);
        }
        write_json_string(out, &items[i]);
        proof {
            assert(dv[i as int] == items@[i as int]@);
            assert(dv.take(i + 1 as int).drop_last() =~= dv.take(i as int));
            assert(dv.take(i + 1 as int).last() == dv[i as int]);
            if i == 0 {
                assert(out@ =~= base + spec_string_list(dv.take(1)));
            } else {
                assert(out@ =~= base + spec_string_list(dv.take(i + 1 as int)));
            }
        }
        i = i + 1;
    }
    proof {
        assert(dv.take(dv.len() as int) =~= dv);
    }
}

/// Append one store-state entry.
fn write_stored(out: &mut Vec<u8>, t: &StoredTask)
    ensures
        final(out)@ == old(out)@ + spec_encode_stored(t@),
{
    let ghost base = out@;
    let mut l = lit_id_prefix();
    out.append(&mut l);
    let id_text = t.id.display_bytes();
    write_json_string(out, &id_text);
    let mut l = lit_status_sep();
    out.append(&mut l);
    let name = status_name(t.status);
    write_json_string(out, &name);
    let mut l = lit_definition_sep();
    out.append(&mut l);
    write_json_string(out, &t.definition);
    let mut l = lit_args_sep();
    out.append(&mut l);
    write_json_string(out, &t.args);
    let mut l = lit_kwargs_sep();
    out.append(&mut l);
    write_json_string(out, &t.kwargs);
    out.push(RBRACE);
    proof {
        assert(out@ =~= base + spec_encode_stored(t@));
    }
}

/// Append the store-state entries, comma separated.
fn write_stored_list(out: &mut Vec<u8>, items: &Vec<StoredTask>)
    ensures
        final(out)@ == old(out)@ + spec_stored_list(items.deep_view()),
{
    let ghost base = out@;
    let ghost dv = items.deep_view();
    let mut i: usize = 0;
    while i < items.len()
        invariant
            0 <= i <= items@.len(),
            dv == items.deep_view(),
            dv.len() == items@.len(),
            out@ == base + spec_stored_list(dv.take(i as int)),
        decreases items@.len() - i,
    {
        if i > 0 {
            out.push(COMMA);
        }
        write_stored(out, &items[i]);
        proof {
            assert(dv[i as int] == items@[i as int]@);
            assert(dv.take(i + 1 as int).drop_last() =~= dv.take(i as int));
            assert(dv.take(i + 1 as int).last() == dv[i as int]);
            if i == 0 {
                assert(out@ =~= base + spec_stored_list(dv.take(1)));
            } else {
                assert(out@ =~= base + spec_stored_list(dv.take(i + 1 as int)));
            }
        }
        i = i + 1;
    }
    proof {
        assert(dv.take(dv.len() as int) =~= dv);
    }
}

/// Encode a response for the wire.
pub fn encode_response(resp: &MavrikResponse) -> (r: Vec<u8>)
    ensures
        r@ == spec_encode_response(resp@),
{
    let mut out: Vec<u8> = Vec::new();
    match resp {
        MavrikResponse::NewTaskId(id) => {
            let id_text = id.display_bytes();
            write_json_string(&mut out, &id_text);
            proof {
                assert(out@ =~= spec_encode_response(resp@));
            }
        },
        MavrikResponse::CompletedTask(result) => {
            match result {
                TaskResult::Success { result } => {
                    let mut l = lit_success_prefix();
                    out.append(&mut l);
                    write_json_string(&mut out, result);
                    out.push(RBRACE);
                },
                TaskResult::Failure { class, message, backtrace } => {
                    let mut l = lit_failure_prefix();
                    out.append(&mut l);
                    write_json_string(&mut out, class);
                    let mut l = lit_message_sep();
                    out.append(&mut l);
                    write_json_string(&mut out, message);
                    let mut l = lit_backtrace_sep();
                    out.append(&mut l);
                    write_string_list(&mut out, backtrace);
                    out.push(RBRACKET);
                    out.push(RBRACE);
                },
            }
            proof {
                assert(out@ =~= spec_encode_response(resp@));
            }
        },
        MavrikResponse::StoreState(state) => {
            let mut l = lit_tasks_prefix();
            out.append(&mut l);
            write_stored_list(&mut out, &state.tasks);
            out.push(RBRACKET);
            out.push(RBRACE);
            proof {
                assert(out@ =~= spec_encode_response(resp@));
            }
        },
        MavrikResponse::Terminated(b) => {
            let mut l = if *b {
                lit_true_text()
            } else {
                lit_false_text()
            };
            out.append(&mut l);
            proof {
                assert(out@ =~= spec_encode_response(resp@));
            }
        },
    }
    out
}

} // verus!

verus! {

/// Every request encoding is long enough to be told apart by its tenth
/// byte, which spells the first letter of the request's type name.
pub proof fn lemma_request_byte_nine(m: MavrikRequestView)
    ensures
        spec_encode_request(m).len() > 9,
        m is NewTask ==> spec_encode_request(m)[9] == 0x6e,
        m is AwaitTask ==> spec_encode_request(m)[9] == 0x61,
        m is GetStoreState ==> spec_encode_request(m)[9] == 0x67,
        m is Terminate ==> spec_encode_request(m)[9] == 0x74,
{
    match m {
        MavrikRequestView::NewTask(t) => {
            assert(spec_lit_new_task_prefix().len() == 27 && spec_lit_new_task_prefix()[9] == 0x6e);
            assert(spec_encode_request(m)[9] == spec_lit_new_task_prefix()[9]);
        },
        MavrikRequestView::AwaitTask { task_id } => {
            assert(spec_lit_await_task_prefix().len() == 31 && spec_lit_await_task_prefix()[9]
                == 0x61);
            assert(spec_encode_request(m)[9] == spec_lit_await_task_prefix()[9]);
        },
        MavrikRequestView::GetStoreState => {
            assert(spec_lit_get_store_state().len() == 26 && spec_lit_get_store_state()[9] == 0x67);
        },
        MavrikRequestView::Terminate => {
            assert(spec_lit_terminate().len() == 20 && spec_lit_terminate()[9] == 0x74);
        },
    }
}

/// A prefix of the buffer fixes its tenth byte.
proof fn lemma_prefix_ninth(b: Seq<u8>, p: Seq<u8>)
    requires
        p.len() > 9,
        p.len() <= b.len(),
        b.subrange(0, p.len() as int) == p,
    ensures
        b[9] == p[9],
{
    assert(b.subrange(0, p.len() as int)[9] == p[9]);
}

/// Where each part of an encoded submission stands, and that the canonical
/// scanner finds exactly the submitted fields there.
proof fn lemma_new_task_positions(b: Seq<u8>, t: NewTaskView)
    requires
        b == spec_encode_request(MavrikRequestView::NewTask(t)),
    ensures
        ({
            let p0 = spec_lit_new_task_prefix().len() as int;
            let p1 = p0 + json_string(t.queue).len() as int;
            let p2 = p1 + spec_lit_definition_sep().len() as int;
            let p3 = p2 + json_string(t.definition).len() as int;
            let p4 = p3 + spec_lit_args_sep().len() as int;
            let p5 = p4 + json_string(t.args).len() as int;
            let p6 = p5 + spec_lit_kwargs_sep().len() as int;
            let p7 = p6 + json_string(t.kwargs).len() as int;
            &&& b.len() == p7 + 1
            &&& b.subrange(0, p0) == spec_lit_new_task_prefix()
            &&& spec_scan_string(b, p0) == Some((t.queue, p1))
            &&& b.subrange(p1, p2) == spec_lit_definition_sep()
            &&& spec_scan_string(b, p2) == Some((t.definition, p3))
            &&& b.subrange(p3, p4) == spec_lit_args_sep()
            &&& spec_scan_string(b, p4) == Some((t.args, p5))
            &&& b.subrange(p5, p6) == spec_lit_kwargs_sep()
            &&& spec_scan_string(b, p6) == Some((t.kwargs, p7))
            &&& b[p7] == RBRACE
        }),
{
    let p0 = spec_lit_new_task_prefix().len() as int;
    let p1 = p0 + json_string(t.queue).len() as int;
    let p2 = p1 + spec_lit_definition_sep().len() as int;
    let p3 = p2 + json_string(t.definition).len() as int;
    let p4 = p3 + spec_lit_args_sep().len() as int;
    let p5 = p4 + json_string(t.args).len() as int;
    let p6 = p5 + spec_lit_kwargs_sep().len() as int;
    let p7 = p6 + json_string(t.kwargs).len() as int;
    assert(b.subrange(0, p0) =~= spec_lit_new_task_prefix());
    assert(b.subrange(p0, p1) =~= json_string(t.queue));
    assert(b.subrange(p1, p2) =~= spec_lit_definition_sep());
    assert(b.subrange(p2, p3) =~= json_string(t.definition));
    assert(b.subrange(p3, p4) =~= spec_lit_args_sep());
    assert(b.subrange(p4, p5) =~= json_string(t.args));
    assert(b.subrange(p5, p6) =~= spec_lit_kwargs_sep());
    assert(b.subrange(p6, p7) =~= json_string(t.kwargs));
    lemma_scan_string_complete(b, p0, t.queue);
    lemma_scan_string_complete(b, p2, t.definition);
    lemma_scan_string_complete(b, p4, t.args);
    lemma_scan_string_complete(b, p6, t.kwargs);
}

/// Where each part of an encoded await stands, and that the scanner finds
/// exactly the awaited id's text there.
proof fn lemma_await_positions(b: Seq<u8>, task_id: TaskId)
    requires
        b == spec_encode_request(MavrikRequestView::AwaitTask { task_id }),
    ensures
        ({
            let p0 = spec_lit_await_task_prefix().len() as int;
            let p1 = p0 + json_string(task_id.spec_display_bytes()).len() as int;
            &&& b.len() == p1 + 1
            &&& b.subrange(0, p0) == spec_lit_await_task_prefix()
            &&& spec_scan_string(b, p0) == Some((task_id.spec_display_bytes(), p1))
            &&& b[p1] == RBRACE
        }),
{
    let p0 = spec_lit_await_task_prefix().len() as int;
    let p1 = p0 + json_string(task_id.spec_display_bytes()).len() as int;
    assert(b.subrange(0, p0) =~= spec_lit_await_task_prefix());
    assert(b.subrange(p0, p1) =~= json_string(task_id.spec_display_bytes()));
    lemma_scan_string_complete(b, p0, task_id.spec_display_bytes());
}

/// Parse the fields of a submission, given that the buffer starts with the
/// submission prefix. The result is accepted only if re-encoding it gives
/// the buffer back, so whatever comes out is a faithful reading.
fn parse_new_task_body(buf: &Vec<u8>) -> (r: Option<MavrikRequest>)
    ensures
        match r {
            Some(m) => buf@ == spec_encode_request(m@),
            None => forall|t: NewTaskView|
                buf@ != spec_encode_request(MavrikRequestView::NewTask(t)),
        },
{
    let p0 = lit_new_task_prefix().len();
    proof {
        assert(spec_lit_new_task_prefix().len() == 27);
    }
    if p0 > buf.len() {
        proof {
            assert forall|t: NewTaskView|
                buf@ != spec_encode_request(MavrikRequestView::NewTask(t)) by {
                if buf@ == spec_encode_request(MavrikRequestView::NewTask(t)) {
                    lemma_new_task_positions(buf@, t);
                }
            }
        }
        return None;
    }
    let (q, p1) = match parse_json_string(buf, p0) {
        Some(x) => x,
        None => {
            proof {
                assert forall|t: NewTaskView|
                    buf@ != spec_encode_request(MavrikRequestView::NewTask(t)) by {
                    if buf@ == spec_encode_request(MavrikRequestView::NewTask(t)) {
                        lemma_new_task_positions(buf@, t);
                    }
                }
            }
            return None;
        },
    };
    let sep = lit_definition_sep();
    if !match_at(buf, p1, &sep) {
        proof {
            assert forall|t: NewTaskView|
                buf@ != spec_encode_request(MavrikRequestView::NewTask(t)) by {
                if buf@ == spec_encode_request(MavrikRequestView::NewTask(t)) {
                    lemma_new_task_positions(buf@, t);
                }
            }
        }
        return None;
    }
    let p2 = p1 + sep.len();
    let (d, p3) = match parse_json_string(buf, p2) {
        Some(x) => x,
        None => {
            proof {
                assert forall|t: NewTaskView|
                    buf@ != spec_encode_request(MavrikRequestView::NewTask(t)) by {
                    if buf@ == spec_encode_request(MavrikRequestView::NewTask(t)) {
                        lemma_new_task_positions(buf@, t);
                    }
                }
            }
            return None;
        },
    };
    let sep = lit_args_sep();
    if !match_at(buf, p3, &sep) {
        proof {
            assert forall|t: NewTaskView|
                buf@ != spec_encode_request(MavrikRequestView::NewTask(t)) by {
                if buf@ == spec_encode_request(MavrikRequestView::NewTask(t)) {
                    lemma_new_task_positions(buf@, t);
                }
            }
        }
        return None;
    }
    let p4 = p3 + sep.len();
    let (a, p5) = match parse_json_string(buf, p4) {
        Some(x) => x,
        None => {
            proof {
                assert forall|t: NewTaskView|
                    buf@ != spec_encode_request(MavrikRequestView::NewTask(t)) by {
                    if buf@ == spec_encode_request(MavrikRequestView::NewTask(t)) {
                        lemma_new_task_positions(buf@, t);
                    }
                }
            }
            return None;
        },
    };
    let sep = lit_kwargs_sep();
    if !match_at(buf, p5, &sep) {
        proof {
            assert forall|t: NewTaskView|
                buf@ != spec_encode_request(MavrikRequestView::NewTask(t)) by {
                if buf@ == spec_encode_request(MavrikRequestView::NewTask(t)) {
                    lemma_new_task_positions(buf@, t);
                }
            }
        }
        return None;
    }
    let p6 = p5 + sep.len();
    let (k, p7) = match parse_json_string(buf, p6) {
        Some(x) => x,
        None => {
            proof {
                assert forall|t: NewTaskView|
                    buf@ != spec_encode_request(MavrikRequestView::NewTask(t)) by {
                    if buf@ == spec_encode_request(MavrikRequestView::NewTask(t)) {
                        lemma_new_task_positions(buf@, t);
                    }
                }
            }
            return None;
        },
    };
    let req = MavrikRequest::NewTask(
        NewTask { queue: q, definition: d, args: a, kwargs: k },
    );
    let enc = encode_request(&req);
    if bytes_eq(&enc, buf) {
        Some(req)
    } else {
        proof {
            assert forall|t: NewTaskView|
                buf@ != spec_encode_request(MavrikRequestView::NewTask(t)) by {
                if buf@ == spec_encode_request(MavrikRequestView::NewTask(t)) {
                    lemma_new_task_positions(buf@, t);
                    assert(enc@ =~= buf@);
                }
            }
        }
        None
    }
}

/// Parse the field of an await, accepting only the canonical text of the id;
/// the result is accepted only if re-encoding it gives the buffer back.
fn parse_await_body(buf: &Vec<u8>) -> (r: Option<MavrikRequest>)
    ensures
        match r {
            Some(m) => buf@ == spec_encode_request(m@),
            None => forall|tid: TaskId|
                buf@ != spec_encode_request(MavrikRequestView::AwaitTask { task_id: tid }),
        },
{
    let p0 = lit_await_task_prefix().len();
    proof {
        assert(spec_lit_await_task_prefix().len() == 31);
    }
    if p0 > buf.len() {
        proof {
            assert forall|tid: TaskId|
                buf@ != spec_encode_request(MavrikRequestView::AwaitTask { task_id: tid }) by {
                if buf@ == spec_encode_request(MavrikRequestView::AwaitTask { task_id: tid }) {
                    lemma_await_positions(buf@, tid);
                }
            }
        }
        return None;
    }
    let (id_text, p1) = match parse_json_string(buf, p0) {
        Some(x) => x,
        None => {
            proof {
                assert forall|tid: TaskId|
                    buf@ != spec_encode_request(MavrikRequestView::AwaitTask { task_id: tid }) by {
                    if buf@ == spec_encode_request(MavrikRequestView::AwaitTask { task_id: tid }) {
                        lemma_await_positions(buf@, tid);
                    }
                }
            }
            return None;
        },
    };
    let task_id = match TaskId::parse_text(&id_text) {
        Ok(id) => id,
        Err(_) => {
            proof {
                assert forall|tid: TaskId|
                    buf@ != spec_encode_request(MavrikRequestView::AwaitTask { task_id: tid }) by {
                    if buf@ == spec_encode_request(MavrikRequestView::AwaitTask { task_id: tid }) {
                        lemma_await_positions(buf@, tid);
                        crate::task_id::lemma_task_id_text_round_trip(tid);
                    }
                }
            }
            return None;
        },
    };
    let req = MavrikRequest::AwaitTask { task_id };
    let enc = encode_request(&req);
    if bytes_eq(&enc, buf) {
        Some(req)
    } else {
        proof {
            assert forall|tid: TaskId|
                buf@ != spec_encode_request(MavrikRequestView::AwaitTask { task_id: tid }) by {
                if buf@ == spec_encode_request(MavrikRequestView::AwaitTask { task_id: tid }) {
                    lemma_await_positions(buf@, tid);
                    crate::task_id::lemma_task_id_text_round_trip(tid);
                    assert(enc@ =~= buf@);
                }
            }
        }
        None
    }
}

/// Parse a request from its canonical JSON bytes. Succeeds exactly on the
/// encodings `encode_request` produces, and returns the request those bytes
/// spell; everything else, including well-formed JSON that is not in the
/// canonical form, is `BadJson`.
pub fn parse_request(buf: &Vec<u8>) -> (r: Result<MavrikRequest, FramingError>)
    ensures
        match r {
            Ok(m) => buf@ == spec_encode_request(m@),
            Err(e) => e == FramingError::BadJson && forall|mv: MavrikRequestView|
                buf@ != spec_encode_request(mv),
        },
{
    let gss = lit_get_store_state();
    if match_at(buf, 0, &gss) && buf.len() == gss.len() {
        proof {
            assert(buf@ =~= spec_lit_get_store_state());
        }
        return Ok(MavrikRequest::GetStoreState);
    }
    let term = lit_terminate();
    if match_at(buf, 0, &term) && buf.len() == term.len() {
        proof {
            assert(buf@ =~= spec_lit_terminate());
        }
        return Ok(MavrikRequest::Terminate);
    }
    let newp = lit_new_task_prefix();
    if match_at(buf, 0, &newp) {
        proof {
            assert(spec_lit_new_task_prefix().len() == 27 && spec_lit_new_task_prefix()[9] == 0x6e);
            lemma_prefix_ninth(buf@, spec_lit_new_task_prefix());
        }
        match parse_new_task_body(buf) {
            Some(m) => {
                return Ok(m);
            },
            None => {
                proof {
                    assert forall|mv: MavrikRequestView| buf@ != spec_encode_request(mv) by {
                        if buf@ == spec_encode_request(mv) {
                            lemma_request_byte_nine(mv);
                        }
                    }
                }
                return Err(FramingError::BadJson);
            },
        }
    }
    let awp = lit_await_task_prefix();
    if match_at(buf, 0, &awp) {
        proof {
            assert(spec_lit_await_task_prefix().len() == 31 && spec_lit_await_task_prefix()[9]
                == 0x61);
            lemma_prefix_ninth(buf@, spec_lit_await_task_prefix());
        }
        match parse_await_body(buf) {
            Some(m) => {
                return Ok(m);
            },
            None => {
                proof {
                    assert forall|mv: MavrikRequestView| buf@ != spec_encode_request(mv) by {
                        if buf@ == spec_encode_request(mv) {
                            lemma_request_byte_nine(mv);
                        }
                    }
                }
                return Err(FramingError::BadJson);
            },
        }
    }
    proof {
        assert forall|mv: MavrikRequestView| buf@ != spec_encode_request(mv) by {
            if buf@ == spec_encode_request(mv) {
                match mv {
                    MavrikRequestView::NewTask(t) => {
                        lemma_new_task_positions(buf@, t);
                        assert(spec_lit_new_task_prefix().len() == 27);
                    },
                    MavrikRequestView::AwaitTask { task_id } => {
                        lemma_await_positions(buf@, task_id);
                        assert(spec_lit_await_task_prefix().len() == 31);
                    },
                    MavrikRequestView::GetStoreState => {
                        assert(spec_lit_get_store_state().len() == 26);
                        assert(buf@.subrange(0, 26) =~= spec_lit_get_store_state());
                    },
                    MavrikRequestView::Terminate => {
                        assert(spec_lit_terminate().len() == 20);
                        assert(buf@.subrange(0, 20) =~= spec_lit_terminate());
                    },
                }
            }
        }
    }
    Err(FramingError::BadJson)
}

} // verus!
