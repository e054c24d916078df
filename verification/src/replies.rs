//! The replies that a client reads, word for word.

use crate::coordinator::CoordinatorFailure;
use crate::env::{digits_value, is_numeral};
use crate::error::DbFailure;
use crate::ids::Uuid;
use crate::interface::{
    all_methods, every_method_is_described, interface_json, method_called, method_json, Method,
};
use crate::ipc::{response_to, RequestError};
use crate::json::{json_error_text, Json};
use crate::reader::{decimal, utf8_error_text, IpcError};
use crate::settings::number_reads_back;
use vstd::prelude::*;

verus! {

/// A request that fails is answered under its own identifier with the code -32000, and with words
/// that say what went wrong, the task and the node named where the failure is about them. One that
/// does not fail is answered with its result.
pub proof fn failure_is_told_in_words(
    id: Option<Json>,
    content: Json,
    task_id: Uuid,
    node_id: Uuid,
    text: Seq<char>,
)
    ensures
        ({
            let said = |failure: CoordinatorFailure|
                (response_to(id, Err(failure)).id, response_to(id, Err(failure)).result);
            let words = |text: Seq<char>| (id, Err::<Json, (int, Seq<char>)>((-32000int, text)));
            &&& response_to(id, Ok(content)).id == id
            &&& response_to(id, Ok(content)).result == Ok::<Json, (int, Seq<char>)>(content)
            &&& said(CoordinatorFailure::TaskNotFound(task_id)) == words(
                "task not found: "@ + task_id@,
            )
            &&& said(CoordinatorFailure::NodeNotFound { task_id, node_id }) == words(
                "node not found: "@ + node_id@ + " for task "@ + task_id@,
            )
            &&& said(CoordinatorFailure::NodeNotRunning { task_id, node_id }) == words(
                "node "@ + node_id@ + " for task "@ + task_id@ + " is not RUNNING"@,
            )
            &&& said(CoordinatorFailure::Db(DbFailure::Sqlx(text))) == words(
                "database error: "@ + text,
            )
            &&& said(CoordinatorFailure::Db(DbFailure::Json(text))) == words(
                "JSON serialisation error: "@ + text,
            )
            &&& said(CoordinatorFailure::Db(DbFailure::Uuid(text))) == words(
                "UUID parse error: "@ + text,
            )
            &&& said(CoordinatorFailure::Db(DbFailure::InvalidState(text))) == words(
                "invalid state: "@ + text,
            )
            &&& said(CoordinatorFailure::Db(DbFailure::NotFound(text))) == words(
                "not found: "@ + text,
            )
        }),
{
}

/// Parameters that could not be read are answered with the code -32602 and the reader's words, a
/// request that failed with -32000 and its own.
pub proof fn refused_request_has_its_code(err: RequestError)
    ensures
        match err {
            RequestError::InvalidParams(err) => RequestError::InvalidParams(err).body() == (
                -32602int,
                "invalid params: "@ + json_error_text(err),
            ),
            RequestError::Coordinator(err) => RequestError::Coordinator(err).body() == (
                -32000int,
                err@.words(),
            ),
        },
{
}

/// A client that is no longer served is told why; of a request that is too long, how many bytes it
/// may have, in decimal digits.
pub proof fn end_of_service_is_told_in_words(err: IpcError)
    ensures
        match err {
            IpcError::Io(text) => err.words() == "I/O error: "@ + text@,
            IpcError::Json(failure) => err.words() == "JSON error: "@ + json_error_text(failure),
            IpcError::Utf8(failure) => err.words() == "UTF-8 error: "@ + utf8_error_text(failure),
            IpcError::RequestTooLarge(limit) => exists|digits: Seq<char>|
                {
                    &&& err.words() == "request exceeds "@ + digits + " bytes"@
                    &&& #[trigger] digits_value(digits) == limit
                    &&& is_numeral(digits)
                    &&& digits.len() > 1 ==> digits[0] != '0'
                },
        },
{
    if let IpcError::RequestTooLarge(limit) = err {
        number_reads_back(limit as nat, u64::MAX);
        let digits = decimal(limit as nat);
        assert(digits_value(digits) == limit);
    }
}

/// The words that call a method: its name and the same in snake case, and for the status of a
/// task two more.
pub proof fn each_name_calls_its_method(word: Seq<char>)
    ensures
        method_called(word) == Some(Method::DescribeInterface) <==> word == "DescribeInterface"@
            || word == "describe_interface"@,
        method_called(word) == Some(Method::Health) <==> word == "Health"@ || word == "health"@,
        method_called(word) == Some(Method::Metrics) <==> word == "Metrics"@ || word == "metrics"@,
        method_called(word) == Some(Method::RegisterTask) <==> word == "RegisterTask"@
            || word == "register_task"@,
        method_called(word) == Some(Method::AcquireNextNode) <==> word == "AcquireNextNode"@
            || word == "acquire_next_node"@,
        method_called(word) == Some(Method::CommitEvent) <==> word == "CommitEvent"@
            || word == "commit_event"@,
        method_called(word) == Some(Method::HeartbeatNode) <==> word == "HeartbeatNode"@
            || word == "heartbeat_node"@,
        method_called(word) == Some(Method::CompleteNode) <==> word == "CompleteNode"@
            || word == "complete_node"@,
        method_called(word) == Some(Method::FailNode) <==> word == "FailNode"@
            || word == "fail_node"@,
        method_called(word) == Some(Method::TaskStatus) <==> word == "TaskStatus"@
            || word == "task_status"@ || word == "GetTaskStatus"@ || word == "get_task_status"@,
        method_called(word) == Some(Method::AcquireResourceLock) <==> word == "AcquireResourceLock"@
            || word == "acquire_resource_lock"@,
        method_called(word) == Some(Method::HeartbeatResourceLock) <==> word
            == "HeartbeatResourceLock"@ || word == "heartbeat_resource_lock"@,
        method_called(word) == Some(Method::ReleaseResourceLock) <==> word == "ReleaseResourceLock"@
            || word == "release_resource_lock"@,
        method_called(word) == Some(Method::ListResourceLocks) <==> word == "ListResourceLocks"@
            || word == "list_resource_locks"@,
{
    every_method_is_described(Method::DescribeInterface);
    every_method_is_described(Method::Health);
    every_method_is_described(Method::Metrics);
    every_method_is_described(Method::RegisterTask);
    every_method_is_described(Method::AcquireNextNode);
    every_method_is_described(Method::CommitEvent);
    every_method_is_described(Method::HeartbeatNode);
    every_method_is_described(Method::CompleteNode);
    every_method_is_described(Method::FailNode);
    every_method_is_described(Method::TaskStatus);
    every_method_is_described(Method::AcquireResourceLock);
    every_method_is_described(Method::HeartbeatResourceLock);
    every_method_is_described(Method::ReleaseResourceLock);
    every_method_is_described(Method::ListResourceLocks);
}

/// What a client is told of a method: its name, its parameters and its result.
pub open spec fn entry(method: Method) -> Json {
    match method {
        Method::DescribeInterface => Json::Object(
            map![
                "method"@ => Json::Text("DescribeInterface"@),
                "params"@ => Json::Object(Map::empty()),
                "result"@ => Json::Object(
                    map![
                        "protocol"@ => Json::Text("string"@),
                        "methods"@ => Json::Text("array"@),
                    ],
                ),
            ],
        ),
        Method::Health => Json::Object(
            map![
                "method"@ => Json::Text("Health"@),
                "params"@ => Json::Object(Map::empty()),
                "result"@ => Json::Object(
                    map![
                        "status"@ => Json::Text("ok"@),
                        "database"@ => Json::Text("ok"@),
                        "running_timeout_secs"@ => Json::Text("integer"@),
                        "context_event_limit"@ => Json::Text("integer"@),
                    ],
                ),
            ],
        ),
        Method::Metrics => Json::Object(
            map![
                "method"@ => Json::Text("Metrics"@),
                "params"@ => Json::Object(Map::empty()),
                "result"@ => Json::Object(
                    map![
                        "uptime_secs"@ => Json::Text("integer"@),
                        "running_timeout_secs"@ => Json::Text("integer"@),
                        "context_event_limit"@ => Json::Text("integer"@),
                        "runtime"@ => Json::Text("object"@),
                        "database"@ => Json::Text("object"@),
                    ],
                ),
            ],
        ),
        Method::RegisterTask => Json::Object(
            map![
                "method"@ => Json::Text("RegisterTask"@),
                "params"@ => Json::Object(
                    map![
                        "goal"@ => Json::Text("string"@),
                        "context"@ => Json::Text("object"@),
                        "initial_nodes"@ => Json::Array(seq![Json::Object(
                            map![
                                "id"@ => Json::Text("optional uuid"@),
                                "dependencies"@ => Json::Array(seq![Json::Text("uuid"@)]),
                                "payload_schema"@ => Json::Text("object"@),
                            ],
                        )]),
                    ],
                ),
                "result"@ => Json::Object(
                    map![
                        "task_id"@ => Json::Text("uuid"@),
                    ],
                ),
            ],
        ),
        Method::AcquireNextNode => Json::Object(
            map![
                "method"@ => Json::Text("AcquireNextNode"@),
                "params"@ => Json::Object(
                    map![
                        "task_id"@ => Json::Text("uuid"@),
                        "lease_owner"@ => Json::Text("optional string"@),
                    ],
                ),
                "result"@ => Json::Object(
                    map![
                        "task_id"@ => Json::Text("uuid"@),
                        "node_id"@ => Json::Text("uuid"@),
                        "lease_id"@ => Json::Text("uuid"@),
                        "lease_owner"@ => Json::Text("string"@),
                        "lease_expires_at"@ => Json::Text("unix timestamp"@),
                        "context"@ => Json::Text("object, or null when no node is currently runnable"@),
                    ],
                ),
            ],
        ),
        Method::CommitEvent => Json::Object(
            map![
                "method"@ => Json::Text("CommitEvent"@),
                "params"@ => Json::Object(
                    map![
                        "task_id"@ => Json::Text("uuid"@),
                        "node_id"@ => Json::Text("uuid"@),
                        "lease_id"@ => Json::Text("optional uuid, required while node is RUNNING"@),
                        "action_type"@ => Json::Text("optional string"@),
                        "payload"@ => Json::Text("object"@),
                    ],
                ),
                "result"@ => Json::Object(
                    map![
                        "event_id"@ => Json::Text("uuid"@),
                    ],
                ),
            ],
        ),
        Method::HeartbeatNode => Json::Object(
            map![
                "method"@ => Json::Text("HeartbeatNode"@),
                "params"@ => Json::Object(
                    map![
                        "task_id"@ => Json::Text("uuid"@),
                        "node_id"@ => Json::Text("uuid"@),
                        "lease_id"@ => Json::Text("uuid"@),
                    ],
                ),
                "result"@ => Json::Object(
                    map![
                        "ok"@ => Json::Bool(true),
                    ],
                ),
            ],
        ),
        Method::CompleteNode => Json::Object(
            map![
                "method"@ => Json::Text("CompleteNode"@),
                "params"@ => Json::Object(
                    map![
                        "task_id"@ => Json::Text("uuid"@),
                        "node_id"@ => Json::Text("uuid"@),
                        "lease_id"@ => Json::Text("uuid"@),
                        "result_payload"@ => Json::Text("object"@),
                    ],
                ),
                "result"@ => Json::Object(
                    map![
                        "event_id"@ => Json::Text("uuid"@),
                    ],
                ),
            ],
        ),
        Method::FailNode => Json::Object(
            map![
                "method"@ => Json::Text("FailNode"@),
                "params"@ => Json::Object(
                    map![
                        "task_id"@ => Json::Text("uuid"@),
                        "node_id"@ => Json::Text("uuid"@),
                        "lease_id"@ => Json::Text("uuid"@),
                        "error_payload"@ => Json::Text("object"@),
                    ],
                ),
                "result"@ => Json::Object(
                    map![
                        "event_id"@ => Json::Text("uuid"@),
                    ],
                ),
            ],
        ),
        Method::TaskStatus => Json::Object(
            map![
                "method"@ => Json::Text("TaskStatus"@),
                "params"@ => Json::Object(
                    map![
                        "task_id"@ => Json::Text("uuid"@),
                    ],
                ),
                "result"@ => Json::Object(
                    map![
                        "task"@ => Json::Text("object"@),
                        "counts"@ => Json::Text("object keyed by node status"@),
                        "nodes"@ => Json::Text("array"@),
                    ],
                ),
            ],
        ),
        Method::AcquireResourceLock => Json::Object(
            map![
                "method"@ => Json::Text("AcquireResourceLock"@),
                "params"@ => Json::Object(
                    map![
                        "resource_key"@ => Json::Text("string"@),
                        "owner"@ => Json::Text("string"@),
                        "provider"@ => Json::Text("optional string"@),
                        "ttl_secs"@ => Json::Text("optional integer"@),
                        "task_id"@ => Json::Text("optional uuid"@),
                        "node_id"@ => Json::Text("optional uuid"@),
                        "metadata"@ => Json::Text("optional object"@),
                    ],
                ),
                "result"@ => Json::Object(
                    map![
                        "resource_key"@ => Json::Text("string"@),
                        "lease_id"@ => Json::Text("uuid"@),
                        "owner"@ => Json::Text("string"@),
                        "provider"@ => Json::Text("string or null"@),
                        "task_id"@ => Json::Text("uuid or null"@),
                        "node_id"@ => Json::Text("uuid or null"@),
                        "metadata"@ => Json::Text("object"@),
                        "acquired_at"@ => Json::Text("unix timestamp"@),
                        "lease_expires_at"@ => Json::Text("unix timestamp; the whole result is null when the resource is held"@),
                    ],
                ),
            ],
        ),
        Method::HeartbeatResourceLock => Json::Object(
            map![
                "method"@ => Json::Text("HeartbeatResourceLock"@),
                "params"@ => Json::Object(
                    map![
                        "resource_key"@ => Json::Text("string"@),
                        "lease_id"@ => Json::Text("uuid"@),
                        "ttl_secs"@ => Json::Text("optional integer"@),
                    ],
                ),
                "result"@ => Json::Object(
                    map![
                        "ok"@ => Json::Text("boolean"@),
                    ],
                ),
            ],
        ),
        Method::ReleaseResourceLock => Json::Object(
            map![
                "method"@ => Json::Text("ReleaseResourceLock"@),
                "params"@ => Json::Object(
                    map![
                        "resource_key"@ => Json::Text("string"@),
                        "lease_id"@ => Json::Text("uuid"@),
                    ],
                ),
                "result"@ => Json::Object(
                    map![
                        "ok"@ => Json::Text("boolean"@),
                    ],
                ),
            ],
        ),
        Method::ListResourceLocks => Json::Object(
            map![
                "method"@ => Json::Text("ListResourceLocks"@),
                "params"@ => Json::Object(Map::empty()),
                "result"@ => Json::Object(
                    map![
                        "locks"@ => Json::Text("array"@),
                    ],
                ),
            ],
        ),
    }
}

/// A client that asks for the interface is told of all methods, in the order of a node's life and
/// the locks last, and for each of what it takes and gives; and of the states that a node goes
/// through.
pub proof fn interface_is_described_in_full()
    ensures
        interface_json() == Json::Object(
            map![
                "protocol"@ => Json::Text("agentd-jsonl-v1"@),
                "transport"@ => Json::Text("unix-domain-socket"@),
                "framing"@ => Json::Text(
                    "one JSON-RPC style request per line; one response per line"@,
                ),
                "state_model"@ => Json::Object(
                    map![
                        "node_statuses"@ => Json::Array(
                            seq![
                                Json::Text("PENDING"@),
                                Json::Text("RUNNING"@),
                                Json::Text("COMPLETED"@),
                                Json::Text("FAILED"@),
                            ],
                        ),
                        "strict_transitions"@ => Json::Object(
                            map![
                                "AcquireNextNode"@ => Json::Text("PENDING -> RUNNING"@),
                                "CompleteNode"@ => Json::Text(
                                    "RUNNING -> COMPLETED when lease_id matches"@,
                                ),
                                "FailNode"@ => Json::Text(
                                    "RUNNING -> FAILED when lease_id matches"@,
                                ),
                                "timeout_rollback"@ => Json::Text("RUNNING -> PENDING"@),
                            ],
                        ),
                    ],
                ),
                "methods"@ => Json::Array(
                    seq![
                        entry(Method::DescribeInterface),
                        entry(Method::Health),
                        entry(Method::Metrics),
                        entry(Method::RegisterTask),
                        entry(Method::AcquireNextNode),
                        entry(Method::CommitEvent),
                        entry(Method::HeartbeatNode),
                        entry(Method::CompleteNode),
                        entry(Method::FailNode),
                        entry(Method::TaskStatus),
                        entry(Method::AcquireResourceLock),
                        entry(Method::HeartbeatResourceLock),
                        entry(Method::ReleaseResourceLock),
                        entry(Method::ListResourceLocks),
                    ],
                ),
            ],
        ),
{
    let told = seq![
        entry(Method::DescribeInterface),
        entry(Method::Health),
        entry(Method::Metrics),
        entry(Method::RegisterTask),
        entry(Method::AcquireNextNode),
        entry(Method::CommitEvent),
        entry(Method::HeartbeatNode),
        entry(Method::CompleteNode),
        entry(Method::FailNode),
        entry(Method::TaskStatus),
        entry(Method::AcquireResourceLock),
        entry(Method::HeartbeatResourceLock),
        entry(Method::ReleaseResourceLock),
        entry(Method::ListResourceLocks),
    ];
    let described = all_methods().map_values(|method: Method| method_json(method));
    assert forall|i: int| 0 <= i < described.len() implies described[i] == told[i] by {
        let method = all_methods()[i];
        assert(method_json(method) == entry(method));
    }
    assert(described =~= told);
}

} // verus!
