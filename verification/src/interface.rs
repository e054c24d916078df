//! The methods that clients can call, and how they are described to them.

use crate::json::{
    array_value, bool_value, contents, fields_content, json_content, no_content, no_fields,
    object_value, put, text_value, Json,
};
use crate::rows::NodeStatus;
use crate::text::same;
use vstd::prelude::*;

verus! {

/// A method that clients can call.
#[derive(Debug, Clone, Copy, PartialEq, Eq, Structural)]
pub enum Method {
    DescribeInterface,
    Health,
    Metrics,
    RegisterTask,
    AcquireNextNode,
    CommitEvent,
    HeartbeatNode,
    CompleteNode,
    FailNode,
    TaskStatus,
    AcquireResourceLock,
    HeartbeatResourceLock,
    ReleaseResourceLock,
    ListResourceLocks,
}

impl Method {
    /// The method's name.
    pub open spec fn title(self) -> Seq<char> {
        match self {
            Method::DescribeInterface => "DescribeInterface"@,
            Method::Health => "Health"@,
            Method::Metrics => "Metrics"@,
            Method::RegisterTask => "RegisterTask"@,
            Method::AcquireNextNode => "AcquireNextNode"@,
            Method::CommitEvent => "CommitEvent"@,
            Method::HeartbeatNode => "HeartbeatNode"@,
            Method::CompleteNode => "CompleteNode"@,
            Method::FailNode => "FailNode"@,
            Method::TaskStatus => "TaskStatus"@,
            Method::AcquireResourceLock => "AcquireResourceLock"@,
            Method::HeartbeatResourceLock => "HeartbeatResourceLock"@,
            Method::ReleaseResourceLock => "ReleaseResourceLock"@,
            Method::ListResourceLocks => "ListResourceLocks"@,
        }
    }

    /// The method's name in snake case.
    pub open spec fn snake_title(self) -> Seq<char> {
        match self {
            Method::DescribeInterface => "describe_interface"@,
            Method::Health => "health"@,
            Method::Metrics => "metrics"@,
            Method::RegisterTask => "register_task"@,
            Method::AcquireNextNode => "acquire_next_node"@,
            Method::CommitEvent => "commit_event"@,
            Method::HeartbeatNode => "heartbeat_node"@,
            Method::CompleteNode => "complete_node"@,
            Method::FailNode => "fail_node"@,
            Method::TaskStatus => "task_status"@,
            Method::AcquireResourceLock => "acquire_resource_lock"@,
            Method::HeartbeatResourceLock => "heartbeat_resource_lock"@,
            Method::ReleaseResourceLock => "release_resource_lock"@,
            Method::ListResourceLocks => "list_resource_locks"@,
        }
    }

    /// The method takes parameters.
    pub open spec fn takes_params(self) -> bool {
        !(self is DescribeInterface || self is Health || self is Metrics
            || self is ListResourceLocks)
    }

    /// The method's name.
    pub fn name(self) -> (text: &'static str)
        ensures
            text@ == self.title(),
    {
        match self {
            Method::DescribeInterface => "DescribeInterface",
            Method::Health => "Health",
            Method::Metrics => "Metrics",
            Method::RegisterTask => "RegisterTask",
            Method::AcquireNextNode => "AcquireNextNode",
            Method::CommitEvent => "CommitEvent",
            Method::HeartbeatNode => "HeartbeatNode",
            Method::CompleteNode => "CompleteNode",
            Method::FailNode => "FailNode",
            Method::TaskStatus => "TaskStatus",
            Method::AcquireResourceLock => "AcquireResourceLock",
            Method::HeartbeatResourceLock => "HeartbeatResourceLock",
            Method::ReleaseResourceLock => "ReleaseResourceLock",
            Method::ListResourceLocks => "ListResourceLocks",
        }
    }
}

/// The method that a word calls, if it calls one: each goes by its name and by the same in snake
/// case.
pub open spec fn method_called(word: Seq<char>) -> Option<Method> {
    if word == "DescribeInterface"@ || word == "describe_interface"@ {
        Some(Method::DescribeInterface)
    } else if word == "Health"@ || word == "health"@ {
        Some(Method::Health)
    } else if word == "Metrics"@ || word == "metrics"@ {
        Some(Method::Metrics)
    } else if word == "RegisterTask"@ || word == "register_task"@ {
        Some(Method::RegisterTask)
    } else if word == "AcquireNextNode"@ || word == "acquire_next_node"@ {
        Some(Method::AcquireNextNode)
    } else if word == "CommitEvent"@ || word == "commit_event"@ {
        Some(Method::CommitEvent)
    } else if word == "HeartbeatNode"@ || word == "heartbeat_node"@ {
        Some(Method::HeartbeatNode)
    } else if word == "CompleteNode"@ || word == "complete_node"@ {
        Some(Method::CompleteNode)
    } else if word == "FailNode"@ || word == "fail_node"@ {
        Some(Method::FailNode)
    } else if word == "TaskStatus"@
        || word == "task_status"@
        || word == "GetTaskStatus"@
        || word == "get_task_status"@
    {
        Some(Method::TaskStatus)
    } else if word == "AcquireResourceLock"@ || word == "acquire_resource_lock"@ {
        Some(Method::AcquireResourceLock)
    } else if word == "HeartbeatResourceLock"@ || word == "heartbeat_resource_lock"@ {
        Some(Method::HeartbeatResourceLock)
    } else if word == "ReleaseResourceLock"@ || word == "release_resource_lock"@ {
        Some(Method::ReleaseResourceLock)
    } else if word == "ListResourceLocks"@ || word == "list_resource_locks"@ {
        Some(Method::ListResourceLocks)
    } else {
        None
    }
}

/// The method that a word calls, if it calls one.
pub fn route(method: &str) -> (res: Option<Method>)
    ensures
        res == method_called(method@),
{
    if same(method, "DescribeInterface") || same(method, "describe_interface") {
        Some(Method::DescribeInterface)
    } else if same(method, "Health") || same(method, "health") {
        Some(Method::Health)
    } else if same(method, "Metrics") || same(method, "metrics") {
        Some(Method::Metrics)
    } else if same(method, "RegisterTask") || same(method, "register_task") {
        Some(Method::RegisterTask)
    } else if same(method, "AcquireNextNode") || same(method, "acquire_next_node") {
        Some(Method::AcquireNextNode)
    } else if same(method, "CommitEvent") || same(method, "commit_event") {
        Some(Method::CommitEvent)
    } else if same(method, "HeartbeatNode") || same(method, "heartbeat_node") {
        Some(Method::HeartbeatNode)
    } else if same(method, "CompleteNode") || same(method, "complete_node") {
        Some(Method::CompleteNode)
    } else if same(method, "FailNode") || same(method, "fail_node") {
        Some(Method::FailNode)
    } else if same(method, "TaskStatus")
        || same(method, "task_status")
        || same(method, "GetTaskStatus")
        || same(method, "get_task_status")
    {
        Some(Method::TaskStatus)
    } else if same(method, "AcquireResourceLock") || same(method, "acquire_resource_lock") {
        Some(Method::AcquireResourceLock)
    } else if same(method, "HeartbeatResourceLock") || same(method, "heartbeat_resource_lock") {
        Some(Method::HeartbeatResourceLock)
    } else if same(method, "ReleaseResourceLock") || same(method, "release_resource_lock") {
        Some(Method::ReleaseResourceLock)
    } else if same(method, "ListResourceLocks") || same(method, "list_resource_locks") {
        Some(Method::ListResourceLocks)
    } else {
        None
    }
}

/// What the parameters of a method are described as.
pub open spec fn params_json(method: Method) -> Json {
    match method {
        Method::DescribeInterface => Json::Object(no_content()),
        Method::Health => Json::Object(no_content()),
        Method::Metrics => Json::Object(no_content()),
        Method::RegisterTask => Json::Object(
            no_content().insert("goal"@, Json::Text("string"@)).insert(
                "context"@,
                Json::Text("object"@),
            ).insert(
                "initial_nodes"@,
                Json::Array(
                    seq![
                        Json::Object(
                            no_content().insert("id"@, Json::Text("optional uuid"@)).insert(
                                "dependencies"@,
                                Json::Array(seq![Json::Text("uuid"@)]),
                            ).insert("payload_schema"@, Json::Text("object"@)),
                        ),
                    ],
                ),
            ),
        ),
        Method::AcquireNextNode => Json::Object(
            no_content()
                .insert("task_id"@, Json::Text("uuid"@))
                .insert("lease_owner"@, Json::Text("optional string"@))
        ),
        Method::CommitEvent => Json::Object(
            no_content()
                .insert("task_id"@, Json::Text("uuid"@))
                .insert("node_id"@, Json::Text("uuid"@))
                .insert("lease_id"@, Json::Text("optional uuid, required while node is RUNNING"@))
                .insert("action_type"@, Json::Text("optional string"@))
                .insert("payload"@, Json::Text("object"@))
        ),
        Method::HeartbeatNode => Json::Object(
            no_content()
                .insert("task_id"@, Json::Text("uuid"@))
                .insert("node_id"@, Json::Text("uuid"@))
                .insert("lease_id"@, Json::Text("uuid"@))
        ),
        Method::CompleteNode => Json::Object(
            no_content()
                .insert("task_id"@, Json::Text("uuid"@))
                .insert("node_id"@, Json::Text("uuid"@))
                .insert("lease_id"@, Json::Text("uuid"@))
                .insert("result_payload"@, Json::Text("object"@))
        ),
        Method::FailNode => Json::Object(
            no_content()
                .insert("task_id"@, Json::Text("uuid"@))
                .insert("node_id"@, Json::Text("uuid"@))
                .insert("lease_id"@, Json::Text("uuid"@))
                .insert("error_payload"@, Json::Text("object"@))
        ),
        Method::TaskStatus => Json::Object(no_content().insert("task_id"@, Json::Text("uuid"@))),
        Method::AcquireResourceLock => Json::Object(
            no_content()
                .insert("resource_key"@, Json::Text("string"@))
                .insert("owner"@, Json::Text("string"@))
                .insert("provider"@, Json::Text("optional string"@))
                .insert("ttl_secs"@, Json::Text("optional integer"@))
                .insert("task_id"@, Json::Text("optional uuid"@))
                .insert("node_id"@, Json::Text("optional uuid"@))
                .insert("metadata"@, Json::Text("optional object"@))
        ),
        Method::HeartbeatResourceLock => Json::Object(
            no_content()
                .insert("resource_key"@, Json::Text("string"@))
                .insert("lease_id"@, Json::Text("uuid"@))
                .insert("ttl_secs"@, Json::Text("optional integer"@))
        ),
        Method::ReleaseResourceLock => Json::Object(
            no_content()
                .insert("resource_key"@, Json::Text("string"@))
                .insert("lease_id"@, Json::Text("uuid"@))
        ),
        Method::ListResourceLocks => Json::Object(no_content()),
    }
}

/// What the result of a method is described as.
pub open spec fn result_json(method: Method) -> Json {
    match method {
        Method::DescribeInterface => Json::Object(
            no_content()
                .insert("protocol"@, Json::Text("string"@))
                .insert("methods"@, Json::Text("array"@))
        ),
        Method::Health => Json::Object(
            no_content()
                .insert("status"@, Json::Text("ok"@))
                .insert("database"@, Json::Text("ok"@))
                .insert("running_timeout_secs"@, Json::Text("integer"@))
                .insert("context_event_limit"@, Json::Text("integer"@))
        ),
        Method::Metrics => Json::Object(
            no_content()
                .insert("uptime_secs"@, Json::Text("integer"@))
                .insert("running_timeout_secs"@, Json::Text("integer"@))
                .insert("context_event_limit"@, Json::Text("integer"@))
                .insert("runtime"@, Json::Text("object"@))
                .insert("database"@, Json::Text("object"@))
        ),
        Method::RegisterTask => Json::Object(no_content().insert("task_id"@, Json::Text("uuid"@))),
        Method::AcquireNextNode => Json::Object(
            no_content()
                .insert("task_id"@, Json::Text("uuid"@))
                .insert("node_id"@, Json::Text("uuid"@))
                .insert("lease_id"@, Json::Text("uuid"@))
                .insert("lease_owner"@, Json::Text("string"@))
                .insert("lease_expires_at"@, Json::Text("unix timestamp"@))
                .insert("context"@, Json::Text("object, or null when no node is currently runnable"@))
        ),
        Method::CommitEvent => Json::Object(no_content().insert("event_id"@, Json::Text("uuid"@))),
        Method::HeartbeatNode => Json::Object(no_content().insert("ok"@, Json::Bool(true))),
        Method::CompleteNode => Json::Object(no_content().insert("event_id"@, Json::Text("uuid"@))),
        Method::FailNode => Json::Object(no_content().insert("event_id"@, Json::Text("uuid"@))),
        Method::TaskStatus => Json::Object(
            no_content()
                .insert("task"@, Json::Text("object"@))
                .insert("counts"@, Json::Text("object keyed by node status"@))
                .insert("nodes"@, Json::Text("array"@))
        ),
        Method::AcquireResourceLock => Json::Object(
            no_content()
                .insert("resource_key"@, Json::Text("string"@))
                .insert("lease_id"@, Json::Text("uuid"@))
                .insert("owner"@, Json::Text("string"@))
                .insert("provider"@, Json::Text("string or null"@))
                .insert("task_id"@, Json::Text("uuid or null"@))
                .insert("node_id"@, Json::Text("uuid or null"@))
                .insert("metadata"@, Json::Text("object"@))
                .insert("acquired_at"@, Json::Text("unix timestamp"@))
                .insert("lease_expires_at"@, Json::Text("unix timestamp; the whole result is null when the resource is held"@))
        ),
        Method::HeartbeatResourceLock => Json::Object(
            no_content()
                .insert("ok"@, Json::Text("boolean"@))
        ),
        Method::ReleaseResourceLock => Json::Object(
            no_content()
                .insert("ok"@, Json::Text("boolean"@))
        ),
        Method::ListResourceLocks => Json::Object(
            no_content()
                .insert("locks"@, Json::Text("array"@))
        ),
    }
}

/// What a method is described as.
pub open spec fn method_json(method: Method) -> Json {
    Json::Object(
        no_content().insert("method"@, Json::Text(method.title())).insert(
            "params"@,
            params_json(method),
        ).insert("result"@, result_json(method)),
    )
}

/// The methods, in the order in which they are described.
pub open spec fn all_methods() -> Seq<Method> {
    seq![
        Method::DescribeInterface,
        Method::Health,
        Method::Metrics,
        Method::RegisterTask,
        Method::AcquireNextNode,
        Method::CommitEvent,
        Method::HeartbeatNode,
        Method::CompleteNode,
        Method::FailNode,
        Method::TaskStatus,
        Method::AcquireResourceLock,
        Method::HeartbeatResourceLock,
        Method::ReleaseResourceLock,
        Method::ListResourceLocks,
    ]
}

/// What the states of a node are described as.
pub open spec fn state_model_json() -> Json {
    Json::Object(
        no_content().insert(
            "node_statuses"@,
            Json::Array(
                seq![
                    Json::Text(NodeStatus::Pending.word()),
                    Json::Text(NodeStatus::Running.word()),
                    Json::Text(NodeStatus::Completed.word()),
                    Json::Text(NodeStatus::Failed.word()),
                ],
            ),
        ).insert(
            "strict_transitions"@,
            Json::Object(
                no_content().insert("AcquireNextNode"@, Json::Text("PENDING -> RUNNING"@)).insert(
                    "CompleteNode"@,
                    Json::Text("RUNNING -> COMPLETED when lease_id matches"@),
                ).insert("FailNode"@, Json::Text("RUNNING -> FAILED when lease_id matches"@)).insert(
                    "timeout_rollback"@,
                    Json::Text("RUNNING -> PENDING"@),
                ),
            ),
        ),
    )
}

/// What the interface is described as.
pub open spec fn interface_json() -> Json {
    Json::Object(
        no_content().insert("protocol"@, Json::Text("agentd-jsonl-v1"@)).insert(
            "transport"@,
            Json::Text("unix-domain-socket"@),
        ).insert(
            "framing"@,
            Json::Text("one JSON-RPC style request per line; one response per line"@),
        ).insert("state_model"@, state_model_json()).insert(
            "methods"@,
            Json::Array(all_methods().map_values(|method: Method| method_json(method))),
        ),
    )
}

fn put_text(fields: &mut serde_json::Map<String, serde_json::Value>, key: &str, text: &str)
    ensures
        fields_content(*final(fields)) == fields_content(
            *old(fields),
        ).insert(key@, Json::Text(text@)),
{
    put(fields, key, text_value(text));
}

fn params_value(method: Method) -> (value: serde_json::Value)
    ensures
        json_content(value) == params_json(method),
{
    let mut fields = no_fields();
    match method {
        Method::DescribeInterface => {
        },
        Method::Health => {
        },
        Method::Metrics => {
        },
        Method::RegisterTask => {
            let mut ids: Vec<serde_json::Value> = Vec::new();
            ids.push(text_value("uuid"));
            assert(contents(ids@) =~= seq![Json::Text("uuid"@)]);
            let mut node = no_fields();
            put_text(&mut node, "id", "optional uuid");
            put(&mut node, "dependencies", array_value(ids));
            put_text(&mut node, "payload_schema", "object");
            let mut nodes: Vec<serde_json::Value> = Vec::new();
            let node = object_value(node);
            nodes.push(node);
            assert(contents(nodes@) =~= seq![json_content(node)]);
            put_text(&mut fields, "goal", "string");
            put_text(&mut fields, "context", "object");
            put(&mut fields, "initial_nodes", array_value(nodes));
        },
        Method::AcquireNextNode => {
            put_text(&mut fields, "task_id", "uuid");
            put_text(&mut fields, "lease_owner", "optional string");
        },
        Method::CommitEvent => {
            put_text(&mut fields, "task_id", "uuid");
            put_text(&mut fields, "node_id", "uuid");
            put_text(&mut fields, "lease_id", "optional uuid, required while node is RUNNING");
            put_text(&mut fields, "action_type", "optional string");
            put_text(&mut fields, "payload", "object");
        },
        Method::HeartbeatNode => {
            put_text(&mut fields, "task_id", "uuid");
            put_text(&mut fields, "node_id", "uuid");
            put_text(&mut fields, "lease_id", "uuid");
        },
        Method::CompleteNode => {
            put_text(&mut fields, "task_id", "uuid");
            put_text(&mut fields, "node_id", "uuid");
            put_text(&mut fields, "lease_id", "uuid");
            put_text(&mut fields, "result_payload", "object");
        },
        Method::FailNode => {
            put_text(&mut fields, "task_id", "uuid");
            put_text(&mut fields, "node_id", "uuid");
            put_text(&mut fields, "lease_id", "uuid");
            put_text(&mut fields, "error_payload", "object");
        },
        Method::TaskStatus => {
            put_text(&mut fields, "task_id", "uuid");
        },
        Method::AcquireResourceLock => {
            put_text(&mut fields, "resource_key", "string");
            put_text(&mut fields, "owner", "string");
            put_text(&mut fields, "provider", "optional string");
            put_text(&mut fields, "ttl_secs", "optional integer");
            put_text(&mut fields, "task_id", "optional uuid");
            put_text(&mut fields, "node_id", "optional uuid");
            put_text(&mut fields, "metadata", "optional object");
        },
        Method::HeartbeatResourceLock => {
            put_text(&mut fields, "resource_key", "string");
            put_text(&mut fields, "lease_id", "uuid");
            put_text(&mut fields, "ttl_secs", "optional integer");
        },
        Method::ReleaseResourceLock => {
            put_text(&mut fields, "resource_key", "string");
            put_text(&mut fields, "lease_id", "uuid");
        },
        Method::ListResourceLocks => {
        },
    }
    object_value(fields)
}

fn result_value(method: Method) -> (value: serde_json::Value)
    ensures
        json_content(value) == result_json(method),
{
    let mut fields = no_fields();
    match method {
        Method::DescribeInterface => {
            put_text(&mut fields, "protocol", "string");
            put_text(&mut fields, "methods", "array");
        },
        Method::Health => {
            put_text(&mut fields, "status", "ok");
            put_text(&mut fields, "database", "ok");
            put_text(&mut fields, "running_timeout_secs", "integer");
            put_text(&mut fields, "context_event_limit", "integer");
        },
        Method::Metrics => {
            put_text(&mut fields, "uptime_secs", "integer");
            put_text(&mut fields, "running_timeout_secs", "integer");
            put_text(&mut fields, "context_event_limit", "integer");
            put_text(&mut fields, "runtime", "object");
            put_text(&mut fields, "database", "object");
        },
        Method::RegisterTask => {
            put_text(&mut fields, "task_id", "uuid");
        },
        Method::AcquireNextNode => {
            put_text(&mut fields, "task_id", "uuid");
            put_text(&mut fields, "node_id", "uuid");
            put_text(&mut fields, "lease_id", "uuid");
            put_text(&mut fields, "lease_owner", "string");
            put_text(&mut fields, "lease_expires_at", "unix timestamp");
            put_text(&mut fields, "context", "object, or null when no node is currently runnable");
        },
        Method::CommitEvent => {
            put_text(&mut fields, "event_id", "uuid");
        },
        Method::HeartbeatNode => {
            put(&mut fields, "ok", bool_value(true));
        },
        Method::CompleteNode => {
            put_text(&mut fields, "event_id", "uuid");
        },
        Method::FailNode => {
            put_text(&mut fields, "event_id", "uuid");
        },
        Method::TaskStatus => {
            put_text(&mut fields, "task", "object");
            put_text(&mut fields, "counts", "object keyed by node status");
            put_text(&mut fields, "nodes", "array");
        },
        Method::AcquireResourceLock => {
            put_text(&mut fields, "resource_key", "string");
            put_text(&mut fields, "lease_id", "uuid");
            put_text(&mut fields, "owner", "string");
            put_text(&mut fields, "provider", "string or null");
            put_text(&mut fields, "task_id", "uuid or null");
            put_text(&mut fields, "node_id", "uuid or null");
            put_text(&mut fields, "metadata", "object");
            put_text(&mut fields, "acquired_at", "unix timestamp");
            put_text(&mut fields, "lease_expires_at", "unix timestamp; the whole result is null when the resource is held");
        },
        Method::HeartbeatResourceLock => {
            put_text(&mut fields, "ok", "boolean");
        },
        Method::ReleaseResourceLock => {
            put_text(&mut fields, "ok", "boolean");
        },
        Method::ListResourceLocks => {
            put_text(&mut fields, "locks", "array");
        },
    }
    object_value(fields)
}

fn method_value(method: Method) -> (value: serde_json::Value)
    ensures
        json_content(value) == method_json(method),
{
    let mut fields = no_fields();
    put_text(&mut fields, "method", method.name());
    put(&mut fields, "params", params_value(method));
    put(&mut fields, "result", result_value(method));
    object_value(fields)
}

fn state_model_value() -> (value: serde_json::Value)
    ensures
        json_content(value) == state_model_json(),
{
    let mut statuses: Vec<serde_json::Value> = Vec::new();
    statuses.push(text_value(NodeStatus::Pending.as_str()));
    statuses.push(text_value(NodeStatus::Running.as_str()));
    statuses.push(text_value(NodeStatus::Completed.as_str()));
    statuses.push(text_value(NodeStatus::Failed.as_str()));
    assert(contents(statuses@) =~= seq![
        Json::Text(NodeStatus::Pending.word()),
        Json::Text(NodeStatus::Running.word()),
        Json::Text(NodeStatus::Completed.word()),
        Json::Text(NodeStatus::Failed.word()),
    ]);
    let mut transitions = no_fields();
    put_text(&mut transitions, "AcquireNextNode", "PENDING -> RUNNING");
    put_text(&mut transitions, "CompleteNode", "RUNNING -> COMPLETED when lease_id matches");
    put_text(&mut transitions, "FailNode", "RUNNING -> FAILED when lease_id matches");
    put_text(&mut transitions, "timeout_rollback", "RUNNING -> PENDING");
    let mut fields = no_fields();
    put(&mut fields, "node_statuses", array_value(statuses));
    put(&mut fields, "strict_transitions", object_value(transitions));
    object_value(fields)
}

/// Describes the interface to a client.
pub fn describe_interface() -> (value: serde_json::Value)
    ensures
        json_content(value) == interface_json(),
{
    let mut methods: Vec<serde_json::Value> = Vec::new();
    methods.push(method_value(Method::DescribeInterface));
    methods.push(method_value(Method::Health));
    methods.push(method_value(Method::Metrics));
    methods.push(method_value(Method::RegisterTask));
    methods.push(method_value(Method::AcquireNextNode));
    methods.push(method_value(Method::CommitEvent));
    methods.push(method_value(Method::HeartbeatNode));
    methods.push(method_value(Method::CompleteNode));
    methods.push(method_value(Method::FailNode));
    methods.push(method_value(Method::TaskStatus));
    methods.push(method_value(Method::AcquireResourceLock));
    methods.push(method_value(Method::HeartbeatResourceLock));
    methods.push(method_value(Method::ReleaseResourceLock));
    methods.push(method_value(Method::ListResourceLocks));
    assert(contents(methods@) =~= all_methods().map_values(|method: Method| method_json(method)));
    let mut fields = no_fields();
    put_text(&mut fields, "protocol", "agentd-jsonl-v1");
    put_text(&mut fields, "transport", "unix-domain-socket");
    put_text(
        &mut fields,
        "framing",
        "one JSON-RPC style request per line; one response per line",
    );
    put(&mut fields, "state_model", state_model_value());
    put(&mut fields, "methods", array_value(methods));
    object_value(fields)
}

/// Every method is described, and goes by the name under which it is described and by the same in
/// snake case; the status of a task also by two names of its own.
pub proof fn every_method_is_described(method: Method)
    ensures
        all_methods().contains(method),
        method_called(method.title()) == Some(method),
        method_called(method.snake_title()) == Some(method),
        method_called("GetTaskStatus"@) == Some(Method::TaskStatus),
        method_called("get_task_status"@) == Some(Method::TaskStatus),
{
    reveal_strlit("DescribeInterface");
    reveal_strlit("describe_interface");
    reveal_strlit("Health");
    reveal_strlit("health");
    reveal_strlit("Metrics");
    reveal_strlit("metrics");
    reveal_strlit("RegisterTask");
    reveal_strlit("register_task");
    reveal_strlit("AcquireNextNode");
    reveal_strlit("acquire_next_node");
    reveal_strlit("CommitEvent");
    reveal_strlit("commit_event");
    reveal_strlit("HeartbeatNode");
    reveal_strlit("heartbeat_node");
    reveal_strlit("CompleteNode");
    reveal_strlit("complete_node");
    reveal_strlit("FailNode");
    reveal_strlit("fail_node");
    reveal_strlit("TaskStatus");
    reveal_strlit("task_status");
    reveal_strlit("GetTaskStatus");
    reveal_strlit("get_task_status");
    reveal_strlit("AcquireResourceLock");
    reveal_strlit("acquire_resource_lock");
    reveal_strlit("HeartbeatResourceLock");
    reveal_strlit("heartbeat_resource_lock");
    reveal_strlit("ReleaseResourceLock");
    reveal_strlit("release_resource_lock");
    reveal_strlit("ListResourceLocks");
    reveal_strlit("list_resource_locks");
    assert("DescribeInterface"@.len() == 17);
    assert("describe_interface"@.len() == 18);
    assert("Health"@.len() == 6);
    assert("health"@.len() == 6);
    assert("Metrics"@.len() == 7);
    assert("metrics"@.len() == 7);
    assert("RegisterTask"@.len() == 12);
    assert("register_task"@.len() == 13);
    assert("AcquireNextNode"@.len() == 15);
    assert("acquire_next_node"@.len() == 17);
    assert("CommitEvent"@.len() == 11);
    assert("commit_event"@.len() == 12);
    assert("HeartbeatNode"@.len() == 13);
    assert("heartbeat_node"@.len() == 14);
    assert("CompleteNode"@.len() == 12);
    assert("complete_node"@.len() == 13);
    assert("FailNode"@.len() == 8);
    assert("fail_node"@.len() == 9);
    assert("TaskStatus"@.len() == 10);
    assert("task_status"@.len() == 11);
    assert("GetTaskStatus"@.len() == 13);
    assert("get_task_status"@.len() == 15);
    assert("AcquireResourceLock"@.len() == 19);
    assert("acquire_resource_lock"@.len() == 21);
    assert("HeartbeatResourceLock"@.len() == 21);
    assert("heartbeat_resource_lock"@.len() == 23);
    assert("ReleaseResourceLock"@.len() == 19);
    assert("release_resource_lock"@.len() == 21);
    assert("ListResourceLocks"@.len() == 17);
    assert("list_resource_locks"@.len() == 19);
    assert("health"@[0] != "Health"@[0]);
    assert("metrics"@[0] != "Metrics"@[0]);
    assert("acquire_next_node"@[0] != "DescribeInterface"@[0]);
    assert("commit_event"@[0] != "RegisterTask"@[0]);
    assert("HeartbeatNode"@[0] != "register_task"@[0]);
    assert("CompleteNode"@[0] != "RegisterTask"@[0]);
    assert("CompleteNode"@[0] != "commit_event"@[0]);
    assert("complete_node"@[0] != "register_task"@[0]);
    assert("complete_node"@[0] != "HeartbeatNode"@[0]);
    assert("task_status"@[0] != "CommitEvent"@[0]);
    assert("GetTaskStatus"@[0] != "register_task"@[0]);
    assert("GetTaskStatus"@[0] != "HeartbeatNode"@[0]);
    assert("GetTaskStatus"@[0] != "complete_node"@[0]);
    assert("get_task_status"@[0] != "AcquireNextNode"@[0]);
    assert("HeartbeatResourceLock"@[0] != "acquire_resource_lock"@[0]);
    assert("ReleaseResourceLock"@[0] != "AcquireResourceLock"@[0]);
    assert("release_resource_lock"@[0] != "acquire_resource_lock"@[0]);
    assert("release_resource_lock"@[0] != "HeartbeatResourceLock"@[0]);
    assert("ListResourceLocks"@[0] != "DescribeInterface"@[0]);
    assert("ListResourceLocks"@[0] != "acquire_next_node"@[0]);
    assert("list_resource_locks"@[0] != "AcquireResourceLock"@[0]);
    assert("list_resource_locks"@[0] != "ReleaseResourceLock"@[0]);
    let at = match method {
        Method::DescribeInterface => 0int,
        Method::Health => 1int,
        Method::Metrics => 2int,
        Method::RegisterTask => 3int,
        Method::AcquireNextNode => 4int,
        Method::CommitEvent => 5int,
        Method::HeartbeatNode => 6int,
        Method::CompleteNode => 7int,
        Method::FailNode => 8int,
        Method::TaskStatus => 9int,
        Method::AcquireResourceLock => 10int,
        Method::HeartbeatResourceLock => 11int,
        Method::ReleaseResourceLock => 12int,
        Method::ListResourceLocks => 13int,
    };
    assert(all_methods()[at] == method);
}

/// Whatever the description lists as a method is one: its name and the same in snake case both call
/// it.
pub proof fn listed_names_are_served(i: int)
    requires
        0 <= i < (interface_json()->Object_0["methods"@]->Array_0).len(),
    ensures
        ({
            let entry = interface_json()->Object_0["methods"@]->Array_0[i];
            let method = all_methods()[i];
            &&& entry->Object_0["method"@] == Json::Text(method.title())
            &&& method_called(method.title()) == Some(method)
            &&& method_called(method.snake_title()) == Some(method)
        }),
{
    let method = all_methods()[i];
    every_method_is_described(method);
    reveal_strlit("method");
    reveal_strlit("params");
    reveal_strlit("result");
    assert("method"@[0] != "params"@[0]);
    assert("method"@[0] != "result"@[0]);
    assert(interface_json()->Object_0["methods"@] == Json::Array(
        all_methods().map_values(|method: Method| method_json(method)),
    ));
}

} // verus!
