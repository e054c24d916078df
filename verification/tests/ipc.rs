use agentd::clock::Moment;
use agentd::coordinator::Coordinator;
use agentd::db::Database;
use agentd::error::DbError;
use agentd::graph::NodeDefinition;
use agentd::ids::Uuid;
use agentd::interface::{describe_interface, route, Method};
use agentd::ipc::{
    answer, default_lease_owner, handle_call, handle_request, Occasion, Request, RequestError, RpcResponse,
};
use agentd::reader::{
    decode_line, request_on, IpcError, LineReader, LineStep, MAX_REQUEST_BYTES,
};
use serde_json::Value;
use std::time::Duration;

fn json(text: &str) -> Value {
    serde_json::from_str(text).unwrap()
}

fn id(n: u128) -> Uuid {
    Uuid { bits: n }
}

fn uuid(value: &Value) -> Uuid {
    Uuid::parse_str(value.as_str().expect("identifier should be text")).unwrap()
}

fn start(timeout: Duration) -> Coordinator {
    Coordinator::new(Database::initialise(), timeout, 10)
}

fn occasion(secs: i64) -> Occasion {
    Occasion {
        now: Moment {
            secs,
            timestamp: "2024-01-01T00:00:00.000Z".to_string(),
        },
        elapsed_micros: 0,
        uptime_secs: 0,
    }
}

fn raw_rpc_call(coordinator: &mut Coordinator, request: Request) -> RpcResponse {
    handle_request(Some(json("1")), request, coordinator, &occasion(50))
}

fn rpc_call(coordinator: &mut Coordinator, request: Request) -> Value {
    let response = raw_rpc_call(coordinator, request);
    if let Some(error) = response.error {
        panic!("RPC call failed: {}", error.message);
    }
    response
        .result
        .expect("successful RPC response should include result")
}

fn complete(coordinator: &mut Coordinator, task_id: Uuid, acquired: &Value) {
    rpc_call(
        coordinator,
        Request::CompleteNode {
            task_id,
            node_id: uuid(&acquired["node_id"]),
            lease_id: uuid(&acquired["lease_id"]),
            result_payload: json("{\"ok\": true}"),
        },
    );
}

fn acquire(coordinator: &mut Coordinator, task_id: Uuid, owner: &str) -> Value {
    rpc_call(
        coordinator,
        Request::AcquireNextNode {
            task_id,
            lease_owner: owner.to_string(),
        },
    )
}

#[test]
fn ipc_contract_supports_multi_worker_dag_flow() {
    let mut daemon = start(Duration::from_secs(30));

    let interface = rpc_call(&mut daemon, Request::DescribeInterface);
    assert_eq!(interface["protocol"], "agentd-jsonl-v1");
    assert!(interface["methods"]
        .as_array()
        .expect("methods should be an array")
        .iter()
        .any(|method| method["method"] == "Metrics"));
    assert!(interface["methods"]
        .as_array()
        .expect("methods should be an array")
        .iter()
        .any(|method| method["method"] == "AcquireResourceLock"));

    let first_node = Uuid::new_v4();
    let second_node = Uuid::new_v4();
    let final_node = Uuid::new_v4();
    let node = |id: Uuid, dependencies: Vec<Uuid>, schema: &str| NodeDefinition {
        id: Some(id),
        dependencies,
        payload_schema: json(schema),
    };
    let registered = rpc_call(
        &mut daemon,
        Request::RegisterTask {
            goal: "integration DAG".to_string(),
            context: json("{\"test\": \"ipc_contract_supports_multi_worker_dag_flow\"}"),
            initial_nodes: vec![
                node(first_node, vec![], "{\"agent\": \"a\"}"),
                node(second_node, vec![], "{\"agent\": \"b\"}"),
                node(
                    final_node,
                    vec![first_node, second_node],
                    "{\"agent\": \"join\"}",
                ),
            ],
        },
    );
    let task_id = uuid(&registered["task_id"]);

    let first = acquire(&mut daemon, task_id, "worker-a");
    let second = acquire(&mut daemon, task_id, "worker-b");
    assert_ne!(first["node_id"], second["node_id"]);
    assert_ne!(first["lease_id"], second["lease_id"]);

    let blocked = acquire(&mut daemon, task_id, "worker-c");
    assert!(blocked.is_null());

    complete(&mut daemon, task_id, &first);
    complete(&mut daemon, task_id, &second);

    let joined = acquire(&mut daemon, task_id, "worker-join");
    assert_eq!(joined["node_id"], final_node.to_string());
    complete(&mut daemon, task_id, &joined);

    let metrics = rpc_call(&mut daemon, Request::Metrics);
    assert_eq!(metrics["database"]["schema_version"], 2);
    assert_eq!(metrics["database"]["total_tasks"], 1);
    assert_eq!(metrics["database"]["total_nodes"], 3);
    assert_eq!(metrics["runtime"]["completed_nodes"], 3);

    let status = rpc_call(&mut daemon, Request::TaskStatus { task_id });
    assert_eq!(status["counts"]["COMPLETED"], 3);
}

#[test]
fn ipc_rejects_stale_lease_after_reacquire() {
    let mut daemon = start(Duration::from_secs(0));
    let node_id = Uuid::new_v4();
    let registered = rpc_call(
        &mut daemon,
        Request::RegisterTask {
            goal: "stale lease".to_string(),
            context: json("{}"),
            initial_nodes: vec![NodeDefinition {
                id: Some(node_id),
                dependencies: vec![],
                payload_schema: json("{}"),
            }],
        },
    );
    let task_id = uuid(&registered["task_id"]);

    let first = acquire(&mut daemon, task_id, "old-worker");
    let second = acquire(&mut daemon, task_id, "new-worker");
    assert_eq!(first["node_id"], second["node_id"]);
    assert_ne!(first["lease_id"], second["lease_id"]);

    let stale = raw_rpc_call(
        &mut daemon,
        Request::CompleteNode {
            task_id,
            node_id: uuid(&first["node_id"]),
            lease_id: uuid(&first["lease_id"]),
            result_payload: json("{\"stale\": true}"),
        },
    );
    assert!(stale.error.is_some());
    assert_eq!(stale.error.unwrap().code, -32000);
    assert!(stale.result.is_none());

    complete(&mut daemon, task_id, &second);
}

#[test]
fn ipc_rejects_oversized_request_line() {
    let padding = "x".repeat(1024 * 1024);
    let request =
        format!("{{\"id\":1,\"method\":\"Health\",\"params\":{{\"padding\":\"{padding}\"}}}}\n");
    let bytes = request.as_bytes();
    let mut reader = LineReader::new();
    let mut refused = false;
    let mut taken = 0;
    while taken < bytes.len() && !refused {
        let end = bytes.len().min(taken + 8192);
        let (consumed, step) = reader.read_bounded_line(&bytes[taken..end]);
        taken += consumed;
        refused = matches!(step, LineStep::TooLarge);
    }
    assert!(refused);

    let response = RpcResponse::request_too_large();
    let body = response.error.unwrap();
    assert_eq!(body.code, -32001);
    assert_eq!(body.message, "request exceeds 1048576 bytes");
    assert!(response.id.is_none());
}

#[test]
fn ipc_resource_locks_coordinate_cross_provider_file_edits() {
    let mut daemon = start(Duration::from_secs(30));
    let ask = |owner: &str, provider: &str, metadata: &str| Request::AcquireResourceLock {
        resource_key: "file:src/lib.rs".to_string(),
        owner: owner.to_string(),
        provider: Some(provider.to_string()),
        ttl_secs: Some(30),
        task_id: None,
        node_id: None,
        metadata: json(metadata),
    };

    let first = rpc_call(
        &mut daemon,
        ask("codex-cli", "openai", "{\"intent\": \"edit\"}"),
    );
    assert_eq!(first["resource_key"], "file:src/lib.rs");
    assert_eq!(first["owner"], "codex-cli");
    assert_eq!(first["provider"], "openai");

    let blocked = rpc_call(&mut daemon, ask("shell-agent", "local", "{}"));
    assert!(blocked.is_null());

    let beaten = rpc_call(
        &mut daemon,
        Request::HeartbeatResourceLock {
            resource_key: "file:src/lib.rs".to_string(),
            lease_id: uuid(&first["lease_id"]),
            ttl_secs: Some(30),
        },
    );
    assert_eq!(beaten, json("{\"ok\": true}"));

    let locks = rpc_call(&mut daemon, Request::ListResourceLocks);
    assert_eq!(
        locks["locks"].as_array().expect("locks should array").len(),
        1
    );
    assert_eq!(locks["locks"][0]["metadata"]["intent"], "edit");
    assert_eq!(locks["locks"][0]["lease_expires_at"], 80);
    assert_eq!(locks["locks"][0]["updated_at"], 50);

    rpc_call(
        &mut daemon,
        Request::ReleaseResourceLock {
            resource_key: "file:src/lib.rs".to_string(),
            lease_id: uuid(&first["lease_id"]),
        },
    );

    let second = rpc_call(&mut daemon, ask("shell-agent", "local", "{}"));
    assert_eq!(second["owner"], "shell-agent");
    assert_ne!(second["lease_id"], first["lease_id"]);
}

#[test]
fn locks_without_a_term_are_held_as_long_as_nodes() {
    let mut daemon = start(Duration::from_secs(30));
    let granted = answer(
        id(7),
        Request::AcquireResourceLock {
            resource_key: "k".to_string(),
            owner: "o".to_string(),
            provider: None,
            ttl_secs: None,
            task_id: None,
            node_id: None,
            metadata: json("{}"),
        },
        &mut daemon,
        &occasion(50),
    )
    .unwrap();
    assert_eq!(
        granted,
        json("{\"resource_key\": \"k\", \"lease_id\": \"00000000-0000-0000-0000-000000000007\", \"owner\": \"o\", \"provider\": null, \"task_id\": null, \"node_id\": null, \"metadata\": {}, \"acquired_at\": 50, \"lease_expires_at\": 80}")
    );
}

#[test]
fn health_is_told_as_documented() {
    let mut daemon = Coordinator::new(Database::initialise(), Duration::from_secs(300), 50);
    let health = raw_rpc_call(&mut daemon, Request::Health { ping: Ok(()) });
    assert_eq!(health.id, Some(json("1")));
    assert_eq!(
        health.result,
        Some(json("{\"status\":\"ok\",\"database\":\"ok\",\"running_timeout_secs\":300,\"context_event_limit\":50}"))
    );
    let down = raw_rpc_call(
        &mut daemon,
        Request::Health {
            ping: Err(DbError::Sqlx("gone".to_string())),
        },
    );
    assert_eq!(down.error.unwrap().message, "database error: gone");
}

#[test]
fn events_and_heartbeats_are_answered() {
    let mut daemon = start(Duration::from_secs(30));
    let task_id = uuid(
        &rpc_call(
            &mut daemon,
            Request::RegisterTask {
                goal: "g".to_string(),
                context: json("{}"),
                initial_nodes: vec![NodeDefinition {
                    id: Some(id(1)),
                    dependencies: vec![],
                    payload_schema: json("{}"),
                }],
            },
        )["task_id"],
    );
    let held = acquire(&mut daemon, task_id, &default_lease_owner());
    assert_eq!(held["lease_owner"], "anonymous");
    let lease_id = uuid(&held["lease_id"]);
    let beaten = rpc_call(
        &mut daemon,
        Request::HeartbeatNode {
            task_id,
            node_id: id(1),
            lease_id,
        },
    );
    assert_eq!(beaten, json("{\"ok\": true}"));
    let event = answer(
        id(9),
        Request::CommitEvent {
            task_id,
            node_id: id(1),
            lease_id: Some(lease_id),
            action_type: None,
            payload: json("{\"p\": 1}"),
        },
        &mut daemon,
        &occasion(51),
    )
    .unwrap();
    assert_eq!(
        event,
        json("{\"event_id\": \"00000000-0000-0000-0000-000000000009\"}")
    );
    let failed = answer(
        id(10),
        Request::FailNode {
            task_id,
            node_id: id(1),
            lease_id,
            error_payload: json("{\"e\": 1}"),
        },
        &mut daemon,
        &occasion(52),
    )
    .unwrap();
    assert_eq!(
        failed,
        json("{\"event_id\": \"00000000-0000-0000-0000-00000000000a\"}")
    );
    let status = rpc_call(&mut daemon, Request::TaskStatus { task_id });
    assert_eq!(status["counts"], json("{\"FAILED\": 1}"));
    assert_eq!(status["nodes"][0]["status"], "FAILED");
    assert_eq!(status["nodes"][0]["result_payload"], json("{\"e\": 1}"));
    assert_eq!(status["task"]["goal"], "g");
}

#[test]
fn every_method_goes_by_two_names() {
    let pairs = [
        ("DescribeInterface", "describe_interface", Method::DescribeInterface),
        ("Health", "health", Method::Health),
        ("Metrics", "metrics", Method::Metrics),
        ("RegisterTask", "register_task", Method::RegisterTask),
        ("AcquireNextNode", "acquire_next_node", Method::AcquireNextNode),
        ("CommitEvent", "commit_event", Method::CommitEvent),
        ("HeartbeatNode", "heartbeat_node", Method::HeartbeatNode),
        ("CompleteNode", "complete_node", Method::CompleteNode),
        ("FailNode", "fail_node", Method::FailNode),
        ("TaskStatus", "task_status", Method::TaskStatus),
        ("GetTaskStatus", "get_task_status", Method::TaskStatus),
        (
            "AcquireResourceLock",
            "acquire_resource_lock",
            Method::AcquireResourceLock,
        ),
        (
            "HeartbeatResourceLock",
            "heartbeat_resource_lock",
            Method::HeartbeatResourceLock,
        ),
        (
            "ReleaseResourceLock",
            "release_resource_lock",
            Method::ReleaseResourceLock,
        ),
        (
            "ListResourceLocks",
            "list_resource_locks",
            Method::ListResourceLocks,
        ),
    ];
    for (name, snake, method) in pairs {
        assert_eq!(route(name), Some(method));
        assert_eq!(route(snake), Some(method));
    }
    assert_eq!(route("Shutdown"), None);
    assert_eq!(route(""), None);
    let described = describe_interface();
    let methods = described["methods"].as_array().unwrap();
    assert_eq!(methods.len(), 14);
    for method in methods {
        let name = method["method"].as_str().unwrap();
        assert_eq!(route(name).unwrap().name(), name);
    }
}

#[test]
fn the_interface_is_described_in_full() {
    let described = describe_interface();
    assert_eq!(described["transport"], "unix-domain-socket");
    assert_eq!(
        described["framing"],
        "one JSON-RPC style request per line; one response per line"
    );
    assert_eq!(
        described["state_model"],
        json("{\"node_statuses\": [\"PENDING\", \"RUNNING\", \"COMPLETED\", \"FAILED\"], \"strict_transitions\": {\"AcquireNextNode\": \"PENDING -> RUNNING\", \"CompleteNode\": \"RUNNING -> COMPLETED when lease_id matches\", \"FailNode\": \"RUNNING -> FAILED when lease_id matches\", \"timeout_rollback\": \"RUNNING -> PENDING\"}}")
    );
    assert_eq!(
        described["methods"][3],
        json("{\"method\": \"RegisterTask\", \"params\": {\"goal\": \"string\", \"context\": \"object\", \"initial_nodes\": [{\"id\": \"optional uuid\", \"dependencies\": [\"uuid\"], \"payload_schema\": \"object\"}]}, \"result\": {\"task_id\": \"uuid\"}}")
    );
    assert_eq!(
        described["methods"][6],
        json("{\"method\": \"HeartbeatNode\", \"params\": {\"task_id\": \"uuid\", \"node_id\": \"uuid\", \"lease_id\": \"uuid\"}, \"result\": {\"ok\": true}}")
    );
}

#[test]
fn errors_carry_their_codes() {
    let syntax = serde_json::from_str::<Value>("{").unwrap_err();
    let words = syntax.to_string();
    let parse = RpcResponse::parse_error(&syntax).error.unwrap();
    assert_eq!(parse.code, -32700);
    assert_eq!(parse.message, format!("parse error: {words}"));
    let unknown = RpcResponse::unknown_method(Some(json("\"x\"")), "Nope");
    assert_eq!(unknown.id, Some(json("\"x\"")));
    let body = unknown.error.unwrap();
    assert_eq!(body.code, -32601);
    assert_eq!(body.message, "unknown method: Nope");
    let invalid = RequestError::InvalidParams(syntax).into_response(None);
    let body = invalid.error.unwrap();
    assert_eq!(body.code, -32602);
    assert_eq!(body.message, format!("invalid params: {words}"));
    let mut daemon = start(Duration::from_secs(1));
    let missing = raw_rpc_call(&mut daemon, Request::TaskStatus { task_id: id(1) });
    let body = missing.error.unwrap();
    assert_eq!(body.code, -32000);
    assert_eq!(
        body.message,
        "task not found: 00000000-0000-0000-0000-000000000001"
    );
}

fn code(response: &RpcResponse) -> Option<i64> {
    response.error.as_ref().map(|body| body.code)
}

#[test]
fn a_call_is_answered_by_its_name_and_parameters() {
    let mut daemon = start(Duration::from_secs(30));
    let unknown = handle_call(Some(json("7")), "Shutdown", None, &mut daemon, &occasion(1));
    assert_eq!(unknown.id, Some(json("7")));
    assert_eq!(code(&unknown), Some(-32601));
    assert!(unknown.result.is_none());
    assert_eq!(unknown.error.unwrap().message, "unknown method: Shutdown");

    let syntax = serde_json::from_str::<Value>("{").unwrap_err();
    let words = syntax.to_string();
    let invalid = handle_call(
        None,
        "register_task",
        Some(Err(syntax)),
        &mut daemon,
        &occasion(1),
    );
    assert_eq!(invalid.id, None);
    assert_eq!(code(&invalid), Some(-32602));
    assert_eq!(
        invalid.error.unwrap().message,
        format!("invalid params: {words}")
    );
    assert!(daemon.db.tasks.is_empty());

    for name in ["TaskStatus", "task_status", "GetTaskStatus", "get_task_status"] {
        let failed = handle_call(
            Some(json("\"x\"")),
            name,
            Some(Ok(Request::TaskStatus { task_id: id(1) })),
            &mut daemon,
            &occasion(1),
        );
        assert_eq!(failed.id, Some(json("\"x\"")));
        assert_eq!(code(&failed), Some(-32000));
        assert_eq!(
            failed.error.unwrap().message,
            "task not found: 00000000-0000-0000-0000-000000000001"
        );
    }

    let listed = handle_call(
        None,
        "list_resource_locks",
        Some(Ok(Request::ListResourceLocks)),
        &mut daemon,
        &occasion(1),
    );
    assert_eq!(code(&listed), None);
    assert_eq!(listed.result, Some(json("{\"locks\": []}")));
}

#[test]
fn a_failure_to_read_a_row_is_told_in_words() {
    let mut daemon = start(Duration::from_secs(30));
    let task_id = uuid(
        &rpc_call(
            &mut daemon,
            Request::RegisterTask {
                goal: "g".to_string(),
                context: json("{}"),
                initial_nodes: vec![],
            },
        )["task_id"],
    );
    daemon.db.tasks[0].context = "{".to_string();
    let words = serde_json::from_str::<Value>("{").unwrap_err().to_string();
    let failed = raw_rpc_call(&mut daemon, Request::TaskStatus { task_id });
    assert_eq!(code(&failed), Some(-32000));
    assert_eq!(
        failed.error.unwrap().message,
        format!("JSON serialisation error: {words}")
    );
}

fn read_all(stream: &[u8], piece: usize) -> Vec<String> {
    let mut reader = LineReader::new();
    let mut seen = Vec::new();
    let mut at = 0;
    loop {
        let end = stream.len().min(at + piece);
        let (consumed, step) = reader.read_bounded_line(&stream[at..end]);
        at += consumed;
        match step {
            LineStep::More => {}
            LineStep::Line(line) => seen.push(decode_line(line).unwrap()),
            LineStep::TooLarge => {
                seen.push("too large".to_string());
                return seen;
            }
            LineStep::End => return seen,
        }
    }
}

#[test]
fn lines_do_not_depend_on_how_they_arrive() {
    let stream = "one\n\ntw\u{f6}\nlast".as_bytes();
    let whole = read_all(stream, 1000);
    assert_eq!(whole, vec!["one\n", "\n", "tw\u{f6}\n", "last"]);
    for piece in 1..6 {
        assert_eq!(read_all(stream, piece), whole);
    }
}

#[test]
fn a_line_of_the_limit_is_taken_and_one_more_byte_is_not() {
    let mut exact = vec![b'x'; MAX_REQUEST_BYTES - 1];
    exact.push(b'\n');
    assert_eq!(read_all(&exact, 4096).len(), 1);
    assert_ne!(read_all(&exact, 4096)[0], "too large");
    exact.insert(0, b'x');
    assert_eq!(read_all(&exact, 4096), vec!["too large"]);
    let unended = vec![b'x'; MAX_REQUEST_BYTES + 1];
    assert_eq!(read_all(&unended, 4096), vec!["too large"]);
}

#[test]
fn lines_that_are_not_utf8_are_refused() {
    match decode_line(vec![0x66, 0xff]) {
        Err(IpcError::Utf8(err)) => {
            let words = err.to_string();
            assert_eq!(
                IpcError::Utf8(err).message(),
                format!("UTF-8 error: {words}")
            );
        }
        _ => panic!("bytes should not decode"),
    }
    assert_eq!(
        IpcError::Io("broken pipe".to_string()).message(),
        "I/O error: broken pipe"
    );
    for limit in [0, 7, 10, 12_305, 98_764] {
        assert_eq!(
            IpcError::RequestTooLarge(limit).message(),
            format!("request exceeds {limit} bytes")
        );
    }
    let syntax = serde_json::from_str::<Value>("{").unwrap_err();
    let words = syntax.to_string();
    assert_eq!(
        IpcError::Json(syntax).message(),
        format!("JSON error: {words}")
    );
}

#[test]
fn blank_lines_are_no_requests() {
    assert_eq!(request_on(" \t\r\n"), None);
    assert_eq!(request_on("  {\"a\": 1} \n"), Some("{\"a\": 1}"));
}
