use agentd::clock::{sweep_interval, Moment};
use agentd::coordinator::{Coordinator, CoordinatorError};
use agentd::db::Database;
use agentd::error::DbError;
use agentd::graph::NodeDefinition;
use agentd::ids::Uuid;
use agentd::rows::AcquireResourceLock;
use serde_json::Value;
use std::time::Duration;

fn json(text: &str) -> Value {
    serde_json::from_str(text).unwrap()
}

fn at(secs: i64) -> Moment {
    Moment {
        secs,
        timestamp: format!("2024-01-01T00:00:{secs:02}.000Z"),
    }
}

fn id(n: u128) -> Uuid {
    Uuid { bits: n }
}

fn test_coordinator(timeout: Duration) -> Coordinator {
    Coordinator::new(Database::initialise(), timeout, 10)
}

fn one_node() -> Vec<NodeDefinition> {
    vec![NodeDefinition {
        id: None,
        dependencies: Vec::new(),
        payload_schema: json("{\"type\": \"object\"}"),
    }]
}

fn node(n: u128, dependencies: Vec<Uuid>) -> NodeDefinition {
    NodeDefinition {
        id: Some(id(n)),
        dependencies,
        payload_schema: json("{}"),
    }
}

#[test]
fn stale_lease_cannot_complete_after_timeout_reacquire() {
    let mut coordinator = test_coordinator(Duration::from_secs(0));
    let task_id = coordinator
        .register_task("lease test".to_string(), json("{}"), one_node(), &at(0))
        .expect("task should register");

    let first = coordinator
        .acquire_next_node(task_id, "worker-a".to_string(), 0, 1)
        .expect("acquire should succeed")
        .expect("node should be runnable");

    let second = coordinator
        .acquire_next_node(task_id, "worker-b".to_string(), 0, 1)
        .expect("second acquire should trigger timeout rollback")
        .expect("node should be reacquired");

    assert_eq!(first.node_id, second.node_id);
    assert_ne!(first.lease_id, second.lease_id);

    let stale_result = coordinator.complete_node(
        task_id,
        first.node_id,
        first.lease_id,
        json("{\"worker\": \"stale\"}"),
        &at(2),
    );
    assert!(stale_result.is_err());

    coordinator
        .complete_node(
            task_id,
            second.node_id,
            second.lease_id,
            json("{\"worker\": \"current\"}"),
            &at(2),
        )
        .expect("current lease should complete");
    assert_eq!(coordinator.metrics(0, 2).runtime.timeout_rollbacks, 1);
}

#[test]
fn concurrent_acquire_returns_distinct_pending_nodes() {
    let mut coordinator = test_coordinator(Duration::from_secs(60));
    let task_id = coordinator
        .register_task(
            "parallel test".to_string(),
            json("{}"),
            vec![
                NodeDefinition {
                    id: None,
                    dependencies: Vec::new(),
                    payload_schema: json("{\"name\": \"a\"}"),
                },
                NodeDefinition {
                    id: None,
                    dependencies: Vec::new(),
                    payload_schema: json("{\"name\": \"b\"}"),
                },
            ],
            &at(0),
        )
        .expect("task should register");

    let first = coordinator
        .acquire_next_node(task_id, "worker-a".to_string(), 0, 1)
        .expect("first acquire should succeed")
        .expect("first node should exist");
    let second = coordinator
        .acquire_next_node(task_id, "worker-b".to_string(), 0, 1)
        .expect("second acquire should succeed")
        .expect("second node should exist");

    assert_ne!(first.node_id, second.node_id);
    assert_ne!(first.lease_id, second.lease_id);
}

#[test]
fn metrics_track_state_machine_activity() {
    let mut coordinator = test_coordinator(Duration::from_secs(60));
    let task_id = coordinator
        .register_task("metrics test".to_string(), json("{}"), one_node(), &at(0))
        .expect("task should register");
    let acquired = coordinator
        .acquire_next_node(task_id, "metrics-worker".to_string(), 7, 1)
        .expect("acquire should succeed")
        .expect("node should be runnable");

    coordinator
        .commit_event(
            task_id,
            acquired.node_id,
            Some(acquired.lease_id),
            Some("TEST_EVENT".to_string()),
            json("{\"ok\": true}"),
            "2024-01-01T00:00:02.000Z",
        )
        .expect("event should commit");
    coordinator
        .complete_node(
            task_id,
            acquired.node_id,
            acquired.lease_id,
            json("{\"done\": true}"),
            &at(3),
        )
        .expect("node should complete");

    let metrics = coordinator.metrics(11, 4);
    assert_eq!(metrics.runtime.registered_tasks, 1);
    assert_eq!(metrics.runtime.acquire_attempts, 1);
    assert_eq!(metrics.runtime.acquired_nodes, 1);
    assert_eq!(metrics.runtime.committed_events, 1);
    assert_eq!(metrics.runtime.completed_nodes, 1);
    assert_eq!(metrics.database.total_tasks, 1);
    assert_eq!(metrics.database.total_nodes, 1);
    assert_eq!(metrics.database.total_events, 2);
    assert_eq!(
        metrics.database.node_status_counts.get("COMPLETED"),
        Some(&1)
    );

    assert_eq!(metrics.uptime_secs, 11);
    assert_eq!(metrics.running_timeout_secs, 60);
    assert_eq!(metrics.context_event_limit, 10);
    assert_eq!(metrics.runtime.average_acquisition_latency_micros, 7);
    assert_eq!(metrics.database.node_status_counts.get("PENDING"), None);
    assert_eq!(metrics.database.node_status_counts.get("UNKNOWN"), None);
    assert_eq!(metrics.database.schema_version, 2);
    assert_eq!(metrics.database.latest_schema_version, 2);
}

#[test]
fn a_node_waits_for_its_dependencies_and_sees_their_results() {
    let mut coordinator = test_coordinator(Duration::from_secs(60));
    let task_id = coordinator
        .register_task(
            "chain".to_string(),
            json("{\"k\": [1, -2]}"),
            vec![node(2, vec![id(1)]), node(1, vec![])],
            &at(0),
        )
        .unwrap();

    let first = coordinator
        .acquire_next_node(task_id, "w".to_string(), 0, 10)
        .unwrap()
        .unwrap();
    assert_eq!(first.node_id, id(1));
    assert_eq!(first.lease_expires_at, 70);
    assert!(coordinator
        .acquire_next_node(task_id, "w".to_string(), 0, 10)
        .unwrap()
        .is_none());

    coordinator
        .complete_node(
            task_id,
            id(1),
            first.lease_id,
            json("{\"answer\": 42}"),
            &at(11),
        )
        .unwrap();
    let second = coordinator
        .acquire_next_node(task_id, "w2".to_string(), 0, 12)
        .unwrap()
        .unwrap();
    assert_eq!(second.node_id, id(2));
    let context = second.context;
    assert_eq!(context["task"]["goal"], "chain");
    assert_eq!(context["task"]["context"], json("{\"k\": [1, -2]}"));
    assert_eq!(context["task"]["id"], task_id.to_string());
    assert_eq!(context["node"]["status"], "RUNNING");
    assert_eq!(context["node"]["lease_owner"], "w2");
    assert_eq!(context["node"]["lease_id"], second.lease_id.to_string());
    assert_eq!(
        context["node"]["dependencies"][0],
        "00000000-0000-0000-0000-000000000001"
    );
    assert_eq!(context["node"]["result_payload"], Value::Null);
    assert_eq!(context["node"]["acquired_at"], 12);
    assert_eq!(context["event_journal_limit"], 10);
    assert_eq!(
        context["completed_dependencies"][0]["result_payload"]["answer"],
        42
    );
    assert_eq!(
        context["event_journal"][0]["action_type"],
        "COMPLETE_NODE"
    );
    assert_eq!(
        context["event_journal"][0]["payload"],
        json("{\"result\": {\"answer\": 42}}")
    );
}

#[test]
fn a_failed_dependency_blocks_its_dependents() {
    let mut coordinator = test_coordinator(Duration::from_secs(60));
    let task_id = coordinator
        .register_task(
            "chain".to_string(),
            json("{}"),
            vec![node(1, vec![]), node(2, vec![id(1)])],
            &at(0),
        )
        .unwrap();
    let first = coordinator
        .acquire_next_node(task_id, "w".to_string(), 0, 1)
        .unwrap()
        .unwrap();
    coordinator
        .fail_node(
            task_id,
            id(1),
            first.lease_id,
            json("{\"why\": \"x\"}"),
            &at(2),
        )
        .unwrap();
    assert!(coordinator
        .acquire_next_node(task_id, "w".to_string(), 0, 500)
        .unwrap()
        .is_none());
    let status = coordinator.task_status(task_id).unwrap();
    assert_eq!(status.counts.get("FAILED"), Some(&1));
    assert_eq!(status.counts.get("PENDING"), Some(&1));
    assert_eq!(status.counts.get("COMPLETED"), None);
    assert_eq!(status.nodes.len(), 2);
    assert_eq!(
        status.nodes[0].result_payload,
        Some(json("{\"why\": \"x\"}"))
    );
    assert_eq!(coordinator.metrics(0, 3).runtime.failed_nodes, 1);
}

#[test]
fn heartbeats_extend_the_lease() {
    let mut coordinator = test_coordinator(Duration::from_secs(10));
    let task_id = coordinator
        .register_task("t".to_string(), json("{}"), one_node(), &at(0))
        .unwrap();
    let held = coordinator
        .acquire_next_node(task_id, "w".to_string(), 0, 0)
        .unwrap()
        .unwrap();
    coordinator
        .heartbeat_node(task_id, held.node_id, held.lease_id, 8)
        .unwrap();
    assert_eq!(coordinator.reset_timed_out_nodes(17), 0);
    assert_eq!(coordinator.reset_timed_out_nodes(18), 1);
    let late = coordinator.heartbeat_node(task_id, held.node_id, held.lease_id, 19);
    assert_eq!(
        late.unwrap_err().message(),
        format!(
            "node {} for task {} is not RUNNING",
            held.node_id.to_string(),
            task_id.to_string()
        )
    );
    assert_eq!(coordinator.metrics(0, 20).runtime.heartbeats, 1);
    assert_eq!(coordinator.metrics(0, 20).runtime.timeout_rollbacks, 1);
}

#[test]
fn unknown_tasks_and_nodes_are_named() {
    let mut coordinator = test_coordinator(Duration::from_secs(10));
    let missing = coordinator.acquire_next_node(id(9), "w".to_string(), 3, 0);
    assert_eq!(
        missing.unwrap_err().message(),
        "task not found: 00000000-0000-0000-0000-000000000009"
    );
    assert_eq!(coordinator.metrics(0, 0).runtime.acquire_attempts, 1);
    assert_eq!(
        coordinator
            .metrics(0, 0)
            .runtime
            .acquisition_latency_micros_total,
        0
    );
    assert!(matches!(
        coordinator.task_status(id(9)),
        Err(CoordinatorError::TaskNotFound(task)) if task == id(9)
    ));
    let node = coordinator.complete_node(id(9), id(8), id(7), json("{}"), &at(0));
    assert_eq!(
        node.unwrap_err().message(),
        "node not found: 00000000-0000-0000-0000-000000000008 for task 00000000-0000-0000-0000-000000000009"
    );
    let event = coordinator.commit_event(id(9), id(8), None, None, json("{}"), "t");
    assert!(matches!(event, Err(CoordinatorError::NodeNotFound { .. })));
}

#[test]
fn events_default_to_the_commit_action() {
    let mut coordinator = test_coordinator(Duration::from_secs(10));
    let task_id = coordinator
        .register_task("t".to_string(), json("{}"), vec![node(1, vec![])], &at(0))
        .unwrap();
    coordinator
        .commit_event(task_id, id(1), None, None, json("[1]"), "a")
        .unwrap();
    assert_eq!(coordinator.db.events[0].action_type, "COMMIT_EVENT");
    assert_eq!(coordinator.db.events[0].payload, "[1]");
}

#[test]
fn health_depends_on_the_store() {
    let coordinator = test_coordinator(Duration::from_secs(30));
    let health = coordinator.health(Ok(())).unwrap();
    assert_eq!(health.status, "ok");
    assert_eq!(health.database, "ok");
    assert_eq!(health.running_timeout_secs, 30);
    assert_eq!(health.context_event_limit, 10);
    let down = coordinator.health(Err(DbError::Sqlx("gone".to_string())));
    assert_eq!(down.unwrap_err().message(), "database error: gone");
    assert_eq!(coordinator.running_timeout(), Duration::from_secs(30));
}

#[test]
fn only_the_latest_events_reach_a_worker() {
    let mut coordinator = Coordinator::new(Database::initialise(), Duration::from_secs(60), 2);
    let task_id = coordinator
        .register_task(
            "t".to_string(),
            json("{}"),
            vec![node(1, vec![]), node(2, vec![])],
            &at(0),
        )
        .unwrap();
    for (stamp, word) in [("c", "third"), ("a", "first"), ("b", "second"), ("c", "fourth")] {
        coordinator
            .commit_event(
                task_id,
                id(2),
                None,
                Some(word.to_string()),
                json("null"),
                stamp,
            )
            .unwrap();
    }
    let held = coordinator
        .acquire_next_node(task_id, "w".to_string(), 0, 0)
        .unwrap()
        .unwrap();
    let journal = held.context["event_journal"].as_array().unwrap();
    assert_eq!(journal.len(), 2);
    assert_eq!(journal[0]["action_type"], "third");
    assert_eq!(journal[1]["action_type"], "fourth");
}

#[test]
fn a_lease_that_never_ends_is_refused_where_it_cannot_be_stored() {
    let mut coordinator = test_coordinator(Duration::from_secs(u64::MAX));
    let task_id = coordinator
        .register_task("t".to_string(), json("{}"), vec![node(1, vec![])], &at(0))
        .unwrap();
    let refused = coordinator.acquire_next_node(task_id, "w".to_string(), 0, 1);
    assert_eq!(
        refused.unwrap_err().message(),
        "database error: lease expiry out of range"
    );
    let held = coordinator
        .acquire_next_node(task_id, "w".to_string(), 0, 0)
        .unwrap()
        .unwrap();
    assert_eq!(held.lease_expires_at, i64::MAX);
}

#[test]
fn locks_go_through_the_coordinator() {
    let mut coordinator = test_coordinator(Duration::from_secs(60));
    let ask = |owner: &str| AcquireResourceLock {
        resource_key: "file:a".to_string(),
        owner: owner.to_string(),
        provider: None,
        lease_ttl: Duration::from_secs(5),
        task_id: None,
        node_id: None,
        metadata: json("{}"),
    };
    let grant = coordinator
        .acquire_resource_lock(ask("a"), 0)
        .unwrap()
        .unwrap();
    assert!(coordinator
        .acquire_resource_lock(ask("b"), 4)
        .unwrap()
        .is_none());
    assert!(coordinator
        .heartbeat_resource_lock("file:a", grant.lease_id, Duration::from_secs(9), 4)
        .unwrap());
    let listed = coordinator.list_resource_locks(12).unwrap();
    assert_eq!(listed.len(), 1);
    assert_eq!(listed[0].lease_expires_at, 13);
    assert!(coordinator.release_resource_lock("file:a", grant.lease_id));
    assert!(coordinator.list_resource_locks(12).unwrap().is_empty());
}

#[test]
fn sweeps_come_at_half_the_lease_time() {
    assert_eq!(
        sweep_interval(Duration::from_secs(300)),
        Duration::from_secs(150)
    );
    assert_eq!(
        sweep_interval(Duration::from_secs(5)),
        Duration::from_millis(2500)
    );
    assert_eq!(
        sweep_interval(Duration::from_secs(1)),
        Duration::from_secs(1)
    );
    assert_eq!(
        sweep_interval(Duration::from_secs(0)),
        Duration::from_secs(1)
    );
    assert_eq!(sweep_interval(Duration::MAX), Duration::MAX / 2);
}
