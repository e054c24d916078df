use agentd::clock::Moment;
use agentd::db::Database;
use agentd::error::DbError;
use agentd::graph::{ensure_acyclic, materialise_nodes, NodeDefinition};
use agentd::ids::Uuid;
use agentd::json::empty_object;
use agentd::rows::{
    AcquireResourceLock, DagNodeRow, EventJournalRow, GlobalTaskRow, JournalEvent, NodeSnapshot,
    NodeStatus, ResourceLockRow, ResourceLockSnapshot,
};
use serde_json::Value;
use std::time::Duration;

const ONE: &str = "00000000-0000-0000-0000-000000000001";
const TWO: &str = "00000000-0000-0000-0000-000000000002";

fn json(text: &str) -> Value {
    serde_json::from_str(text).unwrap()
}

fn id(n: u128) -> Uuid {
    Uuid { bits: n }
}

fn at(secs: i64) -> Moment {
    Moment {
        secs,
        timestamp: "2024-01-01T00:00:00.000Z".to_string(),
    }
}

fn node(n: u128, dependencies: Vec<Uuid>) -> NodeDefinition {
    NodeDefinition {
        id: Some(id(n)),
        dependencies,
        payload_schema: json("{}"),
    }
}

fn registered(nodes: Vec<NodeDefinition>) -> (Database, Uuid) {
    let mut db = Database::initialise();
    let task = db
        .register_task("goal".to_string(), json("{\"a\": 1}"), nodes, &at(100))
        .unwrap();
    (db, task)
}

fn ask(key: &str, secs: u64) -> AcquireResourceLock {
    AcquireResourceLock {
        resource_key: key.to_string(),
        owner: "me".to_string(),
        provider: Some("p".to_string()),
        lease_ttl: Duration::from_secs(secs),
        task_id: None,
        node_id: Some(id(5)),
        metadata: json("{\"intent\": \"edit\"}"),
    }
}

fn node_row(name: &str, task: &str) -> DagNodeRow {
    DagNodeRow {
        id: name.to_string(),
        task_id: task.to_string(),
        status: "PENDING".to_string(),
        dependencies: "[]".to_string(),
        payload_schema: "{}".to_string(),
        result_payload: None,
        acquired_at: None,
        lease_id: None,
        lease_owner: None,
        lease_expires_at: None,
        updated_at: 0,
    }
}

fn task_row(name: &str) -> GlobalTaskRow {
    GlobalTaskRow {
        id: name.to_string(),
        goal: "g".to_string(),
        context: "{}".to_string(),
        created_at: "t".to_string(),
    }
}

#[test]
fn registering_stores_the_rows() {
    let (db, task) = registered(vec![node(1, vec![]), node(2, vec![id(1), id(1)])]);
    assert_eq!(db.tasks[0].id, task.to_string());
    assert_eq!(db.tasks[0].context, "{\"a\":1}");
    assert_eq!(db.nodes[0].id, ONE);
    assert_eq!(db.nodes[0].status, "PENDING");
    assert_eq!(db.nodes[0].dependencies, "[]");
    assert_eq!(
        db.nodes[1].dependencies,
        format!("[\"{ONE}\",\"{ONE}\"]")
    );
    assert_eq!(db.nodes[1].updated_at, 100);
    assert_eq!(db.nodes[1].dependencies().unwrap(), vec![id(1), id(1)]);
    assert_eq!(db.nodes[1].task_id().unwrap(), task);
    assert_eq!(db.tasks[0].context().unwrap(), json("{\"a\": 1}"));
    assert!(db.is_consistent());
    assert_eq!(db.fetch_task(task).unwrap().goal, "goal");
    assert!(db.fetch_task(id(3)).is_none());
    assert_eq!(db.fetch_node(task, id(2)).unwrap().id, TWO);
    assert!(db.fetch_node(id(3), id(2)).is_none());
    assert_eq!(db.list_nodes(task).len(), 2);
}

#[test]
fn cycles_and_faulty_dependencies_are_refused() {
    let refuse = |nodes: Vec<NodeDefinition>| match materialise_nodes(nodes) {
        Err(DbError::InvalidState(words)) => words,
        _ => panic!("nodes should be refused"),
    };
    assert_eq!(
        refuse(vec![node(1, vec![]), node(1, vec![])]),
        format!("duplicate node id: {ONE}")
    );
    assert_eq!(
        refuse(vec![node(1, vec![id(1)])]),
        format!("node {ONE} cannot depend on itself")
    );
    assert_eq!(
        refuse(vec![node(1, vec![id(2)])]),
        format!("node {ONE} depends on unknown node {TWO}")
    );
    let cycle = refuse(vec![node(1, vec![id(2)]), node(2, vec![id(1)])]);
    assert!(cycle.starts_with("cycle detected at node "));
    assert!(materialise_nodes(vec![node(2, vec![id(1)]), node(1, vec![])]).is_ok());
    assert!(ensure_acyclic(&vec![]).is_ok());
}

#[test]
fn refused_registration_stores_nothing() {
    let (mut db, _) = registered(vec![node(1, vec![])]);
    let again = db.register_task("g".to_string(), json("{}"), vec![node(1, vec![])], &at(0));
    assert_eq!(
        again.unwrap_err().message(),
        "database error: error returned from database: (code: 1555) UNIQUE constraint failed: dag_nodes.id"
    );
    assert_eq!(db.tasks.len(), 1);
    assert_eq!(db.nodes.len(), 1);
    let task = db.tasks[0].id().unwrap();
    let same = db.register_task_as(task, "g".to_string(), json("{}"), &vec![], &at(0));
    assert_eq!(
        same.unwrap_err().message(),
        "database error: error returned from database: (code: 1555) UNIQUE constraint failed: global_tasks.id"
    );
}

#[test]
fn nodes_end_only_from_running_and_under_their_lease() {
    let (mut db, task) = registered(vec![node(1, vec![])]);
    let early = db.complete_node(task, id(1), id(7), json("1"), &at(1));
    assert_eq!(
        early.unwrap_err().message(),
        format!("invalid state: node {ONE} cannot transition from PENDING to COMPLETED")
    );
    let missing = db.fail_node(task, id(2), id(7), json("1"), &at(1));
    assert_eq!(
        missing.unwrap_err().message(),
        format!("not found: node {TWO} for task {}", task.to_string())
    );
    let lease = db
        .mark_node_running(task, id(1), "w", Duration::from_secs(30), 200)
        .unwrap()
        .unwrap();
    assert_eq!(lease.lease_owner, "w");
    assert_eq!(lease.lease_expires_at, 230);
    assert!(db
        .mark_node_running(task, id(1), "v", Duration::from_secs(30), 200)
        .unwrap()
        .is_none());
    let foreign = db.fail_node(task, id(1), id(7), json("1"), &at(1));
    assert_eq!(
        foreign.unwrap_err().message(),
        format!("invalid state: node {ONE} cannot transition from RUNNING to FAILED")
    );
    let event = db
        .complete_node_as(id(40), task, id(1), lease.lease_id, json("{\"r\": [true]}"), &at(210))
        .unwrap();
    assert_eq!(event, id(40));
    assert_eq!(db.nodes[0].status, "COMPLETED");
    assert_eq!(db.nodes[0].lease_id, None);
    assert_eq!(db.nodes[0].lease_owner, None);
    assert_eq!(db.nodes[0].lease_expires_at, None);
    assert_eq!(db.nodes[0].acquired_at, None);
    assert_eq!(db.nodes[0].updated_at, 210);
    assert_eq!(
        db.nodes[0].result_payload().unwrap(),
        Some(json("{\"r\": [true]}"))
    );
    assert_eq!(db.events.len(), 1);
    assert_eq!(db.events[0].action_type, "COMPLETE_NODE");
    assert_eq!(db.events[0].payload, "{\"result\":{\"r\":[true]}}");
    let twice = db.complete_node(task, id(1), lease.lease_id, json("1"), &at(220));
    assert_eq!(
        twice.unwrap_err().message(),
        format!("invalid state: node {ONE} cannot transition from COMPLETED to COMPLETED")
    );
}

#[test]
fn failing_keeps_the_error() {
    let (mut db, task) = registered(vec![node(1, vec![])]);
    let lease = db
        .mark_node_running(task, id(1), "w", Duration::from_secs(30), 0)
        .unwrap()
        .unwrap();
    db.fail_node(task, id(1), lease.lease_id, json("\"no\""), &at(1))
        .unwrap();
    assert_eq!(db.nodes[0].status, "FAILED");
    assert_eq!(db.events[0].action_type, "FAIL_NODE");
    assert_eq!(db.events[0].payload, "{\"error\":\"no\"}");
}

#[test]
fn a_journal_entry_is_not_written_twice() {
    let (mut db, task) = registered(vec![node(1, vec![])]);
    db.append_event_as(id(9), task, id(1), None, "A", json("1"), "t")
        .unwrap();
    let again = db.append_event_as(id(9), task, id(1), None, "A", json("1"), "t");
    assert!(matches!(again, Err(DbError::Sqlx(_))));
    assert_eq!(db.events.len(), 1);
}

#[test]
fn events_of_a_running_node_need_its_lease() {
    let (mut db, task) = registered(vec![node(1, vec![])]);
    assert!(db
        .append_event(task, id(1), None, "A", json("1"), "t")
        .is_ok());
    let lease = db
        .mark_node_running(task, id(1), "w", Duration::from_secs(30), 0)
        .unwrap()
        .unwrap();
    for shown in [None, Some(id(7))] {
        let refused = db.append_event(task, id(1), shown, "A", json("1"), "t");
        assert_eq!(
            refused.unwrap_err().message(),
            format!(
                "invalid state: node {ONE} for task {} requires the current RUNNING lease",
                task.to_string()
            )
        );
    }
    assert!(db
        .append_event(task, id(1), Some(lease.lease_id), "A", json("1"), "t")
        .is_ok());
    assert!(matches!(
        db.append_event(task, id(2), None, "A", json("1"), "t"),
        Err(DbError::NotFound(_))
    ));
    assert_eq!(db.events.len(), 2);
}

#[test]
fn overdue_nodes_go_back() {
    let (mut db, task) = registered(vec![node(1, vec![]), node(2, vec![]), node(3, vec![])]);
    for n in 1..4 {
        db.mark_node_running(task, id(n), "w", Duration::from_secs(10 * n as u64), 0)
            .unwrap()
            .unwrap();
    }
    db.nodes[2].lease_expires_at = None;
    db.nodes[2].acquired_at = Some(5);
    assert_eq!(
        db.reset_timed_out_nodes(Some(id(77)), Duration::from_secs(0), 100),
        0
    );
    assert_eq!(
        db.reset_timed_out_nodes(Some(task), Duration::from_secs(10), 14),
        1
    );
    assert_eq!(db.nodes[0].status, "PENDING");
    assert_eq!(db.nodes[0].lease_id, None);
    assert_eq!(db.nodes[0].updated_at, 14);
    assert_eq!(db.nodes[1].status, "RUNNING");
    assert_eq!(db.nodes[2].status, "RUNNING");
    assert_eq!(db.reset_timed_out_nodes(None, Duration::from_secs(10), 15), 1);
    assert_eq!(db.nodes[2].status, "PENDING");
    assert_eq!(db.pending_nodes(task).len(), 2);
    assert!(!db.dependencies_completed(task, &vec![id(1)]));
    assert!(db.dependencies_completed(task, &vec![]));
}

#[test]
fn locks_are_exclusive_until_released_or_expired() {
    let mut db = Database::initialise();
    let first = db.acquire_resource_lock(ask("file:a", 10), 100).unwrap().unwrap();
    assert_eq!(first.resource_key, "file:a");
    assert_eq!(first.owner, "me");
    assert_eq!(first.provider, Some("p".to_string()));
    assert_eq!(first.node_id, Some(id(5)));
    assert_eq!(first.metadata, json("{\"intent\": \"edit\"}"));
    assert_eq!(first.acquired_at, 100);
    assert_eq!(first.lease_expires_at, 110);
    assert!(db.acquire_resource_lock(ask("file:a", 10), 109).unwrap().is_none());
    assert!(!db.release_resource_lock("file:a", id(3)));
    assert!(!db
        .heartbeat_resource_lock("file:a", id(3), Duration::from_secs(10), 105)
        .unwrap());
    assert!(db
        .heartbeat_resource_lock("file:a", first.lease_id, Duration::from_secs(0), 105)
        .unwrap());
    assert_eq!(db.locks[0].lease_expires_at, 106);
    assert!(!db
        .heartbeat_resource_lock("file:a", first.lease_id, Duration::from_secs(9), 106)
        .unwrap());
    let second = db.acquire_resource_lock(ask("file:a", 10), 106).unwrap().unwrap();
    assert_ne!(second.lease_id, first.lease_id);
    assert!(!db.release_resource_lock("file:a", first.lease_id));
    assert!(db.release_resource_lock("file:a", second.lease_id));
    assert!(db.locks.is_empty());
    assert!(db.acquire_resource_lock(ask("file:a", 0), 106).unwrap().is_some());
    assert_eq!(db.locks[0].lease_expires_at, 107);
}

#[test]
fn a_lock_for_an_unknown_task_is_refused() {
    let mut db = Database::initialise();
    for secs in [10, u64::MAX] {
        let mut request = ask("k", secs);
        request.task_id = Some(id(1));
        let refused = db.acquire_resource_lock(request, 1);
        assert_eq!(refused.unwrap_err().message(), NO_SUCH_TASK);
    }
    let far = db.acquire_resource_lock(ask("k", u64::MAX), 1);
    assert_eq!(
        far.unwrap_err().message(),
        "database error: lease expiry out of range"
    );
    assert!(db.locks.is_empty());
}

#[test]
fn locks_are_listed_by_key() {
    let mut db = Database::initialise();
    for key in ["b", "ab", "a", "\u{e9}", "B"] {
        db.acquire_resource_lock(ask(key, 10), 0).unwrap().unwrap();
    }
    db.acquire_resource_lock(ask("short", 1), 0).unwrap().unwrap();
    let keys: Vec<String> = db
        .list_resource_locks(5)
        .unwrap()
        .into_iter()
        .map(|lock| lock.resource_key)
        .collect();
    assert_eq!(keys, vec!["B", "a", "ab", "b", "\u{e9}"]);
    let metrics = db.metrics(5);
    assert_eq!(metrics.active_resource_locks, 5);
    assert_eq!(metrics.expired_resource_locks, 1);
}

#[test]
fn metrics_count_leases_and_statuses() {
    let (mut db, task) = registered(vec![node(1, vec![]), node(2, vec![]), node(3, vec![])]);
    db.mark_node_running(task, id(1), "w", Duration::from_secs(10), 0).unwrap();
    db.mark_node_running(task, id(2), "w", Duration::from_secs(20), 0).unwrap();
    let metrics = db.metrics(15);
    assert_eq!(metrics.running_leases, 2);
    assert_eq!(metrics.expired_running_leases, 1);
    assert_eq!(metrics.total_nodes, 3);
    assert_eq!(metrics.node_status_counts.get("RUNNING"), Some(&2));
    assert_eq!(metrics.node_status_counts.get("PENDING"), Some(&1));
}

#[test]
fn schema_version_is_the_newest() {
    let mut db = Database::initialise();
    assert_eq!(db.schema_version(), 2);
    db.schema_versions = vec![1, 5, 3];
    assert_eq!(db.schema_version(), 5);
    db.schema_versions = vec![];
    assert_eq!(db.schema_version(), 0);
    db.schema_versions = vec![-4];
    assert_eq!(db.schema_version(), -4);
}

#[test]
fn stored_rows_that_do_not_read_are_reported() {
    let task = TWO.to_string();
    let mut bad = node_row(ONE, &task);
    bad.dependencies = "[1]".to_string();
    assert!(matches!(NodeSnapshot::try_from(bad), Err(DbError::Json(_))));
    let mut bad = node_row(ONE, &task);
    bad.lease_id = Some("lease".to_string());
    assert!(matches!(NodeSnapshot::try_from(bad), Err(DbError::Uuid(_))));
    let mut bad = node_row(ONE, &task);
    bad.status = "DONE".to_string();
    match NodeSnapshot::try_from(bad) {
        Err(err) => assert_eq!(err.message(), "invalid state: unknown node status: DONE"),
        Ok(_) => panic!("status should not read"),
    }
    let event = EventJournalRow {
        id: ONE.to_string(),
        task_id: TWO.to_string(),
        node_id: "x".to_string(),
        action_type: "A".to_string(),
        payload: "{}".to_string(),
        timestamp: "t".to_string(),
    };
    match JournalEvent::try_from(event) {
        Err(err) => assert!(err.message().starts_with("UUID parse error: ")),
        Ok(_) => panic!("identifier should not read"),
    }
    let lock = ResourceLockRow {
        resource_key: "k".to_string(),
        lease_id: ONE.to_string(),
        owner: "o".to_string(),
        provider: None,
        task_id: None,
        node_id: None,
        metadata: "{".to_string(),
        acquired_at: 0,
        lease_expires_at: 0,
        updated_at: 0,
    };
    match ResourceLockSnapshot::try_from(lock) {
        Err(err) => assert!(err.message().starts_with("JSON serialisation error: EOF")),
        Ok(_) => panic!("metadata should not read"),
    }
}

#[test]
fn statuses_and_their_words_agree() {
    for status in [
        NodeStatus::Pending,
        NodeStatus::Running,
        NodeStatus::Completed,
        NodeStatus::Failed,
    ] {
        assert_eq!(NodeStatus::try_from(status.as_str()).unwrap(), status);
    }
    assert_eq!(NodeStatus::Completed.as_str(), "COMPLETED");
    assert!(NodeStatus::try_from("pending").is_err());
}

#[test]
fn identifiers_are_written_canonically() {
    let n = Uuid {
        bits: 0x0123456789abcdef_fedcba9876543210,
    };
    assert_eq!(n.to_string(), "01234567-89ab-cdef-fedc-ba9876543210");
    assert_eq!(
        Uuid::parse_str("01234567-89AB-CDEF-FEDC-BA9876543210").unwrap(),
        n
    );
    assert!(Uuid::parse_str("nope").is_err());
    let a = Uuid::new_v4();
    assert_eq!((a.bits >> 76) & 0xf, 4);
    assert_eq!((a.bits >> 62) & 0x3, 2);
    assert_ne!(a, Uuid::new_v4());
}

#[test]
fn only_rows_with_a_key_twice_are_refused() {
    let open = |tasks: Vec<GlobalTaskRow>, nodes: Vec<DagNodeRow>| {
        Database::from_rows(vec![1, 2], tasks, nodes, vec![], vec![])
    };
    assert!(open(vec![task_row("t")], vec![node_row("n", "t")]).is_ok());
    assert!(open(vec![task_row("t")], vec![node_row("n", "u")]).is_ok());
    let mut odd = node_row("n", "t");
    odd.status = "pending".to_string();
    assert!(open(vec![task_row("t")], vec![odd]).is_ok());
    for refused in [
        open(vec![task_row("t"), task_row("t")], vec![]),
        open(
            vec![task_row("t")],
            vec![node_row("n", "t"), node_row("n", "t")],
        ),
    ] {
        assert_eq!(
            refused.unwrap_err().message(),
            "invalid state: a table has a key twice"
        );
    }
}

const NO_SUCH_TASK: &str =
    "database error: error returned from database: (code: 787) FOREIGN KEY constraint failed";

fn stray() -> (Database, Uuid) {
    let (db, task) = registered(vec![node(1, vec![])]);
    let mut nodes = db.nodes.clone();
    nodes.push(node_row(TWO, "00000000-0000-0000-0000-000000000077"));
    let db = Database::from_rows(db.schema_versions, db.tasks, nodes, vec![], vec![]).unwrap();
    (db, task)
}

#[test]
fn a_node_without_its_task_hinders_no_other() {
    let (mut db, task) = stray();
    let lease = db
        .mark_node_running(task, id(1), "w", Duration::from_secs(9), 0)
        .unwrap()
        .unwrap();
    db.append_event(task, id(1), Some(lease.lease_id), "A", json("1"), "t")
        .unwrap();
    db.complete_node(task, id(1), lease.lease_id, json("1"), &at(1))
        .unwrap();
    db.acquire_resource_lock(ask("k", 10), 0).unwrap().unwrap();
    db.register_task("h".to_string(), json("{}"), vec![node(3, vec![])], &at(2))
        .unwrap();
    assert_eq!(db.events.len(), 2);
    assert_eq!(db.metrics(1).total_nodes, 3);
}

#[test]
fn a_node_without_its_task_gets_no_journal_entry() {
    let (mut db, _) = stray();
    let gone = id(0x77);
    let refused = db.append_event(gone, id(2), None, "A", json("1"), "t");
    assert_eq!(refused.unwrap_err().message(), NO_SUCH_TASK);
    let lease = db
        .mark_node_running(gone, id(2), "w", Duration::from_secs(9), 0)
        .unwrap()
        .unwrap();
    let refused = db.complete_node(gone, id(2), lease.lease_id, json("1"), &at(1));
    assert_eq!(refused.unwrap_err().message(), NO_SUCH_TASK);
    assert_eq!(db.nodes[1].status, "RUNNING");
    assert_eq!(db.nodes[1].result_payload, None);
    assert!(db.events.is_empty());
}

#[test]
fn statuses_are_counted_by_their_words() {
    let mut odd = node_row("a", "t");
    odd.status = "PAUSED".to_string();
    let mut odder = node_row("b", "t");
    odder.status = "PAUSED".to_string();
    let db = Database::from_rows(
        vec![1, 2],
        vec![],
        vec![odd, node_row("c", "t"), odder],
        vec![],
        vec![],
    )
    .unwrap();
    let counts = db.metrics(0).node_status_counts;
    assert_eq!(counts.get("PAUSED"), Some(&2));
    assert_eq!(counts.get("PENDING"), Some(&1));
    assert_eq!(counts.get("RUNNING"), None);
}

fn nested(depth: usize) -> Value {
    let mut value = Value::Null;
    for _ in 0..depth {
        value = Value::Array(vec![value]);
    }
    value
}

fn unmet(condition: &str) -> String {
    format!(
        "database error: error returned from database: (code: 275) CHECK constraint failed: {condition}"
    )
}

#[test]
fn a_task_with_json_nested_too_deep_is_refused() {
    let mut db = Database::initialise();
    let refused = db.register_task("g".to_string(), nested(1001), vec![], &at(0));
    assert_eq!(
        refused.unwrap_err().message(),
        unmet("json_valid(context)")
    );
    let mut deep = node(2, vec![]);
    deep.payload_schema = nested(1001);
    let refused = db.register_task(
        "g".to_string(),
        json("{}"),
        vec![node(1, vec![]), deep],
        &at(0),
    );
    assert_eq!(
        refused.unwrap_err().message(),
        unmet("json_valid(payload_schema)")
    );
    assert!(db.tasks.is_empty() && db.nodes.is_empty());
    let mut deep = node(2, vec![]);
    deep.payload_schema = nested(1000);
    db.register_task("g".to_string(), nested(1000), vec![deep], &at(0))
        .unwrap();
    assert_eq!(db.tasks[0].context.len(), 2004);
}

#[test]
fn brackets_in_strings_are_not_nesting() {
    let mut db = Database::initialise();
    let text = "[{\\\"".repeat(2000);
    db.register_task("g".to_string(), Value::String(text.clone()), vec![], &at(0))
        .unwrap();
    assert_eq!(db.tasks[0].context().unwrap(), Value::String(text));
}

#[test]
fn a_result_nested_too_deep_is_refused() {
    let (mut db, task) = registered(vec![node(1, vec![])]);
    let lease = db
        .mark_node_running(task, id(1), "w", Duration::from_secs(9), 0)
        .unwrap()
        .unwrap()
        .lease_id;
    let refused = db.complete_node(task, id(1), lease, nested(1001), &at(1));
    assert_eq!(
        refused.unwrap_err().message(),
        unmet("result_payload IS NULL OR json_valid(result_payload)")
    );
    let refused = db.fail_node(task, id(1), lease, nested(1000), &at(1));
    assert_eq!(
        refused.unwrap_err().message(),
        unmet("json_valid(payload)")
    );
    let refused = db.append_event(task, id(1), Some(lease), "A", nested(1001), "t");
    assert_eq!(
        refused.unwrap_err().message(),
        unmet("json_valid(payload)")
    );
    assert_eq!(db.nodes[0].status, "RUNNING");
    assert!(db.events.is_empty());
    db.append_event(task, id(1), Some(lease), "A", nested(1000), "t")
        .unwrap();
    db.complete_node(task, id(1), lease, nested(999), &at(1))
        .unwrap();
    assert_eq!(db.events.len(), 2);
}

#[test]
fn a_lock_with_metadata_nested_too_deep_is_refused() {
    let mut db = Database::initialise();
    let deep = |key: &str, depth: usize| {
        let mut request = ask(key, 10);
        request.metadata = nested(depth);
        request
    };
    let refused = db.acquire_resource_lock(deep("k", 1001), 0);
    assert_eq!(
        refused.unwrap_err().message(),
        "database error: no rows returned by a query that expected to return at least one row"
    );
    let unread = db.acquire_resource_lock(deep("k", 1000), 0);
    assert!(matches!(unread, Err(DbError::Json(_))));
    assert!(db.acquire_resource_lock(deep("k", 1001), 5).unwrap().is_none());
    let refused = db.acquire_resource_lock(deep("k", 1001), 10);
    assert_eq!(
        refused.unwrap_err().message(),
        unmet("json_valid(metadata)")
    );
    assert_eq!(db.locks.len(), 1);
    assert_eq!(db.locks[0].acquired_at, 0);
}

#[test]
fn dependency_results_come_in_order() {
    let (mut db, task) = registered(vec![node(1, vec![]), node(2, vec![])]);
    let lease = db
        .mark_node_running(task, id(2), "w", Duration::from_secs(5), 0)
        .unwrap()
        .unwrap();
    db.complete_node(task, id(2), lease.lease_id, json("[null]"), &at(1))
        .unwrap();
    let results = db
        .dependency_results(task, &vec![id(2), id(9), id(1)])
        .unwrap();
    assert_eq!(results.len(), 2);
    assert_eq!(results[0].node_id, id(2));
    assert_eq!(results[0].result_payload, Some(json("[null]")));
    assert_eq!(results[1].node_id, id(1));
    assert_eq!(results[1].result_payload, None);
    assert_eq!(empty_object(), json("{}"));
}
