use agentd::clock::Moment;
use agentd::coordinator::Coordinator;
use agentd::db::Database;
use agentd::graph::NodeDefinition;
use agentd::ids::Uuid;
use agentd::rows::AcquireResourceLock;
use serde_json::Value;
use std::time::Duration;

fn json(text: &str) -> Value {
    serde_json::from_str(text).unwrap()
}

fn id(n: u128) -> Uuid {
    Uuid { bits: n }
}

fn at(secs: i64) -> Moment {
    Moment {
        secs,
        timestamp: "t".to_string(),
    }
}

fn node(n: u128, dependencies: Vec<Uuid>) -> NodeDefinition {
    NodeDefinition {
        id: Some(id(n)),
        dependencies,
        payload_schema: json("{}"),
    }
}

fn coordinator(timeout: u64) -> Coordinator {
    Coordinator::new(Database::initialise(), Duration::from_secs(timeout), 5)
}

fn register(coordinator: &mut Coordinator, nodes: Vec<NodeDefinition>) -> Uuid {
    coordinator
        .register_task("g".to_string(), json("{}"), nodes, &at(0))
        .unwrap()
}

fn ask(key: &str) -> AcquireResourceLock {
    AcquireResourceLock {
        resource_key: key.to_string(),
        owner: "o".to_string(),
        provider: None,
        lease_ttl: Duration::from_secs(10),
        task_id: None,
        node_id: None,
        metadata: json("{}"),
    }
}

#[test]
fn a_task_without_failures_is_worked_off() {
    let mut c = coordinator(60);
    let task = register(
        &mut c,
        vec![
            node(4, vec![id(2), id(3)]),
            node(3, vec![id(1)]),
            node(2, vec![id(1)]),
            node(1, vec![]),
        ],
    );
    let mut order = Vec::new();
    while let Some(held) = c.acquire_next_node(task, "w".to_string(), 0, 1).unwrap() {
        order.push(held.node_id);
        c.complete_node(task, held.node_id, held.lease_id, json("1"), &at(2))
            .unwrap();
    }
    assert_eq!(order, vec![id(1), id(3), id(2), id(4)]);
    assert_eq!(c.task_status(task).unwrap().counts.get("COMPLETED"), Some(&4));
    assert_eq!(c.db.events.len(), 4);
}

#[test]
fn work_on_one_task_leaves_another_alone() {
    let mut c = coordinator(1);
    let one = register(&mut c, vec![node(1, vec![])]);
    let two = register(&mut c, vec![node(2, vec![])]);
    c.acquire_next_node(one, "a".to_string(), 0, 0)
        .unwrap()
        .unwrap();
    let before = c.db.nodes[0].clone();
    let held = c
        .acquire_next_node(two, "b".to_string(), 0, 100)
        .unwrap()
        .unwrap();
    c.heartbeat_node(two, id(2), held.lease_id, 100).unwrap();
    c.complete_node(two, id(2), held.lease_id, json("1"), &at(100))
        .unwrap();
    assert_eq!(c.db.nodes[0], before);
}

#[test]
fn a_refused_request_changes_no_row() {
    let mut c = coordinator(60);
    let task = register(&mut c, vec![node(1, vec![])]);
    let held = c
        .acquire_next_node(task, "a".to_string(), 0, 0)
        .unwrap()
        .unwrap();
    let before = c.db.nodes[0].clone();
    assert!(c
        .complete_node(task, id(1), id(77), json("1"), &at(1))
        .is_err());
    assert!(c.fail_node(task, id(1), id(77), json("1"), &at(1)).is_err());
    assert!(c.heartbeat_node(task, id(1), id(77), 1).is_err());
    assert!(c
        .commit_event(task, id(1), Some(id(77)), None, json("1"), "t")
        .is_err());
    assert_eq!(c.db.nodes[0], before);
    assert!(c.db.events.is_empty());
    assert_eq!(before.lease_id, Some(held.lease_id.to_string()));
}

#[test]
fn an_ended_node_never_changes_again() {
    let mut c = coordinator(0);
    let task = register(&mut c, vec![node(1, vec![])]);
    let held = c
        .acquire_next_node(task, "a".to_string(), 0, 0)
        .unwrap()
        .unwrap();
    c.fail_node(task, id(1), held.lease_id, json("1"), &at(1))
        .unwrap();
    let ended = c.db.nodes[0].clone();
    assert_eq!(ended.lease_id, None);
    assert_eq!(c.reset_timed_out_nodes(1000), 0);
    assert!(c
        .acquire_next_node(task, "b".to_string(), 0, 1000)
        .unwrap()
        .is_none());
    assert!(c
        .complete_node(task, id(1), held.lease_id, json("2"), &at(1000))
        .is_err());
    assert_eq!(c.db.nodes[0], ended);
}

#[test]
fn a_lease_in_force_survives_a_sweep() {
    let mut c = coordinator(10);
    let task = register(&mut c, vec![node(1, vec![])]);
    c.acquire_next_node(task, "a".to_string(), 0, 0)
        .unwrap()
        .unwrap();
    let running = c.db.nodes[0].clone();
    assert_eq!(c.reset_timed_out_nodes(9), 0);
    assert_eq!(c.db.nodes[0], running);
    assert_eq!(c.reset_timed_out_nodes(10), 1);
    assert_eq!(c.db.nodes[0].status, "PENDING");
    assert_eq!(c.db.nodes[0].lease_owner, None);
}

#[test]
fn one_lock_leaves_another_alone() {
    let mut db = Database::initialise();
    let a = db.acquire_resource_lock(ask("a"), 0).unwrap().unwrap();
    db.acquire_resource_lock(ask("b"), 0).unwrap().unwrap();
    let other = db.locks[1].clone();
    db.heartbeat_resource_lock("a", a.lease_id, Duration::from_secs(50), 1)
        .unwrap();
    assert!(db.acquire_resource_lock(ask("a"), 2).unwrap().is_none());
    assert!(db.release_resource_lock("a", a.lease_id));
    assert_eq!(db.locks.len(), 1);
    assert_eq!(db.locks[0], other);
}

#[test]
fn a_cyclic_task_is_refused_whole() {
    let mut c = coordinator(10);
    let refused = c.register_task(
        "g".to_string(),
        json("{}"),
        vec![
            node(1, vec![id(3)]),
            node(2, vec![id(1)]),
            node(3, vec![id(2)]),
        ],
        &at(0),
    );
    assert!(refused
        .unwrap_err()
        .message()
        .starts_with("invalid state: cycle detected at node "));
    assert!(c.db.tasks.is_empty());
    assert!(c.db.nodes.is_empty());
    assert_eq!(c.metrics(0, 0).runtime.registered_tasks, 0);
}

#[test]
fn a_held_lock_is_refused_to_its_holder_too() {
    let mut db = Database::initialise();
    let held = db
        .acquire_resource_lock_as(id(5), ask("a"), 0)
        .unwrap()
        .unwrap();
    assert_eq!(held.lease_id, id(5));
    assert_eq!(held.acquired_at, 0);
    assert_eq!(held.lease_expires_at, 10);
    let row = db.locks[0].clone();
    assert!(db
        .acquire_resource_lock_as(id(5), ask("a"), 9)
        .unwrap()
        .is_none());
    assert_eq!(db.locks, vec![row]);
    let mut c = coordinator(10);
    c.acquire_resource_lock_as(id(5), ask("a"), 0)
        .unwrap()
        .unwrap();
    assert!(c
        .acquire_resource_lock_as(id(5), ask("a"), 9)
        .unwrap()
        .is_none());
}

#[test]
fn a_released_lock_passes_to_the_next_asker() {
    let mut db = Database::initialise();
    db.acquire_resource_lock_as(id(1), ask("a"), 0)
        .unwrap()
        .unwrap();
    assert!(db.release_resource_lock("a", id(1)));
    assert!(!db.release_resource_lock("a", id(1)));
    let next = db
        .acquire_resource_lock_as(id(2), ask("a"), 1)
        .unwrap()
        .unwrap();
    assert_eq!(next.lease_id, id(2));
    assert!(!db.release_resource_lock("a", id(1)));
    assert_eq!(db.locks.len(), 1);
    assert_eq!(db.locks[0].lease_id, id(2).to_string());
}

#[test]
fn a_second_worker_gets_the_other_node() {
    let mut c = coordinator(60);
    let task = register(
        &mut c,
        vec![node(1, vec![]), node(2, vec![id(1)]), node(3, vec![])],
    );
    let first = c
        .acquire_next_node_as(id(11), task, "a".to_string(), 0, 0)
        .unwrap()
        .unwrap();
    let second = c
        .acquire_next_node_as(id(12), task, "b".to_string(), 0, 59)
        .unwrap()
        .unwrap();
    assert_eq!((first.node_id, first.lease_id), (id(1), id(11)));
    assert_eq!((second.node_id, second.lease_id), (id(3), id(12)));
    assert!(c
        .acquire_next_node(task, "c".to_string(), 0, 59)
        .unwrap()
        .is_none());
}

#[test]
fn what_was_handed_in_reads_back() {
    let mut c = coordinator(60);
    let schema = json("{\"fields\": [1, -2, \"x\", null]}");
    let task = c
        .register_task(
            "g".to_string(),
            json("{\"deep\": {\"deeper\": []}}"),
            vec![NodeDefinition {
                id: Some(id(1)),
                dependencies: vec![],
                payload_schema: schema.clone(),
            }],
            &at(0),
        )
        .unwrap();
    assert_eq!(
        c.db.tasks[0].context().unwrap(),
        json("{\"deep\": {\"deeper\": []}}")
    );
    assert_eq!(c.db.nodes[0].payload_schema().unwrap(), schema);
    c.commit_event(task, id(1), None, None, json("[true]"), "t")
        .unwrap();
    assert_eq!(c.db.events[0].payload, "[true]");
    let held = c
        .acquire_next_node(task, "w".to_string(), 0, 1)
        .unwrap()
        .unwrap();
    assert_eq!(held.context["node"]["payload_schema"], schema);
    c.complete_node(task, id(1), held.lease_id, json("{\"n\": 1}"), &at(2))
        .unwrap();
    assert_eq!(
        c.db.nodes[0].result_payload().unwrap(),
        Some(json("{\"n\": 1}"))
    );
    assert_eq!(c.db.events[1].payload, "{\"result\":{\"n\":1}}");
}

#[test]
fn fractions_read_back() {
    let mut c = coordinator(60);
    let numbers = [0.5, -1.5e300, f64::MAX, f64::MIN_POSITIVE];
    for number in numbers {
        let value = serde_json::Value::from(number);
        let task = c
            .register_task("g".to_string(), value, vec![], &at(0))
            .unwrap();
        let read = c.db.fetch_task(task).unwrap().context().unwrap();
        let got = read.as_f64().unwrap();
        assert!((got - number).abs() <= number.abs() * 1e-15);
        assert!(read.is_f64());
    }
}

#[test]
fn content_reads_back_down_to_its_deepest_level() {
    let mut c = coordinator(60);
    let mut deep = serde_json::Value::from(0.25);
    for _ in 0..127 {
        deep = serde_json::Value::Array(vec![deep]);
    }
    c.register_task("g".to_string(), deep.clone(), vec![], &at(0))
        .unwrap();
    assert_eq!(c.db.tasks[0].context().unwrap(), deep);
    deep = serde_json::Value::Array(vec![deep]);
    c.register_task("g".to_string(), deep, vec![], &at(0))
        .unwrap();
    assert!(c.db.tasks[1].context().is_err());
}

#[test]
fn drawn_identifiers_are_of_version_four() {
    for _ in 0..8 {
        let text = Uuid::new_v4().to_string();
        assert_eq!(text.as_bytes()[14], b'4');
        assert!(matches!(text.as_bytes()[19], b'8' | b'9' | b'a' | b'b'));
    }
}
