//! What the library's values look like as JSON.

use crate::coordinator::{
    AcquiredInfo, AcquiredNode, HealthStatus, MetricsSnapshot, RuntimeMetricsSnapshot,
};
use crate::ids::Uuid;
use crate::json::{
    array_value, bool_value, contents, fields_content, json_content, no_content, no_fields, null_value,
    object_value, opt_content, put, signed_value, text_value, unsigned_value, Json,
};
use crate::reports::{counted, DatabaseMetrics, SnapshotInfo, StatusCounts, TaskSnapshot};
use crate::rows::{
    DependencyInfo, DependencyResult, EventInfo, GlobalTaskSnapshot, GrantInfo, JournalEvent,
    LockInfo, NodeInfo, NodeSnapshot, ResourceLockLease, ResourceLockSnapshot, TaskInfo,
};
use crate::text::opt_text;
use vstd::prelude::*;

verus! {

/// What an optional identifier looks like.
pub open spec fn opt_id_json(id: Option<Uuid>) -> Json {
    match id {
        Some(id) => Json::Text(id@),
        None => Json::Null,
    }
}

/// What an optional text looks like.
pub open spec fn opt_text_json(text: Option<Seq<char>>) -> Json {
    match text {
        Some(text) => Json::Text(text),
        None => Json::Null,
    }
}

/// What an optional number looks like.
pub open spec fn opt_number_json(n: Option<i64>) -> Json {
    match n {
        Some(n) => Json::Integer(n as int),
        None => Json::Null,
    }
}

/// What an optional value looks like.
pub open spec fn opt_json(content: Option<Json>) -> Json {
    match content {
        Some(content) => content,
        None => Json::Null,
    }
}

/// What several identifiers look like.
pub open spec fn ids_json(ids: Seq<Uuid>) -> Json {
    Json::Array(ids.map_values(|id: Uuid| Json::Text(id@)))
}

/// What a journal entry looks like.
pub open spec fn event_json(event: EventInfo) -> Json {
    Json::Object(
        no_content().insert("id"@, Json::Text(event.id@)).insert(
            "task_id"@,
            Json::Text(event.task_id@),
        ).insert("node_id"@, Json::Text(event.node_id@)).insert(
            "action_type"@,
            Json::Text(event.action_type),
        ).insert("payload"@, event.payload).insert("timestamp"@, Json::Text(event.timestamp)),
    )
}

/// What a dependency left behind looks like.
pub open spec fn dependency_json(dependency: DependencyInfo) -> Json {
    Json::Object(
        no_content().insert("node_id"@, Json::Text(dependency.node_id@)).insert(
            "result_payload"@,
            opt_json(dependency.result_payload),
        ),
    )
}

/// What a task looks like.
pub open spec fn task_json(task: TaskInfo) -> Json {
    Json::Object(
        no_content().insert("id"@, Json::Text(task.id@)).insert(
            "goal"@,
            Json::Text(task.goal),
        ).insert("context"@, task.context).insert("created_at"@, Json::Text(task.created_at)),
    )
}

/// What a node looks like.
pub open spec fn node_json(node: NodeInfo) -> Json {
    Json::Object(
        no_content().insert("id"@, Json::Text(node.id@)).insert(
            "task_id"@,
            Json::Text(node.task_id@),
        ).insert("status"@, Json::Text(node.status.word())).insert(
            "dependencies"@,
            ids_json(node.dependencies),
        ).insert("payload_schema"@, node.payload_schema).insert(
            "result_payload"@,
            opt_json(node.result_payload),
        ).insert("acquired_at"@, opt_number_json(node.acquired_at)).insert(
            "lease_id"@,
            opt_id_json(node.lease_id),
        ).insert("lease_owner"@, opt_text_json(node.lease_owner)).insert(
            "lease_expires_at"@,
            opt_number_json(node.lease_expires_at),
        ).insert("updated_at"@, Json::Integer(node.updated_at as int)),
    )
}

/// The fields of a lock as it is granted.
pub open spec fn grant_fields(grant: GrantInfo) -> Map<Seq<char>, Json> {
    no_content().insert("resource_key"@, Json::Text(grant.resource_key)).insert(
        "lease_id"@,
        Json::Text(grant.lease_id@),
    ).insert("owner"@, Json::Text(grant.owner)).insert(
        "provider"@,
        opt_text_json(grant.provider),
    ).insert("task_id"@, opt_id_json(grant.task_id)).insert(
        "node_id"@,
        opt_id_json(grant.node_id),
    ).insert("metadata"@, grant.metadata).insert(
        "acquired_at"@,
        Json::Integer(grant.acquired_at as int),
    ).insert("lease_expires_at"@, Json::Integer(grant.lease_expires_at as int))
}

/// What a lock as it is granted looks like.
pub open spec fn grant_json(grant: GrantInfo) -> Json {
    Json::Object(grant_fields(grant))
}

/// What a lock looks like: as it was granted, and when it was last touched.
pub open spec fn lock_json(lock: LockInfo) -> Json {
    Json::Object(
        grant_fields(
            GrantInfo {
                resource_key: lock.resource_key,
                lease_id: lock.lease_id,
                owner: lock.owner,
                provider: lock.provider,
                task_id: lock.task_id,
                node_id: lock.node_id,
                metadata: lock.metadata,
                acquired_at: lock.acquired_at,
                lease_expires_at: lock.lease_expires_at,
            },
        ).insert("updated_at"@, Json::Integer(lock.updated_at as int)),
    )
}

/// What counts by status look like.
pub open spec fn counts_json(counts: Map<Seq<char>, nat>) -> Json {
    Json::Object(counts.map_values(|count: nat| Json::Integer(count as int)))
}

/// What a snapshot of a task looks like.
pub open spec fn snapshot_json(snapshot: SnapshotInfo) -> Json {
    Json::Object(
        no_content().insert("task"@, task_json(snapshot.task)).insert(
            "counts"@,
            counts_json(snapshot.counts),
        ).insert(
            "nodes"@,
            Json::Array(snapshot.nodes.map_values(|node: NodeInfo| node_json(node))),
        ),
    )
}

/// What an acquired node looks like.
pub open spec fn acquired_json(acquired: AcquiredInfo) -> Json {
    Json::Object(
        no_content().insert("task_id"@, Json::Text(acquired.task_id@)).insert(
            "node_id"@,
            Json::Text(acquired.node_id@),
        ).insert("lease_id"@, Json::Text(acquired.lease_id@)).insert(
            "lease_owner"@,
            Json::Text(acquired.lease_owner),
        ).insert("lease_expires_at"@, Json::Integer(acquired.lease_expires_at as int)).insert(
            "context"@,
            acquired.context,
        ),
    )
}

/// What the health of the daemon looks like.
pub open spec fn health_json(health: HealthStatus) -> Json {
    Json::Object(
        no_content().insert("status"@, Json::Text(health.status@)).insert(
            "database"@,
            Json::Text(health.database@),
        ).insert("running_timeout_secs"@, Json::Integer(health.running_timeout_secs as int)).insert(
            "context_event_limit"@,
            Json::Integer(health.context_event_limit as int),
        ),
    )
}

/// What the counters of the daemon look like.
pub open spec fn runtime_json(runtime: RuntimeMetricsSnapshot) -> Json {
    Json::Object(
        no_content().insert(
            "registered_tasks"@,
            Json::Integer(runtime.registered_tasks as int),
        ).insert("acquire_attempts"@, Json::Integer(runtime.acquire_attempts as int)).insert(
            "acquired_nodes"@,
            Json::Integer(runtime.acquired_nodes as int),
        ).insert(
            "acquisition_latency_micros_total"@,
            Json::Integer(runtime.acquisition_latency_micros_total as int),
        ).insert(
            "average_acquisition_latency_micros"@,
            Json::Integer(runtime.average_acquisition_latency_micros as int),
        ).insert("committed_events"@, Json::Integer(runtime.committed_events as int)).insert(
            "heartbeats"@,
            Json::Integer(runtime.heartbeats as int),
        ).insert("completed_nodes"@, Json::Integer(runtime.completed_nodes as int)).insert(
            "failed_nodes"@,
            Json::Integer(runtime.failed_nodes as int),
        ).insert("timeout_rollbacks"@, Json::Integer(runtime.timeout_rollbacks as int)),
    )
}

/// What the counts of the store look like.
pub open spec fn database_json(database: DatabaseMetrics) -> Json {
    Json::Object(
        no_content().insert(
            "schema_version"@,
            Json::Integer(database.schema_version as int),
        ).insert(
            "latest_schema_version"@,
            Json::Integer(database.latest_schema_version as int),
        ).insert("total_tasks"@, Json::Integer(database.total_tasks as int)).insert(
            "total_nodes"@,
            Json::Integer(database.total_nodes as int),
        ).insert("total_events"@, Json::Integer(database.total_events as int)).insert(
            "active_resource_locks"@,
            Json::Integer(database.active_resource_locks as int),
        ).insert(
            "expired_resource_locks"@,
            Json::Integer(database.expired_resource_locks as int),
        ).insert("running_leases"@, Json::Integer(database.running_leases as int)).insert(
            "expired_running_leases"@,
            Json::Integer(database.expired_running_leases as int),
        ).insert("node_status_counts"@, counts_json(database.node_status_counts@)),
    )
}

/// What the metrics of the daemon look like.
pub open spec fn metrics_json(metrics: MetricsSnapshot) -> Json {
    Json::Object(
        no_content().insert("uptime_secs"@, Json::Integer(metrics.uptime_secs as int)).insert(
            "running_timeout_secs"@,
            Json::Integer(metrics.running_timeout_secs as int),
        ).insert(
            "context_event_limit"@,
            Json::Integer(metrics.context_event_limit as int),
        ).insert("runtime"@, runtime_json(metrics.runtime)).insert(
            "database"@,
            database_json(metrics.database),
        ),
    )
}

pub(crate) fn id_value(id: Uuid) -> (value: serde_json::Value)
    ensures
        json_content(value) == Json::Text(id@),
{
    text_value(id.to_string().as_str())
}

fn opt_id_value(id: Option<Uuid>) -> (value: serde_json::Value)
    ensures
        json_content(value) == opt_id_json(id),
{
    match id {
        Some(id) => id_value(id),
        None => null_value(),
    }
}

fn opt_text_value(text: &Option<String>) -> (value: serde_json::Value)
    ensures
        json_content(value) == opt_text_json(opt_text(*text)),
{
    match text {
        Some(text) => text_value(text.as_str()),
        None => null_value(),
    }
}

fn opt_number_value(n: Option<i64>) -> (value: serde_json::Value)
    ensures
        json_content(value) == opt_number_json(n),
{
    match n {
        Some(n) => signed_value(n),
        None => null_value(),
    }
}

pub(crate) fn opt_value(value: Option<serde_json::Value>) -> (out: serde_json::Value)
    ensures
        json_content(out) == opt_json(opt_content(value)),
{
    match value {
        Some(value) => value,
        None => null_value(),
    }
}

fn ids_value(ids: &Vec<Uuid>) -> (value: serde_json::Value)
    ensures
        json_content(value) == ids_json(ids@),
{
    let mut items: Vec<serde_json::Value> = Vec::new();
    let mut i: usize = 0;
    while i < ids.len()
        invariant
            i <= ids.len(),
            items.len() == i,
            forall|j: int| 0 <= j < i ==> json_content(#[trigger] items@[j]) == Json::Text(ids@[j]@),
        decreases ids.len() - i,
    {
        items.push(id_value(ids[i]));
        i = i + 1;
    }
    assert(contents(items@) =~= ids@.map_values(|id: Uuid| Json::Text(id@)));
    array_value(items)
}

/// A journal entry as JSON.
pub fn event_value(event: JournalEvent) -> (value: serde_json::Value)
    ensures
        json_content(value) == event_json(event@),
{
    let mut fields = no_fields();
    put(&mut fields, "id", id_value(event.id));
    put(&mut fields, "task_id", id_value(event.task_id));
    put(&mut fields, "node_id", id_value(event.node_id));
    put(&mut fields, "action_type", text_value(event.action_type.as_str()));
    put(&mut fields, "payload", event.payload);
    put(&mut fields, "timestamp", text_value(event.timestamp.as_str()));
    object_value(fields)
}

/// Journal entries as JSON.
pub fn events_value(events: Vec<JournalEvent>) -> (value: serde_json::Value)
    ensures
        json_content(value) == Json::Array(
            events@.map_values(|event: JournalEvent| event@).map_values(
                |event: EventInfo| event_json(event),
            ),
        ),
{
    let ghost all = events@;
    let mut items: Vec<serde_json::Value> = Vec::new();
    for event in it: events
        invariant
            it.seq() == all,
            items.len() == it.index(),
            forall|j: int|
                0 <= j < it.index() ==> json_content(#[trigger] items@[j]) == event_json(all[j]@),
    {
        items.push(event_value(event));
    }
    assert(contents(items@) =~= all.map_values(|event: JournalEvent| event@).map_values(
        |event: EventInfo| event_json(event),
    ));
    array_value(items)
}

fn dependency_value(dependency: DependencyResult) -> (value: serde_json::Value)
    ensures
        json_content(value) == dependency_json(dependency@),
{
    let mut fields = no_fields();
    put(&mut fields, "node_id", id_value(dependency.node_id));
    put(&mut fields, "result_payload", opt_value(dependency.result_payload));
    object_value(fields)
}

/// What dependencies left behind, as JSON.
pub fn dependencies_value(dependencies: Vec<DependencyResult>) -> (value: serde_json::Value)
    ensures
        json_content(value) == Json::Array(
            dependencies@.map_values(|dependency: DependencyResult| dependency@).map_values(
                |dependency: DependencyInfo| dependency_json(dependency),
            ),
        ),
{
    let ghost all = dependencies@;
    let mut items: Vec<serde_json::Value> = Vec::new();
    for dependency in it: dependencies
        invariant
            it.seq() == all,
            items.len() == it.index(),
            forall|j: int|
                0 <= j < it.index() ==> json_content(#[trigger] items@[j]) == dependency_json(
                    all[j]@,
                ),
    {
        items.push(dependency_value(dependency));
    }
    assert(contents(items@) =~= all.map_values(
        |dependency: DependencyResult| dependency@,
    ).map_values(|dependency: DependencyInfo| dependency_json(dependency)));
    array_value(items)
}

/// A task as JSON.
pub fn task_value(task: GlobalTaskSnapshot) -> (value: serde_json::Value)
    ensures
        json_content(value) == task_json(task@),
{
    let mut fields = no_fields();
    put(&mut fields, "id", id_value(task.id));
    put(&mut fields, "goal", text_value(task.goal.as_str()));
    put(&mut fields, "context", task.context);
    put(&mut fields, "created_at", text_value(task.created_at.as_str()));
    object_value(fields)
}

/// A node as JSON.
pub fn node_value(node: NodeSnapshot) -> (value: serde_json::Value)
    ensures
        json_content(value) == node_json(node@),
{
    let mut fields = no_fields();
    put(&mut fields, "id", id_value(node.id));
    put(&mut fields, "task_id", id_value(node.task_id));
    put(&mut fields, "status", text_value(node.status.as_str()));
    put(&mut fields, "dependencies", ids_value(&node.dependencies));
    put(&mut fields, "payload_schema", node.payload_schema);
    put(&mut fields, "result_payload", opt_value(node.result_payload));
    put(&mut fields, "acquired_at", opt_number_value(node.acquired_at));
    put(&mut fields, "lease_id", opt_id_value(node.lease_id));
    put(&mut fields, "lease_owner", opt_text_value(&node.lease_owner));
    put(&mut fields, "lease_expires_at", opt_number_value(node.lease_expires_at));
    put(&mut fields, "updated_at", signed_value(node.updated_at));
    object_value(fields)
}

fn nodes_value(nodes: Vec<NodeSnapshot>) -> (value: serde_json::Value)
    ensures
        json_content(value) == Json::Array(
            nodes@.map_values(|node: NodeSnapshot| node@).map_values(
                |node: NodeInfo| node_json(node),
            ),
        ),
{
    let ghost all = nodes@;
    let mut items: Vec<serde_json::Value> = Vec::new();
    for node in it: nodes
        invariant
            it.seq() == all,
            items.len() == it.index(),
            forall|j: int|
                0 <= j < it.index() ==> json_content(#[trigger] items@[j]) == node_json(all[j]@),
    {
        items.push(node_value(node));
    }
    assert(contents(items@) =~= all.map_values(|node: NodeSnapshot| node@).map_values(
        |node: NodeInfo| node_json(node),
    ));
    array_value(items)
}

/// A lock as it is granted, as JSON.
pub fn grant_value(grant: ResourceLockLease) -> (value: serde_json::Value)
    ensures
        json_content(value) == grant_json(grant@),
{
    let mut fields = no_fields();
    put(&mut fields, "resource_key", text_value(grant.resource_key.as_str()));
    put(&mut fields, "lease_id", id_value(grant.lease_id));
    put(&mut fields, "owner", text_value(grant.owner.as_str()));
    put(&mut fields, "provider", opt_text_value(&grant.provider));
    put(&mut fields, "task_id", opt_id_value(grant.task_id));
    put(&mut fields, "node_id", opt_id_value(grant.node_id));
    put(&mut fields, "metadata", grant.metadata);
    put(&mut fields, "acquired_at", signed_value(grant.acquired_at));
    put(&mut fields, "lease_expires_at", signed_value(grant.lease_expires_at));
    object_value(fields)
}

/// A lock as JSON.
pub fn lock_value(lock: ResourceLockSnapshot) -> (value: serde_json::Value)
    ensures
        json_content(value) == lock_json(lock@),
{
    let mut fields = no_fields();
    put(&mut fields, "resource_key", text_value(lock.resource_key.as_str()));
    put(&mut fields, "lease_id", id_value(lock.lease_id));
    put(&mut fields, "owner", text_value(lock.owner.as_str()));
    put(&mut fields, "provider", opt_text_value(&lock.provider));
    put(&mut fields, "task_id", opt_id_value(lock.task_id));
    put(&mut fields, "node_id", opt_id_value(lock.node_id));
    put(&mut fields, "metadata", lock.metadata);
    put(&mut fields, "acquired_at", signed_value(lock.acquired_at));
    put(&mut fields, "lease_expires_at", signed_value(lock.lease_expires_at));
    put(&mut fields, "updated_at", signed_value(lock.updated_at));
    object_value(fields)
}

/// Locks as JSON.
pub fn locks_value(locks: Vec<ResourceLockSnapshot>) -> (value: serde_json::Value)
    ensures
        json_content(value) == Json::Array(
            locks@.map_values(|lock: ResourceLockSnapshot| lock@).map_values(
                |lock: LockInfo| lock_json(lock),
            ),
        ),
{
    let ghost all = locks@;
    let mut items: Vec<serde_json::Value> = Vec::new();
    for lock in it: locks
        invariant
            it.seq() == all,
            items.len() == it.index(),
            forall|j: int|
                0 <= j < it.index() ==> json_content(#[trigger] items@[j]) == lock_json(all[j]@),
    {
        items.push(lock_value(lock));
    }
    assert(contents(items@) =~= all.map_values(|lock: ResourceLockSnapshot| lock@).map_values(
        |lock: LockInfo| lock_json(lock),
    ));
    array_value(items)
}

/// Counts by status as JSON.
pub fn counts_value(counts: &StatusCounts) -> (value: serde_json::Value)
    ensures
        json_content(value) == counts_json(counts@),
{
    let ghost show = |count: nat| Json::Integer(count as int);
    let mut fields = no_fields();
    let mut i: usize = 0;
    assert(fields_content(fields) =~= counted(counts.entries@.take(0)).map_values(show));
    while i < counts.entries.len()
        invariant
            show == (|count: nat| Json::Integer(count as int)),
            i <= counts.entries.len(),
            fields_content(fields) == counted(counts.entries@.take(i as int)).map_values(show),
        decreases counts.entries.len() - i,
    {
        proof {
            let entries = counts.entries@;
            assert(entries.take(i + 1).drop_last() =~= entries.take(i as int));
            assert(counted(entries.take(i + 1)).map_values(show) =~= counted(
                entries.take(i as int),
            ).map_values(show).insert(
                entries[i as int].0@,
                Json::Integer(entries[i as int].1 as int),
            ));
        }
        put(&mut fields, counts.entries[i].0.as_str(), unsigned_value(counts.entries[i].1));
        i = i + 1;
    }
    assert(counts.entries@.take(i as int) =~= counts.entries@);
    object_value(fields)
}

/// A snapshot of a task as JSON.
pub fn snapshot_value(snapshot: TaskSnapshot) -> (value: serde_json::Value)
    ensures
        json_content(value) == snapshot_json(snapshot@),
{
    let mut fields = no_fields();
    put(&mut fields, "task", task_value(snapshot.task));
    put(&mut fields, "counts", counts_value(&snapshot.counts));
    put(&mut fields, "nodes", nodes_value(snapshot.nodes));
    object_value(fields)
}

/// An acquired node as JSON.
pub fn acquired_value(acquired: AcquiredNode) -> (value: serde_json::Value)
    ensures
        json_content(value) == acquired_json(acquired@),
{
    let mut fields = no_fields();
    put(&mut fields, "task_id", id_value(acquired.task_id));
    put(&mut fields, "node_id", id_value(acquired.node_id));
    put(&mut fields, "lease_id", id_value(acquired.lease_id));
    put(&mut fields, "lease_owner", text_value(acquired.lease_owner.as_str()));
    put(&mut fields, "lease_expires_at", signed_value(acquired.lease_expires_at));
    put(&mut fields, "context", acquired.context);
    object_value(fields)
}

/// The health of the daemon as JSON.
pub fn health_value(health: &HealthStatus) -> (value: serde_json::Value)
    ensures
        json_content(value) == health_json(*health),
{
    let mut fields = no_fields();
    put(&mut fields, "status", text_value(health.status));
    put(&mut fields, "database", text_value(health.database));
    put(&mut fields, "running_timeout_secs", unsigned_value(health.running_timeout_secs));
    put(&mut fields, "context_event_limit", unsigned_value(health.context_event_limit as u64));
    object_value(fields)
}

fn runtime_value(runtime: &RuntimeMetricsSnapshot) -> (value: serde_json::Value)
    ensures
        json_content(value) == runtime_json(*runtime),
{
    let mut fields = no_fields();
    put(&mut fields, "registered_tasks", unsigned_value(runtime.registered_tasks));
    put(&mut fields, "acquire_attempts", unsigned_value(runtime.acquire_attempts));
    put(&mut fields, "acquired_nodes", unsigned_value(runtime.acquired_nodes));
    put(
        &mut fields,
        "acquisition_latency_micros_total",
        unsigned_value(runtime.acquisition_latency_micros_total),
    );
    put(
        &mut fields,
        "average_acquisition_latency_micros",
        unsigned_value(runtime.average_acquisition_latency_micros),
    );
    put(&mut fields, "committed_events", unsigned_value(runtime.committed_events));
    put(&mut fields, "heartbeats", unsigned_value(runtime.heartbeats));
    put(&mut fields, "completed_nodes", unsigned_value(runtime.completed_nodes));
    put(&mut fields, "failed_nodes", unsigned_value(runtime.failed_nodes));
    put(&mut fields, "timeout_rollbacks", unsigned_value(runtime.timeout_rollbacks));
    object_value(fields)
}

fn database_value(database: &DatabaseMetrics) -> (value: serde_json::Value)
    ensures
        json_content(value) == database_json(*database),
{
    let mut fields = no_fields();
    put(&mut fields, "schema_version", signed_value(database.schema_version));
    put(&mut fields, "latest_schema_version", signed_value(database.latest_schema_version));
    put(&mut fields, "total_tasks", unsigned_value(database.total_tasks));
    put(&mut fields, "total_nodes", unsigned_value(database.total_nodes));
    put(&mut fields, "total_events", unsigned_value(database.total_events));
    put(&mut fields, "active_resource_locks", unsigned_value(database.active_resource_locks));
    put(&mut fields, "expired_resource_locks", unsigned_value(database.expired_resource_locks));
    put(&mut fields, "running_leases", unsigned_value(database.running_leases));
    put(&mut fields, "expired_running_leases", unsigned_value(database.expired_running_leases));
    put(&mut fields, "node_status_counts", counts_value(&database.node_status_counts));
    object_value(fields)
}

/// The metrics of the daemon as JSON.
pub fn metrics_value(metrics: &MetricsSnapshot) -> (value: serde_json::Value)
    ensures
        json_content(value) == metrics_json(*metrics),
{
    let mut fields = no_fields();
    put(&mut fields, "uptime_secs", unsigned_value(metrics.uptime_secs));
    put(&mut fields, "running_timeout_secs", unsigned_value(metrics.running_timeout_secs));
    put(&mut fields, "context_event_limit", unsigned_value(metrics.context_event_limit as u64));
    put(&mut fields, "runtime", runtime_value(&metrics.runtime));
    put(&mut fields, "database", database_value(&metrics.database));
    object_value(fields)
}

/// An object with one field, as JSON.
pub(crate) fn one_field_value(key: &str, value: serde_json::Value) -> (out: serde_json::Value)
    ensures
        json_content(out) == Json::Object(no_content().insert(key@, json_content(value))),
{
    let mut fields = no_fields();
    put(&mut fields, key, value);
    object_value(fields)
}

/// Whether something was done, as JSON.
pub(crate) fn ok_value(ok: bool) -> (value: serde_json::Value)
    ensures
        json_content(value) == Json::Object(no_content().insert("ok"@, Json::Bool(ok))),
{
    one_field_value("ok", bool_value(ok))
}

} // verus!
