//! Answering requests.

use core::time::Duration;
use crate::clock::{column_secs, duration_nanos, Moment};
use crate::coordinator::{
    acquire_next_step, answered, answered_opt, answered_view, commit_event_step, end_node_step,
    heartbeat_lock_step, heartbeat_step, listed_locks, lock_resource_step, locks_told, metrics_told,
    registers_task, release_lock_step, status_told, AcquiredInfo, Coordinator, CoordinatorError,
    CoordinatorFailure, CoordinatorState, MetricsSnapshot,
};
use crate::error::DbError;
use crate::graph::{materialised, NodeDefinition};
use crate::ids::{is_v4, Uuid};
use crate::interface::{describe_interface, interface_json, method_called, route, Method};
use crate::json::{
    json_content, json_error_message, json_error_text, no_content, null_value, opt_content, Json,
};
use crate::readable::{is_readable, owes_node};
use crate::reader::{too_large_message, too_large_words, MAX_REQUEST_BYTES};
use crate::registration::{is_readable_task, schemas_are_kept};
use crate::reports::SnapshotInfo;
use crate::rows::{
    is_kept, is_kept_there, read_json, read_opt_json, AcquireResourceLock, GrantInfo, LockInfo,
    NodeStatus,
};
use crate::state::{is_locked, lock_ttl, one_field, DbState};
use crate::text::opt_text;
use crate::wire::{
    acquired_json, acquired_value, grant_json, grant_value, health_value, id_value, lock_json,
    locks_value, metrics_json, metrics_value, ok_value, one_field_value, snapshot_json,
    snapshot_value,
};
use vstd::prelude::*;
use vstd::string::StringExecFns;

verus! {

/// A request with its parameters.
#[allow(inconsistent_fields)]
#[derive(Debug)]
pub enum Request {
    DescribeInterface,
    /// With what the store answered when asked whether it is there.
    Health { ping: Result<(), DbError> },
    Metrics,
    RegisterTask {
        goal: String,
        context: serde_json::Value,
        initial_nodes: Vec<NodeDefinition>,
    },
    AcquireNextNode { task_id: Uuid, lease_owner: String },
    CommitEvent {
        task_id: Uuid,
        node_id: Uuid,
        lease_id: Option<Uuid>,
        action_type: Option<String>,
        payload: serde_json::Value,
    },
    HeartbeatNode { task_id: Uuid, node_id: Uuid, lease_id: Uuid },
    CompleteNode {
        task_id: Uuid,
        node_id: Uuid,
        lease_id: Uuid,
        result_payload: serde_json::Value,
    },
    FailNode { task_id: Uuid, node_id: Uuid, lease_id: Uuid, error_payload: serde_json::Value },
    TaskStatus { task_id: Uuid },
    AcquireResourceLock {
        resource_key: String,
        owner: String,
        provider: Option<String>,
        ttl_secs: Option<u64>,
        task_id: Option<Uuid>,
        node_id: Option<Uuid>,
        metadata: serde_json::Value,
    },
    HeartbeatResourceLock { resource_key: String, lease_id: Uuid, ttl_secs: Option<u64> },
    ReleaseResourceLock { resource_key: String, lease_id: Uuid },
    ListResourceLocks,
}

impl Request {
    /// The method that the request calls.
    pub open spec fn method(self) -> Method {
        match self {
            Request::DescribeInterface => Method::DescribeInterface,
            Request::Health { .. } => Method::Health,
            Request::Metrics => Method::Metrics,
            Request::RegisterTask { .. } => Method::RegisterTask,
            Request::AcquireNextNode { .. } => Method::AcquireNextNode,
            Request::CommitEvent { .. } => Method::CommitEvent,
            Request::HeartbeatNode { .. } => Method::HeartbeatNode,
            Request::CompleteNode { .. } => Method::CompleteNode,
            Request::FailNode { .. } => Method::FailNode,
            Request::TaskStatus { .. } => Method::TaskStatus,
            Request::AcquireResourceLock { .. } => Method::AcquireResourceLock,
            Request::HeartbeatResourceLock { .. } => Method::HeartbeatResourceLock,
            Request::ReleaseResourceLock { .. } => Method::ReleaseResourceLock,
            Request::ListResourceLocks => Method::ListResourceLocks,
        }
    }

    /// What the request hands in can be read once it is written.
    pub open spec fn is_readable(self) -> bool {
        match self {
            Request::RegisterTask { context, initial_nodes, .. } => is_readable_task(
                json_content(context),
                initial_nodes@,
            ),
            Request::CommitEvent { payload, .. } => json_content(payload).nests_within(127),
            Request::CompleteNode { result_payload, .. } => json_content(
                result_payload,
            ).nests_within(126),
            Request::FailNode { error_payload, .. } => json_content(error_payload).nests_within(126),
            Request::AcquireResourceLock { metadata, .. } => json_content(metadata).nests_within(127),
            _ => true,
        }
    }
}

/// When and how a request is answered.
#[derive(Debug)]
pub struct Occasion {
    pub now: Moment,
    /// The time already spent on the request.
    pub elapsed_micros: u128,
    /// The time since the daemon started.
    pub uptime_secs: u64,
}

/// The result as JSON, or the failure.
pub open spec fn shown<T>(
    outcome: Result<T, CoordinatorFailure>,
    show: spec_fn(T) -> Json,
) -> Result<Json, CoordinatorFailure> {
    match outcome {
        Ok(value) => Ok(show(value)),
        Err(failure) => Err(failure),
    }
}

/// An object with one field.
pub open spec fn field_json(key: Seq<char>, content: Json) -> Json {
    Json::Object(no_content().insert(key, content))
}

/// What the health of a daemon that works looks like.
pub open spec fn healthy_json(state: CoordinatorState) -> Json {
    Json::Object(
        no_content().insert("status"@, Json::Text("ok"@)).insert(
            "database"@,
            Json::Text("ok"@),
        ).insert(
            "running_timeout_secs"@,
            Json::Integer((duration_nanos(state.running_timeout) / 1_000_000_000) as int),
        ).insert("context_event_limit"@, Json::Integer(state.context_event_limit as int)),
    )
}

/// For how many seconds a lock is asked: as many as are named, else as long as nodes are leased.
pub open spec fn wanted_ttl(ttl_secs: Option<u64>, running_timeout: Duration) -> int {
    match ttl_secs {
        Some(secs) => if secs <= i64::MAX {
            secs as int
        } else {
            i64::MAX as int
        },
        None => column_secs(running_timeout),
    }
}

/// Answering `request`: `fresh` is the identifier drawn for what the request makes (a task, a
/// lease or a journal entry), `after` is what is held afterwards, and `outcome` what the client
/// is told.
pub open spec fn answers(
    before: CoordinatorState,
    request: Request,
    fresh: Uuid,
    occasion: Occasion,
    after: CoordinatorState,
    outcome: Result<Json, CoordinatorFailure>,
) -> bool {
    let now = occasion.now.secs;
    let timestamp = occasion.now.timestamp@;
    match request {
        Request::DescribeInterface => after == before && outcome == Ok::<Json, CoordinatorFailure>(
            interface_json(),
        ),
        Request::Health { ping } => after == before && outcome == (match ping {
            Ok(_) => Ok(healthy_json(before)),
            Err(err) => Err(CoordinatorFailure::Db(err@)),
        }),
        Request::Metrics => after == before && exists|metrics: MetricsSnapshot|
            #[trigger] metrics_told(before, occasion.uptime_secs, now as int, metrics) && outcome
                == Ok::<Json, CoordinatorFailure>(metrics_json(metrics)),
        Request::RegisterTask { goal, context, initial_nodes } => exists|
            nodes: Seq<(Uuid, NodeDefinition)>,
            res: Result<Uuid, CoordinatorFailure>,
        |
            {
                &&& materialised(initial_nodes@, nodes)
                &&& #[trigger] registers_task(
                    before,
                    fresh,
                    goal@,
                    json_content(context),
                    nodes,
                    now,
                    timestamp,
                    after,
                    res,
                )
                &&& outcome == shown(res, |id: Uuid| field_json("task_id"@, Json::Text(id@)))
            },
        Request::AcquireNextNode { task_id, lease_owner } => {
            let (held, res) = acquire_next_step(
                before,
                fresh,
                task_id,
                lease_owner@,
                occasion.elapsed_micros,
                now,
            );
            after == held && outcome == shown(
                res,
                |node: Option<AcquiredInfo>|
                    match node {
                        Some(info) => acquired_json(info),
                        None => Json::Null,
                    },
            )
        },
        Request::CommitEvent { task_id, node_id, lease_id, action_type, payload } => {
            let (held, res) = commit_event_step(
                before,
                fresh,
                task_id,
                node_id,
                lease_id,
                opt_text(action_type),
                json_content(payload),
                timestamp,
            );
            after == held && outcome == shown(
                res,
                |id: Uuid| field_json("event_id"@, Json::Text(id@)),
            )
        },
        Request::HeartbeatNode { task_id, node_id, lease_id } => {
            let (held, res) = heartbeat_step(before, task_id, node_id, lease_id, now);
            after == held && outcome == shown(res, |done: ()| field_json("ok"@, Json::Bool(true)))
        },
        Request::CompleteNode { task_id, node_id, lease_id, result_payload } => {
            let (held, res) = end_node_step(
                before,
                fresh,
                task_id,
                node_id,
                lease_id,
                NodeStatus::Completed,
                json_content(result_payload),
                now,
                timestamp,
            );
            after == held && outcome == shown(
                res,
                |id: Uuid| field_json("event_id"@, Json::Text(id@)),
            )
        },
        Request::FailNode { task_id, node_id, lease_id, error_payload } => {
            let (held, res) = end_node_step(
                before,
                fresh,
                task_id,
                node_id,
                lease_id,
                NodeStatus::Failed,
                json_content(error_payload),
                now,
                timestamp,
            );
            after == held && outcome == shown(
                res,
                |id: Uuid| field_json("event_id"@, Json::Text(id@)),
            )
        },
        Request::TaskStatus { task_id } => after == before && exists|
            res: Result<SnapshotInfo, CoordinatorFailure>,
        |
            #[trigger] status_told(before.db, task_id, res) && outcome == shown(
                res,
                |snapshot: SnapshotInfo| snapshot_json(snapshot),
            ),
        Request::AcquireResourceLock {
            resource_key,
            owner,
            provider,
            ttl_secs,
            task_id,
            node_id,
            metadata,
        } => exists|asked: AcquireResourceLock|
            {
                let (held, res) = #[trigger] lock_resource_step(before, fresh, asked, now);
                &&& asked.resource_key == resource_key
                &&& asked.owner == owner
                &&& asked.provider == provider
                &&& asked.task_id == task_id
                &&& asked.node_id == node_id
                &&& asked.metadata == metadata
                &&& column_secs(asked.lease_ttl) == wanted_ttl(ttl_secs, before.running_timeout)
                &&& after == held
                &&& is_locked(before.db, resource_key@, now as int) ==> after == before && outcome
                    == Ok::<Json, CoordinatorFailure>(Json::Null)
                &&& outcome == shown(
                    res,
                    |grant: Option<GrantInfo>|
                        match grant {
                            Some(info) => grant_json(info),
                            None => Json::Null,
                        },
                )
            },
        Request::HeartbeatResourceLock { resource_key, lease_id, ttl_secs } => {
            let (held, res) = heartbeat_lock_step(
                before,
                resource_key@,
                lease_id,
                wanted_ttl(ttl_secs, before.running_timeout),
                now,
            );
            after == held && outcome == shown(res, |ok: bool| field_json("ok"@, Json::Bool(ok)))
        },
        Request::ReleaseResourceLock { resource_key, lease_id } => {
            let (held, released) = release_lock_step(before, resource_key@, lease_id);
            after == held && outcome == Ok::<Json, CoordinatorFailure>(
                field_json("ok"@, Json::Bool(released)),
            )
        },
        Request::ListResourceLocks => after == before && exists|
            res: Result<Seq<LockInfo>, CoordinatorFailure>,
        |
            #[trigger] locks_told(before.db, now as int, res) && outcome == shown(
                res,
                |locks: Seq<LockInfo>|
                    field_json(
                        "locks"@,
                        Json::Array(locks.map_values(|lock: LockInfo| lock_json(lock))),
                    ),
            ),
    }
}

/// What a node ended with is kept with the node and, under `field`, in the journal.
pub open spec fn ending_is_kept(
    state: DbState,
    task_id: Uuid,
    node_id: Uuid,
    field: Seq<char>,
    payload: Json,
) -> bool {
    &&& is_kept_there(payload, read_opt_json(state.node(task_id@, node_id@).result_payload))
    &&& is_kept(one_field(field, payload), read_json(state.events.last().payload))
}

/// What a client handed in is kept: reading what was stored gives it back. `outcome` is the result
/// that the client is told.
pub open spec fn payload_is_kept(
    before: CoordinatorState,
    request: Request,
    fresh: Uuid,
    now: i64,
    after: DbState,
    outcome: Json,
) -> bool {
    match request {
        Request::RegisterTask { context, initial_nodes, .. } => {
            &&& is_kept(json_content(context), read_json(after.tasks.last().context))
            &&& schemas_are_kept(initial_nodes@, after.nodes, before.db.nodes.len() as int)
        },
        Request::CommitEvent { payload, .. } => is_kept(
            json_content(payload),
            read_json(after.events.last().payload),
        ),
        Request::CompleteNode { task_id, node_id, result_payload, .. } => ending_is_kept(
            after,
            task_id,
            node_id,
            "result"@,
            json_content(result_payload),
        ),
        Request::FailNode { task_id, node_id, error_payload, .. } => ending_is_kept(
            after,
            task_id,
            node_id,
            "error"@,
            json_content(error_payload),
        ),
        Request::AcquireResourceLock {
            resource_key,
            owner,
            provider,
            ttl_secs,
            task_id,
            node_id,
            metadata,
        } => json_content(metadata).nests_within(127) && !is_locked(
            before.db,
            resource_key@,
            now as int,
        ) ==> exists|found: Json|
            {
                &&& #[trigger] json_content(metadata).alike(found, 127)
                &&& json_content(metadata).reads_back() ==> found == json_content(metadata)
                &&& outcome == grant_json(
                    GrantInfo {
                        resource_key: resource_key@,
                        lease_id: fresh,
                        owner: owner@,
                        provider: opt_text(provider),
                        task_id,
                        node_id,
                        metadata: found,
                        acquired_at: now,
                        lease_expires_at: (now + lock_ttl(
                            wanted_ttl(ttl_secs, before.running_timeout),
                        )) as i64,
                    },
                )
            },
        _ => true,
    }
}

/// A worker who is owed a node is told of one.
pub open spec fn worker_is_served(
    before: CoordinatorState,
    request: Request,
    now: i64,
    outcome: Result<Json, CoordinatorFailure>,
) -> bool {
    match request {
        Request::AcquireNextNode { task_id, .. } => owes_node(before, task_id, now) ==> (
        outcome matches Ok(content) && content is Object),
        _ => true,
    }
}

/// What a client is told, in plain terms.
pub open spec fn told_client(res: Result<serde_json::Value, CoordinatorError>) -> Result<
    Json,
    CoordinatorFailure,
> {
    match res {
        Ok(value) => Ok(json_content(value)),
        Err(err) => Err(err@),
    }
}

fn lock_duration(ttl_secs: Option<u64>, running_timeout: Duration) -> (ttl: Duration)
    ensures
        column_secs(ttl) == wanted_ttl(ttl_secs, running_timeout),
{
    match ttl_secs {
        Some(secs) => Duration::new(secs, 0),
        None => running_timeout,
    }
}

fn entry_value(key: &str, id: Uuid) -> (value: serde_json::Value)
    ensures
        json_content(value) == field_json(key@, Json::Text(id@)),
{
    one_field_value(key, id_value(id))
}

/// Answers a request; `fresh` becomes the identifier of what the request makes.
pub fn answer(
    fresh: Uuid,
    request: Request,
    coordinator: &mut Coordinator,
    occasion: &Occasion,
) -> (res: Result<serde_json::Value, CoordinatorError>)
    requires
        old(coordinator).db@.wf(),
    ensures
        final(coordinator).db@.wf(),
        answers(
            old(coordinator)@,
            request,
            fresh,
            *occasion,
            final(coordinator)@,
            told_client(res),
        ),
        res matches Ok(value) ==> payload_is_kept(
            old(coordinator)@,
            request,
            fresh,
            occasion.now.secs,
            final(coordinator)@.db,
            json_content(value),
        ),
        worker_is_served(old(coordinator)@, request, occasion.now.secs, told_client(res)),
        old(coordinator)@.db.is_linked() ==> final(coordinator)@.db.is_linked(),
        is_readable(old(coordinator)@.db) && request.is_readable() ==> is_readable(
            final(coordinator)@.db,
        ),
{
    let now: i64 = occasion.now.secs;
    let ghost before = coordinator@;
    match request {
        Request::DescribeInterface => Ok(describe_interface()),
        Request::Health { ping } => {
            let health = coordinator.health(ping)?;
            Ok(health_value(&health))
        },
        Request::Metrics => {
            let metrics = coordinator.metrics(occasion.uptime_secs, now);
            assert(metrics_told(before, occasion.uptime_secs, now as int, metrics));
            Ok(metrics_value(&metrics))
        },
        Request::RegisterTask { goal, context, initial_nodes } => {
            let ghost goal_text = goal@;
            let ghost content = json_content(context);
            let ghost definitions = initial_nodes@;
            let res = coordinator.register_task_as(
                fresh,
                goal,
                context,
                initial_nodes,
                &occasion.now,
            );
            proof {
                let nodes = choose|nodes: Seq<(Uuid, NodeDefinition)>|
                    #[trigger] materialised(definitions, nodes) && registers_task(
                        before,
                        fresh,
                        goal_text,
                        content,
                        nodes,
                        now,
                        occasion.now.timestamp@,
                        coordinator@,
                        answered(res),
                    );
                assert(registers_task(
                    before,
                    fresh,
                    goal_text,
                    content,
                    nodes,
                    now,
                    occasion.now.timestamp@,
                    coordinator@,
                    answered(res),
                ));
            }
            match res {
                Ok(id) => Ok(entry_value("task_id", id)),
                Err(err) => Err(err),
            }
        },
        Request::AcquireNextNode { task_id, lease_owner } => {
            let res = coordinator.acquire_next_node_as(
                fresh,
                task_id,
                lease_owner,
                occasion.elapsed_micros,
                now,
            );
            match res {
                Ok(Some(node)) => Ok(acquired_value(node)),
                Ok(None) => Ok(null_value()),
                Err(err) => Err(err),
            }
        },
        Request::CommitEvent { task_id, node_id, lease_id, action_type, payload } => {
            let res = coordinator.commit_event_as(
                fresh,
                task_id,
                node_id,
                lease_id,
                action_type,
                payload,
                occasion.now.timestamp.as_str(),
            );
            match res {
                Ok(id) => Ok(entry_value("event_id", id)),
                Err(err) => Err(err),
            }
        },
        Request::HeartbeatNode { task_id, node_id, lease_id } => {
            match coordinator.heartbeat_node(task_id, node_id, lease_id, now) {
                Ok(()) => Ok(ok_value(true)),
                Err(err) => Err(err),
            }
        },
        Request::CompleteNode { task_id, node_id, lease_id, result_payload } => {
            let res = coordinator.complete_node_as(
                fresh,
                task_id,
                node_id,
                lease_id,
                result_payload,
                &occasion.now,
            );
            match res {
                Ok(id) => Ok(entry_value("event_id", id)),
                Err(err) => Err(err),
            }
        },
        Request::FailNode { task_id, node_id, lease_id, error_payload } => {
            let res = coordinator.fail_node_as(
                fresh,
                task_id,
                node_id,
                lease_id,
                error_payload,
                &occasion.now,
            );
            match res {
                Ok(id) => Ok(entry_value("event_id", id)),
                Err(err) => Err(err),
            }
        },
        Request::TaskStatus { task_id } => {
            let res = coordinator.task_status(task_id);
            assert(status_told(before.db, task_id, answered_view(res)));
            match res {
                Ok(snapshot) => Ok(snapshot_value(snapshot)),
                Err(err) => Err(err),
            }
        },
        Request::AcquireResourceLock {
            resource_key,
            owner,
            provider,
            ttl_secs,
            task_id,
            node_id,
            metadata,
        } => {
            let asked = AcquireResourceLock {
                resource_key,
                owner,
                provider,
                lease_ttl: lock_duration(ttl_secs, coordinator.running_timeout),
                task_id,
                node_id,
                metadata,
            };
            let ghost asked_for = asked;
            let res = coordinator.acquire_resource_lock_as(fresh, asked, now);
            assert(lock_resource_step(before, fresh, asked_for, now) == (
                coordinator@,
                answered_opt(res),
            ));
            match res {
                Ok(Some(grant)) => Ok(grant_value(grant)),
                Ok(None) => Ok(null_value()),
                Err(err) => Err(err),
            }
        },
        Request::HeartbeatResourceLock { resource_key, lease_id, ttl_secs } => {
            let ttl = lock_duration(ttl_secs, coordinator.running_timeout);
            match coordinator.heartbeat_resource_lock(resource_key.as_str(), lease_id, ttl, now) {
                Ok(held) => Ok(ok_value(held)),
                Err(err) => Err(err),
            }
        },
        Request::ReleaseResourceLock { resource_key, lease_id } => {
            let released = coordinator.release_resource_lock(resource_key.as_str(), lease_id);
            Ok(ok_value(released))
        },
        Request::ListResourceLocks => {
            let res = coordinator.list_resource_locks(now);
            assert(locks_told(before.db, now as int, listed_locks(res)));
            match res {
                Ok(locks) => Ok(one_field_value("locks", locks_value(locks))),
                Err(err) => Err(err),
            }
        },
    }
}

/// Why a request gets no result.
#[derive(Debug)]
pub enum RequestError {
    InvalidParams(serde_json::Error),
    Coordinator(CoordinatorError),
}

/// What a client is answered in place of a result.
#[derive(Debug)]
pub struct RpcErrorBody {
    pub code: i64,
    pub message: String,
}

/// What a client is answered.
#[derive(Debug)]
pub struct RpcResponse {
    pub id: Option<serde_json::Value>,
    pub result: Option<serde_json::Value>,
    pub error: Option<RpcErrorBody>,
}

/// What an answer says: for which request, and the result or else an error's code and words.
pub struct ResponseInfo {
    pub id: Option<Json>,
    pub result: Result<Json, (int, Seq<char>)>,
}

impl ResponseInfo {
    /// The answer is an error with this code.
    pub open spec fn has_code(self, code: int) -> bool {
        self.result matches Err(body) && body.0 == code
    }
}

impl RpcResponse {
    /// The answer has either a result or an error.
    pub open spec fn wf(self) -> bool {
        self.result is Some <==> self.error is None
    }

    /// What the answer says.
    pub open spec fn says(self) -> ResponseInfo {
        ResponseInfo {
            id: opt_content(self.id),
            result: match self.error {
                Some(body) => Err((body.code as int, body.message@)),
                None => Ok(opt_content(self.result).unwrap()),
            },
        }
    }

    /// An answer with a result.
    pub fn success(id: Option<serde_json::Value>, result: serde_json::Value) -> (response:
        RpcResponse)
        ensures
            response.wf(),
            response.says() == (ResponseInfo {
                id: opt_content(id),
                result: Ok(json_content(result)),
            }),
    {
        RpcResponse { id, result: Some(result), error: None }
    }

    /// An answer with an error.
    pub fn error(id: Option<serde_json::Value>, code: i64, message: String) -> (response:
        RpcResponse)
        ensures
            response.wf(),
            response.says() == (ResponseInfo {
                id: opt_content(id),
                result: Err((code as int, message@)),
            }),
    {
        RpcResponse { id, result: None, error: Some(RpcErrorBody { code, message }) }
    }

    /// The answer to a line that is too long.
    pub fn request_too_large() -> (response: RpcResponse)
        ensures
            response.wf(),
            response.says() == (ResponseInfo {
                id: None,
                result: Err((-32001, too_large_words(MAX_REQUEST_BYTES as nat))),
            }),
    {
        RpcResponse::error(None, -32001, too_large_message(MAX_REQUEST_BYTES))
    }

    /// The answer to a line that is no request.
    pub fn parse_error(err: &serde_json::Error) -> (response: RpcResponse)
        ensures
            response.wf(),
            response.says() == (ResponseInfo {
                id: None,
                result: Err((-32700, "parse error: "@ + json_error_text(*err))),
            }),
    {
        RpcResponse::error(
            None,
            -32700,
            "parse error: ".to_owned().concat(json_error_message(err).as_str()),
        )
    }

    /// The answer to a call of a method that does not exist.
    pub fn unknown_method(id: Option<serde_json::Value>, method: &str) -> (response: RpcResponse)
        ensures
            response.wf(),
            response.says() == (ResponseInfo {
                id: opt_content(id),
                result: Err((-32601, "unknown method: "@ + method@)),
            }),
    {
        RpcResponse::error(id, -32601, "unknown method: ".to_owned().concat(method))
    }
}

impl RequestError {
    /// The code and the words for the error.
    pub open spec fn body(self) -> (int, Seq<char>) {
        match self {
            RequestError::InvalidParams(err) => (
                -32602,
                "invalid params: "@ + json_error_text(err),
            ),
            RequestError::Coordinator(err) => (-32000, err@.words()),
        }
    }

    /// The answer with this error.
    pub fn into_response(self, id: Option<serde_json::Value>) -> (response: RpcResponse)
        ensures
            response.wf(),
            response.says() == (ResponseInfo { id: opt_content(id), result: Err(self.body()) }),
    {
        match self {
            RequestError::InvalidParams(err) => RpcResponse::error(
                id,
                -32602,
                "invalid params: ".to_owned().concat(json_error_message(&err).as_str()),
            ),
            RequestError::Coordinator(err) => RpcResponse::error(id, -32000, err.message()),
        }
    }
}

/// The answer that an outcome amounts to.
pub open spec fn response_to(
    id: Option<Json>,
    outcome: Result<Json, CoordinatorFailure>,
) -> ResponseInfo {
    match outcome {
        Ok(content) => ResponseInfo { id, result: Ok(content) },
        Err(failure) => ResponseInfo { id, result: Err((-32000, failure.words())) },
    }
}

/// Wraps an outcome into an answer.
pub fn respond(
    id: Option<serde_json::Value>,
    outcome: Result<serde_json::Value, CoordinatorError>,
) -> (response: RpcResponse)
    ensures
        response.wf(),
        response.says() == response_to(opt_content(id), told_client(outcome)),
{
    match outcome {
        Ok(value) => RpcResponse::success(id, value),
        Err(err) => RequestError::Coordinator(err).into_response(id),
    }
}

/// The request was answered with `said`, under some fresh identifier for what it makes.
pub open spec fn handled(
    before: CoordinatorState,
    id: Option<Json>,
    request: Request,
    occasion: Occasion,
    after: CoordinatorState,
    said: ResponseInfo,
) -> bool {
    exists|fresh: Uuid, outcome: Result<Json, CoordinatorFailure>|
        {
            &&& is_v4(fresh)
            &&& #[trigger] answers(before, request, fresh, occasion, after, outcome)
            &&& said == response_to(id, outcome)
            &&& outcome matches Ok(content) ==> payload_is_kept(
                before,
                request,
                fresh,
                occasion.now.secs,
                after.db,
                content,
            )
            &&& worker_is_served(before, request, occasion.now.secs, outcome)
        }
}

/// Answers a request, drawing a fresh identifier for what it makes.
pub fn handle_request(
    id: Option<serde_json::Value>,
    request: Request,
    coordinator: &mut Coordinator,
    occasion: &Occasion,
) -> (response: RpcResponse)
    requires
        old(coordinator).db@.wf(),
    ensures
        final(coordinator).db@.wf(),
        response.wf(),
        handled(
            old(coordinator)@,
            opt_content(id),
            request,
            *occasion,
            final(coordinator)@,
            response.says(),
        ),
        old(coordinator)@.db.is_linked() ==> final(coordinator)@.db.is_linked(),
        is_readable(old(coordinator)@.db) && request.is_readable() ==> is_readable(
            final(coordinator)@.db,
        ),
{
    let fresh = Uuid::new_v4();
    let outcome = answer(fresh, request, coordinator, occasion);
    respond(id, outcome)
}

/// Answers a call of the method that `method` names. `read` is what its parameters were read as,
/// and is there if the name is that of a method.
///
/// A name of no method is answered with the code -32601, parameters that could not be read with
/// -32602 and a request that failed with -32000. Only a request that was read can change what is
/// held.
pub fn handle_call(
    id: Option<serde_json::Value>,
    method: &str,
    read: Option<Result<Request, serde_json::Error>>,
    coordinator: &mut Coordinator,
    occasion: &Occasion,
) -> (response: RpcResponse)
    requires
        old(coordinator).db@.wf(),
        method_called(method@) matches Some(called) ==> (match read {
            Some(Ok(request)) => request.method() == called,
            Some(Err(_)) => called.takes_params(),
            None => false,
        }),
    ensures
        final(coordinator).db@.wf(),
        response.wf(),
        response.says().id == opt_content(id),
        match (method_called(method@), read) {
            (Some(_), Some(Ok(request))) => handled(
                old(coordinator)@,
                opt_content(id),
                request,
                *occasion,
                final(coordinator)@,
                response.says(),
            ),
            (Some(_), Some(Err(err))) => final(coordinator)@ == old(coordinator)@
                && response.says().result == Err::<Json, (int, Seq<char>)>(
                (-32602, "invalid params: "@ + json_error_text(err)),
            ),
            _ => final(coordinator)@ == old(coordinator)@ && response.says().result == Err::<
                Json,
                (int, Seq<char>),
            >((-32601, "unknown method: "@ + method@)),
        },
        response.says().has_code(-32601) <==> method_called(method@) is None,
        response.says().has_code(-32602) <==> method_called(method@) is Some && (read matches Some(
            Err(_),
        )),
        response.says().result is Err ==> response.says().has_code(-32601)
            || response.says().has_code(-32602) || response.says().has_code(-32000),
        old(coordinator)@.db.is_linked() ==> final(coordinator)@.db.is_linked(),
        is_readable(old(coordinator)@.db) && (read matches Some(Ok(request))
            ==> request.is_readable()) ==> is_readable(final(coordinator)@.db),
{
    match (route(method), read) {
        (Some(_), Some(Ok(request))) => handle_request(id, request, coordinator, occasion),
        (Some(_), Some(Err(err))) => RequestError::InvalidParams(err).into_response(id),
        _ => RpcResponse::unknown_method(id, method),
    }
}

/// Who holds a lease on a node if nobody is named.
pub fn default_lease_owner() -> (owner: String)
    ensures
        owner@ == "anonymous"@,
{
    "anonymous".to_owned()
}

} // verus!
