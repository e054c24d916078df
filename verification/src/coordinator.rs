//! Handing out the nodes of a task to workers, and counting what happens.

use core::time::Duration;
use crate::clock::{column_secs, duration_nanos, Moment};
use crate::db::{Database, LATEST_SCHEMA_VERSION};
use crate::error::{DbError, DbFailure};
use crate::graph::{is_dag, materialised, NodeDefinition};
use crate::ids::{is_v4, Uuid};
use crate::json::{json_content, no_content, no_fields, object_value, put, unsigned_value, Json};
use crate::laws::{keeps_task, lemma_owed_node_is_found};
use crate::queries::lock_listing;
use crate::readable::{context_of_readable_store, is_readable, node_is_readable, owes_node};
use crate::registration::{is_readable_task, registers, schemas_are_kept};
use crate::reports::{node_records, snapshot_told, DatabaseMetrics, SnapshotInfo, TaskSnapshot};
use crate::rows::{
    is_kept, is_kept_there, read_id, read_id_list, read_json, read_node, read_opt_json, read_task,
    AcquireResourceLock, DagNodeRow, DependencyInfo, EventInfo, GlobalTaskSnapshot, GrantInfo,
    LockInfo, NodeRecord, NodeSnapshot, NodeStatus, ResourceLockLease, ResourceLockSnapshot,
};
use crate::state::{
    acquire_step, append_step, chronicle, end_step, extend_lock_step, extend_step, grant_told,
    is_full_grant, is_granted, is_locked, is_node, latest, left_behind, lock_step, one_field,
    pending_of, read_events, release_step, stands, sweep_step, told, told_opt, DbState,
};
use crate::text::opt_text;
use crate::wire::{
    dependencies_value, dependency_json, event_json, events_value, node_json, node_value, task_json,
    task_value,
};
use vstd::prelude::*;
use vstd::string::StringExecFns;

verus! {

/// A request that could not be carried out.
#[derive(Debug)]
pub enum CoordinatorError {
    Db(DbError),
    TaskNotFound(Uuid),
    NodeNotFound { task_id: Uuid, node_id: Uuid },
    NodeNotRunning { task_id: Uuid, node_id: Uuid },
}

/// What a request that could not be carried out failed on.
pub enum CoordinatorFailure {
    Db(DbFailure),
    TaskNotFound(Uuid),
    NodeNotFound { task_id: Uuid, node_id: Uuid },
    NodeNotRunning { task_id: Uuid, node_id: Uuid },
}

impl View for CoordinatorError {
    type V = CoordinatorFailure;

    open spec fn view(&self) -> CoordinatorFailure {
        match *self {
            CoordinatorError::Db(err) => CoordinatorFailure::Db(err@),
            CoordinatorError::TaskNotFound(task_id) => CoordinatorFailure::TaskNotFound(task_id),
            CoordinatorError::NodeNotFound { task_id, node_id } => CoordinatorFailure::NodeNotFound {
                task_id,
                node_id,
            },
            CoordinatorError::NodeNotRunning {
                task_id,
                node_id,
            } => CoordinatorFailure::NodeNotRunning { task_id, node_id },
        }
    }
}

impl CoordinatorFailure {
    /// The failure in words.
    pub open spec fn words(self) -> Seq<char> {
        match self {
            CoordinatorFailure::Db(failure) => failure.words(),
            CoordinatorFailure::TaskNotFound(task_id) => "task not found: "@ + task_id@,
            CoordinatorFailure::NodeNotFound { task_id, node_id } => "node not found: "@ + node_id@
                + " for task "@ + task_id@,
            CoordinatorFailure::NodeNotRunning { task_id, node_id } => "node "@ + node_id@
                + " for task "@ + task_id@ + " is not RUNNING"@,
        }
    }
}

impl CoordinatorError {
    /// The failure in words.
    pub fn message(&self) -> (text: String)
        ensures
            text@ == self@.words(),
    {
        match self {
            CoordinatorError::Db(err) => err.message(),
            CoordinatorError::TaskNotFound(task_id) => "task not found: ".to_owned().concat(
                task_id.to_string().as_str(),
            ),
            CoordinatorError::NodeNotFound { task_id, node_id } => "node not found: ".to_owned().concat(
                node_id.to_string().as_str(),
            ).concat(" for task ").concat(task_id.to_string().as_str()),
            CoordinatorError::NodeNotRunning { task_id, node_id } => "node ".to_owned().concat(
                node_id.to_string().as_str(),
            ).concat(" for task ").concat(task_id.to_string().as_str()).concat(" is not RUNNING"),
        }
    }
}

/// Counts of what was done since the daemon started. They wrap around.
#[derive(Debug, Clone, Copy)]
pub struct RuntimeMetrics {
    pub registered_tasks: u64,
    pub acquire_attempts: u64,
    pub acquired_nodes: u64,
    pub acquisition_latency_micros_total: u64,
    pub committed_events: u64,
    pub heartbeats: u64,
    pub completed_nodes: u64,
    pub failed_nodes: u64,
    pub timeout_rollbacks: u64,
}

/// Hands out the nodes of the tasks in a store.
#[derive(Debug)]
pub struct Coordinator {
    pub db: Database,
    pub running_timeout: Duration,
    pub context_event_limit: u32,
    pub metrics: RuntimeMetrics,
}

/// What a coordinator holds.
#[verifier::ext_equal]
pub struct CoordinatorState {
    pub db: DbState,
    pub running_timeout: Duration,
    pub context_event_limit: u32,
    pub metrics: RuntimeMetrics,
}

impl View for Coordinator {
    type V = CoordinatorState;

    open spec fn view(&self) -> CoordinatorState {
        CoordinatorState {
            db: self.db@,
            running_timeout: self.running_timeout,
            context_event_limit: self.context_event_limit,
            metrics: self.metrics,
        }
    }
}

/// A node that a worker may now work on, with what the worker needs to know.
#[derive(Debug)]
pub struct AcquiredNode {
    pub task_id: Uuid,
    pub node_id: Uuid,
    pub lease_id: Uuid,
    pub lease_owner: String,
    pub lease_expires_at: i64,
    pub context: serde_json::Value,
}

/// What an acquired node says.
pub struct AcquiredInfo {
    pub task_id: Uuid,
    pub node_id: Uuid,
    pub lease_id: Uuid,
    pub lease_owner: Seq<char>,
    pub lease_expires_at: i64,
    pub context: Json,
}

impl View for AcquiredNode {
    type V = AcquiredInfo;

    open spec fn view(&self) -> AcquiredInfo {
        AcquiredInfo {
            task_id: self.task_id,
            node_id: self.node_id,
            lease_id: self.lease_id,
            lease_owner: self.lease_owner@,
            lease_expires_at: self.lease_expires_at,
            context: json_content(self.context),
        }
    }
}

/// That the daemon works, and how it is set up.
#[derive(Debug)]
pub struct HealthStatus {
    pub status: &'static str,
    pub database: &'static str,
    pub running_timeout_secs: u64,
    pub context_event_limit: u32,
}

/// Counts of what was done, at one moment.
#[derive(Debug, Clone, Copy)]
pub struct RuntimeMetricsSnapshot {
    pub registered_tasks: u64,
    pub acquire_attempts: u64,
    pub acquired_nodes: u64,
    pub acquisition_latency_micros_total: u64,
    pub average_acquisition_latency_micros: u64,
    pub committed_events: u64,
    pub heartbeats: u64,
    pub completed_nodes: u64,
    pub failed_nodes: u64,
    pub timeout_rollbacks: u64,
}

/// Counts of what was done and of what the store holds, at one moment.
#[derive(Debug)]
pub struct MetricsSnapshot {
    pub uptime_secs: u64,
    pub running_timeout_secs: u64,
    pub context_event_limit: u32,
    pub runtime: RuntimeMetricsSnapshot,
    pub database: DatabaseMetrics,
}

/// What a fallible request gives back, with the failure in plain terms.
pub open spec fn answered<T>(res: Result<T, CoordinatorError>) -> Result<T, CoordinatorFailure> {
    match res {
        Ok(value) => Ok(value),
        Err(err) => Err(err@),
    }
}

/// As [`answered`], for what is spoken of by its view.
pub open spec fn answered_view<T: View>(res: Result<T, CoordinatorError>) -> Result<
    T::V,
    CoordinatorFailure,
> {
    match res {
        Ok(value) => Ok(value@),
        Err(err) => Err(err@),
    }
}

/// As [`answered_view`], for what may be absent.
pub open spec fn answered_opt<T: View>(res: Result<Option<T>, CoordinatorError>) -> Result<
    Option<T::V>,
    CoordinatorFailure,
> {
    match res {
        Ok(Some(value)) => Ok(Some(value@)),
        Ok(None) => Ok(None),
        Err(err) => Err(err@),
    }
}

/// A failure of the store, as the failure of a request.
pub open spec fn lifted<T>(outcome: Result<T, DbFailure>) -> Result<T, CoordinatorFailure> {
    match outcome {
        Ok(value) => Ok(value),
        Err(failure) => Err(CoordinatorFailure::Db(failure)),
    }
}

/// What a worker is told along with a node, or the first failure to read it.
pub open spec fn context_of(state: DbState, task_id: Uuid, row: NodeRecord, limit: u32) -> Result<
    Json,
    CoordinatorFailure,
> {
    if !state.has_task(task_id@) {
        Err(CoordinatorFailure::TaskNotFound(task_id))
    } else {
        match (read_id(row.id), read_id_list(row.dependencies)) {
            (Err(failure), _) => Err(CoordinatorFailure::Db(failure)),
            (_, Err(failure)) => Err(CoordinatorFailure::Db(failure)),
            (Ok(_), Ok(dependencies)) => match (
                left_behind(state, task_id@, dependencies),
                read_events(latest(chronicle(state.events, task_id@), limit as nat)),
                read_task(state.task(task_id@)),
                read_node(row),
            ) {
                (Err(failure), _, _, _) => Err(CoordinatorFailure::Db(failure)),
                (_, Err(failure), _, _) => Err(CoordinatorFailure::Db(failure)),
                (_, _, Err(failure), _) => Err(CoordinatorFailure::Db(failure)),
                (_, _, _, Err(failure)) => Err(CoordinatorFailure::Db(failure)),
                (Ok(results), Ok(events), Ok(task), Ok(node)) => Ok(
                    Json::Object(
                        no_content().insert("task"@, task_json(task)).insert(
                            "node"@,
                            node_json(node),
                        ).insert(
                            "completed_dependencies"@,
                            Json::Array(
                                results.map_values(|result: DependencyInfo| dependency_json(result)),
                            ),
                        ).insert("event_journal_limit"@, Json::Integer(limit as int)).insert(
                            "event_journal"@,
                            Json::Array(events.map_values(|event: EventInfo| event_json(event))),
                        ),
                    ),
                ),
            },
        }
    }
}

/// The first of the waiting nodes that can be taken: its dependencies are all completed, and it
/// is found waiting under its canonical identifier. Or the first failure to read one.
pub open spec fn first_runnable(state: DbState, task_id: Uuid, pending: Seq<NodeRecord>) -> Result<
    Option<Uuid>,
    DbFailure,
>
    decreases pending.len(),
{
    if pending.len() == 0 {
        Ok(None)
    } else {
        let rest = first_runnable(state, task_id, pending.drop_first());
        match read_id_list(pending[0].dependencies) {
            Err(failure) => Err(failure),
            Ok(dependencies) => if !state.all_completed(task_id@, dependencies) {
                rest
            } else {
                match read_id(pending[0].id) {
                    Err(failure) => Err(failure),
                    Ok(node_id) => if waits(state, task_id@, node_id@) {
                        Ok(Some(node_id))
                    } else {
                        rest
                    },
                }
            },
        }
    }
}

/// The task has the node, and it waits for a worker.
pub open spec fn waits(state: DbState, task: Seq<char>, node: Seq<char>) -> bool {
    state.has_node(task, node) && stands(state.node(task, node), NodeStatus::Pending)
}

/// The store once the overdue nodes of a task are rolled back.
pub open spec fn after_sweep(state: CoordinatorState, task_id: Uuid, now: i64) -> DbState {
    sweep_step(state.db, Some(task_id@), column_secs(state.running_timeout), now).0
}

/// The number of microseconds, as far as a counter can hold it.
pub open spec fn counter_micros(micros: u128) -> u64 {
    if micros <= u64::MAX {
        micros as u64
    } else {
        u64::MAX
    }
}

impl RuntimeMetrics {
    /// One more attempt to acquire a node.
    pub open spec fn attempted(self) -> RuntimeMetrics {
        RuntimeMetrics { acquire_attempts: self.acquire_attempts.wrapping_add(1), ..self }
    }

    /// Several more nodes rolled back.
    pub open spec fn rolled_back(self, count: nat) -> RuntimeMetrics {
        RuntimeMetrics {
            timeout_rollbacks: self.timeout_rollbacks.wrapping_add(count as u64),
            ..self
        }
    }

    /// More time spent acquiring nodes.
    pub open spec fn spent(self, micros: u128) -> RuntimeMetrics {
        RuntimeMetrics {
            acquisition_latency_micros_total: self.acquisition_latency_micros_total.wrapping_add(
                counter_micros(micros),
            ),
            ..self
        }
    }

    /// One more node acquired.
    pub open spec fn acquired(self) -> RuntimeMetrics {
        RuntimeMetrics { acquired_nodes: self.acquired_nodes.wrapping_add(1), ..self }
    }

    /// One more task registered.
    pub open spec fn registered(self) -> RuntimeMetrics {
        RuntimeMetrics { registered_tasks: self.registered_tasks.wrapping_add(1), ..self }
    }

    /// One more event committed.
    pub open spec fn committed(self) -> RuntimeMetrics {
        RuntimeMetrics { committed_events: self.committed_events.wrapping_add(1), ..self }
    }

    /// One more heartbeat.
    pub open spec fn beaten(self) -> RuntimeMetrics {
        RuntimeMetrics { heartbeats: self.heartbeats.wrapping_add(1), ..self }
    }

    /// One more node ended.
    pub open spec fn ended(self, to: NodeStatus) -> RuntimeMetrics {
        if to == NodeStatus::Completed {
            RuntimeMetrics { completed_nodes: self.completed_nodes.wrapping_add(1), ..self }
        } else {
            RuntimeMetrics { failed_nodes: self.failed_nodes.wrapping_add(1), ..self }
        }
    }

    /// Nothing counted yet.
    pub fn new() -> (metrics: RuntimeMetrics)
        ensures
            metrics == no_activity(),
    {
        RuntimeMetrics {
            registered_tasks: 0,
            acquire_attempts: 0,
            acquired_nodes: 0,
            acquisition_latency_micros_total: 0,
            committed_events: 0,
            heartbeats: 0,
            completed_nodes: 0,
            failed_nodes: 0,
            timeout_rollbacks: 0,
        }
    }
}

/// Nothing counted yet.
pub open spec fn no_activity() -> RuntimeMetrics {
    RuntimeMetrics {
        registered_tasks: 0,
        acquire_attempts: 0,
        acquired_nodes: 0,
        acquisition_latency_micros_total: 0,
        committed_events: 0,
        heartbeats: 0,
        completed_nodes: 0,
        failed_nodes: 0,
        timeout_rollbacks: 0,
    }
}

/// Acquiring the next node of a task: what is held afterwards, and the node or the failure.
///
/// Overdue nodes of the task are rolled back first. Then the first runnable node is taken under
/// the new lease. A failure to put its context together comes after the node was taken.
pub open spec fn acquire_next_step(
    state: CoordinatorState,
    lease_id: Uuid,
    task_id: Uuid,
    owner: Seq<char>,
    elapsed_micros: u128,
    now: i64,
) -> (CoordinatorState, Result<Option<AcquiredInfo>, CoordinatorFailure>) {
    let attempted = CoordinatorState { metrics: state.metrics.attempted(), ..state };
    if !state.db.has_task(task_id@) {
        (attempted, Err(CoordinatorFailure::TaskNotFound(task_id)))
    } else {
        let ttl = column_secs(state.running_timeout);
        let (db, count) = sweep_step(state.db, Some(task_id@), ttl, now);
        let swept = CoordinatorState {
            db,
            metrics: state.metrics.attempted().rolled_back(count),
            ..state
        };
        match first_runnable(db, task_id, pending_of(db.nodes, task_id@)) {
            Err(failure) => (swept, Err(CoordinatorFailure::Db(failure))),
            Ok(None) => (
                CoordinatorState { metrics: swept.metrics.spent(elapsed_micros), ..swept },
                Ok(None),
            ),
            Ok(Some(node_id)) => match acquire_step(db, lease_id, task_id, node_id, owner, ttl, now) {
                (taken, Ok(Some(lease))) => (
                    CoordinatorState {
                        db: taken,
                        metrics: swept.metrics.acquired().spent(elapsed_micros),
                        ..swept
                    },
                    match context_of(
                        taken,
                        task_id,
                        taken.node(task_id@, node_id@),
                        state.context_event_limit,
                    ) {
                        Ok(context) => Ok(
                            Some(
                                AcquiredInfo {
                                    task_id,
                                    node_id,
                                    lease_id,
                                    lease_owner: owner,
                                    lease_expires_at: lease.lease_expires_at,
                                    context,
                                },
                            ),
                        ),
                        Err(failure) => Err(failure),
                    },
                ),
                (taken, Ok(None)) => (CoordinatorState { db: taken, ..swept }, Ok(None)),
                (taken, Err(failure)) => (
                    CoordinatorState { db: taken, ..swept },
                    Err(CoordinatorFailure::Db(failure)),
                ),
            },
        }
    }
}

/// Writing an event about a node: what is held afterwards, and the event or the failure.
pub open spec fn commit_event_step(
    state: CoordinatorState,
    event_id: Uuid,
    task_id: Uuid,
    node_id: Uuid,
    lease_id: Option<Uuid>,
    action_type: Option<Seq<char>>,
    payload: Json,
    timestamp: Seq<char>,
) -> (CoordinatorState, Result<Uuid, CoordinatorFailure>) {
    if !state.db.has_node(task_id@, node_id@) {
        (state, Err(CoordinatorFailure::NodeNotFound { task_id, node_id }))
    } else {
        let action = match action_type {
            Some(action) => action,
            None => "COMMIT_EVENT"@,
        };
        let (db, outcome) = append_step(
            state.db,
            event_id,
            task_id,
            node_id,
            lease_id,
            action,
            payload,
            timestamp,
        );
        match outcome {
            Ok(_) => (
                CoordinatorState { db, metrics: state.metrics.committed(), ..state },
                lifted(outcome),
            ),
            Err(_) => (CoordinatorState { db, ..state }, lifted(outcome)),
        }
    }
}

/// Extending the lease on a node: what is held afterwards, and the failure if there is one.
pub open spec fn heartbeat_step(
    state: CoordinatorState,
    task_id: Uuid,
    node_id: Uuid,
    lease_id: Uuid,
    now: i64,
) -> (CoordinatorState, Result<(), CoordinatorFailure>) {
    if !state.db.has_node(task_id@, node_id@) {
        (state, Err(CoordinatorFailure::NodeNotFound { task_id, node_id }))
    } else {
        let (db, outcome) = extend_step(
            state.db,
            task_id,
            node_id,
            lease_id,
            column_secs(state.running_timeout),
            now,
        );
        match outcome {
            Ok(true) => (
                CoordinatorState { db, metrics: state.metrics.beaten(), ..state },
                Ok(()),
            ),
            Ok(false) => (
                CoordinatorState { db, ..state },
                Err(CoordinatorFailure::NodeNotRunning { task_id, node_id }),
            ),
            Err(failure) => (
                CoordinatorState { db, ..state },
                Err(CoordinatorFailure::Db(failure)),
            ),
        }
    }
}

/// Ending a node: what is held afterwards, and the journal entry or the failure.
pub open spec fn end_node_step(
    state: CoordinatorState,
    event_id: Uuid,
    task_id: Uuid,
    node_id: Uuid,
    lease_id: Uuid,
    to: NodeStatus,
    payload: Json,
    now: i64,
    timestamp: Seq<char>,
) -> (CoordinatorState, Result<Uuid, CoordinatorFailure>) {
    if !state.db.has_node(task_id@, node_id@) {
        (state, Err(CoordinatorFailure::NodeNotFound { task_id, node_id }))
    } else {
        let (db, outcome) = end_step(
            state.db,
            event_id,
            task_id,
            node_id,
            lease_id,
            to,
            payload,
            now,
            timestamp,
        );
        match outcome {
            Ok(_) => (
                CoordinatorState { db, metrics: state.metrics.ended(to), ..state },
                lifted(outcome),
            ),
            Err(_) => (CoordinatorState { db, ..state }, lifted(outcome)),
        }
    }
}

/// Registering a task with what was asked for, under these identifiers.
pub open spec fn registers_task(
    before: CoordinatorState,
    task_id: Uuid,
    goal: Seq<char>,
    context: Json,
    nodes: Seq<(Uuid, NodeDefinition)>,
    now: i64,
    timestamp: Seq<char>,
    after: CoordinatorState,
    outcome: Result<Uuid, CoordinatorFailure>,
) -> bool {
    exists|stored: Result<Uuid, DbFailure>|
        {
            &&& #[trigger] registers(
                before.db,
                task_id,
                goal,
                context,
                nodes,
                now,
                timestamp,
                after.db,
                stored,
            )
            &&& outcome == lifted(stored)
            &&& after == (CoordinatorState {
                db: after.db,
                metrics: if stored is Ok {
                    before.metrics.registered()
                } else {
                    before.metrics
                },
                ..before
            })
        }
}

/// Rolling back overdue nodes of every task: what is held afterwards, and how many there were.
pub open spec fn sweep_all_step(state: CoordinatorState, now: i64) -> (CoordinatorState, nat) {
    let (db, count) = sweep_step(state.db, None, column_secs(state.running_timeout), now);
    (CoordinatorState { db, metrics: state.metrics.rolled_back(count), ..state }, count)
}

impl Coordinator {
    /// A coordinator over a store that has counted nothing yet.
    pub fn new(db: Database, running_timeout: Duration, context_event_limit: u32) -> (coordinator:
        Coordinator)
        ensures
            coordinator@ == (CoordinatorState {
                db: db@,
                running_timeout,
                context_event_limit,
                metrics: no_activity(),
            }),
    {
        Coordinator { db, running_timeout, context_event_limit, metrics: RuntimeMetrics::new() }
    }

    /// Registers a task under a fresh identifier.
    pub fn register_task(
        &mut self,
        goal: String,
        context: serde_json::Value,
        initial_nodes: Vec<NodeDefinition>,
        now: &Moment,
    ) -> (res: Result<Uuid, CoordinatorError>)
        requires
            old(self).db@.wf(),
        ensures
            final(self).db@.wf(),
            exists|task_id: Uuid, nodes: Seq<(Uuid, NodeDefinition)>|
                is_v4(task_id) && materialised(initial_nodes@, nodes) && #[trigger] registers_task(
                    old(self)@,
                    task_id,
                    goal@,
                    json_content(context),
                    nodes,
                    now.secs,
                    now.timestamp@,
                    final(self)@,
                    answered(res),
                ) && (res is Ok ==> is_dag(nodes) && (old(self)@.db.is_linked() ==> keeps_task(
                    final(self)@.db,
                    old(self)@.db.nodes.len() as int,
                    task_id,
                    nodes,
                ))),
            res is Ok ==> is_kept(
                json_content(context),
                read_json(final(self)@.db.tasks.last().context),
            ),
            old(self)@.db.is_linked() ==> final(self)@.db.is_linked(),
            res is Ok ==> schemas_are_kept(
                initial_nodes@,
                final(self)@.db.nodes,
                old(self)@.db.nodes.len() as int,
            ),
            is_readable(old(self)@.db) && is_readable_task(json_content(context), initial_nodes@)
                ==> is_readable(final(self)@.db),
    {
        let task_id = Uuid::new_v4();
        self.register_task_as(task_id, goal, context, initial_nodes, now)
    }

    /// Registers a task under the identifier `task_id`.
    pub fn register_task_as(
        &mut self,
        task_id: Uuid,
        goal: String,
        context: serde_json::Value,
        initial_nodes: Vec<NodeDefinition>,
        now: &Moment,
    ) -> (res: Result<Uuid, CoordinatorError>)
        requires
            old(self).db@.wf(),
        ensures
            final(self).db@.wf(),
            exists|nodes: Seq<(Uuid, NodeDefinition)>|
                #[trigger] materialised(initial_nodes@, nodes) && registers_task(
                    old(self)@,
                    task_id,
                    goal@,
                    json_content(context),
                    nodes,
                    now.secs,
                    now.timestamp@,
                    final(self)@,
                    answered(res),
                ) && (res is Ok ==> is_dag(nodes) && (old(self)@.db.is_linked() ==> keeps_task(
                    final(self)@.db,
                    old(self)@.db.nodes.len() as int,
                    task_id,
                    nodes,
                ))),
            res is Ok ==> is_kept(
                json_content(context),
                read_json(final(self)@.db.tasks.last().context),
            ),
            old(self)@.db.is_linked() ==> final(self)@.db.is_linked(),
            res is Ok ==> schemas_are_kept(
                initial_nodes@,
                final(self)@.db.nodes,
                old(self)@.db.nodes.len() as int,
            ),
            is_readable(old(self)@.db) && is_readable_task(json_content(context), initial_nodes@)
                ==> is_readable(final(self)@.db),
    {
        let ghost before = self@;
        let ghost goal_text = goal@;
        let ghost content = json_content(context);
        let stored = self.db.register_named_task(task_id, goal, context, initial_nodes, now);
        let ghost after_db = self.db@;
        let ghost nodes = choose|nodes: Seq<(Uuid, NodeDefinition)>|
            #[trigger] materialised(initial_nodes@, nodes) && registers(
                before.db,
                task_id,
                goal_text,
                content,
                nodes,
                now.secs,
                now.timestamp@,
                after_db,
                told(stored),
            ) && (stored is Ok ==> is_dag(nodes) && (before.db.is_linked() ==> keeps_task(
                after_db,
                before.db.nodes.len() as int,
                task_id,
                nodes,
            )));
        match stored {
            Ok(id) => {
                self.metrics.registered_tasks = self.metrics.registered_tasks.wrapping_add(1);
                assert(registers(
                    before.db,
                    task_id,
                    goal_text,
                    content,
                    nodes,
                    now.secs,
                    now.timestamp@,
                    self@.db,
                    Ok::<Uuid, DbFailure>(id),
                ));
                Ok(id)
            },
            Err(err) => {
                assert(registers(
                    before.db,
                    task_id,
                    goal_text,
                    content,
                    nodes,
                    now.secs,
                    now.timestamp@,
                    self@.db,
                    Err::<Uuid, DbFailure>(err@),
                ));
                Err(CoordinatorError::Db(err))
            },
        }
    }

    /// Takes the next runnable node of a task for `lease_owner`, under a fresh lease.
    ///
    /// `elapsed_micros` is the time that the caller has spent on the acquisition.
    pub fn acquire_next_node(
        &mut self,
        task_id: Uuid,
        lease_owner: String,
        elapsed_micros: u128,
        now: i64,
    ) -> (res: Result<Option<AcquiredNode>, CoordinatorError>)
        requires
            old(self).db@.wf(),
        ensures
            final(self).db@.wf(),
            exists|lease_id: Uuid|
                is_v4(lease_id) && #[trigger] acquire_next_step(
                    old(self)@,
                    lease_id,
                    task_id,
                    lease_owner@,
                    elapsed_micros,
                    now,
                ) == (final(self)@, answered_opt(res)),
            old(self)@.db.is_linked() ==> final(self)@.db.is_linked(),
            is_readable(old(self)@.db) ==> is_readable(final(self)@.db),
            owes_node(old(self)@, task_id, now) ==> (res matches Ok(Some(_))),
    {
        let lease_id = Uuid::new_v4();
        self.acquire_next_node_as(lease_id, task_id, lease_owner, elapsed_micros, now)
    }

    /// Takes the next runnable node of a task for `lease_owner`, under the lease `lease_id`.
    pub fn acquire_next_node_as(
        &mut self,
        lease_id: Uuid,
        task_id: Uuid,
        lease_owner: String,
        elapsed_micros: u128,
        now: i64,
    ) -> (res: Result<Option<AcquiredNode>, CoordinatorError>)
        requires
            old(self).db@.wf(),
        ensures
            final(self).db@.wf(),
            acquire_next_step(
                old(self)@,
                lease_id,
                task_id,
                lease_owner@,
                elapsed_micros,
                now,
            ) == (final(self)@, answered_opt(res)),
            old(self)@.db.is_linked() ==> final(self)@.db.is_linked(),
            is_readable(old(self)@.db) ==> is_readable(final(self)@.db),
            owes_node(old(self)@, task_id, now) ==> (res matches Ok(Some(_))),
    {
        self.metrics.acquire_attempts = self.metrics.acquire_attempts.wrapping_add(1);
        self.ensure_task_exists(task_id)?;
        let running_timeout = self.running_timeout;
        let reset_count: u64 = self.db.reset_timed_out_nodes(Some(task_id), running_timeout, now);
        self.record_timeout_rollbacks(reset_count);
        let ghost swept = self@;
        let pending_nodes = self.db.pending_nodes(task_id);
        let ghost pending = pending_of(swept.db.nodes, task_id@);
        let mut i: usize = 0;
        assert(pending.skip(0) =~= pending);
        let ghost owed = owes_node(old(self)@, task_id, now);
        proof {
            if owed {
                lemma_owed_node_is_found(old(self)@, task_id, now);
            }
        }
        while i < pending_nodes.len()
            invariant
                i <= pending_nodes.len(),
                self@ == swept,
                swept.db.wf(),
                pending == node_records(pending_nodes@),
                running_timeout == swept.running_timeout,
                swept == (CoordinatorState {
                    db: after_sweep(old(self)@, task_id, now),
                    metrics: old(self)@.metrics.attempted().rolled_back(
                        sweep_step(
                            old(self)@.db,
                            Some(task_id@),
                            column_secs(old(self)@.running_timeout),
                            now,
                        ).1,
                    ),
                    ..old(self)@
                }),
                old(self)@.db.has_task(task_id@),
                pending == pending_of(swept.db.nodes, task_id@),
                first_runnable(swept.db, task_id, pending) == first_runnable(
                    swept.db,
                    task_id,
                    pending.skip(i as int),
                ),
                old(self)@.db.is_linked() ==> swept.db.is_linked(),
                is_readable(old(self)@.db) ==> is_readable(swept.db),
                owed == owes_node(old(self)@, task_id, now),
                owed ==> (first_runnable(swept.db, task_id, pending) matches Ok(Some(_))),
            decreases pending_nodes.len() - i,
        {
            proof {
                assert(pending[i as int] == pending_nodes@[i as int]@);
                assert(pending.skip(i as int)[0] == pending[i as int]);
                assert(pending.skip(i as int).drop_first() =~= pending.skip(i + 1));
            }
            let node = &pending_nodes[i];
            let dependencies = match node.dependencies() {
                Ok(dependencies) => dependencies,
                Err(err) => {
                    return Err(CoordinatorError::Db(err));
                },
            };
            if self.db.dependencies_completed(task_id, &dependencies) {
                let node_id = match node.id() {
                    Ok(node_id) => node_id,
                    Err(err) => {
                        return Err(CoordinatorError::Db(err));
                    },
                };
                let marked = self.db.mark_node_running_as(
                    lease_id,
                    task_id,
                    node_id,
                    lease_owner.as_str(),
                    running_timeout,
                    now,
                );
                match marked {
                    Err(err) => {
                        return Err(CoordinatorError::Db(err));
                    },
                    Ok(None) => {},
                    Ok(Some(lease)) => {
                        self.metrics.acquired_nodes = self.metrics.acquired_nodes.wrapping_add(1);
                        self.record_acquisition_latency(elapsed_micros);
                        proof {
                            lemma_taken_stays(
                                swept.db,
                                lease_id,
                                task_id,
                                node_id,
                                lease_owner@,
                                column_secs(running_timeout),
                                now,
                            );
                        }
                        let running_node = match self.db.fetch_node(task_id, node_id) {
                            Some(row) => row,
                            None => {
                                return Err(CoordinatorError::NodeNotFound { task_id, node_id });
                            },
                        };
                        proof {
                            if is_readable(self@.db) {
                                let at = self@.db.node_at(task_id@, node_id@);
                                assert(node_is_readable(self@.db.nodes[at]));
                                lemma_still_a_task(old(self)@.db, self@.db, task_id@);
                                context_of_readable_store(
                                    self@.db,
                                    task_id,
                                    running_node@,
                                    self.context_event_limit,
                                );
                            }
                        }
                        let context = self.synthesise_context(task_id, running_node)?;
                        return Ok(
                            Some(
                                AcquiredNode {
                                    task_id,
                                    node_id,
                                    lease_id: lease.lease_id,
                                    lease_owner: lease.lease_owner,
                                    lease_expires_at: lease.lease_expires_at,
                                    context,
                                },
                            ),
                        );
                    },
                }
            }
            i = i + 1;
        }
        self.record_acquisition_latency(elapsed_micros);
        Ok(None)
    }

    /// Writes an event about a node into the journal.
    pub fn commit_event(
        &mut self,
        task_id: Uuid,
        node_id: Uuid,
        lease_id: Option<Uuid>,
        action_type: Option<String>,
        payload: serde_json::Value,
        timestamp: &str,
    ) -> (res: Result<Uuid, CoordinatorError>)
        requires
            old(self).db@.wf(),
        ensures
            final(self).db@.wf(),
            exists|event_id: Uuid|
                is_v4(event_id) && #[trigger] commit_event_step(
                    old(self)@,
                    event_id,
                    task_id,
                    node_id,
                    lease_id,
                    opt_text(action_type),
                    json_content(payload),
                    timestamp@,
                ) == (final(self)@, answered(res)),
            res is Ok ==> is_kept(
                json_content(payload),
                read_json(final(self)@.db.events.last().payload),
            ),
            old(self)@.db.is_linked() ==> final(self)@.db.is_linked(),
            is_readable(old(self)@.db) && json_content(payload).nests_within(127) ==> is_readable(
                final(self)@.db,
            ),
    {
        let event_id = Uuid::new_v4();
        self.commit_event_as(event_id, task_id, node_id, lease_id, action_type, payload, timestamp)
    }

    /// Writes the event `event_id` about a node into the journal.
    pub fn commit_event_as(
        &mut self,
        event_id: Uuid,
        task_id: Uuid,
        node_id: Uuid,
        lease_id: Option<Uuid>,
        action_type: Option<String>,
        payload: serde_json::Value,
        timestamp: &str,
    ) -> (res: Result<Uuid, CoordinatorError>)
        requires
            old(self).db@.wf(),
        ensures
            final(self).db@.wf(),
            commit_event_step(
                old(self)@,
                event_id,
                task_id,
                node_id,
                lease_id,
                opt_text(action_type),
                json_content(payload),
                timestamp@,
            ) == (final(self)@, answered(res)),
            res is Ok ==> is_kept(
                json_content(payload),
                read_json(final(self)@.db.events.last().payload),
            ),
            old(self)@.db.is_linked() ==> final(self)@.db.is_linked(),
            is_readable(old(self)@.db) && json_content(payload).nests_within(127) ==> is_readable(
                final(self)@.db,
            ),
    {
        self.ensure_node_exists(task_id, node_id)?;
        let action = match action_type {
            Some(action) => action,
            None => "COMMIT_EVENT".to_owned(),
        };
        let stored = self.db.append_event_as(
            event_id,
            task_id,
            node_id,
            lease_id,
            action.as_str(),
            payload,
            timestamp,
        );
        match stored {
            Ok(id) => {
                self.metrics.committed_events = self.metrics.committed_events.wrapping_add(1);
                Ok(id)
            },
            Err(err) => Err(CoordinatorError::Db(err)),
        }
    }

    /// Extends the lease under which a node runs.
    pub fn heartbeat_node(
        &mut self,
        task_id: Uuid,
        node_id: Uuid,
        lease_id: Uuid,
        now: i64,
    ) -> (res: Result<(), CoordinatorError>)
        requires
            old(self).db@.wf(),
        ensures
            final(self).db@.wf(),
            heartbeat_step(old(self)@, task_id, node_id, lease_id, now) == (
                final(self)@,
                answered(res),
            ),
            old(self)@.db.is_linked() ==> final(self)@.db.is_linked(),
            is_readable(old(self)@.db) ==> is_readable(final(self)@.db),
    {
        self.ensure_node_exists(task_id, node_id)?;
        let running_timeout = self.running_timeout;
        match self.db.heartbeat_node(task_id, node_id, lease_id, running_timeout, now) {
            Ok(true) => {
                self.metrics.heartbeats = self.metrics.heartbeats.wrapping_add(1);
                Ok(())
            },
            Ok(false) => Err(CoordinatorError::NodeNotRunning { task_id, node_id }),
            Err(err) => Err(CoordinatorError::Db(err)),
        }
    }

    /// Completes a node that runs under the lease, with a fresh journal entry.
    pub fn complete_node(
        &mut self,
        task_id: Uuid,
        node_id: Uuid,
        lease_id: Uuid,
        result_payload: serde_json::Value,
        now: &Moment,
    ) -> (res: Result<Uuid, CoordinatorError>)
        requires
            old(self).db@.wf(),
        ensures
            final(self).db@.wf(),
            exists|event_id: Uuid|
                is_v4(event_id) && #[trigger] end_node_step(
                    old(self)@,
                    event_id,
                    task_id,
                    node_id,
                    lease_id,
                    NodeStatus::Completed,
                    json_content(result_payload),
                    now.secs,
                    now.timestamp@,
                ) == (final(self)@, answered(res)),
            res is Ok ==> is_kept_there(
                json_content(result_payload),
                read_opt_json(final(self)@.db.node(task_id@, node_id@).result_payload),
            ),
            res is Ok ==> is_kept(
                one_field("result"@, json_content(result_payload)),
                read_json(final(self)@.db.events.last().payload),
            ),
            old(self)@.db.is_linked() ==> final(self)@.db.is_linked(),
            is_readable(old(self)@.db) && json_content(result_payload).nests_within(126)
                ==> is_readable(final(self)@.db),
    {
        let event_id = Uuid::new_v4();
        self.complete_node_as(event_id, task_id, node_id, lease_id, result_payload, now)
    }

    /// Completes a node that runs under the lease, with the journal entry `event_id`.
    pub fn complete_node_as(
        &mut self,
        event_id: Uuid,
        task_id: Uuid,
        node_id: Uuid,
        lease_id: Uuid,
        result_payload: serde_json::Value,
        now: &Moment,
    ) -> (res: Result<Uuid, CoordinatorError>)
        requires
            old(self).db@.wf(),
        ensures
            final(self).db@.wf(),
            end_node_step(
                old(self)@,
                event_id,
                task_id,
                node_id,
                lease_id,
                NodeStatus::Completed,
                json_content(result_payload),
                now.secs,
                now.timestamp@,
            ) == (final(self)@, answered(res)),
            res is Ok ==> is_kept_there(
                json_content(result_payload),
                read_opt_json(final(self)@.db.node(task_id@, node_id@).result_payload),
            ),
            res is Ok ==> is_kept(
                one_field("result"@, json_content(result_payload)),
                read_json(final(self)@.db.events.last().payload),
            ),
            old(self)@.db.is_linked() ==> final(self)@.db.is_linked(),
            is_readable(old(self)@.db) && json_content(result_payload).nests_within(126)
                ==> is_readable(final(self)@.db),
    {
        self.ensure_node_exists(task_id, node_id)?;
        match self.db.complete_node_as(event_id, task_id, node_id, lease_id, result_payload, now) {
            Ok(id) => {
                self.metrics.completed_nodes = self.metrics.completed_nodes.wrapping_add(1);
                Ok(id)
            },
            Err(err) => Err(CoordinatorError::Db(err)),
        }
    }

    /// Fails a node that runs under the lease, with a fresh journal entry.
    pub fn fail_node(
        &mut self,
        task_id: Uuid,
        node_id: Uuid,
        lease_id: Uuid,
        error_payload: serde_json::Value,
        now: &Moment,
    ) -> (res: Result<Uuid, CoordinatorError>)
        requires
            old(self).db@.wf(),
        ensures
            final(self).db@.wf(),
            exists|event_id: Uuid|
                is_v4(event_id) && #[trigger] end_node_step(
                    old(self)@,
                    event_id,
                    task_id,
                    node_id,
                    lease_id,
                    NodeStatus::Failed,
                    json_content(error_payload),
                    now.secs,
                    now.timestamp@,
                ) == (final(self)@, answered(res)),
            res is Ok ==> is_kept_there(
                json_content(error_payload),
                read_opt_json(final(self)@.db.node(task_id@, node_id@).result_payload),
            ),
            res is Ok ==> is_kept(
                one_field("error"@, json_content(error_payload)),
                read_json(final(self)@.db.events.last().payload),
            ),
            old(self)@.db.is_linked() ==> final(self)@.db.is_linked(),
            is_readable(old(self)@.db) && json_content(error_payload).nests_within(126)
                ==> is_readable(final(self)@.db),
    {
        let event_id = Uuid::new_v4();
        self.fail_node_as(event_id, task_id, node_id, lease_id, error_payload, now)
    }

    /// Fails a node that runs under the lease, with the journal entry `event_id`.
    pub fn fail_node_as(
        &mut self,
        event_id: Uuid,
        task_id: Uuid,
        node_id: Uuid,
        lease_id: Uuid,
        error_payload: serde_json::Value,
        now: &Moment,
    ) -> (res: Result<Uuid, CoordinatorError>)
        requires
            old(self).db@.wf(),
        ensures
            final(self).db@.wf(),
            end_node_step(
                old(self)@,
                event_id,
                task_id,
                node_id,
                lease_id,
                NodeStatus::Failed,
                json_content(error_payload),
                now.secs,
                now.timestamp@,
            ) == (final(self)@, answered(res)),
            res is Ok ==> is_kept_there(
                json_content(error_payload),
                read_opt_json(final(self)@.db.node(task_id@, node_id@).result_payload),
            ),
            res is Ok ==> is_kept(
                one_field("error"@, json_content(error_payload)),
                read_json(final(self)@.db.events.last().payload),
            ),
            old(self)@.db.is_linked() ==> final(self)@.db.is_linked(),
            is_readable(old(self)@.db) && json_content(error_payload).nests_within(126)
                ==> is_readable(final(self)@.db),
    {
        self.ensure_node_exists(task_id, node_id)?;
        match self.db.fail_node_as(event_id, task_id, node_id, lease_id, error_payload, now) {
            Ok(id) => {
                self.metrics.failed_nodes = self.metrics.failed_nodes.wrapping_add(1);
                Ok(id)
            },
            Err(err) => Err(CoordinatorError::Db(err)),
        }
    }

    /// Where a task and its nodes stand.
    pub fn task_status(&self, task_id: Uuid) -> (res: Result<TaskSnapshot, CoordinatorError>)
        requires
            self.db@.wf(),
        ensures
            status_told(self.db@, task_id, answered_view(res)),
    {
        match self.db.task_snapshot(task_id) {
            Ok(Some(snapshot)) => {
                assert(snapshot_told(
                    self.db@,
                    task_id@,
                    Ok::<Option<SnapshotInfo>, DbFailure>(Some(snapshot@)),
                ));
                Ok(snapshot)
            },
            Ok(None) => {
                assert(snapshot_told(self.db@, task_id@, Ok::<Option<SnapshotInfo>, DbFailure>(None)));
                Err(CoordinatorError::TaskNotFound(task_id))
            },
            Err(err) => {
                assert(snapshot_told(
                    self.db@,
                    task_id@,
                    Err::<Option<SnapshotInfo>, DbFailure>(err@),
                ));
                Err(CoordinatorError::Db(err))
            },
        }
    }

    /// Rolls back the overdue nodes of every task, and counts them.
    pub fn reset_timed_out_nodes(&mut self, now: i64) -> (count: u64)
        requires
            old(self).db@.wf(),
        ensures
            final(self).db@.wf(),
            sweep_all_step(old(self)@, now) == (final(self)@, count as nat),
            old(self)@.db.is_linked() ==> final(self)@.db.is_linked(),
            is_readable(old(self)@.db) ==> is_readable(final(self)@.db),
    {
        let running_timeout = self.running_timeout;
        let count: u64 = self.db.reset_timed_out_nodes(None, running_timeout, now);
        self.record_timeout_rollbacks(count);
        count
    }

    /// That the daemon works, provided that the store answered.
    pub fn health(&self, ping: Result<(), DbError>) -> (res: Result<HealthStatus, CoordinatorError>)
        ensures
            match ping {
                Ok(()) => res matches Ok(health) && health.status@ == "ok"@ && health.database@
                    == "ok"@ && health.running_timeout_secs == duration_nanos(self.running_timeout)
                    / 1_000_000_000 && health.context_event_limit == self.context_event_limit,
                Err(err) => res == Err::<HealthStatus, CoordinatorError>(CoordinatorError::Db(err)),
            },
    {
        match ping {
            Ok(()) => Ok(
                HealthStatus {
                    status: "ok",
                    database: "ok",
                    running_timeout_secs: self.running_timeout.as_secs(),
                    context_event_limit: self.context_event_limit,
                },
            ),
            Err(err) => Err(CoordinatorError::Db(err)),
        }
    }

    /// For how long a lease is given.
    pub fn running_timeout(&self) -> (timeout: Duration)
        ensures
            timeout == self.running_timeout,
    {
        self.running_timeout
    }

    /// Counts of what was done and of what the store holds.
    pub fn metrics(&self, uptime_secs: u64, now: i64) -> (metrics: MetricsSnapshot)
        ensures
            metrics_told(self@, uptime_secs, now as int, metrics),
    {
        let runtime = self.runtime_metrics_snapshot();
        let database = self.db.metrics(now);
        MetricsSnapshot {
            uptime_secs,
            running_timeout_secs: self.running_timeout.as_secs(),
            context_event_limit: self.context_event_limit,
            runtime,
            database,
        }
    }

    fn runtime_metrics_snapshot(&self) -> (snapshot: RuntimeMetricsSnapshot)
        ensures
            snapshot == runtime_of(self.metrics),
    {
        let attempts: u64 = self.metrics.acquire_attempts;
        let total: u64 = self.metrics.acquisition_latency_micros_total;
        let average: u64 = if attempts == 0 {
            0
        } else {
            total / attempts
        };
        RuntimeMetricsSnapshot {
            registered_tasks: self.metrics.registered_tasks,
            acquire_attempts: attempts,
            acquired_nodes: self.metrics.acquired_nodes,
            acquisition_latency_micros_total: total,
            average_acquisition_latency_micros: average,
            committed_events: self.metrics.committed_events,
            heartbeats: self.metrics.heartbeats,
            completed_nodes: self.metrics.completed_nodes,
            failed_nodes: self.metrics.failed_nodes,
            timeout_rollbacks: self.metrics.timeout_rollbacks,
        }
    }

    fn record_acquisition_latency(&mut self, elapsed_micros: u128)
        ensures
            final(self).db == old(self).db,
            final(self)@ == (CoordinatorState {
                metrics: old(self)@.metrics.spent(elapsed_micros),
                ..old(self)@
            }),
    {
        let micros: u64 = if elapsed_micros <= u64::MAX as u128 {
            elapsed_micros as u64
        } else {
            u64::MAX
        };
        self.metrics.acquisition_latency_micros_total =
        self.metrics.acquisition_latency_micros_total.wrapping_add(micros);
    }

    fn record_timeout_rollbacks(&mut self, count: u64)
        ensures
            final(self).db == old(self).db,
            final(self)@ == (CoordinatorState {
                metrics: old(self)@.metrics.rolled_back(count as nat),
                ..old(self)@
            }),
    {
        self.metrics.timeout_rollbacks = self.metrics.timeout_rollbacks.wrapping_add(count);
    }

    fn ensure_task_exists(&self, task_id: Uuid) -> (res: Result<(), CoordinatorError>)
        requires
            self.db@.wf(),
        ensures
            answered(res) == (if self.db@.has_task(task_id@) {
                Ok::<(), CoordinatorFailure>(())
            } else {
                Err::<(), CoordinatorFailure>(CoordinatorFailure::TaskNotFound(task_id))
            }),
    {
        if self.db.fetch_task(task_id).is_some() {
            Ok(())
        } else {
            Err(CoordinatorError::TaskNotFound(task_id))
        }
    }

    fn ensure_node_exists(&self, task_id: Uuid, node_id: Uuid) -> (res: Result<
        (),
        CoordinatorError,
    >)
        requires
            self.db@.wf(),
        ensures
            answered(res) == (if self.db@.has_node(task_id@, node_id@) {
                Ok::<(), CoordinatorFailure>(())
            } else {
                Err::<(), CoordinatorFailure>(CoordinatorFailure::NodeNotFound { task_id, node_id })
            }),
    {
        if self.db.fetch_node(task_id, node_id).is_some() {
            Ok(())
        } else {
            Err(CoordinatorError::NodeNotFound { task_id, node_id })
        }
    }

    /// What a worker is told along with a node.
    fn synthesise_context(&self, task_id: Uuid, node: DagNodeRow) -> (res: Result<
        serde_json::Value,
        CoordinatorError,
    >)
        requires
            self.db@.wf(),
        ensures
            match res {
                Ok(value) => context_of(self.db@, task_id, node@, self.context_event_limit) == Ok::<
                    Json,
                    CoordinatorFailure,
                >(json_content(value)),
                Err(err) => context_of(self.db@, task_id, node@, self.context_event_limit)
                    == Err::<Json, CoordinatorFailure>(err@),
            },
    {
        let task = match self.db.fetch_task(task_id) {
            Some(task) => task,
            None => {
                return Err(CoordinatorError::TaskNotFound(task_id));
            },
        };
        match node.id() {
            Ok(_) => {},
            Err(err) => {
                return Err(CoordinatorError::Db(err));
            },
        }
        let dependencies = match node.dependencies() {
            Ok(dependencies) => dependencies,
            Err(err) => {
                return Err(CoordinatorError::Db(err));
            },
        };
        let results = match self.db.dependency_results(task_id, &dependencies) {
            Ok(results) => results,
            Err(err) => {
                return Err(CoordinatorError::Db(err));
            },
        };
        let events = match self.db.events_for_task(task_id, self.context_event_limit) {
            Ok(events) => events,
            Err(err) => {
                return Err(CoordinatorError::Db(err));
            },
        };
        let task = match GlobalTaskSnapshot::try_from(task) {
            Ok(task) => task,
            Err(err) => {
                return Err(CoordinatorError::Db(err));
            },
        };
        let node = match NodeSnapshot::try_from(node) {
            Ok(node) => node,
            Err(err) => {
                return Err(CoordinatorError::Db(err));
            },
        };
        let mut fields = no_fields();
        put(&mut fields, "task", task_value(task));
        put(&mut fields, "node", node_value(node));
        put(&mut fields, "completed_dependencies", dependencies_value(results));
        put(
            &mut fields,
            "event_journal_limit",
            unsigned_value(self.context_event_limit as u64),
        );
        put(&mut fields, "event_journal", events_value(events));
        Ok(object_value(fields))
    }

    /// Acquires a lock on a resource under a fresh lease, unless it is locked.
    pub fn acquire_resource_lock(&mut self, request: AcquireResourceLock, now: i64) -> (res: Result<
        Option<ResourceLockLease>,
        CoordinatorError,
    >)
        requires
            old(self).db@.wf(),
        ensures
            final(self).db@.wf(),
            is_locked(old(self)@.db, request.resource_key@, now as int) ==> final(self)@ == old(
                self,
            )@ && (res matches Ok(None)),
            res matches Ok(Some(_)) ==> is_locked(
                final(self)@.db,
                request.resource_key@,
                now as int,
            ),
            exists|lease_id: Uuid| {
                &&& is_v4(lease_id)
                &&& #[trigger] lock_resource_step(old(self)@, lease_id, request, now) == (
                    final(self)@,
                    answered_opt(res),
                )
                &&& is_granted(lock_step(old(self)@.db, lease_id, request, now).1)
                    ==> is_granted_in_full(answered_opt(res), lease_id, request, now)
            },
            old(self)@.db.is_linked() ==> final(self)@.db.is_linked(),
            is_readable(old(self)@.db) && json_content(request.metadata).nests_within(127)
                ==> is_readable(final(self)@.db),
    {
        let lease_id = Uuid::new_v4();
        self.acquire_resource_lock_as(lease_id, request, now)
    }

    /// Acquires a lock on a resource under the lease `lease_id`, unless it is locked.
    pub fn acquire_resource_lock_as(
        &mut self,
        lease_id: Uuid,
        request: AcquireResourceLock,
        now: i64,
    ) -> (res: Result<Option<ResourceLockLease>, CoordinatorError>)
        requires
            old(self).db@.wf(),
        ensures
            final(self).db@.wf(),
            is_locked(old(self)@.db, request.resource_key@, now as int) ==> final(self)@ == old(
                self,
            )@ && (res matches Ok(None)),
            res matches Ok(Some(_)) ==> is_locked(
                final(self)@.db,
                request.resource_key@,
                now as int,
            ),
            lock_resource_step(old(self)@, lease_id, request, now) == (
                final(self)@,
                answered_opt(res),
            ),
            is_granted(lock_step(old(self)@.db, lease_id, request, now).1) ==> is_granted_in_full(
                answered_opt(res),
                lease_id,
                request,
                now,
            ),
            old(self)@.db.is_linked() ==> final(self)@.db.is_linked(),
            is_readable(old(self)@.db) && json_content(request.metadata).nests_within(127)
                ==> is_readable(final(self)@.db),
    {
        let ghost asked = request;
        let stored = self.db.acquire_resource_lock_as(lease_id, request, now);
        assert(is_granted(lock_step(old(self)@.db, lease_id, asked, now).1) ==> is_full_grant(
            told_opt(stored),
            lease_id,
            asked,
            now,
        ));
        match stored {
            Ok(grant) => Ok(grant),
            Err(err) => Err(CoordinatorError::Db(err)),
        }
    }

    /// Extends a lock in force; says whether the lease holds it.
    pub fn heartbeat_resource_lock(
        &mut self,
        resource_key: &str,
        lease_id: Uuid,
        lease_ttl: Duration,
        now: i64,
    ) -> (res: Result<bool, CoordinatorError>)
        requires
            old(self).db@.wf(),
        ensures
            final(self).db@.wf(),
            heartbeat_lock_step(old(self)@, resource_key@, lease_id, column_secs(lease_ttl), now)
                == (final(self)@, answered(res)),
            old(self)@.db.is_linked() ==> final(self)@.db.is_linked(),
            is_readable(old(self)@.db) ==> is_readable(final(self)@.db),
    {
        match self.db.heartbeat_resource_lock(resource_key, lease_id, lease_ttl, now) {
            Ok(held) => Ok(held),
            Err(err) => Err(CoordinatorError::Db(err)),
        }
    }

    /// Releases a lock; says whether the lease was its own.
    pub fn release_resource_lock(&mut self, resource_key: &str, lease_id: Uuid) -> (released: bool)
        requires
            old(self).db@.wf(),
        ensures
            final(self).db@.wf(),
            release_lock_step(old(self)@, resource_key@, lease_id) == (final(self)@, released),
            old(self)@.db.is_linked() ==> final(self)@.db.is_linked(),
            is_readable(old(self)@.db) ==> is_readable(final(self)@.db),
    {
        self.db.release_resource_lock(resource_key, lease_id)
    }

    /// The locks in force, in the order of their keys.
    pub fn list_resource_locks(&self, now: i64) -> (res: Result<
        Vec<ResourceLockSnapshot>,
        CoordinatorError,
    >)
        ensures
            locks_told(self.db@, now as int, listed_locks(res)),
    {
        match self.db.list_resource_locks(now) {
            Ok(locks) => {
                assert(lock_listing(
                    self.db@.locks,
                    now as int,
                    Ok::<Seq<LockInfo>, DbFailure>(
                        locks@.map_values(|lock: ResourceLockSnapshot| lock@),
                    ),
                ));
                Ok(locks)
            },
            Err(err) => {
                assert(lock_listing(
                    self.db@.locks,
                    now as int,
                    Err::<Seq<LockInfo>, DbFailure>(err@),
                ));
                Err(CoordinatorError::Db(err))
            },
        }
    }
}

/// `outcome` is what asking for the status of a task gives.
pub open spec fn status_told(
    state: DbState,
    task_id: Uuid,
    outcome: Result<SnapshotInfo, CoordinatorFailure>,
) -> bool {
    exists|snapshot: Result<Option<SnapshotInfo>, DbFailure>|
        #[trigger] snapshot_told(state, task_id@, snapshot) && outcome == (match snapshot {
            Ok(Some(info)) => Ok(info),
            Ok(None) => Err(CoordinatorFailure::TaskNotFound(task_id)),
            Err(failure) => Err(CoordinatorFailure::Db(failure)),
        })
}

/// The counters at one moment, with the average time of an attempt to acquire a node.
pub open spec fn runtime_of(metrics: RuntimeMetrics) -> RuntimeMetricsSnapshot {
    RuntimeMetricsSnapshot {
        registered_tasks: metrics.registered_tasks,
        acquire_attempts: metrics.acquire_attempts,
        acquired_nodes: metrics.acquired_nodes,
        acquisition_latency_micros_total: metrics.acquisition_latency_micros_total,
        average_acquisition_latency_micros: if metrics.acquire_attempts == 0 {
            0
        } else {
            (metrics.acquisition_latency_micros_total / metrics.acquire_attempts) as u64
        },
        committed_events: metrics.committed_events,
        heartbeats: metrics.heartbeats,
        completed_nodes: metrics.completed_nodes,
        failed_nodes: metrics.failed_nodes,
        timeout_rollbacks: metrics.timeout_rollbacks,
    }
}

/// `metrics` is what asking for metrics gives.
pub open spec fn metrics_told(
    state: CoordinatorState,
    uptime_secs: u64,
    now: int,
    metrics: MetricsSnapshot,
) -> bool {
    &&& metrics.uptime_secs == uptime_secs
    &&& metrics.running_timeout_secs == duration_nanos(state.running_timeout) / 1_000_000_000
    &&& metrics.context_event_limit == state.context_event_limit
    &&& metrics.runtime == runtime_of(state.metrics)
    &&& metrics.database.describes(state.db, LATEST_SCHEMA_VERSION, now)
}

/// Acquiring a lock: what is held afterwards, and the grant.
pub open spec fn lock_resource_step(
    state: CoordinatorState,
    lease_id: Uuid,
    request: AcquireResourceLock,
    now: i64,
) -> (CoordinatorState, Result<Option<GrantInfo>, CoordinatorFailure>) {
    let (db, outcome) = lock_step(state.db, lease_id, request, now);
    (CoordinatorState { db, ..state }, lifted(grant_told(outcome)))
}

/// As [`is_full_grant`], for a request.
pub open spec fn is_granted_in_full(
    outcome: Result<Option<GrantInfo>, CoordinatorFailure>,
    lease_id: Uuid,
    request: AcquireResourceLock,
    now: i64,
) -> bool {
    exists|stored: Result<Option<GrantInfo>, DbFailure>|
        outcome == lifted(stored) && #[trigger] is_full_grant(stored, lease_id, request, now)
}

/// Extending a lock: what is held afterwards, and whether the lease holds it.
pub open spec fn heartbeat_lock_step(
    state: CoordinatorState,
    key: Seq<char>,
    lease_id: Uuid,
    ttl: int,
    now: i64,
) -> (CoordinatorState, Result<bool, CoordinatorFailure>) {
    let (db, outcome) = extend_lock_step(state.db, key, lease_id, ttl, now);
    (CoordinatorState { db, ..state }, lifted(outcome))
}

/// Releasing a lock: what is held afterwards, and whether the lease was its own.
pub open spec fn release_lock_step(
    state: CoordinatorState,
    key: Seq<char>,
    lease_id: Uuid,
) -> (CoordinatorState, bool) {
    let (db, released) = release_step(state.db, key, lease_id);
    (CoordinatorState { db, ..state }, released)
}

/// What listing locks gives back, in plain terms.
pub open spec fn listed_locks(res: Result<Vec<ResourceLockSnapshot>, CoordinatorError>) -> Result<
    Seq<LockInfo>,
    CoordinatorFailure,
> {
    match res {
        Ok(locks) => Ok(locks@.map_values(|lock: ResourceLockSnapshot| lock@)),
        Err(err) => Err(err@),
    }
}

/// `outcome` is what listing locks gives.
pub open spec fn locks_told(
    state: DbState,
    now: int,
    outcome: Result<Seq<LockInfo>, CoordinatorFailure>,
) -> bool {
    exists|listing: Result<Seq<LockInfo>, DbFailure>|
        #[trigger] lock_listing(state.locks, now, listing) && outcome == lifted(listing)
}

/// A task is there as long as the tasks are as they were.
proof fn lemma_still_a_task(before: DbState, after: DbState, task: Seq<char>)
    requires
        before.has_task(task),
        after.tasks == before.tasks,
    ensures
        after.has_task(task),
{
    let i = choose|i: int| 0 <= i < before.tasks.len() && (#[trigger] before.tasks[i]).id == task;
    assert(after.tasks[i].id == task);
}

/// A node that was taken is still there.
proof fn lemma_taken_stays(
    state: DbState,
    lease_id: Uuid,
    task_id: Uuid,
    node_id: Uuid,
    owner: Seq<char>,
    ttl: int,
    now: i64,
)
    requires
        state.wf(),
        state.has_node(task_id@, node_id@),
    ensures
        acquire_step(state, lease_id, task_id, node_id, owner, ttl, now).0.has_node(
            task_id@,
            node_id@,
        ),
{
    let after = acquire_step(state, lease_id, task_id, node_id, owner, ttl, now).0;
    let i = state.node_at(task_id@, node_id@);
    assert(is_node(after.nodes[i], task_id@, node_id@));
}

} // verus!
