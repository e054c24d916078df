//! What the store holds, and what each change makes of it.

use crate::clock::column_secs;
use crate::error::{DbError, DbFailure};
use crate::graph::{repeats, NodeDefinition};
use crate::ids::{opt_id, Uuid};
use crate::json::{ids_text, json_content, json_text, Json};
use crate::rows::{
    read_event, read_grant, read_lock, read_node, read_opt_json, read_status, AcquireResourceLock,
    DependencyInfo, EventInfo, EventRecord, GrantInfo, LeaseTerms, LockInfo, LockRecord, NodeInfo,
    NodeRecord, NodeStatus, TaskRecord,
};
use crate::text::{opt_text, text_le};
use vstd::prelude::*;

verus! {

/// What the store holds: the rows of each table, oldest first.
#[verifier::ext_equal]
pub struct DbState {
    pub versions: Seq<i64>,
    pub tasks: Seq<TaskRecord>,
    pub nodes: Seq<NodeRecord>,
    pub events: Seq<EventRecord>,
    pub locks: Seq<LockRecord>,
}

/// The row is that of node `node` of task `task`.
pub open spec fn is_node(row: NodeRecord, task: Seq<char>, node: Seq<char>) -> bool {
    row.task_id == task && row.id == node
}

impl DbState {
    /// There is such a task.
    pub open spec fn has_task(self, task: Seq<char>) -> bool {
        exists|i: int| 0 <= i < self.tasks.len() && (#[trigger] self.tasks[i]).id == task
    }

    /// The row of a task.
    pub open spec fn task(self, task: Seq<char>) -> TaskRecord {
        self.tasks[choose|i: int| 0 <= i < self.tasks.len() && (#[trigger] self.tasks[i]).id == task]
    }

    /// The task has such a node.
    pub open spec fn has_node(self, task: Seq<char>, node: Seq<char>) -> bool {
        exists|i: int| 0 <= i < self.nodes.len() && is_node(#[trigger] self.nodes[i], task, node)
    }

    /// The place of a node's row.
    pub open spec fn node_at(self, task: Seq<char>, node: Seq<char>) -> int {
        choose|i: int| 0 <= i < self.nodes.len() && is_node(#[trigger] self.nodes[i], task, node)
    }

    /// The row of a node.
    pub open spec fn node(self, task: Seq<char>, node: Seq<char>) -> NodeRecord {
        self.nodes[self.node_at(task, node)]
    }

    /// Some task has a node with this identifier.
    pub open spec fn has_node_id(self, node: Seq<char>) -> bool {
        exists|i: int| 0 <= i < self.nodes.len() && (#[trigger] self.nodes[i]).id == node
    }

    /// The journal has an entry with this identifier.
    pub open spec fn has_event(self, event: Seq<char>) -> bool {
        exists|i: int| 0 <= i < self.events.len() && (#[trigger] self.events[i]).id == event
    }

    /// The resource has a lock, whether in force or run out.
    pub open spec fn has_lock(self, key: Seq<char>) -> bool {
        exists|i: int| 0 <= i < self.locks.len() && (#[trigger] self.locks[i]).resource_key == key
    }

    /// The place of a resource's lock.
    pub open spec fn lock_at(self, key: Seq<char>) -> int {
        choose|i: int| 0 <= i < self.locks.len() && (#[trigger] self.locks[i]).resource_key == key
    }

    /// The lock of a resource.
    pub open spec fn lock(self, key: Seq<char>) -> LockRecord {
        self.locks[self.lock_at(key)]
    }

    /// No table has a key twice.
    pub open spec fn wf(self) -> bool {
        &&& forall|i: int, j: int|
            0 <= i < j < self.tasks.len() ==> (#[trigger] self.tasks[i]).id != (
            #[trigger] self.tasks[j]).id
        &&& forall|i: int, j: int|
            0 <= i < j < self.nodes.len() ==> (#[trigger] self.nodes[i]).id != (
            #[trigger] self.nodes[j]).id
        &&& forall|i: int, j: int|
            0 <= i < j < self.events.len() ==> (#[trigger] self.events[i]).id != (
            #[trigger] self.events[j]).id
        &&& forall|i: int, j: int|
            0 <= i < j < self.locks.len() ==> (#[trigger] self.locks[i]).resource_key != (
            #[trigger] self.locks[j]).resource_key
    }

    /// No row refers to a missing row, and no node has a status but the four.
    pub open spec fn is_linked(self) -> bool {
        &&& forall|i: int|
            0 <= i < self.nodes.len() ==> self.has_task((#[trigger] self.nodes[i]).task_id)
        &&& forall|i: int|
            0 <= i < self.nodes.len() ==> read_status((#[trigger] self.nodes[i]).status) is Ok
        &&& forall|i: int|
            0 <= i < self.events.len() ==> self.has_task((#[trigger] self.events[i]).task_id)
                && self.has_node_id(self.events[i].node_id)
        &&& forall|i: int|
            0 <= i < self.locks.len() ==> ((#[trigger] self.locks[i]).task_id matches Some(task)
                ==> self.has_task(task))
    }

    /// The store with one node's row replaced.
    pub open spec fn with_node(self, task: Seq<char>, node: Seq<char>, row: NodeRecord) -> DbState {
        DbState { nodes: self.nodes.update(self.node_at(task, node), row), ..self }
    }

    /// The store with one more journal entry.
    pub open spec fn with_event(self, row: EventRecord) -> DbState {
        DbState { events: self.events.push(row), ..self }
    }

    /// The store with one more lock.
    pub open spec fn with_new_lock(self, row: LockRecord) -> DbState {
        DbState { locks: self.locks.push(row), ..self }
    }

    /// The store with one resource's lock replaced.
    pub open spec fn with_lock(self, key: Seq<char>, row: LockRecord) -> DbState {
        DbState { locks: self.locks.update(self.lock_at(key), row), ..self }
    }

    /// The store without one resource's lock.
    pub open spec fn without_lock(self, key: Seq<char>) -> DbState {
        DbState { locks: self.locks.remove(self.lock_at(key)), ..self }
    }
}

/// A node with this status word.
pub open spec fn stands(row: NodeRecord, status: NodeStatus) -> bool {
    row.status == status.word()
}

/// The node runs under this lease.
pub open spec fn runs_under(row: NodeRecord, lease: Seq<char>) -> bool {
    stands(row, NodeStatus::Running) && row.lease_id == Some(lease)
}

/// The row of a task as it is registered.
pub open spec fn registered_task(
    task_id: Uuid,
    goal: Seq<char>,
    context: Json,
    timestamp: Seq<char>,
) -> TaskRecord {
    TaskRecord { id: task_id@, goal, context: json_text(context), created_at: timestamp }
}

/// The row of a node as it is registered.
pub open spec fn registered_node(
    task_id: Uuid,
    node: (Uuid, NodeDefinition),
    now: i64,
) -> NodeRecord {
    NodeRecord {
        id: node.0@,
        task_id: task_id@,
        status: NodeStatus::Pending.word(),
        dependencies: ids_text(node.1.dependencies@),
        payload_schema: json_text(json_content(node.1.payload_schema)),
        result_payload: None,
        acquired_at: None,
        lease_id: None,
        lease_owner: None,
        lease_expires_at: None,
        updated_at: now,
    }
}

/// The rows of several nodes as they are registered.
pub open spec fn registered_nodes(
    task_id: Uuid,
    nodes: Seq<(Uuid, NodeDefinition)>,
    now: i64,
) -> Seq<NodeRecord> {
    nodes.map_values(|node: (Uuid, NodeDefinition)| registered_node(task_id, node, now))
}

/// The node as a worker takes it: running under a new lease.
pub open spec fn acquired(
    row: NodeRecord,
    lease: Seq<char>,
    owner: Seq<char>,
    now: i64,
    expires: i64,
) -> NodeRecord {
    NodeRecord {
        status: NodeStatus::Running.word(),
        acquired_at: Some(now),
        lease_id: Some(lease),
        lease_owner: Some(owner),
        lease_expires_at: Some(expires),
        updated_at: now,
        ..row
    }
}

/// The node with its lease extended.
pub open spec fn extended(row: NodeRecord, now: i64, expires: i64) -> NodeRecord {
    NodeRecord {
        acquired_at: Some(now),
        lease_expires_at: Some(expires),
        updated_at: now,
        ..row
    }
}

/// The node as it ends, with the text of what it ended with.
pub open spec fn ended(
    row: NodeRecord,
    status: NodeStatus,
    payload: Seq<char>,
    now: i64,
) -> NodeRecord {
    NodeRecord {
        status: status.word(),
        result_payload: Some(payload),
        acquired_at: None,
        lease_id: None,
        lease_owner: None,
        lease_expires_at: None,
        updated_at: now,
        ..row
    }
}

/// The node as it goes back to wait for another worker.
pub open spec fn rolled_back(row: NodeRecord, now: i64) -> NodeRecord {
    NodeRecord {
        status: NodeStatus::Pending.word(),
        acquired_at: None,
        lease_id: None,
        lease_owner: None,
        lease_expires_at: None,
        updated_at: now,
        ..row
    }
}

/// The node runs and its time is over: its lease has run out, or it has no expiry and was acquired
/// longer ago than the timeout.
pub open spec fn is_timed_out(row: NodeRecord, now: int, timeout: int) -> bool {
    &&& stands(row, NodeStatus::Running)
    &&& match row.lease_expires_at {
        Some(expires) => expires <= now,
        None => match row.acquired_at {
            Some(acquired) => acquired <= now - timeout,
            None => false,
        },
    }
}

/// The node is among those looked at: those of one task, or all.
pub open spec fn in_scope(row: NodeRecord, task: Option<Seq<char>>) -> bool {
    match task {
        Some(task) => row.task_id == task,
        None => true,
    }
}

/// The node is in scope and its time is over.
pub open spec fn is_overdue(row: NodeRecord, task: Option<Seq<char>>, now: int, timeout: int) -> bool {
    in_scope(row, task) && is_timed_out(row, now, timeout)
}

/// The nodes, those overdue rolled back.
pub open spec fn swept(
    nodes: Seq<NodeRecord>,
    task: Option<Seq<char>>,
    now: i64,
    timeout: int,
) -> Seq<NodeRecord> {
    nodes.map_values(
        |row: NodeRecord|
            if is_overdue(row, task, now as int, timeout) {
                rolled_back(row, now)
            } else {
                row
            },
    )
}

/// How many of the nodes are overdue.
pub open spec fn overdue_count(
    nodes: Seq<NodeRecord>,
    task: Option<Seq<char>>,
    now: int,
    timeout: int,
) -> nat {
    nodes.filter(|row: NodeRecord| is_overdue(row, task, now, timeout)).len()
}

/// The nodes of a task, oldest first.
pub open spec fn nodes_of(nodes: Seq<NodeRecord>, task: Seq<char>) -> Seq<NodeRecord> {
    nodes.filter(|row: NodeRecord| row.task_id == task)
}

/// The nodes of a task that wait for a worker, oldest first.
pub open spec fn pending_of(nodes: Seq<NodeRecord>, task: Seq<char>) -> Seq<NodeRecord> {
    nodes.filter(|row: NodeRecord| row.task_id == task && stands(row, NodeStatus::Pending))
}

impl DbState {
    /// The task has the node and the node is completed.
    pub open spec fn is_completed(self, task: Seq<char>, node: Seq<char>) -> bool {
        self.has_node(task, node) && stands(self.node(task, node), NodeStatus::Completed)
    }

    /// All of these nodes of the task are completed.
    pub open spec fn all_completed(self, task: Seq<char>, nodes: Seq<Uuid>) -> bool {
        forall|i: int| 0 <= i < nodes.len() ==> self.is_completed(task, (#[trigger] nodes[i])@)
    }
}

/// A journal entry.
pub open spec fn journal_entry(
    event_id: Uuid,
    task_id: Uuid,
    node_id: Uuid,
    action_type: Seq<char>,
    payload: Json,
    timestamp: Seq<char>,
) -> EventRecord {
    EventRecord {
        id: event_id@,
        task_id: task_id@,
        node_id: node_id@,
        action_type,
        payload: json_text(payload),
        timestamp,
    }
}

/// An object with one field.
pub open spec fn one_field(key: Seq<char>, content: Json) -> Json {
    Json::Object(Map::empty().insert(key, content))
}

/// There is no such node.
pub open spec fn node_missing(task_id: Uuid, node_id: Uuid) -> DbFailure {
    DbFailure::NotFound("node "@ + node_id@ + " for task "@ + task_id@)
}

/// The node does not run under the lease that was shown.
pub open spec fn lease_missing(task_id: Uuid, node_id: Uuid) -> DbFailure {
    DbFailure::InvalidState(
        "node "@ + node_id@ + " for task "@ + task_id@ + " requires the current RUNNING lease"@,
    )
}

/// The node cannot end from where it stands.
pub open spec fn cannot_end(node_id: Uuid, from: Seq<char>, to: NodeStatus) -> DbFailure {
    DbFailure::InvalidState(
        "node "@ + node_id@ + " cannot transition from "@ + from + " to "@ + to.word(),
    )
}

/// A lease would run out later than the column can say.
pub open spec fn expiry_out_of_range() -> DbFailure {
    DbFailure::Sqlx("lease expiry out of range"@)
}

/// A row with this key is already there.
pub open spec fn key_taken(column: Seq<char>) -> DbFailure {
    DbFailure::Sqlx(
        "error returned from database: (code: 1555) UNIQUE constraint failed: "@ + column,
    )
}

/// A row refers to one that is not there.
pub open spec fn reference_missing() -> DbFailure {
    DbFailure::Sqlx("error returned from database: (code: 787) FOREIGN KEY constraint failed"@)
}

/// The deepest nesting of JSON that the tables take.
pub const MAX_JSON_DEPTH: u32 = 1000;

/// The tables take the content.
pub open spec fn is_storable(content: Json) -> bool {
    content.nests_within(MAX_JSON_DEPTH as nat)
}

/// A row does not meet the condition on one of its columns.
pub open spec fn condition_unmet(condition: Seq<char>) -> DbFailure {
    DbFailure::Sqlx(
        "error returned from database: (code: 275) CHECK constraint failed: "@ + condition,
    )
}

/// A row that was asked for is not there.
pub open spec fn row_not_found() -> DbFailure {
    DbFailure::Sqlx("no rows returned by a query that expected to return at least one row"@)
}

/// A lock as it is granted.
pub open spec fn granted(
    resource_key: Seq<char>,
    lease: Seq<char>,
    owner: Seq<char>,
    provider: Option<Seq<char>>,
    task_id: Option<Uuid>,
    node_id: Option<Uuid>,
    metadata: Json,
    now: i64,
    expires: i64,
) -> LockRecord {
    LockRecord {
        resource_key,
        lease_id: lease,
        owner,
        provider,
        task_id: opt_id(task_id),
        node_id: opt_id(node_id),
        metadata: json_text(metadata),
        acquired_at: now,
        lease_expires_at: expires,
        updated_at: now,
    }
}

/// The lock is in force.
pub open spec fn is_held(row: LockRecord, now: int) -> bool {
    row.lease_expires_at > now
}

/// The resource has a lock, and it is in force.
pub open spec fn is_locked(state: DbState, key: Seq<char>, now: int) -> bool {
    state.has_lock(key) && is_held(state.lock(key), now)
}

/// The locks in force, oldest first.
pub open spec fn held_locks(locks: Seq<LockRecord>, now: int) -> Seq<LockRecord> {
    locks.filter(|row: LockRecord| is_held(row, now))
}

/// The locks are in the order of their keys.
pub open spec fn ordered_by_key(locks: Seq<LockRecord>) -> bool {
    forall|i: int, j: int|
        0 <= i < j < locks.len() ==> text_le(
            (#[trigger] locks[i]).resource_key,
            (#[trigger] locks[j]).resource_key,
        )
}

/// What each row says, or the first failure to read one.
pub open spec fn read_each<R, T>(
    rows: Seq<R>,
    read: spec_fn(R) -> Result<T, DbFailure>,
) -> Result<Seq<T>, DbFailure>
    decreases rows.len(),
{
    if rows.len() == 0 {
        Ok(Seq::empty())
    } else {
        match (read_each(rows.drop_last(), read), read(rows.last())) {
            (Err(failure), _) => Err(failure),
            (_, Err(failure)) => Err(failure),
            (Ok(earlier), Ok(item)) => Ok(earlier.push(item)),
        }
    }
}

/// What several stored locks say, or the first failure to read one.
pub open spec fn read_locks(rows: Seq<LockRecord>) -> Result<Seq<LockInfo>, DbFailure> {
    read_each(rows, |row: LockRecord| read_lock(row))
}

/// What several stored journal entries say, or the first failure to read one.
pub open spec fn read_events(rows: Seq<EventRecord>) -> Result<Seq<EventInfo>, DbFailure> {
    read_each(rows, |row: EventRecord| read_event(row))
}

/// What several stored nodes say, or the first failure to read one.
pub open spec fn read_nodes(rows: Seq<NodeRecord>) -> Result<Seq<NodeInfo>, DbFailure> {
    read_each(rows, |row: NodeRecord| read_node(row))
}

/// What the dependencies that the task has left behind, or the first failure to read one.
pub open spec fn left_behind(state: DbState, task: Seq<char>, nodes: Seq<Uuid>) -> Result<
    Seq<DependencyInfo>,
    DbFailure,
>
    decreases nodes.len(),
{
    if nodes.len() == 0 {
        Ok(Seq::empty())
    } else {
        match left_behind(state, task, nodes.drop_last()) {
            Err(failure) => Err(failure),
            Ok(earlier) => if !state.has_node(task, nodes.last()@) {
                Ok(earlier)
            } else {
                match read_opt_json(state.node(task, nodes.last()@).result_payload) {
                    Err(failure) => Err(failure),
                    Ok(result_payload) => Ok(
                        earlier.push(DependencyInfo { node_id: nodes.last(), result_payload }),
                    ),
                }
            },
        }
    }
}

/// The entry put into a journal that is in the order of its timestamps, behind those that are no
/// later.
pub open spec fn filed(journal: Seq<EventRecord>, entry: EventRecord) -> Seq<EventRecord>
    decreases journal.len(),
{
    if journal.len() == 0 || text_le(journal.last().timestamp, entry.timestamp) {
        journal.push(entry)
    } else {
        filed(journal.drop_last(), entry).push(journal.last())
    }
}

/// The entries of a task in the order of their timestamps, those with one timestamp in the order
/// in which they were written.
pub open spec fn chronicle(events: Seq<EventRecord>, task: Seq<char>) -> Seq<EventRecord>
    decreases events.len(),
{
    if events.len() == 0 {
        Seq::empty()
    } else if events.last().task_id == task {
        filed(chronicle(events.drop_last(), task), events.last())
    } else {
        chronicle(events.drop_last(), task)
    }
}

/// The last `limit` of several entries.
pub open spec fn latest(entries: Seq<EventRecord>, limit: nat) -> Seq<EventRecord> {
    if entries.len() <= limit {
        entries
    } else {
        entries.skip(entries.len() - limit)
    }
}

/// What a fallible change gives back, with the failure in plain terms.
pub open spec fn told<T>(res: Result<T, DbError>) -> Result<T, DbFailure> {
    match res {
        Ok(value) => Ok(value),
        Err(err) => Err(err@),
    }
}

/// As [`told`], for what may be absent and is spoken of by its view.
pub open spec fn told_opt<T: View>(res: Result<Option<T>, DbError>) -> Result<
    Option<T::V>,
    DbFailure,
> {
    match res {
        Ok(Some(value)) => Ok(Some(value@)),
        Ok(None) => Ok(None),
        Err(err) => Err(err@),
    }
}

/// As [`told`], for a list whose items are spoken of by their views.
pub open spec fn told_each<T: View>(res: Result<Vec<T>, DbError>) -> Result<Seq<T::V>, DbFailure> {
    match res {
        Ok(values) => Ok(values@.map_values(|value: T| value@)),
        Err(err) => Err(err@),
    }
}

/// Taking a waiting node under a new lease: what is stored afterwards, and the lease. A node that
/// does not wait is left alone.
pub open spec fn acquire_step(
    state: DbState,
    lease_id: Uuid,
    task_id: Uuid,
    node_id: Uuid,
    owner: Seq<char>,
    ttl: int,
    now: i64,
) -> (DbState, Result<Option<LeaseTerms>, DbFailure>) {
    let row = state.node(task_id@, node_id@);
    if !state.has_node(task_id@, node_id@) || !stands(row, NodeStatus::Pending) {
        (state, Ok(None))
    } else if now + ttl > i64::MAX {
        (state, Err(expiry_out_of_range()))
    } else {
        let expires = (now + ttl) as i64;
        (
            state.with_node(task_id@, node_id@, acquired(row, lease_id@, owner, now, expires)),
            Ok(Some(LeaseTerms { lease_id, lease_owner: owner, lease_expires_at: expires })),
        )
    }
}

/// Extending the lease under which a node runs: what is stored afterwards, and whether the node
/// runs under that lease.
pub open spec fn extend_step(
    state: DbState,
    task_id: Uuid,
    node_id: Uuid,
    lease_id: Uuid,
    ttl: int,
    now: i64,
) -> (DbState, Result<bool, DbFailure>) {
    let row = state.node(task_id@, node_id@);
    if !state.has_node(task_id@, node_id@) || !runs_under(row, lease_id@) {
        (state, Ok(false))
    } else if now + ttl > i64::MAX {
        (state, Err(expiry_out_of_range()))
    } else {
        (
            state.with_node(task_id@, node_id@, extended(row, now, (now + ttl) as i64)),
            Ok(true),
        )
    }
}

/// The journal's word for how a node ends.
pub open spec fn ending_action(to: NodeStatus) -> Seq<char> {
    if to == NodeStatus::Completed {
        "COMPLETE_NODE"@
    } else {
        "FAIL_NODE"@
    }
}

/// The field under which the journal keeps what a node ended with.
pub open spec fn ending_field(to: NodeStatus) -> Seq<char> {
    if to == NodeStatus::Completed {
        "result"@
    } else {
        "error"@
    }
}

/// Ending a node that runs under the lease shown, with one journal entry: what is stored
/// afterwards, and the entry's identifier or the refusal.
pub open spec fn end_step(
    state: DbState,
    event_id: Uuid,
    task_id: Uuid,
    node_id: Uuid,
    lease_id: Uuid,
    to: NodeStatus,
    payload: Json,
    now: i64,
    timestamp: Seq<char>,
) -> (DbState, Result<Uuid, DbFailure>) {
    let row = state.node(task_id@, node_id@);
    if !state.has_node(task_id@, node_id@) {
        (state, Err(node_missing(task_id, node_id)))
    } else if !runs_under(row, lease_id@) {
        (state, Err(cannot_end(node_id, row.status, to)))
    } else if !is_storable(payload) {
        (state, Err(condition_unmet("result_payload IS NULL OR json_valid(result_payload)"@)))
    } else if !is_storable(one_field(ending_field(to), payload)) {
        (state, Err(condition_unmet("json_valid(payload)"@)))
    } else if state.has_event(event_id@) {
        (state, Err(key_taken("event_journal.id"@)))
    } else if !state.has_task(task_id@) {
        (state, Err(reference_missing()))
    } else {
        (
            state.with_node(task_id@, node_id@, ended(row, to, json_text(payload), now)).with_event(
                journal_entry(
                    event_id,
                    task_id,
                    node_id,
                    ending_action(to),
                    one_field(ending_field(to), payload),
                    timestamp,
                ),
            ),
            Ok(event_id),
        )
    }
}

/// Whether an entry about a node may be written by the holder of `lease_id`: always, unless the
/// node runs under another lease.
pub open spec fn lease_check(
    state: DbState,
    task_id: Uuid,
    node_id: Uuid,
    lease_id: Option<Uuid>,
) -> Result<(), DbFailure> {
    let row = state.node(task_id@, node_id@);
    if !state.has_node(task_id@, node_id@) {
        Err(node_missing(task_id, node_id))
    } else if stands(row, NodeStatus::Running) && (lease_id is None || row.lease_id != opt_id(
        lease_id,
    )) {
        Err(lease_missing(task_id, node_id))
    } else {
        Ok(())
    }
}

/// Writing a journal entry about a node: what is stored afterwards, and the entry's identifier or
/// the refusal.
pub open spec fn append_step(
    state: DbState,
    event_id: Uuid,
    task_id: Uuid,
    node_id: Uuid,
    lease_id: Option<Uuid>,
    action_type: Seq<char>,
    payload: Json,
    timestamp: Seq<char>,
) -> (DbState, Result<Uuid, DbFailure>) {
    match lease_check(state, task_id, node_id, lease_id) {
        Err(failure) => (state, Err(failure)),
        Ok(()) => if !is_storable(payload) {
            (state, Err(condition_unmet("json_valid(payload)"@)))
        } else if state.has_event(event_id@) {
            (state, Err(key_taken("event_journal.id"@)))
        } else if !state.has_task(task_id@) {
            (state, Err(reference_missing()))
        } else {
            (
                state.with_event(
                    journal_entry(event_id, task_id, node_id, action_type, payload, timestamp),
                ),
                Ok(event_id),
            )
        },
    }
}

/// Rolling overdue nodes back: what is stored afterwards, and how many there were.
pub open spec fn sweep_step(
    state: DbState,
    task: Option<Seq<char>>,
    timeout: int,
    now: i64,
) -> (DbState, nat) {
    (
        DbState { nodes: swept(state.nodes, task, now, timeout), ..state },
        overdue_count(state.nodes, task, now as int, timeout),
    )
}

/// The node's identifier is taken, by a stored node or by an earlier one of the same task.
pub open spec fn id_taken(state: DbState, nodes: Seq<(Uuid, NodeDefinition)>, i: int) -> bool {
    state.has_node_id(nodes[i].0@) || repeats(nodes, i)
}

/// Why the row of the node at `i` is refused, if it is.
pub open spec fn node_fault(state: DbState, nodes: Seq<(Uuid, NodeDefinition)>, i: int) -> Option<
    DbFailure,
> {
    if !is_storable(json_content(nodes[i].1.payload_schema)) {
        Some(condition_unmet("json_valid(payload_schema)"@))
    } else if id_taken(state, nodes, i) {
        Some(key_taken("dag_nodes.id"@))
    } else {
        None
    }
}

/// Why the first of the nodes before `upto` that is refused is refused, if one is.
pub open spec fn first_fault(
    state: DbState,
    nodes: Seq<(Uuid, NodeDefinition)>,
    upto: int,
) -> Option<DbFailure>
    decreases upto,
{
    if upto <= 0 {
        None
    } else {
        match first_fault(state, nodes, upto - 1) {
            Some(failure) => Some(failure),
            None => node_fault(state, nodes, upto - 1),
        }
    }
}

/// Registering a task with its nodes: what is stored afterwards, and the refusal if there is one.
pub open spec fn register_step(
    state: DbState,
    task_id: Uuid,
    goal: Seq<char>,
    context: Json,
    nodes: Seq<(Uuid, NodeDefinition)>,
    now: i64,
    timestamp: Seq<char>,
) -> (DbState, Result<Uuid, DbFailure>) {
    if !is_storable(context) {
        (state, Err(condition_unmet("json_valid(context)"@)))
    } else if state.has_task(task_id@) {
        (state, Err(key_taken("global_tasks.id"@)))
    } else {
        match first_fault(state, nodes, nodes.len() as int) {
            Some(failure) => (state, Err(failure)),
            None => (
                DbState {
                    tasks: state.tasks.push(registered_task(task_id, goal, context, timestamp)),
                    nodes: state.nodes + registered_nodes(task_id, nodes, now),
                    ..state
                },
                Ok(task_id),
            ),
        }
    }
}

/// The first refusal stays the first, however many nodes follow.
pub(crate) proof fn lemma_first_fault(
    state: DbState,
    nodes: Seq<(Uuid, NodeDefinition)>,
    k: int,
    upto: int,
)
    requires
        0 <= k <= upto,
    ensures
        first_fault(state, nodes, k) is Some ==> first_fault(state, nodes, upto) == first_fault(
            state,
            nodes,
            k,
        ),
    decreases upto,
{
    if k < upto {
        lemma_first_fault(state, nodes, k, upto - 1);
    }
}

/// Where nothing is refused, no node is.
pub(crate) proof fn lemma_no_fault(
    state: DbState,
    nodes: Seq<(Uuid, NodeDefinition)>,
    upto: int,
)
    ensures
        first_fault(state, nodes, upto) is None <==> forall|i: int|
            0 <= i < upto ==> #[trigger] node_fault(state, nodes, i) is None,
    decreases upto,
{
    if upto > 0 {
        lemma_no_fault(state, nodes, upto - 1);
    }
}

/// How long a lock is held: at least a second.
pub open spec fn lock_ttl(ttl: int) -> int {
    if ttl < 1 {
        1
    } else {
        ttl
    }
}

/// Acquiring a lock: what is stored afterwards, and the lock if it is granted. A lock in force is
/// left alone, whoever asks; one that has run out passes to the asker.
pub open spec fn lock_step(
    state: DbState,
    lease_id: Uuid,
    request: AcquireResourceLock,
    now: i64,
) -> (DbState, Result<Option<LockRecord>, DbFailure>) {
    let key = request.resource_key@;
    let expires = now + lock_ttl(column_secs(request.lease_ttl));
    let row = granted(
        key,
        lease_id@,
        request.owner@,
        opt_text(request.provider),
        request.task_id,
        request.node_id,
        json_content(request.metadata),
        now,
        expires as i64,
    );
    if is_locked(state, key, now as int) {
        (state, Ok(None))
    } else if !is_storable(json_content(request.metadata)) {
        if state.has_lock(key) {
            (state, Err(condition_unmet("json_valid(metadata)"@)))
        } else {
            (state, Err(row_not_found()))
        }
    } else if request.task_id matches Some(task_id) && !state.has_task(task_id@) {
        (state, Err(reference_missing()))
    } else if expires > i64::MAX {
        (state, Err(expiry_out_of_range()))
    } else if state.has_lock(key) {
        (state.with_lock(key, row), Ok(Some(row)))
    } else {
        (state.with_new_lock(row), Ok(Some(row)))
    }
}

/// The asker got the lock.
pub open spec fn is_granted(outcome: Result<Option<LockRecord>, DbFailure>) -> bool {
    outcome matches Ok(Some(_))
}

/// What acquiring a lock gives back, once the stored lock is read.
pub open spec fn grant_told(outcome: Result<Option<LockRecord>, DbFailure>) -> Result<
    Option<GrantInfo>,
    DbFailure,
> {
    match outcome {
        Ok(Some(row)) => match read_grant(row) {
            Ok(grant) => Ok(Some(grant)),
            Err(failure) => Err(failure),
        },
        Ok(None) => Ok(None),
        Err(failure) => Err(failure),
    }
}

/// The asker is told of the grant of all that was asked for. Numbers in the metadata that are not
/// held as integers may differ in their last digit; of metadata nested too deep to be read nothing
/// is said.
pub open spec fn is_full_grant(
    outcome: Result<Option<GrantInfo>, DbFailure>,
    lease_id: Uuid,
    request: AcquireResourceLock,
    now: i64,
) -> bool {
    let metadata = json_content(request.metadata);
    &&& metadata.nests_within(127) ==> (outcome matches Ok(Some(grant)) && metadata.alike(
        grant.metadata,
        127,
    ) && grant == (GrantInfo { metadata: grant.metadata, ..full_grant(lease_id, request, now) }))
    &&& metadata.reads_back() ==> outcome == Ok::<Option<GrantInfo>, DbFailure>(
        Some(full_grant(lease_id, request, now)),
    )
}

/// The grant of all that was asked for.
pub open spec fn full_grant(lease_id: Uuid, request: AcquireResourceLock, now: i64) -> GrantInfo {
    GrantInfo {
        resource_key: request.resource_key@,
        lease_id,
        owner: request.owner@,
        provider: opt_text(request.provider),
        task_id: request.task_id,
        node_id: request.node_id,
        metadata: json_content(request.metadata),
        acquired_at: now,
        lease_expires_at: (now + lock_ttl(column_secs(request.lease_ttl))) as i64,
    }
}

/// The asker holds the lock, and it is in force.
pub open spec fn holds_lock(state: DbState, key: Seq<char>, lease: Seq<char>, now: int) -> bool {
    state.has_lock(key) && state.lock(key).lease_id == lease && is_held(state.lock(key), now)
}

/// Extending a lock in force: what is stored afterwards, and whether the asker holds it.
pub open spec fn extend_lock_step(
    state: DbState,
    key: Seq<char>,
    lease_id: Uuid,
    ttl: int,
    now: i64,
) -> (DbState, Result<bool, DbFailure>) {
    let row = state.lock(key);
    if !holds_lock(state, key, lease_id@, now as int) {
        (state, Ok(false))
    } else if now + lock_ttl(ttl) > i64::MAX {
        (state, Err(expiry_out_of_range()))
    } else {
        (
            state.with_lock(
                key,
                LockRecord {
                    lease_expires_at: (now + lock_ttl(ttl)) as i64,
                    updated_at: now,
                    ..row
                },
            ),
            Ok(true),
        )
    }
}

/// Releasing a lock: what is stored afterwards, and whether it was the asker's.
pub open spec fn release_step(state: DbState, key: Seq<char>, lease_id: Uuid) -> (DbState, bool) {
    if state.has_lock(key) && state.lock(key).lease_id == lease_id@ {
        (state.without_lock(key), true)
    } else {
        (state, false)
    }
}

pub(crate) proof fn lemma_task_found(state: DbState, task: Seq<char>, i: int)
    requires
        state.wf(),
        0 <= i < state.tasks.len(),
        state.tasks[i].id == task,
    ensures
        state.has_task(task),
        state.task(task) == state.tasks[i],
{
    let j = choose|j: int| 0 <= j < state.tasks.len() && (#[trigger] state.tasks[j]).id == task;
    assert(j == i);
}

pub(crate) proof fn lemma_node_found(state: DbState, task: Seq<char>, node: Seq<char>, i: int)
    requires
        state.wf(),
        0 <= i < state.nodes.len(),
        is_node(state.nodes[i], task, node),
    ensures
        state.has_node(task, node),
        state.node_at(task, node) == i,
{
    assert(state.nodes[state.node_at(task, node)].id == state.nodes[i].id);
}

pub(crate) proof fn lemma_lock_found(state: DbState, key: Seq<char>, i: int)
    requires
        state.wf(),
        0 <= i < state.locks.len(),
        state.locks[i].resource_key == key,
    ensures
        state.has_lock(key),
        state.lock_at(key) == i,
{
    assert(state.locks[state.lock_at(key)].resource_key == state.locks[i].resource_key);
}

pub(crate) proof fn lemma_nodes_rewritten_wf(state: DbState, nodes: Seq<NodeRecord>)
    requires
        state.wf(),
        nodes.len() == state.nodes.len(),
        forall|i: int|
            0 <= i < nodes.len() ==> {
                &&& (#[trigger] nodes[i]).id == state.nodes[i].id
                &&& nodes[i].task_id == state.nodes[i].task_id
            },
    ensures
        (DbState { nodes, ..state }).wf(),
        state.is_linked() && (forall|i: int|
            0 <= i < nodes.len() ==> read_status((#[trigger] nodes[i]).status) is Ok) ==> (DbState {
            nodes,
            ..state
        }).is_linked(),
{
    let after = DbState { nodes, ..state };
    lemma_references_kept(state, after);
}

/// What a row refers to stays there as long as no task and no node goes.
pub(crate) proof fn lemma_references_kept(state: DbState, after: DbState)
    requires
        state.tasks.len() <= after.tasks.len(),
        forall|i: int|
            0 <= i < state.tasks.len() ==> (#[trigger] after.tasks[i]).id == state.tasks[i].id,
        state.nodes.len() <= after.nodes.len(),
        forall|i: int|
            0 <= i < state.nodes.len() ==> (#[trigger] after.nodes[i]).id == state.nodes[i].id,
    ensures
        forall|task: Seq<char>| #[trigger] state.has_task(task) ==> after.has_task(task),
        forall|node: Seq<char>| #[trigger] state.has_node_id(node) ==> after.has_node_id(node),
{
    assert forall|task: Seq<char>| #[trigger] state.has_task(task) implies after.has_task(task) by {
        let i = choose|i: int| 0 <= i < state.tasks.len() && (#[trigger] state.tasks[i]).id == task;
        assert(after.tasks[i].id == task);
    }
    assert forall|node: Seq<char>| #[trigger] state.has_node_id(node) implies after.has_node_id(
        node,
    ) by {
        let i = choose|i: int| 0 <= i < state.nodes.len() && (#[trigger] state.nodes[i]).id == node;
        assert(after.nodes[i].id == node);
    }
}

pub(crate) proof fn lemma_with_node_wf(
    state: DbState,
    task: Seq<char>,
    node: Seq<char>,
    row: NodeRecord,
)
    requires
        state.wf(),
        state.has_node(task, node),
        row.id == state.node(task, node).id,
        row.task_id == state.node(task, node).task_id,
    ensures
        state.with_node(task, node, row).wf(),
        state.is_linked() && read_status(row.status) is Ok ==> state.with_node(
            task,
            node,
            row,
        ).is_linked(),
{
    lemma_nodes_rewritten_wf(state, state.nodes.update(state.node_at(task, node), row));
}

pub(crate) proof fn lemma_with_event_wf(state: DbState, row: EventRecord)
    requires
        state.wf(),
        !state.has_event(row.id),
    ensures
        state.with_event(row).wf(),
        state.is_linked() && state.has_task(row.task_id) && state.has_node_id(row.node_id)
            ==> state.with_event(row).is_linked(),
{
    let after = state.with_event(row);
    lemma_references_kept(state, after);
    assert forall|i: int| 0 <= i < state.events.len() implies (#[trigger] after.events[i])
        == state.events[i] by {}
}

pub(crate) proof fn lemma_locks_rewritten_wf(state: DbState, locks: Seq<LockRecord>)
    requires
        state.wf(),
        forall|i: int, j: int|
            0 <= i < j < locks.len() ==> (#[trigger] locks[i]).resource_key != (
            #[trigger] locks[j]).resource_key,
    ensures
        (DbState { locks, ..state }).wf(),
        state.is_linked() && (forall|i: int|
            0 <= i < locks.len() ==> ((#[trigger] locks[i]).task_id matches Some(task)
                ==> state.has_task(task))) ==> (DbState { locks, ..state }).is_linked(),
{
    lemma_references_kept(state, DbState { locks, ..state });
}

pub(crate) proof fn lemma_read_next<R, T>(
    rows: Seq<R>,
    read: spec_fn(R) -> Result<T, DbFailure>,
    i: int,
)
    requires
        0 <= i < rows.len(),
    ensures
        read_each(rows.take(i + 1), read) == (match (read_each(rows.take(i), read), read(rows[i])) {
            (Err(failure), _) => Err(failure),
            (_, Err(failure)) => Err(failure),
            (Ok(earlier), Ok(item)) => Ok(earlier.push(item)),
        }),
        read_each(rows.take(i + 1), read) matches Err(failure) ==> read_each(rows, read) == Err::<
            Seq<T>,
            DbFailure,
        >(failure),
    decreases rows.len(),
{
    assert(rows.take(i + 1).drop_last() =~= rows.take(i));
    assert(rows.take(i + 1).last() == rows[i]);
    if i + 1 < rows.len() {
        lemma_read_next(rows.drop_last(), read, i);
        assert(rows.drop_last().take(i + 1) =~= rows.take(i + 1));
    } else {
        assert(rows.take(i + 1) =~= rows);
    }
}

} // verus!
