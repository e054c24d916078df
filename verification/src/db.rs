//! The store: tasks, their nodes, the journal and the locks on resources.

use core::time::Duration;
use crate::clock::{column_secs, secs_for_column, Moment};
use crate::error::DbError;
use crate::ids::{is_v4, opt_id, opt_to_string, Uuid};
use crate::json::{json_content, nests_no_deeper, no_fields, object_value, put, write_value};
use crate::order::{event_records, lemma_filter_next, lock_records};
use crate::readable::{
    is_readable, lemma_acquire_readable, lemma_append_readable, lemma_end_readable,
    lemma_extend_readable, lemma_lock_changed_readable, lemma_lock_readable, lemma_one_field_nests,
    sweep_keeps_store_readable,
};
use crate::reports::node_records;
use crate::rows::{
    is_kept, is_kept_there, lemma_kept, read_json, read_opt_json, status_words_differ,
    AcquireResourceLock, DagNodeRow, EventJournalRow, GlobalTaskRow, LeaseInfo, NodeRecord,
    NodeStatus, ResourceLockLease, ResourceLockRow, TaskRecord,
};
use crate::state::{
    acquire_step, append_step, condition_unmet, end_step, ending_field, expiry_out_of_range,
    extend_lock_step, extend_step, grant_told, is_full_grant, is_granted, is_locked, is_node,
    is_overdue, key_taken, lease_check, lemma_lock_found, lemma_locks_rewritten_wf,
    lemma_node_found, lemma_nodes_rewritten_wf, lemma_task_found, lemma_with_event_wf,
    lemma_with_node_wf, lock_step, node_missing, nodes_of, one_field, overdue_count, pending_of,
    reference_missing, release_step, runs_under, stands, sweep_step, swept, told, told_opt,
    MAX_JSON_DEPTH, DbState,
};
use crate::text::{opt_text, same};
use vstd::prelude::*;
use vstd::string::StringExecFns;

verus! {

/// The schema version that this library works with.
pub const LATEST_SCHEMA_VERSION: i64 = 2;

/// The rows of the store, oldest first in each table.
#[derive(Debug)]
pub struct Database {
    pub schema_versions: Vec<i64>,
    pub tasks: Vec<GlobalTaskRow>,
    pub nodes: Vec<DagNodeRow>,
    pub events: Vec<EventJournalRow>,
    pub locks: Vec<ResourceLockRow>,
}

/// What several stored tasks hold.
pub open spec fn task_records(rows: Seq<GlobalTaskRow>) -> Seq<TaskRecord> {
    rows.map_values(|row: GlobalTaskRow| row@)
}

impl View for Database {
    type V = DbState;

    open spec fn view(&self) -> DbState {
        DbState {
            versions: self.schema_versions@,
            tasks: task_records(self.tasks@),
            nodes: node_records(self.nodes@),
            events: event_records(self.events@),
            locks: lock_records(self.locks@),
        }
    }
}

/// When a lease taken now for `ttl` seconds runs out.
fn expiry(now: i64, ttl: i64) -> (res: Result<i64, DbError>)
    requires
        ttl >= 0,
    ensures
        match res {
            Ok(expires) => expires == now + ttl,
            Err(err) => now + ttl > i64::MAX && err@ == expiry_out_of_range(),
        },
{
    if now <= i64::MAX - ttl {
        Ok(now + ttl)
    } else {
        Err(DbError::Sqlx("lease expiry out of range".to_owned()))
    }
}

/// Whether the node runs under the lease.
fn runs_under_lease(row: &DagNodeRow, lease_id: Uuid) -> (res: bool)
    ensures
        res == runs_under(row@, lease_id@),
{
    same(row.status.as_str(), NodeStatus::Running.as_str()) && match &row.lease_id {
        Some(lease) => same(lease.as_str(), lease_id.to_string().as_str()),
        None => false,
    }
}

/// There is no such node.
fn node_not_found(task_id: Uuid, node_id: Uuid) -> (err: DbError)
    ensures
        err@ == node_missing(task_id, node_id),
{
    DbError::NotFound(
        "node ".to_owned().concat(node_id.to_string().as_str()).concat(" for task ").concat(
            task_id.to_string().as_str(),
        ),
    )
}

/// A row with this key is already there.
pub(crate) fn duplicate_key(column: &str) -> (err: DbError)
    ensures
        err@ == key_taken(column@),
{
    DbError::Sqlx(
        "error returned from database: (code: 1555) UNIQUE constraint failed: ".to_owned().concat(
            column,
        ),
    )
}

/// A row does not meet the condition on one of its columns.
pub(crate) fn unmet_condition(condition: &str) -> (err: DbError)
    ensures
        err@ == condition_unmet(condition@),
{
    DbError::Sqlx(
        "error returned from database: (code: 275) CHECK constraint failed: ".to_owned().concat(
            condition,
        ),
    )
}

/// Rewriting a node in place keeps the references to it.
proof fn lemma_still_there(
    before: DbState,
    after: DbState,
    task: Seq<char>,
    node: Seq<char>,
    i: int,
)
    requires
        before.has_task(task),
        after.tasks == before.tasks,
        after.events == before.events,
        0 <= i < before.nodes.len(),
        i < after.nodes.len(),
        is_node(before.nodes[i], task, node),
        is_node(after.nodes[i], task, node),
    ensures
        after.has_task(task),
        after.has_node_id(node),
        forall|event: Seq<char>| #[trigger]
            after.has_event(event) ==> before.has_event(event),
{
    let t = choose|t: int| 0 <= t < before.tasks.len() && (#[trigger] before.tasks[t]).id == task;
    assert(after.tasks[t].id == task);
    assert(after.nodes[i].id == node);
    assert forall|event: Seq<char>| #[trigger] after.has_event(event) implies before.has_event(
        event,
    ) by {
        let e = choose|e: int| 0 <= e < after.events.len() && (#[trigger] after.events[e]).id == event;
        assert(before.events[e].id == event);
    }
}

impl Database {
    pub(crate) fn find_task(&self, task: &str) -> (found: Option<usize>)
        requires
            self@.wf(),
        ensures
            match found {
                Some(i) => i < self.tasks.len() && self@.has_task(task@) && self@.task(task@)
                    == self.tasks@[i as int]@,
                None => !self@.has_task(task@),
            },
    {
        let mut i: usize = 0;
        while i < self.tasks.len()
            invariant
                i <= self.tasks.len(),
                self@.wf(),
                forall|j: int| 0 <= j < i ==> (#[trigger] self@.tasks[j]).id != task@,
            decreases self.tasks.len() - i,
        {
            assert(self@.tasks[i as int] == self.tasks@[i as int]@);
            if same(self.tasks[i].id.as_str(), task) {
                proof {
                    lemma_task_found(self@, task@, i as int);
                }
                return Some(i);
            }
            i = i + 1;
        }
        None
    }

    pub(crate) fn find_node(&self, task: &str, node: &str) -> (found: Option<usize>)
        requires
            self@.wf(),
        ensures
            match found {
                Some(i) => i < self.nodes.len() && self@.has_node(task@, node@) && self@.node_at(
                    task@,
                    node@,
                ) == i && self@.node(task@, node@) == self.nodes@[i as int]@,
                None => !self@.has_node(task@, node@),
            },
    {
        let mut i: usize = 0;
        while i < self.nodes.len()
            invariant
                i <= self.nodes.len(),
                self@.wf(),
                forall|j: int| 0 <= j < i ==> !is_node(#[trigger] self@.nodes[j], task@, node@),
            decreases self.nodes.len() - i,
        {
            assert(self@.nodes[i as int] == self.nodes@[i as int]@);
            if same(self.nodes[i].task_id.as_str(), task) && same(self.nodes[i].id.as_str(), node) {
                proof {
                    lemma_node_found(self@, task@, node@, i as int);
                }
                return Some(i);
            }
            i = i + 1;
        }
        None
    }

    fn has_event_row(&self, event: &str) -> (found: bool)
        ensures
            found == self@.has_event(event@),
    {
        let mut i: usize = 0;
        while i < self.events.len()
            invariant
                i <= self.events.len(),
                forall|j: int| 0 <= j < i ==> (#[trigger] self@.events[j]).id != event@,
            decreases self.events.len() - i,
        {
            assert(self@.events[i as int] == self.events@[i as int]@);
            if same(self.events[i].id.as_str(), event) {
                return true;
            }
            i = i + 1;
        }
        false
    }

    /// Takes a waiting node for `lease_owner`, under a fresh lease.
    pub fn mark_node_running(
        &mut self,
        task_id: Uuid,
        node_id: Uuid,
        lease_owner: &str,
        lease_ttl: Duration,
        now: i64,
    ) -> (res: Result<Option<LeaseInfo>, DbError>)
        requires
            old(self)@.wf(),
        ensures
            final(self)@.wf(),
            exists|lease_id: Uuid|
                is_v4(lease_id) && #[trigger] acquire_step(
                    old(self)@,
                    lease_id,
                    task_id,
                    node_id,
                    lease_owner@,
                    column_secs(lease_ttl),
                    now,
                ) == (final(self)@, told_opt(res)),
            old(self)@.is_linked() ==> final(self)@.is_linked(),
            is_readable(old(self)@) ==> is_readable(final(self)@),
    {
        let lease_id = Uuid::new_v4();
        self.mark_node_running_as(lease_id, task_id, node_id, lease_owner, lease_ttl, now)
    }

    /// Takes a waiting node for `lease_owner`, under the lease `lease_id`.
    pub fn mark_node_running_as(
        &mut self,
        lease_id: Uuid,
        task_id: Uuid,
        node_id: Uuid,
        lease_owner: &str,
        lease_ttl: Duration,
        now: i64,
    ) -> (res: Result<Option<LeaseInfo>, DbError>)
        requires
            old(self)@.wf(),
        ensures
            final(self)@.wf(),
            acquire_step(
                old(self)@,
                lease_id,
                task_id,
                node_id,
                lease_owner@,
                column_secs(lease_ttl),
                now,
            ) == (final(self)@, told_opt(res)),
            old(self)@.is_linked() ==> final(self)@.is_linked(),
            is_readable(old(self)@) ==> is_readable(final(self)@),
    {
        let lease_ttl_secs: i64 = secs_for_column(lease_ttl);
        let task = task_id.to_string();
        let node = node_id.to_string();
        match self.find_node(task.as_str(), node.as_str()) {
            None => Ok(None),
            Some(i) => {
                if !same(self.nodes[i].status.as_str(), NodeStatus::Pending.as_str()) {
                    return Ok(None);
                }
                let lease_expires_at = expiry(now, lease_ttl_secs)?;
                let mut row = self.nodes[i].clone();
                row.status = NodeStatus::Running.as_str().to_owned();
                row.acquired_at = Some(now);
                row.lease_id = Some(lease_id.to_string());
                row.lease_owner = Some(lease_owner.to_owned());
                row.lease_expires_at = Some(lease_expires_at);
                row.updated_at = now;
                proof {
                    status_words_differ();
                    lemma_with_node_wf(self@, task_id@, node_id@, row@);
                    if is_readable(self@) {
                        lemma_acquire_readable(
                            self@,
                            lease_id,
                            task_id,
                            node_id,
                            lease_owner@,
                            lease_ttl_secs as int,
                            now,
                        );
                    }
                    assert(node_records(self.nodes@.update(i as int, row)) == self@.nodes.update(
                        i as int,
                        row@,
                    ));
                }
                self.nodes.set(i, row);
                Ok(
                    Some(
                        LeaseInfo {
                            lease_id,
                            lease_owner: lease_owner.to_owned(),
                            lease_expires_at,
                        },
                    ),
                )
            },
        }
    }

    /// Extends the lease under which a node runs; says whether the node runs under it.
    pub fn heartbeat_node(
        &mut self,
        task_id: Uuid,
        node_id: Uuid,
        lease_id: Uuid,
        lease_ttl: Duration,
        now: i64,
    ) -> (res: Result<bool, DbError>)
        requires
            old(self)@.wf(),
        ensures
            final(self)@.wf(),
            extend_step(old(self)@, task_id, node_id, lease_id, column_secs(lease_ttl), now) == (
                final(self)@,
                told(res),
            ),
            old(self)@.is_linked() ==> final(self)@.is_linked(),
            is_readable(old(self)@) ==> is_readable(final(self)@),
    {
        let lease_ttl_secs: i64 = secs_for_column(lease_ttl);
        let task = task_id.to_string();
        let node = node_id.to_string();
        match self.find_node(task.as_str(), node.as_str()) {
            None => Ok(false),
            Some(i) => {
                if !runs_under_lease(&self.nodes[i], lease_id) {
                    return Ok(false);
                }
                let lease_expires_at = expiry(now, lease_ttl_secs)?;
                let mut row = self.nodes[i].clone();
                row.acquired_at = Some(now);
                row.lease_expires_at = Some(lease_expires_at);
                row.updated_at = now;
                proof {
                    if is_readable(self@) {
                        lemma_extend_readable(
                            self@,
                            task_id,
                            node_id,
                            lease_id,
                            lease_ttl_secs as int,
                            now,
                        );
                    }
                    lemma_with_node_wf(self@, task_id@, node_id@, row@);
                    assert(node_records(self.nodes@.update(i as int, row)) == self@.nodes.update(
                        i as int,
                        row@,
                    ));
                }
                self.nodes.set(i, row);
                Ok(true)
            },
        }
    }

    /// Ends a node, with one journal entry.
    fn end_node(
        &mut self,
        event_id: Uuid,
        task_id: Uuid,
        node_id: Uuid,
        lease_id: Uuid,
        to: NodeStatus,
        payload: serde_json::Value,
        now: &Moment,
    ) -> (res: Result<Uuid, DbError>)
        requires
            old(self)@.wf(),
        ensures
            final(self)@.wf(),
            end_step(
                old(self)@,
                event_id,
                task_id,
                node_id,
                lease_id,
                to,
                json_content(payload),
                now.secs,
                now.timestamp@,
            ) == (final(self)@, told(res)),
            res is Ok ==> is_kept_there(
                json_content(payload),
                read_opt_json(final(self)@.node(task_id@, node_id@).result_payload),
            ),
            res is Ok ==> is_kept(
                one_field(ending_field(to), json_content(payload)),
                read_json(final(self)@.events.last().payload),
            ),
            old(self)@.is_linked() ==> final(self)@.is_linked(),
            is_readable(old(self)@) && json_content(payload).nests_within(126) ==> is_readable(
                final(self)@,
            ),
    {
        let ghost content = json_content(payload);
        let result_json = match write_value(&payload) {
            Ok(text) => text,
            Err(err) => {
                return Err(DbError::Json(err));
            },
        };
        let completes = match to {
            NodeStatus::Completed => true,
            _ => false,
        };
        let mut fields = no_fields();
        put(&mut fields, if completes { "result" } else { "error" }, payload);
        let event_payload = object_value(fields);
        let event_payload_json = match write_value(&event_payload) {
            Ok(text) => text,
            Err(err) => {
                return Err(DbError::Json(err));
            },
        };
        proof {
            assert(one_field(ending_field(to), content) == json_content(event_payload));
            lemma_kept(content, result_json@);
            lemma_kept(json_content(event_payload), event_payload_json@);
        }
        let task = task_id.to_string();
        let node = node_id.to_string();
        let i: usize = match self.find_node(task.as_str(), node.as_str()) {
            None => {
                return Err(node_not_found(task_id, node_id));
            },
            Some(i) => i,
        };
        if !runs_under_lease(&self.nodes[i], lease_id) {
            return Err(
                DbError::InvalidState(
                    "node ".to_owned().concat(node.as_str()).concat(
                        " cannot transition from ",
                    ).concat(self.nodes[i].status.as_str()).concat(" to ").concat(to.as_str()),
                ),
            );
        }
        if !nests_no_deeper(result_json.as_str(), MAX_JSON_DEPTH) {
            return Err(
                unmet_condition("result_payload IS NULL OR json_valid(result_payload)"),
            );
        }
        if !nests_no_deeper(event_payload_json.as_str(), MAX_JSON_DEPTH) {
            return Err(unmet_condition("json_valid(payload)"));
        }
        let event = event_id.to_string();
        if self.has_event_row(event.as_str()) {
            return Err(duplicate_key("event_journal.id"));
        }
        if self.find_task(task.as_str()).is_none() {
            return Err(missing_reference());
        }
        let mut row = self.nodes[i].clone();
        row.status = to.as_str().to_owned();
        row.result_payload = Some(result_json);
        row.acquired_at = None;
        row.lease_id = None;
        row.lease_owner = None;
        row.lease_expires_at = None;
        row.updated_at = now.secs;
        let entry = EventJournalRow {
            id: event,
            task_id: task,
            node_id: node,
            action_type: (if completes { "COMPLETE_NODE" } else { "FAIL_NODE" }).to_owned(),
            payload: event_payload_json,
            timestamp: now.timestamp.clone(),
        };
        proof {
            status_words_differ();
            lemma_with_node_wf(self@, task_id@, node_id@, row@);
            let ghost ended_state = self@.with_node(task_id@, node_id@, row@);
            assert(node_records(self.nodes@.update(i as int, row)) == self@.nodes.update(
                i as int,
                row@,
            ));
            assert(event_records(self.events@.push(entry)) == self@.events.push(entry@));
            lemma_still_there(self@, ended_state, task_id@, node_id@, i as int);
            lemma_with_event_wf(ended_state, entry@);
            lemma_node_found(ended_state, task_id@, node_id@, i as int);
            if is_readable(self@) && content.nests_within(126) {
                lemma_one_field_nests(ending_field(to), content);
                lemma_end_readable(
                    self@,
                    event_id,
                    task_id,
                    node_id,
                    lease_id,
                    to,
                    content,
                    now.secs,
                    now.timestamp@,
                );
            }
        }
        self.nodes.set(i, row);
        self.events.push(entry);
        Ok(event_id)
    }

    /// Completes a node that runs under the lease, with a fresh journal entry.
    pub fn complete_node(
        &mut self,
        task_id: Uuid,
        node_id: Uuid,
        lease_id: Uuid,
        result_payload: serde_json::Value,
        now: &Moment,
    ) -> (res: Result<Uuid, DbError>)
        requires
            old(self)@.wf(),
        ensures
            final(self)@.wf(),
            exists|event_id: Uuid|
                is_v4(event_id) && #[trigger] end_step(
                    old(self)@,
                    event_id,
                    task_id,
                    node_id,
                    lease_id,
                    NodeStatus::Completed,
                    json_content(result_payload),
                    now.secs,
                    now.timestamp@,
                ) == (final(self)@, told(res)),
            res is Ok ==> is_kept_there(
                json_content(result_payload),
                read_opt_json(final(self)@.node(task_id@, node_id@).result_payload),
            ),
            res is Ok ==> is_kept(
                one_field("result"@, json_content(result_payload)),
                read_json(final(self)@.events.last().payload),
            ),
            old(self)@.is_linked() ==> final(self)@.is_linked(),
            is_readable(old(self)@) && json_content(result_payload).nests_within(126) ==> is_readable(
                final(self)@,
            ),
    {
        let event_id = Uuid::new_v4();
        self.complete_node_as(event_id, task_id, node_id, lease_id, result_payload, now)
    }

    /// Completes a node that runs under the lease, with the journal entry `event_id`.
    pub fn complete_node_as(
        &mut self,
        event_id: Uuid,
        task_id: Uuid,
        node_id: Uuid,
        lease_id: Uuid,
        result_payload: serde_json::Value,
        now: &Moment,
    ) -> (res: Result<Uuid, DbError>)
        requires
            old(self)@.wf(),
        ensures
            final(self)@.wf(),
            end_step(
                old(self)@,
                event_id,
                task_id,
                node_id,
                lease_id,
                NodeStatus::Completed,
                json_content(result_payload),
                now.secs,
                now.timestamp@,
            ) == (final(self)@, told(res)),
            res is Ok ==> is_kept_there(
                json_content(result_payload),
                read_opt_json(final(self)@.node(task_id@, node_id@).result_payload),
            ),
            res is Ok ==> is_kept(
                one_field("result"@, json_content(result_payload)),
                read_json(final(self)@.events.last().payload),
            ),
            old(self)@.is_linked() ==> final(self)@.is_linked(),
            is_readable(old(self)@) && json_content(result_payload).nests_within(126) ==> is_readable(
                final(self)@,
            ),
    {
        self.end_node(
            event_id,
            task_id,
            node_id,
            lease_id,
            NodeStatus::Completed,
            result_payload,
            now,
        )
    }

    /// Fails a node that runs under the lease, with a fresh journal entry.
    pub fn fail_node(
        &mut self,
        task_id: Uuid,
        node_id: Uuid,
        lease_id: Uuid,
        error_payload: serde_json::Value,
        now: &Moment,
    ) -> (res: Result<Uuid, DbError>)
        requires
            old(self)@.wf(),
        ensures
            final(self)@.wf(),
            exists|event_id: Uuid|
                is_v4(event_id) && #[trigger] end_step(
                    old(self)@,
                    event_id,
                    task_id,
                    node_id,
                    lease_id,
                    NodeStatus::Failed,
                    json_content(error_payload),
                    now.secs,
                    now.timestamp@,
                ) == (final(self)@, told(res)),
            res is Ok ==> is_kept_there(
                json_content(error_payload),
                read_opt_json(final(self)@.node(task_id@, node_id@).result_payload),
            ),
            res is Ok ==> is_kept(
                one_field("error"@, json_content(error_payload)),
                read_json(final(self)@.events.last().payload),
            ),
            old(self)@.is_linked() ==> final(self)@.is_linked(),
            is_readable(old(self)@) && json_content(error_payload).nests_within(126) ==> is_readable(
                final(self)@,
            ),
    {
        let event_id = Uuid::new_v4();
        self.fail_node_as(event_id, task_id, node_id, lease_id, error_payload, now)
    }

    /// Fails a node that runs under the lease, with the journal entry `event_id`.
    pub fn fail_node_as(
        &mut self,
        event_id: Uuid,
        task_id: Uuid,
        node_id: Uuid,
        lease_id: Uuid,
        error_payload: serde_json::Value,
        now: &Moment,
    ) -> (res: Result<Uuid, DbError>)
        requires
            old(self)@.wf(),
        ensures
            final(self)@.wf(),
            end_step(
                old(self)@,
                event_id,
                task_id,
                node_id,
                lease_id,
                NodeStatus::Failed,
                json_content(error_payload),
                now.secs,
                now.timestamp@,
            ) == (final(self)@, told(res)),
            res is Ok ==> is_kept_there(
                json_content(error_payload),
                read_opt_json(final(self)@.node(task_id@, node_id@).result_payload),
            ),
            res is Ok ==> is_kept(
                one_field("error"@, json_content(error_payload)),
                read_json(final(self)@.events.last().payload),
            ),
            old(self)@.is_linked() ==> final(self)@.is_linked(),
            is_readable(old(self)@) && json_content(error_payload).nests_within(126) ==> is_readable(
                final(self)@,
            ),
    {
        self.end_node(
            event_id,
            task_id,
            node_id,
            lease_id,
            NodeStatus::Failed,
            error_payload,
            now,
        )
    }

    /// Refuses whoever shows another lease than the one under which a node runs.
    fn ensure_current_lease(
        &self,
        task_id: Uuid,
        node_id: Uuid,
        lease_id: Option<Uuid>,
    ) -> (res: Result<(), DbError>)
        requires
            self@.wf(),
        ensures
            told(res) == lease_check(self@, task_id, node_id, lease_id),
    {
        let task = task_id.to_string();
        let node = node_id.to_string();
        let i: usize = match self.find_node(task.as_str(), node.as_str()) {
            None => {
                return Err(node_not_found(task_id, node_id));
            },
            Some(i) => i,
        };
        if !same(self.nodes[i].status.as_str(), NodeStatus::Running.as_str()) {
            return Ok(());
        }
        let current = match (lease_id, &self.nodes[i].lease_id) {
            (Some(lease_id), Some(current)) => same(
                lease_id.to_string().as_str(),
                current.as_str(),
            ),
            _ => false,
        };
        if current {
            Ok(())
        } else {
            Err(
                DbError::InvalidState(
                    "node ".to_owned().concat(node.as_str()).concat(" for task ").concat(
                        task.as_str(),
                    ).concat(" requires the current RUNNING lease"),
                ),
            )
        }
    }

    /// Writes a fresh journal entry about a node.
    pub fn append_event(
        &mut self,
        task_id: Uuid,
        node_id: Uuid,
        lease_id: Option<Uuid>,
        action_type: &str,
        payload: serde_json::Value,
        timestamp: &str,
    ) -> (res: Result<Uuid, DbError>)
        requires
            old(self)@.wf(),
        ensures
            final(self)@.wf(),
            exists|event_id: Uuid|
                is_v4(event_id) && #[trigger] append_step(
                    old(self)@,
                    event_id,
                    task_id,
                    node_id,
                    lease_id,
                    action_type@,
                    json_content(payload),
                    timestamp@,
                ) == (final(self)@, told(res)),
            res is Ok ==> is_kept(
                json_content(payload),
                read_json(final(self)@.events.last().payload),
            ),
            old(self)@.is_linked() ==> final(self)@.is_linked(),
            is_readable(old(self)@) && json_content(payload).nests_within(127) ==> is_readable(
                final(self)@,
            ),
    {
        let event_id = Uuid::new_v4();
        self.append_event_as(event_id, task_id, node_id, lease_id, action_type, payload, timestamp)
    }

    /// Writes the journal entry `event_id` about a node.
    pub fn append_event_as(
        &mut self,
        event_id: Uuid,
        task_id: Uuid,
        node_id: Uuid,
        lease_id: Option<Uuid>,
        action_type: &str,
        payload: serde_json::Value,
        timestamp: &str,
    ) -> (res: Result<Uuid, DbError>)
        requires
            old(self)@.wf(),
        ensures
            final(self)@.wf(),
            append_step(
                old(self)@,
                event_id,
                task_id,
                node_id,
                lease_id,
                action_type@,
                json_content(payload),
                timestamp@,
            ) == (final(self)@, told(res)),
            res is Ok ==> is_kept(
                json_content(payload),
                read_json(final(self)@.events.last().payload),
            ),
            old(self)@.is_linked() ==> final(self)@.is_linked(),
            is_readable(old(self)@) && json_content(payload).nests_within(127) ==> is_readable(
                final(self)@,
            ),
    {
        self.ensure_current_lease(task_id, node_id, lease_id)?;
        let payload_json = match write_value(&payload) {
            Ok(text) => text,
            Err(err) => {
                return Err(DbError::Json(err));
            },
        };
        if !nests_no_deeper(payload_json.as_str(), MAX_JSON_DEPTH) {
            return Err(unmet_condition("json_valid(payload)"));
        }
        let event = event_id.to_string();
        if self.has_event_row(event.as_str()) {
            return Err(duplicate_key("event_journal.id"));
        }
        let task = task_id.to_string();
        if self.find_task(task.as_str()).is_none() {
            return Err(missing_reference());
        }
        let entry = EventJournalRow {
            id: event,
            task_id: task,
            node_id: node_id.to_string(),
            action_type: action_type.to_owned(),
            payload: payload_json,
            timestamp: timestamp.to_owned(),
        };
        proof {
            let i = self@.node_at(task_id@, node_id@);
            lemma_still_there(self@, self@, task_id@, node_id@, i);
            lemma_with_event_wf(self@, entry@);
            assert(event_records(self.events@.push(entry)) == self@.events.push(entry@));
            lemma_kept(json_content(payload), entry@.payload);
            if is_readable(self@) && json_content(payload).nests_within(127) {
                lemma_append_readable(
                    self@,
                    event_id,
                    task_id,
                    node_id,
                    lease_id,
                    action_type@,
                    json_content(payload),
                    timestamp@,
                );
            }
        }
        self.events.push(entry);
        Ok(event_id)
    }

    /// Rolls back the nodes whose time is over, those of one task or of all, and counts them.
    pub fn reset_timed_out_nodes(
        &mut self,
        task_id: Option<Uuid>,
        timeout: Duration,
        now: i64,
    ) -> (count: u64)
        requires
            old(self)@.wf(),
        ensures
            final(self)@.wf(),
            sweep_step(old(self)@, opt_id(task_id), column_secs(timeout), now) == (
                final(self)@,
                count as nat,
            ),
            old(self)@.is_linked() ==> final(self)@.is_linked(),
            is_readable(old(self)@) ==> is_readable(final(self)@),
    {
        let timeout_secs: i64 = secs_for_column(timeout);
        let task = opt_to_string(task_id);
        let ghost before = self@;
        let ghost scope = opt_id(task_id);
        let ghost limit = timeout_secs as int;
        let mut count: usize = 0;
        let mut i: usize = 0;
        proof {
            assert(before.nodes.take(0).filter(
                |row: NodeRecord| is_overdue(row, scope, now as int, limit),
            ).len() == 0) by {
                reveal(Seq::filter);
            }
        }
        while i < self.nodes.len()
            invariant
                i <= self.nodes.len(),
                count <= i,
                before == old(self)@,
                scope == opt_id(task_id),
                opt_text(task) == scope,
                limit == timeout_secs,
                timeout_secs >= 0,
                self.nodes.len() == before.nodes.len(),
                self.schema_versions == old(self).schema_versions,
                self.tasks == old(self).tasks,
                self.events == old(self).events,
                self.locks == old(self).locks,
                count == overdue_count(before.nodes.take(i as int), scope, now as int, limit),
                forall|j: int|
                    0 <= j < i ==> (#[trigger] self@.nodes[j]) == swept(
                        before.nodes,
                        scope,
                        now,
                        limit,
                    )[j],
                forall|j: int| i <= j < before.nodes.len() ==> (#[trigger] self@.nodes[j]) == before.nodes[j],
            decreases self.nodes.len() - i,
        {
            let ghost rows = self.nodes@;
            let ghost pred = |row: NodeRecord| is_overdue(row, scope, now as int, limit);
            assert(self@.nodes[i as int] == self.nodes@[i as int]@);
            proof {
                lemma_filter_next(before.nodes, i as int, pred);
            }
            if is_overdue_node(&self.nodes[i], &task, timeout_secs, now) {
                let mut row = self.nodes[i].clone();
                row.status = NodeStatus::Pending.as_str().to_owned();
                row.acquired_at = None;
                row.lease_id = None;
                row.lease_owner = None;
                row.lease_expires_at = None;
                row.updated_at = now;
                self.nodes.set(i, row);
                count = count + 1;
            }
            i = i + 1;
            proof {
                assert forall|j: int| 0 <= j < rows.len() && j != i - 1 implies (
                #[trigger] self@.nodes[j]) == node_records(rows)[j] by {
                    assert(self.nodes@[j] == rows[j]);
                }
                assert(self@.nodes[i - 1] == self.nodes@[i - 1]@);
            }
        }
        proof {
            assert(before.nodes.take(i as int) == before.nodes);
            assert(self@.nodes == swept(before.nodes, scope, now, limit));
            status_words_differ();
            lemma_nodes_rewritten_wf(before, self@.nodes);
            if is_readable(before) {
                sweep_keeps_store_readable(before, scope, limit, now);
            }
        }
        count as u64
    }

    /// The row of a task.
    pub fn fetch_task(&self, task_id: Uuid) -> (found: Option<GlobalTaskRow>)
        requires
            self@.wf(),
        ensures
            match found {
                Some(row) => self@.has_task(task_id@) && row@ == self@.task(task_id@),
                None => !self@.has_task(task_id@),
            },
    {
        let task = task_id.to_string();
        match self.find_task(task.as_str()) {
            Some(i) => Some(self.tasks[i].clone()),
            None => None,
        }
    }

    /// The row of a node.
    pub fn fetch_node(&self, task_id: Uuid, node_id: Uuid) -> (found: Option<DagNodeRow>)
        requires
            self@.wf(),
        ensures
            match found {
                Some(row) => self@.has_node(task_id@, node_id@) && row@ == self@.node(
                    task_id@,
                    node_id@,
                ),
                None => !self@.has_node(task_id@, node_id@),
            },
    {
        let task = task_id.to_string();
        let node = node_id.to_string();
        match self.find_node(task.as_str(), node.as_str()) {
            Some(i) => Some(self.nodes[i].clone()),
            None => None,
        }
    }

    /// The nodes of a task, oldest first.
    pub fn list_nodes(&self, task_id: Uuid) -> (rows: Vec<DagNodeRow>)
        ensures
            node_records(rows@) == nodes_of(self@.nodes, task_id@),
    {
        let task = task_id.to_string();
        let ghost pred = |row: NodeRecord| row.task_id == task_id@;
        let mut rows: Vec<DagNodeRow> = Vec::new();
        let mut i: usize = 0;
        proof {
            assert(self@.nodes.take(0).filter(pred) =~= Seq::<NodeRecord>::empty()) by {
                reveal(Seq::filter);
            }
        }
        while i < self.nodes.len()
            invariant
                i <= self.nodes.len(),
                task@ == task_id@,
                pred == (|row: NodeRecord| row.task_id == task_id@),
                node_records(rows@) =~= self@.nodes.take(i as int).filter(pred),
            decreases self.nodes.len() - i,
        {
            assert(self@.nodes[i as int] == self.nodes@[i as int]@);
            let ghost before = rows@;
            proof {
                lemma_filter_next(self@.nodes, i as int, pred);
            }
            if same(self.nodes[i].task_id.as_str(), task.as_str()) {
                let row = self.nodes[i].clone();
                proof {
                    assert(node_records(before.push(row)) =~= node_records(before).push(row@));
                }
                rows.push(row);
            }
            i = i + 1;
        }
        assert(self@.nodes.take(i as int) == self@.nodes);
        rows
    }

    /// The nodes of a task that wait for a worker, oldest first.
    pub fn pending_nodes(&self, task_id: Uuid) -> (rows: Vec<DagNodeRow>)
        ensures
            node_records(rows@) == pending_of(self@.nodes, task_id@),
    {
        let task = task_id.to_string();
        let ghost pred = |row: NodeRecord|
            row.task_id == task_id@ && stands(row, NodeStatus::Pending);
        let mut rows: Vec<DagNodeRow> = Vec::new();
        let mut i: usize = 0;
        proof {
            assert(self@.nodes.take(0).filter(pred) =~= Seq::<NodeRecord>::empty()) by {
                reveal(Seq::filter);
            }
        }
        while i < self.nodes.len()
            invariant
                i <= self.nodes.len(),
                task@ == task_id@,
                pred == (|row: NodeRecord|
                    row.task_id == task_id@ && stands(row, NodeStatus::Pending)),
                node_records(rows@) =~= self@.nodes.take(i as int).filter(pred),
            decreases self.nodes.len() - i,
        {
            assert(self@.nodes[i as int] == self.nodes@[i as int]@);
            let ghost before = rows@;
            proof {
                lemma_filter_next(self@.nodes, i as int, pred);
            }
            if same(self.nodes[i].task_id.as_str(), task.as_str()) && same(
                self.nodes[i].status.as_str(),
                NodeStatus::Pending.as_str(),
            ) {
                let row = self.nodes[i].clone();
                proof {
                    assert(node_records(before.push(row)) =~= node_records(before).push(row@));
                }
                rows.push(row);
            }
            i = i + 1;
        }
        assert(self@.nodes.take(i as int) == self@.nodes);
        rows
    }

    /// Whether all of these nodes of the task are completed.
    pub fn dependencies_completed(&self, task_id: Uuid, dependencies: &Vec<Uuid>) -> (res: bool)
        requires
            self@.wf(),
        ensures
            res == self@.all_completed(task_id@, dependencies@),
    {
        let task = task_id.to_string();
        let mut k: usize = 0;
        while k < dependencies.len()
            invariant
                self@.wf(),
                task@ == task_id@,
                k <= dependencies.len(),
                forall|j: int| 0 <= j < k ==> self@.is_completed(task_id@, (#[trigger] dependencies@[j])@),
            decreases dependencies.len() - k,
        {
            let dependency = dependencies[k].to_string();
            let completed = match self.find_node(task.as_str(), dependency.as_str()) {
                Some(i) => same(self.nodes[i].status.as_str(), NodeStatus::Completed.as_str()),
                None => false,
            };
            if !completed {
                assert(!self@.is_completed(task_id@, dependencies@[k as int]@));
                return false;
            }
            k = k + 1;
        }
        true
    }

    pub(crate) fn find_lock(&self, key: &str) -> (found: Option<usize>)
        requires
            self@.wf(),
        ensures
            match found {
                Some(i) => i < self.locks.len() && self@.has_lock(key@) && self@.lock_at(key@) == i
                    && self@.lock(key@) == self.locks@[i as int]@,
                None => !self@.has_lock(key@),
            },
    {
        let mut i: usize = 0;
        while i < self.locks.len()
            invariant
                i <= self.locks.len(),
                self@.wf(),
                forall|j: int| 0 <= j < i ==> (#[trigger] self@.locks[j]).resource_key != key@,
            decreases self.locks.len() - i,
        {
            assert(self@.locks[i as int] == self.locks@[i as int]@);
            if same(self.locks[i].resource_key.as_str(), key) {
                proof {
                    lemma_lock_found(self@, key@, i as int);
                }
                return Some(i);
            }
            i = i + 1;
        }
        None
    }

    /// Acquires a lock on a resource under a fresh lease, unless it is locked.
    pub fn acquire_resource_lock(&mut self, request: AcquireResourceLock, now: i64) -> (res: Result<
        Option<ResourceLockLease>,
        DbError,
    >)
        requires
            old(self)@.wf(),
        ensures
            final(self)@.wf(),
            is_locked(old(self)@, request.resource_key@, now as int) ==> final(self)@ == old(
                self,
            )@ && (res matches Ok(None)),
            res matches Ok(Some(_)) ==> is_locked(final(self)@, request.resource_key@, now as int),
            exists|lease_id: Uuid| {
                let (after, outcome) = #[trigger] lock_step(old(self)@, lease_id, request, now);
                &&& is_v4(lease_id)
                &&& after == final(self)@
                &&& told_opt(res) == grant_told(outcome)
                &&& is_granted(outcome) ==> is_full_grant(told_opt(res), lease_id, request, now)
            },
            old(self)@.is_linked() ==> final(self)@.is_linked(),
            is_readable(old(self)@) && json_content(request.metadata).nests_within(127)
                ==> is_readable(final(self)@),
    {
        let lease_id = Uuid::new_v4();
        self.acquire_resource_lock_as(lease_id, request, now)
    }

    /// Acquires a lock on a resource under the lease `lease_id`, unless it is locked.
    pub fn acquire_resource_lock_as(
        &mut self,
        lease_id: Uuid,
        request: AcquireResourceLock,
        now: i64,
    ) -> (res: Result<Option<ResourceLockLease>, DbError>)
        requires
            old(self)@.wf(),
        ensures
            final(self)@.wf(),
            lock_step(old(self)@, lease_id, request, now).0 == final(self)@,
            told_opt(res) == grant_told(lock_step(old(self)@, lease_id, request, now).1),
            is_locked(old(self)@, request.resource_key@, now as int) ==> final(self)@ == old(
                self,
            )@ && (res matches Ok(None)),
            res matches Ok(Some(_)) ==> is_locked(final(self)@, request.resource_key@, now as int),
            is_granted(lock_step(old(self)@, lease_id, request, now).1) ==> is_full_grant(
                told_opt(res),
                lease_id,
                request,
                now,
            ),
            old(self)@.is_linked() ==> final(self)@.is_linked(),
            is_readable(old(self)@) && json_content(request.metadata).nests_within(127)
                ==> is_readable(final(self)@),
    {
        let ghost before = self@;
        let wanted_secs: i64 = secs_for_column(request.lease_ttl);
        let lease_ttl_secs: i64 = if wanted_secs < 1 {
            1
        } else {
            wanted_secs
        };
        let metadata_json = match write_value(&request.metadata) {
            Ok(text) => text,
            Err(err) => {
                return Err(DbError::Json(err));
            },
        };
        let lease = lease_id.to_string();
        let found = self.find_lock(request.resource_key.as_str());
        if let Some(i) = found {
            if self.locks[i].lease_expires_at > now {
                return Ok(None);
            }
        }
        if !nests_no_deeper(metadata_json.as_str(), MAX_JSON_DEPTH) {
            let words = "no rows returned by a query that expected to return at least one row";
            return Err(
                match found {
                    Some(_) => unmet_condition("json_valid(metadata)"),
                    None => DbError::Sqlx(words.to_owned()),
                },
            );
        }
        if let Some(task_id) = request.task_id {
            let task = task_id.to_string();
            if self.find_task(task.as_str()).is_none() {
                return Err(missing_reference());
            }
        }
        let lease_expires_at = expiry(now, lease_ttl_secs)?;
        let row = ResourceLockRow {
            resource_key: request.resource_key.clone(),
            lease_id: lease,
            owner: request.owner.clone(),
            provider: request.provider.clone(),
            task_id: opt_to_string(request.task_id),
            node_id: opt_to_string(request.node_id),
            metadata: metadata_json,
            acquired_at: now,
            lease_expires_at,
            updated_at: now,
        };
        let granted_row = row.clone();
        proof {
            lemma_kept(json_content(request.metadata), row@.metadata);
            if is_readable(before) && json_content(request.metadata).nests_within(127) {
                lemma_lock_readable(before, lease_id, request, now);
            }
        }
        match found {
            Some(i) => {
                proof {
                    assert(lock_records(self.locks@.update(i as int, row)) =~= self@.locks.update(
                        i as int,
                        row@,
                    ));
                    lemma_locks_rewritten_wf(before, before.locks.update(i as int, row@));
                }
                self.locks.set(i, row);
                proof {
                    lemma_lock_found(self@, request.resource_key@, i as int);
                }
            },
            None => {
                proof {
                    assert(lock_records(self.locks@.push(row)) =~= self@.locks.push(row@));
                    lemma_locks_rewritten_wf(before, before.locks.push(row@));
                }
                self.locks.push(row);
                proof {
                    lemma_lock_found(self@, request.resource_key@, before.locks.len() as int);
                }
            },
        }
        match ResourceLockLease::try_from(granted_row) {
            Ok(granted) => Ok(Some(granted)),
            Err(err) => Err(err),
        }
    }

    /// Extends a lock in force; says whether the lease holds it.
    pub fn heartbeat_resource_lock(
        &mut self,
        resource_key: &str,
        lease_id: Uuid,
        lease_ttl: Duration,
        now: i64,
    ) -> (res: Result<bool, DbError>)
        requires
            old(self)@.wf(),
        ensures
            final(self)@.wf(),
            extend_lock_step(old(self)@, resource_key@, lease_id, column_secs(lease_ttl), now) == (
                final(self)@,
                told(res),
            ),
            old(self)@.is_linked() ==> final(self)@.is_linked(),
            is_readable(old(self)@) ==> is_readable(final(self)@),
    {
        let ghost before = self@;
        let wanted_secs: i64 = secs_for_column(lease_ttl);
        let lease_ttl_secs: i64 = if wanted_secs < 1 {
            1
        } else {
            wanted_secs
        };
        let lease = lease_id.to_string();
        match self.find_lock(resource_key) {
            None => Ok(false),
            Some(i) => {
                if !same(self.locks[i].lease_id.as_str(), lease.as_str())
                    || self.locks[i].lease_expires_at <= now {
                    return Ok(false);
                }
                let lease_expires_at = expiry(now, lease_ttl_secs)?;
                let mut row = self.locks[i].clone();
                row.lease_expires_at = lease_expires_at;
                row.updated_at = now;
                proof {
                    assert(lock_records(self.locks@.update(i as int, row)) =~= self@.locks.update(
                        i as int,
                        row@,
                    ));
                    assert(before.locks[i as int].resource_key == resource_key@);
                    lemma_locks_rewritten_wf(before, before.locks.update(i as int, row@));
                    if is_readable(before) {
                        lemma_lock_changed_readable(
                            before,
                            resource_key@,
                            lease_id,
                            wanted_secs as int,
                            now,
                        );
                    }
                }
                self.locks.set(i, row);
                Ok(true)
            },
        }
    }

    /// Releases a lock; says whether the lease was its own.
    pub fn release_resource_lock(&mut self, resource_key: &str, lease_id: Uuid) -> (released: bool)
        requires
            old(self)@.wf(),
        ensures
            final(self)@.wf(),
            release_step(old(self)@, resource_key@, lease_id) == (final(self)@, released),
            old(self)@.is_linked() ==> final(self)@.is_linked(),
            is_readable(old(self)@) ==> is_readable(final(self)@),
    {
        let ghost before = self@;
        let lease = lease_id.to_string();
        match self.find_lock(resource_key) {
            None => false,
            Some(i) => {
                if !same(self.locks[i].lease_id.as_str(), lease.as_str()) {
                    return false;
                }
                proof {
                    assert(lock_records(self.locks@.remove(i as int)) =~= self@.locks.remove(
                        i as int,
                    ));
                    lemma_locks_rewritten_wf(before, before.locks.remove(i as int));
                    if is_readable(before) {
                        lemma_lock_changed_readable(before, resource_key@, lease_id, 0, 0);
                    }
                }
                self.locks.remove(i);
                true
            },
        }
    }
}

/// A row refers to one that is not there.
fn missing_reference() -> (err: DbError)
    ensures
        err@ == reference_missing(),
{
    DbError::Sqlx(
        "error returned from database: (code: 787) FOREIGN KEY constraint failed".to_owned(),
    )
}

/// Whether the node is in scope and its time is over.
fn is_overdue_node(row: &DagNodeRow, task: &Option<String>, timeout: i64, now: i64) -> (res: bool)
    requires
        timeout >= 0,
    ensures
        res == is_overdue(row@, opt_text(*task), now as int, timeout as int),
{
    let in_scope = match task {
        Some(task) => same(row.task_id.as_str(), task.as_str()),
        None => true,
    };
    in_scope && same(row.status.as_str(), NodeStatus::Running.as_str())
        && match row.lease_expires_at {
        Some(expires) => expires <= now,
        None => match row.acquired_at {
            Some(acquired) => acquired as i128 <= now as i128 - timeout as i128,
            None => false,
        },
    }
}

} // verus!
