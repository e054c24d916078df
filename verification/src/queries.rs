//! Reading the store.

use crate::db::{Database, LATEST_SCHEMA_VERSION};
use crate::error::{DbError, DbFailure};
use crate::ids::Uuid;
use crate::order::{chronological, event_records, held_by_key, lemma_filter_next, lock_records};
use crate::reports::{
    is_lapsed, is_leased, newest, node_records, snapshot_told, tally, DatabaseMetrics, TaskSnapshot,
};
use crate::rows::{
    opt_json_of, read_event, read_lock, read_node, DependencyInfo, DependencyResult, EventInfo,
    EventRecord, GlobalTaskSnapshot, JournalEvent, LockInfo, LockRecord, NodeInfo, NodeRecord,
    NodeSnapshot, NodeStatus, ResourceLockSnapshot,
};
use crate::state::{
    chronicle, held_locks, is_held, latest, left_behind, lemma_read_next, nodes_of, ordered_by_key,
    read_each, read_events, read_locks, told_each, told_opt, DbState,
};
use crate::text::same;
use vstd::prelude::*;

verus! {

/// The listing of locks: those in force, in the order of their keys, read.
pub open spec fn lock_listing(
    locks: Seq<LockRecord>,
    now: int,
    outcome: Result<Seq<LockInfo>, DbFailure>,
) -> bool {
    exists|rows: Seq<LockRecord>|
        #[trigger] ordered_by_key(rows) && rows.to_multiset() == held_locks(locks, now).to_multiset()
            && outcome == read_locks(rows)
}

impl Database {
    /// The newest schema version that was applied.
    pub fn schema_version(&self) -> (version: i64)
        ensures
            version == newest(self@.versions),
    {
        let mut version: i64 = 0;
        let mut i: usize = 0;
        while i < self.schema_versions.len()
            invariant
                i <= self.schema_versions.len(),
                version == newest(self@.versions.take(i as int)),
            decreases self.schema_versions.len() - i,
        {
            proof {
                let all = self@.versions;
                assert(all.take(i + 1).drop_last() =~= all.take(i as int));
                assert(all.take(i + 1).last() == all[i as int]);
            }
            if i == 0 || version <= self.schema_versions[i] {
                version = self.schema_versions[i];
            }
            i = i + 1;
        }
        assert(self@.versions.take(i as int) =~= self@.versions);
        version
    }

    /// Counts of what the store holds.
    pub fn metrics(&self, now: i64) -> (metrics: DatabaseMetrics)
        ensures
            metrics.describes(self@, LATEST_SCHEMA_VERSION, now as int),
    {
        let schema_version: i64 = self.schema_version();
        let ghost locks = self@.locks;
        let ghost nodes = self@.nodes;
        let ghost active = |row: LockRecord| is_held(row, now as int);
        let ghost expired = |row: LockRecord| !is_held(row, now as int);
        let ghost leased = |row: NodeRecord| is_leased(row);
        let ghost lapsed = |row: NodeRecord| is_lapsed(row, now as int);
        let mut active_resource_locks: usize = 0;
        let mut expired_resource_locks: usize = 0;
        let mut i: usize = 0;
        proof {
            reveal(Seq::filter);
        }
        while i < self.locks.len()
            invariant
                locks == self@.locks,
                active == (|row: LockRecord| is_held(row, now as int)),
                expired == (|row: LockRecord| !is_held(row, now as int)),
                i <= self.locks.len(),
                active_resource_locks <= i,
                expired_resource_locks <= i,
                active_resource_locks == locks.take(i as int).filter(active).len(),
                expired_resource_locks == locks.take(i as int).filter(expired).len(),
            decreases self.locks.len() - i,
        {
            proof {
                assert(locks[i as int] == self.locks@[i as int]@);
                lemma_filter_next(locks, i as int, active);
                lemma_filter_next(locks, i as int, expired);
            }
            if self.locks[i].lease_expires_at > now {
                active_resource_locks = active_resource_locks + 1;
            } else {
                expired_resource_locks = expired_resource_locks + 1;
            }
            i = i + 1;
        }
        let mut running_leases: usize = 0;
        let mut expired_running_leases: usize = 0;
        let mut k: usize = 0;
        while k < self.nodes.len()
            invariant
                nodes == self@.nodes,
                leased == (|row: NodeRecord| is_leased(row)),
                lapsed == (|row: NodeRecord| is_lapsed(row, now as int)),
                k <= self.nodes.len(),
                running_leases <= k,
                expired_running_leases <= k,
                running_leases == nodes.take(k as int).filter(leased).len(),
                expired_running_leases == nodes.take(k as int).filter(lapsed).len(),
            decreases self.nodes.len() - k,
        {
            proof {
                assert(nodes[k as int] == self.nodes@[k as int]@);
                lemma_filter_next(nodes, k as int, leased);
                lemma_filter_next(nodes, k as int, lapsed);
            }
            let node = &self.nodes[k];
            let running = same(node.status.as_str(), NodeStatus::Running.as_str());
            if running && node.lease_id.is_some() {
                running_leases = running_leases + 1;
            }
            if let Some(expires) = node.lease_expires_at {
                if running && expires <= now {
                    expired_running_leases = expired_running_leases + 1;
                }
            }
            k = k + 1;
        }
        proof {
            assert(locks.take(i as int) =~= locks);
            assert(nodes.take(k as int) =~= nodes);
        }
        DatabaseMetrics {
            schema_version,
            latest_schema_version: LATEST_SCHEMA_VERSION,
            total_tasks: self.tasks.len() as u64,
            total_nodes: self.nodes.len() as u64,
            total_events: self.events.len() as u64,
            active_resource_locks: active_resource_locks as u64,
            expired_resource_locks: expired_resource_locks as u64,
            running_leases: running_leases as u64,
            expired_running_leases: expired_running_leases as u64,
            node_status_counts: tally(&self.nodes),
        }
    }

    /// The locks in force, in the order of their keys.
    pub fn list_resource_locks(&self, now: i64) -> (res: Result<Vec<ResourceLockSnapshot>, DbError>)
        ensures
            lock_listing(self@.locks, now as int, told_each(res)),
    {
        let rows = held_by_key(&self.locks, now);
        let ghost sorted = lock_records(rows@);
        let ghost read = |row: LockRecord| read_lock(row);
        let mut locks: Vec<ResourceLockSnapshot> = Vec::new();
        assert(read_each(sorted.take(0), read) == Ok::<Seq<LockInfo>, DbFailure>(Seq::empty()));
        assert(locks@.map_values(|lock: ResourceLockSnapshot| lock@) =~= Seq::<LockInfo>::empty());
        for row in it: rows
            invariant
                it.seq() == rows@,
                sorted == lock_records(rows@),
                read == (|row: LockRecord| read_lock(row)),
                ordered_by_key(sorted),
                sorted.to_multiset() == held_locks(self@.locks, now as int).to_multiset(),
                read_each(sorted.take(it.index()), read) == Ok::<Seq<LockInfo>, DbFailure>(
                    locks@.map_values(|lock: ResourceLockSnapshot| lock@),
                ),
        {
            let ghost before = locks@;
            proof {
                assert(sorted[it.index()] == row@);
                lemma_read_next(sorted, read, it.index());
            }
            let lock = ResourceLockSnapshot::try_from(row)?;
            locks.push(lock);
            proof {
                assert(before.push(lock).map_values(|lock: ResourceLockSnapshot| lock@)
                    =~= before.map_values(|lock: ResourceLockSnapshot| lock@).push(lock@));
            }
        }
        assert(sorted.take(sorted.len() as int) =~= sorted);
        Ok(locks)
    }

    /// What the dependencies of a node left behind.
    pub fn dependency_results(&self, task_id: Uuid, dependencies: &Vec<Uuid>) -> (res: Result<
        Vec<DependencyResult>,
        DbError,
    >)
        requires
            self@.wf(),
        ensures
            told_each(res) == left_behind(self@, task_id@, dependencies@),
    {
        let task = task_id.to_string();
        let mut results: Vec<DependencyResult> = Vec::new();
        let mut k: usize = 0;
        assert(results@.map_values(|result: DependencyResult| result@) =~= Seq::<
            DependencyInfo,
        >::empty());
        while k < dependencies.len()
            invariant
                self@.wf(),
                task@ == task_id@,
                k <= dependencies.len(),
                left_behind(self@, task_id@, dependencies@.take(k as int)) == Ok::<
                    Seq<DependencyInfo>,
                    DbFailure,
                >(results@.map_values(|result: DependencyResult| result@)),
            decreases dependencies.len() - k,
        {
            let ghost before = results@;
            proof {
                let upto = dependencies@.take(k + 1);
                assert(upto.drop_last() =~= dependencies@.take(k as int));
                assert(upto.last() == dependencies@[k as int]);
                lemma_left_behind_fails(self@, task_id@, dependencies@, k + 1);
            }
            let dependency = dependencies[k].to_string();
            if let Some(i) = self.find_node(task.as_str(), dependency.as_str()) {
                let result_payload = opt_json_of(&self.nodes[i].result_payload)?;
                let result = DependencyResult { node_id: dependencies[k], result_payload };
                results.push(result);
                proof {
                    assert(before.push(result).map_values(|result: DependencyResult| result@)
                        =~= before.map_values(|result: DependencyResult| result@).push(result@));
                }
            }
            k = k + 1;
        }
        assert(dependencies@.take(k as int) =~= dependencies@);
        Ok(results)
    }

    /// The last `limit` journal entries of a task, in the order of their timestamps.
    pub fn events_for_task(&self, task_id: Uuid, limit: u32) -> (res: Result<
        Vec<JournalEvent>,
        DbError,
    >)
        ensures
            told_each(res) == read_events(
                latest(chronicle(self@.events, task_id@), limit as nat),
            ),
    {
        let task = task_id.to_string();
        let rows = chronological(&self.events, task.as_str());
        let ghost all = event_records(rows@);
        let ghost wanted = latest(all, limit as nat);
        let ghost read = |row: EventRecord| read_event(row);
        let mut i: usize = if rows.len() as u64 <= limit as u64 {
            0
        } else {
            rows.len() - limit as usize
        };
        let ghost start = i as int;
        let mut events: Vec<JournalEvent> = Vec::new();
        proof {
            assert(wanted =~= all.skip(start));
            assert(events@.map_values(|event: JournalEvent| event@) =~= Seq::<EventInfo>::empty());
            assert(read_each(wanted.take(0), read) == Ok::<Seq<EventInfo>, DbFailure>(
                Seq::empty(),
            ));
        }
        while i < rows.len()
            invariant
                0 <= start <= i <= rows.len(),
                all == event_records(rows@),
                wanted == all.skip(start),
                wanted == latest(chronicle(self@.events, task_id@), limit as nat),
                read == (|row: EventRecord| read_event(row)),
                read_each(wanted.take(i - start), read) == Ok::<Seq<EventInfo>, DbFailure>(
                    events@.map_values(|event: JournalEvent| event@),
                ),
            decreases rows.len() - i,
        {
            let ghost before = events@;
            let row = rows[i].clone();
            proof {
                assert(all[i as int] == rows@[i as int]@);
                assert(wanted[i - start] == row@);
                lemma_read_next(wanted, read, i - start);
            }
            let event = JournalEvent::try_from(row)?;
            events.push(event);
            proof {
                assert(before.push(event).map_values(|event: JournalEvent| event@)
                    =~= before.map_values(|event: JournalEvent| event@).push(event@));
            }
            i = i + 1;
        }
        assert(wanted.take(i - start) =~= wanted);
        Ok(events)
    }

    /// Where a task and its nodes stand.
    pub fn task_snapshot(&self, task_id: Uuid) -> (res: Result<Option<TaskSnapshot>, DbError>)
        requires
            self@.wf(),
        ensures
            snapshot_told(self@, task_id@, told_opt(res)),
    {
        let task = match self.fetch_task(task_id) {
            Some(task) => task,
            None => {
                return Ok(None);
            },
        };
        let rows = self.list_nodes(task_id);
        let counts = tally(&rows);
        let ghost all = node_records(rows@);
        let ghost read = |row: NodeRecord| read_node(row);
        let mut nodes: Vec<NodeSnapshot> = Vec::new();
        assert(nodes@.map_values(|node: NodeSnapshot| node@) =~= Seq::<NodeInfo>::empty());
        assert(read_each(all.take(0), read) == Ok::<Seq<NodeInfo>, DbFailure>(Seq::empty()));
        for row in it: rows
            invariant
                it.seq() == rows@,
                self@.has_task(task_id@),
                all == node_records(rows@),
                all == nodes_of(self@.nodes, task_id@),
                read == (|row: NodeRecord| read_node(row)),
                read_each(all.take(it.index()), read) == Ok::<Seq<NodeInfo>, DbFailure>(
                    nodes@.map_values(|node: NodeSnapshot| node@),
                ),
        {
            let ghost before = nodes@;
            proof {
                assert(all[it.index()] == row@);
                lemma_read_next(all, read, it.index());
            }
            let node = NodeSnapshot::try_from(row)?;
            nodes.push(node);
            proof {
                assert(before.push(node).map_values(|node: NodeSnapshot| node@)
                    =~= before.map_values(|node: NodeSnapshot| node@).push(node@));
            }
        }
        assert(all.take(all.len() as int) =~= all);
        let task = GlobalTaskSnapshot::try_from(task)?;
        Ok(Some(TaskSnapshot { task, counts, nodes }))
    }
}

/// A failure to read what an earlier dependency left stays the failure.
proof fn lemma_left_behind_fails(
    state: DbState,
    task: Seq<char>,
    nodes: Seq<Uuid>,
    k: int,
)
    requires
        0 <= k <= nodes.len(),
    ensures
        left_behind(state, task, nodes.take(k)) matches Err(failure) ==> left_behind(
            state,
            task,
            nodes,
        ) == Err::<Seq<DependencyInfo>, DbFailure>(failure),
    decreases nodes.len(),
{
    if k < nodes.len() {
        lemma_left_behind_fails(state, task, nodes.drop_last(), k);
        assert(nodes.drop_last().take(k) =~= nodes.take(k));
    } else {
        assert(nodes.take(k) =~= nodes);
    }
}

} // verus!
