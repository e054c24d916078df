//! A store whose rows can all be read.

use crate::clock::column_secs;
use crate::coordinator::{
    after_sweep, context_of, lifted, locks_told, status_told, CoordinatorFailure, CoordinatorState,
};
use crate::error::DbFailure;
use crate::graph::NodeDefinition;
use crate::ids::{parsed_uuid, Uuid};
use crate::json::{json_parsed, json_text, nesting_is_monotone, Json};
use crate::laws::none_runnable;
use crate::queries::lock_listing;
use crate::reports::SnapshotInfo;
use crate::rows::{
    read_event, read_grant, read_lock, read_node, read_task, status_words_differ,
    AcquireResourceLock, EventRecord, LockInfo, LockRecord, NodeRecord, NodeStatus,
};
use crate::state::{
    acquire_step, append_step, chronicle, end_step, ending_field, extend_lock_step, extend_step,
    filed, held_locks, is_granted, is_held, latest, left_behind, lock_step, nodes_of, one_field,
    ordered_by_key, read_each, read_locks, register_step, registered_node, release_step, sweep_step,
    DbState,
};
use crate::text::{reads, text_le};
use vstd::prelude::*;

verus! {

/// Reading the canonical text of the identifier gives the identifier back.
pub open spec fn id_reads_back(id: Uuid) -> bool {
    parsed_uuid(id@) == reads(id)
}

/// What is written for the content can be read.
pub open spec fn content_is_read(content: Json) -> bool {
    json_parsed(json_text(content)) is Ok
}

/// The node can be read, and is stored under the canonical text of its identifier.
pub open spec fn node_is_readable(row: NodeRecord) -> bool {
    read_node(row) matches Ok(info) && row.id == info.id@
}

/// Every row of the store can be read.
pub open spec fn is_readable(state: DbState) -> bool {
    &&& forall|i: int| 0 <= i < state.tasks.len() ==> read_task(#[trigger] state.tasks[i]) is Ok
    &&& forall|i: int| 0 <= i < state.nodes.len() ==> node_is_readable(#[trigger] state.nodes[i])
    &&& forall|i: int| 0 <= i < state.events.len() ==> read_event(#[trigger] state.events[i]) is Ok
    &&& forall|i: int| 0 <= i < state.locks.len() ==> read_lock(#[trigger] state.locks[i]) is Ok
}

/// Whoever asks for a node of the task now is owed one: the store can be read, the task has a
/// runnable node once its overdue nodes are rolled back, and the end of the lease is in range.
pub open spec fn owes_node(state: CoordinatorState, task_id: Uuid, now: i64) -> bool {
    let ready = after_sweep(state, task_id, now);
    &&& is_readable(state.db)
    &&& state.db.has_task(task_id@)
    &&& !none_runnable(ready, task_id@, 0, ready.nodes.len() as int)
    &&& now + column_secs(state.running_timeout) <= i64::MAX
}

/// An object with one field is nested one level deeper than the field.
pub(crate) proof fn lemma_one_field_nests(key: Seq<char>, content: Json)
    requires
        content.nests_within(126),
    ensures
        content.nests_within(127),
        one_field(key, content).nests_within(127),
{
    nesting_is_monotone(content, 126, 127);
    let fields = Map::<Seq<char>, Json>::empty().insert(key, content);
    assert forall|k: Seq<char>| #[trigger] fields.dom().contains(k) implies fields[k].nests_within(
        126,
    ) by {
        assert(k == key);
    }
}

proof fn lemma_node_update(state: DbState, after: DbState, at: int, row: NodeRecord)
    requires
        is_readable(state),
        0 <= at < state.nodes.len(),
        node_is_readable(row),
        after == (DbState { nodes: state.nodes.update(at, row), ..state }),
    ensures
        is_readable(after),
{
    assert forall|i: int| 0 <= i < after.nodes.len() implies node_is_readable(
        #[trigger] after.nodes[i],
    ) by {
        if i != at {
            assert(after.nodes[i] == state.nodes[i]);
        }
    }
}

proof fn lemma_event_added(state: DbState, row: EventRecord)
    requires
        is_readable(state),
        read_event(row) is Ok,
    ensures
        is_readable(state.with_event(row)),
{
    let after = state.with_event(row);
    assert forall|i: int| 0 <= i < after.events.len() implies read_event(
        #[trigger] after.events[i],
    ) is Ok by {
        if i < state.events.len() {
            assert(after.events[i] == state.events[i]);
        }
    }
}

/// Taking a node keeps the store readable.
pub(crate) proof fn lemma_acquire_readable(
    state: DbState,
    lease_id: Uuid,
    task_id: Uuid,
    node_id: Uuid,
    owner: Seq<char>,
    ttl: int,
    now: i64,
)
    requires
        is_readable(state),
        id_reads_back(lease_id),
    ensures
        is_readable(acquire_step(state, lease_id, task_id, node_id, owner, ttl, now).0),
{
    let after = acquire_step(state, lease_id, task_id, node_id, owner, ttl, now).0;
    if state.has_node(task_id@, node_id@) {
        let at = state.node_at(task_id@, node_id@);
        assert(node_is_readable(state.nodes[at]));
        status_words_differ();
        if after != state {
            lemma_node_update(state, after, at, after.nodes[at]);
        }
    }
}

/// Extending a lease keeps the store readable.
pub(crate) proof fn lemma_extend_readable(
    state: DbState,
    task_id: Uuid,
    node_id: Uuid,
    lease_id: Uuid,
    ttl: int,
    now: i64,
)
    requires
        is_readable(state),
    ensures
        is_readable(extend_step(state, task_id, node_id, lease_id, ttl, now).0),
{
    let after = extend_step(state, task_id, node_id, lease_id, ttl, now).0;
    if state.has_node(task_id@, node_id@) {
        let at = state.node_at(task_id@, node_id@);
        assert(node_is_readable(state.nodes[at]));
        if after != state {
            lemma_node_update(state, after, at, after.nodes[at]);
        }
    }
}

/// Ending a node keeps the store readable, if what it ends with can be read back.
pub(crate) proof fn lemma_end_readable(
    state: DbState,
    event_id: Uuid,
    task_id: Uuid,
    node_id: Uuid,
    lease_id: Uuid,
    to: NodeStatus,
    payload: Json,
    now: i64,
    timestamp: Seq<char>,
)
    requires
        is_readable(state),
        id_reads_back(event_id),
        id_reads_back(task_id),
        id_reads_back(node_id),
        content_is_read(payload),
        content_is_read(one_field(ending_field(to), payload)),
    ensures
        is_readable(
            end_step(
                state,
                event_id,
                task_id,
                node_id,
                lease_id,
                to,
                payload,
                now,
                timestamp,
            ).0,
        ),
{
    let after = end_step(
        state,
        event_id,
        task_id,
        node_id,
        lease_id,
        to,
        payload,
        now,
        timestamp,
    ).0;
    if state.has_node(task_id@, node_id@) && after != state {
        let at = state.node_at(task_id@, node_id@);
        assert(node_is_readable(state.nodes[at]));
        status_words_differ();
        let middle = DbState { nodes: state.nodes.update(at, after.nodes[at]), ..state };
        lemma_node_update(state, middle, at, after.nodes[at]);
        lemma_event_added(middle, after.events.last());
        assert(after == middle.with_event(after.events.last()));
    }
}

/// Writing a journal entry keeps the store readable, if its payload can be read back.
pub(crate) proof fn lemma_append_readable(
    state: DbState,
    event_id: Uuid,
    task_id: Uuid,
    node_id: Uuid,
    lease_id: Option<Uuid>,
    action_type: Seq<char>,
    payload: Json,
    timestamp: Seq<char>,
)
    requires
        is_readable(state),
        id_reads_back(event_id),
        id_reads_back(task_id),
        id_reads_back(node_id),
        content_is_read(payload),
    ensures
        is_readable(
            append_step(
                state,
                event_id,
                task_id,
                node_id,
                lease_id,
                action_type,
                payload,
                timestamp,
            ).0,
        ),
{
    let after = append_step(
        state,
        event_id,
        task_id,
        node_id,
        lease_id,
        action_type,
        payload,
        timestamp,
    ).0;
    if after != state {
        lemma_event_added(state, after.events.last());
        assert(after == state.with_event(after.events.last()));
    }
}

/// Rolling overdue nodes back keeps the store readable.
pub proof fn sweep_keeps_store_readable(
    state: DbState,
    scope: Option<Seq<char>>,
    timeout: int,
    now: i64,
)
    requires
        is_readable(state),
    ensures
        is_readable(sweep_step(state, scope, timeout, now).0),
{
    let after = sweep_step(state, scope, timeout, now).0;
    status_words_differ();
    assert forall|i: int| 0 <= i < after.nodes.len() implies node_is_readable(
        #[trigger] after.nodes[i],
    ) by {
        assert(node_is_readable(state.nodes[i]));
    }
}

/// Registering a task keeps the store readable, if its rows can be read.
pub(crate) proof fn lemma_register_readable(
    state: DbState,
    task_id: Uuid,
    goal: Seq<char>,
    context: Json,
    nodes: Seq<(Uuid, NodeDefinition)>,
    now: i64,
    timestamp: Seq<char>,
)
    requires
        is_readable(state),
        id_reads_back(task_id),
        content_is_read(context),
        forall|i: int|
            0 <= i < nodes.len() ==> node_is_readable(
                registered_node(task_id, #[trigger] nodes[i], now),
            ),
    ensures
        is_readable(register_step(state, task_id, goal, context, nodes, now, timestamp).0),
{
    let after = register_step(state, task_id, goal, context, nodes, now, timestamp).0;
    if after != state {
        let n = state.nodes.len() as int;
        assert forall|i: int| 0 <= i < after.nodes.len() implies node_is_readable(
            #[trigger] after.nodes[i],
        ) by {
            if i < n {
                assert(after.nodes[i] == state.nodes[i]);
            } else {
                assert(after.nodes[i] == registered_node(task_id, nodes[i - n], now));
            }
        }
        assert forall|i: int| 0 <= i < after.tasks.len() implies read_task(
            #[trigger] after.tasks[i],
        ) is Ok by {
            if i < state.tasks.len() {
                assert(after.tasks[i] == state.tasks[i]);
            }
        }
    }
}

/// Acquiring a lock keeps the store readable, if the lock can be read.
pub(crate) proof fn lemma_lock_readable(
    state: DbState,
    lease_id: Uuid,
    request: AcquireResourceLock,
    now: i64,
)
    requires
        is_readable(state),
        is_granted(lock_step(state, lease_id, request, now).1) ==> read_grant(
            lock_step(state, lease_id, request, now).1->Ok_0->Some_0,
        ) is Ok,
    ensures
        is_readable(lock_step(state, lease_id, request, now).0),
{
    let after = lock_step(state, lease_id, request, now).0;
    assert forall|i: int| 0 <= i < after.locks.len() implies read_lock(
        #[trigger] after.locks[i],
    ) is Ok by {
        if i < state.locks.len() {
            assert(read_lock(state.locks[i]) is Ok);
        }
    }
}

/// Extending and releasing a lock keep the store readable.
pub(crate) proof fn lemma_lock_changed_readable(
    state: DbState,
    key: Seq<char>,
    lease_id: Uuid,
    ttl: int,
    now: i64,
)
    requires
        is_readable(state),
    ensures
        is_readable(extend_lock_step(state, key, lease_id, ttl, now).0),
        is_readable(release_step(state, key, lease_id).0),
{
    let after = extend_lock_step(state, key, lease_id, ttl, now).0;
    if state.has_lock(key) {
        assert(read_lock(state.locks[state.lock_at(key)]) is Ok);
    }
    assert forall|i: int| 0 <= i < after.locks.len() implies read_lock(
        #[trigger] after.locks[i],
    ) is Ok by {
        assert(read_lock(state.locks[i]) is Ok);
    }
    let freed = release_step(state, key, lease_id).0;
    assert forall|i: int| 0 <= i < freed.locks.len() implies read_lock(
        #[trigger] freed.locks[i],
    ) is Ok by {
        if i < state.lock_at(key) || freed == state {
            assert(read_lock(state.locks[i]) is Ok);
        } else {
            assert(read_lock(state.locks[i + 1]) is Ok);
        }
    }
}

proof fn lemma_each_reads<R, T>(rows: Seq<R>, read: spec_fn(R) -> Result<T, DbFailure>)
    requires
        forall|i: int| 0 <= i < rows.len() ==> read(#[trigger] rows[i]) is Ok,
    ensures
        read_each(rows, read) is Ok,
    decreases rows.len(),
{
    if rows.len() > 0 {
        let fewer = rows.drop_last();
        assert forall|i: int| 0 <= i < fewer.len() implies read(#[trigger] fewer[i]) is Ok by {
            assert(fewer[i] == rows[i]);
        }
        lemma_each_reads(fewer, read);
        assert(read(rows[rows.len() - 1]) is Ok);
    }
}

spec fn events_read(rows: Seq<EventRecord>) -> bool {
    forall|i: int| 0 <= i < rows.len() ==> read_event(#[trigger] rows[i]) is Ok
}

proof fn lemma_filed_reads(journal: Seq<EventRecord>, entry: EventRecord)
    requires
        events_read(journal),
        read_event(entry) is Ok,
    ensures
        events_read(filed(journal, entry)),
    decreases journal.len(),
{
    if !(journal.len() == 0 || text_le(journal.last().timestamp, entry.timestamp)) {
        let fewer = journal.drop_last();
        assert(events_read(fewer)) by {
            assert(forall|i: int| 0 <= i < fewer.len() ==> #[trigger] fewer[i] == journal[i]);
        }
        lemma_filed_reads(fewer, entry);
        assert(read_event(journal[journal.len() - 1]) is Ok);
    }
}

proof fn lemma_chronicle_reads(events: Seq<EventRecord>, task: Seq<char>)
    requires
        events_read(events),
    ensures
        events_read(chronicle(events, task)),
    decreases events.len(),
{
    if events.len() > 0 {
        let fewer = events.drop_last();
        assert(events_read(fewer)) by {
            assert(forall|i: int| 0 <= i < fewer.len() ==> #[trigger] fewer[i] == events[i]);
        }
        lemma_chronicle_reads(fewer, task);
        assert(read_event(events[events.len() - 1]) is Ok);
        if events.last().task_id == task {
            lemma_filed_reads(chronicle(fewer, task), events.last());
        }
    }
}

proof fn lemma_left_behind_reads(state: DbState, task: Seq<char>, nodes: Seq<Uuid>)
    requires
        is_readable(state),
    ensures
        left_behind(state, task, nodes) is Ok,
    decreases nodes.len(),
{
    if nodes.len() > 0 {
        lemma_left_behind_reads(state, task, nodes.drop_last());
        if state.has_node(task, nodes.last()@) {
            assert(node_is_readable(state.nodes[state.node_at(task, nodes.last()@)]));
        }
    }
}

/// In a store that can be read, what a worker is told along with a node can be put together.
pub proof fn context_of_readable_store(state: DbState, task_id: Uuid, row: NodeRecord, limit: u32)
    requires
        is_readable(state),
        state.has_task(task_id@),
        node_is_readable(row),
    ensures
        context_of(state, task_id, row, limit) is Ok,
{
    let dependencies = read_node(row)->Ok_0.dependencies;
    lemma_left_behind_reads(state, task_id@, dependencies);
    let entries = chronicle(state.events, task_id@);
    lemma_chronicle_reads(state.events, task_id@);
    let tail = latest(entries, limit as nat);
    let read = |row: EventRecord| read_event(row);
    assert forall|i: int| 0 <= i < tail.len() implies read(#[trigger] tail[i]) is Ok by {
        let skipped = entries.len() - tail.len();
        assert(tail[i] == entries[skipped + i]);
    }
    lemma_each_reads(tail, read);
    let i = choose|i: int| 0 <= i < state.tasks.len() && (#[trigger] state.tasks[i]).id == task_id@;
    assert(read_task(state.tasks[i]) is Ok);
}

/// In a store that can be read, asking how a task stands or which locks are in force does not fail.
pub proof fn readable_store_is_told(
    state: DbState,
    task_id: Uuid,
    status: Result<SnapshotInfo, CoordinatorFailure>,
    now: int,
    listing: Result<Seq<LockInfo>, CoordinatorFailure>,
)
    requires
        is_readable(state),
        state.has_task(task_id@),
        status_told(state, task_id, status),
        locks_told(state, now, listing),
    ensures
        status is Ok,
        listing is Ok,
{
    let nodes = nodes_of(state.nodes, task_id@);
    let read = |row: NodeRecord| read_node(row);
    assert forall|i: int| 0 <= i < nodes.len() implies read(#[trigger] nodes[i]) is Ok by {
        state.nodes.lemma_filter_contains_rev(
            |row: NodeRecord| row.task_id == task_id@,
            nodes[i],
        );
        let k = choose|k: int| 0 <= k < state.nodes.len() && state.nodes[k] == nodes[i];
        assert(node_is_readable(state.nodes[k]));
    }
    lemma_each_reads(nodes, read);
    let t = choose|t: int| 0 <= t < state.tasks.len() && (#[trigger] state.tasks[t]).id == task_id@;
    assert(read_task(state.tasks[t]) is Ok);
    let told = choose|told: Result<Seq<LockInfo>, DbFailure>| #[trigger]
        lock_listing(state.locks, now, told) && listing == lifted(told);
    let held = held_locks(state.locks, now);
    let rows = choose|rows: Seq<LockRecord>| #[trigger]
        ordered_by_key(rows) && rows.to_multiset() == held.to_multiset() && told == read_locks(rows);
    let read_row = |row: LockRecord| read_lock(row);
    assert forall|i: int| 0 <= i < rows.len() implies read_row(#[trigger] rows[i]) is Ok by {
        rows.to_multiset_ensures();
        held.to_multiset_ensures();
        assert(rows.contains(rows[i]));
        assert(held.to_multiset().count(rows[i]) > 0);
        assert(held.contains(rows[i]));
        state.locks.lemma_filter_contains_rev(|row: LockRecord| is_held(row, now), rows[i]);
        let k = choose|k: int| 0 <= k < state.locks.len() && state.locks[k] == rows[i];
        assert(read_lock(state.locks[k]) is Ok);
    }
    lemma_each_reads(rows, read_row);
}

} // verus!
