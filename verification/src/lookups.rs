//! What the store gives back when it is asked for rows, and what it refuses to change.

use crate::conduct::{
    lemma_node_is_at, lock_is_at, node_is_at, of_task, only_differs_at, task_exists,
};
use crate::error::DbFailure;
use crate::handout::{is_done, taken};
use crate::ids::Uuid;
use crate::json::Json;
use crate::order::{chronicle_follows_time, picks_in_time};
use crate::rows::{read_event, EventInfo, EventRecord, LeaseTerms, NodeRecord, NodeStatus};
use crate::shown::{
    event_is_shown_in_full, event_reads, event_view, lemma_filter_picks, lemma_read_all, picks,
};
use crate::state::{
    acquire_step, append_step, chronicle, end_step, extend_step, latest, lemma_lock_found,
    lemma_task_found, nodes_of, pending_of, read_events, stands, DbState,
};
use crate::wire::event_json;
use vstd::prelude::*;

verus! {

/// A row is found under its key, and under no other.
pub proof fn row_is_found_by_its_key(state: DbState, task_id: Uuid, node_id: Uuid, key: Seq<char>)
    requires
        state.wf(),
    ensures
        state.has_task(task_id@) <==> task_exists(state, task_id),
        forall|i: int|
            0 <= i < state.tasks.len() && (#[trigger] state.tasks[i]).id == task_id@ ==> state.task(
                task_id@,
            ) == state.tasks[i],
        state.has_node(task_id@, node_id@) <==> exists|i: int| #[trigger]
            node_is_at(state, task_id, node_id, i),
        forall|i: int| #[trigger]
            node_is_at(state, task_id, node_id, i) ==> state.node(task_id@, node_id@)
                == state.nodes[i],
        state.has_lock(key) <==> exists|i: int| #[trigger] lock_is_at(state, key, i),
        forall|i: int| #[trigger] lock_is_at(state, key, i) ==> state.lock(key) == state.locks[i],
{
    lemma_node_is_at(state, task_id, node_id);
    assert forall|i: int|
        0 <= i < state.tasks.len() && (#[trigger] state.tasks[i]).id == task_id@ implies state.task(
        task_id@,
    ) == state.tasks[i] by {
        lemma_task_found(state, task_id@, i);
    }
    assert forall|i: int| #[trigger] lock_is_at(state, key, i) implies state.lock(key)
        == state.locks[i] by {
        lemma_lock_found(state, key, i);
    }
    if state.has_lock(key) {
        assert(lock_is_at(state, key, state.lock_at(key)));
    }
}

/// The nodes of a task that wait for a worker.
pub open spec fn waiting_in(task_id: Uuid) -> spec_fn(NodeRecord) -> bool {
    |row: NodeRecord| row.task_id == task_id@ && row.status == "PENDING"@
}

/// The nodes of a task are listed in the order in which they are stored, all of them and no other;
/// so are those that wait.
pub proof fn nodes_of_a_task_are_listed(rows: Seq<NodeRecord>, task_id: Uuid) -> (places: (
    Seq<int>,
    Seq<int>,
))
    ensures
        picks(places.0, rows, of_task(task_id)),
        nodes_of(rows, task_id@) == Seq::new(places.0.len(), |k: int| rows[places.0[k]]),
        picks(places.1, rows, waiting_in(task_id)),
        pending_of(rows, task_id@) == Seq::new(places.1.len(), |k: int| rows[places.1[k]]),
{
    let all = |row: NodeRecord| row.task_id == task_id@;
    let waiting = |row: NodeRecord| row.task_id == task_id@ && stands(row, NodeStatus::Pending);
    assert(all =~= of_task(task_id));
    assert(waiting =~= waiting_in(task_id)) by {
        assert("PENDING"@ == NodeStatus::Pending.word());
    }
    let first = lemma_filter_picks(rows, of_task(task_id));
    let second = lemma_filter_picks(rows, waiting_in(task_id));
    assert(nodes_of(rows, task_id@) =~= Seq::new(first.len(), |k: int| rows[first[k]]));
    assert(pending_of(rows, task_id@) =~= Seq::new(second.len(), |k: int| rows[second[k]]));
    (first, second)
}

/// Several nodes of a task are completed if each of them is there and stands at `COMPLETED`; one
/// that is not there is not completed.
pub proof fn all_are_completed_if_each_is(state: DbState, task_id: Uuid, nodes: Seq<Uuid>)
    requires
        state.wf(),
    ensures
        state.all_completed(task_id@, nodes) <==> forall|i: int|
            0 <= i < nodes.len() ==> is_done(state, task_id, #[trigger] nodes[i]),
{
    assert("COMPLETED"@ == NodeStatus::Completed.word());
    assert forall|i: int| 0 <= i < nodes.len() implies (state.is_completed(
        task_id@,
        (#[trigger] nodes[i])@,
    ) <==> is_done(state, task_id, nodes[i])) by {
        lemma_node_is_at(state, task_id, nodes[i]);
        if state.is_completed(task_id@, nodes[i]@) {
            assert(node_is_at(state, task_id, nodes[i], state.node_at(task_id@, nodes[i]@)));
        }
    }
    if state.all_completed(task_id@, nodes) {
        assert forall|i: int| 0 <= i < nodes.len() implies is_done(
            state,
            task_id,
            #[trigger] nodes[i],
        ) by {
            assert(state.is_completed(task_id@, nodes[i]@));
        }
    }
}

/// The entries of a task are read in the order of time, those of one time in the order in which they
/// were written: the last of them, as many as are asked for, or all if there are fewer.
pub proof fn entries_are_read_in_the_order_of_time(
    events: Seq<EventRecord>,
    task_id: Uuid,
    limit: u32,
) -> (places: Seq<int>)
    ensures
        picks_in_time(places, events, task_id@),
        ({
            let read = read_events(latest(chronicle(events, task_id@), limit as nat));
            let skipped = if places.len() <= limit {
                0
            } else {
                places.len() - limit
            };
            &&& read is Ok <==> forall|k: int|
                skipped <= k < places.len() ==> event_reads(events[#[trigger] places[k]])
            &&& read matches Ok(entries) ==> entries.len() == places.len() - skipped && forall|
                k: int,
            |
                skipped <= k < places.len() ==> event_json(entries[k - skipped]) == event_view(
                    events[#[trigger] places[k]],
                )
        }),
{
    let places = chronicle_follows_time(events, task_id@);
    let all = chronicle(events, task_id@);
    let tail = latest(all, limit as nat);
    let skipped = all.len() - tail.len();
    let read = |row: EventRecord| read_event(row);
    lemma_read_all(tail, read);
    assert forall|k: int| skipped <= k < places.len() implies tail[k - skipped]
        == events[#[trigger] places[k]] && (read(tail[k - skipped]) is Ok <==> event_reads(
        events[places[k]],
    )) by {
        assert(tail[k - skipped] == all[k]);
        event_is_shown_in_full(events[places[k]]);
    }
    if let Ok(entries) = read_events(tail) {
        assert forall|k: int| skipped <= k < places.len() implies event_json(entries[k - skipped])
            == event_view(events[#[trigger] places[k]]) && event_reads(events[places[k]]) by {
            assert(read(tail[k - skipped]) == Ok::<EventInfo, DbFailure>(entries[k - skipped]));
            event_is_shown_in_full(events[places[k]]);
        }
    } else if forall|k: int|
        skipped <= k < places.len() ==> event_reads(events[#[trigger] places[k]]) {
        assert forall|j: int| 0 <= j < tail.len() implies read(#[trigger] tail[j]) is Ok by {
            assert(tail[j] == events[places[skipped + j]]);
            assert(event_reads(events[places[skipped + j]]));
            event_is_shown_in_full(events[places[skipped + j]]);
        }
    }
    places
}

/// A node is taken if it waits, and is left alone if it does not or is not there: then the asker is
/// told that nothing was taken. Whoever takes it is told the lease and its end.
pub proof fn only_a_waiting_node_is_taken(
    state: DbState,
    lease_id: Uuid,
    task_id: Uuid,
    node_id: Uuid,
    owner: Seq<char>,
    ttl: int,
    now: i64,
)
    requires
        state.wf(),
    ensures
        ({
            let (after, outcome) = acquire_step(
                state,
                lease_id,
                task_id,
                node_id,
                owner,
                ttl,
                now,
            );
            let rows = state.nodes;
            &&& (forall|at: int| #[trigger]
                node_is_at(state, task_id, node_id, at) ==> rows[at].status != "PENDING"@) ==> after
                == state && outcome == Ok::<Option<LeaseTerms>, DbFailure>(None)
            &&& forall|at: int| #[trigger]
                node_is_at(state, task_id, node_id, at) && rows[at].status == "PENDING"@ ==> {
                    &&& now + ttl > i64::MAX ==> after == state && outcome == Err::<
                        Option<LeaseTerms>,
                        DbFailure,
                    >(DbFailure::Sqlx("lease expiry out of range"@))
                    &&& now + ttl <= i64::MAX ==> {
                        &&& after == (DbState { nodes: after.nodes, ..state })
                        &&& only_differs_at(rows, after.nodes, at)
                        &&& after.nodes[at] == taken(rows[at], lease_id, owner, now, ttl)
                        &&& outcome == Ok::<Option<LeaseTerms>, DbFailure>(
                            Some(
                                LeaseTerms {
                                    lease_id,
                                    lease_owner: owner,
                                    lease_expires_at: (now + ttl) as i64,
                                },
                            ),
                        )
                    }
                }
        }),
{
    lemma_node_is_at(state, task_id, node_id);
    assert("PENDING"@ == NodeStatus::Pending.word());
    assert("RUNNING"@ == NodeStatus::Running.word());
    if state.has_node(task_id@, node_id@) {
        assert(node_is_at(state, task_id, node_id, state.node_at(task_id@, node_id@)));
    }
}

/// A node that the task does not have cannot be ended, extended or written about, and the failure
/// names it.
pub proof fn missing_node_is_named(
    state: DbState,
    event_id: Uuid,
    task_id: Uuid,
    node_id: Uuid,
    lease_id: Uuid,
    shown: Option<Uuid>,
    to: NodeStatus,
    action_type: Seq<char>,
    payload: Json,
    ttl: int,
    now: i64,
    timestamp: Seq<char>,
)
    requires
        state.wf(),
        forall|at: int| !#[trigger] node_is_at(state, task_id, node_id, at),
    ensures
        ({
            let missing = Err::<Uuid, DbFailure>(
                DbFailure::NotFound("node "@ + node_id@ + " for task "@ + task_id@),
            );
            &&& end_step(
                state,
                event_id,
                task_id,
                node_id,
                lease_id,
                to,
                payload,
                now,
                timestamp,
            ) == (state, missing)
            &&& append_step(
                state,
                event_id,
                task_id,
                node_id,
                shown,
                action_type,
                payload,
                timestamp,
            ) == (state, missing)
            &&& extend_step(state, task_id, node_id, lease_id, ttl, now) == (
                state,
                Ok::<bool, DbFailure>(false),
            )
        }),
{
    lemma_node_is_at(state, task_id, node_id);
}

} // verus!
