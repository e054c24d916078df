//! Which node a worker is handed, what that stores and what the worker is told.

use crate::clock::column_secs;
use crate::conduct::{
    has_node_named, lemma_node_is_at, node_is_at, one_more, task_exists, whole_secs,
};
use crate::coordinator::{
    after_sweep, context_of, first_runnable, sweep_all_step, waits, CoordinatorFailure,
    CoordinatorState, RuntimeMetrics,
};
use crate::error::DbFailure;
use crate::ids::{opt_id, parsed_uuid, Uuid};
use crate::ipc::{answers, Occasion, Request};
use crate::json::{json_parsed, parsed_ids, Json};
use crate::laws::{
    is_runnable, lemma_acquired_row, lemma_choice, lemma_first_runnable, lemma_sweep_wf,
};
use crate::order::{chronicle_follows_time, picks_in_time};
use crate::rows::{
    read_event, status_words_differ, DependencyInfo, EventInfo, EventRecord, NodeRecord,
    NodeStatus,
};
use crate::shown::{
    event_is_shown_in_full, event_reads, event_view, how_many, lemma_filter_counts,
    lemma_read_all, maybe_json, node_is_shown_in_full, node_reads, node_view, picks,
    task_is_shown_in_full, task_reads, task_view,
};
use crate::state::{
    acquire_step, chronicle, is_overdue, latest, left_behind, lemma_task_found, pending_of,
    read_events, sweep_step, DbState,
};
use crate::wire::{dependency_json, event_json};
use vstd::prelude::*;

verus! {

/// The node runs although its time is over: its lease has run out, or it has no end of the lease and
/// was taken the lease time ago.
pub open spec fn is_past_its_time(row: NodeRecord, now: int, secs: int) -> bool {
    &&& row.status == "RUNNING"@
    &&& match (row.lease_expires_at, row.acquired_at) {
        (Some(end), _) => end <= now,
        (None, Some(start)) => start + secs <= now,
        (None, None) => false,
    }
}

/// A node of the task that runs although its time is over.
pub open spec fn has_lapsed(row: NodeRecord, task_id: Uuid, now: int, secs: int) -> bool {
    row.task_id == task_id@ && is_past_its_time(row, now, secs)
}

/// The nodes of one task, or of all, that run although their time is over.
pub open spec fn overdue_in(task_id: Option<Uuid>, now: int, secs: int) -> spec_fn(
    NodeRecord,
) -> bool {
    |row: NodeRecord|
        match task_id {
            Some(task) => has_lapsed(row, task, now, secs),
            None => is_past_its_time(row, now, secs),
        }
}

/// The row of a node that waits again.
pub open spec fn waiting_again(row: NodeRecord, now: i64) -> NodeRecord {
    NodeRecord {
        status: "PENDING"@,
        acquired_at: None,
        lease_id: None,
        lease_owner: None,
        lease_expires_at: None,
        updated_at: now,
        ..row
    }
}

/// The row once nodes of the task whose time is over wait again.
pub open spec fn freed(row: NodeRecord, task_id: Uuid, now: i64, secs: int) -> NodeRecord {
    if has_lapsed(row, task_id, now as int, secs) {
        waiting_again(row, now)
    } else {
        row
    }
}

/// The task has the node and it is completed.
pub open spec fn is_done(state: DbState, task_id: Uuid, node_id: Uuid) -> bool {
    exists|j: int| #[trigger]
        node_is_at(state, task_id, node_id, j) && state.nodes[j].status == "COMPLETED"@
}

/// The node at `i` can be handed out: it is one of the task's, it waits or its time is over, and
/// everything that it depends on is completed.
pub open spec fn can_run(state: DbState, task_id: Uuid, now: int, secs: int, i: int) -> bool {
    let row = state.nodes[i];
    &&& 0 <= i < state.nodes.len()
    &&& row.task_id == task_id@
    &&& row.status == "PENDING"@ || has_lapsed(row, task_id, now, secs)
    &&& parsed_ids(row.dependencies) matches Ok(dependencies)
    &&& forall|d: int|
        0 <= d < dependencies.len() ==> is_done(state, task_id, #[trigger] dependencies[d])
}

/// The node at `at` is the oldest that can be handed out.
pub open spec fn is_next(state: DbState, task_id: Uuid, now: int, secs: int, at: int) -> bool {
    &&& can_run(state, task_id, now, secs, at)
    &&& forall|i: int| 0 <= i < at ==> !#[trigger] can_run(state, task_id, now, secs, i)
}

/// The nodes of the task can be chosen among: their identifiers and dependencies can be read, and
/// they are stored under the canonical text of their identifiers.
pub open spec fn can_choose(state: DbState, task_id: Uuid) -> bool {
    forall|i: int|
        0 <= i < state.nodes.len() && (#[trigger] state.nodes[i]).task_id == task_id@ ==> {
            &&& parsed_uuid(state.nodes[i].id) matches Ok(id)
            &&& state.nodes[i].id == id@
            &&& parsed_ids(state.nodes[i].dependencies) is Ok
        }
}

/// What is told of the dependencies of a node: one entry for each, in their order, with its
/// identifier and with the result that its row holds.
pub open spec fn tells_results(
    items: Seq<Json>,
    state: DbState,
    task_id: Uuid,
    dependencies: Seq<Uuid>,
) -> bool {
    &&& items.len() == dependencies.len()
    &&& forall|k: int, j: int|
        0 <= k < dependencies.len() && #[trigger] node_is_at(state, task_id, dependencies[k], j)
            ==> #[trigger] items[k] == Json::Object(
            map![
                "node_id"@ => Json::Text(dependencies[k]@),
                "result_payload"@ => maybe_json(state.nodes[j].result_payload),
            ],
        )
}

/// The last `limit` of the entries at these places, as a client sees them.
pub open spec fn last_entries(
    events: Seq<EventRecord>,
    places: Seq<int>,
    limit: nat,
) -> Seq<Json> {
    let count = if places.len() <= limit {
        places.len()
    } else {
        limit
    };
    Seq::new(count, |k: int| event_view(events[places[places.len() - count + k]]))
}

/// The results of a node's dependencies can be read.
pub open spec fn results_read(state: DbState, task_id: Uuid, dependencies: Seq<Uuid>) -> bool {
    forall|k: int, j: int|
        0 <= k < dependencies.len() && #[trigger] node_is_at(
            state,
            task_id,
            #[trigger] dependencies[k],
            j,
        ) ==> (state.nodes[j].result_payload matches Some(text) ==> json_parsed(text) is Ok)
}

/// What a worker is told along with the node at `at`: the task, the node, what its dependencies were
/// completed with, and the latest entries of the task's journal.
pub open spec fn tells_context(
    context: Json,
    state: DbState,
    task_id: Uuid,
    at: int,
    limit: u32,
) -> bool {
    exists|t: int, results: Seq<Json>, places: Seq<int>|
        {
            &&& 0 <= t < state.tasks.len()
            &&& (#[trigger] state.tasks[t]).id == task_id@
            &&& #[trigger] tells_results(
                results,
                state,
                task_id,
                parsed_ids(state.nodes[at].dependencies)->Ok_0,
            )
            &&& #[trigger] picks_in_time(places, state.events, task_id@)
            &&& context == Json::Object(
                map![
                    "task"@ => task_view(state.tasks[t]),
                    "node"@ => node_view(state.nodes[at]),
                    "completed_dependencies"@ => Json::Array(results),
                    "event_journal_limit"@ => Json::Integer(limit as int),
                    "event_journal"@ => Json::Array(
                        last_entries(state.events, places, limit as nat),
                    ),
                ],
            )
        }
}

/// What the dependencies that the task has left behind comes in their order: one entry for each of
/// them, with its identifier and the result that its row holds, and none for the others.
pub proof fn each_dependency_is_told_of_once(
    state: DbState,
    task_id: Uuid,
    dependencies: Seq<Uuid>,
    results: Seq<DependencyInfo>,
)
    requires
        state.wf(),
        left_behind(state, task_id@, dependencies) == Ok::<Seq<DependencyInfo>, DbFailure>(results),
    ensures
        exists|places: Seq<int>|
            {
                &&& #[trigger] picks(
                    places,
                    dependencies,
                    has_node_named(state, task_id),
                )
                &&& results.len() == places.len()
                &&& forall|k: int, j: int|
                    0 <= k < results.len() && #[trigger] node_is_at(
                        state,
                        task_id,
                        dependencies[places[k]],
                        j,
                    ) ==> {
                        &&& (#[trigger] results[k]).node_id == dependencies[places[k]]
                        &&& match state.nodes[j].result_payload {
                            Some(text) => json_parsed(text) == Ok::<Json, Seq<char>>(
                                results[k].result_payload->Some_0,
                            ) && results[k].result_payload is Some,
                            None => results[k].result_payload is None,
                        }
                    }
            },
    decreases dependencies.len(),
{
    let present = has_node_named(state, task_id);
    if dependencies.len() == 0 {
        assert(picks(Seq::<int>::empty(), dependencies, present));
    } else {
        let fewer = dependencies.drop_last();
        let last = dependencies.last();
        let n = dependencies.len() - 1;
        let earlier = left_behind(state, task_id@, fewer)->Ok_0;
        each_dependency_is_told_of_once(state, task_id, fewer, earlier);
        let before = choose|places: Seq<int>|
            {
                &&& #[trigger] picks(places, fewer, present)
                &&& earlier.len() == places.len()
                &&& forall|k: int, j: int|
                    0 <= k < earlier.len() && #[trigger] node_is_at(
                        state,
                        task_id,
                        fewer[places[k]],
                        j,
                    ) ==> {
                        &&& (#[trigger] earlier[k]).node_id == fewer[places[k]]
                        &&& match state.nodes[j].result_payload {
                            Some(text) => json_parsed(text) == Ok::<Json, Seq<char>>(
                                earlier[k].result_payload->Some_0,
                            ) && earlier[k].result_payload is Some,
                            None => earlier[k].result_payload is None,
                        }
                    }
            };
        lemma_node_is_at(state, task_id, last);
        let places = if present(last) {
            before.push(n)
        } else {
            before
        };
        assert forall|a: int| 0 <= a < places.len() implies 0 <= #[trigger] places[a]
            < dependencies.len() && present(dependencies[places[a]]) by {
            if a < before.len() {
                assert(places[a] == before[a]);
                assert(fewer[before[a]] == dependencies[before[a]]);
            }
        }
        assert forall|a: int, b: int| 0 <= a < b < places.len() implies (#[trigger] places[a]) < (
        #[trigger] places[b]) by {
            assert(places[a] == before[a]);
            if b < before.len() {
                assert(places[b] == before[b]);
            }
        }
        assert forall|i: int|
            0 <= i < dependencies.len() && present(
                #[trigger] dependencies[i],
            ) implies places.contains(i) by {
            if i < n {
                assert(fewer[i] == dependencies[i]);
                let a = choose|a: int| 0 <= a < before.len() && before[a] == i;
                assert(places[a] == i);
            } else {
                assert(places[before.len() as int] == i);
            }
        }
        assert(picks(places, dependencies, present));
        assert forall|k: int, j: int|
            0 <= k < results.len() && #[trigger] node_is_at(
                state,
                task_id,
                dependencies[places[k]],
                j,
            ) implies {
            &&& (#[trigger] results[k]).node_id == dependencies[places[k]]
            &&& match state.nodes[j].result_payload {
                Some(text) => json_parsed(text) == Ok::<Json, Seq<char>>(
                    results[k].result_payload->Some_0,
                ) && results[k].result_payload is Some,
                None => results[k].result_payload is None,
            }
        } by {
            if k < earlier.len() {
                assert(results[k] == earlier[k]);
                assert(places[k] == before[k]);
                assert(dependencies[places[k]] == fewer[before[k]]);
                assert(node_is_at(state, task_id, fewer[before[k]], j));
            }
        }
    }
}

/// What the dependencies of a node left behind where the task has them all.
proof fn lemma_all_left_behind(state: DbState, task_id: Uuid, dependencies: Seq<Uuid>)
    requires
        state.wf(),
        forall|d: int|
            0 <= d < dependencies.len() ==> is_done(state, task_id, #[trigger] dependencies[d]),
    ensures
        left_behind(state, task_id@, dependencies) is Ok <==> results_read(
            state,
            task_id,
            dependencies,
        ),
        left_behind(state, task_id@, dependencies) matches Ok(results) ==> tells_results(
            results.map_values(|result: DependencyInfo| dependency_json(result)),
            state,
            task_id,
            dependencies,
        ),
    decreases dependencies.len(),
{
    if dependencies.len() > 0 {
        let fewer = dependencies.drop_last();
        let last = dependencies.last();
        let n = dependencies.len() - 1;
        assert forall|d: int| 0 <= d < fewer.len() implies is_done(
            state,
            task_id,
            #[trigger] fewer[d],
        ) by {
            assert(is_done(state, task_id, dependencies[d]));
        }
        lemma_all_left_behind(state, task_id, fewer);
        lemma_node_is_at(state, task_id, last);
        assert(is_done(state, task_id, dependencies[n]));
        let at = state.node_at(task_id@, last@);
        assert(node_is_at(state, task_id, last, at));
        if results_read(state, task_id, dependencies) {
            assert forall|k: int, j: int|
                0 <= k < fewer.len() && #[trigger] node_is_at(
                    state,
                    task_id,
                    #[trigger] fewer[k],
                    j,
                ) implies (state.nodes[j].result_payload matches Some(text) ==> json_parsed(
                text,
            ) is Ok) by {
                assert(node_is_at(state, task_id, dependencies[k], j));
            }
            assert(node_is_at(state, task_id, dependencies[n], at));
        }
        if let Ok(results) = left_behind(state, task_id@, dependencies) {
            let earlier = left_behind(state, task_id@, fewer)->Ok_0;
            let show = |result: DependencyInfo| dependency_json(result);
            let items = results.map_values(show);
            let items_before = earlier.map_values(show);
            assert forall|k: int, j: int|
                0 <= k < dependencies.len() && #[trigger] node_is_at(
                    state,
                    task_id,
                    dependencies[k],
                    j,
                ) implies #[trigger] items[k] == Json::Object(
                map![
                    "node_id"@ => Json::Text(dependencies[k]@),
                    "result_payload"@ => maybe_json(state.nodes[j].result_payload),
                ],
            ) by {
                if k < n {
                    assert(items[k] == items_before[k]);
                    assert(node_is_at(state, task_id, fewer[k], j));
                } else {
                    assert(j == at);
                }
            }
            assert forall|k: int, j: int|
                0 <= k < dependencies.len() && #[trigger] node_is_at(
                    state,
                    task_id,
                    #[trigger] dependencies[k],
                    j,
                ) implies (state.nodes[j].result_payload matches Some(text) ==> json_parsed(
                text,
            ) is Ok) by {
                if k < n {
                    assert(node_is_at(state, task_id, fewer[k], j));
                } else {
                    assert(j == at);
                }
            }
        }
    }
}

/// Everything that a worker may be told along with the node at `at` can be read.
pub open spec fn context_reads(state: DbState, task_id: Uuid, at: int) -> bool {
    &&& forall|t: int|
        0 <= t < state.tasks.len() && (#[trigger] state.tasks[t]).id == task_id@ ==> task_reads(
            state.tasks[t],
        )
    &&& node_reads(state.nodes[at])
    &&& results_read(state, task_id, parsed_ids(state.nodes[at].dependencies)->Ok_0)
    &&& forall|i: int|
        0 <= i < state.events.len() && (#[trigger] state.events[i]).task_id == task_id@
            ==> event_reads(state.events[i])
}

/// What is put together for a worker tells the context of the node, and can be put together if all
/// of it can be read.
proof fn lemma_context(state: DbState, task_id: Uuid, at: int, limit: u32)
    requires
        state.wf(),
        task_exists(state, task_id),
        0 <= at < state.nodes.len(),
        parsed_uuid(state.nodes[at].id) is Ok,
        parsed_ids(state.nodes[at].dependencies) matches Ok(dependencies) && forall|d: int|
            0 <= d < dependencies.len() ==> is_done(state, task_id, #[trigger] dependencies[d]),
    ensures
        context_reads(state, task_id, at) ==> context_of(
            state,
            task_id,
            state.nodes[at],
            limit,
        ) is Ok,
        context_of(state, task_id, state.nodes[at], limit) matches Ok(context) ==> tells_context(
            context,
            state,
            task_id,
            at,
            limit,
        ),
{
    let row = state.nodes[at];
    let dependencies = parsed_ids(row.dependencies)->Ok_0;
    let t = choose|t: int| 0 <= t < state.tasks.len() && (#[trigger] state.tasks[t]).id == task_id@;
    lemma_task_found(state, task_id@, t);
    task_is_shown_in_full(state.tasks[t]);
    node_is_shown_in_full(row);
    lemma_all_left_behind(state, task_id, dependencies);
    let places = chronicle_follows_time(state.events, task_id@);
    let entries = chronicle(state.events, task_id@);
    let tail = latest(entries, limit as nat);
    let read = |row: EventRecord| read_event(row);
    lemma_read_all(tail, read);
    let skipped = entries.len() - tail.len();
    assert forall|k: int| 0 <= k < tail.len() implies #[trigger] tail[k] == state.events[places[skipped
        + k]] by {
        assert(tail[k] == entries[skipped + k]);
    }
    if context_reads(state, task_id, at) {
        assert forall|k: int| 0 <= k < tail.len() implies read(#[trigger] tail[k]) is Ok by {
            let i = places[skipped + k];
            assert(state.events[i].task_id == task_id@);
            event_is_shown_in_full(state.events[i]);
        }
    }
    if let Ok(context) = context_of(state, task_id, row, limit) {
        let results = left_behind(state, task_id@, dependencies)->Ok_0;
        let events = read_events(tail)->Ok_0;
        let shown = events.map_values(|event: EventInfo| event_json(event));
        assert forall|k: int| 0 <= k < tail.len() implies #[trigger] shown[k] == event_view(
            state.events[places[skipped + k]],
        ) by {
            assert(read(tail[k]) == Ok::<EventInfo, DbFailure>(events[k]));
            event_is_shown_in_full(tail[k]);
        }
        assert(shown =~= last_entries(state.events, places, limit as nat));
        let items = results.map_values(|result: DependencyInfo| dependency_json(result));
        assert(tells_results(items, state, task_id, dependencies));
        assert(picks_in_time(places, state.events, task_id@));
        assert(state.tasks[t].id == task_id@);
    }
}

/// The store once the nodes of the task whose time is over wait again.
pub(crate) proof fn lemma_freed(state: CoordinatorState, task_id: Uuid, now: i64)
    ensures
        ({
            let secs = whole_secs(state.running_timeout);
            let ready = after_sweep(state, task_id, now);
            &&& secs == column_secs(state.running_timeout)
            &&& ready == (DbState { nodes: ready.nodes, ..state.db })
            &&& ready.nodes.len() == state.db.nodes.len()
            &&& forall|i: int|
                0 <= i < ready.nodes.len() ==> #[trigger] ready.nodes[i] == freed(
                    state.db.nodes[i],
                    task_id,
                    now,
                    secs,
                )
        }),
{
}

/// A node is completed after the sweep exactly if it was before.
pub(crate) proof fn lemma_done(state: CoordinatorState, task_id: Uuid, now: i64, node_id: Uuid)
    requires
        state.db.wf(),
    ensures
        after_sweep(state, task_id, now).is_completed(task_id@, node_id@) <==> is_done(
            state.db,
            task_id,
            node_id,
        ),
        is_done(after_sweep(state, task_id, now), task_id, node_id) <==> is_done(
            state.db,
            task_id,
            node_id,
        ),
{
    let ready = after_sweep(state, task_id, now);
    lemma_freed(state, task_id, now);
    lemma_sweep_wf(state.db, Some(task_id@), column_secs(state.running_timeout), now);
    lemma_node_is_at(ready, task_id, node_id);
    status_words_differ();
    assert("PENDING"@ == NodeStatus::Pending.word());
    assert("RUNNING"@ == NodeStatus::Running.word());
    assert("COMPLETED"@ == NodeStatus::Completed.word());
    if is_done(state.db, task_id, node_id) {
        let j = choose|j: int| #[trigger]
            node_is_at(state.db, task_id, node_id, j) && state.db.nodes[j].status == "COMPLETED"@;
        assert(ready.nodes[j] == state.db.nodes[j]);
        assert(node_is_at(ready, task_id, node_id, j));
    }
    if is_done(ready, task_id, node_id) {
        let j = choose|j: int| #[trigger]
            node_is_at(ready, task_id, node_id, j) && ready.nodes[j].status == "COMPLETED"@;
        assert(node_is_at(state.db, task_id, node_id, j));
    }
    if ready.is_completed(task_id@, node_id@) {
        let j = ready.node_at(task_id@, node_id@);
        assert(node_is_at(ready, task_id, node_id, j));
    }
}

/// A node is runnable after the sweep exactly if it can be handed out.
proof fn lemma_can_run(state: CoordinatorState, task_id: Uuid, now: i64, i: int)
    requires
        state.db.wf(),
        0 <= i < state.db.nodes.len(),
    ensures
        ({
            let ready = after_sweep(state, task_id, now);
            is_runnable(ready, task_id@, ready.nodes[i]) <==> can_run(
                state.db,
                task_id,
                now as int,
                whole_secs(state.running_timeout),
                i,
            )
        }),
{
    let ready = after_sweep(state, task_id, now);
    lemma_freed(state, task_id, now);
    status_words_differ();
    assert("PENDING"@ == NodeStatus::Pending.word());
    assert("RUNNING"@ == NodeStatus::Running.word());
    if let Ok(dependencies) = parsed_ids(state.db.nodes[i].dependencies) {
        assert forall|d: int| 0 <= d < dependencies.len() implies (ready.is_completed(
            task_id@,
            (#[trigger] dependencies[d])@,
        ) <==> is_done(state.db, task_id, dependencies[d])) by {
            lemma_done(state, task_id, now, dependencies[d]);
        }
    }
}

/// The row of a node as it is handed out.
pub open spec fn taken(
    row: NodeRecord,
    lease_id: Uuid,
    owner: Seq<char>,
    now: i64,
    secs: int,
) -> NodeRecord {
    NodeRecord {
        status: "RUNNING"@,
        acquired_at: Some(now),
        lease_id: Some(lease_id@),
        lease_owner: Some(owner),
        lease_expires_at: Some((now + secs) as i64),
        updated_at: now,
        ..row
    }
}

/// The time that the counter takes for an attempt.
pub open spec fn counted_micros(micros: u128) -> int {
    if micros <= 0xffff_ffff_ffff_ffff {
        micros as int
    } else {
        0xffff_ffff_ffff_ffff
    }
}

/// The counter counts so many more; behind the largest number it begins again.
pub open spec fn so_many_more(before: u64, after: u64, count: int) -> bool {
    count <= u64::MAX ==> after as int == (before + count) % 0x1_0000_0000_0000_0000
}

/// Asking for a node first lets the nodes of the task whose time is over wait again, and touches no
/// other row. Then the oldest node of the task that waits and has everything completed that it
/// depends on is handed out: it runs from then on, under a new lease of the one who asked, for the
/// lease time. The worker is told of that lease and of the node's context. If there is no such node,
/// the worker is told so.
///
/// This holds as long as the nodes of the task can be chosen among. An unknown task is refused.
pub proof fn oldest_node_that_can_run_is_handed_out(
    before: CoordinatorState,
    task_id: Uuid,
    lease_owner: String,
    fresh: Uuid,
    occasion: Occasion,
    after: CoordinatorState,
    outcome: Result<Json, CoordinatorFailure>,
)
    requires
        before.db.wf(),
        answers(
            before,
            Request::AcquireNextNode { task_id, lease_owner },
            fresh,
            occasion,
            after,
            outcome,
        ),
    ensures
        ({
            let now = occasion.now.secs;
            let secs = whole_secs(before.running_timeout);
            let rows = before.db.nodes;
            let none = forall|i: int| !#[trigger]
                can_run(before.db, task_id, now as int, secs, i);
            &&& after.db == (DbState { nodes: after.db.nodes, ..before.db })
            &&& after.db.nodes.len() == rows.len()
            &&& after.running_timeout == before.running_timeout
            &&& after.context_event_limit == before.context_event_limit
            &&& !task_exists(before.db, task_id) ==> after.db == before.db && outcome == Err::<
                Json,
                CoordinatorFailure,
            >(CoordinatorFailure::TaskNotFound(task_id))
            &&& task_exists(before.db, task_id) && can_choose(before.db, task_id) ==> {
                &&& none ==> {
                    &&& outcome == Ok::<Json, CoordinatorFailure>(Json::Null)
                    &&& forall|i: int|
                        0 <= i < rows.len() ==> #[trigger] after.db.nodes[i] == freed(
                            rows[i],
                            task_id,
                            now,
                            secs,
                        )
                }
                &&& forall|at: int| #[trigger]
                    is_next(before.db, task_id, now as int, secs, at) ==> {
                        &&& forall|i: int|
                            0 <= i < rows.len() && i != at ==> #[trigger] after.db.nodes[i] == freed(
                                rows[i],
                                task_id,
                                now,
                                secs,
                            )
                        &&& now + secs > i64::MAX ==> outcome is Err && after.db.nodes[at] == freed(
                            rows[at],
                            task_id,
                            now,
                            secs,
                        )
                        &&& now + secs <= i64::MAX ==> {
                            &&& after.db.nodes[at] == taken(
                                rows[at],
                                fresh,
                                lease_owner@,
                                now,
                                secs,
                            )
                            &&& context_reads(after.db, task_id, at) ==> outcome is Ok
                            &&& outcome matches Ok(content) ==> exists|context: Json|
                                {
                                    &&& #[trigger] tells_context(
                                        context,
                                        after.db,
                                        task_id,
                                        at,
                                        before.context_event_limit,
                                    )
                                    &&& content == Json::Object(
                                        map![
                                            "task_id"@ => Json::Text(task_id@),
                                            "node_id"@ => Json::Text(rows[at].id),
                                            "lease_id"@ => Json::Text(fresh@),
                                            "lease_owner"@ => Json::Text(lease_owner@),
                                            "lease_expires_at"@ => Json::Integer(now + secs),
                                            "context"@ => context,
                                        ],
                                    )
                                }
                        }
                    }
            }
        }),
{
    let now = occasion.now.secs;
    let secs = whole_secs(before.running_timeout);
    let rows = before.db.nodes;
    let ready = after_sweep(before, task_id, now);
    let owner = lease_owner@;
    lemma_freed(before, task_id, now);
    if task_exists(before.db, task_id) && can_choose(before.db, task_id) {
        lemma_chosen(before, task_id, now);
        if let Ok(Some(node_id)) = first_runnable(
            ready,
            task_id,
            pending_of(ready.nodes, task_id@),
        ) {
            let found = ready.node_at(task_id@, node_id@);
            assert forall|at: int| #[trigger]
                is_next(before.db, task_id, now as int, secs, at) implies at == found by {
                if at < found {
                    assert(!can_run(before.db, task_id, now as int, secs, at));
                }
                if found < at {
                    assert(!can_run(before.db, task_id, now as int, secs, found));
                }
            }
            if now + secs <= i64::MAX {
                lemma_acquired_row(ready, fresh, task_id, node_id, owner, secs, now);
                let held = acquire_step(ready, fresh, task_id, node_id, owner, secs, now).0;
                assert(after.db == held);
                assert(held.nodes[found] == taken(rows[found], fresh, owner, now, secs));
                assert(task_exists(held, task_id)) by {
                    let t = choose|t: int|
                        0 <= t < before.db.tasks.len() && (#[trigger] before.db.tasks[t]).id
                            == task_id@;
                    assert(held.tasks[t].id == task_id@);
                }
                let dependencies = parsed_ids(rows[found].dependencies)->Ok_0;
                assert forall|d: int| 0 <= d < dependencies.len() implies is_done(
                    held,
                    task_id,
                    #[trigger] dependencies[d],
                ) by {
                    lemma_still_done(before, task_id, now, held, found, dependencies[d]);
                }
                lemma_context(held, task_id, found, before.context_event_limit);
            }
        }
    } else {
        lemma_sweep_wf(before.db, Some(task_id@), secs, now);
        lemma_first_runnable(ready, task_id, pending_of(ready.nodes, task_id@));
    }
}

/// What is chosen is the oldest node that can be handed out.
proof fn lemma_chosen(before: CoordinatorState, task_id: Uuid, now: i64)
    requires
        before.db.wf(),
        can_choose(before.db, task_id),
    ensures
        ({
            let secs = whole_secs(before.running_timeout);
            let ready = after_sweep(before, task_id, now);
            &&& ready.wf()
            &&& match first_runnable(ready, task_id, pending_of(ready.nodes, task_id@)) {
                Ok(Some(node_id)) => {
                    let at = ready.node_at(task_id@, node_id@);
                    &&& is_next(before.db, task_id, now as int, secs, at)
                    &&& waits(ready, task_id@, node_id@)
                    &&& before.db.nodes[at].id == node_id@
                },
                Ok(None) => forall|i: int| !#[trigger]
                    can_run(before.db, task_id, now as int, secs, i),
                Err(_) => false,
            }
        }),
{
    let secs = whole_secs(before.running_timeout);
    let rows = before.db.nodes;
    let ready = after_sweep(before, task_id, now);
    lemma_freed(before, task_id, now);
    lemma_sweep_wf(before.db, Some(task_id@), secs, now);
    lemma_first_runnable(ready, task_id, pending_of(ready.nodes, task_id@));
    assert forall|i: int|
        0 <= i < ready.nodes.len() && (#[trigger] ready.nodes[i]).task_id == task_id@ implies (
    parsed_uuid(ready.nodes[i].id) matches Ok(id) && ready.nodes[i].id == id@) && parsed_ids(
        ready.nodes[i].dependencies,
    ) is Ok by {
        assert(rows[i].task_id == task_id@);
    }
    assert(ready.nodes.skip(0) =~= ready.nodes);
    lemma_choice(ready, task_id, 0);
    assert forall|i: int| 0 <= i < rows.len() implies (is_runnable(
        ready,
        task_id@,
        #[trigger] ready.nodes[i],
    ) <==> can_run(before.db, task_id, now as int, secs, i)) by {
        lemma_can_run(before, task_id, now, i);
    }
    match first_runnable(ready, task_id, pending_of(ready.nodes, task_id@)) {
        Ok(Some(node_id)) => {
            let found = ready.node_at(task_id@, node_id@);
            assert(can_run(before.db, task_id, now as int, secs, found));
            assert forall|i: int| 0 <= i < found implies !#[trigger] can_run(
                before.db,
                task_id,
                now as int,
                secs,
                i,
            ) by {
                assert(!is_runnable(ready, task_id@, ready.nodes[i]));
            }
        },
        Ok(None) => {
            assert forall|i: int| !#[trigger] can_run(before.db, task_id, now as int, secs, i) by {
                if 0 <= i < rows.len() {
                    assert(!is_runnable(ready, task_id@, ready.nodes[i]));
                }
            }
        },
        Err(_) => {},
    }
}

/// Handing out a node that waits takes no completed node away.
proof fn lemma_still_done(
    before: CoordinatorState,
    task_id: Uuid,
    now: i64,
    held: DbState,
    at: int,
    node_id: Uuid,
)
    requires
        before.db.wf(),
        is_done(before.db, task_id, node_id),
        ({
            let ready = after_sweep(before, task_id, now);
            &&& 0 <= at < ready.nodes.len()
            &&& ready.nodes[at].status == "PENDING"@
            &&& held.nodes.len() == ready.nodes.len()
            &&& forall|i: int|
                0 <= i < ready.nodes.len() && i != at ==> #[trigger] held.nodes[i] == ready.nodes[i]
        }),
    ensures
        is_done(held, task_id, node_id),
{
    let ready = after_sweep(before, task_id, now);
    lemma_done(before, task_id, now, node_id);
    status_words_differ();
    assert("PENDING"@ == NodeStatus::Pending.word());
    assert("COMPLETED"@ == NodeStatus::Completed.word());
    let j = choose|j: int| #[trigger]
        node_is_at(ready, task_id, node_id, j) && ready.nodes[j].status == "COMPLETED"@;
    assert(node_is_at(held, task_id, node_id, j));
}

/// A sweep lets exactly those nodes wait again that run although their time is over, of one task or
/// of all, and counts them. It touches no other row.
pub proof fn sweep_frees_what_is_past_its_time(
    state: DbState,
    task_id: Option<Uuid>,
    timeout: core::time::Duration,
    now: i64,
)
    ensures
        ({
            let wanted = overdue_in(task_id, now as int, whole_secs(timeout));
            let (after, count) = sweep_step(state, opt_id(task_id), column_secs(timeout), now);
            &&& after == (DbState { nodes: after.nodes, ..state })
            &&& after.nodes.len() == state.nodes.len()
            &&& forall|i: int|
                0 <= i < state.nodes.len() ==> #[trigger] after.nodes[i] == (if wanted(
                    state.nodes[i],
                ) {
                    waiting_again(state.nodes[i], now)
                } else {
                    state.nodes[i]
                })
            &&& count == how_many(state.nodes, wanted)
        }),
{
    let wanted = overdue_in(task_id, now as int, whole_secs(timeout));
    let ttl = column_secs(timeout);
    let overdue = |row: NodeRecord| is_overdue(row, opt_id(task_id), now as int, ttl);
    assert(overdue =~= wanted);
    lemma_filter_counts(state.nodes, wanted);
}

/// The daemon's own sweep goes over all tasks, with the lease time that it is set up with, and is
/// counted.
pub proof fn daemon_sweeps_all_tasks(state: CoordinatorState, now: i64)
    ensures
        ({
            let wanted = overdue_in(None, now as int, whole_secs(state.running_timeout));
            let (after, count) = sweep_all_step(state, now);
            &&& after.db == (DbState { nodes: after.db.nodes, ..state.db })
            &&& after.db.nodes.len() == state.db.nodes.len()
            &&& forall|i: int|
                0 <= i < state.db.nodes.len() ==> #[trigger] after.db.nodes[i] == (if wanted(
                    state.db.nodes[i],
                ) {
                    waiting_again(state.db.nodes[i], now)
                } else {
                    state.db.nodes[i]
                })
            &&& count == how_many(state.db.nodes, wanted)
            &&& after == (CoordinatorState {
                db: after.db,
                metrics: RuntimeMetrics {
                    timeout_rollbacks: after.metrics.timeout_rollbacks,
                    ..state.metrics
                },
                ..state
            })
            &&& so_many_more(
                state.metrics.timeout_rollbacks,
                after.metrics.timeout_rollbacks,
                count as int,
            )
        }),
{
    sweep_frees_what_is_past_its_time(state.db, None, state.running_timeout, now);
}

/// Every request for a node is counted as an attempt, the nodes that wait again as rolled back, a
/// node that is handed out as acquired, and the time of an attempt that came to an end is added to the
/// total. No other counter moves.
pub proof fn asking_for_a_node_is_counted(
    before: CoordinatorState,
    task_id: Uuid,
    lease_owner: String,
    fresh: Uuid,
    occasion: Occasion,
    after: CoordinatorState,
    outcome: Result<Json, CoordinatorFailure>,
)
    requires
        before.db.wf(),
        answers(
            before,
            Request::AcquireNextNode { task_id, lease_owner },
            fresh,
            occasion,
            after,
            outcome,
        ),
    ensures
        ({
            let now = occasion.now.secs;
            let secs = whole_secs(before.running_timeout);
            let micros = counted_micros(occasion.elapsed_micros);
            let rolled = how_many(before.db.nodes, overdue_in(Some(task_id), now as int, secs));
            let none = forall|i: int| !#[trigger]
                can_run(before.db, task_id, now as int, secs, i);
            let earlier = before.metrics;
            let later = after.metrics;
            &&& later == (RuntimeMetrics {
                acquire_attempts: later.acquire_attempts,
                acquired_nodes: later.acquired_nodes,
                acquisition_latency_micros_total: later.acquisition_latency_micros_total,
                timeout_rollbacks: later.timeout_rollbacks,
                ..earlier
            })
            &&& one_more(earlier.acquire_attempts, later.acquire_attempts)
            &&& !task_exists(before.db, task_id) ==> later == (RuntimeMetrics {
                acquire_attempts: later.acquire_attempts,
                ..earlier
            })
            &&& task_exists(before.db, task_id) ==> so_many_more(
                earlier.timeout_rollbacks,
                later.timeout_rollbacks,
                rolled as int,
            )
            &&& task_exists(before.db, task_id) && can_choose(before.db, task_id) ==> {
                &&& none ==> later.acquired_nodes == earlier.acquired_nodes && so_many_more(
                    earlier.acquisition_latency_micros_total,
                    later.acquisition_latency_micros_total,
                    micros,
                )
                &&& !none && now + secs <= i64::MAX ==> one_more(
                    earlier.acquired_nodes,
                    later.acquired_nodes,
                ) && so_many_more(
                    earlier.acquisition_latency_micros_total,
                    later.acquisition_latency_micros_total,
                    micros,
                )
                &&& !none && now + secs > i64::MAX ==> later.acquired_nodes == earlier.acquired_nodes
                    && later.acquisition_latency_micros_total
                    == earlier.acquisition_latency_micros_total
            }
        }),
{
    let now = occasion.now.secs;
    let secs = whole_secs(before.running_timeout);
    let ready = after_sweep(before, task_id, now);
    lemma_freed(before, task_id, now);
    sweep_frees_what_is_past_its_time(before.db, Some(task_id), before.running_timeout, now);
    if task_exists(before.db, task_id) && can_choose(before.db, task_id) {
        lemma_chosen(before, task_id, now);
        if let Ok(Some(node_id)) = first_runnable(
            ready,
            task_id,
            pending_of(ready.nodes, task_id@),
        ) {
            let found = ready.node_at(task_id@, node_id@);
            assert(can_run(before.db, task_id, now as int, secs, found));
        }
    }
}

} // verus!
