//! What each request does, told by the rows before and after it and by what the client is told.

use crate::clock::duration_nanos;
use crate::coordinator::{
    lifted, locks_told, metrics_told, status_told, CoordinatorFailure, CoordinatorState,
    MetricsSnapshot, RuntimeMetrics,
};
use crate::error::{DbError, DbFailure};
use crate::ids::{parsed_uuid, Uuid};
use crate::ipc::{answers, field_json, shown, Occasion, Request};
use crate::json::{json_content, json_parsed, json_text, Json};
use crate::order::{sorts_before, text_order_is_lexicographic};
use crate::queries::lock_listing;
use crate::reports::{is_lapsed, is_leased, snapshot_told, status_counts, SnapshotInfo};
use crate::rows::{read_lock, read_node, LockInfo, LockRecord, NodeInfo, NodeRecord};
use crate::schema::lemma_newest_bounds;
use crate::shown::{
    how_many, lemma_filter_counts, lemma_filter_picks, lemma_filter_twice, lemma_read_all,
    lock_is_shown_in_full, lock_reads, lock_view, maybe_id, maybe_text, node_is_shown_in_full,
    node_reads, node_view, picks, task_is_shown_in_full, task_reads, task_view,
};
use crate::state::{
    held_locks, is_held, is_node, lemma_lock_found, lemma_node_found, lemma_task_found,
    nodes_of, ordered_by_key, read_locks, read_nodes, DbState,
};
use crate::text::text_le;
use crate::wire::{
    counts_json, database_json, lock_json, metrics_json, node_json, runtime_json, snapshot_json,
};
use vstd::prelude::*;

verus! {

/// The store has a task under this identifier.
pub open spec fn task_exists(state: DbState, task_id: Uuid) -> bool {
    exists|t: int| 0 <= t < state.tasks.len() && (#[trigger] state.tasks[t]).id == task_id@
}

/// The row at `at` is that of the task's node.
pub open spec fn node_is_at(state: DbState, task_id: Uuid, node_id: Uuid, at: int) -> bool {
    0 <= at < state.nodes.len() && state.nodes[at].task_id == task_id@ && state.nodes[at].id
        == node_id@
}

/// The task has the node.
pub open spec fn node_exists(state: DbState, task_id: Uuid, node_id: Uuid) -> bool {
    exists|at: int| #[trigger] node_is_at(state, task_id, node_id, at)
}

/// The identifiers under which the task has a node.
pub open spec fn has_node_named(state: DbState, task_id: Uuid) -> spec_fn(Uuid) -> bool {
    |node_id: Uuid| node_exists(state, task_id, node_id)
}

/// The nodes that have the task's identifier as their `task_id`.
pub open spec fn of_task(task_id: Uuid) -> spec_fn(NodeRecord) -> bool {
    |row: NodeRecord| row.task_id == task_id@
}

/// For each status word of a wanted node, how many wanted nodes have it; nothing for other words.
pub open spec fn counts_statuses(
    counts: Map<Seq<char>, Json>,
    rows: Seq<NodeRecord>,
    wanted: spec_fn(NodeRecord) -> bool,
) -> bool {
    &&& forall|word: Seq<char>| #[trigger]
        counts.dom().contains(word) <==> exists|i: int|
            0 <= i < rows.len() && wanted(#[trigger] rows[i]) && rows[i].status == word
    &&& forall|word: Seq<char>| #[trigger]
        counts.dom().contains(word) ==> counts[word] == Json::Integer(
            how_many(rows, |row: NodeRecord| wanted(row) && row.status == word) as int,
        )
}

/// The nodes at these places, as a client sees them.
pub open spec fn nodes_at(rows: Seq<NodeRecord>, places: Seq<int>) -> Seq<Json> {
    Seq::new(places.len(), |k: int| node_view(rows[places[k]]))
}

proof fn lemma_counts(
    rows: Seq<NodeRecord>,
    wanted: spec_fn(NodeRecord) -> bool,
    counted: Map<Seq<char>, nat>,
)
    requires
        counted == status_counts(rows.filter(wanted)),
    ensures
        counts_statuses(
            counted.map_values(|count: nat| Json::Integer(count as int)),
            rows,
            wanted,
        ),
{
    let counts = counted.map_values(|count: nat| Json::Integer(count as int));
    assert forall|word: Seq<char>| #[trigger] counts.dom().contains(word) <==> (exists|i: int|
        0 <= i < rows.len() && wanted(#[trigger] rows[i]) && rows[i].status == word) by {
        let both = |row: NodeRecord| wanted(row) && row.status == word;
        lemma_filter_twice(rows, wanted, |row: NodeRecord| row.status == word);
        assert(rows.filter(
            |row: NodeRecord| wanted(row) && (|row: NodeRecord| row.status == word)(row),
        ) == rows.filter(both)) by {
            assert((|row: NodeRecord| wanted(row) && (|row: NodeRecord| row.status == word)(row))
                =~= both);
        }
        let places = lemma_filter_picks(rows, both);
        if counts.dom().contains(word) {
            let at = places[0];
            assert(wanted(rows[at]) && rows[at].status == word);
        }
        if exists|i: int|
            0 <= i < rows.len() && wanted(#[trigger] rows[i]) && rows[i].status == word {
            let i = choose|i: int|
                0 <= i < rows.len() && wanted(#[trigger] rows[i]) && rows[i].status == word;
            assert(both(rows[i]));
            assert(places.contains(i));
        }
    }
    assert forall|word: Seq<char>| #[trigger] counts.dom().contains(word) implies counts[word]
        == Json::Integer(
        how_many(rows, |row: NodeRecord| wanted(row) && row.status == word) as int,
    ) by {
        let both = |row: NodeRecord| wanted(row) && row.status == word;
        lemma_filter_twice(rows, wanted, |row: NodeRecord| row.status == word);
        assert((|row: NodeRecord| wanted(row) && (|row: NodeRecord| row.status == word)(row))
            =~= both);
        lemma_filter_counts(rows, both);
    }
}

/// The status of a task tells of the task, of every node that has the task's identifier as its
/// `task_id` and of no other, each once and in the order of registration, and counts those nodes by
/// status. An unknown task has no status; a known one has, as long as its rows can be read. Asking
/// changes nothing.
pub proof fn status_tells_of_the_task_alone(
    before: CoordinatorState,
    task_id: Uuid,
    fresh: Uuid,
    occasion: Occasion,
    after: CoordinatorState,
    outcome: Result<Json, CoordinatorFailure>,
)
    requires
        before.db.wf(),
        answers(before, Request::TaskStatus { task_id }, fresh, occasion, after, outcome),
    ensures
        after == before,
        !task_exists(before.db, task_id) ==> outcome == Err::<Json, CoordinatorFailure>(
            CoordinatorFailure::TaskNotFound(task_id),
        ),
        forall|t: int|
            0 <= t < before.db.tasks.len() && (#[trigger] before.db.tasks[t]).id == task_id@ ==> {
                &&& outcome is Ok <==> task_reads(before.db.tasks[t]) && forall|i: int|
                    0 <= i < before.db.nodes.len() && (#[trigger] before.db.nodes[i]).task_id
                        == task_id@ ==> node_reads(before.db.nodes[i])
                &&& outcome matches Ok(content) ==> exists|
                    places: Seq<int>,
                    counts: Map<Seq<char>, Json>,
                |
                    {
                        &&& #[trigger] picks(places, before.db.nodes, of_task(task_id))
                        &&& #[trigger] counts_statuses(counts, before.db.nodes, of_task(task_id))
                        &&& content == Json::Object(
                            map![
                                "task"@ => task_view(before.db.tasks[t]),
                                "counts"@ => Json::Object(counts),
                                "nodes"@ => Json::Array(nodes_at(before.db.nodes, places)),
                            ],
                        )
                    }
            },
{
    let state = before.db;
    let rows = state.nodes;
    let ours = of_task(task_id);
    let res = choose|res: Result<SnapshotInfo, CoordinatorFailure>| #[trigger]
        status_told(state, task_id, res) && outcome == shown(
            res,
            |snapshot: SnapshotInfo| snapshot_json(snapshot),
        );
    let told = choose|told: Result<Option<SnapshotInfo>, DbFailure>| #[trigger]
        snapshot_told(state, task_id@, told) && res == (match told {
            Ok(Some(info)) => Ok(info),
            Ok(None) => Err(CoordinatorFailure::TaskNotFound(task_id)),
            Err(failure) => Err(CoordinatorFailure::Db(failure)),
        });
    assert forall|t: int|
        0 <= t < state.tasks.len() && (#[trigger] state.tasks[t]).id == task_id@ implies {
        &&& outcome is Ok <==> task_reads(state.tasks[t]) && forall|i: int|
            0 <= i < rows.len() && (#[trigger] rows[i]).task_id == task_id@ ==> node_reads(rows[i])
        &&& outcome matches Ok(content) ==> exists|
            places: Seq<int>,
            counts: Map<Seq<char>, Json>,
        |
            {
                &&& #[trigger] picks(places, rows, ours)
                &&& #[trigger] counts_statuses(counts, rows, ours)
                &&& content == Json::Object(
                    map![
                        "task"@ => task_view(state.tasks[t]),
                        "counts"@ => Json::Object(counts),
                        "nodes"@ => Json::Array(nodes_at(rows, places)),
                    ],
                )
            }
    } by {
        lemma_task_found(state, task_id@, t);
        task_is_shown_in_full(state.tasks[t]);
        let mine = nodes_of(rows, task_id@);
        assert(mine == rows.filter(ours));
        let places = lemma_filter_picks(rows, ours);
        let read = |row: NodeRecord| read_node(row);
        lemma_read_all(mine, read);
        assert(read_nodes(mine) is Ok <==> forall|i: int|
            0 <= i < rows.len() && (#[trigger] rows[i]).task_id == task_id@ ==> node_reads(rows[i]))
            by {
            if read_nodes(mine) is Ok {
                assert forall|i: int|
                    0 <= i < rows.len() && (#[trigger] rows[i]).task_id
                        == task_id@ implies node_reads(rows[i]) by {
                    assert(ours(rows[i]));
                    assert(places.contains(i));
                    let k = choose|k: int| 0 <= k < places.len() && places[k] == i;
                    assert(mine[k] == rows[places[k]]);
                    let items = read_nodes(mine)->Ok_0;
                    assert(read(mine[k]) == Ok::<NodeInfo, DbFailure>(items[k]));
                    node_is_shown_in_full(rows[i]);
                }
            }
            if forall|i: int|
                0 <= i < rows.len() && (#[trigger] rows[i]).task_id == task_id@ ==> node_reads(
                    rows[i],
                ) {
                assert forall|k: int| 0 <= k < mine.len() implies read(#[trigger] mine[k]) is Ok by {
                    assert(mine[k] == rows[places[k]]);
                    assert(ours(rows[places[k]]));
                    node_is_shown_in_full(rows[places[k]]);
                }
            }
        }
        if let Ok(content) = outcome {
            let info = res->Ok_0;
            let items = info.nodes;
            lemma_counts(rows, ours, info.counts);
            let counts = info.counts.map_values(|count: nat| Json::Integer(count as int));
            assert forall|k: int| 0 <= k < items.len() implies node_json(
                #[trigger] items[k],
            ) == node_view(rows[places[k]]) by {
                assert(mine[k] == rows[places[k]]);
                assert(read(mine[k]) == Ok::<NodeInfo, DbFailure>(items[k]));
                node_is_shown_in_full(rows[places[k]]);
            }
            assert(items.map_values(|node: NodeInfo| node_json(node)) =~= nodes_at(
                rows,
                places,
            ));
            assert(content == Json::Object(
                map![
                    "task"@ => task_view(state.tasks[t]),
                    "counts"@ => Json::Object(counts),
                    "nodes"@ => Json::Array(nodes_at(rows, places)),
                ],
            ));
        }
    }
}

/// `average` is the whole part of `total` shared out among `attempts`; nothing if there are none.
pub open spec fn is_average(average: int, total: int, attempts: int) -> bool {
    if attempts == 0 {
        average == 0
    } else {
        average * attempts <= total < (average + 1) * attempts
    }
}

/// The newest of the versions, or zero if there is none.
pub open spec fn is_newest(version: int, versions: Seq<i64>) -> bool {
    &&& versions.len() == 0 ==> version == 0
    &&& versions.len() > 0 ==> exists|i: int| 0 <= i < versions.len() && #[trigger] versions[i] == version
    &&& forall|i: int| 0 <= i < versions.len() ==> #[trigger] versions[i] <= version
}

/// The counters of the daemon as a client sees them.
pub open spec fn counters_view(state: CoordinatorState, average: int) -> Json {
    Json::Object(
        map![
            "registered_tasks"@ => Json::Integer(state.metrics.registered_tasks as int),
            "acquire_attempts"@ => Json::Integer(state.metrics.acquire_attempts as int),
            "acquired_nodes"@ => Json::Integer(state.metrics.acquired_nodes as int),
            "acquisition_latency_micros_total"@ => Json::Integer(
                state.metrics.acquisition_latency_micros_total as int,
            ),
            "average_acquisition_latency_micros"@ => Json::Integer(average),
            "committed_events"@ => Json::Integer(state.metrics.committed_events as int),
            "heartbeats"@ => Json::Integer(state.metrics.heartbeats as int),
            "completed_nodes"@ => Json::Integer(state.metrics.completed_nodes as int),
            "failed_nodes"@ => Json::Integer(state.metrics.failed_nodes as int),
            "timeout_rollbacks"@ => Json::Integer(state.metrics.timeout_rollbacks as int),
        ],
    )
}

/// What the store holds at `now`, as a client sees it.
pub open spec fn gauges_view(
    state: DbState,
    now: int,
    version: int,
    counts: Map<Seq<char>, Json>,
) -> Json {
    Json::Object(
        map![
            "schema_version"@ => Json::Integer(version),
            "latest_schema_version"@ => Json::Integer(2),
            "total_tasks"@ => Json::Integer(state.tasks.len() as int),
            "total_nodes"@ => Json::Integer(state.nodes.len() as int),
            "total_events"@ => Json::Integer(state.events.len() as int),
            "active_resource_locks"@ => Json::Integer(
                how_many(state.locks, |row: LockRecord| row.lease_expires_at > now) as int,
            ),
            "expired_resource_locks"@ => Json::Integer(
                how_many(state.locks, |row: LockRecord| row.lease_expires_at <= now) as int,
            ),
            "running_leases"@ => Json::Integer(
                how_many(
                    state.nodes,
                    |row: NodeRecord| row.status == "RUNNING"@ && row.lease_id is Some,
                ) as int,
            ),
            "expired_running_leases"@ => Json::Integer(
                how_many(
                    state.nodes,
                    |row: NodeRecord|
                        row.status == "RUNNING"@ && (row.lease_expires_at matches Some(expires)
                            && expires <= now),
                ) as int,
            ),
            "node_status_counts"@ => Json::Object(counts),
        ],
    )
}

/// Every node.
pub open spec fn any_node() -> spec_fn(NodeRecord) -> bool {
    |row: NodeRecord| true
}

/// The metrics tell of every counter as it stands, of the average time of an attempt to acquire a
/// node as the total shared out among the attempts, and of the store by counting its rows. Asking
/// changes nothing.
pub proof fn metrics_tell_of_counters_and_rows(
    before: CoordinatorState,
    fresh: Uuid,
    occasion: Occasion,
    after: CoordinatorState,
    outcome: Result<Json, CoordinatorFailure>,
)
    requires
        answers(before, Request::Metrics, fresh, occasion, after, outcome),
    ensures
        after == before,
        exists|average: int, version: int, counts: Map<Seq<char>, Json>|
            {
                &&& #[trigger] is_average(
                    average,
                    before.metrics.acquisition_latency_micros_total as int,
                    before.metrics.acquire_attempts as int,
                )
                &&& #[trigger] is_newest(version, before.db.versions)
                &&& #[trigger] counts_statuses(counts, before.db.nodes, any_node())
                &&& outcome == Ok::<Json, CoordinatorFailure>(
                    Json::Object(
                        map![
                            "uptime_secs"@ => Json::Integer(occasion.uptime_secs as int),
                            "running_timeout_secs"@ => Json::Integer(
                                (duration_nanos(before.running_timeout) / 1_000_000_000) as int,
                            ),
                            "context_event_limit"@ => Json::Integer(
                                before.context_event_limit as int,
                            ),
                            "runtime"@ => counters_view(before, average),
                            "database"@ => gauges_view(
                                before.db,
                                occasion.now.secs as int,
                                version,
                                counts,
                            ),
                        ],
                    ),
                )
            },
{
    let state = before.db;
    let now = occasion.now.secs as int;
    let metrics = choose|metrics: MetricsSnapshot| #[trigger]
        metrics_told(before, occasion.uptime_secs, now, metrics) && outcome == Ok::<
            Json,
            CoordinatorFailure,
        >(metrics_json(metrics));
    let total = before.metrics.acquisition_latency_micros_total as int;
    let attempts = before.metrics.acquire_attempts as int;
    let average = metrics.runtime.average_acquisition_latency_micros as int;
    assert(is_average(average, total, attempts)) by {
        if attempts > 0 {
            vstd::arithmetic::div_mod::lemma_fundamental_div_mod(total, attempts);
            vstd::arithmetic::mul::lemma_mul_is_commutative(attempts, total / attempts);
            vstd::arithmetic::mul::lemma_mul_is_distributive_add_other_way(
                attempts,
                total / attempts,
                1,
            );
            vstd::arithmetic::div_mod::lemma_div_is_ordered_by_denominator(total, 1, attempts);
        }
    }
    let version = metrics.database.schema_version as int;
    lemma_newest_bounds(state.versions);
    assert(is_newest(version, state.versions)) by {
        if state.versions.len() > 0 {
            let i = choose|i: int|
                0 <= i < state.versions.len() && state.versions[i] == version;
            assert(state.versions[i] == version);
        }
        assert forall|i: int| 0 <= i < state.versions.len() implies #[trigger] state.versions[i]
            <= version by {
            assert(state.versions.contains(state.versions[i]));
        }
    }
    let counted = metrics.database.node_status_counts@;
    let counts = counted.map_values(|count: nat| Json::Integer(count as int));
    assert(state.nodes.filter(any_node()) =~= state.nodes) by {
        lemma_keeps_all(state.nodes);
    }
    lemma_counts(state.nodes, any_node(), counted);
    let active = |row: LockRecord| row.lease_expires_at > now;
    let expired = |row: LockRecord| row.lease_expires_at <= now;
    let leased = |row: NodeRecord| row.status == "RUNNING"@ && row.lease_id is Some;
    let lapsed = |row: NodeRecord|
        row.status == "RUNNING"@ && (row.lease_expires_at matches Some(expires) && expires <= now);
    lemma_filter_counts(state.locks, active);
    lemma_filter_counts(state.locks, expired);
    lemma_filter_counts(state.nodes, leased);
    lemma_filter_counts(state.nodes, lapsed);
    assert((|row: LockRecord| is_held(row, now)) =~= active);
    assert((|row: LockRecord| !is_held(row, now)) =~= expired);
    assert((|row: NodeRecord| is_leased(row)) =~= leased);
    assert((|row: NodeRecord| is_lapsed(row, now)) =~= lapsed);
    assert(counts_json(counted) == Json::Object(counts));
    assert(database_json(metrics.database) == gauges_view(state, now, version, counts));
    assert(runtime_json(metrics.runtime) == counters_view(before, average));
}

proof fn lemma_keeps_all(rows: Seq<NodeRecord>)
    ensures
        rows.filter(any_node()) == rows,
    decreases rows.len(),
{
    reveal(Seq::filter);
    if rows.len() > 0 {
        lemma_keeps_all(rows.drop_last());
        assert(rows.drop_last().push(rows.last()) =~= rows);
    } else {
        assert(rows.filter(any_node()) =~= rows);
    }
}

/// The daemon says that it works and how it is set up, if the store answered; else the failure of
/// the store. Asking changes nothing.
pub proof fn health_tells_how_the_daemon_is_set_up(
    before: CoordinatorState,
    ping: Result<(), DbError>,
    fresh: Uuid,
    occasion: Occasion,
    after: CoordinatorState,
    outcome: Result<Json, CoordinatorFailure>,
)
    requires
        answers(before, Request::Health { ping }, fresh, occasion, after, outcome),
    ensures
        after == before,
        outcome == (match ping {
            Ok(_) => Ok::<Json, CoordinatorFailure>(
                Json::Object(
                    map![
                        "status"@ => Json::Text("ok"@),
                        "database"@ => Json::Text("ok"@),
                        "running_timeout_secs"@ => Json::Integer(
                            (duration_nanos(before.running_timeout) / 1_000_000_000) as int,
                        ),
                        "context_event_limit"@ => Json::Integer(before.context_event_limit as int),
                    ],
                ),
            ),
            Err(err) => Err(CoordinatorFailure::Db(err@)),
        }),
{
}

/// The counter counts one more; behind the largest number it begins again.
pub open spec fn one_more(before: u64, after: u64) -> bool {
    after as int == (before + 1) % 0x1_0000_0000_0000_0000
}

/// Writing an event about a node adds one entry to the journal, behind all others: under a new
/// identifier, about that task and that node, with the action type that the client named or
/// `COMMIT_EVENT` if the client named none, and with the payload and the time of the request. Nothing
/// else is stored. The client is told the new identifier.
///
/// It is refused if the task has no such node, if the node runs and the lease shown is not the one
/// that it runs under, if the payload is nested too deep, if the identifier is taken and if the task
/// is gone; then nothing changes.
pub proof fn event_is_written_as_the_client_named_it(
    before: CoordinatorState,
    task_id: Uuid,
    node_id: Uuid,
    lease_id: Option<Uuid>,
    action_type: Option<String>,
    payload: serde_json::Value,
    fresh: Uuid,
    occasion: Occasion,
    after: CoordinatorState,
    outcome: Result<Json, CoordinatorFailure>,
)
    requires
        before.db.wf(),
        answers(
            before,
            Request::CommitEvent { task_id, node_id, lease_id, action_type, payload },
            fresh,
            occasion,
            after,
            outcome,
        ),
    ensures
        outcome matches Ok(content) ==> {
            let journal = before.db.events;
            let entry = after.db.events[journal.len() as int];
            &&& content == Json::Object(map!["event_id"@ => Json::Text(fresh@)])
            &&& after.db.events.len() == journal.len() + 1
            &&& forall|i: int|
                0 <= i < journal.len() ==> #[trigger] after.db.events[i] == journal[i]
            &&& entry.id == fresh@
            &&& entry.task_id == task_id@
            &&& entry.node_id == node_id@
            &&& action_type matches Some(named) ==> entry.action_type == named@
            &&& action_type is None ==> entry.action_type == "COMMIT_EVENT"@
            &&& entry.payload == json_text(json_content(payload))
            &&& entry.timestamp == occasion.now.timestamp@
            &&& after == (CoordinatorState {
                db: DbState { events: after.db.events, ..before.db },
                metrics: RuntimeMetrics {
                    committed_events: after.metrics.committed_events,
                    ..before.metrics
                },
                ..before
            })
            &&& one_more(before.metrics.committed_events, after.metrics.committed_events)
        },
        outcome is Err ==> after == before,
        !node_exists(before.db, task_id, node_id) ==> outcome == Err::<Json, CoordinatorFailure>(
            CoordinatorFailure::NodeNotFound { task_id, node_id },
        ),
        forall|at: int| #[trigger]
            node_is_at(before.db, task_id, node_id, at) ==> {
                let row = before.db.nodes[at];
                let allowed = row.status != "RUNNING"@ || (lease_id matches Some(lease)
                    && row.lease_id == Some(lease@));
                &&& outcome is Ok <==> allowed && json_content(payload).nests_within(1000) && (
                forall|i: int|
                    0 <= i < before.db.events.len() ==> (#[trigger] before.db.events[i]).id
                        != fresh@) && task_exists(before.db, task_id)
                &&& !allowed ==> outcome == Err::<Json, CoordinatorFailure>(
                    CoordinatorFailure::Db(
                        DbFailure::InvalidState(
                            "node "@ + node_id@ + " for task "@ + task_id@
                                + " requires the current RUNNING lease"@,
                        ),
                    ),
                )
                &&& allowed ==> entry_is_refused(
                    before.db,
                    task_id,
                    json_content(payload),
                    fresh,
                    outcome,
                )
            },
{
    lemma_node_is_at(before.db, task_id, node_id);
}

pub(crate) proof fn lemma_node_is_at(state: DbState, task_id: Uuid, node_id: Uuid)
    requires
        state.wf(),
    ensures
        state.has_node(task_id@, node_id@) <==> node_exists(state, task_id, node_id),
        forall|at: int| #[trigger]
            node_is_at(state, task_id, node_id, at) ==> state.node_at(task_id@, node_id@) == at,
{
    assert forall|at: int| #[trigger] node_is_at(state, task_id, node_id, at) implies state.has_node(
        task_id@,
        node_id@,
    ) && state.node_at(task_id@, node_id@) == at by {
        assert(is_node(state.nodes[at], task_id@, node_id@));
        lemma_node_found(state, task_id@, node_id@, at);
    }
    if state.has_node(task_id@, node_id@) {
        assert(node_is_at(state, task_id, node_id, state.node_at(task_id@, node_id@)));
    }
}

/// The store refuses, in these words.
pub open spec fn store_refuses(
    words: Seq<char>,
    outcome: Result<Json, CoordinatorFailure>,
) -> bool {
    outcome == Err::<Json, CoordinatorFailure>(CoordinatorFailure::Db(DbFailure::Sqlx(words)))
}

/// A column does not meet its condition.
pub open spec fn column_is_refused(
    condition: Seq<char>,
    outcome: Result<Json, CoordinatorFailure>,
) -> bool {
    store_refuses(
        "error returned from database: (code: 275) CHECK constraint failed: "@ + condition,
        outcome,
    )
}

/// A key is there twice.
pub open spec fn key_is_refused(column: Seq<char>, outcome: Result<Json, CoordinatorFailure>) -> bool {
    store_refuses(
        "error returned from database: (code: 1555) UNIQUE constraint failed: "@ + column,
        outcome,
    )
}

/// A row that another refers to is missing.
pub open spec fn reference_is_refused(outcome: Result<Json, CoordinatorFailure>) -> bool {
    store_refuses(
        "error returned from database: (code: 787) FOREIGN KEY constraint failed"@,
        outcome,
    )
}

/// A journal entry is refused: because its payload is nested too deep, else because its identifier
/// is taken, else because its task is gone.
pub open spec fn entry_is_refused(
    state: DbState,
    task_id: Uuid,
    payload: Json,
    fresh: Uuid,
    outcome: Result<Json, CoordinatorFailure>,
) -> bool {
    let taken = exists|i: int|
        0 <= i < state.events.len() && (#[trigger] state.events[i]).id == fresh@;
    &&& !payload.nests_within(1000) ==> column_is_refused("json_valid(payload)"@, outcome)
    &&& payload.nests_within(1000) && taken ==> key_is_refused("event_journal.id"@, outcome)
    &&& payload.nests_within(1000) && !taken && !task_exists(state, task_id)
        ==> reference_is_refused(outcome)
}

/// The rows are as they were, but for the one at `at`.
pub open spec fn only_differs_at<A>(before: Seq<A>, after: Seq<A>, at: int) -> bool {
    &&& after.len() == before.len()
    &&& forall|i: int| 0 <= i < before.len() && i != at ==> #[trigger] after[i] == before[i]
}

/// For how many seconds a duration lasts, as far as a column can say it.
pub open spec fn whole_secs(d: core::time::Duration) -> int {
    let secs = duration_nanos(d) as int / 1_000_000_000;
    if secs <= 0x7fff_ffff_ffff_ffff {
        secs
    } else {
        0x7fff_ffff_ffff_ffff
    }
}

/// A heartbeat under the lease that a node runs under moves the end of that lease to the lease time
/// from now, and changes nothing else. Without such a node, or under another lease, it is refused
/// and changes nothing.
pub proof fn heartbeat_moves_the_end_of_the_lease(
    before: CoordinatorState,
    task_id: Uuid,
    node_id: Uuid,
    lease_id: Uuid,
    fresh: Uuid,
    occasion: Occasion,
    after: CoordinatorState,
    outcome: Result<Json, CoordinatorFailure>,
)
    requires
        before.db.wf(),
        answers(
            before,
            Request::HeartbeatNode { task_id, node_id, lease_id },
            fresh,
            occasion,
            after,
            outcome,
        ),
    ensures
        outcome is Err ==> after == before,
        !node_exists(before.db, task_id, node_id) ==> outcome == Err::<Json, CoordinatorFailure>(
            CoordinatorFailure::NodeNotFound { task_id, node_id },
        ),
        forall|at: int| #[trigger]
            node_is_at(before.db, task_id, node_id, at) ==> {
                let row = before.db.nodes[at];
                let now = occasion.now.secs;
                let holds = row.status == "RUNNING"@ && row.lease_id == Some(lease_id@);
                let end = now + whole_secs(before.running_timeout);
                &&& outcome is Ok <==> holds && end <= i64::MAX
                &&& !holds ==> outcome == Err::<Json, CoordinatorFailure>(
                    CoordinatorFailure::NodeNotRunning { task_id, node_id },
                )
                &&& holds && end > i64::MAX ==> store_refuses("lease expiry out of range"@, outcome)
                &&& outcome matches Ok(content) ==> {
                    &&& content == Json::Object(map!["ok"@ => Json::Bool(true)])
                    &&& only_differs_at(before.db.nodes, after.db.nodes, at)
                    &&& after.db.nodes[at] == (NodeRecord {
                        acquired_at: Some(now),
                        lease_expires_at: Some(end as i64),
                        updated_at: now,
                        ..row
                    })
                    &&& after == (CoordinatorState {
                        db: DbState { nodes: after.db.nodes, ..before.db },
                        metrics: RuntimeMetrics {
                            heartbeats: after.metrics.heartbeats,
                            ..before.metrics
                        },
                        ..before
                    })
                    &&& one_more(before.metrics.heartbeats, after.metrics.heartbeats)
                }
            },
{
    lemma_node_is_at(before.db, task_id, node_id);
}

/// What completing or failing a node does: `status` is where the node ends, `action` and `field` are
/// the journal's words for it.
pub open spec fn node_ends(
    before: CoordinatorState,
    task_id: Uuid,
    node_id: Uuid,
    lease_id: Uuid,
    status: Seq<char>,
    action: Seq<char>,
    field: Seq<char>,
    payload: Json,
    fresh: Uuid,
    occasion: Occasion,
    after: CoordinatorState,
    outcome: Result<Json, CoordinatorFailure>,
) -> bool {
    let wrapped = Json::Object(map![field => payload]);
    &&& outcome is Err ==> after == before
    &&& !node_exists(before.db, task_id, node_id) ==> outcome == Err::<Json, CoordinatorFailure>(
        CoordinatorFailure::NodeNotFound { task_id, node_id },
    )
    &&& forall|at: int| #[trigger]
        node_is_at(before.db, task_id, node_id, at) ==> {
            let row = before.db.nodes[at];
            let journal = before.db.events;
            let holds = row.status == "RUNNING"@ && row.lease_id == Some(lease_id@);
            &&& outcome is Ok <==> holds && payload.nests_within(1000) && wrapped.nests_within(1000)
                && (forall|i: int| 0 <= i < journal.len() ==> (#[trigger] journal[i]).id != fresh@)
                && task_exists(before.db, task_id)
            &&& !holds ==> outcome == Err::<Json, CoordinatorFailure>(
                CoordinatorFailure::Db(
                    DbFailure::InvalidState(
                        "node "@ + node_id@ + " cannot transition from "@ + row.status + " to "@
                            + status,
                    ),
                ),
            )
            &&& holds && !payload.nests_within(1000) ==> column_is_refused(
                "result_payload IS NULL OR json_valid(result_payload)"@,
                outcome,
            )
            &&& holds && payload.nests_within(1000) ==> entry_is_refused(
                before.db,
                task_id,
                wrapped,
                fresh,
                outcome,
            )
            &&& outcome matches Ok(content) ==> {
                let entry = after.db.events[journal.len() as int];
                &&& content == Json::Object(map!["event_id"@ => Json::Text(fresh@)])
                &&& only_differs_at(before.db.nodes, after.db.nodes, at)
                &&& after.db.nodes[at] == (NodeRecord {
                    status,
                    result_payload: Some(json_text(payload)),
                    acquired_at: None,
                    lease_id: None,
                    lease_owner: None,
                    lease_expires_at: None,
                    updated_at: occasion.now.secs,
                    ..row
                })
                &&& after.db.events.len() == journal.len() + 1
                &&& forall|i: int|
                    0 <= i < journal.len() ==> #[trigger] after.db.events[i] == journal[i]
                &&& entry.id == fresh@
                &&& entry.task_id == task_id@
                &&& entry.node_id == node_id@
                &&& entry.action_type == action
                &&& entry.payload == json_text(wrapped)
                &&& entry.timestamp == occasion.now.timestamp@
                &&& after.db == (DbState {
                    nodes: after.db.nodes,
                    events: after.db.events,
                    ..before.db
                })
                &&& after.running_timeout == before.running_timeout
                &&& after.context_event_limit == before.context_event_limit
            }
        }
}

/// Completing a node under the lease that it runs under leaves it `COMPLETED`, with the result that
/// the client handed in and without a lease, and adds one entry about it to the journal. Nothing else
/// is stored. Without such a node, or under another lease, it is refused and changes nothing.
pub proof fn completed_node_keeps_its_result(
    before: CoordinatorState,
    task_id: Uuid,
    node_id: Uuid,
    lease_id: Uuid,
    result_payload: serde_json::Value,
    fresh: Uuid,
    occasion: Occasion,
    after: CoordinatorState,
    outcome: Result<Json, CoordinatorFailure>,
)
    requires
        before.db.wf(),
        answers(
            before,
            Request::CompleteNode { task_id, node_id, lease_id, result_payload },
            fresh,
            occasion,
            after,
            outcome,
        ),
    ensures
        node_ends(
            before,
            task_id,
            node_id,
            lease_id,
            "COMPLETED"@,
            "COMPLETE_NODE"@,
            "result"@,
            json_content(result_payload),
            fresh,
            occasion,
            after,
            outcome,
        ),
        outcome is Ok ==> one_more(before.metrics.completed_nodes, after.metrics.completed_nodes)
            && after.metrics == (RuntimeMetrics {
            completed_nodes: after.metrics.completed_nodes,
            ..before.metrics
        }),
{
    lemma_node_is_at(before.db, task_id, node_id);
}

/// Failing a node under the lease that it runs under leaves it `FAILED`, with the error that the
/// client handed in and without a lease, and adds one entry about it to the journal. Nothing else is
/// stored. Without such a node, or under another lease, it is refused and changes nothing.
pub proof fn failed_node_keeps_its_error(
    before: CoordinatorState,
    task_id: Uuid,
    node_id: Uuid,
    lease_id: Uuid,
    error_payload: serde_json::Value,
    fresh: Uuid,
    occasion: Occasion,
    after: CoordinatorState,
    outcome: Result<Json, CoordinatorFailure>,
)
    requires
        before.db.wf(),
        answers(
            before,
            Request::FailNode { task_id, node_id, lease_id, error_payload },
            fresh,
            occasion,
            after,
            outcome,
        ),
    ensures
        node_ends(
            before,
            task_id,
            node_id,
            lease_id,
            "FAILED"@,
            "FAIL_NODE"@,
            "error"@,
            json_content(error_payload),
            fresh,
            occasion,
            after,
            outcome,
        ),
        outcome is Ok ==> one_more(before.metrics.failed_nodes, after.metrics.failed_nodes)
            && after.metrics == (RuntimeMetrics {
            failed_nodes: after.metrics.failed_nodes,
            ..before.metrics
        }),
{
    lemma_node_is_at(before.db, task_id, node_id);
}

/// The lock at `at` is that of the resource.
pub open spec fn lock_is_at(state: DbState, key: Seq<char>, at: int) -> bool {
    0 <= at < state.locks.len() && state.locks[at].resource_key == key
}

proof fn lemma_lock_is_at(state: DbState, key: Seq<char>)
    requires
        state.wf(),
    ensures
        state.has_lock(key) <==> exists|at: int| #[trigger] lock_is_at(state, key, at),
        forall|at: int| #[trigger] lock_is_at(state, key, at) ==> state.lock_at(key) == at,
{
    assert forall|at: int| #[trigger] lock_is_at(state, key, at) implies state.has_lock(key)
        && state.lock_at(key) == at by {
        lemma_lock_found(state, key, at);
    }
    if state.has_lock(key) {
        assert(lock_is_at(state, key, state.lock_at(key)));
    }
}

/// For how many seconds a lock is granted or extended: for as many as the client names, else for as
/// many as a node is leased; at least for one, and as far as a column can say it.
pub open spec fn lock_secs(ttl_secs: Option<u64>, timeout: core::time::Duration) -> int {
    match ttl_secs {
        Some(secs) => if secs == 0 {
            1
        } else if secs <= 0x7fff_ffff_ffff_ffff {
            secs as int
        } else {
            0x7fff_ffff_ffff_ffff
        },
        None => if whole_secs(timeout) == 0 {
            1
        } else {
            whole_secs(timeout)
        },
    }
}

/// A lock in force is refused to everybody, and nothing changes. Any other resource is locked for
/// whoever asks, from now until as many seconds later as the client names: one lock row says so, with
/// everything that the client handed in, in place of the one that has run out or else behind the
/// others. Nothing else is stored, and the client is told what is stored.
///
/// That is refused if the metadata is nested too deep, if the task named does not exist and if the
/// end is out of range; then nothing changes.
pub proof fn lock_lasts_as_long_as_the_client_names(
    before: CoordinatorState,
    resource_key: String,
    owner: String,
    provider: Option<String>,
    ttl_secs: Option<u64>,
    task_id: Option<Uuid>,
    node_id: Option<Uuid>,
    metadata: serde_json::Value,
    fresh: Uuid,
    occasion: Occasion,
    after: CoordinatorState,
    outcome: Result<Json, CoordinatorFailure>,
)
    requires
        before.db.wf(),
        answers(
            before,
            Request::AcquireResourceLock {
                resource_key,
                owner,
                provider,
                ttl_secs,
                task_id,
                node_id,
                metadata,
            },
            fresh,
            occasion,
            after,
            outcome,
        ),
    ensures
        ({
            let now = occasion.now.secs;
            let locks = before.db.locks;
            let held = exists|at: int| #[trigger]
                lock_is_at(before.db, resource_key@, at) && locks[at].lease_expires_at > now;
            let end = now + lock_secs(ttl_secs, before.running_timeout);
            let possible = json_content(metadata).nests_within(1000) && (task_id matches Some(task)
                ==> task_exists(before.db, task)) && end <= i64::MAX;
            let row = LockRecord {
                resource_key: resource_key@,
                lease_id: fresh@,
                owner: owner@,
                provider: match provider {
                    Some(text) => Some(text@),
                    None => None,
                },
                task_id: match task_id {
                    Some(id) => Some(id@),
                    None => None,
                },
                node_id: match node_id {
                    Some(id) => Some(id@),
                    None => None,
                },
                metadata: json_text(json_content(metadata)),
                acquired_at: now,
                lease_expires_at: end as i64,
                updated_at: now,
            };
            &&& held ==> after == before && outcome == Ok::<Json, CoordinatorFailure>(Json::Null)
            &&& !held && !possible ==> after == before && outcome is Err
            &&& !held && !json_content(metadata).nests_within(1000) ==> if exists|at: int| #[trigger]
                lock_is_at(before.db, resource_key@, at) {
                column_is_refused("json_valid(metadata)"@, outcome)
            } else {
                store_refuses(
                    "no rows returned by a query that expected to return at least one row"@,
                    outcome,
                )
            }
            &&& !held && json_content(metadata).nests_within(1000) ==> {
                let named = task_id matches Some(task) ==> task_exists(before.db, task);
                &&& !named ==> reference_is_refused(outcome)
                &&& named && end > i64::MAX ==> store_refuses("lease expiry out of range"@, outcome)
            }
            &&& !held && possible ==> {
                &&& after == (CoordinatorState {
                    db: DbState { locks: after.db.locks, ..before.db },
                    ..before
                })
                &&& forall|at: int| #[trigger]
                    lock_is_at(before.db, resource_key@, at) ==> only_differs_at(
                        locks,
                        after.db.locks,
                        at,
                    ) && after.db.locks[at] == row
                &&& (forall|at: int| !#[trigger] lock_is_at(before.db, resource_key@, at))
                    ==> after.db.locks.len() == locks.len() + 1 && (forall|i: int|
                    0 <= i < locks.len() ==> #[trigger] after.db.locks[i] == locks[i])
                    && after.db.locks[locks.len() as int] == row
                &&& outcome is Ok <==> lock_reads(row)
                &&& outcome matches Ok(content) ==> content == Json::Object(
                    map![
                        "resource_key"@ => Json::Text(resource_key@),
                        "lease_id"@ => Json::Text(parsed_uuid(row.lease_id)->Ok_0@),
                        "owner"@ => Json::Text(owner@),
                        "provider"@ => maybe_text(row.provider),
                        "task_id"@ => maybe_id(row.task_id),
                        "node_id"@ => maybe_id(row.node_id),
                        "metadata"@ => json_parsed(row.metadata)->Ok_0,
                        "acquired_at"@ => Json::Integer(now as int),
                        "lease_expires_at"@ => Json::Integer(end),
                    ],
                )
            }
        }),
{
    lemma_lock_is_at(before.db, resource_key@);
}

/// A lock in force is extended by the lease that holds it, and by no other: it then runs out as many
/// seconds from now as the client names, and nothing else changes. A lock that has run out, one that
/// another lease holds and one that does not exist stay as they are, and the client is told so.
pub proof fn extended_lock_lasts_as_long_as_the_client_names(
    before: CoordinatorState,
    resource_key: String,
    lease_id: Uuid,
    ttl_secs: Option<u64>,
    fresh: Uuid,
    occasion: Occasion,
    after: CoordinatorState,
    outcome: Result<Json, CoordinatorFailure>,
)
    requires
        before.db.wf(),
        answers(
            before,
            Request::HeartbeatResourceLock { resource_key, lease_id, ttl_secs },
            fresh,
            occasion,
            after,
            outcome,
        ),
    ensures
        ({
            let now = occasion.now.secs;
            let locks = before.db.locks;
            let end = now + lock_secs(ttl_secs, before.running_timeout);
            &&& (forall|at: int| #[trigger]
                lock_is_at(before.db, resource_key@, at) ==> locks[at].lease_id != lease_id@
                    || locks[at].lease_expires_at <= now) ==> after == before && outcome == Ok::<
                Json,
                CoordinatorFailure,
            >(Json::Object(map!["ok"@ => Json::Bool(false)]))
            &&& forall|at: int| #[trigger]
                lock_is_at(before.db, resource_key@, at) && locks[at].lease_id == lease_id@
                    && locks[at].lease_expires_at > now ==> {
                    &&& outcome is Ok <==> end <= i64::MAX
                    &&& outcome is Err ==> after == before && store_refuses(
                        "lease expiry out of range"@,
                        outcome,
                    )
                    &&& outcome matches Ok(content) ==> {
                        &&& content == Json::Object(map!["ok"@ => Json::Bool(true)])
                        &&& only_differs_at(locks, after.db.locks, at)
                        &&& after.db.locks[at] == (LockRecord {
                            lease_expires_at: end as i64,
                            updated_at: now,
                            ..locks[at]
                        })
                        &&& after == (CoordinatorState {
                            db: DbState { locks: after.db.locks, ..before.db },
                            ..before
                        })
                    }
                }
        }),
{
    lemma_lock_is_at(before.db, resource_key@);
}

/// A lock, in force or run out, is released by the lease that it was granted under, and by no other:
/// its row goes and the others stay, in their order. The client is told whether that was done.
pub proof fn released_lock_goes_and_the_others_stay(
    before: CoordinatorState,
    resource_key: String,
    lease_id: Uuid,
    fresh: Uuid,
    occasion: Occasion,
    after: CoordinatorState,
    outcome: Result<Json, CoordinatorFailure>,
)
    requires
        before.db.wf(),
        answers(
            before,
            Request::ReleaseResourceLock { resource_key, lease_id },
            fresh,
            occasion,
            after,
            outcome,
        ),
    ensures
        ({
            let locks = before.db.locks;
            &&& (forall|at: int| #[trigger]
                lock_is_at(before.db, resource_key@, at) ==> locks[at].lease_id != lease_id@)
                ==> after == before && outcome == Ok::<Json, CoordinatorFailure>(
                Json::Object(map!["ok"@ => Json::Bool(false)]),
            )
            &&& forall|at: int| #[trigger]
                lock_is_at(before.db, resource_key@, at) && locks[at].lease_id == lease_id@ ==> {
                    &&& outcome == Ok::<Json, CoordinatorFailure>(
                        Json::Object(map!["ok"@ => Json::Bool(true)]),
                    )
                    &&& after.db.locks.len() == locks.len() - 1
                    &&& forall|i: int| 0 <= i < at ==> #[trigger] after.db.locks[i] == locks[i]
                    &&& forall|i: int|
                        at <= i < locks.len() - 1 ==> #[trigger] after.db.locks[i] == locks[i + 1]
                    &&& after == (CoordinatorState {
                        db: DbState { locks: after.db.locks, ..before.db },
                        ..before
                    })
                }
        }),
{
    lemma_lock_is_at(before.db, resource_key@);
}

/// The locks at these places, as a client sees them.
pub open spec fn locks_at(rows: Seq<LockRecord>, places: Seq<int>) -> Seq<Json> {
    Seq::new(places.len(), |k: int| lock_view(rows[places[k]]))
}

/// The places of exactly the locks in force, in the order of their keys.
pub open spec fn picks_held(places: Seq<int>, locks: Seq<LockRecord>, now: int) -> bool {
    &&& forall|a: int|
        0 <= a < places.len() ==> 0 <= #[trigger] places[a] < locks.len()
            && locks[places[a]].lease_expires_at > now
    &&& forall|a: int, b: int|
        0 <= a < b < places.len() ==> sorts_before(
            locks[#[trigger] places[a]].resource_key,
            locks[#[trigger] places[b]].resource_key,
        )
    &&& forall|i: int|
        0 <= i < locks.len() && (#[trigger] locks[i]).lease_expires_at > now ==> places.contains(i)
}

/// The listing of locks tells of every lock in force and of no other, each once, in the order of
/// their keys. It comes whenever those locks can be read. Asking changes nothing.
pub proof fn listing_tells_of_the_locks_in_force(
    before: CoordinatorState,
    fresh: Uuid,
    occasion: Occasion,
    after: CoordinatorState,
    outcome: Result<Json, CoordinatorFailure>,
)
    requires
        before.db.wf(),
        answers(before, Request::ListResourceLocks, fresh, occasion, after, outcome),
    ensures
        after == before,
        outcome is Ok <==> forall|i: int|
            0 <= i < before.db.locks.len() && (#[trigger] before.db.locks[i]).lease_expires_at
                > occasion.now.secs ==> lock_reads(before.db.locks[i]),
        outcome matches Ok(content) ==> exists|places: Seq<int>|
            {
                &&& #[trigger] picks_held(places, before.db.locks, occasion.now.secs as int)
                &&& content == Json::Object(
                    map!["locks"@ => Json::Array(locks_at(before.db.locks, places))],
                )
            },
{
    let locks = before.db.locks;
    let now = occasion.now.secs as int;
    let res = choose|res: Result<Seq<LockInfo>, CoordinatorFailure>| #[trigger]
        locks_told(before.db, now, res) && outcome == shown(
            res,
            |list: Seq<LockInfo>|
                field_json(
                    "locks"@,
                    Json::Array(list.map_values(|lock: LockInfo| lock_json(lock))),
                ),
        );
    let told = choose|told: Result<Seq<LockInfo>, DbFailure>| #[trigger]
        lock_listing(locks, now, told) && res == lifted(told);
    let pred = |row: LockRecord| is_held(row, now);
    let held = held_locks(locks, now);
    let rows = choose|rows: Seq<LockRecord>| #[trigger]
        ordered_by_key(rows) && rows.to_multiset() == held.to_multiset() && told == read_locks(rows);
    let read = |row: LockRecord| read_lock(row);
    lemma_read_all(rows, read);
    rows.to_multiset_ensures();
    held.to_multiset_ensures();
    let order = lemma_filter_picks(locks, pred);
    assert forall|a: int, b: int| 0 <= a < held.len() && 0 <= b < held.len() && a != b implies held[a]
        != held[b] by {
        assert(held[a] == locks[order[a]]);
        assert(held[b] == locks[order[b]]);
        assert(order[a] != order[b]);
        assert(locks[order[a]].resource_key != locks[order[b]].resource_key) by {
            if order[a] < order[b] {
            } else {
                assert(order[b] < order[a]);
            }
        }
    }
    assert(held.no_duplicates());
    held.lemma_multiset_has_no_duplicates();
    rows.lemma_multiset_has_no_duplicates_conv();
    let places = Seq::new(
        rows.len(),
        |k: int| choose|i: int| 0 <= i < locks.len() && locks[i] == rows[k],
    );
    assert forall|k: int| 0 <= k < rows.len() implies 0 <= #[trigger] places[k] < locks.len()
        && locks[places[k]] == rows[k] && locks[places[k]].lease_expires_at > now by {
        assert(rows.contains(rows[k]));
        assert(held.to_multiset().count(rows[k]) > 0);
        assert(held.contains(rows[k]));
        let a = choose|a: int| 0 <= a < held.len() && held[a] == rows[k];
        assert(locks[order[a]] == rows[k]);
        assert(pred(locks[order[a]]));
    }
    assert forall|i: int|
        0 <= i < locks.len() && (#[trigger] locks[i]).lease_expires_at > now implies places.contains(
        i,
    ) by {
        assert(pred(locks[i]));
        assert(order.contains(i));
        let a = choose|a: int| 0 <= a < order.len() && order[a] == i;
        assert(held[a] == locks[i]);
        assert(held.contains(locks[i]));
        assert(rows.to_multiset().count(locks[i]) > 0);
        assert(rows.contains(locks[i]));
        let k = choose|k: int| 0 <= k < rows.len() && rows[k] == locks[i];
        assert(locks[places[k]].resource_key == locks[i].resource_key);
        assert(places[k] == i);
    }
    assert forall|a: int, b: int| 0 <= a < b < places.len() implies sorts_before(
        locks[#[trigger] places[a]].resource_key,
        locks[#[trigger] places[b]].resource_key,
    ) by {
        let x = rows[a].resource_key;
        let y = rows[b].resource_key;
        assert(locks[places[a]] == rows[a] && locks[places[b]] == rows[b]);
        assert(text_le(x, y));
        text_order_is_lexicographic(x, y);
        if x == y {
            assert(places[a] == places[b]);
            assert(rows[a] == rows[b]);
        }
    }
    assert(picks_held(places, locks, now));
    assert forall|k: int| 0 <= k < rows.len() implies (read(#[trigger] rows[k]) is Ok <==> lock_reads(
        locks[places[k]],
    )) by {
        assert(locks[places[k]] == rows[k]);
        lock_is_shown_in_full(rows[k]);
    }
    if outcome is Ok {
        let items = told->Ok_0;
        assert forall|i: int|
            0 <= i < locks.len() && (#[trigger] locks[i]).lease_expires_at
                > now implies lock_reads(locks[i]) by {
            assert(places.contains(i));
            let k = choose|k: int| 0 <= k < places.len() && places[k] == i;
            assert(read(rows[k]) == Ok::<LockInfo, DbFailure>(items[k]));
        }
        assert forall|k: int| 0 <= k < items.len() implies lock_json(#[trigger] items[k])
            == lock_view(locks[places[k]]) by {
            assert(read(rows[k]) == Ok::<LockInfo, DbFailure>(items[k]));
            assert(locks[places[k]] == rows[k]);
            lock_is_shown_in_full(rows[k]);
        }
        assert(items.map_values(|lock: LockInfo| lock_json(lock)) =~= locks_at(locks, places));
        assert(outcome->Ok_0 == Json::Object(
            map!["locks"@ => Json::Array(locks_at(locks, places))],
        ));
    }
    if forall|i: int|
        0 <= i < locks.len() && (#[trigger] locks[i]).lease_expires_at > now ==> lock_reads(
            locks[i],
        ) {
        assert forall|k: int| 0 <= k < rows.len() implies read(#[trigger] rows[k]) is Ok by {
            assert(locks[places[k]].lease_expires_at > now);
        }
    }
}

} // verus!
