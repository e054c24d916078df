//! What holds of the store whatever is asked of it.

use core::time::Duration;
use crate::clock::{column_secs, duration_nanos, sweep_nanos};
use crate::coordinator::{
    acquire_next_step, after_sweep, commit_event_step, end_node_step, first_runnable,
    heartbeat_step, registers_task, sweep_all_step, waits, AcquiredInfo, CoordinatorFailure,
    CoordinatorState,
};
use crate::error::DbFailure;
use crate::graph::{
    bits, dependency_fault, dependency_graph, is_dag, is_topological, lemma_targets, repeats,
    sound_upto, targets, NodeDefinition,
};
use crate::ids::{identifiers_differ_in_text, Uuid};
use crate::ipc::{answers, Occasion, Request};
use crate::json::{json_content, json_text, Json};
use crate::readable::{
    context_of_readable_store, id_reads_back, is_readable, lemma_acquire_readable, node_is_readable,
    owes_node, sweep_keeps_store_readable,
};
use crate::reports::{standing, DatabaseMetrics};
use crate::rows::{
    read_id, read_id_list, read_status, status_words_differ, AcquireResourceLock, EventRecord,
    LockRecord, NodeRecord, NodeStatus,
};
use crate::state::{
    acquire_step, acquired, append_step, end_step, ended, ending_action, extend_lock_step,
    extend_step, extended, holds_lock, is_held, is_locked, is_node, is_overdue, is_storable, latest,
    lemma_lock_found, lemma_locks_rewritten_wf, lemma_no_fault, lemma_node_found,
    lemma_nodes_rewritten_wf, lemma_with_node_wf, lock_step, lock_ttl, pending_of, register_step,
    registered_node, release_step, rolled_back, runs_under, stands, sweep_step, swept, DbState,
};
use crate::text::opt_text;
use vstd::prelude::*;

verus! {

/// The move from one status to another is allowed: waiting to running, running to completed,
/// failed or waiting again, or no move at all.
pub open spec fn is_strict_move(from: Seq<char>, to: Seq<char>) -> bool {
    ||| to == from
    ||| from == NodeStatus::Pending.word() && to == NodeStatus::Running.word()
    ||| from == NodeStatus::Running.word() && (to == NodeStatus::Completed.word() || to
        == NodeStatus::Failed.word() || to == NodeStatus::Pending.word())
}

/// The node is the same node after a change: only where it stands, its lease and its result may
/// differ, and nothing at all once it has ended.
pub open spec fn evolves(before: NodeRecord, after: NodeRecord) -> bool {
    &&& after.id == before.id
    &&& after.task_id == before.task_id
    &&& after.dependencies == before.dependencies
    &&& after.payload_schema == before.payload_schema
    &&& is_strict_move(before.status, after.status)
    &&& stands(before, NodeStatus::Completed) || stands(before, NodeStatus::Failed) ==> after
        == before
}

/// A change of the store that forgets nothing: tasks and journal entries are only added, nodes
/// only evolve.
pub open spec fn only_grows(before: DbState, after: DbState) -> bool {
    &&& after.versions == before.versions
    &&& before.tasks.is_prefix_of(after.tasks)
    &&& before.events.is_prefix_of(after.events)
    &&& before.nodes.len() <= after.nodes.len()
    &&& forall|i: int|
        0 <= i < before.nodes.len() ==> evolves(before.nodes[i], #[trigger] after.nodes[i])
}

proof fn lemma_acquire_grows(
    state: DbState,
    lease_id: Uuid,
    task_id: Uuid,
    node_id: Uuid,
    owner: Seq<char>,
    ttl: int,
    now: i64,
)
    ensures
        only_grows(state, acquire_step(state, lease_id, task_id, node_id, owner, ttl, now).0),
{
    status_words_differ();
}

proof fn lemma_extend_grows(
    state: DbState,
    task_id: Uuid,
    node_id: Uuid,
    lease_id: Uuid,
    ttl: int,
    now: i64,
)
    ensures
        only_grows(state, extend_step(state, task_id, node_id, lease_id, ttl, now).0),
{
    status_words_differ();
}

proof fn lemma_end_grows(
    state: DbState,
    event_id: Uuid,
    task_id: Uuid,
    node_id: Uuid,
    lease_id: Uuid,
    to: NodeStatus,
    payload: Json,
    now: i64,
    timestamp: Seq<char>,
)
    requires
        to == NodeStatus::Completed || to == NodeStatus::Failed,
    ensures
        only_grows(
            state,
            end_step(
                state,
                event_id,
                task_id,
                node_id,
                lease_id,
                to,
                payload,
                now,
                timestamp,
            ).0,
        ),
{
    status_words_differ();
    let after = end_step(
        state,
        event_id,
        task_id,
        node_id,
        lease_id,
        to,
        payload,
        now,
        timestamp,
    ).0;
    assert(state.events.is_prefix_of(after.events));
}

proof fn lemma_append_grows(
    state: DbState,
    event_id: Uuid,
    task_id: Uuid,
    node_id: Uuid,
    lease_id: Option<Uuid>,
    action_type: Seq<char>,
    payload: Json,
    timestamp: Seq<char>,
)
    ensures
        only_grows(
            state,
            append_step(
                state,
                event_id,
                task_id,
                node_id,
                lease_id,
                action_type,
                payload,
                timestamp,
            ).0,
        ),
{
    let after = append_step(
        state,
        event_id,
        task_id,
        node_id,
        lease_id,
        action_type,
        payload,
        timestamp,
    ).0;
    assert(state.events.is_prefix_of(after.events));
}

proof fn lemma_sweep_grows(state: DbState, task: Option<Seq<char>>, timeout: int, now: i64)
    ensures
        only_grows(state, sweep_step(state, task, timeout, now).0),
{
    status_words_differ();
}

proof fn lemma_register_grows(
    state: DbState,
    task_id: Uuid,
    goal: Seq<char>,
    context: Json,
    nodes: Seq<(Uuid, NodeDefinition)>,
    now: i64,
    timestamp: Seq<char>,
)
    ensures
        only_grows(
            state,
            register_step(state, task_id, goal, context, nodes, now, timestamp).0,
        ),
{
    let after = register_step(state, task_id, goal, context, nodes, now, timestamp).0;
    assert(state.tasks.is_prefix_of(after.tasks));
}

proof fn lemma_grows_transitive(a: DbState, b: DbState, c: DbState)
    requires
        only_grows(a, b),
        only_grows(b, c),
        forall|i: int|
            0 <= i < a.nodes.len() ==> is_strict_move(
                (#[trigger] a.nodes[i]).status,
                c.nodes[i].status,
            ),
    ensures
        only_grows(a, c),
{
    assert(a.tasks =~= c.tasks.take(a.tasks.len() as int));
    assert(a.events =~= c.events.take(a.events.len() as int));
    assert forall|i: int| 0 <= i < a.nodes.len() implies evolves(
        a.nodes[i],
        #[trigger] c.nodes[i],
    ) by {
        assert(evolves(a.nodes[i], b.nodes[i]));
        assert(evolves(b.nodes[i], c.nodes[i]));
    }
}

proof fn lemma_acquire_next_grows(
    state: CoordinatorState,
    lease_id: Uuid,
    task_id: Uuid,
    owner: Seq<char>,
    elapsed_micros: u128,
    now: i64,
)
    ensures
        only_grows(
            state.db,
            acquire_next_step(state, lease_id, task_id, owner, elapsed_micros, now).0.db,
        ),
{
    let ttl = column_secs(state.running_timeout);
    let db = sweep_step(state.db, Some(task_id@), ttl, now).0;
    lemma_sweep_grows(state.db, Some(task_id@), ttl, now);
    match first_runnable(db, task_id, pending_of(db.nodes, task_id@)) {
        Ok(Some(node_id)) => {
            lemma_acquire_grows(db, lease_id, task_id, node_id, owner, ttl, now);
            let taken = acquire_step(db, lease_id, task_id, node_id, owner, ttl, now).0;
            assert forall|i: int| 0 <= i < state.db.nodes.len() implies is_strict_move(
                (#[trigger] state.db.nodes[i]).status,
                taken.nodes[i].status,
            ) by {
                status_words_differ();
                assert(evolves(state.db.nodes[i], db.nodes[i]));
                assert(evolves(db.nodes[i], taken.nodes[i]));
            }
            lemma_grows_transitive(state.db, db, taken);
        },
        _ => {},
    }
}

/// Whatever is asked, no task and no journal entry is lost or changed, and every node moves only
/// along the allowed transitions: a completed or failed node never changes again.
pub proof fn nothing_is_forgotten(
    before: CoordinatorState,
    request: Request,
    fresh: Uuid,
    occasion: Occasion,
    after: CoordinatorState,
    outcome: Result<Json, CoordinatorFailure>,
)
    requires
        answers(before, request, fresh, occasion, after, outcome),
    ensures
        only_grows(before.db, after.db),
        after.running_timeout == before.running_timeout,
        after.context_event_limit == before.context_event_limit,
{
    let now = occasion.now.secs;
    let timestamp = occasion.now.timestamp@;
    match request {
        Request::RegisterTask { goal, context, initial_nodes } => {
            let (nodes, res) = choose|
                nodes: Seq<(Uuid, NodeDefinition)>,
                res: Result<Uuid, CoordinatorFailure>,
            |
                #[trigger] registers_task(
                    before,
                    fresh,
                    goal@,
                    json_content(context),
                    nodes,
                    now,
                    timestamp,
                    after,
                    res,
                );
            lemma_register_grows(
                before.db,
                fresh,
                goal@,
                json_content(context),
                nodes,
                now,
                timestamp,
            );
        },
        Request::AcquireNextNode { task_id, lease_owner } => {
            lemma_acquire_next_grows(
                before,
                fresh,
                task_id,
                lease_owner@,
                occasion.elapsed_micros,
                now,
            );
        },
        Request::CommitEvent { task_id, node_id, lease_id, action_type, payload } => {
            let action = match opt_text(action_type) {
                Some(action) => action,
                None => "COMMIT_EVENT"@,
            };
            lemma_append_grows(
                before.db,
                fresh,
                task_id,
                node_id,
                lease_id,
                action,
                json_content(payload),
                timestamp,
            );
        },
        Request::HeartbeatNode { task_id, node_id, lease_id } => {
            lemma_extend_grows(
                before.db,
                task_id,
                node_id,
                lease_id,
                column_secs(before.running_timeout),
                now,
            );
        },
        Request::CompleteNode { task_id, node_id, lease_id, result_payload } => {
            lemma_end_grows(
                before.db,
                fresh,
                task_id,
                node_id,
                lease_id,
                NodeStatus::Completed,
                json_content(result_payload),
                now,
                timestamp,
            );
        },
        Request::FailNode { task_id, node_id, lease_id, error_payload } => {
            lemma_end_grows(
                before.db,
                fresh,
                task_id,
                node_id,
                lease_id,
                NodeStatus::Failed,
                json_content(error_payload),
                now,
                timestamp,
            );
        },
        _ => {},
    }
}

/// A sweep loses nothing either: it only rolls running nodes back.
pub proof fn sweeping_forgets_nothing(state: CoordinatorState, now: i64)
    ensures
        only_grows(state.db, sweep_all_step(state, now).0.db),
        sweep_all_step(state, now).0.db.events == state.db.events,
        sweep_all_step(state, now).0.db.tasks == state.db.tasks,
        sweep_all_step(state, now).0.db.locks == state.db.locks,
{
    lemma_sweep_grows(state.db, None, column_secs(state.running_timeout), now);
}

/// Asking how things stand changes nothing.
pub proof fn asking_changes_nothing(
    before: CoordinatorState,
    request: Request,
    fresh: Uuid,
    occasion: Occasion,
    after: CoordinatorState,
    outcome: Result<Json, CoordinatorFailure>,
)
    requires
        answers(before, request, fresh, occasion, after, outcome),
        request is DescribeInterface || request is Health || request is Metrics
            || request is TaskStatus || request is ListResourceLocks,
    ensures
        after == before,
{
}

/// A request that fails leaves the store as it was. Two are left out: acquiring a node, which
/// rolls overdue nodes back before it can fail, and acquiring a lock, which can fail on reading
/// its own metadata back.
pub proof fn refused_request_changes_nothing(
    before: CoordinatorState,
    request: Request,
    fresh: Uuid,
    occasion: Occasion,
    after: CoordinatorState,
    outcome: Result<Json, CoordinatorFailure>,
)
    requires
        answers(before, request, fresh, occasion, after, outcome),
        outcome is Err,
        !(request is AcquireNextNode),
        !(request is AcquireResourceLock),
    ensures
        after == before,
{
}

/// A lease that is not the node's own cannot complete it, fail it or extend it; nor can it write
/// into the journal while the node runs. Nothing changes.
pub proof fn foreign_lease_is_refused(
    state: DbState,
    event_id: Uuid,
    task_id: Uuid,
    node_id: Uuid,
    lease_id: Uuid,
    to: NodeStatus,
    payload: Json,
    action_type: Seq<char>,
    ttl: int,
    now: i64,
    timestamp: Seq<char>,
)
    requires
        state.has_node(task_id@, node_id@),
        !runs_under(state.node(task_id@, node_id@), lease_id@),
    ensures
        end_step(state, event_id, task_id, node_id, lease_id, to, payload, now, timestamp).0
            == state,
        end_step(
            state,
            event_id,
            task_id,
            node_id,
            lease_id,
            to,
            payload,
            now,
            timestamp,
        ).1 is Err,
        extend_step(state, task_id, node_id, lease_id, ttl, now) == (
            state,
            Ok::<bool, DbFailure>(false),
        ),
        stands(state.node(task_id@, node_id@), NodeStatus::Running) ==> {
            let (after, outcome) = append_step(
                state,
                event_id,
                task_id,
                node_id,
                Some(lease_id),
                action_type,
                payload,
                timestamp,
            );
            after == state && outcome is Err
        },
{
}

/// Once a node is handed out, it runs under the lease that was given out, and under no other.
pub proof fn acquired_node_runs_under_its_lease(
    state: CoordinatorState,
    lease_id: Uuid,
    task_id: Uuid,
    owner: Seq<char>,
    elapsed_micros: u128,
    now: i64,
    other: Uuid,
)
    requires
        state.db.wf(),
        acquire_next_step(state, lease_id, task_id, owner, elapsed_micros, now).1 matches Ok(
            Some(_),
        ),
    ensures
        ({
            let (after, outcome) = acquire_next_step(
                state,
                lease_id,
                task_id,
                owner,
                elapsed_micros,
                now,
            );
            let info = outcome->Ok_0->Some_0;
            let row = after.db.node(task_id@, info.node_id@);
            &&& after.db.has_node(task_id@, info.node_id@)
            &&& info.lease_id == lease_id
            &&& runs_under(row, lease_id@)
            &&& row.lease_owner == Some(owner)
            &&& row.lease_expires_at == Some(info.lease_expires_at)
            &&& info.lease_expires_at == now + column_secs(state.running_timeout)
            &&& other != lease_id ==> !runs_under(row, other@)
        }),
{
    let ttl = column_secs(state.running_timeout);
    let db = sweep_step(state.db, Some(task_id@), ttl, now).0;
    lemma_sweep_wf(state.db, Some(task_id@), ttl, now);
    let node_id = first_runnable(db, task_id, pending_of(db.nodes, task_id@))->Ok_0->Some_0;
    lemma_first_runnable(db, task_id, pending_of(db.nodes, task_id@));
    lemma_acquired_row(db, lease_id, task_id, node_id, owner, ttl, now);
    if other@ == lease_id@ {
        identifiers_differ_in_text(other, lease_id);
    }
}

pub(crate) proof fn lemma_sweep_wf(state: DbState, task: Option<Seq<char>>, timeout: int, now: i64)
    requires
        state.wf(),
    ensures
        sweep_step(state, task, timeout, now).0.wf(),
{
    status_words_differ();
    lemma_nodes_rewritten_wf(state, swept(state.nodes, task, now, timeout));
}

/// What a sweep makes of one node.
proof fn lemma_swept_node(
    state: DbState,
    scope: Option<Seq<char>>,
    timeout: int,
    now: i64,
    task: Seq<char>,
    node: Seq<char>,
)
    requires
        state.wf(),
    ensures
        ({
            let after = sweep_step(state, scope, timeout, now).0;
            &&& after.has_node(task, node) == state.has_node(task, node)
            &&& state.has_node(task, node) ==> after.node_at(task, node) == state.node_at(
                task,
                node,
            ) && after.node(task, node) == (if is_overdue(
                state.node(task, node),
                scope,
                now as int,
                timeout,
            ) {
                rolled_back(state.node(task, node), now)
            } else {
                state.node(task, node)
            })
        }),
{
    let after = sweep_step(state, scope, timeout, now).0;
    lemma_sweep_wf(state, scope, timeout, now);
    if state.has_node(task, node) {
        let i = state.node_at(task, node);
        assert(is_node(after.nodes[i], task, node));
        lemma_node_found(after, task, node, i);
    }
    if after.has_node(task, node) {
        let i = after.node_at(task, node);
        assert(is_node(state.nodes[i], task, node));
    }
}

/// What is found runnable waits.
pub(crate) proof fn lemma_first_runnable(state: DbState, task_id: Uuid, pending: Seq<NodeRecord>)
    ensures
        first_runnable(state, task_id, pending) matches Ok(Some(node_id)) ==> waits(
            state,
            task_id@,
            node_id@,
        ),
    decreases pending.len(),
{
    if pending.len() > 0 {
        lemma_first_runnable(state, task_id, pending.drop_first());
    }
}

/// The row of a node that was taken.
pub(crate) proof fn lemma_acquired_row(
    state: DbState,
    lease_id: Uuid,
    task_id: Uuid,
    node_id: Uuid,
    owner: Seq<char>,
    ttl: int,
    now: i64,
)
    requires
        state.wf(),
        waits(state, task_id@, node_id@),
        now + ttl <= i64::MAX,
    ensures
        ({
            let after = acquire_step(state, lease_id, task_id, node_id, owner, ttl, now).0;
            &&& after.has_node(task_id@, node_id@)
            &&& after.wf()
            &&& after.node_at(task_id@, node_id@) == state.node_at(task_id@, node_id@)
            &&& after.node(task_id@, node_id@) == acquired(
                state.node(task_id@, node_id@),
                lease_id@,
                owner,
                now,
                (now + ttl) as i64,
            )
        }),
{
    let after = acquire_step(state, lease_id, task_id, node_id, owner, ttl, now).0;
    let i = state.node_at(task_id@, node_id@);
    let row = acquired(
        state.node(task_id@, node_id@),
        lease_id@,
        owner,
        now,
        (now + ttl) as i64,
    );
    status_words_differ();
    lemma_with_node_wf(state, task_id@, node_id@, row);
    assert(is_node(after.nodes[i], task_id@, node_id@));
    lemma_node_found(after, task_id@, node_id@, i);
}

/// When a node is handed out anew, the lease of whoever had it before can no longer complete it,
/// fail it, extend it or write about it: the attempt is refused and changes nothing.
pub proof fn stale_lease_is_refused_after_reacquire(
    state: CoordinatorState,
    stale: Uuid,
    lease_id: Uuid,
    task_id: Uuid,
    owner: Seq<char>,
    elapsed_micros: u128,
    now: i64,
    event_id: Uuid,
    to: NodeStatus,
    action_type: Option<Seq<char>>,
    payload: Json,
    later: i64,
    timestamp: Seq<char>,
)
    requires
        state.db.wf(),
        stale != lease_id,
        acquire_next_step(state, lease_id, task_id, owner, elapsed_micros, now).1 matches Ok(
            Some(_),
        ),
    ensures
        ({
            let (held, outcome) = acquire_next_step(
                state,
                lease_id,
                task_id,
                owner,
                elapsed_micros,
                now,
            );
            let node_id = outcome->Ok_0->Some_0.node_id;
            let (after, refusal) = end_node_step(
                held,
                event_id,
                task_id,
                node_id,
                stale,
                to,
                payload,
                later,
                timestamp,
            );
            let (unbeaten, refused) = heartbeat_step(held, task_id, node_id, stale, later);
            let (unwritten, rejected) = commit_event_step(
                held,
                event_id,
                task_id,
                node_id,
                Some(stale),
                action_type,
                payload,
                timestamp,
            );
            &&& unwritten == held
            &&& rejected is Err
            &&& after == held
            &&& refusal is Err
            &&& unbeaten == held
            &&& refused == Err::<(), CoordinatorFailure>(
                CoordinatorFailure::NodeNotRunning { task_id, node_id },
            )
        }),
{
    acquired_node_runs_under_its_lease(
        state,
        lease_id,
        task_id,
        owner,
        elapsed_micros,
        now,
        stale,
    );
}

/// While the lease on a node is in force, the next worker gets another node.
pub proof fn two_workers_get_different_nodes(
    state: CoordinatorState,
    task_id: Uuid,
    lease_a: Uuid,
    owner_a: Seq<char>,
    micros_a: u128,
    now_a: i64,
    lease_b: Uuid,
    owner_b: Seq<char>,
    micros_b: u128,
    now_b: i64,
)
    requires
        state.db.wf(),
        acquire_next_step(state, lease_a, task_id, owner_a, micros_a, now_a).1 matches Ok(Some(_)),
        ({
            let (held, first) = acquire_next_step(
                state,
                lease_a,
                task_id,
                owner_a,
                micros_a,
                now_a,
            );
            &&& now_b < first->Ok_0->Some_0.lease_expires_at
            &&& acquire_next_step(held, lease_b, task_id, owner_b, micros_b, now_b).1 matches Ok(
                Some(_),
            )
        }),
    ensures
        ({
            let (held, first) = acquire_next_step(
                state,
                lease_a,
                task_id,
                owner_a,
                micros_a,
                now_a,
            );
            let (after, second) = acquire_next_step(
                held,
                lease_b,
                task_id,
                owner_b,
                micros_b,
                now_b,
            );
            first->Ok_0->Some_0.node_id != second->Ok_0->Some_0.node_id
        }),
{
    let (held, first) = acquire_next_step(state, lease_a, task_id, owner_a, micros_a, now_a);
    let a = first->Ok_0->Some_0.node_id;
    let ttl = column_secs(state.running_timeout);
    let db0 = sweep_step(state.db, Some(task_id@), ttl, now_a).0;
    lemma_sweep_wf(state.db, Some(task_id@), ttl, now_a);
    lemma_first_runnable(db0, task_id, pending_of(db0.nodes, task_id@));
    lemma_acquired_row(db0, lease_a, task_id, a, owner_a, ttl, now_a);
    let db = sweep_step(held.db, Some(task_id@), ttl, now_b).0;
    lemma_swept_node(held.db, Some(task_id@), ttl, now_b, task_id@, a@);
    lemma_first_runnable(db, task_id, pending_of(db.nodes, task_id@));
    status_words_differ();
    assert(!waits(db, task_id@, a@));
}

/// A node whose lease has run out waits again after a sweep, and nobody holds a lease on it.
pub proof fn overdue_node_waits_again(
    state: DbState,
    scope: Option<Seq<char>>,
    timeout: int,
    now: i64,
    task: Seq<char>,
    node: Seq<char>,
)
    requires
        state.wf(),
        state.has_node(task, node),
        is_overdue(state.node(task, node), scope, now as int, timeout),
    ensures
        ({
            let after = sweep_step(state, scope, timeout, now).0;
            &&& waits(after, task, node)
            &&& after.node(task, node).lease_id is None
            &&& sweep_step(state, scope, timeout, now).1 >= 1
        }),
{
    lemma_swept_node(state, scope, timeout, now, task, node);
    let pred = |row: NodeRecord| is_overdue(row, scope, now as int, timeout);
    let at = state.node_at(task, node);
    lemma_filter_keeps(state.nodes, pred, at);
}

proof fn lemma_filter_keeps<A>(s: Seq<A>, pred: spec_fn(A) -> bool, at: int)
    requires
        0 <= at < s.len(),
        pred(s[at]),
    ensures
        s.filter(pred).len() >= 1,
    decreases s.len(),
{
    reveal(Seq::filter);
    if at < s.len() - 1 {
        lemma_filter_keeps(s.drop_last(), pred, at);
    }
}

/// A running node whose lease is in force is left alone by a sweep.
pub proof fn lease_in_force_survives_sweep(
    state: DbState,
    scope: Option<Seq<char>>,
    timeout: int,
    now: i64,
    task: Seq<char>,
    node: Seq<char>,
)
    requires
        state.wf(),
        state.has_node(task, node),
        state.node(task, node).lease_expires_at matches Some(expires) && expires > now,
    ensures
        sweep_step(state, scope, timeout, now).0.has_node(task, node),
        sweep_step(state, scope, timeout, now).0.node(task, node) == state.node(task, node),
{
    lemma_swept_node(state, scope, timeout, now, task, node);
}

/// A heartbeat moves the end of the lease: no sweep before that end takes the node away.
pub proof fn heartbeat_keeps_the_lease(
    state: CoordinatorState,
    task_id: Uuid,
    node_id: Uuid,
    lease_id: Uuid,
    now: i64,
    later: i64,
)
    requires
        state.db.wf(),
        heartbeat_step(state, task_id, node_id, lease_id, now).1 is Ok,
        later < now + column_secs(state.running_timeout),
    ensures
        ({
            let beaten = heartbeat_step(state, task_id, node_id, lease_id, now).0;
            let after = sweep_all_step(beaten, later).0;
            &&& after.db.has_node(task_id@, node_id@)
            &&& runs_under(after.db.node(task_id@, node_id@), lease_id@)
        }),
{
    let beaten = heartbeat_step(state, task_id, node_id, lease_id, now).0;
    let ttl = column_secs(state.running_timeout);
    let i = state.db.node_at(task_id@, node_id@);
    let row = extended(
        state.db.node(task_id@, node_id@),
        now,
        (now + ttl) as i64,
    );
    lemma_with_node_wf(state.db, task_id@, node_id@, row);
    assert(is_node(beaten.db.nodes[i], task_id@, node_id@));
    lemma_node_found(beaten.db, task_id@, node_id@, i);
    lease_in_force_survives_sweep(beaten.db, None, ttl, later, task_id@, node_id@);
}

/// The nodes of a task are stored under the canonical text of their identifiers, as registering
/// stores them.
pub open spec fn is_canonical(rows: Seq<NodeRecord>, task: Seq<char>) -> bool {
    forall|i: int|
        0 <= i < rows.len() && (#[trigger] rows[i]).task_id == task ==> (read_id(
            rows[i].id,
        ) matches Ok(id) ==> rows[i].id == id@)
}

/// A waiting node all of whose dependencies are completed.
pub open spec fn is_runnable(state: DbState, task: Seq<char>, row: NodeRecord) -> bool {
    &&& row.task_id == task
    &&& stands(row, NodeStatus::Pending)
    &&& read_id_list(row.dependencies) matches Ok(dependencies)
    &&& state.all_completed(task, dependencies)
}

/// The rows of a task can be read as far as choosing among them needs it.
pub open spec fn are_readable(rows: Seq<NodeRecord>, task: Seq<char>) -> bool {
    forall|i: int|
        0 <= i < rows.len() && (#[trigger] rows[i]).task_id == task ==> read_id(rows[i].id) is Ok
            && read_id_list(rows[i].dependencies) is Ok
}

/// No node of the task from `from` up to `upto` is runnable.
pub open spec fn none_runnable(state: DbState, task: Seq<char>, from: int, upto: int) -> bool {
    forall|i: int| from <= i < upto ==> !is_runnable(state, task, #[trigger] state.nodes[i])
}

/// What is chosen among the waiting nodes stored from `k` on.
pub(crate) proof fn lemma_choice(state: DbState, task_id: Uuid, k: int)
    requires
        state.wf(),
        is_canonical(state.nodes, task_id@),
        0 <= k <= state.nodes.len(),
    ensures
        match first_runnable(state, task_id, pending_of(state.nodes.skip(k), task_id@)) {
            Ok(Some(node_id)) => {
                let at = state.node_at(task_id@, node_id@);
                &&& state.has_node(task_id@, node_id@)
                &&& k <= at < state.nodes.len()
                &&& is_runnable(state, task_id@, state.nodes[at])
                &&& none_runnable(state, task_id@, k, at)
            },
            Ok(None) => none_runnable(state, task_id@, k, state.nodes.len() as int),
            Err(_) => !are_readable(state.nodes, task_id@),
        },
    decreases state.nodes.len() - k,
{
    let task = task_id@;
    if k == state.nodes.len() {
        assert(state.nodes.skip(k) =~= Seq::empty());
        reveal(Seq::filter);
    } else {
        let row = state.nodes[k];
        let pending = pending_of(state.nodes.skip(k), task);
        lemma_choice(state, task_id, k + 1);
        lemma_pending_from(state.nodes, task, k);
        if row.task_id == task && stands(row, NodeStatus::Pending) {
            assert(pending[0] == row);
            assert(pending.drop_first() =~= pending_of(state.nodes.skip(k + 1), task));
            if is_runnable(state, task, row) {
                match read_id(row.id) {
                    Ok(node_id) => {
                        assert(row.id == node_id@);
                        assert(is_node(state.nodes[k], task, node_id@));
                        lemma_node_found(state, task, node_id@, k);
                    },
                    Err(_) => {},
                }
            }
        }
    }
}

/// In a store that can be read, the nodes of a task can be chosen among.
proof fn lemma_readable_rows(state: DbState, task: Seq<char>)
    requires
        is_readable(state),
    ensures
        is_canonical(state.nodes, task),
        are_readable(state.nodes, task),
{
    assert forall|i: int| 0 <= i < state.nodes.len() implies read_id(
        (#[trigger] state.nodes[i]).id,
    ) is Ok && read_id_list(state.nodes[i].dependencies) is Ok && (read_id(
        state.nodes[i].id,
    ) matches Ok(id) ==> state.nodes[i].id == id@) by {
        assert(node_is_readable(state.nodes[i]));
    }
}

/// Where a node is owed, one is chosen.
pub(crate) proof fn lemma_owed_node_is_found(state: CoordinatorState, task_id: Uuid, now: i64)
    requires
        state.db.wf(),
        owes_node(state, task_id, now),
    ensures
        ({
            let ready = after_sweep(state, task_id, now);
            &&& is_readable(ready)
            &&& first_runnable(ready, task_id, pending_of(ready.nodes, task_id@)) matches Ok(Some(_))
        }),
{
    let ttl = column_secs(state.running_timeout);
    let ready = after_sweep(state, task_id, now);
    lemma_sweep_wf(state.db, Some(task_id@), ttl, now);
    sweep_keeps_store_readable(state.db, Some(task_id@), ttl, now);
    lemma_readable_rows(ready, task_id@);
    assert(ready.nodes.skip(0) =~= ready.nodes);
    lemma_choice(ready, task_id, 0);
}

/// The waiting nodes from `k` on are the one at `k`, if it waits, and those behind it.
pub(crate) proof fn lemma_pending_from(rows: Seq<NodeRecord>, task: Seq<char>, k: int)
    requires
        0 <= k < rows.len(),
    ensures
        pending_of(rows.skip(k), task) == (if rows[k].task_id == task && stands(
            rows[k],
            NodeStatus::Pending,
        ) {
            seq![rows[k]] + pending_of(rows.skip(k + 1), task)
        } else {
            pending_of(rows.skip(k + 1), task)
        }),
{
    let pred = |row: NodeRecord| row.task_id == task && stands(row, NodeStatus::Pending);
    let row = rows[k];
    let rest = rows.skip(k + 1);
    assert(rows.skip(k) =~= seq![row] + rest);
    Seq::filter_distributes_over_add(seq![row], rest, pred);
    assert(seq![row].filter(pred) =~= (if pred(row) {
        seq![row]
    } else {
        Seq::empty()
    })) by {
        reveal(Seq::filter);
        assert(seq![row].drop_last() =~= Seq::empty());
        assert(Seq::<NodeRecord>::empty().filter(pred) =~= Seq::empty());
    }
    assert(Seq::empty() + rest.filter(pred) =~= rest.filter(pred));
}

/// A node is handed out only when everything that it depends on is completed, and it is the
/// oldest such node of its task.
pub proof fn acquired_node_was_ready(
    state: CoordinatorState,
    lease_id: Uuid,
    task_id: Uuid,
    owner: Seq<char>,
    elapsed_micros: u128,
    now: i64,
)
    requires
        state.db.wf(),
        is_canonical(state.db.nodes, task_id@),
        acquire_next_step(state, lease_id, task_id, owner, elapsed_micros, now).1 matches Ok(
            Some(_),
        ),
    ensures
        ({
            let ready = sweep_step(
                state.db,
                Some(task_id@),
                column_secs(state.running_timeout),
                now,
            ).0;
            let info = acquire_next_step(
                state,
                lease_id,
                task_id,
                owner,
                elapsed_micros,
                now,
            ).1->Ok_0->Some_0;
            let at = ready.node_at(task_id@, info.node_id@);
            &&& ready.has_node(task_id@, info.node_id@)
            &&& is_runnable(ready, task_id@, ready.nodes[at])
            &&& none_runnable(ready, task_id@, 0, at)
        }),
{
    let ttl = column_secs(state.running_timeout);
    let ready = sweep_step(state.db, Some(task_id@), ttl, now).0;
    lemma_sweep_wf(state.db, Some(task_id@), ttl, now);
    lemma_sweep_canonical(state.db, Some(task_id@), ttl, now, task_id@);
    assert(ready.nodes.skip(0) =~= ready.nodes);
    lemma_choice(ready, task_id, 0);
}

proof fn lemma_sweep_canonical(
    state: DbState,
    scope: Option<Seq<char>>,
    timeout: int,
    now: i64,
    task: Seq<char>,
)
    requires
        is_canonical(state.nodes, task),
    ensures
        is_canonical(sweep_step(state, scope, timeout, now).0.nodes, task),
{
    let after = sweep_step(state, scope, timeout, now).0;
    assert forall|i: int|
        0 <= i < after.nodes.len() && (#[trigger] after.nodes[i]).task_id == task implies (read_id(
        after.nodes[i].id,
    ) matches Ok(id) ==> after.nodes[i].id == id@) by {
        assert(after.nodes[i].id == state.nodes[i].id);
        assert(state.nodes[i].task_id == task);
    }
}

/// No node is handed out exactly when the task has no runnable node, as long as its nodes can be
/// read.
pub proof fn nothing_is_acquired_iff_nothing_is_runnable(
    state: CoordinatorState,
    lease_id: Uuid,
    task_id: Uuid,
    owner: Seq<char>,
    elapsed_micros: u128,
    now: i64,
)
    requires
        state.db.wf(),
        state.db.has_task(task_id@),
        is_canonical(state.db.nodes, task_id@),
        are_readable(state.db.nodes, task_id@),
    ensures
        ({
            let ready = sweep_step(
                state.db,
                Some(task_id@),
                column_secs(state.running_timeout),
                now,
            ).0;
            acquire_next_step(state, lease_id, task_id, owner, elapsed_micros, now).1 == Ok::<
                Option<AcquiredInfo>,
                CoordinatorFailure,
            >(None) <==> none_runnable(ready, task_id@, 0, ready.nodes.len() as int)
        }),
{
    let ttl = column_secs(state.running_timeout);
    let ready = sweep_step(state.db, Some(task_id@), ttl, now).0;
    lemma_sweep_wf(state.db, Some(task_id@), ttl, now);
    lemma_sweep_canonical(state.db, Some(task_id@), ttl, now, task_id@);
    assert(ready.nodes.skip(0) =~= ready.nodes);
    lemma_choice(ready, task_id, 0);
    lemma_first_runnable(ready, task_id, pending_of(ready.nodes, task_id@));
    assert forall|i: int|
        0 <= i < ready.nodes.len() && (#[trigger] ready.nodes[i]).task_id == task_id@ implies read_id(
        ready.nodes[i].id,
    ) is Ok && read_id_list(ready.nodes[i].dependencies) is Ok by {
        assert(state.db.nodes[i].task_id == task_id@);
    }
}

/// The nodes of the task, and no others, stand from `start` on as they were registered: under
/// their identifiers and with their dependencies.
pub open spec fn keeps_task(
    state: DbState,
    start: int,
    task_id: Uuid,
    nodes: Seq<(Uuid, NodeDefinition)>,
) -> bool {
    &&& state.has_task(task_id@)
    &&& 0 <= start
    &&& start + nodes.len() <= state.nodes.len()
    &&& forall|i: int|
        0 <= i < nodes.len() ==> {
            let row = #[trigger] state.nodes[start + i];
            &&& row.id == nodes[i].0@
            &&& row.task_id == task_id@
            &&& read_id(row.id) == Ok::<Uuid, DbFailure>(nodes[i].0)
            &&& read_id_list(row.dependencies) == Ok::<Seq<Uuid>, DbFailure>(
                nodes[i].1.dependencies@,
            )
        }
    &&& forall|j: int|
        0 <= j < state.nodes.len() && (#[trigger] state.nodes[j]).task_id == task_id@ ==> start <= j
            < start + nodes.len()
}

/// Whatever is asked, the nodes of a registered task stay as they were registered.
pub proof fn task_is_kept(
    before: CoordinatorState,
    request: Request,
    fresh: Uuid,
    occasion: Occasion,
    after: CoordinatorState,
    outcome: Result<Json, CoordinatorFailure>,
    start: int,
    task_id: Uuid,
    nodes: Seq<(Uuid, NodeDefinition)>,
)
    requires
        answers(before, request, fresh, occasion, after, outcome),
        keeps_task(before.db, start, task_id, nodes),
    ensures
        keeps_task(after.db, start, task_id, nodes),
{
    nothing_is_forgotten(before, request, fresh, occasion, after, outcome);
    let a = before.db;
    let b = after.db;
    let t = choose|t: int| 0 <= t < a.tasks.len() && (#[trigger] a.tasks[t]).id == task_id@;
    assert(b.tasks[t].id == task_id@);
    assert forall|i: int| 0 <= i < nodes.len() implies {
        let row = #[trigger] b.nodes[start + i];
        &&& row.id == nodes[i].0@
        &&& row.task_id == task_id@
        &&& read_id(row.id) == Ok::<Uuid, DbFailure>(nodes[i].0)
        &&& read_id_list(row.dependencies) == Ok::<Seq<Uuid>, DbFailure>(nodes[i].1.dependencies@)
    } by {
        assert(evolves(a.nodes[start + i], b.nodes[start + i]));
    }
    assert forall|j: int|
        0 <= j < b.nodes.len() && (#[trigger] b.nodes[j]).task_id == task_id@ implies start <= j
        < start + nodes.len() by {
        if j < a.nodes.len() {
            assert(evolves(a.nodes[j], b.nodes[j]));
        } else {
            lemma_added_nodes(before, request, fresh, occasion, after, outcome, j);
            if fresh@ == task_id@ {
                assert(a.has_task(fresh@));
            }
        }
    }
}

/// A node that was not there before belongs to the task that was registered, which was not there
/// either.
#[verifier::rlimit(40)]
proof fn lemma_added_nodes(
    before: CoordinatorState,
    request: Request,
    fresh: Uuid,
    occasion: Occasion,
    after: CoordinatorState,
    outcome: Result<Json, CoordinatorFailure>,
    j: int,
)
    requires
        answers(before, request, fresh, occasion, after, outcome),
        before.db.nodes.len() <= j < after.db.nodes.len(),
    ensures
        after.db.nodes[j].task_id == fresh@,
        !before.db.has_task(fresh@),
{
    let now = occasion.now.secs;
    let timestamp = occasion.now.timestamp@;
    match request {
        Request::RegisterTask { goal, context, initial_nodes } => {
            let (nodes, res) = choose|
                nodes: Seq<(Uuid, NodeDefinition)>,
                res: Result<Uuid, CoordinatorFailure>,
            |
                #[trigger] registers_task(
                    before,
                    fresh,
                    goal@,
                    json_content(context),
                    nodes,
                    now,
                    timestamp,
                    after,
                    res,
                );
            let n = before.db.nodes.len() as int;
            assert(after.db.nodes[j] == registered_node(fresh, nodes[j - n], now));
        },
        _ => {},
    }
}

/// A sweep keeps the nodes of a registered task as they were registered.
pub proof fn sweep_keeps_task(
    state: DbState,
    scope: Option<Seq<char>>,
    timeout: int,
    now: i64,
    start: int,
    task_id: Uuid,
    nodes: Seq<(Uuid, NodeDefinition)>,
)
    requires
        keeps_task(state, start, task_id, nodes),
    ensures
        keeps_task(sweep_step(state, scope, timeout, now).0, start, task_id, nodes),
{
    let after = sweep_step(state, scope, timeout, now).0;
    let t = choose|t: int| 0 <= t < state.tasks.len() && (#[trigger] state.tasks[t]).id == task_id@;
    assert(after.tasks[t].id == task_id@);
    assert forall|i: int| 0 <= i < nodes.len() implies {
        let row = #[trigger] after.nodes[start + i];
        &&& row.id == nodes[i].0@
        &&& row.task_id == task_id@
        &&& read_id(row.id) == Ok::<Uuid, DbFailure>(nodes[i].0)
        &&& read_id_list(row.dependencies) == Ok::<Seq<Uuid>, DbFailure>(nodes[i].1.dependencies@)
    } by {
        assert(state.nodes[start + i].id == nodes[i].0@);
    }
    assert forall|j: int|
        0 <= j < after.nodes.len() && (#[trigger] after.nodes[j]).task_id == task_id@ implies start
        <= j < start + nodes.len() by {
        assert(state.nodes[j].task_id == task_id@);
    }
}

/// From a waiting node, following dependencies that are not completed leads to a runnable node.
proof fn lemma_follow(
    state: DbState,
    start: int,
    task_id: Uuid,
    nodes: Seq<(Uuid, NodeDefinition)>,
    order: Seq<u128>,
    i: int,
) -> (k: int)
    requires
        state.wf(),
        keeps_task(state, start, task_id, nodes),
        is_dag(nodes),
        is_topological(order, dependency_graph(nodes)),
        dependency_graph(nodes).dom().subset_of(order.to_set()),
        forall|j: int|
            0 <= j < nodes.len() ==> stands(#[trigger] state.nodes[start + j], NodeStatus::Pending)
                || stands(state.nodes[start + j], NodeStatus::Completed),
        0 <= i < nodes.len(),
        stands(state.nodes[start + i], NodeStatus::Pending),
    ensures
        0 <= k < nodes.len(),
        is_runnable(state, task_id@, state.nodes[start + k]),
    decreases order.index_of(nodes[i].0.bits),
{
    let graph = dependency_graph(nodes);
    let dependencies = nodes[i].1.dependencies@;
    let row = state.nodes[start + i];
    assert(row.task_id == task_id@);
    if state.all_completed(task_id@, dependencies) {
        i
    } else {
        let d = choose|d: int|
            0 <= d < dependencies.len() && !state.is_completed(
                task_id@,
                (#[trigger] dependencies[d])@,
            );
        let dependency = dependencies[d];
        assert(sound_upto(nodes, i, dependencies.len() as int));
        assert(dependency_fault(nodes, i, d) is None);
        let j = choose|j: int| 0 <= j < nodes.len() && (#[trigger] nodes[j]).0 == dependency;
        let found = state.nodes[start + j];
        assert(is_node(found, task_id@, dependency@));
        lemma_node_found(state, task_id@, dependency@, start + j);
        assert(stands(found, NodeStatus::Pending));
        lemma_targets(nodes, i);
        let key = nodes[i].0.bits;
        assert(order.to_set().contains(key));
        let at = order.index_of(key);
        assert(order[at] == key);
        assert(bits(dependencies)[d] == dependency.bits);
        assert(targets(graph, order[at]).contains(dependency.bits));
        assert(order.take(at).contains(dependency.bits));
        let e = choose|e: int| 0 <= e < order.take(at).len() && order.take(at)[e] == dependency.bits;
        assert(order[e] == dependency.bits);
        assert(order.index_of(dependency.bits) == e);
        lemma_follow(state, start, task_id, nodes, order, j)
    }
}

/// Work goes on: in a task none of whose nodes has failed, as long as a node is left to do and no
/// lease on one is in force, some node is runnable and the next worker gets one. In a store that can
/// be read, the worker is also told of it.
pub proof fn unfinished_task_makes_progress(
    state: CoordinatorState,
    lease_id: Uuid,
    task_id: Uuid,
    owner: Seq<char>,
    elapsed_micros: u128,
    now: i64,
    start: int,
    nodes: Seq<(Uuid, NodeDefinition)>,
    left: int,
)
    requires
        state.db.wf(),
        keeps_task(state.db, start, task_id, nodes),
        is_dag(nodes),
        forall|j: int|
            0 <= j < nodes.len() ==> {
                let row = #[trigger] state.db.nodes[start + j];
                ||| stands(row, NodeStatus::Pending)
                ||| stands(row, NodeStatus::Completed)
                ||| is_overdue(
                    row,
                    Some(task_id@),
                    now as int,
                    column_secs(state.running_timeout),
                )
            },
        0 <= left < nodes.len(),
        !stands(state.db.nodes[start + left], NodeStatus::Completed),
        now + column_secs(state.running_timeout) <= i64::MAX,
    ensures
        exists|k: int|
            0 <= k < nodes.len() && runs_under(
                acquire_next_step(
                    state,
                    lease_id,
                    task_id,
                    owner,
                    elapsed_micros,
                    now,
                ).0.db.node(task_id@, (#[trigger] nodes[k]).0@),
                lease_id@,
            ),
        ({
            let ready = after_sweep(state, task_id, now);
            !none_runnable(ready, task_id@, 0, ready.nodes.len() as int)
        }),
        is_readable(state.db) ==> owes_node(state, task_id, now),
        is_readable(state.db) && id_reads_back(lease_id) ==> (acquire_next_step(
            state,
            lease_id,
            task_id,
            owner,
            elapsed_micros,
            now,
        ).1 matches Ok(Some(info)) && info.lease_id == lease_id && exists|k: int|
            0 <= k < nodes.len() && info.node_id == (#[trigger] nodes[k]).0),
{
    lemma_progress(
        state,
        lease_id,
        task_id,
        owner,
        elapsed_micros,
        now,
        start,
        nodes,
        left,
    );
    if is_readable(state.db) && id_reads_back(lease_id) {
        owed_node_is_handed_out(state, lease_id, task_id, owner, elapsed_micros, now);
        let (after, outcome) = acquire_next_step(
            state,
            lease_id,
            task_id,
            owner,
            elapsed_micros,
            now,
        );
        let info = outcome->Ok_0->Some_0;
        let ttl = column_secs(state.running_timeout);
        let ready = after_sweep(state, task_id, now);
        lemma_sweep_wf(state.db, Some(task_id@), ttl, now);
        sweep_keeps_task(state.db, Some(task_id@), ttl, now, start, task_id, nodes);
        lemma_first_runnable(ready, task_id, pending_of(ready.nodes, task_id@));
        let at = ready.node_at(task_id@, info.node_id@);
        assert(ready.nodes[at].task_id == task_id@);
        let k = at - start;
        assert(ready.nodes[start + k].id == nodes[k].0@);
        identifiers_differ_in_text(info.node_id, nodes[k].0);
        assert(info.node_id == nodes[k].0);
    }
}

proof fn lemma_progress(
    state: CoordinatorState,
    lease_id: Uuid,
    task_id: Uuid,
    owner: Seq<char>,
    elapsed_micros: u128,
    now: i64,
    start: int,
    nodes: Seq<(Uuid, NodeDefinition)>,
    left: int,
)
    requires
        state.db.wf(),
        keeps_task(state.db, start, task_id, nodes),
        is_dag(nodes),
        forall|j: int|
            0 <= j < nodes.len() ==> {
                let row = #[trigger] state.db.nodes[start + j];
                ||| stands(row, NodeStatus::Pending)
                ||| stands(row, NodeStatus::Completed)
                ||| is_overdue(
                    row,
                    Some(task_id@),
                    now as int,
                    column_secs(state.running_timeout),
                )
            },
        0 <= left < nodes.len(),
        !stands(state.db.nodes[start + left], NodeStatus::Completed),
        now + column_secs(state.running_timeout) <= i64::MAX,
    ensures
        exists|k: int|
            0 <= k < nodes.len() && runs_under(
                acquire_next_step(
                    state,
                    lease_id,
                    task_id,
                    owner,
                    elapsed_micros,
                    now,
                ).0.db.node(task_id@, (#[trigger] nodes[k]).0@),
                lease_id@,
            ),
        ({
            let ready = after_sweep(state, task_id, now);
            !none_runnable(ready, task_id@, 0, ready.nodes.len() as int)
        }),
{
    let ttl = column_secs(state.running_timeout);
    let scope = Some(task_id@);
    let ready = sweep_step(state.db, scope, ttl, now).0;
    lemma_sweep_wf(state.db, scope, ttl, now);
    sweep_keeps_task(state.db, scope, ttl, now, start, task_id, nodes);
    status_words_differ();
    assert forall|j: int| 0 <= j < nodes.len() implies stands(
        #[trigger] ready.nodes[start + j],
        NodeStatus::Pending,
    ) || stands(ready.nodes[start + j], NodeStatus::Completed) by {
        let row = state.db.nodes[start + j];
        assert(stands(row, NodeStatus::Pending) || stands(row, NodeStatus::Completed)
            || is_overdue(row, scope, now as int, ttl));
    }
    assert(stands(ready.nodes[start + left], NodeStatus::Pending)) by {
        let row = state.db.nodes[start + left];
        assert(stands(row, NodeStatus::Pending) || is_overdue(row, scope, now as int, ttl));
    }
    let graph = dependency_graph(nodes);
    let order = choose|order: Seq<u128>| #[trigger]
        is_topological(order, graph) && graph.dom().subset_of(order.to_set());
    let k = lemma_follow(ready, start, task_id, nodes, order, left);
    assert(is_runnable(ready, task_id@, ready.nodes[start + k]));
    assert forall|i: int|
        0 <= i < ready.nodes.len() && (#[trigger] ready.nodes[i]).task_id == task_id@ implies read_id(
        ready.nodes[i].id,
    ) is Ok && read_id_list(ready.nodes[i].dependencies) is Ok && (read_id(
        ready.nodes[i].id,
    ) matches Ok(id) ==> ready.nodes[i].id == id@) by {
        assert(ready.nodes[start + (i - start)].task_id == task_id@);
    }
    assert(ready.nodes.skip(0) =~= ready.nodes);
    lemma_choice(ready, task_id, 0);
    lemma_first_runnable(ready, task_id, pending_of(ready.nodes, task_id@));
    match first_runnable(ready, task_id, pending_of(ready.nodes, task_id@)) {
        Ok(Some(node_id)) => {
            lemma_acquired_row(ready, lease_id, task_id, node_id, owner, ttl, now);
            let at = ready.node_at(task_id@, node_id@);
            assert(ready.nodes[at].task_id == task_id@);
            assert(ready.nodes[start + (at - start)].id == nodes[at - start].0@);
        },
        _ => {
            assert(is_runnable(ready, task_id@, ready.nodes[start + k]));
        },
    }
}

/// Whoever is owed a node is told of one, under the lease that was given out, and the store can
/// still be read.
pub proof fn owed_node_is_handed_out(
    state: CoordinatorState,
    lease_id: Uuid,
    task_id: Uuid,
    owner: Seq<char>,
    elapsed_micros: u128,
    now: i64,
)
    requires
        state.db.wf(),
        owes_node(state, task_id, now),
        id_reads_back(lease_id),
    ensures
        ({
            let (after, outcome) = acquire_next_step(
                state,
                lease_id,
                task_id,
                owner,
                elapsed_micros,
                now,
            );
            &&& outcome matches Ok(Some(info)) && info.lease_id == lease_id
            &&& after.db.wf()
            &&& is_readable(after.db)
        }),
{
    let ttl = column_secs(state.running_timeout);
    let ready = after_sweep(state, task_id, now);
    lemma_owed_node_is_found(state, task_id, now);
    lemma_sweep_wf(state.db, Some(task_id@), ttl, now);
    let node_id = first_runnable(ready, task_id, pending_of(ready.nodes, task_id@))->Ok_0->Some_0;
    lemma_first_runnable(ready, task_id, pending_of(ready.nodes, task_id@));
    lemma_acquire_readable(ready, lease_id, task_id, node_id, owner, ttl, now);
    lemma_acquired_row(ready, lease_id, task_id, node_id, owner, ttl, now);
    let taken = acquire_step(ready, lease_id, task_id, node_id, owner, ttl, now).0;
    let t = choose|t: int|
        0 <= t < state.db.tasks.len() && (#[trigger] state.db.tasks[t]).id == task_id@;
    assert(taken.tasks[t].id == task_id@);
    let at = taken.node_at(task_id@, node_id@);
    assert(node_is_readable(taken.nodes[at]));
    context_of_readable_store(
        taken,
        task_id,
        taken.node(task_id@, node_id@),
        state.context_event_limit,
    );
}

/// A node that was runnable and was not taken is still runnable while the lease on the one that was
/// taken is in force.
proof fn lemma_still_runnable(
    ready: DbState,
    lease_id: Uuid,
    task_id: Uuid,
    node_id: Uuid,
    owner: Seq<char>,
    ttl: int,
    now: i64,
    later: i64,
    r: int,
)
    requires
        ready.wf(),
        waits(ready, task_id@, node_id@),
        now + ttl <= i64::MAX,
        0 <= r < ready.nodes.len(),
        r != ready.node_at(task_id@, node_id@),
        is_runnable(ready, task_id@, ready.nodes[r]),
    ensures
        ({
            let taken = acquire_step(ready, lease_id, task_id, node_id, owner, ttl, now).0;
            let again = sweep_step(taken, Some(task_id@), ttl, later).0;
            &&& r < again.nodes.len()
            &&& is_runnable(again, task_id@, again.nodes[r])
        }),
{
    let taken = acquire_step(ready, lease_id, task_id, node_id, owner, ttl, now).0;
    let again = sweep_step(taken, Some(task_id@), ttl, later).0;
    let at = ready.node_at(task_id@, node_id@);
    let row = ready.nodes[r];
    let dependencies = read_id_list(row.dependencies)->Ok_0;
    status_words_differ();
    lemma_acquired_row(ready, lease_id, task_id, node_id, owner, ttl, now);
    lemma_sweep_wf(taken, Some(task_id@), ttl, later);
    assert(taken.nodes[r] == row);
    assert(again.nodes[r] == row);
    assert forall|d: int| 0 <= d < dependencies.len() implies again.is_completed(
        task_id@,
        (#[trigger] dependencies[d])@,
    ) by {
        assert(ready.is_completed(task_id@, dependencies[d]@));
        let i = ready.node_at(task_id@, dependencies[d]@);
        assert(i != at);
        assert(taken.nodes[i] == ready.nodes[i]);
        assert(again.nodes[i] == ready.nodes[i]);
        assert(is_node(again.nodes[i], task_id@, dependencies[d]@));
        lemma_node_found(again, task_id@, dependencies[d]@, i);
    }
}

/// Of two runnable nodes one is left for the next worker, as long as the store can be read and the
/// lease on the node that was handed out is in force.
pub proof fn another_node_is_still_owed(
    state: CoordinatorState,
    task_id: Uuid,
    lease_id: Uuid,
    owner: Seq<char>,
    elapsed_micros: u128,
    now: i64,
    later: i64,
    i: int,
    j: int,
)
    requires
        state.db.wf(),
        ({
            let ready = after_sweep(state, task_id, now);
            &&& 0 <= i < j < ready.nodes.len()
            &&& is_runnable(ready, task_id@, ready.nodes[i])
            &&& is_runnable(ready, task_id@, ready.nodes[j])
        }),
        acquire_next_step(state, lease_id, task_id, owner, elapsed_micros, now).1 matches Ok(
            Some(_),
        ),
        is_readable(
            acquire_next_step(state, lease_id, task_id, owner, elapsed_micros, now).0.db,
        ),
        later < now + column_secs(state.running_timeout),
        later + column_secs(state.running_timeout) <= i64::MAX,
    ensures
        owes_node(
            acquire_next_step(state, lease_id, task_id, owner, elapsed_micros, now).0,
            task_id,
            later,
        ),
{
    let ttl = column_secs(state.running_timeout);
    let ready = after_sweep(state, task_id, now);
    let (held, first) = acquire_next_step(state, lease_id, task_id, owner, elapsed_micros, now);
    let node_id = first->Ok_0->Some_0.node_id;
    lemma_sweep_wf(state.db, Some(task_id@), ttl, now);
    lemma_first_runnable(ready, task_id, pending_of(ready.nodes, task_id@));
    let r = if ready.node_at(task_id@, node_id@) == i { j } else { i };
    lemma_still_runnable(ready, lease_id, task_id, node_id, owner, ttl, now, later, r);
    let t = choose|t: int|
        0 <= t < state.db.tasks.len() && (#[trigger] state.db.tasks[t]).id == task_id@;
    assert(held.db.tasks[t].id == task_id@);
}

/// Two workers who ask for a node of a task with two runnable nodes, the second while the lease of
/// the first is in force, are both told of a node: each of another, under a lease of their own.
pub proof fn two_workers_are_both_served(
    state: CoordinatorState,
    task_id: Uuid,
    lease_a: Uuid,
    owner_a: Seq<char>,
    micros_a: u128,
    now_a: i64,
    lease_b: Uuid,
    owner_b: Seq<char>,
    micros_b: u128,
    now_b: i64,
    i: int,
    j: int,
)
    requires
        state.db.wf(),
        is_readable(state.db),
        state.db.has_task(task_id@),
        ({
            let ready = after_sweep(state, task_id, now_a);
            &&& 0 <= i < j < ready.nodes.len()
            &&& is_runnable(ready, task_id@, ready.nodes[i])
            &&& is_runnable(ready, task_id@, ready.nodes[j])
        }),
        lease_a != lease_b,
        id_reads_back(lease_a),
        id_reads_back(lease_b),
        now_a + column_secs(state.running_timeout) <= i64::MAX,
        now_b + column_secs(state.running_timeout) <= i64::MAX,
        now_b < now_a + column_secs(state.running_timeout),
    ensures
        ({
            let (held, first) = acquire_next_step(
                state,
                lease_a,
                task_id,
                owner_a,
                micros_a,
                now_a,
            );
            let (after, second) = acquire_next_step(
                held,
                lease_b,
                task_id,
                owner_b,
                micros_b,
                now_b,
            );
            &&& first matches Ok(Some(a)) && second matches Ok(Some(b)) && a.node_id != b.node_id
                && a.lease_id != b.lease_id
        }),
{
    let ready = after_sweep(state, task_id, now_a);
    assert(is_runnable(ready, task_id@, ready.nodes[i]));
    owed_node_is_handed_out(state, lease_a, task_id, owner_a, micros_a, now_a);
    let held = acquire_next_step(state, lease_a, task_id, owner_a, micros_a, now_a).0;
    another_node_is_still_owed(
        state,
        task_id,
        lease_a,
        owner_a,
        micros_a,
        now_a,
        now_b,
        i,
        j,
    );
    owed_node_is_handed_out(held, lease_b, task_id, owner_b, micros_b, now_b);
    two_workers_get_different_nodes(
        state,
        task_id,
        lease_a,
        owner_a,
        micros_a,
        now_a,
        lease_b,
        owner_b,
        micros_b,
        now_b,
    );
}

/// What is done for one task leaves the nodes of other tasks alone.
pub proof fn other_tasks_are_left_alone(
    before: CoordinatorState,
    request: Request,
    fresh: Uuid,
    occasion: Occasion,
    after: CoordinatorState,
    outcome: Result<Json, CoordinatorFailure>,
    i: int,
)
    requires
        answers(before, request, fresh, occasion, after, outcome),
        0 <= i < before.db.nodes.len(),
        match request {
            Request::AcquireNextNode { task_id, .. } => before.db.nodes[i].task_id != task_id@,
            Request::HeartbeatNode { task_id, .. } => before.db.nodes[i].task_id != task_id@,
            Request::CompleteNode { task_id, .. } => before.db.nodes[i].task_id != task_id@,
            Request::FailNode { task_id, .. } => before.db.nodes[i].task_id != task_id@,
            _ => true,
        },
    ensures
        after.db.nodes[i] == before.db.nodes[i],
{
    match request {
        Request::AcquireNextNode { task_id, lease_owner } => {
            let now = occasion.now.secs;
            let ttl = column_secs(before.running_timeout);
            let ready = sweep_step(before.db, Some(task_id@), ttl, now).0;
            assert(ready.nodes[i] == before.db.nodes[i]);
            lemma_first_runnable(ready, task_id, pending_of(ready.nodes, task_id@));
        },
        Request::RegisterTask { goal, context, initial_nodes } => {
            let (nodes, res) = choose|
                nodes: Seq<(Uuid, NodeDefinition)>,
                res: Result<Uuid, CoordinatorFailure>,
            |
                #[trigger] registers_task(
                    before,
                    fresh,
                    goal@,
                    json_content(context),
                    nodes,
                    occasion.now.secs,
                    occasion.now.timestamp@,
                    after,
                    res,
                );
        },
        _ => {},
    }
}

/// Completing or failing a node adds exactly one entry to the journal, about that node.
pub proof fn ending_a_node_adds_one_entry(
    state: DbState,
    event_id: Uuid,
    task_id: Uuid,
    node_id: Uuid,
    lease_id: Uuid,
    to: NodeStatus,
    payload: Json,
    now: i64,
    timestamp: Seq<char>,
)
    requires
        end_step(
            state,
            event_id,
            task_id,
            node_id,
            lease_id,
            to,
            payload,
            now,
            timestamp,
        ).1 is Ok,
    ensures
        ({
            let after = end_step(
                state,
                event_id,
                task_id,
                node_id,
                lease_id,
                to,
                payload,
                now,
                timestamp,
            ).0;
            &&& after.events.drop_last() == state.events
            &&& after.events.last().id == event_id@
            &&& after.events.last().node_id == node_id@
            &&& after.events.last().action_type == ending_action(to)
        }),
{
    let after = end_step(
        state,
        event_id,
        task_id,
        node_id,
        lease_id,
        to,
        payload,
        now,
        timestamp,
    ).0;
    assert(after.events.drop_last() =~= state.events);
}

/// While a lock is in force, nobody gets it, not even whoever holds it, and asking changes nothing.
pub proof fn held_lock_excludes_others(
    state: DbState,
    lease_id: Uuid,
    request: AcquireResourceLock,
    now: i64,
)
    requires
        is_locked(state, request.resource_key@, now as int),
    ensures
        lock_step(state, lease_id, request, now) == (state, Ok::<Option<LockRecord>, DbFailure>(None)),
{
}

proof fn lemma_lock_written(
    state: DbState,
    lease_id: Uuid,
    request: AcquireResourceLock,
    now: i64,
)
    requires
        state.wf(),
        lock_step(state, lease_id, request, now).1 matches Ok(Some(_)),
    ensures
        ({
            let (after, outcome) = lock_step(state, lease_id, request, now);
            let row = outcome->Ok_0->Some_0;
            &&& after.wf()
            &&& after.has_lock(request.resource_key@)
            &&& after.lock(request.resource_key@) == row
            &&& row.lease_id == lease_id@
            &&& row.lease_expires_at > now
        }),
{
    let key = request.resource_key@;
    let (after, outcome) = lock_step(state, lease_id, request, now);
    let row = outcome->Ok_0->Some_0;
    if state.has_lock(key) {
        let i = state.lock_at(key);
        lemma_locks_rewritten_wf(state, state.locks.update(i, row));
        lemma_lock_found(after, key, i);
    } else {
        lemma_locks_rewritten_wf(state, state.locks.push(row));
        lemma_lock_found(after, key, state.locks.len() as int);
    }
}

/// Whoever is granted a lock holds it until the lease runs out; until then nobody gets it.
pub proof fn granted_lock_is_exclusive(
    state: DbState,
    lease_id: Uuid,
    request: AcquireResourceLock,
    now: i64,
    other_lease: Uuid,
    other_request: AcquireResourceLock,
    later: i64,
)
    requires
        state.wf(),
        lock_step(state, lease_id, request, now).1 matches Ok(Some(_)),
        later < lock_step(state, lease_id, request, now).1->Ok_0->Some_0.lease_expires_at,
        other_request.resource_key@ == request.resource_key@,
    ensures
        ({
            let after = lock_step(state, lease_id, request, now).0;
            &&& holds_lock(after, request.resource_key@, lease_id@, later as int)
            &&& lock_step(after, other_lease, other_request, later) == (
                after,
                Ok::<Option<LockRecord>, DbFailure>(None),
            )
        }),
{
    lemma_lock_written(state, lease_id, request, now);
}

/// A lock that nobody holds, because it was released or its lease has run out, goes to whoever
/// asks for it.
pub proof fn free_lock_is_granted(
    state: DbState,
    lease_id: Uuid,
    request: AcquireResourceLock,
    now: i64,
)
    requires
        !is_locked(state, request.resource_key@, now as int),
        is_storable(json_content(request.metadata)),
        now + lock_ttl(column_secs(request.lease_ttl)) <= i64::MAX,
        request.task_id matches Some(task_id) ==> state.has_task(task_id@),
    ensures
        lock_step(state, lease_id, request, now).1 matches Ok(Some(row)) && row.lease_id
            == lease_id@ && row.owner == request.owner@,
{
}

/// A lock that was released is free, and the others are as they were.
pub proof fn released_lock_is_free(state: DbState, key: Seq<char>, lease_id: Uuid)
    requires
        state.wf(),
        release_step(state, key, lease_id).1,
    ensures
        !release_step(state, key, lease_id).0.has_lock(key),
{
    let after = release_step(state, key, lease_id).0;
    let at = state.lock_at(key);
    if after.has_lock(key) {
        let i = after.lock_at(key);
        if i < at {
            assert(after.locks[i] == state.locks[i]);
        } else {
            assert(after.locks[i] == state.locks[i + 1]);
        }
    }
}

/// A release by the lease under which a resource is locked takes that lock away and no other: a
/// second release finds nothing, and the next to ask gets the lock under a lease of their own, which
/// the old lease cannot release. Any other release changes nothing.
pub proof fn release_passes_the_lock_on(
    state: DbState,
    key: Seq<char>,
    lease_id: Uuid,
    next_lease: Uuid,
    request: AcquireResourceLock,
    now: i64,
)
    requires
        state.wf(),
        request.resource_key@ == key,
        is_storable(json_content(request.metadata)),
        now + lock_ttl(column_secs(request.lease_ttl)) <= i64::MAX,
        request.task_id matches Some(task_id) ==> state.has_task(task_id@),
    ensures
        ({
            let (after, released) = release_step(state, key, lease_id);
            let (passed_on, outcome) = lock_step(after, next_lease, request, now);
            &&& released <==> state.has_lock(key) && state.lock(key).lease_id == lease_id@
            &&& !released ==> after == state
            &&& released ==> {
                &&& after == (DbState { locks: state.locks.remove(state.lock_at(key)), ..state })
                &&& release_step(after, key, lease_id) == (after, false)
                &&& outcome matches Ok(Some(row)) && row.lease_id == next_lease@
                &&& next_lease != lease_id ==> passed_on.lock(key).lease_id != lease_id@
                    && release_step(passed_on, key, lease_id) == (passed_on, false)
            }
        }),
{
    let (after, released) = release_step(state, key, lease_id);
    if released {
        released_lock_is_free(state, key, lease_id);
        let locks = state.locks.remove(state.lock_at(key));
        assert forall|i: int, j: int| 0 <= i < j < locks.len() implies (
        #[trigger] locks[i]).resource_key != (#[trigger] locks[j]).resource_key by {
            let at = state.lock_at(key);
            let a = if i < at { i } else { i + 1 };
            let b = if j < at { j } else { j + 1 };
            assert(locks[i] == state.locks[a]);
            assert(locks[j] == state.locks[b]);
        }
        lemma_locks_rewritten_wf(state, locks);
        if let Some(task_id) = request.task_id {
            let t = choose|t: int|
                0 <= t < state.tasks.len() && (#[trigger] state.tasks[t]).id == task_id@;
            assert(after.tasks[t].id == task_id@);
        }
        free_lock_is_granted(after, next_lease, request, now);
        lemma_lock_written(after, next_lease, request, now);
        if next_lease@ == lease_id@ {
            identifiers_differ_in_text(next_lease, lease_id);
        }
    }
}

/// A lease that does not hold a lock can neither release nor extend it.
pub proof fn foreign_lease_cannot_touch_lock(
    state: DbState,
    key: Seq<char>,
    lease_id: Uuid,
    ttl: int,
    now: i64,
)
    requires
        !(state.has_lock(key) && state.lock(key).lease_id == lease_id@),
    ensures
        release_step(state, key, lease_id) == (state, false),
        extend_lock_step(state, key, lease_id, ttl, now) == (state, Ok::<bool, DbFailure>(false)),
{
}

/// A lock whose lease has run out cannot be extended, not even by whoever held it.
pub proof fn lapsed_lock_cannot_be_extended(
    state: DbState,
    key: Seq<char>,
    lease_id: Uuid,
    ttl: int,
    now: i64,
)
    requires
        state.has_lock(key),
        !is_held(state.lock(key), now as int),
    ensures
        extend_lock_step(state, key, lease_id, ttl, now) == (state, Ok::<bool, DbFailure>(false)),
{
}

/// The locks on one resource are as they were for another.
pub open spec fn same_lock(before: DbState, after: DbState, key: Seq<char>) -> bool {
    &&& after.has_lock(key) == before.has_lock(key)
    &&& before.has_lock(key) ==> after.lock(key) == before.lock(key)
}

/// What is done to the lock on one resource leaves the lock on another alone.
pub proof fn other_resources_are_left_alone(
    state: DbState,
    lease_id: Uuid,
    request: AcquireResourceLock,
    ttl: int,
    now: i64,
    other: Seq<char>,
)
    requires
        state.wf(),
        other != request.resource_key@,
    ensures
        same_lock(state, lock_step(state, lease_id, request, now).0, other),
        same_lock(
            state,
            extend_lock_step(state, request.resource_key@, lease_id, ttl, now).0,
            other,
        ),
        same_lock(state, release_step(state, request.resource_key@, lease_id).0, other),
{
    let key = request.resource_key@;
    let locked = lock_step(state, lease_id, request, now).0;
    let extended = extend_lock_step(state, key, lease_id, ttl, now).0;
    let released = release_step(state, key, lease_id).0;
    if locked != state {
        if state.has_lock(key) {
            lemma_rewritten_lock(state, locked, key, other);
        } else {
            lemma_added_lock(state, locked, other);
        }
    }
    if extended != state {
        lemma_rewritten_lock(state, extended, key, other);
    }
    if released != state {
        lemma_removed_lock(state, released, key, other);
    }
}

proof fn lemma_rewritten_lock(before: DbState, after: DbState, key: Seq<char>, other: Seq<char>)
    requires
        before.wf(),
        before.has_lock(key),
        other != key,
        after.locks.len() == before.locks.len(),
        after.locks[before.lock_at(key)].resource_key == key,
        forall|i: int|
            0 <= i < before.locks.len() && i != before.lock_at(key) ==> #[trigger] after.locks[i]
                == before.locks[i],
    ensures
        same_lock(before, after, other),
{
    let at = before.lock_at(key);
    if before.has_lock(other) {
        let i = before.lock_at(other);
        assert(i != at);
        assert(after.locks[i].resource_key == other);
        let j = after.lock_at(other);
        assert(j != at);
        assert(before.locks[j].resource_key == other);
        lemma_lock_found(before, other, j);
    }
    if after.has_lock(other) {
        let i = after.lock_at(other);
        assert(i != at);
        assert(before.locks[i].resource_key == other);
    }
}

proof fn lemma_added_lock(before: DbState, after: DbState, other: Seq<char>)
    requires
        before.wf(),
        after.locks.len() == before.locks.len() + 1,
        after.locks.last().resource_key != other,
        forall|i: int| 0 <= i < before.locks.len() ==> #[trigger] after.locks[i] == before.locks[i],
    ensures
        same_lock(before, after, other),
{
    if before.has_lock(other) {
        let i = before.lock_at(other);
        assert(after.locks[i].resource_key == other);
        let j = after.lock_at(other);
        assert(before.locks[j].resource_key == other);
        lemma_lock_found(before, other, j);
    }
    if after.has_lock(other) {
        let i = after.lock_at(other);
        assert(before.locks[i].resource_key == other);
    }
}

proof fn lemma_removed_lock(before: DbState, after: DbState, key: Seq<char>, other: Seq<char>)
    requires
        before.wf(),
        before.has_lock(key),
        other != key,
        after == before.without_lock(key),
    ensures
        same_lock(before, after, other),
{
    let at = before.lock_at(key);
    if before.has_lock(other) {
        let i = before.lock_at(other);
        if i < at {
            assert(after.locks[i].resource_key == other);
        } else {
            assert(after.locks[i - 1].resource_key == other);
        }
        let j = after.lock_at(other);
        if j < at {
            assert(before.locks[j].resource_key == other);
            lemma_lock_found(before, other, j);
        } else {
            assert(before.locks[j + 1].resource_key == other);
            lemma_lock_found(before, other, j + 1);
        }
    }
    if after.has_lock(other) {
        let i = after.lock_at(other);
        if i < at {
            assert(before.locks[i].resource_key == other);
        } else {
            assert(before.locks[i + 1].resource_key == other);
        }
    }
}

proof fn lemma_filter_split<A>(s: Seq<A>, p: spec_fn(A) -> bool, q: spec_fn(A) -> bool)
    requires
        forall|i: int| 0 <= i < s.len() ==> p(#[trigger] s[i]) != q(s[i]),
    ensures
        s.filter(p).len() + s.filter(q).len() == s.len(),
    decreases s.len(),
{
    reveal(Seq::filter);
    if s.len() > 0 {
        let fewer = s.drop_last();
        assert forall|i: int| 0 <= i < fewer.len() implies p(#[trigger] fewer[i]) != q(fewer[i]) by {
            assert(fewer[i] == s[i]);
        }
        lemma_filter_split(fewer, p, q);
        assert(p(s[s.len() - 1]) != q(s[s.len() - 1]));
    }
}

proof fn lemma_standing_sum(rows: Seq<NodeRecord>)
    requires
        forall|i: int| 0 <= i < rows.len() ==> read_status((#[trigger] rows[i]).status) is Ok,
    ensures
        standing(rows, NodeStatus::Pending.word()) + standing(rows, NodeStatus::Running.word())
            + standing(rows, NodeStatus::Completed.word()) + standing(
            rows,
            NodeStatus::Failed.word(),
        ) == rows.len(),
    decreases rows.len(),
{
    reveal(Seq::filter);
    if rows.len() > 0 {
        let fewer = rows.drop_last();
        assert forall|i: int| 0 <= i < fewer.len() implies read_status(
            (#[trigger] fewer[i]).status,
        ) is Ok by {
            assert(fewer[i] == rows[i]);
        }
        lemma_standing_sum(fewer);
        status_words_differ();
        assert(read_status(rows[rows.len() - 1].status) is Ok);
    }
}

/// The count for a status, or zero if there is none.
pub open spec fn count_of(counts: Map<Seq<char>, nat>, status: NodeStatus) -> nat {
    if counts.dom().contains(status.word()) {
        counts[status.word()]
    } else {
        0
    }
}

/// The counts add up: every lock is in force or has run out, and every node stands at one of the
/// four statuses, where no node has another word.
pub proof fn counts_add_up(state: DbState, metrics: DatabaseMetrics, latest: i64, now: int)
    requires
        metrics.describes(state, latest, now),
    ensures
        metrics.active_resource_locks + metrics.expired_resource_locks == state.locks.len(),
        state.is_linked() ==> {
            let counts = metrics.node_status_counts@;
            count_of(counts, NodeStatus::Pending) + count_of(counts, NodeStatus::Running)
                + count_of(counts, NodeStatus::Completed) + count_of(counts, NodeStatus::Failed)
                == metrics.total_nodes
        },
{
    lemma_filter_split(
        state.locks,
        |row: LockRecord| is_held(row, now),
        |row: LockRecord| !is_held(row, now),
    );
    if state.is_linked() {
        lemma_standing_sum(state.nodes);
    }
}

/// A worker is told of no more journal entries than the limit allows, and those are the latest.
pub proof fn context_holds_the_latest_entries(entries: Seq<EventRecord>, limit: nat)
    ensures
        latest(entries, limit).len() <= limit,
        latest(entries, limit).is_suffix_of(entries),
        entries.len() <= limit ==> latest(entries, limit) == entries,
{
    let tail = latest(entries, limit);
    assert(tail =~= entries.subrange(entries.len() - tail.len(), entries.len() as int));
}

/// Leases that have run out are looked for at least every half of the lease time, but not more
/// often than every second.
pub proof fn sweeps_keep_pace(timeout: Duration)
    ensures
        sweep_nanos(timeout) >= 1_000_000_000,
        duration_nanos(timeout) >= 2_000_000_000 ==> sweep_nanos(timeout) * 2 <= duration_nanos(
            timeout,
        ) < sweep_nanos(timeout) * 2 + 2,
        duration_nanos(timeout) < 2_000_000_000 ==> sweep_nanos(timeout) == 1_000_000_000,
{
}

/// A task is registered only if its nodes make a directed acyclic graph; then it is, unless an
/// identifier is taken or JSON is nested too deep for the tables, and all its nodes wait.
pub proof fn only_acyclic_tasks_are_registered(
    before: CoordinatorState,
    task_id: Uuid,
    goal: Seq<char>,
    context: Json,
    nodes: Seq<(Uuid, NodeDefinition)>,
    now: i64,
    timestamp: Seq<char>,
    after: CoordinatorState,
    outcome: Result<Uuid, CoordinatorFailure>,
)
    requires
        registers_task(before, task_id, goal, context, nodes, now, timestamp, after, outcome),
    ensures
        outcome is Ok ==> is_dag(nodes),
        outcome is Err ==> after == before,
        is_dag(nodes) && is_storable(context) && !before.db.has_task(task_id@) && (forall|i: int|
            0 <= i < nodes.len() ==> !before.db.has_node_id((#[trigger] nodes[i]).0@)
                && is_storable(json_content(nodes[i].1.payload_schema))) ==> outcome == Ok::<
            Uuid,
            CoordinatorFailure,
        >(task_id),
        outcome is Ok ==> forall|i: int|
            before.db.nodes.len() <= i < after.db.nodes.len() ==> stands(
                #[trigger] after.db.nodes[i],
                NodeStatus::Pending,
            ),
{
    if is_dag(nodes) {
        assert forall|i: int| 0 <= i < nodes.len() implies !repeats(nodes, i) by {
            if repeats(nodes, i) {
                let j = choose|j: int| 0 <= j < i && (#[trigger] nodes[j]).0 == nodes[i].0;
                assert(nodes[j].0 != nodes[i].0);
            }
        }
        lemma_no_fault(before.db, nodes, nodes.len() as int);
        if outcome is Ok {
            let n = before.db.nodes.len() as int;
            assert forall|i: int| n <= i < after.db.nodes.len() implies stands(
                #[trigger] after.db.nodes[i],
                NodeStatus::Pending,
            ) by {
                assert(after.db.nodes[i] == registered_node(task_id, nodes[i - n], now));
            }
        }
    }
}

/// Only a running node has a lease, and only a node that has ended has a result.
pub open spec fn is_tidy(row: NodeRecord) -> bool {
    &&& !stands(row, NodeStatus::Running) ==> row.lease_id is None && row.lease_owner is None
        && row.lease_expires_at is None && row.acquired_at is None
    &&& stands(row, NodeStatus::Pending) || stands(row, NodeStatus::Running)
        ==> row.result_payload is None
}

/// All nodes are tidy.
pub open spec fn all_tidy(rows: Seq<NodeRecord>) -> bool {
    forall|i: int| 0 <= i < rows.len() ==> is_tidy(#[trigger] rows[i])
}

/// A sweep keeps nodes tidy.
pub proof fn sweep_keeps_nodes_tidy(
    state: DbState,
    scope: Option<Seq<char>>,
    timeout: int,
    now: i64,
)
    requires
        all_tidy(state.nodes),
    ensures
        all_tidy(sweep_step(state, scope, timeout, now).0.nodes),
{
    status_words_differ();
    let after = sweep_step(state, scope, timeout, now).0;
    assert forall|i: int| 0 <= i < after.nodes.len() implies is_tidy(#[trigger] after.nodes[i]) by {
        assert(is_tidy(state.nodes[i]));
    }
}

proof fn lemma_tidy_update(rows: Seq<NodeRecord>, at: int, row: NodeRecord)
    requires
        all_tidy(rows),
        is_tidy(row),
    ensures
        0 <= at < rows.len() ==> all_tidy(rows.update(at, row)),
{
    if 0 <= at < rows.len() {
        assert forall|i: int| 0 <= i < rows.len() implies is_tidy(
            #[trigger] rows.update(at, row)[i],
        ) by {
            assert(is_tidy(rows[i]));
        }
    }
}

/// Whatever is asked, leases stay with running nodes and results with nodes that have ended.
pub proof fn nodes_stay_tidy(
    before: CoordinatorState,
    request: Request,
    fresh: Uuid,
    occasion: Occasion,
    after: CoordinatorState,
    outcome: Result<Json, CoordinatorFailure>,
)
    requires
        answers(before, request, fresh, occasion, after, outcome),
        all_tidy(before.db.nodes),
    ensures
        all_tidy(after.db.nodes),
{
    status_words_differ();
    let now = occasion.now.secs;
    let ttl = column_secs(before.running_timeout);
    match request {
        Request::RegisterTask { goal, context, initial_nodes } => {
            let (nodes, res) = choose|
                nodes: Seq<(Uuid, NodeDefinition)>,
                res: Result<Uuid, CoordinatorFailure>,
            |
                #[trigger] registers_task(
                    before,
                    fresh,
                    goal@,
                    json_content(context),
                    nodes,
                    now,
                    occasion.now.timestamp@,
                    after,
                    res,
                );
            let n = before.db.nodes.len() as int;
            assert forall|i: int| 0 <= i < after.db.nodes.len() implies is_tidy(
                #[trigger] after.db.nodes[i],
            ) by {
                if i < n {
                    assert(is_tidy(before.db.nodes[i]));
                } else {
                    assert(after.db.nodes[i] == registered_node(fresh, nodes[i - n], now));
                }
            }
        },
        Request::AcquireNextNode { task_id, lease_owner } => {
            let ready = sweep_step(before.db, Some(task_id@), ttl, now).0;
            sweep_keeps_nodes_tidy(before.db, Some(task_id@), ttl, now);
            lemma_first_runnable(ready, task_id, pending_of(ready.nodes, task_id@));
            match first_runnable(ready, task_id, pending_of(ready.nodes, task_id@)) {
                Ok(Some(node_id)) => {
                    let at = ready.node_at(task_id@, node_id@);
                    assert(is_tidy(ready.nodes[at]));
                    let row = acquired(
                        ready.nodes[at],
                        fresh@,
                        lease_owner@,
                        now,
                        (now + ttl) as i64,
                    );
                    lemma_tidy_update(ready.nodes, at, row);
                },
                _ => {},
            }
        },
        Request::HeartbeatNode { task_id, node_id, lease_id } => {
            if before.db.has_node(task_id@, node_id@) {
                let at = before.db.node_at(task_id@, node_id@);
                let row = before.db.nodes[at];
                assert(is_tidy(row));
                if runs_under(row, lease_id@) {
                    lemma_tidy_update(
                        before.db.nodes,
                        at,
                        extended(row, now, (now + ttl) as i64),
                    );
                }
            }
        },
        Request::CompleteNode { task_id, node_id, lease_id, result_payload } => {
            if before.db.has_node(task_id@, node_id@) {
                let at = before.db.node_at(task_id@, node_id@);
                lemma_tidy_update(
                    before.db.nodes,
                    at,
                    ended(
                        before.db.nodes[at],
                        NodeStatus::Completed,
                        json_text(json_content(result_payload)),
                        now,
                    ),
                );
            }
        },
        Request::FailNode { task_id, node_id, lease_id, error_payload } => {
            if before.db.has_node(task_id@, node_id@) {
                let at = before.db.node_at(task_id@, node_id@);
                lemma_tidy_update(
                    before.db.nodes,
                    at,
                    ended(
                        before.db.nodes[at],
                        NodeStatus::Failed,
                        json_text(json_content(error_payload)),
                        now,
                    ),
                );
            }
        },
        _ => {},
    }
}

} // verus!
