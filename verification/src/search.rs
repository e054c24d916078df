//! How a node is looked for, one stored node after the other.

use crate::conduct::{lemma_node_is_at, node_is_at, store_refuses, task_exists, whole_secs};
use crate::coordinator::{after_sweep, first_runnable, waits, CoordinatorFailure, CoordinatorState};
use crate::error::DbFailure;
use crate::handout::{freed, has_lapsed, is_done, lemma_done, lemma_freed, taken};
use crate::ids::{parsed_uuid, Uuid};
use crate::ipc::{answers, Occasion, Request};
use crate::json::{parsed_ids, Json};
use crate::laws::{lemma_acquired_row, lemma_first_runnable, lemma_pending_from, lemma_sweep_wf};
use crate::rows::{status_words_differ, NodeRecord, NodeStatus};
use crate::state::{acquire_step, pending_of, DbState};
use vstd::prelude::*;

verus! {

/// A node of the task that waits, or will once the time of its lease is seen to be over.
pub open spec fn is_open(row: NodeRecord, task_id: Uuid, now: int, secs: int) -> bool {
    row.task_id == task_id@ && (row.status == "PENDING"@ || has_lapsed(row, task_id, now, secs))
}

/// The task has such a node, and it is open.
pub open spec fn has_open(state: DbState, task_id: Uuid, now: int, secs: int, id: Uuid) -> bool {
    exists|j: int| #[trigger]
        node_is_at(state, task_id, id, j) && is_open(state.nodes[j], task_id, now, secs)
}

/// The node at `i` does not end the search: it is not open, or it depends on one that is not
/// completed, or it is stored under a text that is not that of an open node's identifier.
pub open spec fn is_passed_over(
    state: DbState,
    task_id: Uuid,
    now: int,
    secs: int,
    i: int,
) -> bool {
    let row = state.nodes[i];
    is_open(row, task_id, now, secs) ==> (parsed_ids(row.dependencies) matches Ok(dependencies) && (
    (exists|d: int|
        0 <= d < dependencies.len() && !is_done(state, task_id, #[trigger] dependencies[d])) || (
    parsed_uuid(row.id) matches Ok(id) && !has_open(state, task_id, now, secs, id))))
}

/// The node at `at` is the first that ends the search.
pub open spec fn ends_search(state: DbState, task_id: Uuid, now: int, secs: int, at: int) -> bool {
    &&& 0 <= at < state.nodes.len()
    &&& !is_passed_over(state, task_id, now, secs, at)
    &&& forall|i: int| 0 <= i < at ==> #[trigger] is_passed_over(state, task_id, now, secs, i)
}

/// What the search comes to at a node that ends it.
pub open spec fn found_at(row: NodeRecord) -> Result<Option<Uuid>, DbFailure> {
    match (parsed_ids(row.dependencies), parsed_uuid(row.id)) {
        (Err(words), _) => Err(DbFailure::Json(words)),
        (_, Err(words)) => Err(DbFailure::Uuid(words)),
        (Ok(_), Ok(id)) => Ok(Some(id)),
    }
}

proof fn lemma_waits(before: CoordinatorState, task_id: Uuid, now: i64, id: Uuid)
    requires
        before.db.wf(),
    ensures
        waits(after_sweep(before, task_id, now), task_id@, id@) <==> has_open(
            before.db,
            task_id,
            now as int,
            whole_secs(before.running_timeout),
            id,
        ),
{
    let secs = whole_secs(before.running_timeout);
    let ready = after_sweep(before, task_id, now);
    lemma_freed(before, task_id, now);
    lemma_sweep_wf(before.db, Some(task_id@), secs, now);
    lemma_node_is_at(ready, task_id, id);
    status_words_differ();
    assert("PENDING"@ == NodeStatus::Pending.word());
    if has_open(before.db, task_id, now as int, secs, id) {
        let j = choose|j: int| #[trigger]
            node_is_at(before.db, task_id, id, j) && is_open(
                before.db.nodes[j],
                task_id,
                now as int,
                secs,
            );
        assert(node_is_at(ready, task_id, id, j));
    }
    if waits(ready, task_id@, id@) {
        let j = ready.node_at(task_id@, id@);
        assert(node_is_at(ready, task_id, id, j));
        assert(node_is_at(before.db, task_id, id, j));
    }
}

/// The search among the nodes stored from `k` on.
proof fn lemma_search(before: CoordinatorState, task_id: Uuid, now: i64, k: int)
    requires
        before.db.wf(),
        0 <= k <= before.db.nodes.len(),
    ensures
        ({
            let secs = whole_secs(before.running_timeout);
            let rows = before.db.nodes;
            let ready = after_sweep(before, task_id, now);
            let found = first_runnable(ready, task_id, pending_of(ready.nodes.skip(k), task_id@));
            &&& (forall|i: int|
                k <= i < rows.len() ==> #[trigger] is_passed_over(
                    before.db,
                    task_id,
                    now as int,
                    secs,
                    i,
                )) ==> found == Ok::<Option<Uuid>, DbFailure>(None)
            &&& forall|at: int|
                k <= at < rows.len() && !#[trigger] is_passed_over(
                    before.db,
                    task_id,
                    now as int,
                    secs,
                    at,
                ) && (forall|i: int|
                    k <= i < at ==> #[trigger] is_passed_over(
                        before.db,
                        task_id,
                        now as int,
                        secs,
                        i,
                    )) ==> found == found_at(rows[at])
        }),
    decreases before.db.nodes.len() - k,
{
    let secs = whole_secs(before.running_timeout);
    let rows = before.db.nodes;
    let ready = after_sweep(before, task_id, now);
    lemma_freed(before, task_id, now);
    if k == rows.len() {
        assert(ready.nodes.skip(k) =~= Seq::empty());
        reveal(Seq::filter);
    } else {
        lemma_search(before, task_id, now, k + 1);
        lemma_pending_from(ready.nodes, task_id@, k);
        status_words_differ();
        assert("PENDING"@ == NodeStatus::Pending.word());
        assert("RUNNING"@ == NodeStatus::Running.word());
        let row = ready.nodes[k];
        assert(row == freed(rows[k], task_id, now, secs));
        let rest = pending_of(ready.nodes.skip(k + 1), task_id@);
        let pending = pending_of(ready.nodes.skip(k), task_id@);
        if is_open(rows[k], task_id, now as int, secs) {
            assert(pending.drop_first() =~= rest);
            if let Ok(dependencies) = parsed_ids(row.dependencies) {
                assert forall|d: int| 0 <= d < dependencies.len() implies (ready.is_completed(
                    task_id@,
                    (#[trigger] dependencies[d])@,
                ) <==> is_done(before.db, task_id, dependencies[d])) by {
                    lemma_done(before, task_id, now, dependencies[d]);
                }
                if let Ok(id) = parsed_uuid(row.id) {
                    lemma_waits(before, task_id, now, id);
                }
            }
        }
        if is_passed_over(before.db, task_id, now as int, secs, k) {
            assert(first_runnable(ready, task_id, pending) == first_runnable(ready, task_id, rest));
        } else {
            assert(first_runnable(ready, task_id, pending) == found_at(rows[k]));
        }
    }
}

/// A node is looked for from the oldest on, whatever is stored. If every node is passed over, the
/// worker is told that there is none. The first that is not ends the search: a node whose
/// dependencies or whose identifier cannot be read makes the request fail; any other is handed out,
/// unless its lease would run out later than can be said. But for that node, and for those of the
/// task whose time is over, no row changes.
pub proof fn search_goes_from_the_oldest_on(
    before: CoordinatorState,
    task_id: Uuid,
    lease_owner: String,
    fresh: Uuid,
    occasion: Occasion,
    after: CoordinatorState,
    outcome: Result<Json, CoordinatorFailure>,
    at: int,
)
    requires
        before.db.wf(),
        task_exists(before.db, task_id),
        answers(
            before,
            Request::AcquireNextNode { task_id, lease_owner },
            fresh,
            occasion,
            after,
            outcome,
        ),
    ensures
        ({
            let now = occasion.now.secs;
            let secs = whole_secs(before.running_timeout);
            let rows = before.db.nodes;
            let only_freed = after.db.nodes.len() == rows.len() && forall|i: int|
                0 <= i < rows.len() ==> #[trigger] after.db.nodes[i] == freed(
                    rows[i],
                    task_id,
                    now,
                    secs,
                );
            &&& after.db == (DbState { nodes: after.db.nodes, ..before.db })
            &&& (forall|i: int|
                0 <= i < rows.len() ==> #[trigger] is_passed_over(
                    before.db,
                    task_id,
                    now as int,
                    secs,
                    i,
                )) ==> only_freed && outcome == Ok::<Json, CoordinatorFailure>(Json::Null)
            &&& ends_search(before.db, task_id, now as int, secs, at) ==> match (
                parsed_ids(rows[at].dependencies),
                parsed_uuid(rows[at].id),
            ) {
                (Err(words), _) => only_freed && outcome == Err::<Json, CoordinatorFailure>(
                    CoordinatorFailure::Db(DbFailure::Json(words)),
                ),
                (_, Err(words)) => only_freed && outcome == Err::<Json, CoordinatorFailure>(
                    CoordinatorFailure::Db(DbFailure::Uuid(words)),
                ),
                (Ok(_), Ok(id)) => if now + secs > i64::MAX {
                    only_freed && store_refuses("lease expiry out of range"@, outcome)
                } else {
                    forall|j: int| #[trigger]
                        node_is_at(before.db, task_id, id, j) ==> {
                            &&& after.db.nodes.len() == rows.len()
                            &&& after.db.nodes[j] == taken(
                                freed(rows[j], task_id, now, secs),
                                fresh,
                                lease_owner@,
                                now,
                                secs,
                            )
                            &&& forall|i: int|
                                0 <= i < rows.len() && i != j ==> #[trigger] after.db.nodes[i]
                                    == freed(rows[i], task_id, now, secs)
                        }
                },
            }
        }),
{
    let now = occasion.now.secs;
    let secs = whole_secs(before.running_timeout);
    let rows = before.db.nodes;
    let ready = after_sweep(before, task_id, now);
    lemma_freed(before, task_id, now);
    lemma_sweep_wf(before.db, Some(task_id@), secs, now);
    lemma_search(before, task_id, now, 0);
    assert(ready.nodes.skip(0) =~= ready.nodes);
    lemma_first_runnable(ready, task_id, pending_of(ready.nodes, task_id@));
    if ends_search(before.db, task_id, now as int, secs, at) {
        if let Ok(Some(id)) = found_at(rows[at]) {
            lemma_node_is_at(ready, task_id, id);
            lemma_waits(before, task_id, now, id);
            if now + secs <= i64::MAX {
                lemma_acquired_row(ready, fresh, task_id, id, lease_owner@, secs, now);
                let held = acquire_step(ready, fresh, task_id, id, lease_owner@, secs, now).0;
                assert(after.db == held);
                assert forall|j: int| #[trigger] node_is_at(before.db, task_id, id, j) implies j
                    == ready.node_at(task_id@, id@) by {
                    assert(node_is_at(ready, task_id, id, j));
                }
            }
        }
    }
}

} // verus!
