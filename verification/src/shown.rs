//! How rows look to a client, column by column, and how several of them are picked out.

use crate::error::DbFailure;
use crate::ids::{parsed_uuid, Uuid};
use crate::json::{json_parsed, parsed_ids, Json};
use crate::rows::{
    read_event, read_lock, read_node, read_task, EventRecord, LockRecord, NodeRecord,
    TaskRecord,
};
use crate::state::read_each;
use crate::wire::{event_json, lock_json, node_json, task_json};
use vstd::prelude::*;

verus! {

/// The places of exactly those rows that are wanted, in rising order.
pub open spec fn picks<A>(places: Seq<int>, rows: Seq<A>, wanted: spec_fn(A) -> bool) -> bool {
    &&& forall|a: int|
        0 <= a < places.len() ==> 0 <= #[trigger] places[a] < rows.len() && wanted(rows[places[a]])
    &&& forall|a: int, b: int|
        0 <= a < b < places.len() ==> (#[trigger] places[a]) < (#[trigger] places[b])
    &&& forall|i: int| 0 <= i < rows.len() && wanted(#[trigger] rows[i]) ==> places.contains(i)
}

/// How many of the rows are wanted.
pub open spec fn how_many<A>(rows: Seq<A>, wanted: spec_fn(A) -> bool) -> nat {
    Set::new(|i: int| 0 <= i < rows.len() && wanted(rows[i])).len()
}

/// What a filter keeps stands at the places picked.
pub(crate) proof fn lemma_filter_picks<A>(rows: Seq<A>, wanted: spec_fn(A) -> bool) -> (places: Seq<
    int,
>)
    ensures
        picks(places, rows, wanted),
        rows.filter(wanted).len() == places.len(),
        forall|k: int|
            0 <= k < places.len() ==> rows.filter(wanted)[k] == rows[#[trigger] places[k]],
    decreases rows.len(),
{
    reveal(Seq::filter);
    if rows.len() == 0 {
        Seq::empty()
    } else {
        let fewer = rows.drop_last();
        let earlier = lemma_filter_picks(fewer, wanted);
        let n = rows.len() - 1;
        let places = if wanted(rows.last()) {
            earlier.push(n)
        } else {
            earlier
        };
        assert forall|a: int| 0 <= a < places.len() implies 0 <= #[trigger] places[a] < rows.len()
            && wanted(rows[places[a]]) && rows.filter(wanted)[a] == rows[places[a]] by {
            if a < earlier.len() {
                assert(places[a] == earlier[a]);
                assert(fewer[earlier[a]] == rows[earlier[a]]);
            }
        }
        assert forall|a: int, b: int| 0 <= a < b < places.len() implies (#[trigger] places[a]) < (
        #[trigger] places[b]) by {
            assert(places[a] == earlier[a]);
            if b < earlier.len() {
                assert(places[b] == earlier[b]);
            }
        }
        assert forall|i: int| 0 <= i < rows.len() && wanted(#[trigger] rows[i]) implies places.contains(
            i,
        ) by {
            if i < n {
                assert(fewer[i] == rows[i]);
                assert(earlier.contains(i));
                let a = choose|a: int| 0 <= a < earlier.len() && earlier[a] == i;
                assert(places[a] == i);
            } else {
                assert(places[earlier.len() as int] == i);
            }
        }
        places
    }
}

/// A filter keeps as many rows as are wanted.
pub(crate) proof fn lemma_filter_counts<A>(rows: Seq<A>, wanted: spec_fn(A) -> bool)
    ensures
        rows.filter(wanted).len() == how_many(rows, wanted),
        Set::new(|i: int| 0 <= i < rows.len() && wanted(rows[i])).finite(),
    decreases rows.len(),
{
    reveal(Seq::filter);
    let all = Set::new(|i: int| 0 <= i < rows.len() && wanted(rows[i]));
    if rows.len() == 0 {
        assert(all =~= Set::empty());
    } else {
        let fewer = rows.drop_last();
        let earlier = Set::new(|i: int| 0 <= i < fewer.len() && wanted(fewer[i]));
        lemma_filter_counts(fewer, wanted);
        let n = rows.len() - 1;
        if wanted(rows.last()) {
            assert(all =~= earlier.insert(n));
        } else {
            assert(all =~= earlier);
        }
    }
}

/// Filtering twice is filtering by both.
pub(crate) proof fn lemma_filter_twice<A>(
    rows: Seq<A>,
    first: spec_fn(A) -> bool,
    second: spec_fn(A) -> bool,
)
    ensures
        rows.filter(first).filter(second) == rows.filter(|row: A| first(row) && second(row)),
    decreases rows.len(),
{
    reveal(Seq::filter);
    if rows.len() > 0 {
        let kept = rows.drop_last().filter(first);
        lemma_filter_twice(rows.drop_last(), first, second);
        assert(kept.push(rows.last()).drop_last() =~= kept);
    }
}

/// What each row says where all can be read.
pub(crate) proof fn lemma_read_all<R, T>(
    rows: Seq<R>,
    read: spec_fn(R) -> Result<T, DbFailure>,
)
    ensures
        read_each(rows, read) matches Ok(items) ==> items.len() == rows.len() && forall|k: int|
            0 <= k < rows.len() ==> read(rows[k]) == Ok::<T, DbFailure>(#[trigger] items[k]),
        (forall|k: int| 0 <= k < rows.len() ==> read(#[trigger] rows[k]) is Ok) ==> read_each(
            rows,
            read,
        ) is Ok,
    decreases rows.len(),
{
    if rows.len() > 0 {
        let fewer = rows.drop_last();
        lemma_read_all(fewer, read);
        if let Ok(items) = read_each(rows, read) {
            let earlier = read_each(fewer, read)->Ok_0;
            assert forall|k: int| 0 <= k < rows.len() implies read(rows[k]) == Ok::<T, DbFailure>(
                #[trigger] items[k],
            ) by {
                if k < fewer.len() {
                    assert(items[k] == earlier[k]);
                    assert(rows[k] == fewer[k]);
                }
            }
        }
        if forall|k: int| 0 <= k < rows.len() ==> read(#[trigger] rows[k]) is Ok {
            assert forall|k: int| 0 <= k < fewer.len() implies read(#[trigger] fewer[k]) is Ok by {
                assert(fewer[k] == rows[k]);
            }
            assert(read(rows[rows.len() - 1]) is Ok);
        }
    }
}

/// A text that may be absent, as JSON.
pub open spec fn maybe_text(text: Option<Seq<char>>) -> Json {
    match text {
        Some(text) => Json::Text(text),
        None => Json::Null,
    }
}

/// A number that may be absent, as JSON.
pub open spec fn maybe_number(n: Option<i64>) -> Json {
    match n {
        Some(n) => Json::Integer(n as int),
        None => Json::Null,
    }
}

/// An identifier out of a column that may be empty, as JSON.
pub open spec fn maybe_id(text: Option<Seq<char>>) -> Json {
    match text {
        Some(text) => Json::Text(parsed_uuid(text)->Ok_0@),
        None => Json::Null,
    }
}

/// JSON out of a column that may be empty.
pub open spec fn maybe_json(text: Option<Seq<char>>) -> Json {
    match text {
        Some(text) => json_parsed(text)->Ok_0,
        None => Json::Null,
    }
}

/// The columns of a task can be read.
pub open spec fn task_reads(row: TaskRecord) -> bool {
    parsed_uuid(row.id) is Ok && json_parsed(row.context) is Ok
}

/// A task as a client sees it.
pub open spec fn task_view(row: TaskRecord) -> Json {
    Json::Object(
        map![
            "id"@ => Json::Text(parsed_uuid(row.id)->Ok_0@),
            "goal"@ => Json::Text(row.goal),
            "context"@ => json_parsed(row.context)->Ok_0,
            "created_at"@ => Json::Text(row.created_at),
        ],
    )
}

/// The columns of a node can be read.
pub open spec fn node_reads(row: NodeRecord) -> bool {
    &&& parsed_uuid(row.id) is Ok
    &&& parsed_uuid(row.task_id) is Ok
    &&& row.status == "PENDING"@ || row.status == "RUNNING"@ || row.status == "COMPLETED"@
        || row.status == "FAILED"@
    &&& parsed_ids(row.dependencies) is Ok
    &&& json_parsed(row.payload_schema) is Ok
    &&& row.result_payload matches Some(text) ==> json_parsed(text) is Ok
    &&& row.lease_id matches Some(text) ==> parsed_uuid(text) is Ok
}

/// A node as a client sees it.
pub open spec fn node_view(row: NodeRecord) -> Json {
    let dependencies = parsed_ids(row.dependencies)->Ok_0;
    Json::Object(
        map![
            "id"@ => Json::Text(parsed_uuid(row.id)->Ok_0@),
            "task_id"@ => Json::Text(parsed_uuid(row.task_id)->Ok_0@),
            "status"@ => Json::Text(row.status),
            "dependencies"@ => Json::Array(
                Seq::new(dependencies.len(), |i: int| Json::Text(dependencies[i]@)),
            ),
            "payload_schema"@ => json_parsed(row.payload_schema)->Ok_0,
            "result_payload"@ => maybe_json(row.result_payload),
            "acquired_at"@ => maybe_number(row.acquired_at),
            "lease_id"@ => maybe_id(row.lease_id),
            "lease_owner"@ => maybe_text(row.lease_owner),
            "lease_expires_at"@ => maybe_number(row.lease_expires_at),
            "updated_at"@ => Json::Integer(row.updated_at as int),
        ],
    )
}

/// The columns of a journal entry can be read.
pub open spec fn event_reads(row: EventRecord) -> bool {
    parsed_uuid(row.id) is Ok && parsed_uuid(row.task_id) is Ok && parsed_uuid(row.node_id) is Ok
        && json_parsed(row.payload) is Ok
}

/// A journal entry as a client sees it.
pub open spec fn event_view(row: EventRecord) -> Json {
    Json::Object(
        map![
            "id"@ => Json::Text(parsed_uuid(row.id)->Ok_0@),
            "task_id"@ => Json::Text(parsed_uuid(row.task_id)->Ok_0@),
            "node_id"@ => Json::Text(parsed_uuid(row.node_id)->Ok_0@),
            "action_type"@ => Json::Text(row.action_type),
            "payload"@ => json_parsed(row.payload)->Ok_0,
            "timestamp"@ => Json::Text(row.timestamp),
        ],
    )
}

/// The columns of a lock can be read.
pub open spec fn lock_reads(row: LockRecord) -> bool {
    &&& parsed_uuid(row.lease_id) is Ok
    &&& row.task_id matches Some(text) ==> parsed_uuid(text) is Ok
    &&& row.node_id matches Some(text) ==> parsed_uuid(text) is Ok
    &&& json_parsed(row.metadata) is Ok
}

/// A lock as a client sees it.
pub open spec fn lock_view(row: LockRecord) -> Json {
    Json::Object(
        map![
            "resource_key"@ => Json::Text(row.resource_key),
            "lease_id"@ => Json::Text(parsed_uuid(row.lease_id)->Ok_0@),
            "owner"@ => Json::Text(row.owner),
            "provider"@ => maybe_text(row.provider),
            "task_id"@ => maybe_id(row.task_id),
            "node_id"@ => maybe_id(row.node_id),
            "metadata"@ => json_parsed(row.metadata)->Ok_0,
            "acquired_at"@ => Json::Integer(row.acquired_at as int),
            "lease_expires_at"@ => Json::Integer(row.lease_expires_at as int),
            "updated_at"@ => Json::Integer(row.updated_at as int),
        ],
    )
}

/// A client is shown a task with every column under its own name and as it is stored.
pub proof fn task_is_shown_in_full(row: TaskRecord)
    ensures
        read_task(row) is Ok <==> task_reads(row),
        read_task(row) matches Ok(task) ==> task_json(task) == task_view(row),
{
}

/// A client is shown a node with every column under its own name and as it is stored.
pub proof fn node_is_shown_in_full(row: NodeRecord)
    ensures
        read_node(row) is Ok <==> node_reads(row),
        read_node(row) matches Ok(node) ==> node_json(node) == node_view(row),
{
    if let Ok(node) = read_node(row) {
        assert(node.dependencies.map_values(|id: Uuid| Json::Text(id@)) =~= Seq::new(
            node.dependencies.len(),
            |i: int| Json::Text(node.dependencies[i]@),
        ));
    }
}

/// A client is shown a journal entry with every column under its own name and as it is stored.
pub proof fn event_is_shown_in_full(row: EventRecord)
    ensures
        read_event(row) is Ok <==> event_reads(row),
        read_event(row) matches Ok(event) ==> event_json(event) == event_view(row),
{
}

/// A client is shown a lock with every column under its own name and as it is stored.
pub proof fn lock_is_shown_in_full(row: LockRecord)
    ensures
        read_lock(row) is Ok <==> lock_reads(row),
        read_lock(row) matches Ok(lock) ==> lock_json(lock) == lock_view(row),
{
}

/// Why a column does not read as an identifier, if it does not.
pub open spec fn id_fault(text: Seq<char>) -> Option<DbFailure> {
    match parsed_uuid(text) {
        Ok(_) => None,
        Err(words) => Some(DbFailure::Uuid(words)),
    }
}

/// Why a column does not read as JSON, if it does not.
pub open spec fn json_fault(text: Seq<char>) -> Option<DbFailure> {
    match json_parsed(text) {
        Ok(_) => None,
        Err(words) => Some(DbFailure::Json(words)),
    }
}

/// Why a column does not read as a list of identifiers, if it does not.
pub open spec fn ids_fault(text: Seq<char>) -> Option<DbFailure> {
    match parsed_ids(text) {
        Ok(_) => None,
        Err(words) => Some(DbFailure::Json(words)),
    }
}

/// Why a column does not read as a status, if it does not.
pub open spec fn status_fault(word: Seq<char>) -> Option<DbFailure> {
    if word == "PENDING"@ || word == "RUNNING"@ || word == "COMPLETED"@ || word == "FAILED"@ {
        None
    } else {
        Some(DbFailure::InvalidState("unknown node status: "@ + word))
    }
}

/// As [`id_fault`], for a column that may be empty.
pub open spec fn maybe_id_fault(text: Option<Seq<char>>) -> Option<DbFailure> {
    match text {
        Some(text) => id_fault(text),
        None => None,
    }
}

/// As [`json_fault`], for a column that may be empty.
pub open spec fn maybe_json_fault(text: Option<Seq<char>>) -> Option<DbFailure> {
    match text {
        Some(text) => json_fault(text),
        None => None,
    }
}

/// The failure is the first there is.
pub open spec fn comes_first(failure: DbFailure, faults: Seq<Option<DbFailure>>) -> bool {
    exists|k: int|
        0 <= k < faults.len() && #[trigger] faults[k] == Some(failure) && forall|j: int|
            0 <= j < k ==> #[trigger] faults[j] is None
}

/// If a row cannot be read, the failure is that of the first of its columns that cannot.
pub proof fn first_unreadable_column_is_told(
    task: TaskRecord,
    node: NodeRecord,
    event: EventRecord,
    lock: LockRecord,
)
    ensures
        read_task(task) matches Err(failure) ==> comes_first(
            failure,
            seq![id_fault(task.id), json_fault(task.context)],
        ),
        read_node(node) matches Err(failure) ==> comes_first(
            failure,
            seq![
                id_fault(node.id),
                id_fault(node.task_id),
                status_fault(node.status),
                ids_fault(node.dependencies),
                json_fault(node.payload_schema),
                maybe_json_fault(node.result_payload),
                maybe_id_fault(node.lease_id),
            ],
        ),
        read_event(event) matches Err(failure) ==> comes_first(
            failure,
            seq![
                id_fault(event.id),
                id_fault(event.task_id),
                id_fault(event.node_id),
                json_fault(event.payload),
            ],
        ),
        read_lock(lock) matches Err(failure) ==> comes_first(
            failure,
            seq![
                id_fault(lock.lease_id),
                maybe_id_fault(lock.task_id),
                maybe_id_fault(lock.node_id),
                json_fault(lock.metadata),
            ],
        ),
{
    if let Err(failure) = read_task(task) {
        let faults = seq![id_fault(task.id), json_fault(task.context)];
        lemma_comes_first(failure, faults);
    }
    if let Err(failure) = read_node(node) {
        let faults = seq![
            id_fault(node.id),
            id_fault(node.task_id),
            status_fault(node.status),
            ids_fault(node.dependencies),
            json_fault(node.payload_schema),
            maybe_json_fault(node.result_payload),
            maybe_id_fault(node.lease_id),
        ];
        lemma_comes_first(failure, faults);
    }
    if let Err(failure) = read_event(event) {
        let faults = seq![
            id_fault(event.id),
            id_fault(event.task_id),
            id_fault(event.node_id),
            json_fault(event.payload),
        ];
        lemma_comes_first(failure, faults);
    }
    if let Err(failure) = read_lock(lock) {
        let faults = seq![
            id_fault(lock.lease_id),
            maybe_id_fault(lock.task_id),
            maybe_id_fault(lock.node_id),
            json_fault(lock.metadata),
        ];
        lemma_comes_first(failure, faults);
    }
}

/// At most seven faults are looked through one by one.
proof fn lemma_comes_first(failure: DbFailure, faults: Seq<Option<DbFailure>>)
    requires
        2 <= faults.len() <= 7,
        ({
            let next = |k: int, rest: bool|
                k < faults.len() && (faults[k] == Some(failure) || (faults[k] is None && rest));
            next(
                0,
                next(1, next(2, next(3, next(4, next(5, next(6, false)))))),
            )
        }),
    ensures
        comes_first(failure, faults),
{
    let k = if faults[0] is Some {
        0int
    } else if faults[1] is Some {
        1int
    } else if faults[2] is Some {
        2int
    } else if faults[3] is Some {
        3int
    } else if faults[4] is Some {
        4int
    } else if faults[5] is Some {
        5int
    } else {
        6int
    };
    assert(faults[k] == Some(failure));
}

/// If several rows cannot all be read, the failure is that of the first that cannot.
pub proof fn first_unreadable_row_is_told<R, T>(
    rows: Seq<R>,
    read: spec_fn(R) -> Result<T, DbFailure>,
)
    ensures
        read_each(rows, read) matches Err(failure) ==> exists|k: int|
            {
                &&& 0 <= k < rows.len()
                &&& read(#[trigger] rows[k]) == Err::<T, DbFailure>(failure)
                &&& forall|j: int| 0 <= j < k ==> read(#[trigger] rows[j]) is Ok
            },
    decreases rows.len(),
{
    if rows.len() > 0 {
        let fewer = rows.drop_last();
        first_unreadable_row_is_told(fewer, read);
        lemma_read_all(fewer, read);
        if let Err(failure) = read_each(rows, read) {
            if read_each(fewer, read) is Err {
                let k = choose|k: int|
                    {
                        &&& 0 <= k < fewer.len()
                        &&& read(#[trigger] fewer[k]) == Err::<T, DbFailure>(failure)
                        &&& forall|j: int| 0 <= j < k ==> read(#[trigger] fewer[j]) is Ok
                    };
                assert(rows[k] == fewer[k]);
                assert forall|j: int| 0 <= j < k implies read(#[trigger] rows[j]) is Ok by {
                    assert(rows[j] == fewer[j]);
                }
            } else {
                let n = rows.len() - 1;
                let items = read_each(fewer, read)->Ok_0;
                assert(rows[n] == rows.last());
                assert forall|j: int| 0 <= j < n implies read(#[trigger] rows[j]) is Ok by {
                    assert(read(fewer[j]) == Ok::<T, DbFailure>(items[j]));
                }
            }
        }
    }
}

} // verus!
