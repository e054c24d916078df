//! What registering a task takes and what it stores.

use crate::coordinator::{
    lifted, registers_task, CoordinatorFailure, CoordinatorState, RuntimeMetrics,
};
use crate::error::DbFailure;
use crate::graph::{
    acyclic_graph_has_no_cycle, all_sound, bits, dependency_fault, dependency_graph,
    distinct_ids, is_cycle, is_dag, is_on_cycle, is_path, known_id, lemma_targets, materialised,
    names_cycle, refused_with, repeats, sound_upto, targets, NodeDefinition,
};
use crate::ids::Uuid;
use crate::ipc::{answers, field_json, shown, Occasion, Request};
use crate::json::{ids_text, json_content, json_text, Json};
use crate::registration::registers;
use crate::rows::{NodeRecord, TaskRecord};
use crate::state::{lemma_no_fault, node_fault, registered_node, DbState};
use vstd::prelude::*;

verus! {

/// The identifiers under which the nodes are stored: those that their definitions ask for, and
/// random ones where they ask for none.
pub open spec fn names_nodes(ids: Seq<Uuid>, definitions: Seq<NodeDefinition>) -> bool {
    &&& ids.len() == definitions.len()
    &&& forall|i: int|
        0 <= i < ids.len() ==> match definitions[i].id {
            Some(id) => #[trigger] ids[i] == id,
            None => (ids[i].bits >> 76) & 0xf == 4 && (ids[i].bits >> 62) & 0x3 == 2,
        }
}

/// The node `a` is one of these, and depends on `b`.
pub open spec fn depends_on(
    ids: Seq<Uuid>,
    definitions: Seq<NodeDefinition>,
    a: Uuid,
    b: Uuid,
) -> bool {
    exists|i: int|
        0 <= i < ids.len() && #[trigger] ids[i] == a && definitions[i].dependencies@.contains(b)
}

/// Going from each node to one that it depends on leads back to where it began.
pub open spec fn is_loop(
    path: Seq<Uuid>,
    ids: Seq<Uuid>,
    definitions: Seq<NodeDefinition>,
) -> bool {
    &&& path.len() >= 2
    &&& path.first() == path.last()
    &&& forall|k: int|
        0 <= k < path.len() - 1 ==> depends_on(ids, definitions, #[trigger] path[k], path[k + 1])
}

/// No identifier is there twice.
pub open spec fn are_distinct(ids: Seq<Uuid>) -> bool {
    forall|i: int, j: int| 0 <= i < j < ids.len() ==> #[trigger] ids[i] != #[trigger] ids[j]
}

/// The dependency `d` of node `i` is another of the nodes.
pub open spec fn is_sound(
    ids: Seq<Uuid>,
    definitions: Seq<NodeDefinition>,
    i: int,
    d: int,
) -> bool {
    let dependency = definitions[i].dependencies@[d];
    dependency != ids[i] && ids.contains(dependency)
}

/// Every dependency is another of the nodes.
pub open spec fn are_sound(ids: Seq<Uuid>, definitions: Seq<NodeDefinition>) -> bool {
    forall|i: int, d: int|
        0 <= i < ids.len() && 0 <= d < definitions[i].dependencies@.len() ==> #[trigger] is_sound(
            ids,
            definitions,
            i,
            d,
        )
}

/// The nodes make a task: no identifier twice, every dependency another of the nodes, and no way
/// round in a circle.
pub open spec fn make_a_task(ids: Seq<Uuid>, definitions: Seq<NodeDefinition>) -> bool {
    &&& are_distinct(ids)
    &&& are_sound(ids, definitions)
    &&& forall|path: Seq<Uuid>| !#[trigger] is_loop(path, ids, definitions)
}

/// What nodes that make no task are refused with: the first identifier that is there again; failing
/// that, the first dependency that is not another of the nodes; failing that, a node from which
/// dependencies lead in a circle.
pub open spec fn says_what_is_wrong(
    words: Seq<char>,
    ids: Seq<Uuid>,
    definitions: Seq<NodeDefinition>,
) -> bool {
    ||| exists|i: int|
        {
            &&& 0 <= i < ids.len()
            &&& are_distinct(ids.take(i))
            &&& ids.take(i).contains(#[trigger] ids[i])
            &&& words == "duplicate node id: "@ + ids[i]@
        }
    ||| are_distinct(ids) && exists|i: int, d: int|
        {
            let dependency = definitions[i].dependencies@[d];
            &&& 0 <= i < ids.len()
            &&& 0 <= d < definitions[i].dependencies@.len()
            &&& !#[trigger] is_sound(ids, definitions, i, d)
            &&& forall|j: int, e: int|
                0 <= j < ids.len() && 0 <= e < definitions[j].dependencies@.len() && (j < i || j == i
                    && e < d) ==> #[trigger] is_sound(ids, definitions, j, e)
            &&& words == (if dependency == ids[i] {
                "node "@ + ids[i]@ + " cannot depend on itself"@
            } else {
                "node "@ + ids[i]@ + " depends on unknown node "@ + dependency@
            })
        }
    ||| are_distinct(ids) && are_sound(ids, definitions) && exists|path: Seq<Uuid>| #[trigger]
        is_loop(path, ids, definitions) && words == "cycle detected at node "@ + path.first()@
}

/// The identifiers of nodes.
spec fn ids_of(nodes: Seq<(Uuid, NodeDefinition)>) -> Seq<Uuid> {
    nodes.map_values(|node: (Uuid, NodeDefinition)| node.0)
}

proof fn lemma_known(nodes: Seq<(Uuid, NodeDefinition)>, id: Uuid)
    ensures
        known_id(nodes, id) <==> ids_of(nodes).contains(id),
{
    let ids = ids_of(nodes);
    if known_id(nodes, id) {
        let i = choose|i: int| 0 <= i < nodes.len() && (#[trigger] nodes[i]).0 == id;
        assert(ids[i] == id);
    }
    if ids.contains(id) {
        let i = choose|i: int| 0 <= i < ids.len() && ids[i] == id;
        assert(nodes[i].0 == id);
    }
}

proof fn lemma_distinct(nodes: Seq<(Uuid, NodeDefinition)>)
    ensures
        distinct_ids(nodes) <==> are_distinct(ids_of(nodes)),
{
    let ids = ids_of(nodes);
    if are_distinct(ids) {
        assert forall|i: int, j: int| 0 <= i < j < nodes.len() implies (#[trigger] nodes[i]).0 != (
        #[trigger] nodes[j]).0 by {
            assert(ids[i] != ids[j]);
        }
    }
}

proof fn lemma_sound(
    nodes: Seq<(Uuid, NodeDefinition)>,
    definitions: Seq<NodeDefinition>,
    i: int,
    d: int,
)
    requires
        materialised(definitions, nodes),
        0 <= i < nodes.len(),
    ensures
        is_sound(ids_of(nodes), definitions, i, d) <==> dependency_fault(nodes, i, d) is None,
{
    assert(nodes[i].1.dependencies == definitions[i].dependencies);
    lemma_known(nodes, definitions[i].dependencies@[d]);
}

proof fn lemma_all_sound(nodes: Seq<(Uuid, NodeDefinition)>, definitions: Seq<NodeDefinition>)
    requires
        materialised(definitions, nodes),
    ensures
        all_sound(nodes, nodes.len() as int) <==> are_sound(ids_of(nodes), definitions),
{
    let ids = ids_of(nodes);
    if all_sound(nodes, nodes.len() as int) {
        assert forall|i: int, d: int|
            0 <= i < ids.len() && 0 <= d
                < definitions[i].dependencies@.len() implies #[trigger] is_sound(
            ids,
            definitions,
            i,
            d,
        ) by {
            assert(nodes[i].1.dependencies == definitions[i].dependencies);
            assert(sound_upto(nodes, i, nodes[i].1.dependencies@.len() as int));
            lemma_sound(nodes, definitions, i, d);
        }
    }
    if are_sound(ids, definitions) {
        assert forall|i: int| 0 <= i < nodes.len() implies sound_upto(
            nodes,
            i,
            (#[trigger] nodes[i]).1.dependencies@.len() as int,
        ) by {
            assert(nodes[i].1.dependencies == definitions[i].dependencies);
            assert forall|d: int|
                0 <= d < nodes[i].1.dependencies@.len() implies #[trigger] dependency_fault(
                nodes,
                i,
                d,
            ) is None by {
                assert(is_sound(ids, definitions, i, d));
                lemma_sound(nodes, definitions, i, d);
            }
        }
    }
}

/// The graph of the nodes points from one to another exactly if the one depends on the other.
proof fn lemma_points(
    nodes: Seq<(Uuid, NodeDefinition)>,
    definitions: Seq<NodeDefinition>,
    a: Uuid,
    b: Uuid,
)
    requires
        materialised(definitions, nodes),
        distinct_ids(nodes),
    ensures
        targets(dependency_graph(nodes), a.bits).contains(b.bits) <==> depends_on(
            ids_of(nodes),
            definitions,
            a,
            b,
        ),
{
    let ids = ids_of(nodes);
    let graph = dependency_graph(nodes);
    if targets(graph, a.bits).contains(b.bits) {
        assert(graph.dom().contains(a.bits));
        let i = choose|i: int| 0 <= i < nodes.len() && (#[trigger] nodes[i]).0.bits == a.bits;
        lemma_targets(nodes, i);
        let dependencies = nodes[i].1.dependencies@;
        let k = choose|k: int| 0 <= k < bits(dependencies).len() && bits(dependencies)[k] == b.bits;
        assert(dependencies[k] == b);
        assert(ids[i] == a);
        assert(nodes[i].1.dependencies == definitions[i].dependencies);
    }
    if depends_on(ids, definitions, a, b) {
        let i = choose|i: int|
            0 <= i < ids.len() && #[trigger] ids[i] == a && definitions[i].dependencies@.contains(b);
        assert(nodes[i].0 == a);
        lemma_targets(nodes, i);
        let dependencies = nodes[i].1.dependencies@;
        assert(nodes[i].1.dependencies == definitions[i].dependencies);
        let k = choose|k: int| 0 <= k < dependencies.len() && dependencies[k] == b;
        assert(bits(dependencies)[k] == b.bits);
    }
}

proof fn lemma_loop_is_cycle(
    nodes: Seq<(Uuid, NodeDefinition)>,
    definitions: Seq<NodeDefinition>,
    path: Seq<Uuid>,
)
    requires
        materialised(definitions, nodes),
        distinct_ids(nodes),
        is_loop(path, ids_of(nodes), definitions),
    ensures
        is_cycle(bits(path), dependency_graph(nodes)),
{
    let keys = bits(path);
    let graph = dependency_graph(nodes);
    assert forall|k: int| 0 <= k < keys.len() - 1 implies targets(
        graph,
        #[trigger] keys[k],
    ).contains(keys[k + 1]) by {
        assert(depends_on(ids_of(nodes), definitions, path[k], path[k + 1]));
        lemma_points(nodes, definitions, path[k], path[k + 1]);
    }
    assert(is_path(keys, graph));
}

proof fn lemma_cycle_is_loop(
    nodes: Seq<(Uuid, NodeDefinition)>,
    definitions: Seq<NodeDefinition>,
    keys: Seq<u128>,
) -> (path: Seq<Uuid>)
    requires
        materialised(definitions, nodes),
        distinct_ids(nodes),
        is_cycle(keys, dependency_graph(nodes)),
    ensures
        is_loop(path, ids_of(nodes), definitions),
        path.first().bits == keys.first(),
{
    let graph = dependency_graph(nodes);
    let path = keys.map_values(|key: u128| Uuid { bits: key });
    assert forall|k: int| 0 <= k < path.len() - 1 implies depends_on(
        ids_of(nodes),
        definitions,
        #[trigger] path[k],
        path[k + 1],
    ) by {
        assert(targets(graph, keys[k]).contains(keys[k + 1]));
        lemma_points(nodes, definitions, path[k], path[k + 1]);
    }
    path
}

/// Nodes that can be walked in order make a task.
proof fn lemma_dag_makes_a_task(
    nodes: Seq<(Uuid, NodeDefinition)>,
    definitions: Seq<NodeDefinition>,
)
    requires
        materialised(definitions, nodes),
        is_dag(nodes),
    ensures
        make_a_task(ids_of(nodes), definitions),
{
    let ids = ids_of(nodes);
    lemma_distinct(nodes);
    lemma_all_sound(nodes, definitions);
    assert forall|path: Seq<Uuid>| !#[trigger] is_loop(path, ids, definitions) by {
        if is_loop(path, ids, definitions) {
            lemma_loop_is_cycle(nodes, definitions, path);
            acyclic_graph_has_no_cycle(dependency_graph(nodes), bits(path));
        }
    }
}

/// What nodes are refused with says what is wrong with them.
proof fn lemma_refusal(
    nodes: Seq<(Uuid, NodeDefinition)>,
    definitions: Seq<NodeDefinition>,
    failure: DbFailure,
)
    requires
        materialised(definitions, nodes),
        refused_with(nodes, failure),
    ensures
        failure matches DbFailure::InvalidState(words) && says_what_is_wrong(
            words,
            ids_of(nodes),
            definitions,
        ),
        !make_a_task(ids_of(nodes), definitions),
{
    let ids = ids_of(nodes);
    lemma_distinct(nodes);
    lemma_all_sound(nodes, definitions);
    if exists|i: int|
        0 <= i < nodes.len() && repeats(nodes, i) && (forall|k: int|
            0 <= k < i ==> !#[trigger] repeats(nodes, k)) && failure == (DbFailure::InvalidState(
            "duplicate node id: "@ + (#[trigger] nodes[i]).0@,
        )) {
        let i = choose|i: int|
            0 <= i < nodes.len() && repeats(nodes, i) && (forall|k: int|
                0 <= k < i ==> !#[trigger] repeats(nodes, k)) && failure == (
            DbFailure::InvalidState("duplicate node id: "@ + (#[trigger] nodes[i]).0@));
        let j = choose|j: int| 0 <= j < i && (#[trigger] nodes[j]).0 == nodes[i].0;
        let earlier = ids.take(i);
        assert(earlier[j] == ids[i]);
        assert(earlier.contains(ids[i]));
        assert forall|a: int, b: int| 0 <= a < b < earlier.len() implies #[trigger] earlier[a]
            != #[trigger] earlier[b] by {
            if earlier[a] == earlier[b] {
                assert(nodes[a].0 == nodes[b].0);
                assert(repeats(nodes, b));
            }
        }
        assert(ids[j] == ids[i]);
        assert(failure == DbFailure::InvalidState("duplicate node id: "@ + ids[i]@));
    } else if distinct_ids(nodes) && all_sound(nodes, nodes.len() as int) && names_cycle(
        failure,
        nodes,
    ) {
        let id = choose|id: Uuid|
            is_on_cycle(id.bits, dependency_graph(nodes)) && failure == (DbFailure::InvalidState(
                "cycle detected at node "@ + #[trigger] id@,
            ));
        let keys = choose|keys: Seq<u128>| #[trigger]
            is_cycle(keys, dependency_graph(nodes)) && keys.first() == id.bits;
        let path = lemma_cycle_is_loop(nodes, definitions, keys);
        assert(path.first() == id);
    } else {
        let (i, d) = choose|i: int, d: int|
            {
                &&& 0 <= i < nodes.len()
                &&& 0 <= d < nodes[i].1.dependencies@.len()
                &&& all_sound(nodes, i)
                &&& sound_upto(nodes, i, d)
                &&& (#[trigger] dependency_fault(nodes, i, d)) matches Some(text)
                &&& failure == DbFailure::InvalidState(text)
            };
        assert(nodes[i].1.dependencies == definitions[i].dependencies);
        lemma_sound(nodes, definitions, i, d);
        assert forall|j: int, e: int|
            0 <= j < ids.len() && 0 <= e < definitions[j].dependencies@.len() && (j < i || j == i
                && e < d) implies #[trigger] is_sound(ids, definitions, j, e) by {
            assert(nodes[j].1.dependencies == definitions[j].dependencies);
            if j < i {
                assert(sound_upto(nodes, j, nodes[j].1.dependencies@.len() as int));
            }
            lemma_sound(nodes, definitions, j, e);
        }
        assert(!is_sound(ids, definitions, i, d));
    }
}

/// The rows of a task are new to the store and the tables take them.
pub open spec fn can_be_stored(
    state: DbState,
    task_id: Uuid,
    context: Json,
    ids: Seq<Uuid>,
    definitions: Seq<NodeDefinition>,
) -> bool {
    &&& context.nests_within(1000)
    &&& forall|t: int| 0 <= t < state.tasks.len() ==> (#[trigger] state.tasks[t]).id != task_id@
    &&& forall|i: int|
        0 <= i < definitions.len() ==> json_content(
            (#[trigger] definitions[i]).payload_schema,
        ).nests_within(1000)
    &&& forall|i: int, k: int|
        0 <= i < ids.len() && 0 <= k < state.nodes.len() ==> (#[trigger] state.nodes[k]).id != (
        #[trigger] ids[i])@
}

/// The row of a node as it is registered: waiting, without lease and result.
pub open spec fn waiting_row(
    task_id: Uuid,
    id: Uuid,
    definition: NodeDefinition,
    now: i64,
) -> NodeRecord {
    NodeRecord {
        id: id@,
        task_id: task_id@,
        status: "PENDING"@,
        dependencies: ids_text(definition.dependencies@),
        payload_schema: json_text(json_content(definition.payload_schema)),
        result_payload: None,
        acquired_at: None,
        lease_id: None,
        lease_owner: None,
        lease_expires_at: None,
        updated_at: now,
    }
}

/// What registering a task under `fresh` does, its nodes stored under `ids`.
pub open spec fn takes_task(
    before: CoordinatorState,
    goal: Seq<char>,
    context: Json,
    definitions: Seq<NodeDefinition>,
    ids: Seq<Uuid>,
    fresh: Uuid,
    occasion: Occasion,
    after: CoordinatorState,
    outcome: Result<Json, CoordinatorFailure>,
) -> bool {
    let n = before.db.nodes.len() as int;
    &&& names_nodes(ids, definitions)
    &&& outcome is Ok <==> make_a_task(ids, definitions) && can_be_stored(
        before.db,
        fresh,
        context,
        ids,
        definitions,
    )
    &&& outcome is Err ==> after == before
    &&& !make_a_task(ids, definitions) ==> (outcome matches Err(CoordinatorFailure::Db(
        DbFailure::InvalidState(words),
    )) && says_what_is_wrong(words, ids, definitions))
    &&& outcome matches Ok(content) ==> {
        &&& content == Json::Object(map!["task_id"@ => Json::Text(fresh@)])
        &&& after.db.tasks == before.db.tasks.push(
            TaskRecord {
                id: fresh@,
                goal,
                context: json_text(context),
                created_at: occasion.now.timestamp@,
            },
        )
        &&& after.db.nodes.len() == n + definitions.len()
        &&& forall|i: int| 0 <= i < n ==> #[trigger] after.db.nodes[i] == before.db.nodes[i]
        &&& forall|i: int|
            n <= i < n + definitions.len() ==> #[trigger] after.db.nodes[i] == waiting_row(
                fresh,
                ids[i - n],
                definitions[i - n],
                occasion.now.secs,
            )
        &&& after == (CoordinatorState {
            db: DbState { tasks: after.db.tasks, nodes: after.db.nodes, ..before.db },
            metrics: RuntimeMetrics {
                registered_tasks: after.metrics.registered_tasks,
                ..before.metrics
            },
            ..before
        })
        &&& before.metrics.registered_tasks < u64::MAX ==> after.metrics.registered_tasks
            == before.metrics.registered_tasks + 1
    }
}

/// Registering a task adds one row for the task and one for each of its nodes, in the order of their
/// definitions, with everything that the client handed in, and all nodes wait. Nothing else is stored.
/// The client is told the new identifier.
///
/// That happens exactly if the nodes make a task and the rows are new to the store and not nested too
/// deep; else nothing changes, and the client is told what is wrong with the nodes.
pub proof fn task_is_stored_as_the_client_defined_it(
    before: CoordinatorState,
    goal: String,
    context: serde_json::Value,
    initial_nodes: Vec<NodeDefinition>,
    fresh: Uuid,
    occasion: Occasion,
    after: CoordinatorState,
    outcome: Result<Json, CoordinatorFailure>,
)
    requires
        answers(
            before,
            Request::RegisterTask { goal, context, initial_nodes },
            fresh,
            occasion,
            after,
            outcome,
        ),
    ensures
        exists|ids: Seq<Uuid>| #[trigger]
            takes_task(
                before,
                goal@,
                json_content(context),
                initial_nodes@,
                ids,
                fresh,
                occasion,
                after,
                outcome,
            ),
{
    let definitions = initial_nodes@;
    let content = json_content(context);
    let now = occasion.now.secs;
    let timestamp = occasion.now.timestamp@;
    let (nodes, res) = choose|
        nodes: Seq<(Uuid, NodeDefinition)>,
        res: Result<Uuid, CoordinatorFailure>,
    |
        {
            &&& materialised(definitions, nodes)
            &&& #[trigger] registers_task(
                before,
                fresh,
                goal@,
                content,
                nodes,
                now,
                timestamp,
                after,
                res,
            )
            &&& outcome == shown(
                res,
                |id: Uuid| field_json("task_id"@, Json::Text(id@)),
            )
        };
    let ids = ids_of(nodes);
    let n = before.db.nodes.len() as int;
    assert(names_nodes(ids, definitions)) by {
        assert forall|i: int| 0 <= i < ids.len() implies match definitions[i].id {
            Some(id) => #[trigger] ids[i] == id,
            None => (ids[i].bits >> 76) & 0xf == 4 && (ids[i].bits >> 62) & 0x3 == 2,
        } by {
            assert(nodes[i].0 == ids[i]);
        }
    }
    let stored = choose|stored: Result<Uuid, DbFailure>| #[trigger]
        registers(before.db, fresh, goal@, content, nodes, now, timestamp, after.db, stored)
            && res == lifted(stored) && after == (CoordinatorState {
            db: after.db,
            metrics: if stored is Ok {
                before.metrics.registered()
            } else {
                before.metrics
            },
            ..before
        });
    if is_dag(nodes) {
        lemma_dag_makes_a_task(nodes, definitions);
        lemma_no_fault(before.db, nodes, nodes.len() as int);
        lemma_storable(before.db, fresh, content, nodes, definitions);
        if outcome is Ok {
            assert forall|i: int|
                n <= i < n + definitions.len() implies #[trigger] after.db.nodes[i] == waiting_row(
                fresh,
                ids[i - n],
                definitions[i - n],
                now,
            ) by {
                assert(after.db.nodes[i] == registered_node(fresh, nodes[i - n], now));
                assert(nodes[i - n].1.dependencies == definitions[i - n].dependencies);
            }
        }
    } else {
        let failure = stored->Err_0;
        lemma_refusal(nodes, definitions, failure);
    }
    assert(takes_task(
        before,
        goal@,
        content,
        definitions,
        ids,
        fresh,
        occasion,
        after,
        outcome,
    ));
}

/// The store takes the rows of a task exactly if they can be stored.
proof fn lemma_storable(
    state: DbState,
    task_id: Uuid,
    context: Json,
    nodes: Seq<(Uuid, NodeDefinition)>,
    definitions: Seq<NodeDefinition>,
)
    requires
        materialised(definitions, nodes),
        is_dag(nodes),
    ensures
        can_be_stored(state, task_id, context, ids_of(nodes), definitions) <==> (
        context.nests_within(1000) && !state.has_task(task_id@) && forall|i: int|
            0 <= i < nodes.len() ==> #[trigger] node_fault(state, nodes, i) is None),
{
    let ids = ids_of(nodes);
    assert forall|i: int| 0 <= i < nodes.len() implies !repeats(nodes, i) by {
        if repeats(nodes, i) {
            let j = choose|j: int| 0 <= j < i && (#[trigger] nodes[j]).0 == nodes[i].0;
            assert(nodes[j].0 != nodes[i].0);
        }
    }
    if can_be_stored(state, task_id, context, ids, definitions) {
        assert forall|i: int| 0 <= i < nodes.len() implies #[trigger] node_fault(
            state,
            nodes,
            i,
        ) is None by {
            assert(nodes[i].1.payload_schema == definitions[i].payload_schema);
            assert(ids[i] == nodes[i].0);
            if state.has_node_id(nodes[i].0@) {
                let k = choose|k: int|
                    0 <= k < state.nodes.len() && (#[trigger] state.nodes[k]).id == nodes[i].0@;
                assert(state.nodes[k].id != ids[i]@);
            }
        }
    }
    if context.nests_within(1000) && !state.has_task(task_id@) && forall|i: int|
        0 <= i < nodes.len() ==> #[trigger] node_fault(state, nodes, i) is None {
        assert forall|i: int| 0 <= i < definitions.len() implies json_content(
            (#[trigger] definitions[i]).payload_schema,
        ).nests_within(1000) by {
            assert(node_fault(state, nodes, i) is None);
            assert(nodes[i].1.payload_schema == definitions[i].payload_schema);
        }
        assert forall|i: int, k: int|
            0 <= i < ids.len() && 0 <= k < state.nodes.len() implies (#[trigger] state.nodes[k]).id
            != (#[trigger] ids[i])@ by {
            assert(node_fault(state, nodes, i) is None);
            assert(ids[i] == nodes[i].0);
        }
    }
}

} // verus!
