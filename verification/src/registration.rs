//! Opening the store and registering tasks.

use crate::clock::Moment;
use crate::db::{duplicate_key, task_records, unmet_condition, Database};
use crate::error::{DbError, DbFailure};
use crate::graph::{is_dag, materialise_nodes, materialised, refused_with, repeats, NodeDefinition};
use crate::ids::{identifiers_differ_in_text, is_v4, Uuid};
use crate::json::{json_content, nests_no_deeper, write_ids, write_value, Json};
use crate::laws::keeps_task;
use crate::readable::{is_readable, lemma_register_readable, node_is_readable};
use crate::reports::node_records;
use crate::rows::{
    is_kept, lemma_kept, read_id, read_id_list, read_json, read_status, status_words_differ,
    DagNodeRow, GlobalTaskRow, NodeRecord, NodeStatus, TaskRecord,
};
use crate::state::{
    first_fault, id_taken, is_storable, lemma_first_fault, lemma_no_fault, lemma_references_kept,
    node_fault, register_step, registered_node, registered_nodes, told, DbState, MAX_JSON_DEPTH,
};
use crate::text::same;
use std::collections::HashSet;
use vstd::prelude::*;

verus! {

broadcast use vstd::std_specs::hash::group_hash_axioms;

/// The stored node reads as it was defined.
pub open spec fn reads_as(row: NodeRecord, task_id: Uuid, node: (Uuid, NodeDefinition)) -> bool {
    &&& read_id(row.id) == Ok::<Uuid, DbFailure>(node.0)
    &&& read_id(row.task_id) == Ok::<Uuid, DbFailure>(task_id)
    &&& read_id_list(row.dependencies) == Ok::<Seq<Uuid>, DbFailure>(node.1.dependencies@)
    &&& is_kept(json_content(node.1.payload_schema), read_json(row.payload_schema))
}

/// The rows from `start` on keep the schemas that were asked for.
pub open spec fn schemas_are_kept(
    definitions: Seq<NodeDefinition>,
    rows: Seq<NodeRecord>,
    start: int,
) -> bool {
    forall|i: int|
        0 <= i < definitions.len() ==> is_kept(
            json_content(definitions[i].payload_schema),
            read_json((#[trigger] rows[start + i]).payload_schema),
        )
}

/// What is asked for can be read once it is written.
pub open spec fn is_readable_task(context: Json, definitions: Seq<NodeDefinition>) -> bool {
    context.nests_within(127) && forall|i: int|
        0 <= i < definitions.len() ==> json_content(
            (#[trigger] definitions[i]).payload_schema,
        ).nests_within(127)
}

/// What the nodes were defined as.
pub open spec fn definitions_of(nodes: Seq<(Uuid, NodeDefinition)>) -> Seq<NodeDefinition> {
    nodes.map_values(|node: (Uuid, NodeDefinition)| node.1)
}

/// Registering what was asked for, under these identifiers: nodes that make no task are refused,
/// others are stored.
pub open spec fn registers(
    before: DbState,
    task_id: Uuid,
    goal: Seq<char>,
    context: Json,
    nodes: Seq<(Uuid, NodeDefinition)>,
    now: i64,
    timestamp: Seq<char>,
    after: DbState,
    outcome: Result<Uuid, DbFailure>,
) -> bool {
    if is_dag(nodes) {
        register_step(before, task_id, goal, context, nodes, now, timestamp) == (after, outcome)
    } else {
        after == before && (outcome matches Err(failure) && refused_with(nodes, failure))
    }
}

proof fn lemma_registered_wf(
    state: DbState,
    task_id: Uuid,
    task: TaskRecord,
    nodes: Seq<(Uuid, NodeDefinition)>,
    now: i64,
)
    requires
        state.wf(),
        task.id == task_id@,
        !state.has_task(task_id@),
        forall|i: int| 0 <= i < nodes.len() ==> #[trigger] node_fault(state, nodes, i) is None,
    ensures
        ({
            let after = DbState {
                tasks: state.tasks.push(task),
                nodes: state.nodes + registered_nodes(task_id, nodes, now),
                ..state
            };
            after.wf() && (state.is_linked() ==> after.is_linked())
        }),
{
    let added = registered_nodes(task_id, nodes, now);
    let after = DbState {
        tasks: state.tasks.push(task),
        nodes: state.nodes + added,
        ..state
    };
    let n = state.nodes.len() as int;
    lemma_references_kept(state, after);
    assert(after.has_task(task_id@)) by {
        assert(after.tasks[state.tasks.len() as int].id == task_id@);
    }
    assert forall|i: int, j: int| 0 <= i < j < after.nodes.len() implies (
    #[trigger] after.nodes[i]).id != (#[trigger] after.nodes[j]).id by {
        if j >= n {
            assert(after.nodes[j] == registered_node(task_id, nodes[j - n], now));
            assert(node_fault(state, nodes, j - n) is None);
            assert(!id_taken(state, nodes, j - n));
            if i >= n {
                assert(after.nodes[i] == registered_node(task_id, nodes[i - n], now));
                if nodes[i - n].0@ == nodes[j - n].0@ {
                    identifiers_differ_in_text(nodes[i - n].0, nodes[j - n].0);
                    assert(repeats(nodes, j - n));
                }
            } else {
                assert(after.nodes[i] == state.nodes[i]);
            }
        }
    }
    if state.is_linked() {
        assert forall|i: int| 0 <= i < after.nodes.len() implies after.has_task(
            (#[trigger] after.nodes[i]).task_id,
        ) && read_status(after.nodes[i].status) is Ok by {
            if i >= n {
                status_words_differ();
                assert(after.nodes[i] == registered_node(task_id, nodes[i - n], now));
            } else {
                assert(after.nodes[i] == state.nodes[i]);
            }
        }
        assert forall|i: int| 0 <= i < after.events.len() implies after.has_task(
            (#[trigger] after.events[i]).task_id,
        ) && after.has_node_id(after.events[i].node_id) by {
            assert(state.has_task(state.events[i].task_id));
        }
        assert forall|i: int| 0 <= i < after.locks.len() implies ((
        #[trigger] after.locks[i]).task_id matches Some(t) ==> after.has_task(t)) by {
            assert(state.locks[i] == after.locks[i]);
        }
    }
}

impl Database {
    fn has_node_row(&self, node: &str) -> (found: bool)
        ensures
            found == self@.has_node_id(node@),
    {
        let mut i: usize = 0;
        while i < self.nodes.len()
            invariant
                i <= self.nodes.len(),
                forall|j: int| 0 <= j < i ==> (#[trigger] self@.nodes[j]).id != node@,
            decreases self.nodes.len() - i,
        {
            assert(self@.nodes[i as int] == self.nodes@[i as int]@);
            if same(self.nodes[i].id.as_str(), node) {
                return true;
            }
            i = i + 1;
        }
        false
    }

    /// Registers a task under a fresh identifier, with the nodes that were asked for.
    pub fn register_task(
        &mut self,
        goal: String,
        context: serde_json::Value,
        initial_nodes: Vec<NodeDefinition>,
        now: &Moment,
    ) -> (res: Result<Uuid, DbError>)
        requires
            old(self)@.wf(),
        ensures
            final(self)@.wf(),
            exists|task_id: Uuid, nodes: Seq<(Uuid, NodeDefinition)>|
                is_v4(task_id) && materialised(initial_nodes@, nodes) && #[trigger] registers(
                    old(self)@,
                    task_id,
                    goal@,
                    json_content(context),
                    nodes,
                    now.secs,
                    now.timestamp@,
                    final(self)@,
                    told(res),
                ) && (res is Ok ==> is_dag(nodes) && (old(self)@.is_linked() ==> keeps_task(
                    final(self)@,
                    old(self)@.nodes.len() as int,
                    task_id,
                    nodes,
                ))),
            res is Ok ==> is_kept(
                json_content(context),
                read_json(final(self)@.tasks.last().context),
            ),
            old(self)@.is_linked() ==> final(self)@.is_linked(),
            res is Ok ==> schemas_are_kept(
                initial_nodes@,
                final(self)@.nodes,
                old(self)@.nodes.len() as int,
            ),
            is_readable(old(self)@) && is_readable_task(json_content(context), initial_nodes@)
                ==> is_readable(final(self)@),
    {
        let task_id = Uuid::new_v4();
        self.register_named_task(task_id, goal, context, initial_nodes, now)
    }

    /// Registers a task under the identifier `task_id`, with the nodes that were asked for.
    pub fn register_named_task(
        &mut self,
        task_id: Uuid,
        goal: String,
        context: serde_json::Value,
        initial_nodes: Vec<NodeDefinition>,
        now: &Moment,
    ) -> (res: Result<Uuid, DbError>)
        requires
            old(self)@.wf(),
        ensures
            final(self)@.wf(),
            exists|nodes: Seq<(Uuid, NodeDefinition)>|
                #[trigger] materialised(initial_nodes@, nodes) && registers(
                    old(self)@,
                    task_id,
                    goal@,
                    json_content(context),
                    nodes,
                    now.secs,
                    now.timestamp@,
                    final(self)@,
                    told(res),
                ) && (res is Ok ==> is_dag(nodes) && (old(self)@.is_linked() ==> keeps_task(
                    final(self)@,
                    old(self)@.nodes.len() as int,
                    task_id,
                    nodes,
                ))),
            res is Ok ==> is_kept(
                json_content(context),
                read_json(final(self)@.tasks.last().context),
            ),
            old(self)@.is_linked() ==> final(self)@.is_linked(),
            res is Ok ==> schemas_are_kept(
                initial_nodes@,
                final(self)@.nodes,
                old(self)@.nodes.len() as int,
            ),
            is_readable(old(self)@) && is_readable_task(json_content(context), initial_nodes@)
                ==> is_readable(final(self)@),
    {
        let ghost before = self@;
        let ghost goal_text = goal@;
        let ghost content = json_content(context);
        match materialise_nodes(initial_nodes) {
            Err(err) => {
                proof {
                    let nodes = choose|nodes: Seq<(Uuid, NodeDefinition)>|
                        #[trigger] materialised(initial_nodes@, nodes) && !is_dag(nodes)
                            && refused_with(nodes, err@);
                    assert(registers(
                        before,
                        task_id,
                        goal_text,
                        content,
                        nodes,
                        now.secs,
                        now.timestamp@,
                        self@,
                        Err::<Uuid, DbFailure>(err@),
                    ));
                }
                Err(err)
            },
            Ok(nodes) => {
                let res = self.register_task_as(task_id, goal, context, &nodes, now);
                assert(registers(
                    before,
                    task_id,
                    goal_text,
                    content,
                    nodes@,
                    now.secs,
                    now.timestamp@,
                    self@,
                    told(res),
                ));
                proof {
                    if is_readable_task(content, initial_nodes@) {
                        assert forall|i: int| 0 <= i < nodes@.len() implies json_content(
                            (#[trigger] definitions_of(nodes@)[i]).payload_schema,
                        ).nests_within(127) by {
                            assert(nodes@[i].1.payload_schema == initial_nodes@[i].payload_schema);
                        }
                    }
                    if res is Ok {
                        assert forall|i: int| 0 <= i < initial_nodes@.len() implies is_kept(
                            json_content(initial_nodes@[i].payload_schema),
                            read_json(
                                (#[trigger] self@.nodes[before.nodes.len() + i]).payload_schema,
                            ),
                        ) by {
                            assert(reads_as(
                                self@.nodes[before.nodes.len() + i],
                                task_id,
                                nodes@[i],
                            ));
                        }
                    }
                }
                res
            },
        }
    }

    /// Stores a task and its nodes under the identifiers given.
    pub fn register_task_as(
        &mut self,
        task_id: Uuid,
        goal: String,
        context: serde_json::Value,
        nodes: &Vec<(Uuid, NodeDefinition)>,
        now: &Moment,
    ) -> (res: Result<Uuid, DbError>)
        requires
            old(self)@.wf(),
        ensures
            final(self)@.wf(),
            register_step(
                old(self)@,
                task_id,
                goal@,
                json_content(context),
                nodes@,
                now.secs,
                now.timestamp@,
            ) == (final(self)@, told(res)),
            res is Ok ==> forall|i: int|
                0 <= i < nodes@.len() ==> reads_as(
                    (#[trigger] final(self)@.nodes[old(self)@.nodes.len() + i]),
                    task_id,
                    nodes@[i],
                ),
            res is Ok && old(self)@.is_linked() ==> keeps_task(
                final(self)@,
                old(self)@.nodes.len() as int,
                task_id,
                nodes@,
            ),
            res is Ok ==> read_id(final(self)@.tasks.last().id) == Ok::<Uuid, DbFailure>(task_id),
            res is Ok ==> is_kept(
                json_content(context),
                read_json(final(self)@.tasks.last().context),
            ),
            old(self)@.is_linked() ==> final(self)@.is_linked(),
            is_readable(old(self)@) && is_readable_task(json_content(context), definitions_of(nodes@))
                ==> is_readable(final(self)@),
    {
        let ghost before = self@;
        let context_json = match write_value(&context) {
            Ok(text) => text,
            Err(err) => {
                return Err(DbError::Json(err));
            },
        };
        proof {
            lemma_kept(json_content(context), context_json@);
        }
        if !nests_no_deeper(context_json.as_str(), MAX_JSON_DEPTH) {
            return Err(unmet_condition("json_valid(context)"));
        }
        let task = task_id.to_string();
        if self.find_task(task.as_str()).is_some() {
            return Err(duplicate_key("global_tasks.id"));
        }
        let mut rows: Vec<DagNodeRow> = Vec::new();
        let mut seen: HashSet<u128> = HashSet::new();
        let mut i: usize = 0;
        assert(node_records(rows@) =~= registered_nodes(task_id, nodes@.take(0), now.secs));
        while i < nodes.len()
            invariant
                before == self@,
                self@ == old(self)@,
                self@.wf(),
                task@ == task_id@,
                i <= nodes.len(),
                forall|k: int| 0 <= k < i ==> seen@.contains((#[trigger] nodes@[k]).0.bits),
                forall|key: u128| #[trigger]
                    seen@.contains(key) ==> exists|k: int|
                        0 <= k < i && (#[trigger] nodes@[k]).0.bits == key,
                first_fault(before, nodes@, i as int) is None,
                is_storable(json_content(context)),
                node_records(rows@) =~= registered_nodes(task_id, nodes@.take(i as int), now.secs),
                forall|k: int| 0 <= k < i ==> reads_as((#[trigger] rows@[k])@, task_id, nodes@[k]),
                !self@.has_task(task_id@),
            decreases nodes.len() - i,
        {
            let dependencies_json = match write_ids(&nodes[i].1.dependencies) {
                Ok(text) => text,
                Err(err) => {
                    return Err(DbError::Json(err));
                },
            };
            let payload_schema_json = match write_value(&nodes[i].1.payload_schema) {
                Ok(text) => text,
                Err(err) => {
                    return Err(DbError::Json(err));
                },
            };
            proof {
                lemma_kept(
                    json_content(nodes@[i as int].1.payload_schema),
                    payload_schema_json@,
                );
                lemma_first_fault(before, nodes@, i + 1, nodes@.len() as int);
            }
            if !nests_no_deeper(payload_schema_json.as_str(), MAX_JSON_DEPTH) {
                return Err(unmet_condition("json_valid(payload_schema)"));
            }
            let node_id = nodes[i].0;
            let id = node_id.to_string();
            let ghost seen_before = seen@;
            let fresh = seen.insert(node_id.bits);
            if !fresh || self.has_node_row(id.as_str()) {
                proof {
                    if !fresh {
                        let k = choose|k: int| 0 <= k < i && (#[trigger] nodes@[k]).0.bits == node_id.bits;
                        assert(nodes@[k].0 == nodes@[i as int].0);
                        assert(repeats(nodes@, i as int));
                    }
                    assert(id_taken(before, nodes@, i as int));
                }
                return Err(duplicate_key("dag_nodes.id"));
            }
            proof {
                if repeats(nodes@, i as int) {
                    let k = choose|k: int| 0 <= k < i && (#[trigger] nodes@[k]).0 == node_id;
                    assert(seen_before.contains(nodes@[k].0.bits));
                }
                assert(!id_taken(before, nodes@, i as int));
            }
            let row = DagNodeRow {
                id,
                task_id: task_id.to_string(),
                status: NodeStatus::Pending.as_str().to_owned(),
                dependencies: dependencies_json,
                payload_schema: payload_schema_json,
                result_payload: None,
                acquired_at: None,
                lease_id: None,
                lease_owner: None,
                lease_expires_at: None,
                updated_at: now.secs,
            };
            proof {
                assert(row@ == registered_node(task_id, nodes@[i as int], now.secs));
                assert(reads_as(row@, task_id, nodes@[i as int]));
                assert(nodes@.take(i + 1) =~= nodes@.take(i as int).push(nodes@[i as int]));
                assert(node_records(rows@.push(row)) =~= node_records(rows@).push(row@));
            }
            rows.push(row);
            i = i + 1;
        }
        let task_row = GlobalTaskRow {
            id: task,
            goal,
            context: context_json,
            created_at: now.timestamp.clone(),
        };
        let ghost added = rows@;
        let ghost goal_text = task_row@.goal;
        proof {
            assert(nodes@.take(i as int) =~= nodes@);
            lemma_no_fault(before, nodes@, nodes@.len() as int);
            lemma_registered_wf(before, task_id, task_row@, nodes@, now.secs);
            assert(task_records(self.tasks@.push(task_row)) =~= self@.tasks.push(
                task_row@,
            ));
            assert(node_records(self.nodes@ + added) =~= self@.nodes + node_records(added));
        }
        self.tasks.push(task_row);
        self.nodes.append(&mut rows);
        proof {
            assert forall|k: int| 0 <= k < nodes@.len() implies reads_as(
                (#[trigger] self@.nodes[before.nodes.len() + k]),
                task_id,
                nodes@[k],
            ) by {
                assert(self@.nodes[before.nodes.len() + k] == added[k]@);
            }
            assert(self@.tasks[before.tasks.len() as int].id == task_id@);
            if is_readable(before) && is_readable_task(json_content(context), definitions_of(nodes@)) {
                status_words_differ();
                assert forall|k: int| 0 <= k < nodes@.len() implies node_is_readable(
                    registered_node(task_id, #[trigger] nodes@[k], now.secs),
                ) by {
                    assert(json_content(
                        definitions_of(nodes@)[k].payload_schema,
                    ).nests_within(127));
                    let row = self@.nodes[before.nodes.len() + k];
                    assert(reads_as(row, task_id, nodes@[k]));
                    assert(row == registered_node(task_id, nodes@[k], now.secs));
                }
                lemma_register_readable(
                    before,
                    task_id,
                    goal_text,
                    json_content(context),
                    nodes@,
                    now.secs,
                    now.timestamp@,
                );
            }
            assert forall|k: int| 0 <= k < nodes@.len() implies {
                let row = #[trigger] self@.nodes[before.nodes.len() + k];
                &&& row.id == nodes@[k].0@
                &&& row.task_id == task_id@
                &&& read_id(row.id) == Ok::<Uuid, DbFailure>(nodes@[k].0)
                &&& read_id_list(row.dependencies) == Ok::<Seq<Uuid>, DbFailure>(
                    nodes@[k].1.dependencies@,
                )
            } by {
                let row = self@.nodes[before.nodes.len() + k];
                assert(reads_as(row, task_id, nodes@[k]));
                assert(row == registered_node(task_id, nodes@[k], now.secs));
            }
            assert forall|j: int|
                before.is_linked() && 0 <= j < self@.nodes.len() && (
                #[trigger] self@.nodes[j]).task_id == task_id@ implies before.nodes.len() <= j
                < before.nodes.len() + nodes@.len() by {
                if j < before.nodes.len() {
                    assert(self@.nodes[j] == before.nodes[j]);
                    assert(before.has_task(before.nodes[j].task_id));
                }
            }
        }
        Ok(task_id)
    }
}

} // verus!
