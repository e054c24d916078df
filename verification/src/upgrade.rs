//! What is done to an existing database, told by what it holds.

use crate::schema::{
    adopted_versions, column_steps, index_steps, migration_steps, plan_failure, plan_steps,
    step_statements, CatalogFacts, CoreIndex, LeaseColumn, Migration, SchemaStep,
    CREATE_DAG_NODES, CREATE_EVENT_JOURNAL, CREATE_GLOBAL_TASKS, CREATE_MIGRATIONS_TABLE,
    CREATE_RESOURCE_LOCKS,
};
use vstd::prelude::*;

verus! {

/// When a step comes: the record first, then columns, then indexes, then the migrations.
pub open spec fn turn(step: SchemaStep) -> int {
    match step {
        SchemaStep::CreateMigrationsTable => 0,
        SchemaStep::AddColumn(LeaseColumn::LeaseId) => 1,
        SchemaStep::AddColumn(LeaseColumn::LeaseOwner) => 2,
        SchemaStep::AddColumn(LeaseColumn::LeaseExpiresAt) => 3,
        SchemaStep::CreateIndex(CoreIndex::TaskStatus) => 4,
        SchemaStep::CreateIndex(CoreIndex::RunningTimeout) => 5,
        SchemaStep::CreateIndex(CoreIndex::LeaseTimeout) => 6,
        SchemaStep::CreateIndex(CoreIndex::TaskNode) => 7,
        SchemaStep::AdoptBaseline => 8,
        SchemaStep::Migrate(Migration::InitialStateEngine) => 9,
        SchemaStep::Migrate(Migration::ResourceLocks) => 10,
    }
}

/// The steps come in their turns, and none is taken twice.
pub open spec fn in_turn(steps: Seq<SchemaStep>) -> bool {
    forall|i: int, j: int|
        0 <= i < j < steps.len() ==> turn(#[trigger] steps[i]) < turn(#[trigger] steps[j])
}

/// The database has some of the tables for tasks, nodes and journal entries, but no record of
/// migrations.
pub open spec fn has_no_record(facts: CatalogFacts) -> bool {
    &&& !facts.tables.contains("agentd_schema_migrations"@)
    &&& facts.tables.contains("global_tasks"@) || facts.tables.contains("dag_nodes"@)
        || facts.tables.contains("event_journal"@)
}

/// The database has all of the tables for tasks, nodes and journal entries.
pub open spec fn has_all_tables(facts: CatalogFacts) -> bool {
    facts.tables.contains("global_tasks"@) && facts.tables.contains("dag_nodes"@)
        && facts.tables.contains("event_journal"@)
}

/// The step is called for by what the database holds.
pub open spec fn is_called_for(facts: CatalogFacts, step: SchemaStep) -> bool {
    let adopt = has_no_record(facts) && has_all_tables(facts);
    let refuse = has_no_record(facts) && !has_all_tables(facts);
    match step {
        SchemaStep::CreateMigrationsTable => true,
        SchemaStep::AddColumn(LeaseColumn::LeaseId) => adopt && !facts.node_columns.contains(
            "lease_id"@,
        ),
        SchemaStep::AddColumn(LeaseColumn::LeaseOwner) => adopt && !facts.node_columns.contains(
            "lease_owner"@,
        ),
        SchemaStep::AddColumn(LeaseColumn::LeaseExpiresAt) => adopt && !facts.node_columns.contains(
            "lease_expires_at"@,
        ),
        SchemaStep::CreateIndex(CoreIndex::TaskStatus) => adopt && !facts.indexes.contains(
            "idx_dag_nodes_task_status"@,
        ),
        SchemaStep::CreateIndex(CoreIndex::RunningTimeout) => adopt && !facts.indexes.contains(
            "idx_dag_nodes_running_timeout"@,
        ),
        SchemaStep::CreateIndex(CoreIndex::LeaseTimeout) => adopt && !facts.indexes.contains(
            "idx_dag_nodes_lease_timeout"@,
        ),
        SchemaStep::CreateIndex(CoreIndex::TaskNode) => adopt && !facts.indexes.contains(
            "idx_event_journal_task_node"@,
        ),
        SchemaStep::AdoptBaseline => adopt,
        SchemaStep::Migrate(Migration::InitialStateEngine) => !adopt && !refuse
            && !facts.versions.contains(1),
        SchemaStep::Migrate(Migration::ResourceLocks) => !refuse && !facts.versions.contains(2),
    }
}

/// The step that has the turn.
spec fn step_at(turn: int) -> SchemaStep {
    if turn == 0 {
        SchemaStep::CreateMigrationsTable
    } else if turn == 1 {
        SchemaStep::AddColumn(LeaseColumn::LeaseId)
    } else if turn == 2 {
        SchemaStep::AddColumn(LeaseColumn::LeaseOwner)
    } else if turn == 3 {
        SchemaStep::AddColumn(LeaseColumn::LeaseExpiresAt)
    } else if turn == 4 {
        SchemaStep::CreateIndex(CoreIndex::TaskStatus)
    } else if turn == 5 {
        SchemaStep::CreateIndex(CoreIndex::RunningTimeout)
    } else if turn == 6 {
        SchemaStep::CreateIndex(CoreIndex::LeaseTimeout)
    } else if turn == 7 {
        SchemaStep::CreateIndex(CoreIndex::TaskNode)
    } else if turn == 8 {
        SchemaStep::AdoptBaseline
    } else if turn == 9 {
        SchemaStep::Migrate(Migration::InitialStateEngine)
    } else {
        SchemaStep::Migrate(Migration::ResourceLocks)
    }
}

/// The steps called for that have their turn before `upto`.
#[verifier::opaque]
spec fn called_upto(facts: CatalogFacts, upto: nat) -> Seq<SchemaStep>
    decreases upto,
{
    if upto == 0 {
        Seq::empty()
    } else if is_called_for(facts, step_at(upto - 1)) {
        called_upto(facts, (upto - 1) as nat).push(step_at(upto - 1))
    } else {
        called_upto(facts, (upto - 1) as nat)
    }
}

proof fn lemma_called(facts: CatalogFacts, upto: nat)
    requires
        upto <= 11,
    ensures
        in_turn(called_upto(facts, upto)),
        forall|i: int|
            0 <= i < called_upto(facts, upto).len() ==> turn(
                #[trigger] called_upto(facts, upto)[i],
            ) < upto,
        forall|step: SchemaStep| #[trigger]
            called_upto(facts, upto).contains(step) <==> turn(step) < upto && is_called_for(
                facts,
                step,
            ),
    decreases upto,
{
    reveal(called_upto);
    if upto > 0 {
        let step = step_at(upto - 1);
        let fewer = called_upto(facts, (upto - 1) as nat);
        let steps = called_upto(facts, upto);
        lemma_called(facts, (upto - 1) as nat);
        assert(forall|other: SchemaStep| turn(other) == upto - 1 ==> other == step);
        assert forall|other: SchemaStep| #[trigger] steps.contains(other) <==> turn(other) < upto
            && is_called_for(facts, other) by {
            if fewer.contains(other) {
                let i = choose|i: int| 0 <= i < fewer.len() && fewer[i] == other;
                assert(steps[i] == other);
            }
            if steps.contains(other) && other != step {
                let i = choose|i: int| 0 <= i < steps.len() && steps[i] == other;
                assert(fewer[i] == other);
                assert(fewer.contains(other));
            }
            if other == step && is_called_for(facts, step) {
                assert(steps[fewer.len() as int] == step);
            }
        }
    }
}

/// What comes next, if it is called for, is joined to what came before.
proof fn lemma_turn(facts: CatalogFacts, turn: nat, extra: Seq<SchemaStep>)
    requires
        extra == if is_called_for(facts, step_at(turn as int)) {
            seq![step_at(turn as int)]
        } else {
            Seq::empty()
        },
    ensures
        called_upto(facts, turn + 1) == called_upto(facts, turn) + extra,
{
    reveal(called_upto);
    assert(called_upto(facts, turn + 1) =~= called_upto(facts, turn) + extra);
}

proof fn lemma_plan(facts: CatalogFacts)
    requires
        adopted_versions(facts).contains(1),
        adopted_versions(facts).contains(2) == facts.versions.contains(2),
    ensures
        plan_steps(facts) == called_upto(facts, 11),
{
    let none = Seq::<SchemaStep>::empty();
    let start = seq![SchemaStep::CreateMigrationsTable];
    lemma_turn(facts, 0, start);
    assert(called_upto(facts, 1) =~= start) by {
        reveal(called_upto);
    }
    if has_no_record(facts) && has_all_tables(facts) {
        let p1 = column_steps(facts, LeaseColumn::LeaseId);
        lemma_turn(facts, 1, p1);
        let a1 = p1;
        let p2 = column_steps(facts, LeaseColumn::LeaseOwner);
        lemma_turn(facts, 2, p2);
        let a2 = a1 + p2;
        assert(start + a2 =~= (start + a1) + p2);
        let p3 = column_steps(facts, LeaseColumn::LeaseExpiresAt);
        lemma_turn(facts, 3, p3);
        let a3 = a2 + p3;
        assert(start + a3 =~= (start + a2) + p3);
        let p4 = index_steps(facts, CoreIndex::TaskStatus);
        lemma_turn(facts, 4, p4);
        let a4 = a3 + p4;
        assert(start + a4 =~= (start + a3) + p4);
        let p5 = index_steps(facts, CoreIndex::RunningTimeout);
        lemma_turn(facts, 5, p5);
        let a5 = a4 + p5;
        assert(start + a5 =~= (start + a4) + p5);
        let p6 = index_steps(facts, CoreIndex::LeaseTimeout);
        lemma_turn(facts, 6, p6);
        let a6 = a5 + p6;
        assert(start + a6 =~= (start + a5) + p6);
        let p7 = index_steps(facts, CoreIndex::TaskNode);
        lemma_turn(facts, 7, p7);
        let a7 = a6 + p7;
        assert(start + a7 =~= (start + a6) + p7);
        let p8 = seq![SchemaStep::AdoptBaseline];
        lemma_turn(facts, 8, p8);
        let a8 = a7 + p8;
        assert(start + a8 =~= (start + a7) + p8);
        let locks = migration_steps(adopted_versions(facts), Migration::ResourceLocks);
        lemma_turn(facts, 9, none);
        lemma_turn(facts, 10, locks);
        assert(plan_steps(facts) == start + a8 + none + locks);
    } else {
        lemma_turn(facts, 1, none);
        lemma_turn(facts, 2, none);
        lemma_turn(facts, 3, none);
        lemma_turn(facts, 4, none);
        lemma_turn(facts, 5, none);
        lemma_turn(facts, 6, none);
        lemma_turn(facts, 7, none);
        lemma_turn(facts, 8, none);
        assert(called_upto(facts, 9) =~= start);
        if has_no_record(facts) {
            lemma_turn(facts, 9, none);
            lemma_turn(facts, 10, none);
            assert(called_upto(facts, 11) =~= start);
        } else {
            lemma_turn(facts, 9, migration_steps(facts.versions, Migration::InitialStateEngine));
            lemma_turn(facts, 10, migration_steps(facts.versions, Migration::ResourceLocks));
        }
    }
}

/// A database is brought up to date by the steps that it calls for and by no other, each once and in
/// its turn. One that has tables but no record of migrations is taken over: it gets the columns and
/// indexes that it lacks, and its record begins with the first migration. If it lacks a table
/// altogether it is refused, and the first table missing is named.
pub proof fn database_gets_what_it_lacks(facts: CatalogFacts)
    ensures
        in_turn(plan_steps(facts)),
        forall|step: SchemaStep| #[trigger]
            plan_steps(facts).contains(step) <==> is_called_for(facts, step),
        plan_failure(facts) == if !has_no_record(facts) || has_all_tables(facts) {
            None
        } else if !facts.tables.contains("global_tasks"@) {
            Some("cannot adopt legacy database: missing table "@ + "global_tasks"@)
        } else if !facts.tables.contains("dag_nodes"@) {
            Some("cannot adopt legacy database: missing table "@ + "dag_nodes"@)
        } else {
            Some("cannot adopt legacy database: missing table "@ + "event_journal"@)
        },
{
    let adopted = adopted_versions(facts);
    assert(adopted.contains(1)) by {
        if !facts.versions.contains(1) {
            assert(adopted[facts.versions.len() as int] == 1);
        }
    }
    assert(adopted.contains(2) == facts.versions.contains(2)) by {
        if facts.versions.contains(2) {
            let i = choose|i: int| 0 <= i < facts.versions.len() && facts.versions[i] == 2;
            assert(adopted[i] == 2);
        }
    }
    lemma_called(facts, 11);
    lemma_plan(facts);
}

/// What each step runs, word for word: a column gets its name and its type, an index its name and
/// what it is over, and a migration makes its tables and indexes and then records itself.
pub proof fn each_step_runs_its_statements()
    ensures
        step_statements(SchemaStep::CreateMigrationsTable) == seq![CREATE_MIGRATIONS_TABLE@],
        step_statements(SchemaStep::AddColumn(LeaseColumn::LeaseId)) == seq![
            "ALTER TABLE dag_nodes ADD COLUMN "@ + "lease_id"@ + " TEXT"@,
        ],
        step_statements(SchemaStep::AddColumn(LeaseColumn::LeaseOwner)) == seq![
            "ALTER TABLE dag_nodes ADD COLUMN "@ + "lease_owner"@ + " TEXT"@,
        ],
        step_statements(SchemaStep::AddColumn(LeaseColumn::LeaseExpiresAt)) == seq![
            "ALTER TABLE dag_nodes ADD COLUMN "@ + "lease_expires_at"@ + " INTEGER"@,
        ],
        step_statements(SchemaStep::CreateIndex(CoreIndex::TaskStatus)) == seq![
            "CREATE INDEX IF NOT EXISTS "@ + "idx_dag_nodes_task_status"@ + " ON "@
                + "dag_nodes(task_id, status)"@,
        ],
        step_statements(SchemaStep::CreateIndex(CoreIndex::RunningTimeout)) == seq![
            "CREATE INDEX IF NOT EXISTS "@ + "idx_dag_nodes_running_timeout"@ + " ON "@
                + "dag_nodes(status, acquired_at)"@,
        ],
        step_statements(SchemaStep::CreateIndex(CoreIndex::LeaseTimeout)) == seq![
            "CREATE INDEX IF NOT EXISTS "@ + "idx_dag_nodes_lease_timeout"@ + " ON "@
                + "dag_nodes(status, lease_expires_at)"@,
        ],
        step_statements(SchemaStep::CreateIndex(CoreIndex::TaskNode)) == seq![
            "CREATE INDEX IF NOT EXISTS "@ + "idx_event_journal_task_node"@ + " ON "@
                + "event_journal(task_id, node_id, timestamp)"@,
        ],
        step_statements(SchemaStep::AdoptBaseline) == seq![
            "INSERT OR IGNORE INTO agentd_schema_migrations (version, name) VALUES (1, 'initial_state_engine')"@,
        ],
        step_statements(SchemaStep::Migrate(Migration::InitialStateEngine)) == seq![
            CREATE_GLOBAL_TASKS@,
            CREATE_DAG_NODES@,
            CREATE_EVENT_JOURNAL@,
            "CREATE INDEX "@ + "idx_dag_nodes_task_status"@ + " ON "@
                + "dag_nodes(task_id, status)"@,
            "CREATE INDEX "@ + "idx_dag_nodes_running_timeout"@ + " ON "@
                + "dag_nodes(status, acquired_at)"@,
            "CREATE INDEX "@ + "idx_dag_nodes_lease_timeout"@ + " ON "@
                + "dag_nodes(status, lease_expires_at)"@,
            "CREATE INDEX "@ + "idx_event_journal_task_node"@ + " ON "@
                + "event_journal(task_id, node_id, timestamp)"@,
            "INSERT INTO agentd_schema_migrations (version, name) VALUES (1, 'initial_state_engine')"@,
        ],
        step_statements(SchemaStep::Migrate(Migration::ResourceLocks)) == seq![
            CREATE_RESOURCE_LOCKS@,
            "CREATE INDEX idx_resource_locks_lease_timeout ON resource_locks(lease_expires_at)"@,
            "CREATE INDEX idx_resource_locks_owner ON resource_locks(owner)"@,
            "INSERT INTO agentd_schema_migrations (version, name) VALUES (2, 'resource_locks')"@,
        ],
{
}

} // verus!
