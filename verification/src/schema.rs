//! The schema of the database and how an existing one is brought up to date.

use crate::db::LATEST_SCHEMA_VERSION;
use crate::opening::fresh_state;
use crate::reports::newest;
use crate::text::same;
use vstd::prelude::*;
use vstd::string::StringExecFns;

verus! {

/// Makes the table that records which migrations were applied, if it is not there.
pub const CREATE_MIGRATIONS_TABLE: &'static str =
    "CREATE TABLE IF NOT EXISTS agentd_schema_migrations (
            version INTEGER PRIMARY KEY NOT NULL,
            name TEXT NOT NULL,
            applied_at TEXT NOT NULL DEFAULT (strftime('%Y-%m-%dT%H:%M:%fZ', 'now'))
        )";

/// Makes the table of tasks.
pub const CREATE_GLOBAL_TASKS: &'static str =
    "CREATE TABLE global_tasks (
        id TEXT PRIMARY KEY NOT NULL,
        goal TEXT NOT NULL,
        context TEXT NOT NULL CHECK (json_valid(context)),
        created_at TEXT NOT NULL DEFAULT (strftime('%Y-%m-%dT%H:%M:%fZ', 'now'))
    )";

/// Makes the table of nodes.
pub const CREATE_DAG_NODES: &'static str =
    "CREATE TABLE dag_nodes (
        id TEXT PRIMARY KEY NOT NULL,
        task_id TEXT NOT NULL REFERENCES global_tasks(id) ON DELETE CASCADE,
        status TEXT NOT NULL CHECK (status IN ('PENDING', 'RUNNING', 'COMPLETED', 'FAILED')),
        dependencies TEXT NOT NULL CHECK (json_valid(dependencies) AND json_type(dependencies) = 'array'),
        payload_schema TEXT NOT NULL CHECK (json_valid(payload_schema)),
        result_payload TEXT CHECK (result_payload IS NULL OR json_valid(result_payload)),
        acquired_at INTEGER,
        lease_id TEXT,
        lease_owner TEXT,
        lease_expires_at INTEGER,
        updated_at INTEGER NOT NULL DEFAULT (unixepoch('now')),
        UNIQUE(task_id, id)
    )";

/// Makes the journal.
pub const CREATE_EVENT_JOURNAL: &'static str =
    "CREATE TABLE event_journal (
        id TEXT PRIMARY KEY NOT NULL,
        task_id TEXT NOT NULL REFERENCES global_tasks(id) ON DELETE CASCADE,
        node_id TEXT NOT NULL REFERENCES dag_nodes(id) ON DELETE CASCADE,
        action_type TEXT NOT NULL,
        payload TEXT NOT NULL CHECK (json_valid(payload)),
        timestamp TEXT NOT NULL DEFAULT (strftime('%Y-%m-%dT%H:%M:%fZ', 'now'))
    )";

/// Makes the table of locks on resources.
pub const CREATE_RESOURCE_LOCKS: &'static str =
    "CREATE TABLE resource_locks (
        resource_key TEXT PRIMARY KEY NOT NULL,
        lease_id TEXT NOT NULL,
        owner TEXT NOT NULL,
        provider TEXT,
        task_id TEXT REFERENCES global_tasks(id) ON DELETE CASCADE,
        node_id TEXT,
        metadata TEXT NOT NULL CHECK (json_valid(metadata)),
        acquired_at INTEGER NOT NULL DEFAULT (unixepoch('now')),
        lease_expires_at INTEGER NOT NULL,
        updated_at INTEGER NOT NULL DEFAULT (unixepoch('now'))
    )";

/// A column of the table of nodes that old databases lack.
#[derive(Debug, Clone, Copy, PartialEq, Eq, Structural)]
pub enum LeaseColumn {
    LeaseId,
    LeaseOwner,
    LeaseExpiresAt,
}

impl LeaseColumn {
    /// The column's name.
    pub open spec fn title(self) -> Seq<char> {
        match self {
            LeaseColumn::LeaseId => "lease_id"@,
            LeaseColumn::LeaseOwner => "lease_owner"@,
            LeaseColumn::LeaseExpiresAt => "lease_expires_at"@,
        }
    }

    /// The column's name.
    pub fn name(self) -> (text: &'static str)
        ensures
            text@ == self.title(),
    {
        match self {
            LeaseColumn::LeaseId => "lease_id",
            LeaseColumn::LeaseOwner => "lease_owner",
            LeaseColumn::LeaseExpiresAt => "lease_expires_at",
        }
    }
}

/// An index over the tables of tasks, nodes and journal entries.
#[derive(Debug, Clone, Copy, PartialEq, Eq, Structural)]
pub enum CoreIndex {
    TaskStatus,
    RunningTimeout,
    LeaseTimeout,
    TaskNode,
}

impl CoreIndex {
    /// The index's name.
    pub open spec fn title(self) -> Seq<char> {
        match self {
            CoreIndex::TaskStatus => "idx_dag_nodes_task_status"@,
            CoreIndex::RunningTimeout => "idx_dag_nodes_running_timeout"@,
            CoreIndex::LeaseTimeout => "idx_dag_nodes_lease_timeout"@,
            CoreIndex::TaskNode => "idx_event_journal_task_node"@,
        }
    }

    /// The index's name.
    pub fn name(self) -> (text: &'static str)
        ensures
            text@ == self.title(),
    {
        match self {
            CoreIndex::TaskStatus => "idx_dag_nodes_task_status",
            CoreIndex::RunningTimeout => "idx_dag_nodes_running_timeout",
            CoreIndex::LeaseTimeout => "idx_dag_nodes_lease_timeout",
            CoreIndex::TaskNode => "idx_event_journal_task_node",
        }
    }

    /// What the index is over.
    pub open spec fn subject(self) -> Seq<char> {
        match self {
            CoreIndex::TaskStatus => "dag_nodes(task_id, status)"@,
            CoreIndex::RunningTimeout => "dag_nodes(status, acquired_at)"@,
            CoreIndex::LeaseTimeout => "dag_nodes(status, lease_expires_at)"@,
            CoreIndex::TaskNode => "event_journal(task_id, node_id, timestamp)"@,
        }
    }

    /// What the index is over.
    pub fn over(self) -> (text: &'static str)
        ensures
            text@ == self.subject(),
    {
        match self {
            CoreIndex::TaskStatus => "dag_nodes(task_id, status)",
            CoreIndex::RunningTimeout => "dag_nodes(status, acquired_at)",
            CoreIndex::LeaseTimeout => "dag_nodes(status, lease_expires_at)",
            CoreIndex::TaskNode => "event_journal(task_id, node_id, timestamp)",
        }
    }
}

/// A change of the schema that is applied once.
#[derive(Debug, Clone, Copy, PartialEq, Eq, Structural)]
pub enum Migration {
    InitialStateEngine,
    ResourceLocks,
}

impl Migration {
    /// The schema version that the migration leads to.
    pub open spec fn number(self) -> i64 {
        match self {
            Migration::InitialStateEngine => 1,
            Migration::ResourceLocks => 2,
        }
    }

    /// The schema version that the migration leads to.
    pub fn version(self) -> (version: i64)
        ensures
            version == self.number(),
    {
        match self {
            Migration::InitialStateEngine => 1,
            Migration::ResourceLocks => 2,
        }
    }

    /// The migration's name.
    pub open spec fn title(self) -> Seq<char> {
        match self {
            Migration::InitialStateEngine => "initial_state_engine"@,
            Migration::ResourceLocks => "resource_locks"@,
        }
    }

    /// The migration's name.
    pub fn name(self) -> (text: &'static str)
        ensures
            text@ == self.title(),
    {
        match self {
            Migration::InitialStateEngine => "initial_state_engine",
            Migration::ResourceLocks => "resource_locks",
        }
    }
}

/// One step on the way to the latest schema.
#[derive(Debug, Clone, Copy, PartialEq, Eq, Structural)]
pub enum SchemaStep {
    /// Make the table that records migrations.
    CreateMigrationsTable,
    /// Add a column to the table of nodes.
    AddColumn(LeaseColumn),
    /// Make an index.
    CreateIndex(CoreIndex),
    /// Record the first migration as applied, unless it is recorded.
    AdoptBaseline,
    /// Apply a migration and record it, both or neither.
    Migrate(Migration),
}

/// What a step runs.
pub open spec fn step_statements(step: SchemaStep) -> Seq<Seq<char>> {
    match step {
        SchemaStep::CreateMigrationsTable => seq![CREATE_MIGRATIONS_TABLE@],
        SchemaStep::AddColumn(column) => seq![
            "ALTER TABLE dag_nodes ADD COLUMN "@ + column.title() + (if column
                == LeaseColumn::LeaseExpiresAt {
                " INTEGER"@
            } else {
                " TEXT"@
            }),
        ],
        SchemaStep::CreateIndex(index) => seq![
            "CREATE INDEX IF NOT EXISTS "@ + index.title() + " ON "@ + index.subject(),
        ],
        SchemaStep::AdoptBaseline => seq![
            "INSERT OR IGNORE INTO agentd_schema_migrations (version, name) VALUES (1, 'initial_state_engine')"@,
        ],
        SchemaStep::Migrate(Migration::InitialStateEngine) => seq![
            CREATE_GLOBAL_TASKS@,
            CREATE_DAG_NODES@,
            CREATE_EVENT_JOURNAL@,
            "CREATE INDEX "@ + CoreIndex::TaskStatus.title() + " ON "@
                + CoreIndex::TaskStatus.subject(),
            "CREATE INDEX "@ + CoreIndex::RunningTimeout.title() + " ON "@
                + CoreIndex::RunningTimeout.subject(),
            "CREATE INDEX "@ + CoreIndex::LeaseTimeout.title() + " ON "@
                + CoreIndex::LeaseTimeout.subject(),
            "CREATE INDEX "@ + CoreIndex::TaskNode.title() + " ON "@ + CoreIndex::TaskNode.subject(),
            "INSERT INTO agentd_schema_migrations (version, name) VALUES (1, 'initial_state_engine')"@,
        ],
        SchemaStep::Migrate(Migration::ResourceLocks) => seq![
            CREATE_RESOURCE_LOCKS@,
            "CREATE INDEX idx_resource_locks_lease_timeout ON resource_locks(lease_expires_at)"@,
            "CREATE INDEX idx_resource_locks_owner ON resource_locks(owner)"@,
            "INSERT INTO agentd_schema_migrations (version, name) VALUES (2, 'resource_locks')"@,
        ],
    }
}

/// What is known of an existing database.
#[derive(Debug)]
pub struct Catalog {
    /// The names of its tables.
    pub tables: Vec<String>,
    /// The names of the columns of its table of nodes.
    pub node_columns: Vec<String>,
    /// The names of its indexes.
    pub indexes: Vec<String>,
    /// The migrations recorded as applied.
    pub versions: Vec<i64>,
}

/// What is known of an existing database.
#[verifier::ext_equal]
pub struct CatalogFacts {
    pub tables: Set<Seq<char>>,
    pub node_columns: Set<Seq<char>>,
    pub indexes: Set<Seq<char>>,
    pub versions: Seq<i64>,
}

/// The names as a set.
pub open spec fn names(texts: Seq<String>) -> Set<Seq<char>> {
    texts.map_values(|text: String| text@).to_set()
}

impl View for Catalog {
    type V = CatalogFacts;

    open spec fn view(&self) -> CatalogFacts {
        CatalogFacts {
            tables: names(self.tables@),
            node_columns: names(self.node_columns@),
            indexes: names(self.indexes@),
            versions: self.versions@,
        }
    }
}

/// What a database without any table is known as.
pub open spec fn empty_catalog() -> CatalogFacts {
    CatalogFacts {
        tables: Set::empty(),
        node_columns: Set::empty(),
        indexes: Set::empty(),
        versions: Seq::empty(),
    }
}

/// How to bring a database up to date: the steps to run, in order, and why it stops behind them,
/// if it does.
#[derive(Debug)]
pub struct SchemaPlan {
    pub steps: Vec<SchemaStep>,
    pub failure: Option<String>,
}

/// The database holds tasks but has no record of migrations.
pub open spec fn is_legacy(facts: CatalogFacts) -> bool {
    &&& !facts.tables.contains("agentd_schema_migrations"@)
    &&& (facts.tables.contains("global_tasks"@) || facts.tables.contains("dag_nodes"@)
        || facts.tables.contains("event_journal"@))
}

/// The first table that a database with tasks should have and lacks.
pub open spec fn missing_table(facts: CatalogFacts) -> Option<Seq<char>> {
    if !facts.tables.contains("global_tasks"@) {
        Some("global_tasks"@)
    } else if !facts.tables.contains("dag_nodes"@) {
        Some("dag_nodes"@)
    } else if !facts.tables.contains("event_journal"@) {
        Some("event_journal"@)
    } else {
        None
    }
}

/// Why the database cannot be brought up to date, if it cannot.
pub open spec fn plan_failure(facts: CatalogFacts) -> Option<Seq<char>> {
    if !is_legacy(facts) {
        None
    } else {
        match missing_table(facts) {
            Some(table) => Some("cannot adopt legacy database: missing table "@ + table),
            None => None,
        }
    }
}

/// The step that adds a column, unless it is there.
pub open spec fn column_steps(facts: CatalogFacts, column: LeaseColumn) -> Seq<SchemaStep> {
    if facts.node_columns.contains(column.title()) {
        Seq::empty()
    } else {
        seq![SchemaStep::AddColumn(column)]
    }
}

/// The step that makes an index, unless it is there.
pub open spec fn index_steps(facts: CatalogFacts, index: CoreIndex) -> Seq<SchemaStep> {
    if facts.indexes.contains(index.title()) {
        Seq::empty()
    } else {
        seq![SchemaStep::CreateIndex(index)]
    }
}

/// The steps that adopt a database without a record of migrations.
pub open spec fn adoption_steps(facts: CatalogFacts) -> Seq<SchemaStep> {
    column_steps(facts, LeaseColumn::LeaseId) + column_steps(facts, LeaseColumn::LeaseOwner)
        + column_steps(facts, LeaseColumn::LeaseExpiresAt) + index_steps(
        facts,
        CoreIndex::TaskStatus,
    ) + index_steps(facts, CoreIndex::RunningTimeout) + index_steps(facts, CoreIndex::LeaseTimeout)
        + index_steps(facts, CoreIndex::TaskNode) + seq![SchemaStep::AdoptBaseline]
}

/// The step that applies a migration, unless it was applied.
pub open spec fn migration_steps(versions: Seq<i64>, migration: Migration) -> Seq<SchemaStep> {
    if versions.contains(migration.number()) {
        Seq::empty()
    } else {
        seq![SchemaStep::Migrate(migration)]
    }
}

/// The versions that are recorded once a database without a record is adopted.
pub open spec fn adopted_versions(facts: CatalogFacts) -> Seq<i64> {
    if facts.versions.contains(1) {
        facts.versions
    } else {
        facts.versions.push(1)
    }
}

/// The steps that bring a database up to date.
pub open spec fn plan_steps(facts: CatalogFacts) -> Seq<SchemaStep> {
    let start = seq![SchemaStep::CreateMigrationsTable];
    if plan_failure(facts) is Some {
        start
    } else if is_legacy(facts) {
        start + adoption_steps(facts) + migration_steps(
            adopted_versions(facts),
            Migration::InitialStateEngine,
        ) + migration_steps(adopted_versions(facts), Migration::ResourceLocks)
    } else {
        start + migration_steps(facts.versions, Migration::InitialStateEngine) + migration_steps(
            facts.versions,
            Migration::ResourceLocks,
        )
    }
}

/// The columns of a table of nodes made by the first migration.
pub open spec fn node_table_columns() -> Set<Seq<char>> {
    set![
        "id"@,
        "task_id"@,
        "status"@,
        "dependencies"@,
        "payload_schema"@,
        "result_payload"@,
        "acquired_at"@,
        "lease_id"@,
        "lease_owner"@,
        "lease_expires_at"@,
        "updated_at"@,
    ]
}

/// What is known of a database once a step was run on it.
pub open spec fn after_step(facts: CatalogFacts, step: SchemaStep) -> CatalogFacts {
    match step {
        SchemaStep::CreateMigrationsTable => CatalogFacts {
            tables: facts.tables.insert("agentd_schema_migrations"@),
            ..facts
        },
        SchemaStep::AddColumn(column) => CatalogFacts {
            node_columns: facts.node_columns.insert(column.title()),
            ..facts
        },
        SchemaStep::CreateIndex(index) => CatalogFacts {
            indexes: facts.indexes.insert(index.title()),
            ..facts
        },
        SchemaStep::AdoptBaseline => CatalogFacts { versions: adopted_versions(facts), ..facts },
        SchemaStep::Migrate(Migration::InitialStateEngine) => CatalogFacts {
            tables: facts.tables.insert("global_tasks"@).insert("dag_nodes"@).insert(
                "event_journal"@,
            ),
            node_columns: node_table_columns(),
            indexes: facts.indexes.insert(CoreIndex::TaskStatus.title()).insert(
                CoreIndex::RunningTimeout.title(),
            ).insert(CoreIndex::LeaseTimeout.title()).insert(CoreIndex::TaskNode.title()),
            versions: facts.versions.push(1),
        },
        SchemaStep::Migrate(Migration::ResourceLocks) => CatalogFacts {
            tables: facts.tables.insert("resource_locks"@),
            indexes: facts.indexes.insert("idx_resource_locks_lease_timeout"@).insert(
                "idx_resource_locks_owner"@,
            ),
            versions: facts.versions.push(2),
            ..facts
        },
    }
}

/// What is known of a database once several steps were run on it.
pub open spec fn after_steps(facts: CatalogFacts, steps: Seq<SchemaStep>) -> CatalogFacts
    decreases steps.len(),
{
    if steps.len() == 0 {
        facts
    } else {
        after_step(after_steps(facts, steps.drop_last()), steps.last())
    }
}

fn listed(texts: &Vec<String>, name: &str) -> (found: bool)
    ensures
        found == names(texts@).contains(name@),
{
    let ghost all = texts@.map_values(|text: String| text@);
    let mut i: usize = 0;
    while i < texts.len()
        invariant
            all == texts@.map_values(|text: String| text@),
            i <= texts.len(),
            forall|j: int| 0 <= j < i ==> #[trigger] all[j] != name@,
        decreases texts.len() - i,
    {
        assert(all[i as int] == texts@[i as int]@);
        if same(texts[i].as_str(), name) {
            return true;
        }
        i = i + 1;
    }
    false
}

fn recorded(versions: &Vec<i64>, version: i64) -> (found: bool)
    ensures
        found == versions@.contains(version),
{
    let mut i: usize = 0;
    while i < versions.len()
        invariant
            i <= versions.len(),
            forall|j: int| 0 <= j < i ==> #[trigger] versions@[j] != version,
        decreases versions.len() - i,
    {
        if versions[i] == version {
            return true;
        }
        i = i + 1;
    }
    false
}

fn ensure_column(catalog: &Catalog, column: LeaseColumn, steps: &mut Vec<SchemaStep>)
    ensures
        final(steps)@ == old(steps)@ + column_steps(catalog@, column),
{
    if !listed(&catalog.node_columns, column.name()) {
        steps.push(SchemaStep::AddColumn(column));
    }
}

fn ensure_index(catalog: &Catalog, index: CoreIndex, steps: &mut Vec<SchemaStep>)
    ensures
        final(steps)@ == old(steps)@ + index_steps(catalog@, index),
{
    if !listed(&catalog.indexes, index.name()) {
        steps.push(SchemaStep::CreateIndex(index));
    }
}

/// Plans the adoption of a database without a record of migrations, or says which table it lacks.
pub fn adopt_legacy_schema(catalog: &Catalog, steps: &mut Vec<SchemaStep>) -> (failure: Option<String>)
    ensures
        match (failure, missing_table(catalog@)) {
            (Some(words), Some(table)) => final(steps)@ == old(steps)@ && words@
                == "cannot adopt legacy database: missing table "@ + table,
            (None, None) => final(steps)@ == old(steps)@ + adoption_steps(catalog@),
            _ => false,
        },
{
    let missing = if !listed(&catalog.tables, "global_tasks") {
        Some("global_tasks")
    } else if !listed(&catalog.tables, "dag_nodes") {
        Some("dag_nodes")
    } else if !listed(&catalog.tables, "event_journal") {
        Some("event_journal")
    } else {
        None
    };
    if let Some(table) = missing {
        return Some("cannot adopt legacy database: missing table ".to_owned().concat(table));
    }
    ensure_column(catalog, LeaseColumn::LeaseId, steps);
    ensure_column(catalog, LeaseColumn::LeaseOwner, steps);
    ensure_column(catalog, LeaseColumn::LeaseExpiresAt, steps);
    ensure_index(catalog, CoreIndex::TaskStatus, steps);
    ensure_index(catalog, CoreIndex::RunningTimeout, steps);
    ensure_index(catalog, CoreIndex::LeaseTimeout, steps);
    ensure_index(catalog, CoreIndex::TaskNode, steps);
    steps.push(SchemaStep::AdoptBaseline);
    proof {
        lemma_adoption_parts(catalog@, old(steps)@);
    }
    None
}

/// Plans the migrations that are not among those applied.
fn apply_pending_migrations(first: bool, second: bool, steps: &mut Vec<SchemaStep>)
    ensures
        final(steps)@ == old(steps)@ + (if first {
            Seq::empty()
        } else {
            seq![SchemaStep::Migrate(Migration::InitialStateEngine)]
        }) + (if second {
            Seq::empty()
        } else {
            seq![SchemaStep::Migrate(Migration::ResourceLocks)]
        }),
{
    if !first {
        steps.push(SchemaStep::Migrate(Migration::InitialStateEngine));
    }
    if !second {
        steps.push(SchemaStep::Migrate(Migration::ResourceLocks));
    }
}

/// Plans how to bring a database up to date.
pub fn initialise_schema(catalog: &Catalog) -> (plan: SchemaPlan)
    ensures
        plan.steps@ == plan_steps(catalog@),
        match plan.failure {
            Some(words) => plan_failure(catalog@) == Some(words@),
            None => plan_failure(catalog@) is None,
        },
{
    let had_migration_table = listed(&catalog.tables, "agentd_schema_migrations");
    let had_core_schema = listed(&catalog.tables, "global_tasks") || listed(
        &catalog.tables,
        "dag_nodes",
    ) || listed(&catalog.tables, "event_journal");
    let mut steps: Vec<SchemaStep> = Vec::new();
    steps.push(SchemaStep::CreateMigrationsTable);
    assert(steps@ =~= seq![SchemaStep::CreateMigrationsTable]);
    let legacy = !had_migration_table && had_core_schema;
    if legacy {
        if let Some(words) = adopt_legacy_schema(catalog, &mut steps) {
            return SchemaPlan { steps, failure: Some(words) };
        }
    }
    let first = legacy || recorded(&catalog.versions, 1);
    let second = recorded(&catalog.versions, 2);
    proof {
        if legacy {
            let versions = catalog@.versions;
            let after = adopted_versions(catalog@);
            if !versions.contains(1) {
                assert(after[versions.len() as int] == 1);
                assert(after.contains(2) == versions.contains(2)) by {
                    if versions.contains(2) {
                        let j = choose|j: int| 0 <= j < versions.len() && versions[j] == 2;
                        assert(after[j] == 2);
                    }
                }
            }
        }
    }
    apply_pending_migrations(first, second, &mut steps);
    SchemaPlan { steps, failure: None }
}

fn index_statement(opening: &str, index: CoreIndex) -> (text: String)
    ensures
        text@ == opening@ + index.title() + " ON "@ + index.subject(),
{
    opening.to_owned().concat(index.name()).concat(" ON ").concat(index.over())
}

/// The statements that a step runs, in order; where there are several, they run in one
/// transaction.
pub fn statements(step: SchemaStep) -> (texts: Vec<String>)
    ensures
        texts@.map_values(|text: String| text@) == step_statements(step),
{
    let mut texts: Vec<String> = Vec::new();
    match step {
        SchemaStep::CreateMigrationsTable => {
            texts.push(CREATE_MIGRATIONS_TABLE.to_owned());
        },
        SchemaStep::AddColumn(column) => {
            let column_type = match column {
                LeaseColumn::LeaseExpiresAt => " INTEGER",
                _ => " TEXT",
            };
            texts.push(
                "ALTER TABLE dag_nodes ADD COLUMN ".to_owned().concat(column.name()).concat(
                    column_type,
                ),
            );
        },
        SchemaStep::CreateIndex(index) => {
            texts.push(index_statement("CREATE INDEX IF NOT EXISTS ", index));
        },
        SchemaStep::AdoptBaseline => {
            texts.push(
                "INSERT OR IGNORE INTO agentd_schema_migrations (version, name) VALUES (1, 'initial_state_engine')".to_owned(),
            );
        },
        SchemaStep::Migrate(Migration::InitialStateEngine) => {
            texts.push(CREATE_GLOBAL_TASKS.to_owned());
            texts.push(CREATE_DAG_NODES.to_owned());
            texts.push(CREATE_EVENT_JOURNAL.to_owned());
            texts.push(index_statement("CREATE INDEX ", CoreIndex::TaskStatus));
            texts.push(index_statement("CREATE INDEX ", CoreIndex::RunningTimeout));
            texts.push(index_statement("CREATE INDEX ", CoreIndex::LeaseTimeout));
            texts.push(index_statement("CREATE INDEX ", CoreIndex::TaskNode));
            texts.push(
                "INSERT INTO agentd_schema_migrations (version, name) VALUES (1, 'initial_state_engine')".to_owned(),
            );
        },
        SchemaStep::Migrate(Migration::ResourceLocks) => {
            texts.push(CREATE_RESOURCE_LOCKS.to_owned());
            texts.push(
                "CREATE INDEX idx_resource_locks_lease_timeout ON resource_locks(lease_expires_at)".to_owned(),
            );
            texts.push(
                "CREATE INDEX idx_resource_locks_owner ON resource_locks(owner)".to_owned(),
            );
            texts.push(
                "INSERT INTO agentd_schema_migrations (version, name) VALUES (2, 'resource_locks')".to_owned(),
            );
        },
    }
    assert(texts@.map_values(|text: String| text@) =~= step_statements(step));
    texts
}

/// The record of migrations agrees with the tables: what is recorded was made, and a record needs
/// its table.
pub open spec fn is_coherent(facts: CatalogFacts) -> bool {
    &&& facts.versions.len() > 0 ==> facts.tables.contains("agentd_schema_migrations"@)
    &&& facts.versions.contains(1) ==> has_core(facts)
    &&& facts.versions.contains(2) ==> facts.tables.contains("resource_locks"@)
}

/// The tables of tasks, nodes and journal entries are there, with the columns for leases.
pub open spec fn has_core(facts: CatalogFacts) -> bool {
    &&& facts.tables.contains("global_tasks"@)
    &&& facts.tables.contains("dag_nodes"@)
    &&& facts.tables.contains("event_journal"@)
    &&& facts.node_columns.contains("lease_id"@)
    &&& facts.node_columns.contains("lease_owner"@)
    &&& facts.node_columns.contains("lease_expires_at"@)
}

proof fn lemma_run(facts: CatalogFacts, steps: Seq<SchemaStep>, step: SchemaStep)
    ensures
        after_steps(facts, steps.push(step)) == after_step(after_steps(facts, steps), step),
{
    assert(steps.push(step).drop_last() =~= steps);
}

proof fn lemma_column(facts: CatalogFacts, start: CatalogFacts, steps: Seq<SchemaStep>, column: LeaseColumn)
    requires
        facts.node_columns.subset_of(after_steps(start, steps).node_columns),
    ensures
        ({
            let before = after_steps(start, steps);
            let after = after_steps(start, steps + column_steps(facts, column));
            &&& after.node_columns == before.node_columns.insert(column.title())
            &&& after.tables == before.tables
            &&& after.indexes == before.indexes
            &&& after.versions == before.versions
        }),
{
    let before = after_steps(start, steps);
    if facts.node_columns.contains(column.title()) {
        assert(steps + column_steps(facts, column) =~= steps);
        assert(before.node_columns =~= before.node_columns.insert(column.title()));
    } else {
        assert(steps + column_steps(facts, column) =~= steps.push(SchemaStep::AddColumn(column)));
        lemma_run(start, steps, SchemaStep::AddColumn(column));
    }
}

proof fn lemma_index(facts: CatalogFacts, start: CatalogFacts, steps: Seq<SchemaStep>, index: CoreIndex)
    requires
        facts.indexes.subset_of(after_steps(start, steps).indexes),
    ensures
        ({
            let before = after_steps(start, steps);
            let after = after_steps(start, steps + index_steps(facts, index));
            &&& after.node_columns == before.node_columns
            &&& after.tables == before.tables
            &&& after.indexes == before.indexes.insert(index.title())
            &&& after.versions == before.versions
        }),
{
    let before = after_steps(start, steps);
    if facts.indexes.contains(index.title()) {
        assert(steps + index_steps(facts, index) =~= steps);
        assert(before.indexes =~= before.indexes.insert(index.title()));
    } else {
        assert(steps + index_steps(facts, index) =~= steps.push(SchemaStep::CreateIndex(index)));
        lemma_run(start, steps, SchemaStep::CreateIndex(index));
    }
}

proof fn lemma_migrate(
    start: CatalogFacts,
    steps: Seq<SchemaStep>,
    versions: Seq<i64>,
    migration: Migration,
)
    ensures
        ({
            let before = after_steps(start, steps);
            let after = after_steps(start, steps + migration_steps(versions, migration));
            if versions.contains(migration.number()) {
                after == before
            } else {
                after == after_step(before, SchemaStep::Migrate(migration))
            }
        }),
{
    if versions.contains(migration.number()) {
        assert(steps + migration_steps(versions, migration) =~= steps);
    } else {
        assert(steps + migration_steps(versions, migration) =~= steps.push(
            SchemaStep::Migrate(migration),
        ));
        lemma_run(start, steps, SchemaStep::Migrate(migration));
    }
}

proof fn lemma_push_contains(versions: Seq<i64>, version: i64)
    ensures
        versions.push(version).contains(version),
        forall|v: i64| versions.contains(v) ==> #[trigger] versions.push(version).contains(v),
        forall|v: i64| #[trigger]
            versions.push(version).contains(v) ==> versions.contains(v) || v == version,
{
    let longer = versions.push(version);
    assert(longer[versions.len() as int] == version);
    assert forall|v: i64| versions.contains(v) implies #[trigger] longer.contains(v) by {
        let j = choose|j: int| 0 <= j < versions.len() && versions[j] == v;
        assert(longer[j] == v);
    }
    assert forall|v: i64| #[trigger] longer.contains(v) implies versions.contains(v) || v == version by {
        let j = choose|j: int| 0 <= j < longer.len() && longer[j] == v;
        if j < versions.len() {
            assert(versions[j] == v);
        }
    }
}

/// The columns, and those for leases.
pub open spec fn with_lease_columns(columns: Set<Seq<char>>) -> Set<Seq<char>> {
    columns.insert(LeaseColumn::LeaseId.title()).insert(LeaseColumn::LeaseOwner.title()).insert(
        LeaseColumn::LeaseExpiresAt.title(),
    )
}

/// The indexes, and those over the tables of tasks, nodes and journal entries.
pub open spec fn with_core_indexes(indexes: Set<Seq<char>>) -> Set<Seq<char>> {
    indexes.insert(CoreIndex::TaskStatus.title()).insert(CoreIndex::RunningTimeout.title()).insert(
        CoreIndex::LeaseTimeout.title(),
    ).insert(CoreIndex::TaskNode.title())
}

/// Adopting a database behind steps that have taken nothing away adds the lease columns, the
/// indexes and the record.
proof fn lemma_adopt(facts: CatalogFacts, start: Seq<SchemaStep>)
    requires
        facts.node_columns == after_steps(facts, start).node_columns,
        facts.indexes == after_steps(facts, start).indexes,
        facts.versions == after_steps(facts, start).versions,
    ensures
        after_steps(facts, start + adoption_steps(facts)) == (CatalogFacts {
            tables: after_steps(facts, start).tables,
            node_columns: with_lease_columns(facts.node_columns),
            indexes: with_core_indexes(facts.indexes),
            versions: adopted_versions(facts),
        }),
{
    let a1 = start + column_steps(facts, LeaseColumn::LeaseId);
    let a2 = a1 + column_steps(facts, LeaseColumn::LeaseOwner);
    let a3 = a2 + column_steps(facts, LeaseColumn::LeaseExpiresAt);
    lemma_column(facts, facts, start, LeaseColumn::LeaseId);
    lemma_column(facts, facts, a1, LeaseColumn::LeaseOwner);
    lemma_column(facts, facts, a2, LeaseColumn::LeaseExpiresAt);
    let a4 = a3 + index_steps(facts, CoreIndex::TaskStatus);
    let a5 = a4 + index_steps(facts, CoreIndex::RunningTimeout);
    let a6 = a5 + index_steps(facts, CoreIndex::LeaseTimeout);
    let a7 = a6 + index_steps(facts, CoreIndex::TaskNode);
    lemma_index(facts, facts, a3, CoreIndex::TaskStatus);
    lemma_index(facts, facts, a4, CoreIndex::RunningTimeout);
    lemma_index(facts, facts, a5, CoreIndex::LeaseTimeout);
    lemma_index(facts, facts, a6, CoreIndex::TaskNode);
    lemma_run(facts, a7, SchemaStep::AdoptBaseline);
    lemma_adoption_parts(facts, start);
}

/// Adopting a database that has its three tables keeps every table, column, index and record, adds
/// the columns for leases, and leaves the first version recorded once. Adopting it again changes
/// nothing.
pub proof fn adoption_happens_once(facts: CatalogFacts)
    requires
        missing_table(facts) is None,
        facts.versions.no_duplicates(),
    ensures
        ({
            let after = after_steps(facts, adoption_steps(facts));
            &&& missing_table(after) is None
            &&& after.tables == facts.tables
            &&& after.node_columns == with_lease_columns(facts.node_columns)
            &&& after.indexes == with_core_indexes(facts.indexes)
            &&& after.versions.no_duplicates()
            &&& after.versions.contains(1)
            &&& facts.versions.is_prefix_of(after.versions)
            &&& facts.versions.contains(1) ==> after.versions == facts.versions
            &&& after_steps(after, adoption_steps(after)) == after
        }),
{
    let none = Seq::<SchemaStep>::empty();
    let after = after_steps(facts, adoption_steps(facts));
    assert(none + adoption_steps(facts) =~= adoption_steps(facts));
    lemma_adopt(facts, none);
    lemma_push_contains(facts.versions, 1);
    assert(none + adoption_steps(after) =~= adoption_steps(after));
    lemma_adopt(after, none);
    assert(with_lease_columns(after.node_columns) =~= after.node_columns);
    assert(with_core_indexes(after.indexes) =~= after.indexes);
}

/// A database without a record of migrations is refused exactly if it lacks one of the three
/// tables, and the first that it lacks is named. Nothing but the record's own table is made then.
pub proof fn incomplete_database_is_refused(facts: CatalogFacts)
    requires
        is_legacy(facts),
    ensures
        plan_failure(facts) is Some <==> !(facts.tables.contains("global_tasks"@)
            && facts.tables.contains("dag_nodes"@) && facts.tables.contains("event_journal"@)),
        missing_table(facts) matches Some(table) ==> {
            &&& plan_failure(facts) == Some(
                "cannot adopt legacy database: missing table "@ + table,
            )
            &&& !facts.tables.contains(table)
            &&& table == "global_tasks"@ || facts.tables.contains("global_tasks"@)
            &&& table == "global_tasks"@ || table == "dag_nodes"@ || facts.tables.contains(
                "dag_nodes"@,
            )
            &&& after_steps(facts, plan_steps(facts)) == (CatalogFacts {
                tables: facts.tables.insert("agentd_schema_migrations"@),
                ..facts
            })
        },
{
    let start = seq![SchemaStep::CreateMigrationsTable];
    assert(start =~= Seq::empty().push(SchemaStep::CreateMigrationsTable));
    lemma_run(facts, Seq::empty(), SchemaStep::CreateMigrationsTable);
}

proof fn lemma_regroup(a: Seq<SchemaStep>, b: Seq<SchemaStep>, c: Seq<SchemaStep>)
    ensures
        a + (b + c) == a + b + c,
{
    assert(a + (b + c) =~= a + b + c);
}

/// The steps that adopt a database can be run one after the other.
proof fn lemma_adoption_parts(facts: CatalogFacts, start: Seq<SchemaStep>)
    ensures
        start + adoption_steps(facts) == (start + column_steps(facts, LeaseColumn::LeaseId)
            + column_steps(facts, LeaseColumn::LeaseOwner) + column_steps(
            facts,
            LeaseColumn::LeaseExpiresAt,
        ) + index_steps(facts, CoreIndex::TaskStatus) + index_steps(
            facts,
            CoreIndex::RunningTimeout,
        ) + index_steps(facts, CoreIndex::LeaseTimeout) + index_steps(
            facts,
            CoreIndex::TaskNode,
        )).push(SchemaStep::AdoptBaseline),
{
    let c1 = column_steps(facts, LeaseColumn::LeaseId);
    let c2 = column_steps(facts, LeaseColumn::LeaseOwner);
    let c3 = column_steps(facts, LeaseColumn::LeaseExpiresAt);
    let i1 = index_steps(facts, CoreIndex::TaskStatus);
    let i2 = index_steps(facts, CoreIndex::RunningTimeout);
    let i3 = index_steps(facts, CoreIndex::LeaseTimeout);
    let i4 = index_steps(facts, CoreIndex::TaskNode);
    let last = seq![SchemaStep::AdoptBaseline];
    lemma_regroup(start, c1 + c2 + c3 + i1 + i2 + i3 + i4, last);
    lemma_regroup(start, c1 + c2 + c3 + i1 + i2 + i3, i4);
    lemma_regroup(start, c1 + c2 + c3 + i1 + i2, i3);
    lemma_regroup(start, c1 + c2 + c3 + i1, i2);
    lemma_regroup(start, c1 + c2 + c3, i1);
    lemma_regroup(start, c1 + c2, c3);
    lemma_regroup(start, c1, c2);
    let all = start + c1 + c2 + c3 + i1 + i2 + i3 + i4;
    lemma_one_more(all, SchemaStep::AdoptBaseline);
}

proof fn lemma_one_more(steps: Seq<SchemaStep>, step: SchemaStep)
    ensures
        steps + seq![step] == steps.push(step),
{
    assert(steps + seq![step] =~= steps.push(step));
}

/// Unless the plan stops, running it leaves a database with every migration recorded and every
/// table and lease column there; no table and no record is lost.
pub proof fn plan_reaches_latest_schema(facts: CatalogFacts)
    requires
        is_coherent(facts),
        plan_failure(facts) is None,
    ensures
        ({
            let after = after_steps(facts, plan_steps(facts));
            &&& is_coherent(after)
            &&& after.versions.contains(1)
            &&& after.versions.contains(2)
            &&& has_core(after)
            &&& after.tables.contains("resource_locks"@)
            &&& facts.tables.subset_of(after.tables)
            &&& forall|v: i64| facts.versions.contains(v) ==> #[trigger] after.versions.contains(v)
            &&& forall|v: i64| #[trigger] after.versions.contains(v) ==> facts.versions.contains(v)
                || v == 1 || v == 2
        }),
{
    let start = seq![SchemaStep::CreateMigrationsTable];
    assert(start =~= Seq::empty().push(SchemaStep::CreateMigrationsTable));
    lemma_run(facts, Seq::empty(), SchemaStep::CreateMigrationsTable);
    let s0 = after_steps(facts, start);
    lemma_push_contains(facts.versions, 1);
    lemma_push_contains(facts.versions, 2);
    lemma_push_contains(facts.versions.push(1), 2);
    if is_legacy(facts) {
        assert(facts.versions.len() == 0);
        lemma_adopt(facts, start);
        let a8 = start + adoption_steps(facts);
        let versions = adopted_versions(facts);
        let b1 = a8 + migration_steps(versions, Migration::InitialStateEngine);
        lemma_migrate(facts, a8, versions, Migration::InitialStateEngine);
        lemma_migrate(facts, b1, versions, Migration::ResourceLocks);
        assert(plan_steps(facts) == b1 + migration_steps(versions, Migration::ResourceLocks));
    } else {
        let b1 = start + migration_steps(facts.versions, Migration::InitialStateEngine);
        lemma_migrate(facts, start, facts.versions, Migration::InitialStateEngine);
        lemma_migrate(facts, b1, facts.versions, Migration::ResourceLocks);
    }
}

/// Planning again for a database that was brought up to date asks for nothing new, and running
/// that plan changes nothing.
pub proof fn planning_again_changes_nothing(facts: CatalogFacts)
    requires
        is_coherent(facts),
        plan_failure(facts) is None,
    ensures
        ({
            let after = after_steps(facts, plan_steps(facts));
            &&& plan_failure(after) is None
            &&& plan_steps(after) == seq![SchemaStep::CreateMigrationsTable]
            &&& after_steps(after, plan_steps(after)) == after
        }),
{
    plan_reaches_latest_schema(facts);
    let after = after_steps(facts, plan_steps(facts));
    assert(after.versions.len() > 0);
    assert(plan_steps(after) =~= seq![SchemaStep::CreateMigrationsTable]);
    assert(seq![SchemaStep::CreateMigrationsTable] =~= Seq::empty().push(
        SchemaStep::CreateMigrationsTable,
    ));
    lemma_run(after, Seq::empty(), SchemaStep::CreateMigrationsTable);
    assert(after_steps(after, plan_steps(after)) =~= after);
}

pub(crate) proof fn lemma_newest_bounds(versions: Seq<i64>)
    ensures
        versions.len() > 0 ==> versions.contains(newest(versions)),
        forall|v: i64| #[trigger] versions.contains(v) ==> v <= newest(versions),
    decreases versions.len(),
{
    if versions.len() > 0 {
        let fewer = versions.drop_last();
        lemma_newest_bounds(fewer);
        assert(versions[versions.len() - 1] == versions.last());
        if versions.len() > 1 && newest(fewer) > versions.last() {
            let j = choose|j: int| 0 <= j < fewer.len() && fewer[j] == newest(fewer);
            assert(versions[j] == newest(versions));
        }
        assert forall|v: i64| #[trigger] versions.contains(v) implies v <= newest(versions) by {
            let j = choose|j: int| 0 <= j < versions.len() && versions[j] == v;
            if j < versions.len() - 1 {
                assert(fewer[j] == v);
                assert(fewer.contains(v));
            }
        }
    }
}

/// A database whose record is no newer than this library ends at the latest schema version.
pub proof fn plan_ends_at_latest_version(facts: CatalogFacts)
    requires
        is_coherent(facts),
        plan_failure(facts) is None,
        forall|v: i64| #[trigger] facts.versions.contains(v) ==> v <= LATEST_SCHEMA_VERSION,
    ensures
        newest(after_steps(facts, plan_steps(facts)).versions) == LATEST_SCHEMA_VERSION,
{
    plan_reaches_latest_schema(facts);
    lemma_newest_bounds(after_steps(facts, plan_steps(facts)).versions);
}

/// A database without any table ends with the record that a new store starts with.
pub proof fn new_database_has_fresh_record()
    ensures
        after_steps(empty_catalog(), plan_steps(empty_catalog())).versions
            == fresh_state().versions,
{
    let facts = empty_catalog();
    let start = seq![SchemaStep::CreateMigrationsTable];
    assert(start =~= Seq::empty().push(SchemaStep::CreateMigrationsTable));
    lemma_run(facts, Seq::empty(), SchemaStep::CreateMigrationsTable);
    let b1 = start + migration_steps(facts.versions, Migration::InitialStateEngine);
    lemma_migrate(facts, start, facts.versions, Migration::InitialStateEngine);
    lemma_migrate(facts, b1, facts.versions, Migration::ResourceLocks);
    assert(after_steps(facts, plan_steps(facts)).versions =~= seq![1i64, 2i64]);
}

} // verus!
