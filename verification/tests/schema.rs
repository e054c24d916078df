use agentd::db::{Database, LATEST_SCHEMA_VERSION};
use agentd::rows::{DagNodeRow, GlobalTaskRow};
use agentd::schema::{
    adopt_legacy_schema, initialise_schema, statements, Catalog, CoreIndex, LeaseColumn,
    Migration, SchemaPlan, SchemaStep,
};
use sqlx::sqlite::{SqlitePool, SqlitePoolOptions};
use std::future::Future;

fn run<T>(work: impl Future<Output = T>) -> T {
    tokio::runtime::Builder::new_current_thread()
        .enable_all()
        .build()
        .unwrap()
        .block_on(work)
}

async fn memory() -> SqlitePool {
    SqlitePoolOptions::new()
        .max_connections(1)
        .connect("sqlite::memory:")
        .await
        .unwrap()
}

async fn texts(pool: &SqlitePool, query: &str) -> Vec<String> {
    sqlx::query_scalar::<_, String>(query)
        .fetch_all(pool)
        .await
        .unwrap()
}

async fn catalog(pool: &SqlitePool) -> Catalog {
    let tables = texts(pool, "SELECT name FROM sqlite_master WHERE type = 'table'").await;
    let versions = if tables.iter().any(|name| name == "agentd_schema_migrations") {
        sqlx::query_scalar::<_, i64>(
            "SELECT version FROM agentd_schema_migrations ORDER BY version ASC",
        )
        .fetch_all(pool)
        .await
        .unwrap()
    } else {
        vec![]
    };
    Catalog {
        tables,
        node_columns: texts(pool, "SELECT name FROM pragma_table_info('dag_nodes')").await,
        indexes: texts(pool, "SELECT name FROM sqlite_master WHERE type = 'index'").await,
        versions,
    }
}

async fn bring_up_to_date(pool: &SqlitePool) -> SchemaPlan {
    let plan = initialise_schema(&catalog(pool).await);
    for step in &plan.steps {
        for statement in statements(*step) {
            sqlx::query(&statement).execute(pool).await.unwrap();
        }
    }
    plan
}

#[test]
fn fresh_database_applies_latest_schema_version() {
    run(async {
        let pool = memory().await;
        let plan = bring_up_to_date(&pool).await;
        assert!(plan.failure.is_none());
        let after = catalog(&pool).await;
        let db = Database::from_rows(after.versions, vec![], vec![], vec![], vec![]).unwrap();

        assert_eq!(db.schema_version(), LATEST_SCHEMA_VERSION);
        assert!(after
            .tables
            .iter()
            .any(|name| name == "agentd_schema_migrations"));
    });
}

#[test]
fn legacy_database_is_adopted_without_losing_state() {
    run(async {
        let pool = memory().await;
        create_legacy_database(&pool).await;

        let plan = bring_up_to_date(&pool).await;
        assert!(plan.failure.is_none());
        let after = catalog(&pool).await;
        let columns = &after.node_columns;
        assert!(columns.iter().any(|column| column == "lease_id"));
        assert!(columns.iter().any(|column| column == "lease_owner"));
        assert!(columns.iter().any(|column| column == "lease_expires_at"));
        assert!(after.tables.iter().any(|name| name == "resource_locks"));

        let tasks: Vec<(String, String, String, String)> =
            sqlx::query_as("SELECT id, goal, context, created_at FROM global_tasks")
                .fetch_all(&pool)
                .await
                .unwrap();
        let nodes: Vec<(String, String, String, String, String, Option<String>, i64)> =
            sqlx::query_as(
                "SELECT id, task_id, status, dependencies, payload_schema, lease_id, updated_at FROM dag_nodes",
            )
            .fetch_all(&pool)
            .await
            .unwrap();
        let db = Database::from_rows(
            after.versions,
            tasks
                .into_iter()
                .map(|(id, goal, context, created_at)| GlobalTaskRow {
                    id,
                    goal,
                    context,
                    created_at,
                })
                .collect(),
            nodes
                .into_iter()
                .map(
                    |(id, task_id, status, dependencies, payload_schema, lease_id, updated_at)| {
                        DagNodeRow {
                            id,
                            task_id,
                            status,
                            dependencies,
                            payload_schema,
                            result_payload: None,
                            acquired_at: None,
                            lease_id,
                            lease_owner: None,
                            lease_expires_at: None,
                            updated_at,
                        }
                    },
                )
                .collect(),
            vec![],
            vec![],
        )
        .unwrap();
        assert_eq!(db.schema_version(), LATEST_SCHEMA_VERSION);
        let metrics = db.metrics(0);
        assert_eq!(metrics.total_tasks, 1);
        assert_eq!(metrics.total_nodes, 1);
    });
}

async fn create_legacy_database(pool: &SqlitePool) {
    for statement in [
        "CREATE TABLE global_tasks (
            id TEXT PRIMARY KEY NOT NULL,
            goal TEXT NOT NULL,
            context TEXT NOT NULL CHECK (json_valid(context)),
            created_at TEXT NOT NULL DEFAULT (strftime('%Y-%m-%dT%H:%M:%fZ', 'now'))
        )",
        "CREATE TABLE dag_nodes (
            id TEXT PRIMARY KEY NOT NULL,
            task_id TEXT NOT NULL REFERENCES global_tasks(id) ON DELETE CASCADE,
            status TEXT NOT NULL CHECK (status IN ('PENDING', 'RUNNING', 'COMPLETED', 'FAILED')),
            dependencies TEXT NOT NULL CHECK (json_valid(dependencies) AND json_type(dependencies) = 'array'),
            payload_schema TEXT NOT NULL CHECK (json_valid(payload_schema)),
            result_payload TEXT CHECK (result_payload IS NULL OR json_valid(result_payload)),
            acquired_at INTEGER,
            updated_at INTEGER NOT NULL DEFAULT (unixepoch('now')),
            UNIQUE(task_id, id)
        )",
        "CREATE TABLE event_journal (
            id TEXT PRIMARY KEY NOT NULL,
            task_id TEXT NOT NULL REFERENCES global_tasks(id) ON DELETE CASCADE,
            node_id TEXT NOT NULL REFERENCES dag_nodes(id) ON DELETE CASCADE,
            action_type TEXT NOT NULL,
            payload TEXT NOT NULL CHECK (json_valid(payload)),
            timestamp TEXT NOT NULL DEFAULT (strftime('%Y-%m-%dT%H:%M:%fZ', 'now'))
        )",
        "INSERT INTO global_tasks (id, goal, context) VALUES ('11111111-1111-4111-8111-111111111111', 'legacy task', '{}')",
        "INSERT INTO dag_nodes (id, task_id, status, dependencies, payload_schema) VALUES ('22222222-2222-4222-8222-222222222222', '11111111-1111-4111-8111-111111111111', 'PENDING', '[]', '{}')",
    ] {
        sqlx::query(statement).execute(pool).await.unwrap();
    }
}

#[test]
fn a_second_start_changes_nothing() {
    run(async {
        let pool = memory().await;
        bring_up_to_date(&pool).await;
        let before = catalog(&pool).await;
        let plan = bring_up_to_date(&pool).await;
        assert_eq!(plan.steps, vec![SchemaStep::CreateMigrationsTable]);
        let after = catalog(&pool).await;
        assert_eq!(before.tables, after.tables);
        assert_eq!(before.indexes, after.indexes);
        assert_eq!(before.versions, after.versions);
        assert_eq!(after.versions, vec![1, 2]);
    });
}

#[test]
fn an_incomplete_legacy_database_is_refused() {
    let plan = initialise_schema(&Catalog {
        tables: vec!["global_tasks".to_string(), "event_journal".to_string()],
        node_columns: vec![],
        indexes: vec![],
        versions: vec![],
    });
    assert_eq!(plan.steps, vec![SchemaStep::CreateMigrationsTable]);
    assert_eq!(
        plan.failure.unwrap(),
        "cannot adopt legacy database: missing table dag_nodes"
    );
}

#[test]
fn adoption_adds_only_what_is_missing() {
    let plan = initialise_schema(&Catalog {
        tables: vec![
            "event_journal".to_string(),
            "dag_nodes".to_string(),
            "global_tasks".to_string(),
        ],
        node_columns: vec!["id".to_string(), "lease_id".to_string()],
        indexes: vec![
            "idx_dag_nodes_task_status".to_string(),
            "idx_event_journal_task_node".to_string(),
        ],
        versions: vec![],
    });
    assert!(plan.failure.is_none());
    assert_eq!(
        plan.steps,
        vec![
            SchemaStep::CreateMigrationsTable,
            SchemaStep::AddColumn(LeaseColumn::LeaseOwner),
            SchemaStep::AddColumn(LeaseColumn::LeaseExpiresAt),
            SchemaStep::CreateIndex(CoreIndex::RunningTimeout),
            SchemaStep::CreateIndex(CoreIndex::LeaseTimeout),
            SchemaStep::AdoptBaseline,
            SchemaStep::Migrate(Migration::ResourceLocks),
        ]
    );
    assert_eq!(
        statements(SchemaStep::AddColumn(LeaseColumn::LeaseExpiresAt)),
        vec!["ALTER TABLE dag_nodes ADD COLUMN lease_expires_at INTEGER"]
    );
    assert_eq!(
        statements(SchemaStep::AddColumn(LeaseColumn::LeaseOwner)),
        vec!["ALTER TABLE dag_nodes ADD COLUMN lease_owner TEXT"]
    );
    assert_eq!(
        statements(SchemaStep::CreateIndex(CoreIndex::LeaseTimeout)),
        vec!["CREATE INDEX IF NOT EXISTS idx_dag_nodes_lease_timeout ON dag_nodes(status, lease_expires_at)"]
    );
}

#[test]
fn adoption_comes_after_what_was_planned() {
    let mut bare = Catalog {
        tables: vec!["global_tasks".to_string(), "dag_nodes".to_string()],
        node_columns: vec![],
        indexes: vec![],
        versions: vec![],
    };
    let mut steps = vec![SchemaStep::CreateMigrationsTable];
    assert_eq!(
        adopt_legacy_schema(&bare, &mut steps),
        Some("cannot adopt legacy database: missing table event_journal".to_string())
    );
    assert_eq!(steps, vec![SchemaStep::CreateMigrationsTable]);
    bare.tables.push("event_journal".to_string());
    assert_eq!(adopt_legacy_schema(&bare, &mut steps), None);
    assert_eq!(
        steps,
        vec![
            SchemaStep::CreateMigrationsTable,
            SchemaStep::AddColumn(LeaseColumn::LeaseId),
            SchemaStep::AddColumn(LeaseColumn::LeaseOwner),
            SchemaStep::AddColumn(LeaseColumn::LeaseExpiresAt),
            SchemaStep::CreateIndex(CoreIndex::TaskStatus),
            SchemaStep::CreateIndex(CoreIndex::RunningTimeout),
            SchemaStep::CreateIndex(CoreIndex::LeaseTimeout),
            SchemaStep::CreateIndex(CoreIndex::TaskNode),
            SchemaStep::AdoptBaseline,
        ]
    );
}

fn nested(depth: usize) -> String {
    format!("{}{}", "[".repeat(depth), "]".repeat(depth))
}

#[test]
fn the_tables_take_json_of_a_thousand_levels() {
    run(async {
        let pool = memory().await;
        bring_up_to_date(&pool).await;
        let insert = "INSERT INTO global_tasks (id, goal, context, created_at) VALUES ('t', 'g', ?1, 'now')";
        let objects = |depth: usize| format!("{}1{}", "{\"a\":".repeat(depth), "}".repeat(depth));
        for deep in [nested(1001), objects(1001)] {
            let refused = sqlx::query(insert).bind(deep).execute(&pool).await;
            assert_eq!(
                refused.unwrap_err().to_string(),
                "error returned from database: (code: 275) CHECK constraint failed: json_valid(context)"
            );
        }
        for taken in [objects(1000), nested(1000)] {
            sqlx::query("DELETE FROM global_tasks")
                .execute(&pool)
                .await
                .unwrap();
            sqlx::query(insert).bind(taken).execute(&pool).await.unwrap();
        }
        sqlx::query(
            "INSERT INTO dag_nodes (id, task_id, status, dependencies, payload_schema) VALUES ('n', 't', 'PENDING', '[]', '{}')",
        )
        .execute(&pool)
        .await
        .unwrap();
        let refused = sqlx::query("UPDATE dag_nodes SET result_payload = ?1")
            .bind(nested(1001))
            .execute(&pool)
            .await;
        assert_eq!(
            refused.unwrap_err().to_string(),
            "error returned from database: (code: 275) CHECK constraint failed: result_payload IS NULL OR json_valid(result_payload)"
        );
        let lock = "INSERT OR IGNORE INTO resource_locks (resource_key, lease_id, owner, metadata, acquired_at, lease_expires_at, updated_at) VALUES ('k', 'l', 'o', ?1, 0, 10, 0)";
        let skipped = sqlx::query(lock)
            .bind(nested(1001))
            .execute(&pool)
            .await
            .unwrap();
        assert_eq!(skipped.rows_affected(), 0);
        let missing = sqlx::query_scalar::<_, String>("SELECT owner FROM resource_locks")
            .fetch_one(&pool)
            .await;
        assert_eq!(
            missing.unwrap_err().to_string(),
            "no rows returned by a query that expected to return at least one row"
        );
    });
}

#[test]
fn a_recorded_migration_is_not_applied_again() {
    let plan = initialise_schema(&Catalog {
        tables: vec!["agentd_schema_migrations".to_string()],
        node_columns: vec![],
        indexes: vec![],
        versions: vec![1],
    });
    assert_eq!(
        plan.steps,
        vec![
            SchemaStep::CreateMigrationsTable,
            SchemaStep::Migrate(Migration::ResourceLocks)
        ]
    );
    assert_eq!(Migration::ResourceLocks.version(), 2);
    assert_eq!(Migration::InitialStateEngine.name(), "initial_state_engine");
}

#[test]
fn an_adopted_database_needs_only_its_record() {
    let plan = initialise_schema(&Catalog {
        tables: vec![
            "global_tasks".to_string(),
            "dag_nodes".to_string(),
            "event_journal".to_string(),
        ],
        node_columns: vec![
            "lease_id".to_string(),
            "lease_owner".to_string(),
            "lease_expires_at".to_string(),
        ],
        indexes: vec![
            "idx_dag_nodes_task_status".to_string(),
            "idx_dag_nodes_running_timeout".to_string(),
            "idx_dag_nodes_lease_timeout".to_string(),
            "idx_event_journal_task_node".to_string(),
        ],
        versions: vec![],
    });
    assert!(plan.failure.is_none());
    assert_eq!(
        plan.steps,
        vec![
            SchemaStep::CreateMigrationsTable,
            SchemaStep::AdoptBaseline,
            SchemaStep::Migrate(Migration::ResourceLocks),
        ]
    );
    assert_eq!(
        statements(SchemaStep::AdoptBaseline),
        vec!["INSERT OR IGNORE INTO agentd_schema_migrations (version, name) VALUES (1, 'initial_state_engine')"]
    );
}
