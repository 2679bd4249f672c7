//! Whole convergences against a database in memory.

use std::future::Future;
use std::time::{Instant, SystemTime};

use turso_converge::bridge::needs_bridge;
use turso_converge::closing::Outcome;
use turso_converge::converge::{
    check_schema_given, combine_schema_parts, previous_schema, validation_error, Convergence,
    Session,
};
use turso_converge::data_migrations::data_version_to_store;
use turso_converge::diff::{compute_diff, normalize_for_hash};
use turso_converge::entry::{lease_expiry, lease_refresh_statement, refuses_writes_now};
use turso_converge::execute::{Execution, Run};

use turso_converge::hash::hash_schema;
use turso_converge::introspect::{
    batched_columns, columns_from_rows, is_internal_object, is_marked_unique, Catalog, ColumnRow,
    IndexRows, KeyRow, Probes, SnapshotCache, TableColumnRow, TableRows, TriggerRow, ViewRow,
};
use turso_converge::plan::generate_plan;
use turso_converge::script::{Action, Reply};
use turso_converge::work::version_from;
use turso_converge::{
    CIMap, Capabilities, ColumnInfo, ConvergeMode, ConvergeOptions, ConvergePolicy,
    DataMigration, DestructiveChangeSet, Duration, Failpoint, MigrateError, MigrationPlan,
    SchemaSnapshot,
};

// ---------------------------------------------------------------------------
// The database
// ---------------------------------------------------------------------------

fn wait<F: Future>(work: F) -> F::Output {
    tokio::runtime::Builder::new_current_thread()
        .enable_all()
        .build()
        .unwrap()
        .block_on(work)
}

async fn empty_db() -> (turso::Database, turso::Connection) {
    let db = turso::Builder::new_local(":memory:")
        .experimental_index_method(true)
        .experimental_materialized_views(true)
        .experimental_triggers(true)
        .build()
        .await
        .unwrap();
    let conn = db.connect().unwrap();
    (db, conn)
}

fn epoch_secs() -> u64 {
    SystemTime::now()
        .duration_since(SystemTime::UNIX_EPOCH)
        .unwrap()
        .as_secs()
}

fn quoted(name: &str) -> String {
    name.replace('\'', "''")
}

fn column_row(row: &turso::Row, from: usize) -> Result<ColumnRow, turso::Error> {
    Ok(ColumnRow {
        name: row.get(from)?,
        col_type: row.get(from + 1)?,
        notnull: row.get(from + 2)?,
        default_value: row.get(from + 3)?,
        pk: row.get(from + 4)?,
        hidden: row.get(from + 5).unwrap_or(0),
    })
}

async fn all_columns(conn: &turso::Connection) -> Result<Vec<TableColumnRow>, turso::Error> {
    let mut rows = conn
        .query(
            "SELECT m.name, p.name, p.type, p.\"notnull\", p.dflt_value, p.pk, p.hidden \
             FROM sqlite_schema m \
             JOIN pragma_table_xinfo(m.name) p \
             WHERE m.type = 'table' \
               AND m.name NOT LIKE 'sqlite_%' \
               AND m.name != '_schema_meta' \
               AND m.name NOT LIKE '_converge_new_%' \
             ORDER BY m.name, p.cid",
            (),
        )
        .await?;
    let mut out = Vec::new();
    while let Some(row) = rows.next().await? {
        out.push(TableColumnRow {
            table_name: row.get(0)?,
            column: column_row(&row, 1)?,
        });
    }
    Ok(out)
}

async fn table_columns(
    conn: &turso::Connection,
    table: &str,
) -> Result<Vec<ColumnInfo>, turso::Error> {
    let mut rows = conn
        .query(format!("PRAGMA table_xinfo('{}')", quoted(table)), ())
        .await?;
    let mut out = Vec::new();
    while let Some(row) = rows.next().await? {
        out.push(column_row(&row, 1)?);
    }
    Ok(columns_from_rows(&out))
}

async fn table_keys(conn: &turso::Connection, table: &str) -> Result<Vec<KeyRow>, turso::Error> {
    let mut rows = conn
        .query(format!("PRAGMA foreign_key_list('{}')", quoted(table)), ())
        .await?;
    let mut out = Vec::new();
    while let Some(row) = rows.next().await? {
        out.push(KeyRow {
            id: row.get(0)?,
            to_table: row.get(2)?,
            from_column: row.get(3)?,
            to_column: row.get(4)?,
            on_update: row.get(5).unwrap_or_else(|_| "NO ACTION".to_string()),
            on_delete: row.get(6).unwrap_or_else(|_| "NO ACTION".to_string()),
        });
    }
    Ok(out)
}

async fn index_columns(conn: &turso::Connection, index: &str) -> Result<Vec<String>, turso::Error> {
    let mut rows = conn
        .query(format!("PRAGMA index_info('{}')", quoted(index)), ())
        .await?;
    let mut out = Vec::new();
    while let Some(row) = rows.next().await? {
        out.push(row.get(2)?);
    }
    Ok(out)
}

async fn index_marks(conn: &turso::Connection, table: &str) -> Vec<(String, i64)> {
    let mut out = Vec::new();
    if let Ok(mut rows) = conn
        .query(format!("PRAGMA index_list('{}')", quoted(table)), ())
        .await
    {
        while let Ok(Some(row)) = rows.next().await {
            out.push((row.get(1).unwrap_or_default(), row.get(2).unwrap_or(0)));
        }
    }
    out
}

async fn snapshot_of(conn: &turso::Connection) -> Result<SchemaSnapshot, turso::Error> {
    let mut catalog = Catalog {
        tables: Vec::new(),
        indexes: Vec::new(),
        views: Vec::new(),
        triggers: Vec::new(),
    };
    let mut rows = conn
        .query(
            "SELECT type, name, tbl_name, sql FROM sqlite_schema \
             WHERE sql IS NOT NULL ORDER BY name",
            (),
        )
        .await?;
    let mut objects: Vec<(String, String, String, String)> = Vec::new();
    while let Some(row) = rows.next().await? {
        objects.push((row.get(0)?, row.get(1)?, row.get(2)?, row.get(3)?));
    }
    let batch = all_columns(conn).await.unwrap_or_default();
    for (kind, name, table_name, sql) in objects {
        if is_internal_object(&name) {
            continue;
        }
        match kind.as_str() {
            "table" => {
                let columns = match batched_columns(&batch, &name) {
                    Some(columns) => columns,
                    None => table_columns(conn, &name).await?,
                };
                let keys = table_keys(conn, &name).await.unwrap_or_default();
                catalog.tables.push(TableRows {
                    name,
                    sql,
                    columns,
                    keys,
                });
            }
            "index" => {
                let columns = index_columns(conn, &name).await.unwrap_or_default();
                let is_unique = is_marked_unique(&index_marks(conn, &table_name).await, &name);
                catalog.indexes.push(IndexRows {
                    name,
                    table_name,
                    sql,
                    is_unique,
                    columns,
                });
            }
            "view" => catalog.views.push(ViewRow { name, sql }),
            "trigger" => catalog.triggers.push(TriggerRow {
                name,
                table_name,
                sql,
            }),
            _ => {}
        }
    }
    Ok(SchemaSnapshot::from_catalog(catalog))
}

async fn snapshot_of_sql(schema_sql: &str) -> Result<SchemaSnapshot, turso::Error> {
    let (_db, conn) = empty_db().await;
    conn.execute_batch(schema_sql).await?;
    snapshot_of(&conn).await
}

async fn works(conn: &turso::Connection, sql: &str) -> bool {
    conn.execute_batch(sql).await.is_ok()
}

async fn detect(conn: &turso::Connection) -> Result<Capabilities, turso::Error> {
    let mut rows = conn.query("SELECT sqlite_version()", ()).await?;
    let version: Option<String> = match rows.next().await? {
        Some(row) => Some(row.get(0)?),
        None => None,
    };
    drop(rows);
    let fts = works(conn, "CREATE TABLE IF NOT EXISTS _cap_probe_fts (x TEXT)").await
        && works(conn, "CREATE INDEX _cap_probe_idx ON _cap_probe_fts USING fts (x);").await;
    works(conn, "DROP INDEX IF EXISTS _cap_probe_idx;").await;
    works(conn, "DROP TABLE IF EXISTS _cap_probe_fts").await;
    let vector = works(conn, "CREATE TABLE IF NOT EXISTS _cap_probe_vec (v vector32(1))").await;
    works(conn, "DROP TABLE IF EXISTS _cap_probe_vec").await;
    works(conn, "CREATE TABLE IF NOT EXISTS _cap_probe_mv (x TEXT)").await;
    let materialized_views = works(
        conn,
        "CREATE MATERIALIZED VIEW IF NOT EXISTS _cap_probe_matview AS SELECT x FROM _cap_probe_mv",
    )
    .await;
    works(conn, "DROP VIEW IF EXISTS _cap_probe_matview").await;
    works(conn, "DROP TABLE IF EXISTS _cap_probe_mv").await;
    let without_rowid = works(
        conn,
        "CREATE TABLE IF NOT EXISTS _cap_probe_wr (id INTEGER PRIMARY KEY) WITHOUT ROWID",
    )
    .await;
    works(conn, "DROP TABLE IF EXISTS _cap_probe_wr").await;
    let generated_columns = works(
        conn,
        "CREATE TABLE IF NOT EXISTS _cap_probe_gen (x INTEGER, y INTEGER GENERATED ALWAYS AS (x * 2) STORED)",
    )
    .await;
    works(conn, "DROP TABLE IF EXISTS _cap_probe_gen").await;
    let triggers = works(conn, "CREATE TABLE IF NOT EXISTS _cap_probe_trg (x INTEGER)").await
        && works(
            conn,
            "CREATE TRIGGER _cap_probe_trigger AFTER INSERT ON _cap_probe_trg BEGIN SELECT 1; END",
        )
        .await;
    works(conn, "DROP TRIGGER IF EXISTS _cap_probe_trigger").await;
    works(conn, "DROP TABLE IF EXISTS _cap_probe_trg").await;
    Ok(Capabilities::from_probes(
        &version,
        &Probes {
            fts,
            vector,
            materialized_views,
            without_rowid,
            generated_columns,
            triggers,
        },
    ))
}

// ---------------------------------------------------------------------------
// Requests
// ---------------------------------------------------------------------------

type HookFn = dyn Fn(&DestructiveChangeSet) -> Result<(), String>;

async fn get_meta(conn: &turso::Connection, key: &str) -> Option<String> {
    read_meta(conn, key).await.unwrap()
}

async fn read_meta(conn: &turso::Connection, key: &str) -> Result<Option<String>, turso::Error> {
    let mut rows = conn
        .query("SELECT value FROM _schema_meta WHERE key = ?1", [key])
        .await?;
    match rows.next().await? {
        Some(row) => Ok(Some(row.get(0)?)),
        None => Ok(None),
    }
}

async fn read_number(conn: &turso::Connection, sql: &str) -> Result<Option<i64>, turso::Error> {
    let mut rows = conn.query(sql, ()).await?;
    match rows.next().await? {
        Some(row) => Ok(Some(row.get(0)?)),
        None => Ok(None),
    }
}

async fn refresh(conn: &turso::Connection, lease: &str) -> Result<u64, turso::Error> {
    let now = epoch_secs();
    conn.execute(
        lease_refresh_statement(),
        (lease_expiry(now).to_string(), now as i64, lease.to_string()),
    )
    .await
}

fn done(r: Result<u64, turso::Error>) -> Reply {
    match r {
        Ok(n) => Reply::Done(n),
        Err(e) => Reply::Failed(e.to_string()),
    }
}

fn schema(r: Result<SchemaSnapshot, turso::Error>) -> Reply {
    match r {
        Ok(s) => Reply::Schema(s),
        Err(e) => Reply::Failed(e.to_string()),
    }
}

fn number(r: Result<Option<i64>, turso::Error>) -> Reply {
    match r {
        Ok(n) => Reply::Number(n),
        Err(e) => Reply::Failed(e.to_string()),
    }
}

async fn perform(
    conn: &turso::Connection,
    schema_sql: &str,
    hook: &HookFn,
    action: &Action,
) -> Reply {
    match action {
        Action::Execute(sql) => done(conn.execute(sql, ()).await),
        Action::Batch(sql) => done(conn.execute_batch(sql).await.map(|_| 0)),
        Action::GetMeta(key) => match read_meta(conn, key).await {
            Ok(value) => Reply::Text(value),
            Err(e) => Reply::Failed(e.to_string()),
        },
        Action::SetMeta { key, value } => done(
            conn.execute(
                "INSERT OR REPLACE INTO _schema_meta (key, value) VALUES (?1, ?2)",
                [key.as_str(), value.as_str()],
            )
            .await,
        ),
        Action::DeleteMeta(key) => done(
            conn.execute("DELETE FROM _schema_meta WHERE key = ?1", [key.as_str()])
                .await,
        ),
        Action::QueryOnly => number(read_number(conn, "PRAGMA query_only").await),
        Action::SchemaCounter => number(read_number(conn, "PRAGMA schema_version").await),
        Action::StoredVersion => {
            number(read_number(conn, "SELECT version FROM schema_version LIMIT 1").await)
        }
        Action::ForeignKeyCheck => match conn.query("PRAGMA foreign_key_check", ()).await {
            Ok(mut rows) => match rows.next().await {
                Ok(Some(row)) => Reply::Violation(Some((
                    row.get(0).unwrap_or_default(),
                    row.get(1).unwrap_or(0),
                    row.get(2).unwrap_or_default(),
                ))),
                _ => Reply::Violation(None),
            },
            Err(e) => Reply::Failed(e.to_string()),
        },
        Action::RefreshLease(lease) => done(refresh(conn, lease).await),
        Action::Probe => match detect(conn).await {
            Ok(caps) => Reply::Capabilities(caps),
            Err(e) => Reply::Failed(e.to_string()),
        },
        Action::LoadDesired => schema(snapshot_of_sql(schema_sql).await),
        Action::LoadActual => schema(snapshot_of(conn).await),
        Action::Backup { .. } => Reply::Done(0),
        Action::Hook(changes) => match hook(changes) {
            Ok(()) => Reply::Done(0),
            Err(message) => Reply::Rejected(message),
        },
    }
}

async fn converge_with_hook(
    conn: &turso::Connection,
    schema_sql: &str,
    options: &ConvergeOptions,
    hook: &HookFn,
) -> Outcome {
    let start = Instant::now();
    let mut now = Session::start(schema_sql, options.clone(), 4711);
    loop {
        match now {
            Convergence::Ask(session) => {
                let reply = perform(conn, schema_sql, hook, session.request()).await;
                let elapsed = Duration {
                    secs: start.elapsed().as_secs(),
                    nanos: start.elapsed().subsec_nanos(),
                };
                now = session.advance(reply, epoch_secs(), elapsed);
            }
            Convergence::Ended(outcome) => {
                assert!(conn.is_autocommit().unwrap(), "a transaction is left open");
                return outcome;
            }
        }
    }
}

async fn converge_with_options(
    conn: &turso::Connection,
    schema_sql: &str,
    options: &ConvergeOptions,
) -> Outcome {
    converge_with_hook(conn, schema_sql, options, &|_| Ok(())).await
}

async fn converge(conn: &turso::Connection, schema_sql: &str) -> Result<(), MigrateError> {
    let options = ConvergeOptions {
        policy: ConvergePolicy::permissive(),
        ..Default::default()
    };
    converge_with_options(conn, schema_sql, &options)
        .await
        .map(|_| ())
}

async fn execute_plan_with_timeout(
    conn: &turso::Connection,
    plan: &MigrationPlan,
    timeout: Duration,
    lease: &str,
) -> Result<(), MigrateError> {
    let mut run = Execution::start(plan, timeout, lease);
    loop {
        match run {
            Run::Ask(execution) => {
                let reply = perform(conn, "", &|_| Ok(()), execution.request()).await;
                run = execution.advance(reply);
            }
            Run::Ended(result) => {
                assert!(conn.is_autocommit().unwrap(), "a transaction is left open");
                return result;
            }
        }
    }
}

async fn execute_plan(conn: &turso::Connection, plan: &MigrationPlan) -> Result<(), MigrateError> {
    execute_plan_with_timeout(conn, plan, Duration::from_secs(5), "").await
}

async fn schema_version(conn: &turso::Connection) -> Result<u32, MigrateError> {
    match read_number(conn, "SELECT version FROM schema_version LIMIT 1").await {
        Ok(stored) => version_from(stored),
        Err(e) => Err(MigrateError::Turso(e.to_string())),
    }
}

async fn validate_schema(schema_sql: &str) -> Result<(), MigrateError> {
    check_schema_given(schema_sql)?;
    let (_db, conn) = empty_db().await;
    match conn.execute_batch(schema_sql).await {
        Ok(_) => Ok(()),
        Err(e) => Err(validation_error(&MigrateError::Turso(e.to_string()))),
    }
}

async fn rollback_to_previous(conn: &turso::Connection) -> Result<(), MigrateError> {
    conn.execute(
        "CREATE TABLE IF NOT EXISTS _schema_meta (key TEXT PRIMARY KEY, value TEXT NOT NULL)",
        (),
    )
    .await
    .unwrap();
    let previous = previous_schema(get_meta(conn, "previous_schema_sql").await)?;
    converge(conn, &previous).await
}

async fn converge_multi_with_options(
    conn: &turso::Connection,
    parts: &[&str],
    options: &ConvergeOptions,
) -> Outcome {
    let owned: Vec<String> = parts.iter().map(|p| p.to_string()).collect();
    converge_with_options(conn, &combine_schema_parts(&owned), options).await
}

async fn converge_multi(conn: &turso::Connection, parts: &[&str]) -> Result<(), MigrateError> {
    let options = ConvergeOptions {
        policy: ConvergePolicy::permissive(),
        ..Default::default()
    };
    converge_multi_with_options(conn, parts, &options)
        .await
        .map(|_| ())
}

async fn is_read_only(conn: &turso::Connection) -> bool {
    refuses_writes_now(read_number(conn, "PRAGMA query_only").await.unwrap())
}

async fn bridge_legacy(conn: &turso::Connection) -> Result<bool, turso::Error> {
    let found = read_number(
        conn,
        "SELECT count(*) FROM sqlite_schema WHERE type = 'table' AND name = '_turso_migrations'",
    )
    .await?;
    let marker = read_meta(conn, "legacy_complete").await?;
    if !needs_bridge(found != Some(0), &marker) {
        return Ok(false);
    }
    conn.execute(
        "INSERT OR REPLACE INTO _schema_meta (key, value) VALUES ('legacy_complete', '1')",
        (),
    )
    .await?;
    Ok(true)
}

async fn converge_data(conn: &turso::Connection) -> Result<(), turso::Error> {
    if let Some(version) = data_version_to_store(&read_meta(conn, "data_version").await?) {
        conn.execute(
            "INSERT OR REPLACE INTO _schema_meta (key, value) VALUES ('data_version', ?1)",
            [version.to_string()],
        )
        .await?;
    }
    Ok(())
}

fn next_lcg(seed: &mut u64) -> u64 {
    *seed = seed.wrapping_mul(6364136223846793005).wrapping_add(1);
    *seed
}

fn schema_from_seed(seed: u64) -> String {
    let mut s = seed;
    let mut cols = vec!["id TEXT PRIMARY KEY".to_string()];
    for name in ["title", "status", "owner", "tag", "note"] {
        if next_lcg(&mut s) % 2 == 0 {
            cols.push(format!("{name} TEXT"));
        }
    }

    if cols.len() == 1 {
        cols.push("payload TEXT".to_string());
    }

    let mut sql = format!(
        "CREATE TABLE fuzz ({});\nCREATE TABLE schema_version (version INTEGER NOT NULL, updated_at TEXT NOT NULL);",
        cols.join(", ")
    );

    let candidates: Vec<String> = cols
        .iter()
        .filter_map(|c| c.split_whitespace().next())
        .filter(|name| !name.eq_ignore_ascii_case("id"))
        .map(ToString::to_string)
        .collect();

    if !candidates.is_empty() && next_lcg(&mut s) % 2 == 0 {
        let idx = (next_lcg(&mut s) as usize) % candidates.len();
        let col = &candidates[idx];
        sql.push_str(&format!("\nCREATE INDEX idx_fuzz_{col} ON fuzz({col});"));
    }

    sql
}

fn names<V>(map: &CIMap<V>) -> Vec<String> {
    (0..map.len()).map(|i| map.key_at(i).to_string()).collect()
}

fn values<V>(map: &CIMap<V>) -> Vec<&V> {
    (0..map.len()).map(|i| map.value_at(i)).collect()
}

fn non_transactional_plan(stmt: &str) -> MigrationPlan {
    MigrationPlan {
        new_tables: Vec::new(),
        altered_tables: Vec::new(),
        rebuilt_tables: Vec::new(),
        new_indexes: Vec::new(),
        changed_indexes: Vec::new(),
        new_views: Vec::new(),
        changed_views: Vec::new(),
        transactional_stmts: Vec::new(),
        non_transactional_stmts: vec![stmt.to_string()],
    }
}

fn test_schema() -> &'static str {
    "
    CREATE TABLE documents (
        id TEXT PRIMARY KEY,
        workspace TEXT NOT NULL,
        title TEXT NOT NULL,
        body_text TEXT,
        summary TEXT,
        source_url TEXT,
        author TEXT COLLATE NOCASE,
        language TEXT,
        content_type TEXT NOT NULL DEFAULT 'text/plain',
        word_count INTEGER NOT NULL DEFAULT 0,
        is_archived INTEGER NOT NULL DEFAULT 0,
        embedding vector32(4),
        created_at TEXT NOT NULL DEFAULT 'now',
        updated_at TEXT
    );
    CREATE TABLE document_tags (
        document_id TEXT NOT NULL REFERENCES documents(id) ON DELETE CASCADE,
        tag TEXT NOT NULL,
        PRIMARY KEY (document_id, tag)
    );
    CREATE TABLE links (
        id TEXT PRIMARY KEY,
        from_id TEXT NOT NULL REFERENCES documents(id),
        to_id TEXT NOT NULL REFERENCES documents(id)
    );
    CREATE TABLE entities (
        id TEXT PRIMARY KEY,
        kind TEXT NOT NULL CHECK (kind IN ('person', 'place')),
        name TEXT NOT NULL,
        description TEXT
    );
    CREATE TABLE entity_document_links (
        entity_id TEXT NOT NULL REFERENCES entities(id),
        document_id TEXT NOT NULL REFERENCES documents(id),
        PRIMARY KEY (entity_id, document_id)
    );
    CREATE TABLE entity_links (
        id INTEGER PRIMARY KEY AUTOINCREMENT,
        from_id TEXT REFERENCES entities(id),
        to_id TEXT REFERENCES entities(id)
    );
    CREATE TABLE cache_manifest (key TEXT PRIMARY KEY, size INTEGER);
    CREATE TABLE sync_state (id TEXT PRIMARY KEY, cursor TEXT, at INTEGER DEFAULT 0);
    CREATE TABLE settings (key TEXT PRIMARY KEY, value TEXT NOT NULL);
    CREATE TABLE schema_version (version INTEGER NOT NULL, updated_at TEXT NOT NULL);
    CREATE INDEX idx_docs_workspace ON documents(workspace);
    CREATE INDEX idx_docs_created ON documents(created_at) WHERE is_archived = 0;
    CREATE INDEX idx_tags_tag ON document_tags(tag);
    CREATE INDEX idx_links_from ON links(from_id);
    CREATE INDEX idx_links_to ON links(to_id);
    CREATE UNIQUE INDEX idx_entities_name ON entities(kind, name);
    CREATE INDEX idx_sync_at ON sync_state(at);
    CREATE INDEX idx_docs_fts ON documents USING fts (title, body_text);
    CREATE INDEX idx_entities_fts ON entities USING fts (name, description);
    CREATE VIEW live_documents AS SELECT id, title FROM documents WHERE is_archived = 0;
    CREATE VIEW live_titles AS SELECT title FROM live_documents;
    CREATE VIEW tagged AS SELECT document_id FROM document_tags;
    CREATE MATERIALIZED VIEW mv_type_counts AS
        SELECT content_type, count(*) AS n FROM documents GROUP BY content_type;
    CREATE TRIGGER touch_settings AFTER INSERT ON settings
        BEGIN INSERT INTO sync_state (id) VALUES ('settings'); END;
    "
}

#[test]
fn converge_fresh_db() {
    wait(async {
        let (_db, conn) = empty_db().await;
        converge(&conn, test_schema()).await.unwrap();

        let snap = snapshot_of(&conn).await.unwrap();
        assert_eq!(snap.tables.len(), 10);

        let normalized = normalize_for_hash(test_schema());
        let expected_hash = blake3::hash(normalized.as_bytes()).to_hex().to_string();
        let hash = get_meta(&conn, "schema_hash").await;
        assert_eq!(hash.as_deref(), Some(expected_hash.as_str()));
    });
}

#[test]
fn fresh_db_has_schema_version_1() {
    wait(async {
        let (_db, conn) = empty_db().await;
        converge(&conn, test_schema()).await.unwrap();
        let version = schema_version(&conn).await.unwrap();
        assert_eq!(
            version, 1,
            "fresh database should start at schema version 1"
        );
    });
}

#[test]
fn no_op_convergence_does_not_increment_version() {
    wait(async {
        let (_db, conn) = empty_db().await;
        converge(&conn, test_schema()).await.unwrap();
        let v1 = schema_version(&conn).await.unwrap();
        converge(&conn, test_schema()).await.unwrap();
        let v2 = schema_version(&conn).await.unwrap();
        assert_eq!(v1, v2, "no-op convergence should not increment version");
    });
}

#[test]
fn ddl_convergence_increments_version() {
    wait(async {
        let (_db, conn) = empty_db().await;
        converge(&conn, test_schema()).await.unwrap();
        let v1 = schema_version(&conn).await.unwrap();
        assert_eq!(v1, 1);

        conn.execute("DROP TABLE settings", ()).await.unwrap();
        conn.execute(
            "INSERT OR REPLACE INTO _schema_meta (key, value) VALUES ('schema_hash', 'force_reconverge')",
            (),
        )
        .await
        .unwrap();

        converge(&conn, test_schema()).await.unwrap();
        let v2 = schema_version(&conn).await.unwrap();
        assert_eq!(
            v2, 2,
            "convergence with DDL changes should increment version"
        );
    });
}

#[test]
fn converge_converge_is_idempotent() {
    wait(async {
        let (_db, conn) = empty_db().await;
        converge(&conn, test_schema()).await.unwrap();
        converge(&conn, test_schema()).await.unwrap();
        let snap = snapshot_of(&conn).await.unwrap();
        assert_eq!(snap.tables.len(), 10);
    });
}

#[test]
fn fast_path_skips_diff() {
    wait(async {
        let (_db, conn) = empty_db().await;
        converge(&conn, test_schema()).await.unwrap();
        converge(&conn, test_schema()).await.unwrap();

        let normalized = normalize_for_hash(test_schema());
        let expected_hash = blake3::hash(normalized.as_bytes()).to_hex().to_string();
        let hash = get_meta(&conn, "schema_hash").await;
        assert_eq!(hash.as_deref(), Some(expected_hash.as_str()));
    });
}

#[test]
fn crash_recovery_forces_slow_path() {
    wait(async {
        let (_db, conn) = empty_db().await;
        converge(&conn, test_schema()).await.unwrap();

        conn.execute(
            "INSERT OR REPLACE INTO _schema_meta (key, value) VALUES ('migration_in_progress', '1')",
            (),
        )
        .await
        .unwrap();

        converge(&conn, test_schema()).await.unwrap();
        let in_progress = get_meta(&conn, "migration_in_progress").await;
        assert!(in_progress.is_none());
    });
}

#[test]
fn schema_meta_table_bootstrapped() {
    wait(async {
        let (_db, conn) = empty_db().await;
        converge(&conn, test_schema()).await.unwrap();

        let mut rows = conn
            .query(
                "SELECT name FROM sqlite_schema WHERE type = 'table' AND name = '_schema_meta'",
                (),
            )
            .await
            .unwrap();
        assert!(
            rows.next().await.unwrap().is_some(),
            "_schema_meta table should exist"
        );
    });
}

#[test]
fn hash_mismatch_triggers_convergence() {
    wait(async {
        let (_db, conn) = empty_db().await;

        conn.execute(
            "CREATE TABLE IF NOT EXISTS _schema_meta (key TEXT PRIMARY KEY, value TEXT NOT NULL)",
            (),
        )
        .await
        .unwrap();
        conn.execute(
            "INSERT INTO _schema_meta (key, value) VALUES ('schema_hash', 'fake_old_hash')",
            (),
        )
        .await
        .unwrap();

        converge(&conn, test_schema()).await.unwrap();

        let snap = snapshot_of(&conn).await.unwrap();
        assert_eq!(snap.tables.len(), 10);

        let normalized = normalize_for_hash(test_schema());
        let expected_hash = blake3::hash(normalized.as_bytes()).to_hex().to_string();
        let hash = get_meta(&conn, "schema_hash").await;
        assert_eq!(hash.as_deref(), Some(expected_hash.as_str()));
    });
}

#[test]
fn policy_blocks_table_drops() {
    wait(async {
        let (_db, conn) = empty_db().await;
        converge(&conn, test_schema()).await.unwrap();

        conn.execute("CREATE TABLE extra_table (id TEXT PRIMARY KEY)", ())
            .await
            .unwrap();
        conn.execute(
            "INSERT OR REPLACE INTO _schema_meta (key, value) VALUES ('schema_hash', 'force')",
            (),
        )
        .await
        .unwrap();

        let options = ConvergeOptions {
            policy: ConvergePolicy::default(),
            ..Default::default()
        };
        let result = converge_with_options(&conn, test_schema(), &options).await;
        assert!(result.is_err(), "Safe policy should block table drops");
        let msg = result.unwrap_err().to_string();
        assert!(msg.contains("policy violation"), "Got: {msg}");
    });
}

#[test]
fn permissive_policy_allows_drops() {
    wait(async {
        let (_db, conn) = empty_db().await;
        converge(&conn, test_schema()).await.unwrap();

        conn.execute("CREATE TABLE extra_table (id TEXT PRIMARY KEY)", ())
            .await
            .unwrap();
        conn.execute(
            "INSERT OR REPLACE INTO _schema_meta (key, value) VALUES ('schema_hash', 'force')",
            (),
        )
        .await
        .unwrap();

        let options = ConvergeOptions {
            policy: ConvergePolicy::permissive(),
            ..Default::default()
        };
        let report = converge_with_options(&conn, test_schema(), &options)
            .await
            .unwrap();
        assert_eq!(report.tables_dropped, 1);
        assert_eq!(report.mode, ConvergeMode::SlowPath);
    });
}

#[test]
fn dry_run_returns_plan_without_executing() {
    wait(async {
        let (_db, conn) = empty_db().await;

        let options = ConvergeOptions {
            policy: ConvergePolicy::permissive(),
            dry_run: true,
            ..Default::default()
        };
        let report = converge_with_options(&conn, test_schema(), &options)
            .await
            .unwrap();
        assert_eq!(report.mode, ConvergeMode::DryRun);
        assert!(report.tables_created > 0);
        assert!(
            !report.plan_sql.is_empty(),
            "Dry-run should return plan SQL"
        );

        let snap = snapshot_of(&conn).await.unwrap();
        assert!(snap.tables.is_empty(), "Dry-run should NOT execute DDL");

        let in_progress = get_meta(&conn, "migration_in_progress").await;
        let phase = get_meta(&conn, "migration_phase").await;
        assert!(
            in_progress.is_none(),
            "Dry-run should not leave migration_in_progress set"
        );
        assert!(
            phase.is_none(),
            "Dry-run should not leave migration_phase set"
        );
    });
}

#[test]
fn converge_with_options_returns_report() {
    wait(async {
        let (_db, conn) = empty_db().await;
        let options = ConvergeOptions {
            policy: ConvergePolicy::permissive(),
            ..Default::default()
        };
        let report = converge_with_options(&conn, test_schema(), &options)
            .await
            .unwrap();
        assert_eq!(report.mode, ConvergeMode::SlowPath);
        assert_eq!(report.tables_created, 10);
        assert!(report.had_changes());

        let report2 = converge_with_options(&conn, test_schema(), &options)
            .await
            .unwrap();
        assert_eq!(report2.mode, ConvergeMode::FastPath);
        assert!(!report2.had_changes());
    });
}

#[test]
fn state_update_is_atomic() {
    wait(async {
        let (_db, conn) = empty_db().await;
        converge(&conn, test_schema()).await.unwrap();

        let hash = get_meta(&conn, "schema_hash").await;
        assert!(hash.is_some(), "Hash should be stored");
        let in_progress = get_meta(&conn, "migration_in_progress").await;
        assert!(
            in_progress.is_none(),
            "migration_in_progress should be cleared"
        );
        let version = schema_version(&conn).await.unwrap();
        assert_eq!(version, 1);
    });
}

#[test]
fn drift_detection_forces_slow_path() {
    wait(async {
        let (_db, conn) = empty_db().await;
        let options = ConvergeOptions {
            policy: ConvergePolicy::permissive(),
            ..Default::default()
        };
        let r1 = converge_with_options(&conn, test_schema(), &options)
            .await
            .unwrap();
        assert_eq!(r1.mode, ConvergeMode::SlowPath);

        conn.execute("CREATE TABLE drift_table (id TEXT PRIMARY KEY)", ())
            .await
            .unwrap();

        let r2 = converge_with_options(&conn, test_schema(), &options)
            .await
            .unwrap();
        assert!(
            r2.mode == ConvergeMode::SlowPath,
            "Out-of-band DDL should trigger slow-path via drift detection, got {:?}",
            r2.mode
        );

        let snap = snapshot_of(&conn).await.unwrap();
        assert!(
            !snap.has_table("drift_table"),
            "Drift table should be dropped by convergence"
        );
    });
}

#[test]
fn rollback_to_previous_restores_prior_schema() {
    wait(async {
        let (_db, conn) = empty_db().await;

        let schema_v1 = "CREATE TABLE foo (id TEXT PRIMARY KEY, name TEXT NOT NULL);";
        let schema_v2 = "CREATE TABLE foo (id TEXT PRIMARY KEY, name TEXT NOT NULL, email TEXT);";

        converge(&conn, schema_v1).await.unwrap();
        converge(&conn, schema_v2).await.unwrap();

        rollback_to_previous(&conn).await.unwrap();

        let snap = snapshot_of(&conn).await.unwrap();
        let foo = snap.get_table("foo").unwrap();
        assert!(foo.columns.iter().any(|c| c.name == "name"));
        assert!(!foo.columns.iter().any(|c| c.name == "email"));
    });
}

#[test]
fn rollback_without_snapshot_errors() {
    wait(async {
        let (_db, conn) = empty_db().await;
        let err = rollback_to_previous(&conn).await.unwrap_err();
        let msg = err.to_string();
        assert!(msg.contains("No previous schema stored"), "Got: {msg}");
    });
}

#[test]
fn query_only_mode_returns_read_only_error() {
    wait(async {
        let (_db, conn) = empty_db().await;
        conn.execute("PRAGMA query_only = 1", ()).await.unwrap();

        let err = converge(&conn, test_schema()).await.unwrap_err();
        assert!(matches!(err, MigrateError::ReadOnly));

        conn.execute("PRAGMA query_only = 0", ()).await.unwrap();
    });
}

#[test]
fn failpoint_injection_aborts_then_recovery_succeeds() {
    wait(async {
        let (_db, conn) = empty_db().await;

        let options = ConvergeOptions {
            policy: ConvergePolicy::permissive(),
            failpoint: Some(Failpoint::BeforeExecute),
            ..Default::default()
        };

        let err = converge_with_options(&conn, test_schema(), &options)
            .await
            .unwrap_err();
        assert!(matches!(
            err,
            MigrateError::InjectedFailure { failpoint } if failpoint == "before_execute"
        ));

        let in_progress = get_meta(&conn, "migration_in_progress").await;
        let phase = get_meta(&conn, "migration_phase").await;
        assert!(
            in_progress.is_none(),
            "pre-DDL failure should clear migration_in_progress"
        );
        assert!(
            phase.is_none(),
            "pre-DDL failure should clear migration_phase"
        );

        converge(&conn, test_schema()).await.unwrap();
        let snap = snapshot_of(&conn).await.unwrap();
        assert_eq!(snap.tables.len(), 10);
    });
}

#[test]
fn failpoint_after_execute_preserves_crash_recovery_state() {
    wait(async {
        let (_db, conn) = empty_db().await;

        let options = ConvergeOptions {
            policy: ConvergePolicy::permissive(),
            failpoint: Some(Failpoint::AfterExecuteBeforeState),
            ..Default::default()
        };

        let err = converge_with_options(&conn, test_schema(), &options)
            .await
            .unwrap_err();
        assert!(matches!(
            err,
            MigrateError::InjectedFailure { failpoint } if failpoint == "after_execute_before_state"
        ));

        let in_progress = get_meta(&conn, "migration_in_progress").await;
        assert_eq!(in_progress.as_deref(), Some("1"));

        let recover_options = ConvergeOptions {
            policy: ConvergePolicy::permissive(),
            ..Default::default()
        };
        let report = converge_with_options(&conn, test_schema(), &recover_options)
            .await
            .unwrap();
        assert_eq!(report.mode, ConvergeMode::CrashRecovery);

        let cleared = get_meta(&conn, "migration_in_progress").await;
        assert!(cleared.is_none());
    });
}

#[test]
fn schema_version_overflow_returns_error() {
    wait(async {
        let (_db, conn) = empty_db().await;

        conn.execute(
            "CREATE TABLE IF NOT EXISTS schema_version (version INTEGER NOT NULL, updated_at TEXT NOT NULL)",
            (),
        )
        .await
        .unwrap();
        conn.execute("DELETE FROM schema_version", ())
            .await
            .unwrap();
        conn.execute(
            "INSERT INTO schema_version (version, updated_at) VALUES (?1, ?2)",
            (u32::MAX as i64, "0"),
        )
        .await
        .unwrap();

        let schema = "\
            CREATE TABLE foo (id TEXT PRIMARY KEY);\n\
            CREATE TABLE schema_version (version INTEGER NOT NULL, updated_at TEXT NOT NULL);";

        let err = converge(&conn, schema).await.unwrap_err();
        assert!(
            err.to_string().contains("schema_version overflow"),
            "expected overflow error, got: {err:?}"
        );
    });
}

#[test]
fn data_migrations_apply_once() {
    wait(async {
        let (_db, conn) = empty_db().await;
        let schema = "CREATE TABLE users (id TEXT PRIMARY KEY, name TEXT NOT NULL);";

        let options = ConvergeOptions {
            policy: ConvergePolicy::permissive(),
            data_migrations: vec![DataMigration {
                id: "seed-users".to_string(),
                statements: vec![
                    "INSERT INTO users (id, name) VALUES ('u1', 'alice')".to_string(),
                    "INSERT INTO users (id, name) VALUES ('u2', 'bob')".to_string(),
                ],
            }],
            ..Default::default()
        };

        let r1 = converge_with_options(&conn, schema, &options)
            .await
            .unwrap();
        assert_eq!(r1.data_migrations_applied, 1);

        let mut rows = conn.query("SELECT COUNT(*) FROM users", ()).await.unwrap();
        let row = rows.next().await.unwrap().unwrap();
        let count: i64 = row.get(0).unwrap();
        assert_eq!(count, 2);

        let r2 = converge_with_options(&conn, schema, &options)
            .await
            .unwrap();
        assert_eq!(r2.data_migrations_applied, 0);

        let mut rows2 = conn.query("SELECT COUNT(*) FROM users", ()).await.unwrap();
        let row2 = rows2.next().await.unwrap().unwrap();
        let count2: i64 = row2.get(0).unwrap();
        assert_eq!(count2, 2);
    });
}

#[test]
fn data_migrations_run_even_when_schema_hash_matches() {
    wait(async {
        let (_db, conn) = empty_db().await;
        let schema = "CREATE TABLE users (id TEXT PRIMARY KEY, name TEXT NOT NULL);";

        converge(&conn, schema).await.unwrap();

        let options = ConvergeOptions {
            policy: ConvergePolicy::permissive(),
            data_migrations: vec![DataMigration {
                id: "seed-after-hash".to_string(),
                statements: vec!["INSERT INTO users (id, name) VALUES ('u3', 'charlie')".to_string()],
            }],
            ..Default::default()
        };

        let report = converge_with_options(&conn, schema, &options)
            .await
            .unwrap();
        assert_eq!(report.mode, ConvergeMode::SlowPath);
        assert_eq!(report.data_migrations_applied, 1);

        let mut rows = conn
            .query("SELECT name FROM users WHERE id = 'u3'", ())
            .await
            .unwrap();
        let row = rows.next().await.unwrap().unwrap();
        let name: String = row.get(0).unwrap();
        assert_eq!(name, "charlie");
    });
}

#[test]
fn policy_max_tables_affected_blocks_when_exceeded() {
    wait(async {
        let (_db, conn) = empty_db().await;
        let options = ConvergeOptions {
            policy: ConvergePolicy {
                max_tables_affected: Some(1),
                ..ConvergePolicy::permissive()
            },
            ..Default::default()
        };

        let err = converge_with_options(&conn, test_schema(), &options)
            .await
            .unwrap_err();
        match err {
            MigrateError::PolicyViolation { message, .. } => {
                assert!(
                    message.to_lowercase().contains("table") && message.contains("max_tables_affected"),
                    "Expected tables-affected message, got: {message}"
                );
            }
            other => panic!("expected PolicyViolation, got: {other:?}"),
        }
    });
}

#[test]
fn policy_max_tables_affected_allows_when_within_limit() {
    wait(async {
        let (_db, conn) = empty_db().await;
        let schema = "CREATE TABLE only_one (id TEXT PRIMARY KEY);";
        let options = ConvergeOptions {
            policy: ConvergePolicy {
                max_tables_affected: Some(5),
                ..ConvergePolicy::permissive()
            },
            ..Default::default()
        };

        let report = converge_with_options(&conn, schema, &options)
            .await
            .unwrap();
        assert_eq!(report.tables_created, 1);
    });
}

#[test]
fn policy_blocks_column_drops() {
    wait(async {
        let (_db, conn) = empty_db().await;
        let schema_v1 = "CREATE TABLE foo (id TEXT PRIMARY KEY, name TEXT, extra TEXT);";
        converge(&conn, schema_v1).await.unwrap();

        let schema_v2 = "CREATE TABLE foo (id TEXT PRIMARY KEY, name TEXT);";
        conn.execute(
            "INSERT OR REPLACE INTO _schema_meta (key, value) VALUES ('schema_hash', 'force')",
            (),
        )
        .await
        .unwrap();

        let options = ConvergeOptions {
            policy: ConvergePolicy {
                allow_column_drops: false,
                ..ConvergePolicy::permissive()
            },
            ..Default::default()
        };
        let err = converge_with_options(&conn, schema_v2, &options)
            .await
            .unwrap_err();
        match err {
            MigrateError::PolicyViolation {
                blocked_operations, ..
            } => {
                assert!(
                    blocked_operations
                        .iter()
                        .any(|op| op.contains("DROP COLUMN")),
                    "Should mention DROP COLUMN, got: {blocked_operations:?}"
                );
            }
            other => panic!("expected PolicyViolation, got: {other:?}"),
        }
    });
}

#[test]
fn policy_blocks_table_rebuilds() {
    wait(async {
        let (_db, conn) = empty_db().await;
        let schema_v1 = "CREATE TABLE foo (id TEXT PRIMARY KEY, val TEXT);";
        converge(&conn, schema_v1).await.unwrap();

        let schema_v2 = "CREATE TABLE foo (id TEXT PRIMARY KEY, val INTEGER);";
        conn.execute(
            "INSERT OR REPLACE INTO _schema_meta (key, value) VALUES ('schema_hash', 'force')",
            (),
        )
        .await
        .unwrap();

        let options = ConvergeOptions {
            policy: ConvergePolicy {
                allow_table_rebuilds: false,
                ..ConvergePolicy::permissive()
            },
            ..Default::default()
        };
        let err = converge_with_options(&conn, schema_v2, &options)
            .await
            .unwrap_err();
        match err {
            MigrateError::PolicyViolation {
                blocked_operations, ..
            } => {
                assert!(
                    blocked_operations.iter().any(|op| op.contains("REBUILD")),
                    "Should mention REBUILD, got: {blocked_operations:?}"
                );
            }
            other => panic!("expected PolicyViolation, got: {other:?}"),
        }
    });
}

#[test]
fn data_migration_empty_id_errors() {
    wait(async {
        let (_db, conn) = empty_db().await;
        let schema = "CREATE TABLE users (id TEXT PRIMARY KEY);";
        let options = ConvergeOptions {
            policy: ConvergePolicy::permissive(),
            data_migrations: vec![DataMigration {
                id: "".to_string(),
                statements: vec!["INSERT INTO users VALUES ('x')".to_string()],
            }],
            ..Default::default()
        };

        let err = converge_with_options(&conn, schema, &options)
            .await
            .unwrap_err();
        match err {
            MigrateError::Schema(msg) => {
                assert!(
                    msg.to_lowercase().contains("empty") || msg.to_lowercase().contains("id"),
                    "Expected empty-ID error, got: {msg}"
                );
            }
            other => panic!("expected Schema error for empty ID, got: {other:?}"),
        }
    });
}

#[test]
fn data_migration_statement_failure_rolls_back() {
    wait(async {
        let (_db, conn) = empty_db().await;
        let schema = "CREATE TABLE users (id TEXT PRIMARY KEY, name TEXT NOT NULL);";
        let options = ConvergeOptions {
            policy: ConvergePolicy::permissive(),
            data_migrations: vec![DataMigration {
                id: "bad-migration".to_string(),
                statements: vec!["INSERT INTO users (id) VALUES ('no-name')".to_string()],
            }],
            ..Default::default()
        };

        let err = converge_with_options(&conn, schema, &options)
            .await
            .unwrap_err();
        assert!(
            matches!(err, MigrateError::Statement { .. }),
            "expected Statement error, got: {err:?}"
        );

        let marker = get_meta(&conn, "data_migration:bad-migration").await;
        assert!(
            marker.is_none(),
            "Failed data migration should not be recorded"
        );
    });
}

#[test]
fn failpoint_before_introspect_aborts_cleanly() {
    wait(async {
        let (_db, conn) = empty_db().await;
        let options = ConvergeOptions {
            policy: ConvergePolicy::permissive(),
            failpoint: Some(Failpoint::BeforeIntrospect),
            ..Default::default()
        };

        let err = converge_with_options(&conn, test_schema(), &options)
            .await
            .unwrap_err();
        assert!(
            matches!(err, MigrateError::InjectedFailure { ref failpoint } if failpoint == "before_introspect"),
            "got: {err:?}"
        );

        let snap = snapshot_of(&conn).await.unwrap();
        assert!(snap.tables.is_empty(), "No tables should be created");
    });
}

#[test]
fn autoincrement_rebuild_plan_includes_sequence_save_restore() {
    wait(async {
        let (_db, conn) = empty_db().await;
        conn.execute(
            "CREATE TABLE items (id INTEGER PRIMARY KEY AUTOINCREMENT, name TEXT, old_col TEXT)",
            (),
        )
        .await
        .unwrap();
        conn.execute("CREATE INDEX idx_items_old ON items(old_col)", ())
            .await
            .unwrap();

        let desired_sql = "CREATE TABLE items (id INTEGER PRIMARY KEY AUTOINCREMENT, name TEXT);";
        let desired = snapshot_of_sql(desired_sql).await.unwrap();
        let actual = snapshot_of(&conn).await.unwrap();

        let actual_items = actual.get_table("items").unwrap();
        assert!(
            actual_items.has_autoincrement,
            "Should detect AUTOINCREMENT on actual table"
        );

        let diff = compute_diff(&desired, &actual);
        assert!(
            diff.tables_to_rebuild.contains(&"items".to_string()),
            "Indexed column removal should trigger rebuild"
        );

        let plan = generate_plan(&diff, &desired, &actual).unwrap();
        let all_sql = plan.transactional_stmts.join("\n").to_lowercase();
        assert!(
            all_sql.contains("autoincrement_seq_items"),
            "Rebuild plan should save/restore AUTOINCREMENT sequence"
        );
        assert!(
            all_sql.contains("sqlite_sequence"),
            "Rebuild plan should reference sqlite_sequence"
        );
    });
}

#[test]
fn collate_change_triggers_rebuild() {
    wait(async {
        let (_db, conn) = empty_db().await;
        conn.execute(
            "CREATE TABLE users (id TEXT PRIMARY KEY, email TEXT COLLATE NOCASE)",
            (),
        )
        .await
        .unwrap();
        conn.execute("INSERT INTO users VALUES ('1', 'Alice@Example.com')", ())
            .await
            .unwrap();

        let desired_sql = "CREATE TABLE users (id TEXT PRIMARY KEY, email TEXT COLLATE BINARY);";
        let desired = snapshot_of_sql(desired_sql).await.unwrap();
        let actual = snapshot_of(&conn).await.unwrap();
        let diff = compute_diff(&desired, &actual);
        assert!(
            diff.tables_to_rebuild.contains(&"users".to_string()),
            "COLLATE change should trigger rebuild: {diff:?}"
        );

        let plan = generate_plan(&diff, &desired, &actual).unwrap();
        execute_plan(&conn, &plan).await.unwrap();

        let mut rows = conn
            .query("SELECT email FROM users WHERE id = '1'", ())
            .await
            .unwrap();
        let row = rows.next().await.unwrap().unwrap();
        let email: String = row.get(0).unwrap();
        assert_eq!(email, "Alice@Example.com");
    });
}

#[test]
fn drop_column_execution_removes_column() {
    wait(async {
        let (_db, conn) = empty_db().await;
        conn.execute(
            "CREATE TABLE foo (id TEXT PRIMARY KEY, keep TEXT, remove_me TEXT)",
            (),
        )
        .await
        .unwrap();
        conn.execute("INSERT INTO foo VALUES ('1', 'kept', 'gone')", ())
            .await
            .unwrap();

        let desired_sql = "CREATE TABLE foo (id TEXT PRIMARY KEY, keep TEXT);";
        let desired = snapshot_of_sql(desired_sql).await.unwrap();
        let actual = snapshot_of(&conn).await.unwrap();
        let diff = compute_diff(&desired, &actual);
        assert!(
            diff.columns_to_drop
                .iter()
                .any(|(t, c)| t == "foo" && c == "remove_me"),
            "Should detect column drop: {diff:?}"
        );
        assert!(
            diff.tables_to_rebuild.is_empty(),
            "Eligible column should use DROP COLUMN, not rebuild"
        );

        let plan = generate_plan(&diff, &desired, &actual).unwrap();
        execute_plan(&conn, &plan).await.unwrap();

        let after = snapshot_of(&conn).await.unwrap();
        let foo = after.get_table("foo").unwrap();
        assert!(!foo.columns.iter().any(|c| c.name == "remove_me"));
        assert!(foo.columns.iter().any(|c| c.name == "keep"));

        let mut rows = conn
            .query("SELECT keep FROM foo WHERE id = '1'", ())
            .await
            .unwrap();
        let row = rows.next().await.unwrap().unwrap();
        assert_eq!(row.get::<String>(0).unwrap(), "kept");
    });
}

#[test]
fn migration_busy_when_lease_held() {
    wait(async {
        let (_db, conn) = empty_db().await;

        conn.execute(
            "CREATE TABLE IF NOT EXISTS _schema_meta (key TEXT PRIMARY KEY, value TEXT NOT NULL)",
            (),
        )
        .await
        .unwrap();
        let future_expiry = std::time::SystemTime::now()
            .duration_since(std::time::UNIX_EPOCH)
            .unwrap()
            .as_secs()
            + 300;
        conn.execute(
            "INSERT OR REPLACE INTO _schema_meta (key, value) VALUES ('migration_owner', 'other_process_999')",
            (),
        )
        .await
        .unwrap();
        conn.execute(
            &format!(
                "INSERT OR REPLACE INTO _schema_meta (key, value) VALUES ('migration_lease_until', '{future_expiry}')"
            ),
            (),
        )
        .await
        .unwrap();

        let schema = "CREATE TABLE foo (id TEXT PRIMARY KEY);";
        let err = converge(&conn, schema).await.unwrap_err();
        match err {
            MigrateError::MigrationBusy {
                owner,
                remaining_secs,
            } => {
                assert!(
                    owner.contains("other_process"),
                    "Should report owner, got: {owner}"
                );
                assert!(remaining_secs > 0, "Should have time remaining");
            }
            other => panic!("expected MigrationBusy, got: {other:?}"),
        }
    });
}

#[test]
fn schema_meta_table_never_dropped() {
    wait(async {
        let (_db, conn) = empty_db().await;
        converge(&conn, test_schema()).await.unwrap();

        let minimal = "CREATE TABLE only_one (id TEXT PRIMARY KEY);";
        converge(&conn, minimal).await.unwrap();

        let mut rows = conn
            .query(
                "SELECT 1 FROM sqlite_schema WHERE type='table' AND name='_schema_meta'",
                (),
            )
            .await
            .unwrap();
        assert!(
            rows.next().await.unwrap().is_some(),
            "_schema_meta must never be dropped"
        );
    });
}

#[test]
fn strict_table_detected_and_preserved() {
    wait(async {
        let (_db, conn) = empty_db().await;
        let schema = "CREATE TABLE strict_tbl (id TEXT PRIMARY KEY, val INTEGER) STRICT;";
        converge(&conn, schema).await.unwrap();

        let snap = snapshot_of(&conn).await.unwrap();
        let tbl = snap.get_table("strict_tbl").unwrap();
        assert!(tbl.is_strict, "Should detect STRICT table");

        converge(&conn, schema).await.unwrap();
    });
}

#[test]
fn dump_output_round_trips_through_converge() {
    wait(async {
        let (_db, conn) = empty_db().await;
        let schema = "\
            CREATE TABLE users (id TEXT PRIMARY KEY, name TEXT NOT NULL);\n\
            CREATE TABLE posts (id TEXT PRIMARY KEY, user_id TEXT REFERENCES users(id), title TEXT);\n\
            CREATE INDEX idx_posts_user ON posts(user_id);\n\
            CREATE TABLE schema_version (version INTEGER NOT NULL, updated_at TEXT NOT NULL);";

        converge(&conn, schema).await.unwrap();

        let snap = snapshot_of(&conn).await.unwrap();
        let dumped = snap.to_sql();

        let (_db2, conn2) = empty_db().await;
        converge(&conn2, &dumped).await.unwrap();

        let snap2 = snapshot_of(&conn2).await.unwrap();
        assert!(snap2.has_table("users"));
        assert!(snap2.has_table("posts"));
        assert!(snap2.has_index("idx_posts_user"));

        let desired = snapshot_of_sql(schema).await.unwrap();
        let diff = compute_diff(&desired, &snap2);
        assert!(
            diff.is_empty(),
            "Dump → converge should produce identical schema, got diff: {diff:?}"
        );
    });
}

#[test]
fn single_convergence_handles_create_drop_rebuild() {
    wait(async {
        let (_db, conn) = empty_db().await;
        let schema_v1 = "\
            CREATE TABLE keep (id TEXT PRIMARY KEY, val TEXT);\n\
            CREATE TABLE drop_me (id TEXT PRIMARY KEY);\n\
            CREATE TABLE rebuild_me (id TEXT PRIMARY KEY, name TEXT);\n\
            CREATE TABLE schema_version (version INTEGER NOT NULL, updated_at TEXT NOT NULL);";
        converge(&conn, schema_v1).await.unwrap();
        conn.execute("INSERT INTO keep VALUES ('1', 'a')", ())
            .await
            .unwrap();
        conn.execute("INSERT INTO rebuild_me VALUES ('r1', 'alice')", ())
            .await
            .unwrap();

        let schema_v2 = "\
            CREATE TABLE keep (id TEXT PRIMARY KEY, val TEXT);\n\
            CREATE TABLE new_tbl (id TEXT PRIMARY KEY, data TEXT);\n\
            CREATE TABLE rebuild_me (id TEXT PRIMARY KEY, name INTEGER);\n\
            CREATE TABLE schema_version (version INTEGER NOT NULL, updated_at TEXT NOT NULL);";
        conn.execute(
            "INSERT OR REPLACE INTO _schema_meta (key, value) VALUES ('schema_hash', 'force')",
            (),
        )
        .await
        .unwrap();

        let options = ConvergeOptions {
            policy: ConvergePolicy::permissive(),
            ..Default::default()
        };
        let report = converge_with_options(&conn, schema_v2, &options)
            .await
            .unwrap();

        assert_eq!(report.tables_created, 1, "new_tbl created");
        assert_eq!(report.tables_dropped, 1, "drop_me dropped");
        assert_eq!(report.tables_rebuilt, 1, "rebuild_me rebuilt");

        let snap = snapshot_of(&conn).await.unwrap();
        assert!(snap.has_table("keep"));
        assert!(snap.has_table("new_tbl"));
        assert!(snap.has_table("rebuild_me"));
        assert!(!snap.has_table("drop_me"));
    });
}

#[test]
fn capabilities_detect_fts_and_materialized_views() {
    wait(async {
        let (_db, conn) = empty_db().await;
        let caps = detect(&conn).await.unwrap();
        assert!(caps.has_fts_module, "Test DB should have FTS support");
        assert!(
            caps.has_materialized_views,
            "Test DB should have materialized view support"
        );
        assert!(caps.supports_drop_column, "Should support DROP COLUMN");
        assert!(caps.supports_rename_column, "Should support RENAME COLUMN");
    });
}

#[test]
fn unsupported_fts_returns_error() {
    wait(async {
        let db = turso::Builder::new_local(":memory:").build().await.unwrap();
        let conn = db.connect().unwrap();

        let schema = "\
            CREATE TABLE docs (id TEXT PRIMARY KEY, title TEXT);\n\
            CREATE INDEX idx_fts ON docs USING fts (title);";

        let err = converge(&conn, schema).await.unwrap_err();
        match err {
            MigrateError::UnsupportedFeature(msg) => {
                assert!(msg.contains("FTS"), "Should mention FTS: {msg}");
            }
            other => panic!("expected UnsupportedFeature, got: {other:?}"),
        }
    });
}

#[test]
fn noop_mode_when_hash_mismatches_but_schema_matches() {
    wait(async {
        let (_db, conn) = empty_db().await;
        let schema = "CREATE TABLE foo (id TEXT PRIMARY KEY, val TEXT);\n\
                      CREATE TABLE schema_version (version INTEGER NOT NULL, updated_at TEXT NOT NULL);";
        let options = ConvergeOptions {
            policy: ConvergePolicy::permissive(),
            ..Default::default()
        };
        converge_with_options(&conn, schema, &options)
            .await
            .unwrap();

        conn.execute(
            "INSERT OR REPLACE INTO _schema_meta (key, value) VALUES ('schema_hash', 'stale')",
            (),
        )
        .await
        .unwrap();

        let report = converge_with_options(&conn, schema, &options)
            .await
            .unwrap();
        assert_eq!(
            report.mode,
            ConvergeMode::NoOp,
            "Hash mismatch but no actual changes should produce NoOp"
        );
        assert!(!report.had_changes());
    });
}

#[test]
fn validate_schema_empty_string_errors() {
    wait(async {
        let err = validate_schema("").await.unwrap_err();
        match err {
            MigrateError::Schema(msg) => assert!(msg.contains("empty")),
            other => panic!("expected Schema error, got: {other:?}"),
        }
    });
}

#[test]
fn lease_cleaned_up_after_convergence() {
    wait(async {
        let (_db, conn) = empty_db().await;
        let schema = "CREATE TABLE foo (id TEXT PRIMARY KEY);\n\
                      CREATE TABLE schema_version (version INTEGER NOT NULL, updated_at TEXT NOT NULL);";
        converge(&conn, schema).await.unwrap();

        let owner = get_meta(&conn, "migration_owner").await;
        let lease_until = get_meta(&conn, "migration_lease_until").await;
        assert!(
            owner.is_none(),
            "migration_owner should be cleared: {owner:?}"
        );
        assert!(
            lease_until.is_none(),
            "migration_lease_until should be cleared: {lease_until:?}"
        );
    });
}

#[test]
fn multiple_data_migrations_partially_applied() {
    wait(async {
        let (_db, conn) = empty_db().await;
        let schema = "CREATE TABLE users (id TEXT PRIMARY KEY, name TEXT NOT NULL);";

        let first_run = ConvergeOptions {
            policy: ConvergePolicy::permissive(),
            data_migrations: vec![DataMigration {
                id: "seed-alice".to_string(),
                statements: vec!["INSERT INTO users VALUES ('a', 'alice')".to_string()],
            }],
            ..Default::default()
        };
        let r1 = converge_with_options(&conn, schema, &first_run)
            .await
            .unwrap();
        assert_eq!(r1.data_migrations_applied, 1);

        let second_run = ConvergeOptions {
            policy: ConvergePolicy::permissive(),
            data_migrations: vec![
                DataMigration {
                    id: "seed-alice".to_string(),
                    statements: vec!["INSERT INTO users VALUES ('a', 'alice')".to_string()],
                },
                DataMigration {
                    id: "seed-bob".to_string(),
                    statements: vec!["INSERT INTO users VALUES ('b', 'bob')".to_string()],
                },
            ],
            ..Default::default()
        };
        let r2 = converge_with_options(&conn, schema, &second_run)
            .await
            .unwrap();
        assert_eq!(
            r2.data_migrations_applied, 1,
            "Only seed-bob should be applied"
        );

        let mut rows = conn.query("SELECT COUNT(*) FROM users", ()).await.unwrap();
        let row = rows.next().await.unwrap().unwrap();
        let count: i64 = row.get(0).unwrap();
        assert_eq!(count, 2);
    });
}

#[test]
fn schema_version_returns_error_on_fresh_db() {
    wait(async {
        let (_db, conn) = empty_db().await;
        let result = schema_version(&conn).await;
        assert!(
            result.is_err(),
            "schema_version on fresh DB (no table) should error"
        );
    });
}

#[test]
fn slow_path_report_has_empty_plan_sql() {
    wait(async {
        let (_db, conn) = empty_db().await;
        let options = ConvergeOptions {
            policy: ConvergePolicy::permissive(),
            ..Default::default()
        };
        let report = converge_with_options(&conn, test_schema(), &options)
            .await
            .unwrap();
        assert_eq!(report.mode, ConvergeMode::SlowPath);
        assert!(
            report.plan_sql.is_empty(),
            "Non-dry-run should have empty plan_sql"
        );
    });
}

#[test]
fn snapshot_get_methods_return_none_for_missing() {
    wait(async {
        let snap = snapshot_of_sql("CREATE TABLE foo (id TEXT PRIMARY KEY);")
            .await
            .unwrap();
        assert!(snap.get_table("nonexistent").is_none());
        assert!(snap.get_index("nonexistent").is_none());
        assert!(snap.get_view("nonexistent").is_none());
        assert!(snap.get_trigger("nonexistent").is_none());
        assert!(!snap.has_table("nonexistent"));
        assert!(!snap.has_index("nonexistent"));
        assert!(!snap.has_view("nonexistent"));
        assert!(!snap.has_trigger("nonexistent"));
    });
}

#[test]
fn full_convergence_cycle_preserves_data_integrity() {
    wait(async {
        let (_db, conn) = empty_db().await;
        let schema = "\
            CREATE TABLE users (id TEXT PRIMARY KEY, name TEXT NOT NULL, email TEXT);\n\
            CREATE TABLE posts (id TEXT PRIMARY KEY, user_id TEXT NOT NULL REFERENCES users(id), title TEXT NOT NULL);\n\
            CREATE INDEX idx_posts_user ON posts(user_id);\n\
            CREATE TABLE schema_version (version INTEGER NOT NULL, updated_at TEXT NOT NULL);";

        converge(&conn, schema).await.unwrap();

        conn.execute(
            "INSERT INTO users VALUES ('u1', 'Alice', 'alice@test.com')",
            (),
        )
        .await
        .unwrap();
        conn.execute("INSERT INTO users VALUES ('u2', 'Bob', 'bob@test.com')", ())
            .await
            .unwrap();
        conn.execute("INSERT INTO posts VALUES ('p1', 'u1', 'Hello World')", ())
            .await
            .unwrap();

        let schema_v2 = "\
            CREATE TABLE users (id TEXT PRIMARY KEY, name TEXT NOT NULL, email TEXT, bio TEXT);\n\
            CREATE TABLE posts (id TEXT PRIMARY KEY, user_id TEXT NOT NULL REFERENCES users(id), title TEXT NOT NULL);\n\
            CREATE INDEX idx_posts_user ON posts(user_id);\n\
            CREATE TABLE schema_version (version INTEGER NOT NULL, updated_at TEXT NOT NULL);";

        converge(&conn, schema_v2).await.unwrap();

        let mut user_rows = conn
            .query("SELECT id, name, email FROM users ORDER BY id", ())
            .await
            .unwrap();
        let u1 = user_rows.next().await.unwrap().unwrap();
        assert_eq!(u1.get::<String>(0).unwrap(), "u1");
        assert_eq!(u1.get::<String>(1).unwrap(), "Alice");
        assert_eq!(u1.get::<String>(2).unwrap(), "alice@test.com");
        let u2 = user_rows.next().await.unwrap().unwrap();
        assert_eq!(u2.get::<String>(0).unwrap(), "u2");

        let mut post_rows = conn
            .query("SELECT id, user_id, title FROM posts", ())
            .await
            .unwrap();
        let p1 = post_rows.next().await.unwrap().unwrap();
        assert_eq!(p1.get::<String>(0).unwrap(), "p1");
        assert_eq!(p1.get::<String>(1).unwrap(), "u1");
        assert_eq!(p1.get::<String>(2).unwrap(), "Hello World");

        let v = schema_version(&conn).await.unwrap();
        assert_eq!(v, 2, "Two DDL convergences = version 2");
    });
}

#[test]
fn index_actually_works_after_convergence() {
    wait(async {
        let (_db, conn) = empty_db().await;
        let schema = "\
            CREATE TABLE items (id TEXT PRIMARY KEY, category TEXT NOT NULL);\n\
            CREATE INDEX idx_items_cat ON items(category);\n\
            CREATE TABLE schema_version (version INTEGER NOT NULL, updated_at TEXT NOT NULL);";

        converge(&conn, schema).await.unwrap();

        for i in 0..100 {
            conn.execute(
                &format!("INSERT INTO items VALUES ('id_{i}', 'cat_{}')", i % 5),
                (),
            )
            .await
            .unwrap();
        }

        let mut rows = conn
            .query(
                "EXPLAIN QUERY PLAN SELECT * FROM items WHERE category = 'cat_0'",
                (),
            )
            .await
            .unwrap();
        let row = rows.next().await.unwrap().unwrap();
        let detail: String = row.get(3).unwrap();
        assert!(
            detail.to_lowercase().contains("index") || detail.to_lowercase().contains("idx_items_cat"),
            "Query should use index: {detail}"
        );
    });
}

#[test]
fn unsupported_without_rowid_returns_error() {
    wait(async {
        let (_db, conn) = empty_db().await;
        let schema = "CREATE TABLE wr (id INTEGER PRIMARY KEY) WITHOUT ROWID;";
        let mut caps = detect(&conn).await.unwrap();
        caps.supports_without_rowid = false;
        let options = ConvergeOptions {
            policy: ConvergePolicy::permissive(),
            capabilities: Some(caps),
            ..Default::default()
        };
        let err = converge_with_options(&conn, schema, &options)
            .await
            .unwrap_err();
        match err {
            MigrateError::UnsupportedFeature(msg) => {
                assert!(
                    msg.contains("WITHOUT ROWID"),
                    "Should mention WITHOUT ROWID: {msg}"
                );
            }
            other => panic!("expected UnsupportedFeature, got: {other:?}"),
        }
    });
}

#[test]
fn unsupported_generated_returns_error() {
    wait(async {
        let (_db, conn) = empty_db().await;
        let schema = "CREATE TABLE gen (x INTEGER, y INTEGER GENERATED ALWAYS AS (x * 2) STORED);";
        let mut caps = detect(&conn).await.unwrap();
        caps.supports_generated_columns = false;
        let options = ConvergeOptions {
            policy: ConvergePolicy::permissive(),
            capabilities: Some(caps),
            ..Default::default()
        };
        let err = converge_with_options(&conn, schema, &options)
            .await
            .unwrap_err();
        match err {
            MigrateError::UnsupportedFeature(msg) => {
                assert!(msg.contains("GENERATED"), "Should mention GENERATED: {msg}");
            }
            other => panic!("expected UnsupportedFeature, got: {other:?}"),
        }
    });
}

#[test]
fn capabilities_detect_triggers_and_engine_features() {
    wait(async {
        let (_db, conn) = empty_db().await;
        let caps = detect(&conn).await.unwrap();
        assert!(
            caps.has_triggers,
            "Test DB (all experimental flags) should have trigger support"
        );
    });
}

#[test]
fn capabilities_override_skips_detection() {
    wait(async {
        let (_db, conn) = empty_db().await;
        let schema = "\
            CREATE TABLE docs (id TEXT PRIMARY KEY, title TEXT);\n\
            CREATE INDEX idx_fts ON docs USING fts (title);";

        let caps = Capabilities {
            has_fts_module: false,
            ..Capabilities::default()
        };
        let options = ConvergeOptions {
            policy: ConvergePolicy::permissive(),
            capabilities: Some(caps),
            ..Default::default()
        };

        let err = converge_with_options(&conn, schema, &options)
            .await
            .unwrap_err();
        match err {
            MigrateError::UnsupportedFeature(msg) => {
                assert!(msg.contains("FTS"), "Should mention FTS: {msg}");
            }
            other => panic!("Override should block FTS even on capable DB, got: {other:?}"),
        }
    });
}

#[test]
fn rebuild_with_data_succeeds() {
    wait(async {
        let (_db, conn) = empty_db().await;
        let v1 = "CREATE TABLE items (id TEXT PRIMARY KEY, val TEXT);";
        converge(&conn, v1).await.unwrap();
        conn.execute("INSERT INTO items VALUES ('1', 'a')", ())
            .await
            .unwrap();
        conn.execute("INSERT INTO items VALUES ('2', 'b')", ())
            .await
            .unwrap();

        let v2 = "CREATE TABLE items (id TEXT PRIMARY KEY, val INTEGER);";
        conn.execute(
            "INSERT OR REPLACE INTO _schema_meta (key, value) VALUES ('schema_hash', 'force')",
            (),
        )
        .await
        .unwrap();

        let options = ConvergeOptions {
            policy: ConvergePolicy::permissive(),
            ..Default::default()
        };
        let report = converge_with_options(&conn, v2, &options).await.unwrap();
        assert_eq!(report.tables_rebuilt, 1);
    });
}

#[test]
fn fresh_db_convergence() {
    wait(async {
        let (_db, conn) = empty_db().await;
        let desired = snapshot_of_sql(test_schema())
            .await
            .unwrap();
        let actual = snapshot_of(&conn).await.unwrap();
        let diff = compute_diff(&desired, &actual);
        let plan = generate_plan(&diff, &desired, &actual).unwrap();
        assert!(!plan.is_empty());

        let docs_pos = plan
            .transactional_stmts
            .iter()
            .position(|s| s.to_lowercase().starts_with("create table documents"));
        let tags_pos = plan
            .transactional_stmts
            .iter()
            .position(|s| s.to_lowercase().starts_with("create table document_tags"));
        assert!(docs_pos.is_some());
        assert!(tags_pos.is_some());
        assert!(docs_pos < tags_pos);

        execute_plan(&conn, &plan).await.unwrap();

        let after = snapshot_of(&conn).await.unwrap();
        assert_eq!(after.tables.len(), desired.tables.len());
    });
}

#[test]
fn idempotent_convergence() {
    wait(async {
        let (_db, conn) = empty_db().await;
        let desired = snapshot_of_sql(test_schema())
            .await
            .unwrap();

        let actual = snapshot_of(&conn).await.unwrap();
        let diff = compute_diff(&desired, &actual);
        let plan = generate_plan(&diff, &desired, &actual).unwrap();
        execute_plan(&conn, &plan).await.unwrap();

        let actual2 = snapshot_of(&conn).await.unwrap();
        let diff2 = compute_diff(&desired, &actual2);
        assert!(diff2.is_empty(), "Second diff should be empty: {diff2:?}");
    });
}

#[test]
fn add_column_execution() {
    wait(async {
        let (_db, conn) = empty_db().await;
        conn.execute(
            "CREATE TABLE foo (id TEXT PRIMARY KEY, name TEXT NOT NULL)",
            (),
        )
        .await
        .unwrap();

        let desired_sql = "CREATE TABLE foo (id TEXT PRIMARY KEY, name TEXT NOT NULL, extra TEXT);";
        let desired = snapshot_of_sql(desired_sql).await.unwrap();
        let actual = snapshot_of(&conn).await.unwrap();
        let diff = compute_diff(&desired, &actual);
        assert!(!diff.columns_to_add.is_empty());

        let plan = generate_plan(&diff, &desired, &actual).unwrap();
        execute_plan(&conn, &plan).await.unwrap();

        let after = snapshot_of(&conn).await.unwrap();
        let foo = after.get_table("foo").unwrap();
        assert!(foo.columns.iter().any(|c| c.name == "extra"));
    });
}

#[test]
fn rename_column_execution_preserves_data() {
    wait(async {
        let (_db, conn) = empty_db().await;
        conn.execute(
            "CREATE TABLE foo (id TEXT PRIMARY KEY, legacy_name TEXT NOT NULL)",
            (),
        )
        .await
        .unwrap();
        conn.execute("INSERT INTO foo VALUES ('1', 'alice')", ())
            .await
            .unwrap();

        let desired_sql = "CREATE TABLE foo (id TEXT PRIMARY KEY, display_name TEXT NOT NULL);";
        let desired = snapshot_of_sql(desired_sql).await.unwrap();
        let actual = snapshot_of(&conn).await.unwrap();
        let diff = compute_diff(&desired, &actual);
        assert_eq!(
            diff.columns_to_rename,
            vec![(
                "foo".to_string(),
                "legacy_name".to_string(),
                "display_name".to_string()
            )],
            "Expected rename diff, got: {diff:?}"
        );

        let plan = generate_plan(&diff, &desired, &actual).unwrap();
        execute_plan(&conn, &plan).await.unwrap();

        let mut rows = conn
            .query("SELECT id, display_name FROM foo ORDER BY id", ())
            .await
            .unwrap();
        let row = rows.next().await.unwrap().unwrap();
        assert_eq!(row.get::<String>(0).unwrap(), "1");
        assert_eq!(row.get::<String>(1).unwrap(), "alice");
    });
}

#[test]
fn table_rebuild_preserves_data() {
    wait(async {
        let (_db, conn) = empty_db().await;
        conn.execute(
            "CREATE TABLE foo (id TEXT PRIMARY KEY, name TEXT, legacy TEXT)",
            (),
        )
        .await
        .unwrap();
        conn.execute("INSERT INTO foo VALUES ('1', 'alice', 'old')", ())
            .await
            .unwrap();
        conn.execute("INSERT INTO foo VALUES ('2', 'bob', 'old')", ())
            .await
            .unwrap();

        let desired_sql = "CREATE TABLE foo (id TEXT PRIMARY KEY, name TEXT);";
        let desired = snapshot_of_sql(desired_sql).await.unwrap();
        let actual = snapshot_of(&conn).await.unwrap();
        let diff = compute_diff(&desired, &actual);
        assert!(
            !diff.columns_to_drop.is_empty() || !diff.tables_to_rebuild.is_empty(),
            "Should detect column removal via DROP COLUMN or rebuild"
        );

        let plan = generate_plan(&diff, &desired, &actual).unwrap();
        execute_plan(&conn, &plan).await.unwrap();

        let mut rows = conn
            .query("SELECT id, name FROM foo ORDER BY id", ())
            .await
            .unwrap();
        let row1 = rows.next().await.unwrap().unwrap();
        assert_eq!(row1.get::<String>(0).unwrap(), "1");
        assert_eq!(row1.get::<String>(1).unwrap(), "alice");
        let row2 = rows.next().await.unwrap().unwrap();
        assert_eq!(row2.get::<String>(0).unwrap(), "2");
        assert_eq!(row2.get::<String>(1).unwrap(), "bob");

        let after = snapshot_of(&conn).await.unwrap();
        let foo = after.get_table("foo").unwrap();
        assert!(!foo.columns.iter().any(|c| c.name == "legacy"));
    });
}

#[test]
fn rebuild_temp_table_name_uses_unique_suffix() {
    wait(async {
        let (_db, conn) = empty_db().await;
        conn.execute(
            "CREATE TABLE foo (id TEXT PRIMARY KEY, name TEXT, legacy TEXT)",
            (),
        )
        .await
        .unwrap();
        conn.execute("CREATE INDEX idx_foo_legacy ON foo(legacy)", ())
            .await
            .unwrap();

        let desired_sql = "CREATE TABLE foo (id TEXT PRIMARY KEY, name TEXT);";
        let desired = snapshot_of_sql(desired_sql).await.unwrap();
        let actual = snapshot_of(&conn).await.unwrap();
        let diff = compute_diff(&desired, &actual);
        assert!(
            diff.tables_to_rebuild.contains(&"foo".to_string()),
            "indexed column removal should force rebuild"
        );

        let plan = generate_plan(&diff, &desired, &actual).unwrap();
        assert!(
            plan.transactional_stmts
                .iter()
                .any(|s| s.to_ascii_lowercase().contains("_converge_new_foo_")),
            "rebuild temp table should include unique suffix"
        );
        assert!(
            plan.transactional_stmts.iter().any(|s| {
                let lower = s.to_ascii_lowercase();
                lower.starts_with("drop table if exists \"_converge_new_foo_")
            }),
            "rebuild should defensively drop stale temp table before CREATE"
        );
    });
}

#[test]
fn plan_only_does_not_mutate() {
    wait(async {
        let (_db, conn) = empty_db().await;
        let desired = snapshot_of_sql(test_schema())
            .await
            .unwrap();
        let actual = snapshot_of(&conn).await.unwrap();
        let diff = compute_diff(&desired, &actual);
        let plan = generate_plan(&diff, &desired, &actual).unwrap();

        assert!(!plan.is_empty());

        let still_empty = snapshot_of(&conn).await.unwrap();
        assert!(still_empty.tables.is_empty());
    });
}

#[test]
fn empty_plan_for_matching_schemas() {
    wait(async {
        let (_db, conn) = empty_db().await;
        conn.execute_batch(test_schema()).await.unwrap();

        let desired = snapshot_of_sql(test_schema())
            .await
            .unwrap();
        let actual = snapshot_of(&conn).await.unwrap();
        let diff = compute_diff(&desired, &actual);
        let plan = generate_plan(&diff, &desired, &actual).unwrap();
        assert!(plan.is_empty(), "Plan should be empty for matching schemas");
    });
}

#[test]
fn add_notnull_default_column_execution() {
    wait(async {
        let (_db, conn) = empty_db().await;
        conn.execute("CREATE TABLE foo (id TEXT PRIMARY KEY)", ())
            .await
            .unwrap();
        conn.execute("INSERT INTO foo VALUES ('1')", ())
            .await
            .unwrap();

        let desired_sql =
            "CREATE TABLE foo (id TEXT PRIMARY KEY, status TEXT NOT NULL DEFAULT 'active');";
        let desired = snapshot_of_sql(desired_sql).await.unwrap();
        let actual = snapshot_of(&conn).await.unwrap();
        let diff = compute_diff(&desired, &actual);
        assert!(
            !diff.columns_to_add.is_empty(),
            "NOT NULL+DEFAULT should be ADD COLUMN eligible"
        );
        assert!(
            diff.tables_to_rebuild.is_empty(),
            "Should NOT trigger rebuild"
        );

        let plan = generate_plan(&diff, &desired, &actual).unwrap();
        execute_plan(&conn, &plan).await.unwrap();

        let after = snapshot_of(&conn).await.unwrap();
        let foo = after.get_table("foo").unwrap();
        assert!(foo.columns.iter().any(|c| c.name == "status"));
    });
}

#[test]
fn fk_referenced_table_rebuild_preserves_integrity() {
    wait(async {
        let (_db, conn) = empty_db().await;
        conn.execute(
            "CREATE TABLE parent (id TEXT PRIMARY KEY, name TEXT, old_col TEXT)",
            (),
        )
        .await
        .unwrap();
        conn.execute(
            "CREATE TABLE child (id TEXT PRIMARY KEY, parent_id TEXT REFERENCES parent(id))",
            (),
        )
        .await
        .unwrap();
        conn.execute("INSERT INTO parent VALUES ('p1', 'Parent1', 'legacy')", ())
            .await
            .unwrap();
        conn.execute("INSERT INTO child VALUES ('c1', 'p1')", ())
            .await
            .unwrap();

        let desired_sql = "\
            CREATE TABLE parent (id TEXT PRIMARY KEY, name TEXT);\n\
            CREATE TABLE child (id TEXT PRIMARY KEY, parent_id TEXT REFERENCES parent(id));\n";
        let desired = snapshot_of_sql(desired_sql).await.unwrap();
        let actual = snapshot_of(&conn).await.unwrap();
        let diff = compute_diff(&desired, &actual);
        assert!(
            !diff.columns_to_drop.is_empty() || !diff.tables_to_rebuild.is_empty(),
            "Parent should have old_col removal detected"
        );

        let plan = generate_plan(&diff, &desired, &actual).unwrap();
        execute_plan(&conn, &plan).await.unwrap();

        let mut rows = conn
            .query("SELECT id FROM child WHERE parent_id = 'p1'", ())
            .await
            .unwrap();
        assert!(
            rows.next().await.unwrap().is_some(),
            "Child FK data should survive parent rebuild"
        );
    });
}

#[test]
fn fts_index_created_outside_transaction() {
    wait(async {
        let (_db, conn) = empty_db().await;
        let schema_with_fts = "\
            CREATE TABLE docs (id TEXT PRIMARY KEY, title TEXT NOT NULL, body TEXT);\n\
            CREATE INDEX idx_docs_fts ON docs USING fts (title, body);";
        let desired = snapshot_of_sql(schema_with_fts)
            .await
            .unwrap();
        let actual = snapshot_of(&conn).await.unwrap();
        let diff = compute_diff(&desired, &actual);

        let plan = generate_plan(&diff, &desired, &actual).unwrap();
        assert!(
            !plan.non_transactional_stmts.is_empty(),
            "FTS index should be in non-transactional stmts"
        );
        assert!(
            plan.non_transactional_stmts
                .iter()
                .any(|s| s.contains("USING fts")),
            "Non-transactional stmts should contain FTS CREATE INDEX"
        );

        execute_plan(&conn, &plan).await.unwrap();

        let after = snapshot_of(&conn).await.unwrap();
        let fts_indexes: Vec<_> = values(&after.indexes).into_iter().filter(|i| i.is_fts).collect();
        assert_eq!(
            fts_indexes.len(),
            1,
            "Should have 1 FTS index after execution"
        );
    });
}

#[test]
fn materialized_view_recreated_after_table_change() {
    wait(async {
        let (_db, conn) = empty_db().await;
        let schema_v1 = "\
            CREATE TABLE items (id TEXT PRIMARY KEY, category TEXT, old_col TEXT);\n\
            CREATE MATERIALIZED VIEW mv_counts AS SELECT category, COUNT(*) as cnt FROM items GROUP BY category;";
        conn.execute_batch(schema_v1).await.unwrap();
        conn.execute("INSERT INTO items VALUES ('1', 'books', 'x')", ())
            .await
            .unwrap();

        let schema_v2 = "\
            CREATE TABLE items (id TEXT PRIMARY KEY, category TEXT);\n\
            CREATE MATERIALIZED VIEW mv_counts AS SELECT category, COUNT(*) as cnt FROM items GROUP BY category;";
        let desired = snapshot_of_sql(schema_v2).await.unwrap();
        let actual = snapshot_of(&conn).await.unwrap();
        let diff = compute_diff(&desired, &actual);
        assert!(
            !diff.columns_to_drop.is_empty() || !diff.tables_to_rebuild.is_empty(),
            "Should detect items column removal"
        );

        let plan = generate_plan(&diff, &desired, &actual).unwrap();
        execute_plan(&conn, &plan).await.unwrap();

        let after = snapshot_of(&conn).await.unwrap();
        assert!(
            after.has_view("mv_counts"),
            "Materialized view should be recreated"
        );
        assert!(
            !after
                .get_table("items")
                .unwrap()
                .columns
                .iter()
                .any(|c| c.name == "old_col")
        );
    });
}

#[test]
fn rebuild_recreates_all_views_not_just_dependent_ones() {
    wait(async {
        let (_db, conn) = empty_db().await;
        let schema_v1 = "\
            CREATE TABLE items (id TEXT PRIMARY KEY, category TEXT, old_col TEXT);\n\
            CREATE TABLE settings (key TEXT PRIMARY KEY, value TEXT);\n\
            CREATE VIEW v_items AS SELECT id, category FROM items;\n\
            CREATE VIEW v_settings AS SELECT key, value FROM settings;";
        conn.execute_batch(schema_v1).await.unwrap();

        let schema_v2 = "\
            CREATE TABLE items (id TEXT PRIMARY KEY, category TEXT);\n\
            CREATE TABLE settings (key TEXT PRIMARY KEY, value TEXT);\n\
            CREATE VIEW v_items AS SELECT id, category FROM items;\n\
            CREATE VIEW v_settings AS SELECT key, value FROM settings;";

        let desired = snapshot_of_sql(schema_v2).await.unwrap();
        let actual = snapshot_of(&conn).await.unwrap();
        let diff = compute_diff(&desired, &actual);
        assert!(
            diff.tables_to_rebuild.contains(&"items".to_string()),
            "items should be rebuilt due to column removal"
        );

        let plan = generate_plan(&diff, &desired, &actual).unwrap();
        let tx_sql = plan.transactional_stmts.join("\n").to_ascii_lowercase();
        assert!(
            tx_sql.contains("drop view if exists \"v_items\""),
            "dependent view should be dropped"
        );
        assert!(
            tx_sql.contains("drop view if exists \"v_settings\""),
            "unrelated view should also be dropped under rebuild-all policy"
        );
        assert!(
            tx_sql.contains("create view v_items"),
            "dependent view should be recreated"
        );
        assert!(
            tx_sql.contains("create view v_settings"),
            "unrelated view should also be recreated"
        );

        execute_plan(&conn, &plan).await.unwrap();

        let after = snapshot_of(&conn).await.unwrap();
        assert!(after.has_view("v_items"));
        assert!(after.has_view("v_settings"));
    });
}

#[test]
fn full_schema_convergence_creates_all_objects() {
    wait(async {
        let (_db, conn) = empty_db().await;
        let desired = snapshot_of_sql(test_schema())
            .await
            .unwrap();
        let actual = snapshot_of(&conn).await.unwrap();
        let diff = compute_diff(&desired, &actual);
        let plan = generate_plan(&diff, &desired, &actual).unwrap();
        execute_plan(&conn, &plan).await.unwrap();

        let after = snapshot_of(&conn).await.unwrap();
        assert_eq!(after.tables.len(), 10, "All 10 tables");
        let std_indexes: Vec<_> = values(&after.indexes).into_iter().filter(|i| !i.is_fts).collect();
        assert!(
            std_indexes.len() >= 7,
            "At least 7 standard indexes, got {}",
            std_indexes.len()
        );
        let fts_indexes: Vec<_> = values(&after.indexes).into_iter().filter(|i| i.is_fts).collect();
        assert_eq!(fts_indexes.len(), 2, "Exactly 2 FTS indexes");
        assert!(
            after.views.len() >= 4,
            "At least 4 views, got {}",
            after.views.len()
        );
    });
}

#[test]
fn rebuild_rejects_new_notnull_column_without_default() {
    wait(async {
        let (_db, conn) = empty_db().await;
        conn.execute("CREATE TABLE foo (id TEXT PRIMARY KEY, name TEXT)", ())
            .await
            .unwrap();
        conn.execute("INSERT INTO foo VALUES ('1', 'alice')", ())
            .await
            .unwrap();

        let desired_sql = "CREATE TABLE foo (id TEXT PRIMARY KEY, name TEXT, required TEXT NOT NULL);";
        let desired = snapshot_of_sql(desired_sql).await.unwrap();
        let actual = snapshot_of(&conn).await.unwrap();
        let diff = compute_diff(&desired, &actual);
        assert!(diff.tables_to_rebuild.contains(&"foo".to_string()));

        let result = generate_plan(&diff, &desired, &actual);
        assert!(result.is_err(), "Should reject NOT NULL without DEFAULT");
        let err = result.unwrap_err();
        let msg = err.to_string();
        assert!(
            msg.contains("NOT NULL") && msg.contains("required"),
            "Error should mention the column: {msg}"
        );
    });
}

#[test]
fn rebuild_with_notnull_default_column_applies_default() {
    wait(async {
        let (_db, conn) = empty_db().await;
        conn.execute(
            "CREATE TABLE foo (id TEXT PRIMARY KEY, name TEXT, old_col TEXT)",
            (),
        )
        .await
        .unwrap();
        conn.execute("INSERT INTO foo VALUES ('1', 'alice', 'legacy')", ())
            .await
            .unwrap();

        let desired_sql =
            "CREATE TABLE foo (id TEXT PRIMARY KEY, name TEXT, status TEXT NOT NULL DEFAULT 'active');";
        let desired = snapshot_of_sql(desired_sql).await.unwrap();
        let actual = snapshot_of(&conn).await.unwrap();
        let diff = compute_diff(&desired, &actual);
        assert!(
            !diff.columns_to_drop.is_empty()
                || !diff.columns_to_add.is_empty()
                || !diff.tables_to_rebuild.is_empty(),
            "Should detect column changes (drop old_col + add status)"
        );

        let plan = generate_plan(&diff, &desired, &actual).unwrap();
        execute_plan(&conn, &plan).await.unwrap();

        let mut rows = conn
            .query("SELECT status FROM foo WHERE id = '1'", ())
            .await
            .unwrap();
        let row = rows.next().await.unwrap().unwrap();
        let status: String = row.get(0).unwrap();
        assert_eq!(
            status, "active",
            "Default value should be applied to existing rows during rebuild"
        );
    });
}

#[test]
fn rebuild_with_self_referential_fk_succeeds() {
    wait(async {
        let (_db, conn) = empty_db().await;
        conn.execute(
            "CREATE TABLE categories (id TEXT PRIMARY KEY, name TEXT, parent_id TEXT REFERENCES categories(id), old_col INTEGER)",
            (),
        )
        .await
        .unwrap();
        conn.execute("CREATE INDEX idx_cat_old ON categories(old_col)", ())
            .await
            .unwrap();
        conn.execute("INSERT INTO categories VALUES ('1', 'root', NULL, 1)", ())
            .await
            .unwrap();
        conn.execute("INSERT INTO categories VALUES ('2', 'child', '1', 2)", ())
            .await
            .unwrap();

        let desired_sql = "CREATE TABLE categories (id TEXT PRIMARY KEY, name TEXT, parent_id TEXT REFERENCES categories(id));";
        let desired = snapshot_of_sql(desired_sql).await.unwrap();
        let actual = snapshot_of(&conn).await.unwrap();
        let diff = compute_diff(&desired, &actual);
        assert!(
            diff.tables_to_rebuild.contains(&"categories".to_string()),
            "Indexed column removal should force rebuild: {:?}",
            diff
        );

        let plan = generate_plan(&diff, &desired, &actual).unwrap();
        execute_plan(&conn, &plan).await.unwrap();

        let mut rows = conn
            .query("SELECT id, parent_id FROM categories ORDER BY id", ())
            .await
            .unwrap();
        let row1 = rows.next().await.unwrap().unwrap();
        assert_eq!(row1.get::<String>(0).unwrap(), "1");
        let row2 = rows.next().await.unwrap().unwrap();
        assert_eq!(row2.get::<String>(0).unwrap(), "2");
        assert_eq!(row2.get::<String>(1).unwrap(), "1");
    });
}

#[test]
fn view_creation_retries_handle_string_literal_false_dependencies() {
    wait(async {
        let (_db, conn) = empty_db().await;
        let desired_sql = "\
            CREATE TABLE base (id TEXT PRIMARY KEY, name TEXT NOT NULL);\n\
            CREATE VIEW v1 AS SELECT id, 'v2' AS marker FROM base;\n\
            CREATE VIEW v2 AS SELECT id FROM v1;\n";

        let desired = snapshot_of_sql(desired_sql).await.unwrap();
        let actual = snapshot_of(&conn).await.unwrap();
        let diff = compute_diff(&desired, &actual);
        let plan = generate_plan(&diff, &desired, &actual).unwrap();

        execute_plan(&conn, &plan).await.unwrap();

        let mut rows = conn.query("SELECT id FROM v2", ()).await.unwrap();
        assert!(rows.next().await.unwrap().is_none());
    });
}

#[test]
fn rebuild_handles_if_not_exists_in_create_table() {
    wait(async {
        let (_db, conn) = empty_db().await;

        conn.execute(
            "CREATE TABLE IF NOT EXISTS items (id TEXT PRIMARY KEY, val TEXT)",
            (),
        )
        .await
        .unwrap();
        conn.execute("INSERT INTO items (id, val) VALUES ('a', 'v')", ())
            .await
            .unwrap();

        let desired_sql =
            "CREATE TABLE IF NOT EXISTS items (id TEXT PRIMARY KEY, val INTEGER DEFAULT 0);";
        let desired = snapshot_of_sql(desired_sql).await.unwrap();
        let actual = snapshot_of(&conn).await.unwrap();
        let diff = compute_diff(&desired, &actual);
        assert!(
            diff.tables_to_rebuild.contains(&"items".to_string()),
            "type change should force rebuild"
        );

        let plan = generate_plan(&diff, &desired, &actual).unwrap();
        execute_plan(&conn, &plan).await.unwrap();

        let snap = snapshot_of(&conn).await.unwrap();
        assert!(snap.has_table("items"), "table should survive rebuild");
    });
}

#[test]
fn execute_plan_rejects_when_lease_owner_mismatch() {
    wait(async {
        let (_db, conn) = empty_db().await;

        conn.execute(
            "CREATE TABLE IF NOT EXISTS _schema_meta (key TEXT PRIMARY KEY, value TEXT NOT NULL)",
            (),
        )
        .await
        .unwrap();
        conn.execute(
            "INSERT OR REPLACE INTO _schema_meta (key, value) VALUES ('migration_owner', 'owner-a')",
            (),
        )
        .await
        .unwrap();
        conn.execute(
            "INSERT OR REPLACE INTO _schema_meta (key, value) VALUES ('migration_lease_until', '4102444800')",
            (),
        )
        .await
        .unwrap();

        let plan = non_transactional_plan("CREATE TABLE lease_guard_mismatch (id INTEGER)");
        let err = execute_plan_with_timeout(&conn, &plan, Duration::from_secs(1), "owner-b")
            .await
            .unwrap_err();
        assert!(
            err.to_string().contains("lease was lost or expired"),
            "unexpected error: {err:?}"
        );

        let snap = snapshot_of(&conn).await.unwrap();
        assert!(
            !snap.has_table("lease_guard_mismatch"),
            "non-transactional phase should not run when lease check fails"
        );
    });
}

#[test]
fn execute_plan_rejects_when_lease_is_expired() {
    wait(async {
        let (_db, conn) = empty_db().await;

        conn.execute(
            "CREATE TABLE IF NOT EXISTS _schema_meta (key TEXT PRIMARY KEY, value TEXT NOT NULL)",
            (),
        )
        .await
        .unwrap();
        conn.execute(
            "INSERT OR REPLACE INTO _schema_meta (key, value) VALUES ('migration_owner', 'owner-a')",
            (),
        )
        .await
        .unwrap();
        conn.execute(
            "INSERT OR REPLACE INTO _schema_meta (key, value) VALUES ('migration_lease_until', '1')",
            (),
        )
        .await
        .unwrap();

        let plan = non_transactional_plan("CREATE TABLE lease_guard_expired (id INTEGER)");
        let err = execute_plan_with_timeout(&conn, &plan, Duration::from_secs(1), "owner-a")
            .await
            .unwrap_err();
        assert!(
            err.to_string().contains("lease was lost or expired"),
            "unexpected error: {err:?}"
        );

        let snap = snapshot_of(&conn).await.unwrap();
        assert!(
            !snap.has_table("lease_guard_expired"),
            "non-transactional phase should not run when lease has expired"
        );
    });
}

#[test]
fn snapshot_contains_all_tables() {
    wait(async {
        let snap = snapshot_of_sql(test_schema()).await.unwrap();
        let expected = [
            "documents",
            "document_tags",
            "links",
            "entities",
            "entity_document_links",
            "entity_links",
            "cache_manifest",
            "sync_state",
            "settings",
            "schema_version",
        ];
        assert_eq!(snap.tables.len(), expected.len());
        for name in expected {
            assert!(snap.has_table(name), "Missing table: {}", name);
        }
    });
}

#[test]
fn snapshot_captures_columns() {
    wait(async {
        let snap = snapshot_of_sql(test_schema()).await.unwrap();
        let docs = snap.get_table("documents").expect("documents table");
        assert!(
            docs.columns.len() >= 14,
            "documents should have at least 14 columns, got {}",
            docs.columns.len()
        );

        let title = docs
            .columns
            .iter()
            .find(|c| c.name == "title")
            .expect("title column");
        assert!(title.notnull, "title should be NOT NULL");

        let source_url = docs
            .columns
            .iter()
            .find(|c| c.name == "source_url")
            .expect("source_url column");
        assert!(!source_url.notnull, "source_url should be nullable");

        let content_type = docs
            .columns
            .iter()
            .find(|c| c.name == "content_type")
            .expect("content_type");
        assert!(
            content_type.default_value.is_some(),
            "content_type should have DEFAULT"
        );
    });
}

#[test]
fn snapshot_captures_vector_columns() {
    wait(async {
        let snap = snapshot_of_sql(test_schema()).await.unwrap();
        let docs = snap.get_table("documents").expect("documents table");
        let embedding = docs
            .columns
            .iter()
            .find(|c| c.name == "embedding")
            .expect("embedding column");
        assert!(
            !embedding.col_type.is_empty(),
            "embedding col_type should not be empty"
        );
    });
}

#[test]
fn snapshot_captures_standard_indexes() {
    wait(async {
        let snap = snapshot_of_sql(test_schema()).await.unwrap();
        let standard: Vec<_> = values(&snap.indexes).into_iter().filter(|i| !i.is_fts).collect();
        assert!(
            standard.len() >= 7,
            "Should have at least 7 standard indexes, got {}",
            standard.len()
        );
        assert!(snap.has_index("idx_docs_workspace"));
        assert!(snap.has_index("idx_tags_tag"));
    });
}

#[test]
fn snapshot_detects_fts_indexes() {
    wait(async {
        let snap = snapshot_of_sql(test_schema()).await.unwrap();
        let fts: Vec<_> = values(&snap.indexes).into_iter().filter(|i| i.is_fts).collect();
        assert_eq!(fts.len(), 2, "Should have exactly 2 FTS indexes");

        let docs_fts = snap.get_index("idx_docs_fts").expect("idx_docs_fts");
        assert!(docs_fts.is_fts, "idx_docs_fts should be FTS");
        assert_eq!(docs_fts.table_name, "documents");
    });
}

#[test]
fn snapshot_captures_materialized_views() {
    wait(async {
        let snap = snapshot_of_sql(test_schema()).await.unwrap();
        assert!(snap.views.len() >= 4, "Should have at least 4 views");

        let mv = snap.get_view("mv_type_counts").expect("mv_type_counts");
        assert!(mv.is_materialized, "mv_type_counts should be materialized");
    });
}

#[test]
fn snapshot_filters_internal_objects() {
    wait(async {
        let snap = snapshot_of_sql(test_schema()).await.unwrap();
        for i in 0..snap.tables.len() {
                let name = snap.tables.key_at(i);
            assert!(
                !name.starts_with("sqlite_"),
                "Should not contain sqlite_ tables"
            );
            assert!(
                !name.starts_with("fts_dir_"),
                "Should not contain fts_dir_ tables"
            );
            assert!(
                !name.starts_with("__turso_internal"),
                "Should not contain __turso_internal tables"
            );
        }
        for i in 0..snap.indexes.len() {
                let name = snap.indexes.key_at(i);
            assert!(
                !name.starts_with("sqlite_autoindex_"),
                "Should not contain autoindexes"
            );
        }
    });
}

#[test]
fn two_pristine_snapshots_are_equal() {
    wait(async {
        let snap1 = snapshot_of_sql(test_schema()).await.unwrap();
        let snap2 = snapshot_of_sql(test_schema()).await.unwrap();
        assert_eq!(
            snap1, snap2,
            "Two pristine snapshots from same SQL should be identical"
        );
    });
}

#[test]
fn snapshot_captures_foreign_keys() {
    wait(async {
        let snap = snapshot_of_sql(test_schema()).await.unwrap();
        let tags = snap.get_table("document_tags").expect("document_tags");
        assert!(
            !tags.foreign_keys.is_empty(),
            "document_tags should have FK to documents"
        );
        assert_eq!(tags.foreign_keys[0].to_table, "documents");
    });
}

#[test]
fn snapshot_detects_table_properties() {
    wait(async {
        let snap = snapshot_of_sql(test_schema()).await.unwrap();
        let docs = snap.get_table("documents").expect("documents");
        assert!(!docs.is_strict, "documents is not STRICT");
        assert!(!docs.is_without_rowid, "documents is not WITHOUT ROWID");
        assert!(!docs.has_autoincrement, "documents has no AUTOINCREMENT");
    });
}

#[test]
fn snapshot_filters_capability_probe_artifacts() {
    wait(async {
        let db = turso::Builder::new_local(":memory:")
            .experimental_index_method(true)
            .experimental_materialized_views(true)
            .experimental_triggers(true)
            .build()
            .await
            .unwrap();
        let conn = db.connect().unwrap();

        conn.execute("CREATE TABLE _cap_probe_fts (x TEXT)", ())
            .await
            .unwrap();
        conn.execute("CREATE TABLE _cap_probe_vec (x TEXT)", ())
            .await
            .unwrap();

        let snap = snapshot_of(&conn).await.unwrap();
        assert!(
            !snap.has_table("_cap_probe_fts"),
            "_cap_probe_fts must be hidden from snapshots"
        );
        assert!(
            !snap.has_table("_cap_probe_vec"),
            "_cap_probe_vec must be hidden from snapshots"
        );
    });
}

#[test]
fn converge_creates_tables() {
    wait(async {
        let (_db, conn) = empty_db().await;
        converge(&conn, test_schema()).await.unwrap();

        let snap = snapshot_of(&conn).await.unwrap();
        assert_eq!(snap.tables.len(), 10);
    });
}

#[test]
fn new_api_converge_is_idempotent() {
    wait(async {
        let (_db, conn) = empty_db().await;
        converge(&conn, test_schema()).await.unwrap();
        converge(&conn, test_schema()).await.unwrap();

        let snap = snapshot_of(&conn).await.unwrap();
        assert_eq!(snap.tables.len(), 10);
    });
}

#[test]
fn converge_empty_sql_errors() {
    wait(async {
        let (_db, conn) = empty_db().await;
        let err = converge(&conn, "").await.unwrap_err();

        match err {
            MigrateError::Schema(msg) => assert!(msg.contains("empty schema SQL")),
            other => panic!("expected schema error for empty SQL, got: {other:?}"),
        }
    });
}

#[test]
fn converge_invalid_sql_errors() {
    wait(async {
        let (_db, conn) = empty_db().await;
        let err = converge(&conn, "NOT VALID SQL").await.unwrap_err();
        assert!(
            matches!(err, MigrateError::Turso(_) | MigrateError::Statement { .. }),
            "expected SQL execution error, got: {err:?}"
        );
    });
}

#[test]
fn to_sql_round_trips() {
    wait(async {
        let (_db1, conn1) = empty_db().await;
        conn1.execute_batch(test_schema()).await.unwrap();
        let snap1 = snapshot_of(&conn1).await.unwrap();

        let sql = snap1.to_sql();

        let (_db2, conn2) = empty_db().await;
        conn2.execute_batch(&sql).await.unwrap();
        let snap2 = snapshot_of(&conn2).await.unwrap();

        let tables1: Vec<_> = names(&snap1.tables).into_iter().collect();
        let tables2: Vec<_> = names(&snap2.tables).into_iter().collect();
        assert_eq!(tables1, tables2);
    });
}

#[test]
fn to_sql_fk_order() {
    wait(async {
        let (_db, conn) = empty_db().await;
        conn.execute_batch(test_schema()).await.unwrap();
        let snap = snapshot_of(&conn).await.unwrap();
        let sql = snap.to_sql();

        let documents_pos = sql.find("CREATE TABLE documents").unwrap();
        let document_tags_pos = sql.find("CREATE TABLE document_tags").unwrap();
        assert!(documents_pos < document_tags_pos);
    });
}

#[test]
fn to_sql_output_is_executable() {
    wait(async {
        let (_db1, conn1) = empty_db().await;
        conn1.execute_batch(test_schema()).await.unwrap();
        let snap = snapshot_of(&conn1).await.unwrap();

        let (_db2, conn2) = empty_db().await;
        conn2.execute_batch(&snap.to_sql()).await.unwrap();
    });
}

#[test]
fn to_sql_empty_snapshot() {
    wait(async {
        let snap = SchemaSnapshot {
            tables: Default::default(),
            indexes: Default::default(),
            views: Default::default(),
            triggers: Default::default(),
        };

        assert_eq!(snap.to_sql(), "");
    });
}

#[test]
fn validate_schema_accepts_valid_sql() {
    wait(async {
        validate_schema(test_schema()).await.unwrap();
    });
}

#[test]
fn validate_schema_rejects_invalid_sql() {
    wait(async {
        let err = validate_schema("CREATE TABLE broken (").await.unwrap_err();
        assert!(matches!(err, MigrateError::Schema(_)));
    });
}

#[test]
fn converge_multi_combines_schema_parts() {
    wait(async {
        let (_db, conn) = empty_db().await;
        let parts = [
            "CREATE TABLE users (id TEXT PRIMARY KEY, email TEXT NOT NULL);",
            "CREATE TABLE posts (id TEXT PRIMARY KEY, user_id TEXT REFERENCES users(id));",
            "CREATE INDEX idx_posts_user ON posts(user_id);",
        ];

        converge_multi(&conn, &parts).await.unwrap();

        let snap = snapshot_of(&conn).await.unwrap();
        assert!(snap.has_table("users"));
        assert!(snap.has_table("posts"));
        assert!(snap.has_index("idx_posts_user"));
    });
}

#[test]
fn converge_multi_with_options_supports_dry_run() {
    wait(async {
        let (_db, conn) = empty_db().await;
        let parts = [
            "CREATE TABLE users (id TEXT PRIMARY KEY, email TEXT NOT NULL);",
            "CREATE TABLE posts (id TEXT PRIMARY KEY, user_id TEXT REFERENCES users(id));",
        ];

        let options = ConvergeOptions {
            policy: ConvergePolicy::permissive(),
            dry_run: true,
            ..Default::default()
        };

        let report = converge_multi_with_options(&conn, &parts, &options)
            .await
            .unwrap();
        assert_eq!(report.mode, ConvergeMode::DryRun);
        assert!(!report.plan_sql.is_empty());

        let snap = snapshot_of(&conn).await.unwrap();
        assert!(snap.tables.is_empty(), "dry-run should not mutate DB");
    });
}

#[test]
fn is_read_only_reflects_query_only_pragma() {
    wait(async {
        let (_db, conn) = empty_db().await;
        assert!(!is_read_only(&conn).await);

        conn.execute("PRAGMA query_only = 1", ()).await.unwrap();
        assert!(is_read_only(&conn).await);
        conn.execute("PRAGMA query_only = 0", ()).await.unwrap();
    });
}

#[test]
fn diff_detects_new_trigger() {
    wait(async {
        let desired = snapshot_of_sql(
            "CREATE TABLE users (id TEXT PRIMARY KEY);\n\
             CREATE TRIGGER trg_ins AFTER INSERT ON users BEGIN SELECT 1; END;",
        )
        .await
        .unwrap();
        let actual = snapshot_of_sql("CREATE TABLE users (id TEXT PRIMARY KEY);")
            .await
            .unwrap();

        let diff = compute_diff(&desired, &actual);
        assert!(
            diff.triggers_to_create.iter().any(|t| t == "trg_ins"),
            "Should detect new trigger, got: {:?}",
            diff.triggers_to_create
        );
        assert!(diff.triggers_to_drop.is_empty());
    });
}

#[test]
fn diff_detects_removed_trigger() {
    wait(async {
        let desired = snapshot_of_sql("CREATE TABLE users (id TEXT PRIMARY KEY);")
            .await
            .unwrap();
        let actual = snapshot_of_sql(
            "CREATE TABLE users (id TEXT PRIMARY KEY);\n\
             CREATE TRIGGER trg_old AFTER INSERT ON users BEGIN SELECT 1; END;",
        )
        .await
        .unwrap();

        let diff = compute_diff(&desired, &actual);
        assert!(
            diff.triggers_to_drop.iter().any(|t| t == "trg_old"),
            "Should detect removed trigger, got: {:?}",
            diff.triggers_to_drop
        );
        assert!(diff.triggers_to_create.is_empty());
    });
}

#[test]
fn diff_detects_changed_trigger() {
    wait(async {
        let desired = snapshot_of_sql(
            "CREATE TABLE users (id TEXT PRIMARY KEY);\n\
             CREATE TRIGGER trg_audit AFTER UPDATE ON users BEGIN SELECT 2; END;",
        )
        .await
        .unwrap();
        let actual = snapshot_of_sql(
            "CREATE TABLE users (id TEXT PRIMARY KEY);\n\
             CREATE TRIGGER trg_audit AFTER UPDATE ON users BEGIN SELECT 1; END;",
        )
        .await
        .unwrap();

        let diff = compute_diff(&desired, &actual);
        assert!(diff.triggers_to_drop.iter().any(|t| t == "trg_audit"));
        assert!(diff.triggers_to_create.iter().any(|t| t == "trg_audit"));
    });
}

#[test]
fn trigger_created_via_execution() {
    wait(async {
        let (_db, conn) = empty_db().await;

        let schema = "\
            CREATE TABLE audit_log (id INTEGER PRIMARY KEY, msg TEXT);\n\
            CREATE TABLE users (id TEXT PRIMARY KEY, name TEXT);\n\
            CREATE TABLE schema_version (version INTEGER NOT NULL, updated_at TEXT NOT NULL);\n\
            CREATE TRIGGER trg_user_insert AFTER INSERT ON users BEGIN INSERT INTO audit_log (msg) VALUES ('user created: ' || NEW.id); END;";

        converge(&conn, schema).await.unwrap();

        let snap = snapshot_of(&conn).await.unwrap();
        assert!(
            values(&snap.triggers).into_iter().any(|t| t.name == "trg_user_insert"),
            "Trigger should be created"
        );

        conn.execute("INSERT INTO users VALUES ('u1', 'Alice')", ())
            .await
            .unwrap();

        let mut rows = conn.query("SELECT msg FROM audit_log", ()).await.unwrap();
        let row = rows.next().await.unwrap().unwrap();
        let msg: String = row.get(0).unwrap();
        assert!(msg.contains("u1"), "Trigger should have fired");
    });
}

#[test]
fn trigger_dropped_when_removed_from_schema() {
    wait(async {
        let (_db, conn) = empty_db().await;

        let schema_v1 = "\
            CREATE TABLE audit_log (id INTEGER PRIMARY KEY, msg TEXT);\n\
            CREATE TABLE users (id TEXT PRIMARY KEY, name TEXT);\n\
            CREATE TABLE schema_version (version INTEGER NOT NULL, updated_at TEXT NOT NULL);\n\
            CREATE TRIGGER trg_user_insert AFTER INSERT ON users BEGIN INSERT INTO audit_log (msg) VALUES ('created'); END;";

        converge(&conn, schema_v1).await.unwrap();

        let schema_v2 = "\
            CREATE TABLE audit_log (id INTEGER PRIMARY KEY, msg TEXT);\n\
            CREATE TABLE users (id TEXT PRIMARY KEY, name TEXT);\n\
            CREATE TABLE schema_version (version INTEGER NOT NULL, updated_at TEXT NOT NULL);";

        conn.execute(
            "INSERT OR REPLACE INTO _schema_meta (key, value) VALUES ('schema_hash', 'force')",
            (),
        )
        .await
        .unwrap();

        converge(&conn, schema_v2).await.unwrap();

        let snap = snapshot_of(&conn).await.unwrap();
        assert!(
            !values(&snap.triggers).into_iter().any(|t| t.name == "trg_user_insert"),
            "Trigger should be dropped"
        );
    });
}

#[test]
fn trigger_recreated_on_table_rebuild() {
    wait(async {
        let (_db, conn) = empty_db().await;

        let schema_v1 = "\
            CREATE TABLE audit_log (id INTEGER PRIMARY KEY, msg TEXT);\n\
            CREATE TABLE users (id TEXT PRIMARY KEY, name TEXT, old_col TEXT);\n\
            CREATE TABLE schema_version (version INTEGER NOT NULL, updated_at TEXT NOT NULL);\n\
            CREATE TRIGGER trg_user_insert AFTER INSERT ON users BEGIN INSERT INTO audit_log (msg) VALUES ('created'); END;";

        converge(&conn, schema_v1).await.unwrap();

        let schema_v2 = "\
            CREATE TABLE audit_log (id INTEGER PRIMARY KEY, msg TEXT);\n\
            CREATE TABLE users (id TEXT PRIMARY KEY, name TEXT);\n\
            CREATE TABLE schema_version (version INTEGER NOT NULL, updated_at TEXT NOT NULL);\n\
            CREATE TRIGGER trg_user_insert AFTER INSERT ON users BEGIN INSERT INTO audit_log (msg) VALUES ('created'); END;";

        conn.execute(
            "INSERT OR REPLACE INTO _schema_meta (key, value) VALUES ('schema_hash', 'force')",
            (),
        )
        .await
        .unwrap();

        converge(&conn, schema_v2).await.unwrap();

        let snap = snapshot_of(&conn).await.unwrap();
        assert!(
            values(&snap.triggers).into_iter().any(|t| t.name == "trg_user_insert"),
            "Trigger should be recreated after table rebuild"
        );

        conn.execute("INSERT INTO users VALUES ('u1', 'Alice')", ())
            .await
            .unwrap();
        let mut rows = conn.query("SELECT msg FROM audit_log", ()).await.unwrap();
        assert!(
            rows.next().await.unwrap().is_some(),
            "Trigger should fire after recreation"
        );
    });
}

#[test]
fn same_check_constraint_produces_no_diff() {
    wait(async {
        let schema = r#"
            CREATE TABLE items (
                id TEXT PRIMARY KEY,
                type TEXT NOT NULL CHECK(type IN ('a', 'b'))
            );
        "#;

        let desired = snapshot_of_sql(schema).await.unwrap();
        let actual = snapshot_of_sql(schema).await.unwrap();
        let diff = compute_diff(&desired, &actual);
        assert!(diff.is_empty(), "Same CHECK should produce no diff: {diff:?}");
    });
}

#[test]
fn modified_check_constraint_triggers_rebuild() {
    wait(async {
        let schema_v1 = r#"
            CREATE TABLE items (
                id TEXT PRIMARY KEY,
                type TEXT NOT NULL CHECK(type IN ('a', 'b'))
            );
        "#;
        let schema_v2 = r#"
            CREATE TABLE items (
                id TEXT PRIMARY KEY,
                type TEXT NOT NULL CHECK(type IN ('a', 'b', 'c'))
            );
        "#;

        let desired = snapshot_of_sql(schema_v2).await.unwrap();
        let actual = snapshot_of_sql(schema_v1).await.unwrap();
        let diff = compute_diff(&desired, &actual);
        assert!(
            diff.tables_to_rebuild.contains(&"items".to_string()),
            "Modified CHECK should trigger rebuild, got diff: {diff:?}"
        );
    });
}

#[test]
fn column_level_check_tracked() {
    wait(async {
        let schema_v1 = r#"
            CREATE TABLE scores (
                id TEXT PRIMARY KEY,
                value INTEGER CHECK(value BETWEEN 0 AND 100)
            );
        "#;
        let schema_v2 = r#"
            CREATE TABLE scores (
                id TEXT PRIMARY KEY,
                value INTEGER CHECK(value BETWEEN 0 AND 200)
            );
        "#;

        let desired = snapshot_of_sql(schema_v2).await.unwrap();
        let actual = snapshot_of_sql(schema_v1).await.unwrap();
        let diff = compute_diff(&desired, &actual);
        assert!(
            diff.tables_to_rebuild.contains(&"scores".to_string()),
            "Column-level CHECK change should trigger rebuild, got diff: {diff:?}"
        );
    });
}

#[test]
fn function_based_check_tracked() {
    wait(async {
        let schema_v1 = r#"
            CREATE TABLE docs (
                id TEXT PRIMARY KEY,
                properties TEXT CHECK(json_valid(properties))
            );
        "#;
        let schema_v2 = r#"
            CREATE TABLE docs (
                id TEXT PRIMARY KEY,
                properties TEXT CHECK(json_valid(properties) AND json_type(properties) = 'object')
            );
        "#;

        let desired = snapshot_of_sql(schema_v2).await.unwrap();
        let actual = snapshot_of_sql(schema_v1).await.unwrap();
        let diff = compute_diff(&desired, &actual);
        assert!(
            diff.tables_to_rebuild.contains(&"docs".to_string()),
            "Function-based CHECK change should trigger rebuild, got diff: {diff:?}"
        );
    });
}

#[test]
fn adding_check_to_existing_table_triggers_rebuild() {
    wait(async {
        let schema_v1 = r#"
            CREATE TABLE items (
                id TEXT PRIMARY KEY,
                status TEXT NOT NULL
            );
        "#;
        let schema_v2 = r#"
            CREATE TABLE items (
                id TEXT PRIMARY KEY,
                status TEXT NOT NULL CHECK(status IN ('active', 'archived'))
            );
        "#;

        let desired = snapshot_of_sql(schema_v2).await.unwrap();
        let actual = snapshot_of_sql(schema_v1).await.unwrap();
        let diff = compute_diff(&desired, &actual);
        assert!(
            diff.tables_to_rebuild.contains(&"items".to_string()),
            "Adding CHECK to existing table should trigger rebuild, got diff: {diff:?}"
        );
    });
}

#[test]
fn removing_check_from_existing_table_triggers_rebuild() {
    wait(async {
        let schema_v1 = r#"
            CREATE TABLE items (
                id TEXT PRIMARY KEY,
                status TEXT NOT NULL CHECK(status IN ('active', 'archived'))
            );
        "#;
        let schema_v2 = r#"
            CREATE TABLE items (
                id TEXT PRIMARY KEY,
                status TEXT NOT NULL
            );
        "#;

        let desired = snapshot_of_sql(schema_v2).await.unwrap();
        let actual = snapshot_of_sql(schema_v1).await.unwrap();
        let diff = compute_diff(&desired, &actual);
        assert!(
            diff.tables_to_rebuild.contains(&"items".to_string()),
            "Removing CHECK should trigger rebuild, got diff: {diff:?}"
        );
    });
}

#[test]
fn table_level_check_triggers_rebuild() {
    wait(async {
        let schema_v1 = r#"
            CREATE TABLE edges (
                id TEXT PRIMARY KEY,
                from_id TEXT NOT NULL,
                to_id TEXT NOT NULL,
                CHECK(from_id != to_id)
            );
        "#;
        let schema_v2 = r#"
            CREATE TABLE edges (
                id TEXT PRIMARY KEY,
                from_id TEXT NOT NULL,
                to_id TEXT NOT NULL,
                CHECK(from_id != to_id AND from_id != '')
            );
        "#;

        let desired = snapshot_of_sql(schema_v2).await.unwrap();
        let actual = snapshot_of_sql(schema_v1).await.unwrap();
        let diff = compute_diff(&desired, &actual);
        assert!(
            diff.tables_to_rebuild.contains(&"edges".to_string()),
            "Table-level CHECK change should trigger rebuild, got diff: {diff:?}"
        );
    });
}

#[test]
fn check_constraint_change_converges_end_to_end() {
    wait(async {
        let (_db, conn) = empty_db().await;

        let schema_v1 = r#"
            CREATE TABLE items (
                id TEXT PRIMARY KEY,
                type TEXT NOT NULL CHECK(type IN ('doc', 'link'))
            );
        "#;
        converge(&conn, schema_v1).await.unwrap();

        conn.execute("INSERT INTO items VALUES ('1', 'doc')", ())
            .await
            .unwrap();

        let schema_v2 = r#"
            CREATE TABLE items (
                id TEXT PRIMARY KEY,
                type TEXT NOT NULL CHECK(type IN ('doc', 'link', 'comment'))
            );
        "#;

        conn.execute(
            "INSERT OR REPLACE INTO _schema_meta (key, value) VALUES ('schema_hash', 'force')",
            (),
        )
        .await
        .unwrap();

        let options = ConvergeOptions {
            policy: ConvergePolicy::permissive(),
            ..Default::default()
        };
        let report = converge_with_options(&conn, schema_v2, &options)
            .await
            .unwrap();
        assert_eq!(
            report.tables_rebuilt, 1,
            "CHECK change should trigger table rebuild"
        );

        let mut rows = conn
            .query("SELECT type FROM items WHERE id = '1'", ())
            .await
            .unwrap();
        let row = rows.next().await.unwrap().unwrap();
        let val: String = row.get(0).unwrap();
        assert_eq!(val, "doc", "Data should survive CHECK constraint rebuild");

        let result = conn
            .execute("INSERT INTO items VALUES ('2', 'comment')", ())
            .await;
        assert!(
            result.is_ok(),
            "New CHECK should allow 'comment': {:?}",
            result.err()
        );
    });
}

#[test]
fn check_whitespace_normalization_no_diff() {
    wait(async {
        let schema_v1 = r#"
            CREATE TABLE items (
                id TEXT PRIMARY KEY,
                type TEXT CHECK( type IN ('a','b') )
            );
        "#;
        let schema_v2 = r#"
            CREATE TABLE items (
                id TEXT PRIMARY KEY,
                type TEXT CHECK(type IN ('a','b'))
            );
        "#;

        let desired = snapshot_of_sql(schema_v2).await.unwrap();
        let actual = snapshot_of_sql(schema_v1).await.unwrap();
        let diff = compute_diff(&desired, &actual);
        assert!(
            diff.is_empty(),
            "Whitespace-only CHECK difference should not trigger rebuild: {diff:?}"
        );
    });
}

#[test]
fn adding_table_level_check_triggers_rebuild() {
    wait(async {
        let schema_v1 = r#"
            CREATE TABLE edges (
                id TEXT PRIMARY KEY,
                from_id TEXT NOT NULL,
                to_id TEXT NOT NULL
            );
        "#;
        let schema_v2 = r#"
            CREATE TABLE edges (
                id TEXT PRIMARY KEY,
                from_id TEXT NOT NULL,
                to_id TEXT NOT NULL,
                CHECK(from_id != to_id)
            );
        "#;

        let desired = snapshot_of_sql(schema_v2).await.unwrap();
        let actual = snapshot_of_sql(schema_v1).await.unwrap();
        let diff = compute_diff(&desired, &actual);
        assert!(
            diff.tables_to_rebuild.contains(&"edges".to_string()),
            "Adding table-level CHECK should trigger rebuild, got diff: {diff:?}"
        );
    });
}

#[test]
fn removing_table_level_check_triggers_rebuild() {
    wait(async {
        let schema_v1 = r#"
            CREATE TABLE edges (
                id TEXT PRIMARY KEY,
                from_id TEXT NOT NULL,
                to_id TEXT NOT NULL,
                CHECK(from_id != to_id)
            );
        "#;
        let schema_v2 = r#"
            CREATE TABLE edges (
                id TEXT PRIMARY KEY,
                from_id TEXT NOT NULL,
                to_id TEXT NOT NULL
            );
        "#;

        let desired = snapshot_of_sql(schema_v2).await.unwrap();
        let actual = snapshot_of_sql(schema_v1).await.unwrap();
        let diff = compute_diff(&desired, &actual);
        assert!(
            diff.tables_to_rebuild.contains(&"edges".to_string()),
            "Removing table-level CHECK should trigger rebuild, got diff: {diff:?}"
        );
    });
}

#[test]
fn partial_index_same_where_no_diff() {
    wait(async {
        let schema = r#"
            CREATE TABLE t (id TEXT PRIMARY KEY, deleted INTEGER DEFAULT 0, col TEXT);
            CREATE INDEX idx ON t(col) WHERE deleted = 0;
        "#;

        let desired = snapshot_of_sql(schema).await.unwrap();
        let actual = snapshot_of_sql(schema).await.unwrap();
        let diff = compute_diff(&desired, &actual);
        assert!(
            diff.is_empty(),
            "Same partial index should produce no diff: {diff:?}"
        );
    });
}

#[test]
fn changed_where_clause_triggers_index_recreate() {
    wait(async {
        let schema_v1 = r#"
            CREATE TABLE t (id TEXT PRIMARY KEY, deleted INTEGER DEFAULT 0, active INTEGER DEFAULT 1, col TEXT);
            CREATE INDEX idx ON t(col) WHERE deleted = 0;
        "#;
        let schema_v2 = r#"
            CREATE TABLE t (id TEXT PRIMARY KEY, deleted INTEGER DEFAULT 0, active INTEGER DEFAULT 1, col TEXT);
            CREATE INDEX idx ON t(col) WHERE deleted = 0 AND active = 1;
        "#;

        let desired = snapshot_of_sql(schema_v2).await.unwrap();
        let actual = snapshot_of_sql(schema_v1).await.unwrap();
        let diff = compute_diff(&desired, &actual);

        assert!(
            diff.indexes_to_drop.contains(&"idx".to_string()),
            "Changed WHERE should drop old index, got diff: {diff:?}"
        );
        assert!(
            diff.indexes_to_create.contains(&"idx".to_string()),
            "Changed WHERE should create new index, got diff: {diff:?}"
        );
    });
}

#[test]
fn adding_where_clause_detects_diff() {
    wait(async {
        let schema_v1 = r#"
            CREATE TABLE t (id TEXT PRIMARY KEY, deleted INTEGER DEFAULT 0, col TEXT);
            CREATE INDEX idx ON t(col);
        "#;
        let schema_v2 = r#"
            CREATE TABLE t (id TEXT PRIMARY KEY, deleted INTEGER DEFAULT 0, col TEXT);
            CREATE INDEX idx ON t(col) WHERE deleted = 0;
        "#;

        let desired = snapshot_of_sql(schema_v2).await.unwrap();
        let actual = snapshot_of_sql(schema_v1).await.unwrap();
        let diff = compute_diff(&desired, &actual);

        assert!(
            diff.indexes_to_drop.contains(&"idx".to_string()),
            "Adding WHERE should drop old index: {diff:?}"
        );
        assert!(
            diff.indexes_to_create.contains(&"idx".to_string()),
            "Adding WHERE should create new index: {diff:?}"
        );
    });
}

#[test]
fn removing_where_clause_detects_diff() {
    wait(async {
        let schema_v1 = r#"
            CREATE TABLE t (id TEXT PRIMARY KEY, deleted INTEGER DEFAULT 0, col TEXT);
            CREATE INDEX idx ON t(col) WHERE deleted = 0;
        "#;
        let schema_v2 = r#"
            CREATE TABLE t (id TEXT PRIMARY KEY, deleted INTEGER DEFAULT 0, col TEXT);
            CREATE INDEX idx ON t(col);
        "#;

        let desired = snapshot_of_sql(schema_v2).await.unwrap();
        let actual = snapshot_of_sql(schema_v1).await.unwrap();
        let diff = compute_diff(&desired, &actual);

        assert!(
            diff.indexes_to_drop.contains(&"idx".to_string()),
            "Removing WHERE should drop old index: {diff:?}"
        );
        assert!(
            diff.indexes_to_create.contains(&"idx".to_string()),
            "Removing WHERE should create new index: {diff:?}"
        );
    });
}

#[test]
fn partial_index_where_change_converges_end_to_end() {
    wait(async {
        let (_db, conn) = empty_db().await;

        let schema_v1 = r#"
            CREATE TABLE objects (
                id TEXT PRIMARY KEY,
                type TEXT NOT NULL,
                archived_at TEXT,
                created_at TEXT NOT NULL DEFAULT (datetime('now'))
            );
            CREATE INDEX idx_objects_active ON objects(type, created_at) WHERE archived_at IS NULL;
        "#;
        converge(&conn, schema_v1).await.unwrap();

        conn.execute(
            "INSERT INTO objects (id, type, created_at) VALUES ('1', 'doc', '2024-01-01')",
            (),
        )
        .await
        .unwrap();

        let schema_v2 = r#"
            CREATE TABLE objects (
                id TEXT PRIMARY KEY,
                type TEXT NOT NULL,
                archived_at TEXT,
                created_at TEXT NOT NULL DEFAULT (datetime('now'))
            );
            CREATE INDEX idx_objects_active ON objects(type, created_at) WHERE archived_at IS NULL AND type != 'comment';
        "#;

        conn.execute(
            "INSERT OR REPLACE INTO _schema_meta (key, value) VALUES ('schema_hash', 'force')",
            (),
        )
        .await
        .unwrap();

        let options = ConvergeOptions {
            policy: ConvergePolicy::permissive(),
            ..Default::default()
        };
        let report = converge_with_options(&conn, schema_v2, &options)
            .await
            .unwrap();
        assert_eq!(report.mode, ConvergeMode::SlowPath);
        assert!(
            report.indexes_changed > 0,
            "Partial index WHERE change should register as index change"
        );

        let snap = snapshot_of(&conn).await.unwrap();
        let idx = snap.get_index("idx_objects_active").unwrap();
        let sql_lower = idx.sql.to_ascii_lowercase();
        assert!(
            sql_lower.contains("'comment'") && sql_lower.contains("where"),
            "New WHERE clause should be applied, got: {}",
            idx.sql
        );

        let mut rows = conn
            .query("SELECT id FROM objects WHERE id = '1'", ())
            .await
            .unwrap();
        assert!(
            rows.next().await.unwrap().is_some(),
            "Data should survive index recreation"
        );
    });
}

#[test]
fn partial_index_plan_drops_and_recreates() {
    wait(async {
        let schema_v1 = r#"
            CREATE TABLE t (id TEXT PRIMARY KEY, deleted INTEGER DEFAULT 0, col TEXT);
            CREATE INDEX idx ON t(col) WHERE deleted = 0;
        "#;
        let schema_v2 = r#"
            CREATE TABLE t (id TEXT PRIMARY KEY, deleted INTEGER DEFAULT 0, col TEXT);
            CREATE INDEX idx ON t(col) WHERE deleted = 0 AND col IS NOT NULL;
        "#;

        let desired = snapshot_of_sql(schema_v2).await.unwrap();
        let actual = snapshot_of_sql(schema_v1).await.unwrap();
        let diff = compute_diff(&desired, &actual);
        let plan = generate_plan(&diff, &desired, &actual).unwrap();

        let all_sql = plan
            .transactional_stmts
            .iter()
            .map(|s| s.to_ascii_lowercase())
            .collect::<Vec<_>>()
            .join("\n");

        assert!(
            all_sql.contains("drop index"),
            "Plan should drop old partial index: {all_sql}"
        );
        assert!(
            all_sql.contains("where"),
            "Plan should recreate with WHERE clause: {all_sql}"
        );
    });
}

#[test]
fn partial_index_idempotent() {
    wait(async {
        let (_db, conn) = empty_db().await;

        let schema = r#"
            CREATE TABLE t (id TEXT PRIMARY KEY, deleted INTEGER DEFAULT 0, col TEXT);
            CREATE INDEX idx ON t(col) WHERE deleted = 0;
        "#;

        converge(&conn, schema).await.unwrap();

        let options = ConvergeOptions {
            policy: ConvergePolicy::permissive(),
            ..Default::default()
        };
        let report = converge_with_options(&conn, schema, &options)
            .await
            .unwrap();
        assert_eq!(
            report.mode,
            ConvergeMode::FastPath,
            "Second converge with same schema should be fast path"
        );
    });
}

#[test]
fn fresh_db_no_bridge_needed() {
    wait(async {
        let (_db, conn) = empty_db().await;
        conn.execute(
            "CREATE TABLE IF NOT EXISTS _schema_meta (key TEXT PRIMARY KEY, value TEXT NOT NULL)",
            (),
        )
        .await
        .unwrap();

        let bridged = bridge_legacy(&conn).await.unwrap();
        assert!(!bridged, "Fresh DB should not need bridging");
    });
}

#[test]
fn legacy_db_gets_bridged() {
    wait(async {
        let (_db, conn) = empty_db().await;
        conn.execute(
            "CREATE TABLE IF NOT EXISTS _schema_meta (key TEXT PRIMARY KEY, value TEXT NOT NULL)",
            (),
        )
        .await
        .unwrap();
        conn.execute(
            "CREATE TABLE _turso_migrations (version INTEGER, name TEXT, applied_at TEXT)",
            (),
        )
        .await
        .unwrap();

        let bridged = bridge_legacy(&conn).await.unwrap();
        assert!(bridged, "Legacy DB should be bridged");

        let mut rows = conn
            .query(
                "SELECT value FROM _schema_meta WHERE key = 'legacy_complete'",
                (),
            )
            .await
            .unwrap();
        let row = rows.next().await.unwrap().unwrap();
        assert_eq!(row.get::<String>(0).unwrap(), "1");
    });
}

#[test]
fn already_bridged_db_skips() {
    wait(async {
        let (_db, conn) = empty_db().await;
        conn.execute(
            "CREATE TABLE IF NOT EXISTS _schema_meta (key TEXT PRIMARY KEY, value TEXT NOT NULL)",
            (),
        )
        .await
        .unwrap();
        conn.execute(
            "CREATE TABLE _turso_migrations (version INTEGER, name TEXT, applied_at TEXT)",
            (),
        )
        .await
        .unwrap();
        conn.execute(
            "INSERT INTO _schema_meta (key, value) VALUES ('legacy_complete', '1')",
            (),
        )
        .await
        .unwrap();

        let bridged = bridge_legacy(&conn).await.unwrap();
        assert!(!bridged, "Already-bridged DB should skip");
    });
}

#[test]
fn full_convergence_with_legacy_db() {
    wait(async {
        let (_db, conn) = empty_db().await;
        conn.execute(
            "CREATE TABLE _turso_migrations (version INTEGER, name TEXT, applied_at TEXT)",
            (),
        )
        .await
        .unwrap();

        converge(&conn, test_schema()).await.unwrap();

        let snap = snapshot_of(&conn).await.unwrap();
        assert_eq!(snap.tables.len(), 10);

        bridge_legacy(&conn).await.unwrap();

        let mut rows = conn
            .query(
                "SELECT value FROM _schema_meta WHERE key = 'legacy_complete'",
                (),
            )
            .await
            .unwrap();
        let row = rows.next().await.unwrap().unwrap();
        assert_eq!(row.get::<String>(0).unwrap(), "1");
    });
}

#[test]
fn converge_data_on_fresh_db() {
    wait(async {
        let (_db, conn) = empty_db().await;
        conn.execute(
            "CREATE TABLE IF NOT EXISTS _schema_meta (key TEXT PRIMARY KEY, value TEXT NOT NULL)",
            (),
        )
        .await
        .unwrap();

        converge_data(&conn).await.unwrap();
    });
}

#[test]
fn converge_data_is_idempotent() {
    wait(async {
        let (_db, conn) = empty_db().await;
        conn.execute(
            "CREATE TABLE IF NOT EXISTS _schema_meta (key TEXT PRIMARY KEY, value TEXT NOT NULL)",
            (),
        )
        .await
        .unwrap();

        converge_data(&conn).await.unwrap();
        converge_data(&conn).await.unwrap();
    });
}

#[test]
fn full_convergence_runs_data_migrations() {
    wait(async {
        let (_db, conn) = empty_db().await;
        converge(&conn, test_schema()).await.unwrap();

        let mut rows = conn
            .query(
                "SELECT name FROM sqlite_schema WHERE type = 'table' AND name = '_schema_meta'",
                (),
            )
            .await
            .unwrap();
        assert!(rows.next().await.unwrap().is_some());
    });
}

#[test]
fn dry_run_does_not_execute() {
    wait(async {
        let (_db, conn) = empty_db().await;
        let options = ConvergeOptions {
            policy: ConvergePolicy::permissive(),
            dry_run: true,
            ..Default::default()
        };
        let report = converge_with_options(&conn, test_schema(), &options)
            .await
            .unwrap();
        assert!(!report.plan_sql.is_empty());
        assert_eq!(report.mode, ConvergeMode::DryRun);

        let snap = snapshot_of(&conn).await.unwrap();
        assert!(snap.tables.is_empty());
    });
}

#[test]
fn converge_creates_schema() {
    wait(async {
        let (_db, conn) = empty_db().await;
        let options = ConvergeOptions {
            policy: ConvergePolicy::permissive(),
            ..Default::default()
        };
        let report = converge_with_options(&conn, test_schema(), &options)
            .await
            .unwrap();
        assert!(report.had_changes());

        let snap = snapshot_of(&conn).await.unwrap();
        assert_eq!(snap.tables.len(), 10);
    });
}

#[test]
fn safe_policy_keeps_extra_tables() {
    wait(async {
        let (_db, conn) = empty_db().await;
        let permissive = ConvergeOptions {
            policy: ConvergePolicy::permissive(),
            ..Default::default()
        };
        converge_with_options(&conn, test_schema(), &permissive)
            .await
            .unwrap();

        conn.execute("CREATE TABLE extra_legacy (id TEXT PRIMARY KEY)", ())
            .await
            .unwrap();
        conn.execute(
            "INSERT OR REPLACE INTO _schema_meta (key, value) VALUES ('schema_hash', 'force')",
            (),
        )
        .await
        .unwrap();

        let safe = ConvergeOptions::default();
        let result = converge_with_options(&conn, test_schema(), &safe).await;
        assert!(result.is_err(), "Safe policy should block table drops");

        let snap = snapshot_of(&conn).await.unwrap();
        assert!(
            snap.has_table("extra_legacy"),
            "Extra table should NOT be dropped when policy blocks drops"
        );
    });
}

#[test]
fn permissive_policy_drops_extra_tables() {
    wait(async {
        let (_db, conn) = empty_db().await;
        let permissive = ConvergeOptions {
            policy: ConvergePolicy::permissive(),
            ..Default::default()
        };
        converge_with_options(&conn, test_schema(), &permissive)
            .await
            .unwrap();

        conn.execute("CREATE TABLE extra_legacy (id TEXT PRIMARY KEY)", ())
            .await
            .unwrap();
        conn.execute(
            "INSERT OR REPLACE INTO _schema_meta (key, value) VALUES ('schema_hash', 'force')",
            (),
        )
        .await
        .unwrap();

        let report = converge_with_options(&conn, test_schema(), &permissive)
            .await
            .unwrap();
        assert_eq!(report.tables_dropped, 1);

        let snap = snapshot_of(&conn).await.unwrap();
        assert!(
            !snap.has_table("extra_legacy"),
            "Extra table SHOULD be dropped when policy allows drops"
        );
    });
}

#[test]
fn pristine_vs_empty_produces_full_create() {
    wait(async {
        let desired = snapshot_of_sql(test_schema())
            .await
            .expect("pristine snapshot");
        let actual = SchemaSnapshot::empty();

        let diff = compute_diff(&desired, &actual);

        assert_eq!(diff.tables_to_create.len(), desired.tables.len());
        assert_eq!(
            diff.indexes_to_create.len(),
            values(&desired.indexes).into_iter().filter(|i| !i.is_fts).count()
        );
        assert_eq!(
            diff.fts_indexes_to_create.len(),
            values(&desired.indexes).into_iter().filter(|i| i.is_fts).count()
        );
        assert_eq!(diff.views_to_create.len(), desired.views.len());
        assert_eq!(diff.triggers_to_create.len(), desired.triggers.len());

        assert!(diff.tables_to_drop.is_empty());
        assert!(diff.tables_to_rebuild.is_empty());
        assert!(diff.columns_to_add.is_empty());
        assert!(diff.indexes_to_drop.is_empty());
        assert!(diff.fts_indexes_to_drop.is_empty());
        assert!(diff.views_to_drop.is_empty());
        assert!(diff.triggers_to_drop.is_empty());
    });
}

#[test]
fn deterministic_fuzz_schemas_converge_and_stabilize() {
    wait(async {
        let (_db, conn) = empty_db().await;

        for seed in 1u64..=40 {
            let schema = schema_from_seed(seed);

            converge(&conn, &schema)
                .await
                .unwrap_or_else(|e| panic!("converge failed for seed {seed}: {e:?}"));
            converge(&conn, &schema)
                .await
                .unwrap_or_else(|e| panic!("idempotent converge failed for seed {seed}: {e:?}"));

            let desired = snapshot_of_sql(&schema).await.unwrap();
            let actual = snapshot_of(&conn).await.unwrap();
            let diff = compute_diff(&desired, &actual);
            assert!(
                diff.is_empty(),
                "schema drift after deterministic fuzz seed {seed}: {diff:?}"
            );
        }
    });
}

#[test]
fn pre_destructive_hook_can_block_migration() {
    wait(async {
        let (_db, conn) = empty_db().await;
        converge(&conn, test_schema()).await.unwrap();

        conn.execute("CREATE TABLE extra_table (id TEXT PRIMARY KEY)", ())
            .await
            .unwrap();
        conn.execute(
            "INSERT OR REPLACE INTO _schema_meta (key, value) VALUES ('schema_hash', 'force')",
            (),
        )
        .await
        .unwrap();

        let options = ConvergeOptions {
            policy: ConvergePolicy::permissive(),
            ..Default::default()
        };
        let hook = |changes: &DestructiveChangeSet| {
            if !changes.tables_to_drop.is_empty() {
                Err("table drops blocked by hook".to_string())
            } else {
                Ok(())
            }
        };

        let err = converge_with_hook(&conn, test_schema(), &options, &hook)
            .await
            .unwrap_err();
        match err {
            MigrateError::PreDestructiveHookRejected {
                message,
                blocked_operations,
            } => {
                assert!(message.contains("blocked"));
                assert!(blocked_operations
                    .iter()
                    .any(|op| op.contains("DROP TABLE")));
            }
            other => panic!("expected hook rejection, got: {other:?}"),
        }
        assert_eq!(get_meta(&conn, "migration_in_progress").await, None);
        assert_eq!(get_meta(&conn, "migration_owner").await, None);
    });
}

#[test]
fn pre_destructive_hook_receives_column_drops() {
    wait(async {
        let (_db, conn) = empty_db().await;
        let schema_v1 = "CREATE TABLE foo (id TEXT PRIMARY KEY, name TEXT, extra TEXT);";
        converge(&conn, schema_v1).await.unwrap();

        let schema_v2 = "CREATE TABLE foo (id TEXT PRIMARY KEY, name TEXT);";
        conn.execute(
            "INSERT OR REPLACE INTO _schema_meta (key, value) VALUES ('schema_hash', 'force')",
            (),
        )
        .await
        .unwrap();

        let hook_called = std::cell::Cell::new(false);
        let seen = std::rc::Rc::new(hook_called);
        let options = ConvergeOptions {
            policy: ConvergePolicy::permissive(),
            ..Default::default()
        };
        let inner = seen.clone();
        let hook = move |changes: &DestructiveChangeSet| {
            inner.set(true);
            assert!(
                changes
                    .columns_to_drop
                    .iter()
                    .any(|(t, c)| t == "foo" && c == "extra"),
                "Hook should see column drop: {:?}",
                changes.columns_to_drop
            );
            Ok(())
        };

        converge_with_hook(&conn, schema_v2, &options, &hook)
            .await
            .unwrap();
        assert!(seen.get(), "Hook should have been called");
    });
}

#[test]
fn snapshot_cache_reuses_normalized_schema_hash() {
    wait(async {
        let mut cache = SnapshotCache::new();
        SchemaSnapshot::clear_snapshot_cache_for_tests(&mut cache);
        assert_eq!(SchemaSnapshot::snapshot_cache_len_for_tests(&cache), 0);

        let formatted = format!("\n\n{}\n", test_schema());
        let commented = format!(
            "-- same schema with comment\n{}\n-- trailing",
            test_schema()
        );

        let first = snapshot_of_sql(&formatted).await.unwrap();
        cache.put(hash_schema(&formatted), first.clone());
        let len1 = SchemaSnapshot::snapshot_cache_len_for_tests(&cache);
        assert_eq!(len1, 1, "first schema load should fill cache");

        assert_eq!(cache.get(&hash_schema(&commented)), Some(first.clone()));
        cache.put(hash_schema(&commented), first);
        let len2 = SchemaSnapshot::snapshot_cache_len_for_tests(&cache);
        assert_eq!(
            len2, 1,
            "format/comment-only variants should reuse the same cache entry"
        );
    });
}

#[test]
fn triggers_need_their_capability() {
    wait(async {
        let (_db, conn) = empty_db().await;
        let schema = "\
            CREATE TABLE users (id TEXT PRIMARY KEY);\n\
            CREATE TRIGGER trg_ins AFTER INSERT ON users BEGIN SELECT 1; END;";
        let mut caps = detect(&conn).await.unwrap();
        caps.has_triggers = false;
        let options = ConvergeOptions {
            policy: ConvergePolicy::permissive(),
            capabilities: Some(caps),
            ..Default::default()
        };
        match converge_with_options(&conn, schema, &options).await {
            Err(MigrateError::UnsupportedFeature(msg)) => {
                assert!(msg.contains("trigger"));
                assert!(msg.contains(".experimental_triggers(true)"));
            }
            other => panic!("expected UnsupportedFeature, got: {other:?}"),
        }
        assert!(!snapshot_of(&conn).await.unwrap().has_table("users"));
    });
}

#[test]
fn backup_is_asked_for_before_a_drop() {
    wait(async {
        let (_db, conn) = empty_db().await;
        converge(&conn, "CREATE TABLE foo (id TEXT PRIMARY KEY);")
            .await
            .unwrap();
        let options = ConvergeOptions {
            policy: ConvergePolicy::permissive(),
            backup_before_destructive: Some("backups/old.sql".to_string()),
            ..Default::default()
        };
        let schema = "CREATE TABLE bar (id TEXT PRIMARY KEY);";
        let mut asked = Vec::new();
        let mut now = Session::start(schema, options, 1);
        loop {
            match now {
                Convergence::Ask(session) => {
                    if let Action::Backup { path, sql } = session.request() {
                        asked.push((path.clone(), sql.clone()));
                    }
                    let reply = perform(&conn, schema, &|_| Ok(()), session.request()).await;
                    now = session.advance(reply, epoch_secs(), Duration::zero());
                }
                Convergence::Ended(outcome) => {
                    outcome.unwrap();
                    break;
                }
            }
        }
        assert_eq!(asked.len(), 1);
        assert_eq!(asked[0].0, "backups/old.sql");
        assert!(asked[0].1.contains("CREATE TABLE foo"));
    });
}
