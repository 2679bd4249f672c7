//! Runs and sessions against answers that a test makes up.

use std::collections::BTreeMap;

use turso_converge::execute::{Execution, Run};
use turso_converge::hash::hash_schema;
use turso_converge::{
    Action, Capabilities, CIString, ColumnInfo, ConvergeMode, ConvergeOptions, ConvergePolicy,
    ConvergeReport, Convergence, DataMigration, Duration, Failpoint, MigrateError, MigrationPlan,
    Reply, SchemaSnapshot, Session, TableInfo,
};

// ---------------------------------------------------------------------------
// Runs of a plan
// ---------------------------------------------------------------------------

fn strings(list: &[&str]) -> Vec<String> {
    list.iter().map(|s| s.to_string()).collect()
}

fn plan(transactional: &[&str], batches: &[&str], rebuilt: &[&str]) -> MigrationPlan {
    MigrationPlan {
        new_tables: vec![],
        altered_tables: vec![],
        rebuilt_tables: strings(rebuilt),
        new_indexes: vec![],
        changed_indexes: vec![],
        new_views: vec![],
        changed_views: vec![],
        transactional_stmts: strings(transactional),
        non_transactional_stmts: strings(batches),
    }
}

fn shown(action: &Action) -> String {
    match action {
        Action::Execute(s) => s.clone(),
        Action::Batch(s) => format!("batch {s}"),
        Action::GetMeta(k) => format!("get {k}"),
        Action::SetMeta { key, value } => format!("set {key}={value}"),
        Action::DeleteMeta(k) => format!("delete {k}"),
        Action::RefreshLease(id) => format!("refresh {id}"),
        other => format!("{other:?}"),
    }
}

fn run(
    plan: &MigrationPlan,
    lease: &str,
    mut answer: impl FnMut(&str) -> Option<Reply>,
) -> (Vec<String>, Result<(), MigrateError>) {
    let mut asked = Vec::new();
    let mut now = Execution::start(plan, Duration::from_secs(2), lease);
    loop {
        match now {
            Run::Ask(execution) => {
                let text = shown(execution.request());
                let reply = answer(&text).unwrap_or(match execution.request() {
                    Action::ForeignKeyCheck => Reply::Violation(None),
                    _ => Reply::Done(1),
                });
                asked.push(text);
                now = execution.advance(reply);
            }
            Run::Ended(result) => return (asked, result),
        }
    }
}

#[test]
fn everything_runs_in_its_phase() {
    let p = plan(
        &["CREATE TABLE t (a)", "CREATE VIEW v AS SELECT 1", "CREATE TRIGGER g AFTER INSERT ON t BEGIN SELECT 1; END"],
        &["CREATE INDEX f ON t USING fts (a)", "DROP INDEX h; "],
        &["t"],
    );
    let (asked, result) = run(&p, "me", |_| None);
    assert_eq!(result, Ok(()));
    assert_eq!(
        asked,
        strings(&[
            "PRAGMA busy_timeout = 2000",
            "PRAGMA defer_foreign_keys = ON",
            "BEGIN IMMEDIATE",
            "CREATE TABLE t (a)",
            "ForeignKeyCheck",
            "COMMIT",
            "refresh me",
            "batch CREATE INDEX f ON t USING fts (a);",
            "batch DROP INDEX h; ",
            "refresh me",
            "BEGIN IMMEDIATE",
            "CREATE VIEW v AS SELECT 1",
            "COMMIT",
            "BEGIN IMMEDIATE",
            "CREATE TRIGGER g AFTER INSERT ON t BEGIN SELECT 1; END",
            "COMMIT",
        ])
    );
}

#[test]
fn an_empty_plan_asks_for_nothing() {
    assert_eq!(run(&plan(&[], &[], &[]), "me", |_| None), (vec![], Ok(())));
}

#[test]
fn a_failed_statement_is_undone() {
    let p = plan(&["CREATE TABLE a (x)", "CREATE TABLE b (x)"], &["X"], &[]);
    let (asked, result) = run(&p, "", |s| {
        if s == "CREATE TABLE b (x)" {
            Some(Reply::Failed("boom".to_string()))
        } else {
            None
        }
    });
    assert_eq!(
        asked,
        strings(&[
            "PRAGMA busy_timeout = 2000",
            "BEGIN IMMEDIATE",
            "CREATE TABLE a (x)",
            "CREATE TABLE b (x)",
            "ROLLBACK",
        ])
    );
    assert_eq!(
        result,
        Err(MigrateError::Statement {
            stmt: "CREATE TABLE b (x)".to_string(),
            source: "boom".to_string(),
            phase: "DDL".to_string(),
        })
    );
}

#[test]
fn a_dangling_key_is_undone() {
    let p = plan(&["CREATE TABLE a (x)"], &[], &["a"]);
    let (asked, result) = run(&p, "", |s| {
        if s == "ForeignKeyCheck" {
            Some(Reply::Violation(Some(("a".to_string(), 4, "p".to_string()))))
        } else {
            None
        }
    });
    assert_eq!(asked.last().unwrap(), "ROLLBACK");
    assert_eq!(
        result,
        Err(MigrateError::ForeignKeyViolation {
            table: "a".to_string(),
            rowid: 4,
            parent: "p".to_string(),
        })
    );
}

#[test]
fn pragmas_that_the_database_lacks_are_passed_over() {
    let p = plan(&["CREATE TABLE a (x)"], &[], &["a"]);
    let (_, result) = run(&p, "", |s| {
        if s == "ForeignKeyCheck" || s == "PRAGMA defer_foreign_keys = ON" {
            Some(Reply::Failed("not supported".to_string()))
        } else {
            None
        }
    });
    assert_eq!(result, Ok(()));
}

#[test]
fn a_lost_lease_stops_the_run() {
    let p = plan(&["CREATE TABLE a (x)"], &["X"], &[]);
    let (asked, result) = run(&p, "me", |s| {
        if s == "refresh me" {
            Some(Reply::Done(0))
        } else {
            None
        }
    });
    assert_eq!(asked.last().unwrap(), "refresh me");
    match result {
        Err(MigrateError::Schema(m)) => assert!(m.contains("lease was lost or expired")),
        other => panic!("expected a lost lease, got {other:?}"),
    }
}

#[test]
fn a_failed_batch_names_its_statement() {
    let (_, result) = run(&plan(&[], &["X"], &[]), "", |s| {
        if s == "batch X;" {
            Some(Reply::Failed("no".to_string()))
        } else {
            None
        }
    });
    assert_eq!(
        result,
        Err(MigrateError::Statement {
            stmt: "X".to_string(),
            source: "no".to_string(),
            phase: "FTS".to_string(),
        })
    );
}

#[test]
fn views_wait_for_each_other() {
    let a = "CREATE VIEW a AS SELECT * FROM b";
    let b = "CREATE VIEW b AS SELECT 1";
    let mut tries = 0;
    let (asked, result) = run(&plan(&[a, b], &[], &[]), "", |s| {
        if s == a {
            tries += 1;
            if tries == 1 {
                return Some(Reply::Failed("no such table: b".to_string()));
            }
        }
        None
    });
    assert_eq!(result, Ok(()));
    assert_eq!(
        asked,
        strings(&[
            "PRAGMA busy_timeout = 2000",
            "BEGIN IMMEDIATE",
            a,
            b,
            "COMMIT",
            "BEGIN IMMEDIATE",
            a,
            "COMMIT",
        ])
    );
}

#[test]
fn views_that_nobody_can_make_end_the_run() {
    let a = "CREATE VIEW a AS SELECT * FROM b";
    let (asked, result) = run(&plan(&[a], &[], &[]), "", |s| {
        if s == a {
            Some(Reply::Failed("No Such View: b".to_string()))
        } else {
            None
        }
    });
    assert_eq!(asked.last().unwrap(), "ROLLBACK");
    assert_eq!(
        result,
        Err(MigrateError::Schema(
            "Unable to resolve view creation order due to unresolved dependencies".to_string()
        ))
    );

    let (asked, result) = run(&plan(&[a], &[], &[]), "", |s| {
        if s == a {
            Some(Reply::Failed("syntax error".to_string()))
        } else {
            None
        }
    });
    assert_eq!(asked.last().unwrap(), "ROLLBACK");
    assert_eq!(
        result,
        Err(MigrateError::Statement {
            stmt: a.to_string(),
            source: "syntax error".to_string(),
            phase: "views".to_string(),
        })
    );
}

#[test]
fn a_failed_commit_is_undone() {
    let (asked, result) = run(&plan(&["CREATE TABLE a (x)"], &[], &[]), "", |s| {
        if s == "COMMIT" {
            Some(Reply::Failed("full".to_string()))
        } else {
            None
        }
    });
    assert_eq!(asked.last().unwrap(), "ROLLBACK");
    assert_eq!(result, Err(MigrateError::Turso("full".to_string())));
}

// ---------------------------------------------------------------------------
// Sessions
// ---------------------------------------------------------------------------

const SCHEMA: &str = "CREATE TABLE t (id TEXT PRIMARY KEY)";

fn one_table() -> SchemaSnapshot {
    let mut s = SchemaSnapshot::empty();
    s.tables.insert(
        CIString::new("t"),
        TableInfo {
            name: "t".to_string(),
            sql: SCHEMA.to_string(),
            columns: vec![ColumnInfo {
                name: "id".to_string(),
                col_type: "TEXT".to_string(),
                notnull: false,
                default_value: None,
                pk: 1,
                collation: None,
                is_generated: false,
                is_hidden: false,
            }],
            foreign_keys: vec![],
            check_constraints: vec![],
            is_strict: false,
            is_without_rowid: false,
            has_autoincrement: false,
        },
    );
    s
}

struct Fake {
    meta: BTreeMap<String, String>,
    counter: i64,
    version: Option<i64>,
    read_only: bool,
    desired: SchemaSnapshot,
    actual: SchemaSnapshot,
    refuse: Vec<String>,
    asked: Vec<String>,
}

impl Fake {
    fn new(desired: SchemaSnapshot, actual: SchemaSnapshot) -> Self {
        Fake {
            meta: BTreeMap::new(),
            counter: 7,
            version: None,
            read_only: false,
            desired,
            actual,
            refuse: vec![],
            asked: vec![],
        }
    }

    fn answer(&mut self, action: &Action) -> Reply {
        let text = shown(action);
        self.asked.push(text.clone());
        if self.refuse.contains(&text) {
            return Reply::Failed(format!("refused {text}"));
        }
        match action {
            Action::GetMeta(k) => Reply::Text(self.meta.get(k).cloned()),
            Action::SetMeta { key, value } => {
                self.meta.insert(key.clone(), value.clone());
                Reply::Done(1)
            }
            Action::DeleteMeta(k) => {
                self.meta.remove(k);
                Reply::Done(1)
            }
            Action::QueryOnly => Reply::Number(Some(if self.read_only { 1 } else { 0 })),
            Action::SchemaCounter => Reply::Number(Some(self.counter)),
            Action::StoredVersion => Reply::Number(self.version),
            Action::ForeignKeyCheck => Reply::Violation(None),
            Action::Probe => Reply::Capabilities(Capabilities::default()),
            Action::LoadDesired => Reply::Schema(self.desired.clone()),
            Action::LoadActual => Reply::Schema(self.actual.clone()),
            _ => Reply::Done(1),
        }
    }

    fn converge(
        &mut self,
        schema: &str,
        options: &ConvergeOptions,
    ) -> Result<ConvergeReport, MigrateError> {
        self.asked.clear();
        let mut now = Session::start(schema, options.clone(), 42);
        loop {
            match now {
                Convergence::Ask(session) => {
                    let reply = self.answer(session.request());
                    now = session.advance(reply, 1000, Duration::from_secs(3));
                }
                Convergence::Ended(outcome) => return outcome,
            }
        }
    }
}

fn permissive() -> ConvergeOptions {
    ConvergeOptions {
        policy: ConvergePolicy::permissive(),
        ..Default::default()
    }
}

#[test]
fn a_first_convergence_and_a_second() {
    let mut db = Fake::new(one_table(), SchemaSnapshot::empty());
    let report = db.converge(SCHEMA, &permissive()).unwrap();
    assert_eq!(report.mode, ConvergeMode::SlowPath);
    assert_eq!(report.tables_created, 1);
    assert_eq!(report.duration, Duration::from_secs(3));
    assert_eq!(
        db.asked,
        strings(&[
            "QueryOnly",
            "CREATE TABLE IF NOT EXISTS _schema_meta (key TEXT PRIMARY KEY, value TEXT NOT NULL)",
            "get schema_hash",
            "get migration_in_progress",
            "PRAGMA busy_timeout = 5000",
            "BEGIN IMMEDIATE",
            "get migration_owner",
            "get migration_lease_until",
            "set migration_owner=42_1000",
            "set migration_lease_until=1300",
            "set migration_in_progress=1",
            "COMMIT",
            "set migration_phase=introspect",
            "LoadDesired",
            "LoadActual",
            "Probe",
            "set previous_schema_sql=",
            "set migration_phase=ddl",
            "PRAGMA busy_timeout = 5000",
            "BEGIN IMMEDIATE",
            SCHEMA,
            "COMMIT",
            "refresh 42_1000",
            "set migration_phase=complete",
            "BEGIN IMMEDIATE",
            &format!("set schema_hash={}", hash_schema(SCHEMA)),
            "delete migration_in_progress",
            "delete migration_phase",
            "CREATE TABLE IF NOT EXISTS schema_version (version INTEGER NOT NULL, updated_at TEXT NOT NULL)",
            "StoredVersion",
            "DELETE FROM schema_version",
            "INSERT INTO schema_version (version, updated_at) VALUES (1, '1000')",
            "SchemaCounter",
            "set sqlite_schema_version=7",
            "COMMIT",
            "get migration_owner",
            "delete migration_owner",
            "delete migration_lease_until",
        ])
    );

    db.actual = one_table();
    let report = db.converge(SCHEMA, &permissive()).unwrap();
    assert_eq!(report.mode, ConvergeMode::FastPath);
    assert_eq!(
        db.asked,
        strings(&[
            "QueryOnly",
            "CREATE TABLE IF NOT EXISTS _schema_meta (key TEXT PRIMARY KEY, value TEXT NOT NULL)",
            "get schema_hash",
            "get migration_in_progress",
            "SchemaCounter",
            "get sqlite_schema_version",
        ])
    );

    let report = db.converge("create  table T (id text primary key); -- same", &permissive());
    assert_eq!(report.unwrap().mode, ConvergeMode::FastPath);

    db.counter = 8;
    let report = db.converge(SCHEMA, &permissive()).unwrap();
    assert_eq!(report.mode, ConvergeMode::NoOp);
    assert_eq!(db.meta["sqlite_schema_version"], "8");
}

#[test]
fn an_interrupted_migration_is_recovered() {
    let mut db = Fake::new(one_table(), one_table());
    db.meta.insert("schema_hash".to_string(), hash_schema(SCHEMA));
    db.meta.insert("sqlite_schema_version".to_string(), "7".to_string());
    db.meta.insert("migration_in_progress".to_string(), "1".to_string());
    let report = db.converge(SCHEMA, &permissive()).unwrap();
    assert_eq!(report.mode, ConvergeMode::CrashRecovery);
    assert!(!db.meta.contains_key("migration_in_progress"));
    assert!(!db.meta.contains_key("migration_owner"));
}

#[test]
fn a_held_lease_is_respected() {
    let mut db = Fake::new(one_table(), SchemaSnapshot::empty());
    db.meta.insert("migration_owner".to_string(), "9_9".to_string());
    db.meta.insert("migration_lease_until".to_string(), "1100".to_string());
    assert_eq!(
        db.converge(SCHEMA, &permissive()),
        Err(MigrateError::MigrationBusy {
            owner: "9_9".to_string(),
            remaining_secs: 100,
        })
    );
    assert_eq!(db.asked.last().unwrap(), "ROLLBACK");
    assert_eq!(db.meta["migration_owner"], "9_9");

    db.meta.insert("migration_lease_until".to_string(), "1000".to_string());
    assert!(db.converge(SCHEMA, &permissive()).is_ok());
}

#[test]
fn read_only_databases_are_left_alone() {
    let mut db = Fake::new(one_table(), SchemaSnapshot::empty());
    db.read_only = true;
    assert_eq!(db.converge(SCHEMA, &permissive()), Err(MigrateError::ReadOnly));
    assert_eq!(db.asked, strings(&["QueryOnly"]));

    db.read_only = false;
    let make = "CREATE TABLE IF NOT EXISTS _schema_meta (key TEXT PRIMARY KEY, value TEXT NOT NULL)";
    db.refuse = strings(&[make]);
    assert_eq!(
        db.converge(SCHEMA, &permissive()),
        Err(MigrateError::Turso(format!("refused {make}")))
    );
    assert_eq!(db.asked, strings(&["QueryOnly", make, "QueryOnly"]));
}

#[test]
fn an_empty_schema_is_refused() {
    let mut db = Fake::new(one_table(), SchemaSnapshot::empty());
    assert_eq!(
        db.converge("  \n", &permissive()),
        Err(MigrateError::Schema("empty schema SQL".to_string()))
    );
    assert!(db.asked.is_empty());
}

#[test]
fn the_policy_comes_before_any_change() {
    let mut db = Fake::new(SchemaSnapshot::empty(), one_table());
    match db.converge(SCHEMA, &ConvergeOptions::default()) {
        Err(MigrateError::PolicyViolation { blocked_operations, .. }) => {
            assert_eq!(blocked_operations, strings(&["DROP TABLE t"]));
        }
        other => panic!("expected a policy violation, got {other:?}"),
    }
    assert!(!db.asked.iter().any(|s| s.contains("DROP")));
    assert!(!db.meta.contains_key("migration_in_progress"));
    assert!(!db.meta.contains_key("migration_phase"));
    assert!(!db.meta.contains_key("migration_owner"));
}

#[test]
fn a_dry_run_only_shows_the_plan() {
    let mut db = Fake::new(one_table(), SchemaSnapshot::empty());
    let options = ConvergeOptions {
        dry_run: true,
        ..permissive()
    };
    let report = db.converge(SCHEMA, &options).unwrap();
    assert_eq!(report.mode, ConvergeMode::DryRun);
    assert_eq!(report.plan_sql, strings(&[SCHEMA]));
    assert!(!db.asked.contains(&SCHEMA.to_string()));
    assert!(!db.meta.contains_key("schema_hash"));
    assert!(!db.meta.contains_key("migration_in_progress"));
}

#[test]
fn a_dry_run_without_a_difference_runs_nothing() {
    let mut db = Fake::new(one_table(), one_table());
    let options = ConvergeOptions {
        dry_run: true,
        data_migrations: vec![DataMigration {
            id: "one".to_string(),
            statements: strings(&["UPDATE t SET id = 1"]),
        }],
        ..permissive()
    };
    db.meta.insert("migration_in_progress".to_string(), "1".to_string());
    let report = db.converge(SCHEMA, &options).unwrap();
    assert_eq!(report.mode, ConvergeMode::DryRun);
    assert!(report.plan_sql.is_empty());
    assert_eq!(report.data_migrations_applied, 0);
    assert!(!db.asked.contains(&"UPDATE t SET id = 1".to_string()));
    assert_eq!(db.asked.iter().filter(|a| *a == "BEGIN IMMEDIATE").count(), 1);
    assert!(db.meta.is_empty());
}

#[test]
fn failpoints_stop_where_they_stand() {
    let with = |point: Failpoint| ConvergeOptions {
        failpoint: Some(point),
        ..permissive()
    };
    let stop = |name: &str| {
        Err(MigrateError::InjectedFailure {
            failpoint: name.to_string(),
        })
    };
    let mut db = Fake::new(one_table(), SchemaSnapshot::empty());
    assert_eq!(db.converge(SCHEMA, &with(Failpoint::BeforeIntrospect)), stop("before_introspect"));
    assert!(!db.meta.contains_key("migration_in_progress"));
    assert_eq!(db.converge(SCHEMA, &with(Failpoint::BeforeExecute)), stop("before_execute"));
    assert!(!db.meta.contains_key("migration_in_progress"));
    assert!(!db.asked.contains(&SCHEMA.to_string()));
    assert_eq!(
        db.converge(SCHEMA, &with(Failpoint::AfterExecuteBeforeState)),
        stop("after_execute_before_state")
    );
    assert_eq!(db.meta["migration_in_progress"], "1");
    assert!(!db.meta.contains_key("migration_owner"));
}

#[test]
fn a_failed_plan_keeps_its_marks() {
    let mut db = Fake::new(one_table(), SchemaSnapshot::empty());
    db.refuse = strings(&[SCHEMA]);
    match db.converge(SCHEMA, &permissive()) {
        Err(MigrateError::Statement { stmt, phase, .. }) => {
            assert_eq!(stmt, SCHEMA);
            assert_eq!(phase, "DDL");
        }
        other => panic!("expected a failed statement, got {other:?}"),
    }
    assert_eq!(db.meta["migration_in_progress"], "1");
    assert_eq!(db.meta["migration_phase"], "ddl");
    assert!(!db.meta.contains_key("migration_owner"));
}

#[test]
fn data_migrations_run_once() {
    let mut db = Fake::new(one_table(), one_table());
    let options = ConvergeOptions {
        data_migrations: vec![
            DataMigration {
                id: "one".to_string(),
                statements: strings(&["INSERT 1", "INSERT 2"]),
            },
            DataMigration {
                id: "two".to_string(),
                statements: vec![],
            },
        ],
        ..permissive()
    };
    let report = db.converge(SCHEMA, &options).unwrap();
    assert_eq!(report.data_migrations_applied, 2);
    assert_eq!(report.mode, ConvergeMode::SlowPath);
    assert_eq!(db.meta["data_migration:one"], "1000");
    let report = db.converge(SCHEMA, &options).unwrap();
    assert_eq!(report.mode, ConvergeMode::FastPath);
    assert!(!db.asked.contains(&"INSERT 1".to_string()));

    db.meta.remove("data_migration:two");
    let report = db.converge(SCHEMA, &options).unwrap();
    assert_eq!(report.data_migrations_applied, 1);
    assert!(!db.asked.contains(&"INSERT 1".to_string()));

    db.meta.remove("data_migration:one");
    db.refuse = strings(&["INSERT 2"]);
    match db.converge(SCHEMA, &options) {
        Err(MigrateError::Statement { stmt, phase, .. }) => {
            assert_eq!(stmt, "INSERT 2");
            assert_eq!(phase, "data_migration");
        }
        other => panic!("expected a failed statement, got {other:?}"),
    }
    assert!(db.asked.contains(&"ROLLBACK".to_string()));
    assert!(!db.meta.contains_key("data_migration:one"));

    let blank = ConvergeOptions {
        data_migrations: vec![DataMigration {
            id: " ".to_string(),
            statements: vec![],
        }],
        ..permissive()
    };
    assert_eq!(
        db.converge(SCHEMA, &blank),
        Err(MigrateError::Schema("data migration id must not be empty".to_string()))
    );
}

#[test]
fn a_backup_comes_before_the_hook_and_the_plan() {
    let mut db = Fake::new(SchemaSnapshot::empty(), one_table());
    let options = ConvergeOptions {
        backup_before_destructive: Some("/backups".to_string()),
        ..permissive()
    };
    db.converge("CREATE TABLE u (id TEXT)", &options).unwrap();
    let at = |start: &str| db.asked.iter().position(|a| a.starts_with(start)).unwrap();
    assert_eq!(
        db.asked[at("Backup")],
        format!("Backup {{ path: \"/backups\", sql: \"{SCHEMA};\" }}")
    );
    assert!(at("Backup") < at("Hook"));
    assert!(at("Hook") < at("set previous_schema_sql"));
    assert_eq!(
        db.asked[at("set previous_schema_sql")],
        format!("set previous_schema_sql={SCHEMA};")
    );
    assert!(at("set previous_schema_sql") < at("DROP TABLE IF EXISTS \"t\""));
}

#[test]
fn a_version_that_cannot_grow_is_undone() {
    let mut db = Fake::new(one_table(), SchemaSnapshot::empty());
    db.version = Some(4294967295);
    assert_eq!(
        db.converge(SCHEMA, &permissive()),
        Err(MigrateError::Schema("schema_version overflow".to_string()))
    );
    assert!(db.asked.contains(&"ROLLBACK".to_string()));
    db.version = Some(-5);
    assert_eq!(
        db.converge(SCHEMA, &permissive()),
        Err(MigrateError::Schema("invalid schema_version value: -5".to_string()))
    );
}

#[test]
fn a_schema_text_is_looked_at_before_it_is_read() {
    let mut db = Fake::new(one_table(), SchemaSnapshot::empty());
    match db.converge("CREATE TABLE t (id TEXT) WITHOUT ROWID", &permissive()) {
        Err(MigrateError::UnsupportedFeature(m)) => assert!(m.contains("WITHOUT ROWID")),
        other => panic!("expected UnsupportedFeature, got {other:?}"),
    }
    assert!(db.asked.contains(&"Probe".to_string()));
    assert!(!db.asked.contains(&"LoadDesired".to_string()));
}
