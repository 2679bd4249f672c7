//! Exact values of the pure functions, and the laws on concrete values.

use turso_converge::bridge::needs_bridge;
use turso_converge::closing::is_pre_ddl_failure;
use turso_converge::converge::{
    backup_file_name, check_schema_given, combine_schema_parts, previous_schema, validation_error,
};
use turso_converge::data_migrations::{
    current_data_version, data_version_of, data_version_to_store,
};
use turso_converge::ddl::{
    detect_autoincrement, detect_strict, detect_without_rowid, enrich_columns_with_collation,
    extract_check_constraints, find_collation, is_materialized_view_sql,
    parse_fk_references_from_sql,
};
use turso_converge::diff::{
    are_hints_applicable, can_add_column, can_drop_column, compute_diff, compute_diff_with_hints,
};
use turso_converge::entry::{
    check_lease, data_migration_key, is_read_only_error, lease_expiry, lease_id,
    refuses_writes_now,
};
use turso_converge::execute::{classify_create_stmt, set_busy_timeout, CreateKind};
use turso_converge::format::{
    decimal_of, decimal_of_wide, join, parse_number, parse_signed, quote_ident, signed_decimal_of,
};
use turso_converge::hash::{fingerprint_rows, hash_schema, CatalogRow};
use turso_converge::introspect::{
    is_internal_object, is_marked_unique, is_meta_table, keys_from_rows, parse_version, KeyRow,
    Probes, SnapshotCache, CACHE_LIMIT,
};
use turso_converge::normalize::{normalize_for_hash, normalize_sql, same_sql};
use turso_converge::order::{arrange, stage, view_depends_on_table, Item, Named};
use turso_converge::plan::{
    build_add_column_stmt, generate_plan, is_protected_table, rewrite_create_table_name,
};
use turso_converge::policy::{
    check_failpoint, check_policy, check_schema_text, scan_features, validate_features,
};
use turso_converge::script::{is_missing_dependency_error, Action};
use turso_converge::work::{next_version, version_from};
use turso_converge::{
    CIMap, CIString, Capabilities, ColumnInfo, ColumnRenameHint, ConvergeOptions, ConvergePolicy,
    ConvergeReport, Duration, Failpoint, ForeignKey, IndexInfo, MigrateError, Migrator,
    SchemaDiff, SchemaSnapshot, TableInfo, TriggerInfo, ViewInfo,
};

fn strings(list: &[&str]) -> Vec<String> {
    list.iter().map(|s| s.to_string()).collect()
}

fn column(name: &str, col_type: &str) -> ColumnInfo {
    ColumnInfo {
        name: name.to_string(),
        col_type: col_type.to_string(),
        notnull: false,
        default_value: None,
        pk: 0,
        collation: None,
        is_generated: false,
        is_hidden: false,
    }
}

fn key_column(name: &str) -> ColumnInfo {
    ColumnInfo {
        pk: 1,
        ..column(name, "TEXT")
    }
}

fn table(name: &str, columns: Vec<ColumnInfo>) -> TableInfo {
    TableInfo {
        name: name.to_string(),
        sql: format!("CREATE TABLE {name} (id TEXT PRIMARY KEY)"),
        columns,
        foreign_keys: vec![],
        check_constraints: vec![],
        is_strict: false,
        is_without_rowid: false,
        has_autoincrement: false,
    }
}

fn pointing(name: &str, to: &str) -> TableInfo {
    TableInfo {
        foreign_keys: vec![ForeignKey {
            from_columns: strings(&["parent"]),
            to_table: to.to_string(),
            to_columns: strings(&["id"]),
            on_delete: "NO ACTION".to_string(),
            on_update: "NO ACTION".to_string(),
        }],
        ..table(name, vec![key_column("id"), column("parent", "TEXT")])
    }
}

fn snapshot(tables: Vec<TableInfo>) -> SchemaSnapshot {
    let mut s = SchemaSnapshot::empty();
    for t in tables {
        s.tables.insert(CIString::new(&t.name), t);
    }
    s
}

fn empty_diff() -> SchemaDiff {
    compute_diff(&SchemaSnapshot::empty(), &SchemaSnapshot::empty())
}

// ---------------------------------------------------------------------------
// Formats
// ---------------------------------------------------------------------------

#[test]
fn numbers_are_written_in_decimal() {
    assert_eq!(decimal_of(0), "0");
    assert_eq!(decimal_of(u64::MAX), "18446744073709551615");
    assert_eq!(decimal_of_wide(18446744073709551615000), "18446744073709551615000");
    assert_eq!(signed_decimal_of(-1), "-1");
    assert_eq!(signed_decimal_of(i64::MIN), "-9223372036854775808");
    assert_eq!(signed_decimal_of(i64::MAX), "9223372036854775807");
}

#[test]
fn numbers_are_read_as_std_reads_them() {
    for s in [
        "", "+", "-", "0", "+7", "-7", "007", "18446744073709551615", "18446744073709551616",
        " 1", "1 ", "1a", "9223372036854775807", "9223372036854775808", "-9223372036854775808",
        "-9223372036854775809", "--1", "+-1", "-0", "４",
    ] {
        assert_eq!(parse_number(s, u64::MAX), s.parse::<u64>().ok(), "{s:?}");
        assert_eq!(parse_number(s, 255), s.parse::<u8>().ok().map(u64::from), "{s:?}");
        assert_eq!(parse_signed(s), s.parse::<i64>().ok(), "{s:?}");
    }
}

#[test]
fn identifiers_are_quoted() {
    assert_eq!(quote_ident("users"), "\"users\"");
    assert_eq!(quote_ident("a\"b"), "\"a\"\"b\"");
    assert_eq!(quote_ident(""), "\"\"");
    assert_eq!(join(&strings(&["a", "b", "c"]), ", "), "a, b, c");
    assert_eq!(join(&strings(&[]), ", "), "");
}

// ---------------------------------------------------------------------------
// Normal forms and fingerprints
// ---------------------------------------------------------------------------

#[test]
fn normal_form_is_reached_in_one_step() {
    for s in [
        "CREATE  TABLE\tFoo (Id TEXT) ; ;",
        "-- a\nSELECT 'It''s  X' /* b /* c */ d */ , \"Y  Z\" ",
        "'open",
        "/* open",
        "\u{a0}SELECT 1\u{a0}",
        "",
    ] {
        let once = normalize_sql(s);
        assert_eq!(normalize_sql(&once), once);
    }
    assert_eq!(normalize_sql("CREATE  TABLE\n\tFoo (Id TEXT)"), "create table foo (id text)");
    assert_eq!(normalize_sql("a/**/b"), "a b");
    assert_eq!(normalize_for_hash("SELECT 1 ; ;;"), "select 1");
    assert_eq!(normalize_for_hash("a; ;"), "a");
    assert_eq!(normalize_for_hash(" ; ; "), "");
    assert_eq!(normalize_for_hash("a;\u{a0};b ; -- c"), "a;\u{a0};b");
    assert_eq!(normalize_for_hash("SELECT 1;;"), "select 1");
}

#[test]
fn literals_keep_case_and_space() {
    assert_eq!(normalize_sql("SELECT 'A  b', \"C  d\""), "select 'A  b', \"C  d\"");
    assert!(!same_sql("SELECT 'Active'", "SELECT 'active'"));
    assert!(same_sql("SELECT  1 -- one", "select 1"));
    assert!(same_sql("INTEGER", "integer"));
}

#[test]
fn fingerprints_are_those_of_blake3() {
    assert_eq!(
        hash_schema(""),
        "af1349b9f5f9a1a6a0404dea36dcc9499bcb25c9adc112b7cc9a93cae41f3262"
    );
    assert_eq!(
        hash_schema("SELECT  1;"),
        blake3::hash(b"select 1").to_hex().to_string()
    );
    assert_eq!(hash_schema("SELECT 1"), hash_schema("-- c\nselect /* d */ 1 ;"));
    assert_ne!(hash_schema("SELECT 'a'"), hash_schema("SELECT 'A'"));
}

#[test]
fn comments_and_blank_lines_change_no_fingerprint() {
    let schema = "CREATE TABLE a (id TEXT DEFAULT '-- ;');\nCREATE TABLE b (id TEXT); -- two";
    let plain = hash_schema(schema);
    assert_eq!(hash_schema(&format!("-- head\n{schema}\n-- tail")), plain);
    assert_eq!(hash_schema(&format!("\n\n{schema}\n")), plain);
    assert_eq!(hash_schema(&format!("{schema}\n/* tail\n */ ;\n")), plain);
    assert_eq!(
        hash_schema("CREATE TABLE a (id TEXT);\n-- between\nCREATE TABLE b (id TEXT)"),
        hash_schema("CREATE TABLE a (id TEXT);\nCREATE TABLE b (id TEXT)")
    );
    let open = "CREATE TABLE a (id TEXT) /* open";
    assert_eq!(hash_schema(&format!("{open}\n-- still open")), hash_schema(open));
    assert_ne!(hash_schema(&format!("{open}\n-- */ more")), hash_schema(open));
    assert_ne!(hash_schema("CREATE TABLE a (id TEXT DEFAULT 'x"), hash_schema("CREATE TABLE a (id TEXT DEFAULT 'x\n-- y"));
}

#[test]
fn fingerprint_of_a_catalogue() {
    let rows = vec![
        CatalogRow {
            kind: "table".to_string(),
            name: "t".to_string(),
            sql: Some("CREATE TABLE t  (id TEXT);".to_string()),
        },
        CatalogRow {
            kind: "index".to_string(),
            name: "i".to_string(),
            sql: None,
        },
    ];
    let mut hasher = blake3::Hasher::new();
    hasher.update(b"table");
    hasher.update(b"t");
    hasher.update(b"create table t (id text)");
    hasher.update(b"index");
    hasher.update(b"i");
    assert_eq!(fingerprint_rows(&rows), hasher.finalize().to_hex().to_string());
    assert_eq!(
        fingerprint_rows(&vec![]),
        "af1349b9f5f9a1a6a0404dea36dcc9499bcb25c9adc112b7cc9a93cae41f3262"
    );
}

#[test]
fn migrator_holds_its_fingerprint() {
    let m = Migrator::new("CREATE TABLE t (id TEXT);");
    assert_eq!(m.schema_sql(), "CREATE TABLE t (id TEXT);");
    assert_eq!(m.schema_hash(), hash_schema("create table t (id text)"));
}

// ---------------------------------------------------------------------------
// Statements
// ---------------------------------------------------------------------------

#[test]
fn kinds_of_statements() {
    assert_eq!(classify_create_stmt("create materialized view v as select 1"), Some(CreateKind::View));
    assert_eq!(classify_create_stmt("CREATE MATERIALIZED TABLE t"), None);
    assert_eq!(classify_create_stmt("-- only a comment"), None);
    assert_eq!(classify_create_stmt("/* open"), None);
    assert_eq!(classify_create_stmt("CREATE TEMP"), None);
    assert_eq!(classify_create_stmt(""), None);
    assert_eq!(classify_create_stmt("DROP VIEW v"), None);
}

#[test]
fn properties_of_a_create_statement() {
    assert!(detect_autoincrement("CREATE TABLE t (id INTEGER PRIMARY KEY AutoIncrement)"));
    assert!(!detect_autoincrement("CREATE TABLE t (id INTEGER PRIMARY KEY)"));
    assert!(detect_strict("CREATE TABLE t (id TEXT) STRICT;"));
    assert!(!detect_strict("CREATE TABLE strict (id TEXT)"));
    assert!(detect_without_rowid("CREATE TABLE t (id TEXT PRIMARY KEY) WITHOUT ROWID"));
    assert!(is_materialized_view_sql("Create  Materialized\nView v AS SELECT 1"));
    assert!(!is_materialized_view_sql("CREATE VIEW materialized AS SELECT 1"));
}

#[test]
fn check_constraints_are_found_and_sorted() {
    assert_eq!(
        extract_check_constraints(
            "CREATE TABLE t (b TEXT CHECK (length(b) > 1), a INTEGER CHECK(a  >  0), \
             note TEXT DEFAULT 'CHECK (x)')"
        ),
        strings(&["a > 0", "length(b) > 1"])
    );
    assert_eq!(extract_check_constraints("CREATE TABLE t (a INTEGER)"), strings(&[]));
}

#[test]
fn collations_are_found() {
    let sql = "CREATE TABLE t (id TEXT PRIMARY KEY, label TEXT COLLATE NOCASE, note TEXT)";
    assert_eq!(find_collation(sql, "LABEL").map(|c| c.to_lowercase()), Some("nocase".to_string()));
    assert_eq!(find_collation(sql, "note"), None);
    let columns = enrich_columns_with_collation(sql, &vec![column("label", "TEXT")]);
    assert!(columns[0].collation.is_some());
}

#[test]
fn references_are_found() {
    let refs = parse_fk_references_from_sql(
        "CREATE TABLE c (p TEXT REFERENCES a, q TEXT references \"b c\"(id))",
    );
    assert_eq!(
        refs.iter().map(|r| r.to_table.as_str()).collect::<Vec<_>>(),
        vec!["a", "b c"]
    );
    let refs = parse_fk_references_from_sql(
        "CREATE TABLE c (\"a references b\" TEXT, d TEXT DEFAULT 'references e' REFERENCES f)",
    );
    assert_eq!(
        refs.iter().map(|r| r.to_table.as_str()).collect::<Vec<_>>(),
        vec!["f"]
    );
}

#[test]
fn temporary_name_takes_the_place_of_the_name() {
    assert_eq!(
        rewrite_create_table_name("CREATE TABLE foo (id TEXT)", "tmp"),
        "CREATE TABLE \"tmp\" (id TEXT)"
    );
    assert_eq!(
        rewrite_create_table_name("CREATE TABLE IF NOT EXISTS foo(id TEXT)", "tmp"),
        "CREATE TABLE IF NOT EXISTS \"tmp\"(id TEXT)"
    );
}

#[test]
fn added_columns_in_words() {
    let plain = column("extra", "TEXT");
    assert_eq!(
        build_add_column_stmt("foo", &plain),
        "ALTER TABLE \"foo\" ADD COLUMN \"extra\" TEXT"
    );
    let full = ColumnInfo {
        notnull: true,
        default_value: Some("'x'".to_string()),
        ..column("status", "TEXT")
    };
    assert_eq!(
        build_add_column_stmt("foo", &full),
        "ALTER TABLE \"foo\" ADD COLUMN \"status\" TEXT NOT NULL DEFAULT 'x'"
    );
}

// ---------------------------------------------------------------------------
// Names
// ---------------------------------------------------------------------------

#[test]
fn internal_and_protected_names() {
    for name in [
        "sqlite_sequence", "SQLITE_x", "fts_dir_1", "__turso_internal_x", "_cap_probe_fts",
        "_schema_meta", "_converge_new_foo_0", "_Turso_Migrations",
    ] {
        assert!(is_internal_object(name), "{name}");
        assert!(is_protected_table(name), "{name}");
    }
    assert!(!is_internal_object("users"));
    assert!(!is_protected_table("users"));
    assert!(is_meta_table("_Schema_Meta"));
    assert!(!is_meta_table("_schema_meta2"));
}

#[test]
fn names_order_by_lower_case() {
    let mut map: CIMap<u8> = CIMap::new();
    assert_eq!(map.insert(CIString::new("b"), 1), None);
    assert_eq!(map.insert(CIString::new("A"), 2), None);
    assert_eq!(map.insert(CIString::new("B"), 3), Some(1));
    assert_eq!(map.len(), 2);
    assert_eq!(map.key_at(0), "A");
    assert_eq!(map.key_at(1), "b");
    assert_eq!(map.get(&CIString::new("B")), Some(&3));
    assert!(map.contains_key(&CIString::new("a")));
    assert!(!map.contains_key(&CIString::new("c")));
    assert_eq!(CIString::new("Users").to_string(), "Users");
    assert!(CIString::new("apple") < CIString::new("Banana"));
    assert!(CIString::new("Apple") < CIString::new("banana"));
    assert!(CIString::new("a_b") < CIString::new("AB"));
    assert!(CIString::new("ab") > CIString::new("A"));
    assert!(CIString::new("USERS") <= CIString::new("users"));
    assert_eq!(
        CIString::new("USERS").partial_cmp(&CIString::new("users")),
        Some(std::cmp::Ordering::Equal)
    );
}

#[test]
fn a_report_tells_whether_the_schema_is_converged() {
    let mut r = ConvergeReport::default();
    assert!(r.is_converged());
    assert_eq!(r.clone(), r);
    r.plan_sql = strings(&["DROP TRIGGER IF EXISTS \"x\""]);
    assert!(!r.is_converged());
    assert_eq!(r.clone(), r);
    r.plan_sql.clear();
    r.tables_dropped = 1;
    assert!(!r.is_converged());
}

#[test]
fn query_only_connections_refuse_writes() {
    assert!(refuses_writes_now(Some(1)));
    assert!(!refuses_writes_now(Some(0)));
    assert!(!refuses_writes_now(None));
}

#[test]
fn words_of_a_view() {
    assert!(view_depends_on_table("SELECT * FROM Users u", "users"));
    assert!(!view_depends_on_table("SELECT * FROM users_old", "users"));
}

// ---------------------------------------------------------------------------
// Order
// ---------------------------------------------------------------------------

#[test]
fn items_come_behind_what_they_need() {
    let item = |name: &str, needs: &[&str]| Item {
        name: name.to_string(),
        needs: strings(needs),
    };
    assert_eq!(
        arrange(vec![item("a", &["b"]), item("b", &["c"]), item("c", &[])]),
        strings(&["c", "b", "a"])
    );
    let circle = arrange(vec![item("a", &["b"]), item("b", &["a"]), item("c", &[])]);
    assert_eq!(circle, strings(&["c", "a", "b"]));
}

#[test]
fn views_come_behind_those_that_they_mention() {
    let named = |name: &str, sql: &str| Named {
        name: name.to_string(),
        sql: Some(sql.to_string()),
    };
    assert_eq!(
        stage(vec![named("a", "SELECT * FROM b"), named("b", "SELECT 1")]),
        strings(&["b", "a"])
    );
}

// ---------------------------------------------------------------------------
// Differences and plans
// ---------------------------------------------------------------------------

#[test]
fn a_schema_has_no_difference_to_itself() {
    let mut s = snapshot(vec![pointing("child", "parent"), table("parent", vec![key_column("id")])]);
    s.views.insert(
        CIString::new("v"),
        ViewInfo {
            name: "v".to_string(),
            sql: "CREATE VIEW v AS SELECT 1".to_string(),
            is_materialized: false,
        },
    );
    let d = compute_diff(&s, &s.clone());
    assert!(d.is_empty());
    let p = generate_plan(&d, &s, &s).unwrap();
    assert!(p.is_empty());
}

#[test]
fn new_tables_come_behind_their_parents() {
    let desired = snapshot(vec![
        pointing("aaa", "Mmm"),
        pointing("mmm", "zzz"),
        table("zzz", vec![key_column("id")]),
    ]);
    let actual = SchemaSnapshot::empty();
    let plan = generate_plan(&compute_diff(&desired, &actual), &desired, &actual).unwrap();
    assert_eq!(plan.new_tables, strings(&["zzz", "mmm", "aaa"]));
    assert_eq!(
        plan.transactional_stmts,
        strings(&[
            "CREATE TABLE zzz (id TEXT PRIMARY KEY)",
            "CREATE TABLE mmm (id TEXT PRIMARY KEY)",
            "CREATE TABLE aaa (id TEXT PRIMARY KEY)",
        ])
    );
}

#[test]
fn protected_tables_stay() {
    let actual = snapshot(vec![
        table("_turso_migrations", vec![key_column("id")]),
        table("old", vec![key_column("id")]),
    ]);
    let desired = SchemaSnapshot::empty();
    let diff = compute_diff(&desired, &actual);
    assert_eq!(diff.tables_to_drop, strings(&["_turso_migrations", "old"]));
    let plan = generate_plan(&diff, &desired, &actual).unwrap();
    assert_eq!(plan.transactional_stmts, strings(&["DROP TABLE IF EXISTS \"old\""]));
}

#[test]
fn rebuild_refuses_a_column_without_a_value() {
    let actual = snapshot(vec![table("t", vec![key_column("id")])]);
    let mut required = column("required", "TEXT");
    required.notnull = true;
    let desired = snapshot(vec![table("t", vec![key_column("id"), required])]);
    let diff = compute_diff(&desired, &actual);
    assert_eq!(diff.tables_to_rebuild, strings(&["t"]));
    match generate_plan(&diff, &desired, &actual) {
        Err(MigrateError::Schema(m)) => {
            assert!(m.contains("'t'"));
            assert!(m.contains("'required'"));
            assert!(m.contains("DEFAULT"));
        }
        other => panic!("expected a refusal, got {other:?}"),
    }
}

#[test]
fn rebuilt_tables_get_names_of_their_own() {
    let t = |name: &str, kind: &str| table(name, vec![key_column("id"), column("x", kind)]);
    let actual = snapshot(vec![t("a", "TEXT"), t("b", "TEXT")]);
    let desired = snapshot(vec![t("a", "INTEGER"), t("b", "INTEGER")]);
    let diff = compute_diff(&desired, &actual);
    let plan = generate_plan(&diff, &desired, &actual).unwrap();
    let creates: Vec<&String> = plan
        .transactional_stmts
        .iter()
        .filter(|s| s.starts_with("CREATE TABLE"))
        .collect();
    assert_eq!(creates.len(), 2);
    assert!(creates[0].contains("_converge_new_"));
    assert_ne!(creates[0].split('"').nth(1), creates[1].split('"').nth(1));
}

#[test]
fn a_rebuild_takes_along_what_hangs_on_the_table() {
    let make = |kind: &str| {
        let mut s = snapshot(vec![
            table("t", vec![key_column("id"), column("x", kind)]),
            table("u", vec![key_column("id")]),
        ]);
        s.views.insert(
            CIString::new("v"),
            ViewInfo {
                name: "v".to_string(),
                sql: "CREATE VIEW v AS SELECT id FROM u".to_string(),
                is_materialized: false,
            },
        );
        for (name, on) in [("on_t", "T"), ("on_u", "u")] {
            s.triggers.insert(
                CIString::new(name),
                TriggerInfo {
                    name: name.to_string(),
                    table_name: on.to_string(),
                    sql: format!("CREATE TRIGGER {name} AFTER INSERT ON {on} BEGIN SELECT 1; END"),
                },
            );
        }
        for (name, on, is_fts) in [("ix_t", "t", false), ("ft_t", "t", true), ("ix_u", "u", false)] {
            s.indexes.insert(
                CIString::new(name),
                IndexInfo {
                    name: name.to_string(),
                    table_name: on.to_string(),
                    sql: format!("CREATE INDEX {name} ON {on} (id)"),
                    is_fts,
                    is_unique: false,
                    columns: strings(&["id"]),
                },
            );
        }
        s
    };
    let (desired, actual) = (make("INTEGER"), make("TEXT"));
    let diff = compute_diff(&desired, &actual);
    assert_eq!(diff.tables_to_rebuild, strings(&["t"]));
    let plan = generate_plan(&diff, &desired, &actual).unwrap();
    let inside = |sql: &str| plan.transactional_stmts.iter().any(|s| s == sql);
    let outside = |sql: &str| plan.non_transactional_stmts.iter().any(|s| s == sql);
    assert!(inside("CREATE VIEW v AS SELECT id FROM u"));
    assert!(inside("CREATE TRIGGER on_t AFTER INSERT ON T BEGIN SELECT 1; END"));
    assert!(!inside("CREATE TRIGGER on_u AFTER INSERT ON u BEGIN SELECT 1; END"));
    assert!(inside("CREATE INDEX ix_t ON t (id)"));
    assert!(!inside("CREATE INDEX ix_u ON u (id)"));
    assert!(outside("CREATE INDEX ft_t ON t (id)"));
    assert!(!inside("CREATE INDEX ft_t ON t (id)"));
    assert!(!outside("CREATE INDEX ix_t ON t (id)"));
}

#[test]
fn columns_that_can_be_added_and_dropped() {
    assert!(can_add_column(&column("x", "TEXT")));
    assert!(!can_add_column(&key_column("x")));
    let mut generated = column("x", "TEXT");
    generated.is_generated = true;
    assert!(!can_add_column(&generated));
    let mut required = column("x", "TEXT");
    required.notnull = true;
    assert!(!can_add_column(&required));
    required.default_value = Some("1".to_string());
    assert!(can_add_column(&required));

    let t = table("t", vec![key_column("id"), column("x", "TEXT")]);
    let mut s = snapshot(vec![t.clone()]);
    assert!(can_drop_column(&t.columns[1], &t, &s));
    assert!(!can_drop_column(&t.columns[0], &t, &s));
    s.triggers.insert(
        CIString::new("g"),
        TriggerInfo {
            name: "g".to_string(),
            table_name: "T".to_string(),
            sql: "CREATE TRIGGER g AFTER INSERT ON t BEGIN SELECT 1; END".to_string(),
        },
    );
    assert!(!can_drop_column(&t.columns[1], &t, &s));
}

#[test]
fn hints_that_contradict_each_other_are_found() {
    let actual = snapshot(vec![table("t", vec![key_column("id"), column("a", "TEXT")])]);
    let desired = snapshot(vec![table("t", vec![key_column("id"), column("b", "TEXT")])]);
    let hint = |from: &str, to: &str| ColumnRenameHint {
        table: "t".to_string(),
        from: from.to_string(),
        to: to.to_string(),
    };
    let hints = vec![hint("a", "b")];
    assert!(are_hints_applicable(&desired, &actual, &hints));
    let diff = compute_diff_with_hints(&desired, &actual, &hints);
    assert_eq!(
        diff.columns_to_rename,
        vec![("t".to_string(), "a".to_string(), "b".to_string())]
    );
    assert!(are_hints_applicable(&desired, &actual, &vec![]));
    let twice = vec![hint("a", "b"), hint("A", "B")];
    assert!(!are_hints_applicable(&desired, &actual, &twice));

    let three = |x: &str, y: &str| {
        snapshot(vec![table(
            "t",
            vec![key_column("id"), column(x, "TEXT"), column(y, "TEXT")],
        )])
    };
    let (actual, desired) = (three("a", "z"), three("b", "c"));
    let same_source = vec![hint("a", "b"), hint("a", "c")];
    assert!(are_hints_applicable(&desired, &actual, &same_source));
    let diff = compute_diff_with_hints(&desired, &actual, &same_source);
    assert_eq!(diff.columns_to_rename.len(), 2);
    assert!(diff.columns_to_drop.is_empty());
    let diff_of_last = vec![hint("z", "b"), hint("z", "c")];
    assert!(!are_hints_applicable(&desired, &actual, &diff_of_last));
    let apart = vec![hint("a", "c"), hint("z", "b")];
    assert!(are_hints_applicable(&desired, &actual, &apart));
}

#[test]
fn altered_tables_are_those_whose_columns_change_in_place() {
    let with = |name: &str, more: Vec<ColumnInfo>| {
        let mut columns = vec![key_column("id")];
        columns.extend(more);
        table(name, columns)
    };
    let actual = snapshot(vec![
        with("adds", vec![]),
        with("drops", vec![column("x", "TEXT")]),
        with("renames", vec![column("x", "TEXT")]),
        with("same", vec![]),
    ]);
    let desired = snapshot(vec![
        with("adds", vec![column("x", "TEXT")]),
        with("drops", vec![]),
        with("renames", vec![column("y", "TEXT")]),
        with("same", vec![]),
    ]);
    let diff = compute_diff(&desired, &actual);
    let plan = generate_plan(&diff, &desired, &actual).unwrap();
    assert_eq!(plan.altered_tables, strings(&["adds", "drops", "renames"]));
}

#[test]
fn a_saved_counter_is_deleted() {
    let make = |kind: &str, has_autoincrement: bool| {
        snapshot(vec![TableInfo {
            has_autoincrement,
            ..table("t", vec![key_column("id"), column("x", kind)])
        }])
    };
    let delete = "DELETE FROM _schema_meta WHERE key = 'autoincrement_seq_t'";
    for (before, after, count) in [(true, true, 1), (true, false, 1), (false, false, 0)] {
        let (desired, actual) = (make("INTEGER", after), make("TEXT", before));
        let diff = compute_diff(&desired, &actual);
        let plan = generate_plan(&diff, &desired, &actual).unwrap();
        let found = plan.transactional_stmts.iter().filter(|s| *s == delete).count();
        assert_eq!(found, count);
        if count > 0 {
            assert_eq!(plan.transactional_stmts.last().unwrap(), delete);
        }
    }
}

#[test]
fn formatting_is_no_difference() {
    let view = |sql: &str| {
        let mut s = SchemaSnapshot::empty();
        s.views.insert(
            CIString::new("v"),
            ViewInfo {
                name: "v".to_string(),
                sql: sql.to_string(),
                is_materialized: false,
            },
        );
        s
    };
    let a = view("CREATE VIEW v AS SELECT 1");
    let b = view("create view V /* the same */ as\nselect 1");
    let c = view("CREATE VIEW v AS SELECT 2");
    assert!(compute_diff(&a, &b).is_empty());
    assert_eq!(compute_diff(&a, &c).views_to_create, strings(&["v"]));
}

#[test]
fn display_of_a_difference() {
    let mut d = empty_diff();
    d.tables_to_create = strings(&["users"]);
    d.tables_to_drop = strings(&["legacy_cache"]);
    d.tables_to_rebuild = strings(&["documents"]);
    d.columns_to_drop = vec![("users".to_string(), "old_field".to_string())];
    d.triggers_to_create = strings(&["trg_audit"]);
    assert_eq!(
        d.to_string(),
        "+ TABLE users\n~ TABLE documents: REBUILD\n- TABLE legacy_cache\n\
         - COLUMN users.old_field\n+ TRIGGER trg_audit\n"
    );
    assert_eq!(d.clone(), d);
    assert_eq!(empty_diff().to_string(), "(no changes)");
}

#[test]
fn migrator_spares_tables_unless_told() {
    let actual = snapshot(vec![table("old", vec![key_column("id")])]);
    let desired = SchemaSnapshot::empty();
    let m = Migrator::new("CREATE TABLE t (id TEXT)");
    assert!(m.migrate(&desired, &actual).unwrap().is_empty());
    assert_eq!(
        m.plan(&desired, &actual).unwrap().transactional_stmts,
        strings(&["DROP TABLE IF EXISTS \"old\""])
    );
    let bold = m.allow_deletions(true);
    assert_eq!(
        bold.migrate(&desired, &actual).unwrap().transactional_stmts,
        strings(&["DROP TABLE IF EXISTS \"old\""])
    );
}

#[test]
fn schema_text_puts_parents_first() {
    let mut s = snapshot(vec![
        pointing("a_child", "z_parent"),
        table("z_parent", vec![key_column("id")]),
    ]);
    s.indexes.insert(
        CIString::new("i"),
        IndexInfo {
            name: "i".to_string(),
            table_name: "a_child".to_string(),
            sql: "CREATE INDEX i ON a_child(parent)".to_string(),
            is_fts: false,
            is_unique: false,
            columns: strings(&["parent"]),
        },
    );
    assert_eq!(
        s.to_sql(),
        "CREATE TABLE z_parent (id TEXT PRIMARY KEY);\n\n\
         CREATE TABLE a_child (id TEXT PRIMARY KEY);\n\n\
         CREATE INDEX i ON a_child(parent);"
    );
    assert_eq!(SchemaSnapshot::empty().to_sql(), "");
}

// ---------------------------------------------------------------------------
// Introspection
// ---------------------------------------------------------------------------

#[test]
fn versions_are_parsed() {
    assert_eq!(parse_version("3.45.1"), (3, 45, 1));
    assert_eq!(parse_version("3.35"), (3, 35, 0));
    assert_eq!(parse_version("3.45.1-beta"), (3, 45, 1));
    assert_eq!(parse_version("x"), (3, 0, 0));
    let none = Probes {
        fts: false,
        vector: true,
        materialized_views: false,
        without_rowid: false,
        generated_columns: false,
        triggers: true,
    };
    let caps = Capabilities::from_probes(&Some("3.34.9".to_string()), &none);
    assert!(!caps.supports_drop_column);
    assert!(caps.supports_rename_column);
    assert!(caps.has_vector_module);
    assert!(caps.has_triggers);
    assert!(!caps.has_fts_module);
    assert_eq!(Capabilities::from_probes(&None, &none).database_version, (3, 0, 0));
}

#[test]
fn key_rows_are_gathered_by_number() {
    let row = |id: i64, from: &str, to: &str| KeyRow {
        id,
        to_table: "p".to_string(),
        from_column: from.to_string(),
        to_column: to.to_string(),
        on_update: "NO ACTION".to_string(),
        on_delete: "CASCADE".to_string(),
    };
    let keys = keys_from_rows(&vec![row(1, "c", "z"), row(0, "a", "x"), row(0, "b", "y")]);
    assert_eq!(keys.len(), 2);
    assert_eq!(keys[0].from_columns, strings(&["a", "b"]));
    assert_eq!(keys[0].to_columns, strings(&["x", "y"]));
    assert_eq!(keys[1].from_columns, strings(&["c"]));
    assert_eq!(keys[1].on_delete, "CASCADE");
}

#[test]
fn unique_marks_are_found_by_name() {
    let marks = vec![("i".to_string(), 1), ("j".to_string(), 0)];
    assert!(is_marked_unique(&marks, "i"));
    assert!(!is_marked_unique(&marks, "j"));
    assert!(!is_marked_unique(&marks, "k"));
}

#[test]
fn snapshot_cache_is_bounded() {
    let mut cache = SnapshotCache::new();
    for i in 0..100u64 {
        cache.put(decimal_of(i), snapshot(vec![table("t", vec![])]));
        assert!(cache.len() <= CACHE_LIMIT + 1);
        assert!(cache.get(&decimal_of(i)).is_some());
    }
    cache.clear();
    assert_eq!(cache.len(), 0);
    assert_eq!(cache.get("1"), None);
}

// ---------------------------------------------------------------------------
// Policy and features
// ---------------------------------------------------------------------------

#[test]
fn policy_messages() {
    let mut d = empty_diff();
    d.tables_to_drop = strings(&["a", "b"]);
    assert_eq!(
        check_policy(&d, &ConvergePolicy::default()),
        Err(MigrateError::PolicyViolation {
            message: "Would drop 2 table(s): a, b. Set allow_table_drops=true to permit."
                .to_string(),
            blocked_operations: strings(&["DROP TABLE a", "DROP TABLE b"]),
        })
    );
    assert_eq!(check_policy(&d, &ConvergePolicy::permissive()), Ok(()));

    let mut d = empty_diff();
    d.columns_to_drop = vec![("t".to_string(), "c".to_string())];
    assert_eq!(
        check_policy(&d, &ConvergePolicy::default()),
        Err(MigrateError::PolicyViolation {
            message: "Would drop 1 column(s). Set allow_column_drops=true to permit.".to_string(),
            blocked_operations: strings(&["DROP COLUMN t.c"]),
        })
    );

    let mut d = empty_diff();
    d.tables_to_rebuild = strings(&["t"]);
    let strict = ConvergePolicy {
        allow_table_rebuilds: false,
        ..ConvergePolicy::permissive()
    };
    assert_eq!(
        check_policy(&d, &strict),
        Err(MigrateError::PolicyViolation {
            message: "Would rebuild 1 table(s). Set allow_table_rebuilds=true to permit."
                .to_string(),
            blocked_operations: strings(&["REBUILD TABLE t"]),
        })
    );

    let mut d = empty_diff();
    d.tables_to_create = strings(&["a", "b"]);
    d.tables_to_rebuild = strings(&["c"]);
    let limit = |max: usize| ConvergePolicy {
        max_tables_affected: Some(max),
        ..ConvergePolicy::permissive()
    };
    assert_eq!(check_policy(&d, &limit(3)), Ok(()));
    assert_eq!(
        check_policy(&d, &limit(2)),
        Err(MigrateError::PolicyViolation {
            message: "Would affect 3 table(s), exceeding max_tables_affected=2.".to_string(),
            blocked_operations: strings(&["3 tables affected"]),
        })
    );
    assert_eq!(check_policy(&empty_diff(), &limit(0)), Ok(()));
}

#[test]
fn features_are_held_against_capabilities() {
    let none = Capabilities::default();
    let all = Capabilities {
        has_fts_module: true,
        has_vector_module: true,
        has_materialized_views: true,
        supports_without_rowid: true,
        supports_generated_columns: true,
        has_triggers: true,
        ..Capabilities::default()
    };
    let lacks = |s: &SchemaSnapshot, word: &str| {
        match validate_features(s, &none) {
            Err(MigrateError::UnsupportedFeature(m)) => assert!(m.contains(word), "{m}"),
            other => panic!("expected {word}, got {other:?}"),
        }
        assert_eq!(validate_features(s, &all), Ok(()));
    };

    let mut s = SchemaSnapshot::empty();
    s.triggers.insert(
        CIString::new("g"),
        TriggerInfo {
            name: "g".to_string(),
            table_name: "t".to_string(),
            sql: String::new(),
        },
    );
    lacks(&s, "triggers");

    let mut generated = column("x", "TEXT");
    generated.is_generated = true;
    s.tables.insert(CIString::new("t"), table("t", vec![generated]));
    lacks(&s, "GENERATED");

    let mut bare = table("w", vec![]);
    bare.is_without_rowid = true;
    s.tables.insert(CIString::new("w"), bare);
    lacks(&s, "WITHOUT ROWID");

    s.tables
        .insert(CIString::new("e"), table("e", vec![column("v", "Vector32(3)")]));
    lacks(&s, "vector");

    s.views.insert(
        CIString::new("m"),
        ViewInfo {
            name: "m".to_string(),
            sql: String::new(),
            is_materialized: true,
        },
    );
    lacks(&s, "materialized");

    s.indexes.insert(
        CIString::new("f"),
        IndexInfo {
            name: "f".to_string(),
            table_name: "t".to_string(),
            sql: String::new(),
            is_fts: true,
            is_unique: false,
            columns: vec![],
        },
    );
    lacks(&s, "FTS");
    assert_eq!(validate_features(&SchemaSnapshot::empty(), &none), Ok(()));
}

#[test]
fn features_in_a_schema_text() {
    assert_eq!(
        scan_features("CREATE TABLE t (a) WITHOUT\n  RowId"),
        (true, false)
    );
    assert_eq!(
        scan_features("CREATE TABLE t (a, b GENERATED /* */ ALWAYS AS (a))"),
        (false, true)
    );
    assert_eq!(
        scan_features("CREATE TABLE t (a TEXT DEFAULT 'without rowid') -- generated always"),
        (false, false)
    );
    let none = Capabilities::default();
    assert!(check_schema_text("CREATE TABLE t (a) WITHOUT ROWID", &none).is_err());
    assert_eq!(check_schema_text("CREATE TABLE t (a)", &none), Ok(()));
}

#[test]
fn failpoints_have_their_names() {
    let point = Failpoint::AfterExecuteBeforeState;
    assert_eq!(check_failpoint(None, point), Ok(()));
    assert_eq!(check_failpoint(Some(Failpoint::BeforeExecute), point), Ok(()));
    assert_eq!(
        check_failpoint(Some(point), point),
        Err(MigrateError::InjectedFailure {
            failpoint: "after_execute_before_state".to_string()
        })
    );
    assert_eq!(Failpoint::BeforeIntrospect.as_str(), "before_introspect");
    assert_eq!(Failpoint::BeforeExecute.as_str(), "before_execute");
}

// ---------------------------------------------------------------------------
// Lease, versions, marks
// ---------------------------------------------------------------------------

#[test]
fn leases() {
    assert_eq!(lease_id(17, 1000), "17_1000");
    assert_eq!(lease_expiry(1000), 1300);
    assert_eq!(lease_expiry(u64::MAX), u64::MAX);
    let owner = "9_9".to_string();
    let until = "1300".to_string();
    assert_eq!(
        check_lease(Some(&owner), Some(&until), 1000),
        Some(MigrateError::MigrationBusy {
            owner: "9_9".to_string(),
            remaining_secs: 300
        })
    );
    assert_eq!(check_lease(Some(&owner), Some(&until), 1300), None);
    assert_eq!(check_lease(None, Some(&until), 1000), None);
    assert_eq!(check_lease(Some(&owner), None, 1000), None);
    assert_eq!(check_lease(Some(&owner), Some(&"soon".to_string()), 1000), None);
}

#[test]
fn schema_versions() {
    assert_eq!(version_from(None), Ok(0));
    assert_eq!(version_from(Some(4294967295)), Ok(u32::MAX));
    assert_eq!(
        version_from(Some(-1)),
        Err(MigrateError::Schema("invalid schema_version value: -1".to_string()))
    );
    assert_eq!(
        version_from(Some(4294967296)),
        Err(MigrateError::Schema("invalid schema_version value: 4294967296".to_string()))
    );
    assert_eq!(next_version(None), Ok(1));
    assert_eq!(next_version(Some(7)), Ok(8));
    assert_eq!(
        next_version(Some(4294967295)),
        Err(MigrateError::Schema("schema_version overflow".to_string()))
    );
}

#[test]
fn early_and_late_failures() {
    let other = MigrateError::ReadOnly;
    let before = MigrateError::InjectedFailure {
        failpoint: "before_execute".to_string(),
    };
    let ddl = "ddl".to_string();
    let complete = "complete".to_string();
    let introspect = "introspect".to_string();
    assert!(is_pre_ddl_failure(&other, None));
    assert!(is_pre_ddl_failure(&other, Some(&introspect)));
    assert!(!is_pre_ddl_failure(&other, Some(&ddl)));
    assert!(is_pre_ddl_failure(&before, Some(&ddl)));
    assert!(!is_pre_ddl_failure(&before, Some(&complete)));
}

#[test]
fn data_versions() {
    assert_eq!(current_data_version(), 0);
    assert_eq!(data_version_of(&Some("12".to_string())), 12);
    assert_eq!(data_version_of(&Some("x".to_string())), 0);
    assert_eq!(data_version_to_store(&None), None);
    assert_eq!(data_version_to_store(&Some("-1".to_string())), Some(0));
    assert_eq!(data_version_to_store(&Some("1".to_string())), None);
    assert_eq!(data_migration_key("seed"), "data_migration:seed");
}

#[test]
fn legacy_databases() {
    assert!(needs_bridge(true, &None));
    assert!(needs_bridge(true, &Some("0".to_string())));
    assert!(!needs_bridge(true, &Some("1".to_string())));
    assert!(!needs_bridge(false, &None));
}

// ---------------------------------------------------------------------------
// Errors and texts
// ---------------------------------------------------------------------------

#[test]
fn error_messages() {
    let cases = vec![
        (MigrateError::Turso("x".to_string()), "turso error: x"),
        (
            MigrateError::Io {
                path: "/p".to_string(),
                source: "gone".to_string(),
            },
            "I/O error at /p: gone",
        ),
        (
            MigrateError::Statement {
                stmt: "S".to_string(),
                source: "c".to_string(),
                phase: "DDL".to_string(),
            },
            "migration statement failed (DDL): S; cause: c",
        ),
        (
            MigrateError::ForeignKeyViolation {
                table: "t".to_string(),
                rowid: -3,
                parent: "p".to_string(),
            },
            "foreign key violation: table=t, rowid=-3, references=p",
        ),
        (MigrateError::Schema("m".to_string()), "schema error: m"),
        (
            MigrateError::ReadOnly,
            "database is read-only: migrations require write access",
        ),
        (
            MigrateError::MigrationBusy {
                owner: "o".to_string(),
                remaining_secs: 7,
            },
            "migration busy: another migration is in progress (owner=o, expires in 7s)",
        ),
        (
            MigrateError::PreDestructiveHookRejected {
                message: "no".to_string(),
                blocked_operations: vec![],
            },
            "pre-destructive hook rejected migration: no",
        ),
        (
            MigrateError::UnsupportedFeature("f".to_string()),
            "unsupported feature: f",
        ),
        (
            MigrateError::InjectedFailure {
                failpoint: "p".to_string(),
            },
            "injected failpoint triggered: p",
        ),
        (
            MigrateError::PolicyViolation {
                message: "v".to_string(),
                blocked_operations: vec![],
            },
            "policy violation: v",
        ),
    ];
    for (e, text) in cases {
        assert_eq!(e.to_string(), text);
    }
}

#[test]
fn messages_that_are_looked_into() {
    assert!(is_read_only_error(&MigrateError::Turso(
        "Attempt to write a READONLY database".to_string()
    )));
    assert!(is_read_only_error(&MigrateError::ReadOnly));
    assert!(!is_read_only_error(&MigrateError::Turso("busy".to_string())));
    assert!(is_missing_dependency_error("Parse error: No such table: t"));
    assert!(is_missing_dependency_error("no such view: v"));
    assert!(!is_missing_dependency_error("no such column: c"));
}

#[test]
fn around_a_convergence() {
    assert_eq!(
        check_schema_given(" \n\t"),
        Err(MigrateError::Schema("empty schema SQL".to_string()))
    );
    assert_eq!(check_schema_given("x"), Ok(()));
    assert_eq!(
        validation_error(&MigrateError::Turso("near x".to_string())),
        MigrateError::Schema("Schema validation failed: turso error: near x".to_string())
    );
    assert_eq!(combine_schema_parts(&strings(&["a;", "b;"])), "a;\nb;");
    assert_eq!(previous_schema(Some("S".to_string())), Ok("S".to_string()));
    let none = MigrateError::Schema(
        "No previous schema stored. Rollback requires at least one prior migration.".to_string(),
    );
    assert_eq!(previous_schema(None), Err(none.clone()));
    assert_eq!(previous_schema(Some("  ".to_string())), Err(none));
    assert_eq!(backup_file_name(12), "turso_converge_backup_12.sql");
    assert_eq!(
        set_busy_timeout(Duration::from_secs(5)).action,
        Action::Execute("PRAGMA busy_timeout = 5000".to_string())
    );
}

#[test]
fn defaults_of_the_options() {
    let o = ConvergeOptions::default();
    assert!(!o.policy.allow_table_drops);
    assert!(!o.policy.allow_column_drops);
    assert!(o.policy.allow_table_rebuilds);
    assert_eq!(o.policy.max_tables_affected, None);
    assert!(!o.dry_run);
    assert_eq!(o.busy_timeout.as_millis(), 5000);
    assert_eq!(o.max_retries, 3);
    assert!(o.data_migrations.is_empty());
    assert_eq!(o.backup_before_destructive, None);

    let mut r = ConvergeReport::fast_path(Duration::from_secs(1));
    assert!(!r.had_changes());
    r.data_migrations_applied = 1;
    assert!(r.had_changes());
    assert!(!ConvergeReport::default().had_changes());
}
