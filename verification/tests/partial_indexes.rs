use turso_converge::diff::compute_diff;
use turso_converge::{CIMap, CIString, IndexInfo, SchemaSnapshot};

fn ci(s: &str) -> CIString {
    CIString::new(s)
}

#[test]
fn partial_index_sql_diff_detected_in_struct() {
    let mut desired = SchemaSnapshot {
        tables: CIMap::new(),
        indexes: CIMap::new(),
        views: CIMap::new(),
        triggers: CIMap::new(),
    };
    let mut actual = desired.clone();

    desired.indexes.insert(
        ci("idx"),
        IndexInfo {
            name: "idx".to_string(),
            table_name: "t".to_string(),
            sql: "CREATE INDEX idx ON t(col) WHERE deleted = 0 AND active = 1".to_string(),
            is_fts: false,
            is_unique: false,
            columns: vec!["col".to_string()],
        },
    );
    actual.indexes.insert(
        ci("idx"),
        IndexInfo {
            name: "idx".to_string(),
            table_name: "t".to_string(),
            sql: "CREATE INDEX idx ON t(col) WHERE deleted = 0".to_string(),
            is_fts: false,
            is_unique: false,
            columns: vec!["col".to_string()],
        },
    );

    let diff = compute_diff(&desired, &actual);
    assert!(
        diff.indexes_to_drop.contains(&"idx".to_string()),
        "WHERE clause change should be detected via SQL comparison: {diff:?}"
    );
    assert!(diff.indexes_to_create.contains(&"idx".to_string()));
}

#[test]
fn partial_index_whitespace_normalization() {
    let mut desired = SchemaSnapshot {
        tables: CIMap::new(),
        indexes: CIMap::new(),
        views: CIMap::new(),
        triggers: CIMap::new(),
    };
    let mut actual = desired.clone();

    desired.indexes.insert(
        ci("idx"),
        IndexInfo {
            name: "idx".to_string(),
            table_name: "t".to_string(),
            sql: "CREATE INDEX idx ON t(col) WHERE  deleted  =  0".to_string(),
            is_fts: false,
            is_unique: false,
            columns: vec!["col".to_string()],
        },
    );
    actual.indexes.insert(
        ci("idx"),
        IndexInfo {
            name: "idx".to_string(),
            table_name: "t".to_string(),
            sql: "CREATE INDEX idx ON t(col) WHERE deleted = 0".to_string(),
            is_fts: false,
            is_unique: false,
            columns: vec!["col".to_string()],
        },
    );

    let diff = compute_diff(&desired, &actual);
    assert!(
        diff.is_empty(),
        "Whitespace-only WHERE difference should not trigger index change: {diff:?}"
    );
}
