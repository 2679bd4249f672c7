use turso_converge::diff::normalize_for_hash;
use turso_converge::{CIMap, CIString, DestructiveChangeSet};

#[test]
fn normalize_preserves_double_quoted_string_case() {
    let sql = r#"CREATE TABLE "MyTable" ("Col" TEXT)"#;
    let normalized = normalize_for_hash(sql);
    assert!(
        normalized.contains(r#""MyTable""#),
        "Double-quoted identifiers should preserve case: {normalized}"
    );
    assert!(
        normalized.contains(r#""Col""#),
        "Double-quoted column name should preserve case: {normalized}"
    );
}

#[test]
fn normalize_collapses_whitespace() {
    let sql = "CREATE   TABLE   foo  (  id   TEXT  )";
    let normalized = normalize_for_hash(sql);
    assert!(
        !normalized.contains("  "),
        "Should collapse multiple spaces: {normalized}"
    );
}

#[test]
fn cistring_equality_is_case_insensitive() {
    let a = CIString::new("Users");
    let b = CIString::new("users");
    let c = CIString::new("USERS");
    assert_eq!(a, b);
    assert_eq!(b, c);
    assert_eq!(a, c);
}

#[test]
fn cistring_preserves_original_case() {
    let s = CIString::new("MyTable");
    assert_eq!(s.raw(), "MyTable");
    assert_eq!(s.lower(), "mytable");
}

#[test]
fn cistring_btreemap_lookup_is_case_insensitive() {
    let mut map = CIMap::new();
    map.insert(CIString::new("Users"), "found");
    assert_eq!(map.get(&CIString::new("users")), Some(&"found"));
    assert_eq!(map.get(&CIString::new("USERS")), Some(&"found"));
}

#[test]
fn destructive_change_set_has_changes() {
    let empty = DestructiveChangeSet {
        tables_to_drop: vec![],
        columns_to_drop: vec![],
        tables_to_rebuild: vec![],
    };
    assert!(!empty.has_changes());

    let with_drop = DestructiveChangeSet {
        tables_to_drop: vec!["foo".to_string()],
        columns_to_drop: vec![],
        tables_to_rebuild: vec![],
    };
    assert!(with_drop.has_changes());
}

#[test]
fn destructive_change_set_blocked_operations() {
    let changes = DestructiveChangeSet {
        tables_to_drop: vec!["users".to_string()],
        columns_to_drop: vec![("posts".to_string(), "legacy".to_string())],
        tables_to_rebuild: vec!["items".to_string()],
    };
    let ops = changes.blocked_operations();
    assert!(ops.iter().any(|o| o.contains("DROP TABLE")));
    assert!(ops.iter().any(|o| o.contains("DROP COLUMN")));
    assert!(ops.iter().any(|o| o.contains("REBUILD")));
}
