use turso_converge::execute::{is_create_trigger, is_create_view};

#[test]
fn classify_temp_view() {
    assert!(is_create_view("CREATE TEMP VIEW v AS SELECT 1"));
}

#[test]
fn classify_temporary_trigger() {
    assert!(is_create_trigger(
        "CREATE TEMPORARY TRIGGER trg AFTER INSERT ON t BEGIN SELECT 1; END"
    ));
}

#[test]
fn classify_with_if_not_exists() {
    assert!(is_create_view("CREATE VIEW IF NOT EXISTS v AS SELECT 1"));
    assert!(is_create_trigger(
        "CREATE TRIGGER IF NOT EXISTS trg AFTER INSERT ON t BEGIN SELECT 1; END"
    ));
}

#[test]
fn classify_with_leading_comments() {
    let view_stmt = "-- comment\nCREATE TEMP VIEW v AS SELECT 1";
    let trigger_stmt = "/* block */\nCREATE TRIGGER trg AFTER INSERT ON t BEGIN SELECT 1; END";
    assert!(is_create_view(view_stmt));
    assert!(is_create_trigger(trigger_stmt));
}

#[test]
fn classify_does_not_false_positive_on_create_table() {
    assert!(!is_create_view(
        "CREATE TABLE view_metadata (id TEXT PRIMARY KEY)"
    ));
    assert!(!is_create_trigger(
        "CREATE TABLE trigger_log (id TEXT PRIMARY KEY)"
    ));
}
