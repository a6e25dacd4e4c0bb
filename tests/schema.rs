use spending_tracker::schema::{
    migration_plan, migration_sql, MigrationError, SchemaMigrator, LATEST_SCHEMA_VERSION, SCHEMA_V1,
};

#[test]
fn plan_from_empty_store_runs_every_step() {
    assert_eq!(migration_plan(0), Ok(vec![1]));
}

#[test]
fn plan_from_latest_is_empty() {
    assert_eq!(migration_plan(LATEST_SCHEMA_VERSION as i64), Ok(vec![]));
}

#[test]
fn newer_store_is_refused() {
    assert_eq!(migration_plan(2), Err(MigrationError::UnsupportedSchemaVersion(2)));
    assert!(matches!(
        SchemaMigrator::start(7),
        Err(MigrationError::UnsupportedSchemaVersion(7))
    ));
}

#[test]
fn negative_version_is_refused() {
    assert_eq!(migration_plan(-1), Err(MigrationError::UnsupportedSchemaVersion(-1)));
}

#[test]
fn migrator_walks_to_latest_then_stays() {
    let mut m = SchemaMigrator::start(0).unwrap();
    assert!(!m.is_current());
    let mut seen = Vec::new();
    while let Some(step) = m.next_step() {
        seen.push(step);
        m.step_applied(step);
    }
    assert_eq!(seen, vec![1]);
    assert!(m.is_current());

    let again = SchemaMigrator::start(LATEST_SCHEMA_VERSION as i64).unwrap();
    assert!(again.is_current());
    assert_eq!(again.next_step(), None);
}

#[test]
fn first_step_creates_the_tables() {
    let sql = migration_sql(1);
    assert_eq!(sql, SCHEMA_V1);
    for table in ["Currency", "Account", "User", "ExpenseCategory", "Expense"] {
        assert!(sql.contains(&format!("CREATE TABLE {} (", table)));
    }
    assert!(sql.contains("ON DELETE RESTRICT"));
}
