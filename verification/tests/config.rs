use rawdb::config::must_reset_store;
use rawdb::config::plan_migration;
use rawdb::config::APPLICATION_ID;
use rawdb::config::USER_VERSION;
use rawdb::store::StoreError;
use rawdb::store::TableType;

#[test]
fn test_reset_decision() {
    assert!(!must_reset_store(APPLICATION_ID, false));
    assert!(must_reset_store(APPLICATION_ID, true));
    assert!(must_reset_store(0, false));
    assert!(must_reset_store(-1, true));
}

#[test]
fn test_migration_plan() {
    assert_eq!(plan_migration(0).unwrap(), true);
    assert_eq!(plan_migration(1).unwrap(), false);
    assert_eq!(plan_migration(USER_VERSION).unwrap(), false);
    assert!(matches!(
        plan_migration(USER_VERSION + 1),
        Err(StoreError::UnsupportedVersion { found }) if found == USER_VERSION + 1
    ));
    assert!(matches!(
        plan_migration(-1),
        Err(StoreError::UnsupportedVersion { found: -1 })
    ));
}

#[test]
fn test_table_labels() {
    assert_eq!(TableType::Disk.label(), "disk");
    assert_eq!(TableType::Camera.label(), "camera");
    assert_eq!(TableType::Disk.to_sql(false), "on_disk");
    assert_eq!(TableType::Disk.to_sql(true), "new_on_disk");
    assert_eq!(TableType::Camera.to_sql(false), "on_camera");
    assert_eq!(TableType::Camera.to_sql(true), "new_on_camera");
}
