use zero2prod::provision::{DatabaseModel, ServerModel};

#[test]
fn a_fresh_database_takes_the_whole_set_in_order() {
    let mut db = DatabaseModel::new();
    db.apply_migrations(&vec![1, 2, 3]);
    assert_eq!(db.applied, vec![1, 2, 3]);
}

#[test]
fn a_second_run_applies_nothing() {
    let mut db = DatabaseModel::new();
    let migrations = vec![1, 2, 3];
    db.apply_migrations(&migrations);
    let after_first = db.applied.clone();
    db.apply_migrations(&migrations);
    assert_eq!(db.applied, after_first);
}

#[test]
fn recorded_versions_are_never_rerun() {
    let mut db = DatabaseModel::new();
    db.apply_migrations(&vec![1]);
    db.apply_migrations(&vec![1, 2]);
    assert_eq!(db.applied, vec![1, 2]);
    assert!(db.has_applied(1));
    assert!(db.has_applied(2));
    assert!(!db.has_applied(3));
}

#[test]
fn the_plan_lists_only_unapplied_versions_in_order() {
    let mut db = DatabaseModel::new();
    assert_eq!(db.migration_plan(&vec![1, 2, 3]), vec![1, 2, 3]);
    db.apply_migrations(&vec![2]);
    assert_eq!(db.migration_plan(&vec![1, 2, 3]), vec![1, 3]);
    db.apply_migrations(&vec![1, 2, 3]);
    assert_eq!(db.migration_plan(&vec![1, 2, 3]), Vec::<u64>::new());
}

#[test]
fn provisioning_a_fresh_name_yields_a_fully_migrated_database() {
    let mut server = ServerModel::new();
    assert!(server.provision_ephemeral(b"db-one".to_vec(), &vec![1, 2]));
    assert_eq!(server.databases.len(), 1);
    assert_eq!(server.databases[0].name, b"db-one".to_vec());
    assert_eq!(server.databases[0].db.applied, vec![1, 2]);
}

#[test]
fn a_name_collision_fails_and_changes_nothing() {
    let mut server = ServerModel::new();
    assert!(server.provision_ephemeral(b"db-one".to_vec(), &vec![1]));
    assert!(!server.provision_ephemeral(b"db-one".to_vec(), &vec![1, 2]));
    assert_eq!(server.databases.len(), 1);
    assert_eq!(server.databases[0].db.applied, vec![1]);
}

#[test]
fn distinct_names_provision_independently() {
    let mut server = ServerModel::new();
    let migrations = vec![1, 2, 3];
    assert!(server.provision_ephemeral(b"run-a".to_vec(), &migrations));
    assert!(server.provision_ephemeral(b"run-b".to_vec(), &migrations));
    assert_eq!(server.databases.len(), 2);
    assert!(server.has_db(b"run-a"));
    assert!(server.has_db(b"run-b"));
    assert_eq!(server.databases[0].db.applied, migrations);
    assert_eq!(server.databases[1].db.applied, migrations);
}
