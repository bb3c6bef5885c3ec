use tagger::db::migrations::{
    check_schema, migrations, pending_migrations, record_applied, run_migrations,
    INITIAL_MIGRATION, MIGRATION_202103210001, MIGRATION_202103210002, MIGRATION_202103220001,
};
use tagger::error::{Error, ErrorKind};

type Result<T> = std::result::Result<T, Error>;

fn strings(list: &[&str]) -> Vec<String> {
    list.iter().map(|s| String::from(*s)).collect()
}

fn names(list: &Vec<tagger::db::migrations::Migration>) -> Vec<&'static str> {
    list.iter().map(|m| m.name).collect()
}

#[test]
fn migrations_come_in_their_order() {
    let all = migrations();
    assert_eq!(vec!["202103210001", "202103210002", "202103220001"], names(&all));
    assert!(all[0].script.contains("CREATE TABLE IF NOT EXISTS items"));
    assert!(all[1].script.contains("ON DELETE CASCADE"));
    assert!(all[2].script.contains("CREATE TABLE files"));
    assert!(all[2].script.contains("PRAGMA foreign_key_check"));
    assert!(INITIAL_MIGRATION.contains("CREATE TABLE IF NOT EXISTS migrations"));
}

#[test]
fn pending_are_those_not_recorded() {
    assert_eq!(
        vec!["202103210001", "202103210002", "202103220001"],
        names(&pending_migrations(&vec![]))
    );
    assert_eq!(
        vec!["202103210002", "202103220001"],
        names(&pending_migrations(&strings(&["202103210001"])))
    );
    assert_eq!(
        vec!["202103210001", "202103220001"],
        names(&pending_migrations(&strings(&["unknown", "202103210002"])))
    );
    assert!(pending_migrations(&strings(&["202103220001", "202103210002", "202103210001"])).is_empty());
}

#[test]
fn each_migration_carries_its_script() {
    let scripts = [
        MIGRATION_202103210001,
        MIGRATION_202103210002,
        MIGRATION_202103220001,
    ];
    for (n, migration) in migrations().iter().enumerate() {
        assert_eq!(scripts[n], migration.script);
    }
    let due = pending_migrations(&strings(&["202103210002"]));
    assert_eq!(vec!["202103210001", "202103220001"], names(&due));
    assert_eq!(MIGRATION_202103210001, due[0].script);
    assert_eq!(MIGRATION_202103220001, due[1].script);
}

#[test]
fn a_second_run_does_nothing() -> Result<()> {
    let mut applied: Vec<String> = Vec::new();
    let first = run_migrations(&applied, &vec![])?;
    assert_eq!(vec!["202103210001", "202103210002", "202103220001"], names(&first));
    assert!(applied.is_empty());
    for migration in &first {
        record_applied(&mut applied, migration.name);
    }
    assert_eq!(strings(&["202103210001", "202103210002", "202103220001"]), applied);
    let tables = strings(&["migrations", "files", "duplicate_files", "tags", "file_tags"]);
    let second = run_migrations(&applied, &tables)?;
    assert!(second.is_empty());
    Ok(())
}

#[test]
fn a_run_that_failed_part_way_is_taken_up_again() -> Result<()> {
    let mut applied: Vec<String> = Vec::new();
    let due = run_migrations(&applied, &vec![])?;
    // only the first script went through
    record_applied(&mut applied, due[0].name);
    assert_eq!(strings(&["202103210001"]), applied);
    let tables = strings(&["migrations", "items", "duplicate_items", "tags", "item_tags"]);
    let due = run_migrations(&applied, &tables)?;
    assert_eq!(vec!["202103210002", "202103220001"], names(&due));
    Ok(())
}

#[test]
fn a_missing_table_is_schema_drift() {
    let applied = strings(&["202103210001", "202103210002", "202103220001"]);
    let tables = strings(&["migrations", "files", "tags", "file_tags"]);
    match run_migrations(&applied, &tables) {
        Err(e) => assert_eq!(ErrorKind::SchemaDrift, e.kind()),
        Ok(due) => panic!("{:?}", due),
    }
    let applied = strings(&["202103210001"]);
    match run_migrations(&applied, &strings(&["files", "duplicate_files", "tags", "file_tags"])) {
        Err(e) => assert_eq!(ErrorKind::SchemaDrift, e.kind()),
        Ok(due) => panic!("{:?}", due),
    }
    assert!(matches!(check_schema(&vec![], &vec![]), Ok(())));
    assert!(matches!(
        check_schema(&strings(&["202103210001"]), &strings(&["items", "duplicate_items", "tags", "item_tags"])),
        Ok(())
    ));
    assert!(matches!(
        check_schema(&strings(&["202103220001"]), &strings(&["items", "duplicate_items", "tags", "item_tags"])),
        Err(Error::SchemaDrift)
    ));
}
