use modtoggler::migrations::{get_migrations, migration_error_tolerated};

#[test]
fn migration_count_is_seven() {
    assert_eq!(get_migrations().len(), 7);
}

#[test]
fn migration_versions_unique() {
    let migrations = get_migrations();
    let mut versions: Vec<i64> = migrations.iter().map(|m| m.version).collect();
    versions.sort();
    versions.dedup();
    assert_eq!(versions.len(), migrations.len(), "Migration versions must be unique");
    let raw: Vec<i64> = migrations.iter().map(|m| m.version).collect();
    let mut sorted = raw.clone();
    sorted.sort();
    assert_eq!(raw, sorted, "Migration versions must be monotonically increasing");
}

#[test]
fn migrations_create_the_tables() {
    let m = get_migrations();
    assert_eq!(m[0].description, "create_games_table");
    assert!(m[0].sql.contains("CREATE TABLE IF NOT EXISTS games"));
    assert!(m[5].sql.starts_with("ALTER TABLE file_entries ADD COLUMN sub_mod_id"));
    assert!(m[6].sql.contains("profile_entries"));
}

#[test]
fn only_duplicate_column_failures_are_tolerated() {
    assert!(migration_error_tolerated("error returned from database: (code: 1) duplicate column name: sub_mod_id"));
    assert!(!migration_error_tolerated("error returned from database: (code: 1) no such table: mods"));
    assert!(!migration_error_tolerated(""));
}

#[test]
fn migrations_run_their_own_sql() {
    let m = get_migrations();
    let descriptions: Vec<&str> = m.iter().map(|s| s.description).collect();
    assert_eq!(
        descriptions,
        vec![
            "create_games_table",
            "create_mods_table",
            "create_file_entries_table",
            "create_toggle_journal_table",
            "create_sub_mods_table",
            "add_sub_mod_id_to_file_entries",
            "create_profiles_and_profile_entries_tables",
        ]
    );
    assert!(m[1].sql.contains("CREATE TABLE IF NOT EXISTS mods"));
    assert!(m[4].sql.contains("CREATE TABLE IF NOT EXISTS sub_mods"));
}
