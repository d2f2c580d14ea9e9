//! The database schema, as an ordered list of migrations.
use vstd::prelude::*;

use crate::text::{chars_of, contains, has_infix};

verus! {

/// One schema migration: a version number, a description, and the SQL it runs.
/// Version numbers are unique and increase along the list; a new migration takes the next
/// number, never one between existing ones.
#[derive(Debug, Clone, Copy)]
pub struct MigrationStep {
    pub version: i64,
    pub description: &'static str,
    pub sql: &'static str,
}

/// The description of migration 1.
pub const GAMES_DESCRIPTION: &'static str = "create_games_table";

/// The SQL of migration 1.
pub const GAMES_SQL: &'static str = "CREATE TABLE IF NOT EXISTS games (
                id              INTEGER PRIMARY KEY AUTOINCREMENT,
                name            TEXT NOT NULL,
                mod_dir         TEXT NOT NULL,
                staging_dir     TEXT NOT NULL,
                mod_structure   TEXT NOT NULL CHECK(mod_structure IN ('structured', 'loose')),
                requires_elevation INTEGER NOT NULL DEFAULT 0,
                created_at      INTEGER NOT NULL DEFAULT (unixepoch())
            );";

/// The description of migration 2.
pub const MODS_DESCRIPTION: &'static str = "create_mods_table";

/// The SQL of migration 2.
pub const MODS_SQL: &'static str = "CREATE TABLE IF NOT EXISTS mods (
                id              INTEGER PRIMARY KEY AUTOINCREMENT,
                game_id         INTEGER NOT NULL REFERENCES games(id) ON DELETE CASCADE,
                name            TEXT NOT NULL,
                enabled         INTEGER NOT NULL DEFAULT 0,
                staged_path     TEXT NOT NULL,
                imported_at     INTEGER NOT NULL DEFAULT (unixepoch())
            );";

/// The description of migration 3.
pub const FILE_ENTRIES_DESCRIPTION: &'static str = "create_file_entries_table";

/// The SQL of migration 3.
pub const FILE_ENTRIES_SQL: &'static str = "CREATE TABLE IF NOT EXISTS file_entries (
                id              INTEGER PRIMARY KEY AUTOINCREMENT,
                mod_id          INTEGER NOT NULL REFERENCES mods(id) ON DELETE CASCADE,
                relative_path   TEXT NOT NULL
            );
            CREATE INDEX IF NOT EXISTS idx_file_entries_mod_id ON file_entries(mod_id);
            CREATE INDEX IF NOT EXISTS idx_file_entries_path ON file_entries(relative_path, mod_id);";

/// The description of migration 4.
pub const TOGGLE_JOURNAL_DESCRIPTION: &'static str = "create_toggle_journal_table";

/// The SQL of migration 4.
pub const TOGGLE_JOURNAL_SQL: &'static str = "CREATE TABLE IF NOT EXISTS toggle_journal (
                id              INTEGER PRIMARY KEY AUTOINCREMENT,
                mod_id          INTEGER NOT NULL REFERENCES mods(id),
                operation       TEXT NOT NULL CHECK(operation IN ('enable', 'disable')),
                status          TEXT NOT NULL CHECK(status IN ('in_progress', 'done', 'rolled_back')),
                files_json      TEXT NOT NULL,
                started_at      INTEGER NOT NULL DEFAULT (unixepoch()),
                completed_at    INTEGER
            );";

/// The description of migration 5.
pub const SUB_MODS_DESCRIPTION: &'static str = "create_sub_mods_table";

/// The SQL of migration 5.
pub const SUB_MODS_SQL: &'static str = "CREATE TABLE IF NOT EXISTS sub_mods (
                id              INTEGER PRIMARY KEY AUTOINCREMENT,
                mod_id          INTEGER NOT NULL REFERENCES mods(id) ON DELETE CASCADE,
                name            TEXT NOT NULL,
                folder_name     TEXT NOT NULL,
                enabled         INTEGER NOT NULL DEFAULT 0,
                user_enabled    INTEGER NOT NULL DEFAULT 0
            );
            CREATE INDEX IF NOT EXISTS idx_sub_mods_mod_id ON sub_mods(mod_id);";

/// The description of migration 6.
pub const SUB_MOD_ID_COLUMN_DESCRIPTION: &'static str = "add_sub_mod_id_to_file_entries";

/// The SQL of migration 6.
pub const SUB_MOD_ID_COLUMN_SQL: &'static str = "ALTER TABLE file_entries ADD COLUMN sub_mod_id INTEGER REFERENCES sub_mods(id) ON DELETE CASCADE;
            CREATE INDEX IF NOT EXISTS idx_file_entries_sub_mod ON file_entries(sub_mod_id);";

/// The description of migration 7.
pub const PROFILES_DESCRIPTION: &'static str = "create_profiles_and_profile_entries_tables";

/// The SQL of migration 7.
pub const PROFILES_SQL: &'static str = "CREATE TABLE IF NOT EXISTS profiles (
                id          INTEGER PRIMARY KEY AUTOINCREMENT,
                game_id     INTEGER NOT NULL REFERENCES games(id) ON DELETE CASCADE,
                name        TEXT NOT NULL,
                created_at  INTEGER NOT NULL DEFAULT (unixepoch()),
                updated_at  INTEGER NOT NULL DEFAULT (unixepoch()),
                UNIQUE(game_id, name)
            );
            CREATE INDEX IF NOT EXISTS idx_profiles_game_id ON profiles(game_id);
            CREATE TABLE IF NOT EXISTS profile_entries (
                id          INTEGER PRIMARY KEY AUTOINCREMENT,
                profile_id  INTEGER NOT NULL REFERENCES profiles(id) ON DELETE CASCADE,
                mod_id      INTEGER NOT NULL REFERENCES mods(id) ON DELETE CASCADE,
                enabled     INTEGER NOT NULL DEFAULT 0,
                sub_mod_states TEXT
            );
            CREATE INDEX IF NOT EXISTS idx_profile_entries_profile ON profile_entries(profile_id);";

/// The migrations of the database schema, in the order they run. Their versions are
/// `1, 2, ..., 7`: unique and strictly increasing. Each runs the SQL of its constant above.
pub fn get_migrations() -> (r: Vec<MigrationStep>)
    ensures
        r@.len() == 7,
        forall|i: int| 0 <= i < r@.len() ==> (#[trigger] r@[i]).version == i + 1,
        forall|i: int, j: int| 0 <= i < j < r@.len() ==> r@[i].version < r@[j].version,
        r@[0].description@ == GAMES_DESCRIPTION@,
        r@[0].sql@ == GAMES_SQL@,
        r@[1].description@ == MODS_DESCRIPTION@,
        r@[1].sql@ == MODS_SQL@,
        r@[2].description@ == FILE_ENTRIES_DESCRIPTION@,
        r@[2].sql@ == FILE_ENTRIES_SQL@,
        r@[3].description@ == TOGGLE_JOURNAL_DESCRIPTION@,
        r@[3].sql@ == TOGGLE_JOURNAL_SQL@,
        r@[4].description@ == SUB_MODS_DESCRIPTION@,
        r@[4].sql@ == SUB_MODS_SQL@,
        r@[5].description@ == SUB_MOD_ID_COLUMN_DESCRIPTION@,
        r@[5].sql@ == SUB_MOD_ID_COLUMN_SQL@,
        r@[6].description@ == PROFILES_DESCRIPTION@,
        r@[6].sql@ == PROFILES_SQL@,
{
    let mut r: Vec<MigrationStep> = Vec::new();
    r.push(MigrationStep { version: 1, description: GAMES_DESCRIPTION, sql: GAMES_SQL });
    r.push(MigrationStep { version: 2, description: MODS_DESCRIPTION, sql: MODS_SQL });
    r.push(MigrationStep { version: 3, description: FILE_ENTRIES_DESCRIPTION, sql: FILE_ENTRIES_SQL });
    r.push(MigrationStep { version: 4, description: TOGGLE_JOURNAL_DESCRIPTION, sql: TOGGLE_JOURNAL_SQL });
    r.push(MigrationStep { version: 5, description: SUB_MODS_DESCRIPTION, sql: SUB_MODS_SQL });
    r.push(MigrationStep { version: 6, description: SUB_MOD_ID_COLUMN_DESCRIPTION, sql: SUB_MOD_ID_COLUMN_SQL });
    r.push(MigrationStep { version: 7, description: PROFILES_DESCRIPTION, sql: PROFILES_SQL });
    r
}

/// Whether a failed migration is tolerated when the database is opened. SQLite's
/// `ALTER TABLE ... ADD COLUMN` is not idempotent, so on a later start the column migration
/// fails with a "duplicate column name" message; that failure means the migration already
/// ran. Any other failure stops the start.
pub fn migration_error_tolerated(message: &str) -> (r: bool)
    ensures
        r == has_infix(message@, "duplicate column name"@),
{
    contains(&chars_of(message), &chars_of("duplicate column name"))
}

} // verus!
