//! Rows of the database tables, as the library reads and writes them.
use vstd::prelude::*;

verus! {

/// A managed game: where its mods go, where disabled mods are kept, and how mods are laid out
/// (`"structured"` or `"loose"`).
#[derive(Debug, Clone)]
pub struct GameRecord {
    pub id: i64,
    pub name: String,
    pub mod_dir: String,
    pub staging_dir: String,
    pub mod_structure: String,
    pub requires_elevation: bool,
}

/// An imported mod. `staged_path` is the mod's own folder under the game's staging directory;
/// `enabled` says whether its files are currently in the game's mod directory.
#[derive(Debug, Clone)]
pub struct ModRecord {
    pub id: i64,
    pub game_id: i64,
    pub name: String,
    pub enabled: bool,
    pub staged_path: String,
}

/// One file of a mod, by its path relative to the mod's folder. Files of an option folder
/// name the sub-mod they belong to.
#[derive(Debug, Clone)]
pub struct FileEntry {
    pub id: i64,
    pub mod_id: i64,
    pub relative_path: String,
    pub sub_mod_id: Option<i64>,
}

/// An option folder of a mod. `enabled` is whether its files are in the game directory now;
/// `user_enabled` is what the user last chose, kept while the parent mod is off.
#[derive(Debug, Clone)]
pub struct SubModRecord {
    pub id: i64,
    pub mod_id: i64,
    pub name: String,
    pub folder_name: String,
    pub enabled: bool,
    pub user_enabled: bool,
}

/// A saved mod configuration of a game.
#[derive(Debug, Clone)]
pub struct ProfileRecord {
    pub id: i64,
    pub game_id: i64,
    pub name: String,
}

/// One mod's saved state in a profile. `sub_mod_states` is the JSON text of the saved
/// sub-mod states, absent when the mod had no sub-mods.
#[derive(Debug, Clone)]
pub struct ProfileEntryRecord {
    pub id: i64,
    pub profile_id: i64,
    pub mod_id: i64,
    pub enabled: bool,
    pub sub_mod_states: Option<String>,
}

impl GameRecord {
    /// A field-by-field copy.
    pub fn duplicate(&self) -> (r: Self)
        ensures
            r == *self,
    {
        GameRecord {
            id: self.id,
            name: self.name.clone(),
            mod_dir: self.mod_dir.clone(),
            staging_dir: self.staging_dir.clone(),
            mod_structure: self.mod_structure.clone(),
            requires_elevation: self.requires_elevation,
        }
    }
}

impl ModRecord {
    /// A field-by-field copy.
    pub fn duplicate(&self) -> (r: Self)
        ensures
            r == *self,
    {
        ModRecord {
            id: self.id,
            game_id: self.game_id,
            name: self.name.clone(),
            enabled: self.enabled,
            staged_path: self.staged_path.clone(),
        }
    }
}

impl FileEntry {
    /// A field-by-field copy.
    pub fn duplicate(&self) -> (r: Self)
        ensures
            r == *self,
    {
        FileEntry {
            id: self.id,
            mod_id: self.mod_id,
            relative_path: self.relative_path.clone(),
            sub_mod_id: self.sub_mod_id,
        }
    }
}

impl SubModRecord {
    /// A field-by-field copy.
    pub fn duplicate(&self) -> (r: Self)
        ensures
            r == *self,
    {
        SubModRecord {
            id: self.id,
            mod_id: self.mod_id,
            name: self.name.clone(),
            folder_name: self.folder_name.clone(),
            enabled: self.enabled,
            user_enabled: self.user_enabled,
        }
    }
}

} // verus!
