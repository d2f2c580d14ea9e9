//! Importing, extending and trimming mods: where a mod's files go and how loose files are
//! recorded.
use vstd::prelude::*;

use crate::error::AppError;
use crate::games::{slug, slug_from_name};
use crate::paths::{join_path, path_joined};
use crate::records::{ModRecord, SubModRecord};

verus! {

/// Result of importing a mod.
#[derive(Debug, Clone)]
pub struct ImportResult {
    pub mod_record: ModRecord,
    pub file_count: usize,
    pub sub_mods: Vec<SubModRecord>,
    pub has_recognized_files: bool,
}

/// A loose file to add to a mod: where it comes from (absolute), the folder under the game's
/// mod directory it goes to (`"/"` for the directory itself), and its file name.
#[derive(Debug, Clone)]
pub struct LooseFileInput {
    pub source_path: String,
    pub destination_path: String,
    pub file_name: String,
}

/// The staging folder of a new mod: the game's staging directory joined with the slug of
/// the mod's name.
pub fn mod_staging_dir(game_staging_dir: &str, mod_name: &str) -> (r: String)
    ensures
        r@ == path_joined(game_staging_dir@, slug(mod_name@)),
{
    let s = slug_from_name(mod_name);
    join_path(game_staging_dir, s.as_str())
}

/// What to copy into staging for loose files: each file's source path and desired name.
pub fn loose_copy_sources(files: &[LooseFileInput]) -> (r: Vec<(String, String)>)
    ensures
        r@.len() == files@.len(),
        forall|i: int| 0 <= i < files@.len() ==> (#[trigger] r@[i]).0@ == files@[i].source_path@
            && r@[i].1@ == files@[i].file_name@,
{
    let mut r: Vec<(String, String)> = Vec::new();
    let n = files.len();
    for i in 0..n
        invariant
            n == files@.len(),
            r@.len() == i,
            forall|j: int| 0 <= j < i ==> (#[trigger] r@[j]).0@ == files@[j].source_path@
                && r@[j].1@ == files@[j].file_name@,
    {
        r.push((files[i].source_path.clone(), files[i].file_name.clone()));
    }
    r
}

/// The file entries to record for copied loose files: the name each file got in staging,
/// with the destination folder of the file at the same position.
pub fn loose_file_entries(files: &[LooseFileInput], staged_names: &[String]) -> (r: Vec<(String, String)>)
    requires
        staged_names@.len() <= files@.len(),
    ensures
        r@.len() == staged_names@.len(),
        forall|i: int| 0 <= i < staged_names@.len() ==> (#[trigger] r@[i]).0@ == staged_names@[i]@
            && r@[i].1@ == files@[i].destination_path@,
{
    let mut r: Vec<(String, String)> = Vec::new();
    let n = staged_names.len();
    for i in 0..n
        invariant
            n == staged_names@.len(),
            n <= files@.len(),
            r@.len() == i,
            forall|j: int| 0 <= j < i ==> (#[trigger] r@[j]).0@ == staged_names@[j]@
                && r@[j].1@ == files@[j].destination_path@,
    {
        r.push((staged_names[i].clone(), files[i].destination_path.clone()));
    }
    r
}

/// The message of adding loose files to a mod that is not a loose-file mod.
pub open spec fn structured_mod_message() -> Seq<char> {
    "Cannot add individual files to a structured mod"@
}

/// Only a loose-file mod (`mod_type == "loose"`) accepts individual files; any other mod
/// refuses them with an `IoError`.
pub fn check_loose_mod(mod_type: &str) -> (r: Result<(), AppError>)
    ensures
        r is Ok <==> mod_type@ == "loose"@,
        r matches Err(e) ==> e is IoError && e.message() == structured_mod_message(),
{
    if mod_type.to_string() != "loose".to_string() {
        return Err(AppError::IoError("Cannot add individual files to a structured mod".to_string()));
    }
    Ok(())
}

/// Where a mod's file is on disk: in the game's mod directory (under its destination folder,
/// unless that is `/` or absent) while the mod is enabled, in the mod's staging folder while
/// it is disabled.
pub open spec fn file_location(
    enabled: bool,
    staged_path: Seq<char>,
    mod_dir: Seq<char>,
    destination: Option<Seq<char>>,
    relative_path: Seq<char>,
) -> Seq<char> {
    if enabled {
        let dest = match destination {
            Some(d) => d,
            None => "/"@,
        };
        if dest == "/"@ {
            path_joined(mod_dir, relative_path)
        } else {
            path_joined(path_joined(mod_dir, dest), relative_path)
        }
    } else {
        path_joined(staged_path, relative_path)
    }
}

/// While a mod is disabled, each of its files lies in its staging folder under the file's
/// relative path, whatever the file's destination and the game's mod directory. While it is
/// enabled, the file lies under the game's mod directory, in its destination folder there,
/// and the staging folder plays no part; no destination means the directory's root, as `/`
/// does.
pub proof fn lemma_file_location_follows_enabled(
    staged_path: Seq<char>,
    mod_dir: Seq<char>,
    destination: Option<Seq<char>>,
    relative_path: Seq<char>,
    other_staged_path: Seq<char>,
    other_mod_dir: Seq<char>,
    other_destination: Option<Seq<char>>,
)
    ensures
        file_location(false, staged_path, mod_dir, destination, relative_path) == path_joined(staged_path, relative_path),
        file_location(false, staged_path, mod_dir, destination, relative_path)
            == file_location(false, staged_path, other_mod_dir, other_destination, relative_path),
        file_location(true, staged_path, mod_dir, destination, relative_path)
            == file_location(true, other_staged_path, mod_dir, destination, relative_path),
        file_location(true, staged_path, mod_dir, None, relative_path) == path_joined(mod_dir, relative_path),
        file_location(true, staged_path, mod_dir, Some("/"@), relative_path) == path_joined(mod_dir, relative_path),
        destination matches Some(d) && d != "/"@ ==> file_location(true, staged_path, mod_dir, destination, relative_path)
            == path_joined(path_joined(mod_dir, destination->0), relative_path),
{
}

/// The on-disk location of a mod's file (see `file_location`).
pub fn file_entry_location(
    enabled: bool,
    staged_path: &str,
    mod_dir: &str,
    destination: Option<String>,
    relative_path: &str,
) -> (r: String)
    ensures
        r@ == file_location(
            enabled,
            staged_path@,
            mod_dir@,
            match destination {
                Some(d) => Some(d@),
                None => None,
            },
            relative_path@,
        ),
{
    if enabled {
        let dest = match destination {
            Some(d) => d,
            None => "/".to_string(),
        };
        if dest == "/".to_string() {
            join_path(mod_dir, relative_path)
        } else {
            let dir = join_path(mod_dir, dest.as_str());
            join_path(dir.as_str(), relative_path)
        }
    } else {
        join_path(staged_path, relative_path)
    }
}

} // verus!
