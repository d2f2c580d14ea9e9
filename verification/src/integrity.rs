//! The startup integrity scan.
//!
//! For each mod that has files, the scan checks whether its files are where its `enabled`
//! flag says: an enabled mod's files belong in its game's mod directory, so one absent there
//! means the mod is missing from the game; a disabled mod's files belong in its staging
//! folder, so one absent there means the mod is missing from staging. A mod without file
//! entries is never flagged, so a first launch with no mods reports nothing.
use vstd::prelude::*;

use crate::import::texts;
use crate::journal::IncompleteJournalEntry;
use crate::paths::{join_path, path_joined};
use crate::records::{FileEntry, ModRecord};

verus! {

/// The findings of the integrity scan. Empty lists mean nothing needs attention.
#[derive(Debug, Clone)]
pub struct IntegrityScanResult {
    pub missing_from_game: Vec<ModRecord>,
    pub missing_from_staging: Vec<ModRecord>,
    pub incomplete_journals: Vec<IncompleteJournalEntry>,
}

/// A mod and, for each of its file entries, whether the file is present where the mod's
/// `enabled` flag says it belongs (see `expected_file_paths`).
#[derive(Debug, Clone)]
pub struct ModFileCheck {
    pub record: ModRecord,
    pub files_present: Vec<bool>,
}

/// The folder where a mod's files belong: the game's mod directory while the mod is enabled,
/// its own staging folder while it is disabled.
pub open spec fn expected_base(record: ModRecord, mod_dir: Seq<char>) -> Seq<char> {
    if record.enabled {
        mod_dir
    } else {
        record.staged_path@
    }
}

/// The location of each of a mod's files under a folder: its relative path joined to it.
pub open spec fn paths_under(base: Seq<char>, entries: Seq<FileEntry>) -> Seq<Seq<char>> {
    entries.map_values(|e: FileEntry| path_joined(base, e.relative_path@))
}

/// Where each of a mod's files should be found: under the game's mod directory `mod_dir`
/// while the mod is enabled, under its staging folder while it is disabled.
pub fn expected_file_paths(record: &ModRecord, mod_dir: &str, entries: &[FileEntry]) -> (r: Vec<String>)
    ensures
        texts(r@) == paths_under(expected_base(*record, mod_dir@), entries@),
{
    if record.enabled {
        file_paths_under(mod_dir, entries)
    } else {
        file_paths_under(record.staged_path.as_str(), entries)
    }
}

/// The location of each of a mod's files under a folder (its staging folder, or the game's
/// mod directory): its relative path joined to the folder.
pub fn file_paths_under(base: &str, entries: &[FileEntry]) -> (r: Vec<String>)
    ensures
        texts(r@) == paths_under(base@, entries@),
{
    let mut r: Vec<String> = Vec::new();
    let n = entries.len();
    for i in 0..n
        invariant
            n == entries@.len(),
            texts(r@) == entries@.take(i as int).map_values(|e: FileEntry| path_joined(base@, e.relative_path@)),
    {
        let ghost before = r@;
        r.push(join_path(base, entries[i].relative_path.as_str()));
        assert(entries@.take(i + 1).map_values(|e: FileEntry| path_joined(base@, e.relative_path@))
            =~= entries@.take(i as int).map_values(|e: FileEntry| path_joined(base@, e.relative_path@)).push(
            path_joined(base@, entries@[i as int].relative_path@),
        ));
        assert(texts(r@) =~= texts(before).push(r@[i as int]@));
    }
    assert(entries@.take(n as int) =~= entries@);
    r
}

/// An enabled mod with a file absent from the game's mod directory is missing from the game.
pub open spec fn missing_from_game(c: ModFileCheck) -> bool {
    c.record.enabled && c.files_present@.contains(false)
}

/// A disabled mod with a file absent from its staging folder is missing from staging.
pub open spec fn missing_from_staging(c: ModFileCheck) -> bool {
    !c.record.enabled && c.files_present@.contains(false)
}

/// The mods flagged as missing from the game, in scan order.
pub open spec fn flagged_game(cs: Seq<ModFileCheck>) -> Seq<ModRecord>
    decreases cs.len(),
{
    if cs.len() == 0 {
        Seq::empty()
    } else if missing_from_game(cs.last()) {
        flagged_game(cs.drop_last()).push(cs.last().record)
    } else {
        flagged_game(cs.drop_last())
    }
}

/// The mods flagged as missing from staging, in scan order.
pub open spec fn flagged_staging(cs: Seq<ModFileCheck>) -> Seq<ModRecord>
    decreases cs.len(),
{
    if cs.len() == 0 {
        Seq::empty()
    } else if missing_from_staging(cs.last()) {
        flagged_staging(cs.drop_last()).push(cs.last().record)
    } else {
        flagged_staging(cs.drop_last())
    }
}

fn contains_flag(v: &Vec<bool>, b: bool) -> (r: bool)
    ensures
        r == v@.contains(b),
{
    let n = v.len();
    for i in 0..n
        invariant
            n == v@.len(),
            forall|j: int| 0 <= j < i ==> v@[j] != b,
    {
        if v[i] == b {
            assert(v@[i as int] == b);
            return true;
        }
    }
    false
}

/// Builds the scan result from the per-mod file checks and the journals found in progress.
pub fn integrity_findings(checks: &[ModFileCheck], incomplete_journals: Vec<IncompleteJournalEntry>) -> (r: IntegrityScanResult)
    ensures
        r.missing_from_game@ == flagged_game(checks@),
        r.missing_from_staging@ == flagged_staging(checks@),
        r.incomplete_journals@ == incomplete_journals@,
{
    let mut game: Vec<ModRecord> = Vec::new();
    let mut staging: Vec<ModRecord> = Vec::new();
    let n = checks.len();
    for i in 0..n
        invariant
            n == checks@.len(),
            game@ == flagged_game(checks@.take(i as int)),
            staging@ == flagged_staging(checks@.take(i as int)),
    {
        let c = &checks[i];
        assert(checks@.take(i + 1).drop_last() =~= checks@.take(i as int));
        assert(checks@.take(i + 1).last() == checks@[i as int]);
        if contains_flag(&c.files_present, false) {
            if c.record.enabled {
                game.push(c.record.duplicate());
            } else {
                staging.push(c.record.duplicate());
            }
        }
    }
    assert(checks@.take(n as int) =~= checks@);
    IntegrityScanResult { missing_from_game: game, missing_from_staging: staging, incomplete_journals }
}

/// On a first launch (no mods) the scan reports nothing missing.
pub proof fn lemma_no_mods_no_warnings(cs: Seq<ModFileCheck>)
    requires
        cs.len() == 0,
    ensures
        flagged_game(cs).len() == 0,
        flagged_staging(cs).len() == 0,
{
}

/// A mod without file entries is never flagged; every flagged mod is enabled (missing from
/// the game) or disabled (missing from staging) accordingly, so no mod is in both lists.
pub proof fn lemma_flags_follow_enabled_state(cs: Seq<ModFileCheck>)
    ensures
        forall|k: int| 0 <= k < flagged_game(cs).len() ==> (#[trigger] flagged_game(cs)[k]).enabled,
        forall|k: int| 0 <= k < flagged_staging(cs).len() ==> !(#[trigger] flagged_staging(cs)[k]).enabled,
        forall|i: int| 0 <= i < cs.len() && (#[trigger] cs[i]).files_present@.len() == 0 ==>
            !missing_from_game(cs[i]) && !missing_from_staging(cs[i]),
    decreases cs.len(),
{
    if cs.len() > 0 {
        let d = cs.drop_last();
        lemma_flags_follow_enabled_state(d);
        assert forall|k: int| 0 <= k < flagged_game(cs).len() implies (#[trigger] flagged_game(cs)[k]).enabled by {
            if k < flagged_game(d).len() {
                assert(flagged_game(cs)[k] == flagged_game(d)[k]);
            }
        }
        assert forall|k: int| 0 <= k < flagged_staging(cs).len() implies !(#[trigger] flagged_staging(cs)[k]).enabled by {
            if k < flagged_staging(d).len() {
                assert(flagged_staging(cs)[k] == flagged_staging(d)[k]);
            }
        }
    }
}

/// Whether some file of a mod is absent from where the mod's `enabled` flag says it belongs.
pub open spec fn some_file_absent(c: ModFileCheck) -> bool {
    exists|j: int| 0 <= j < c.files_present@.len() && !c.files_present@[j]
}

/// A mod is judged on its own: an enabled mod is reported missing from the game exactly when
/// at least one of its files, wherever it stands among them, is absent from the game's mod
/// directory; a disabled mod is reported missing from staging exactly when at least one of
/// its files is absent from its staging folder. No mod is in both lists.
pub proof fn lemma_one_mod_findings(c: ModFileCheck)
    ensures
        flagged_game(seq![c]) == (if c.record.enabled && some_file_absent(c) {
            seq![c.record]
        } else {
            Seq::<ModRecord>::empty()
        }),
        flagged_staging(seq![c]) == (if !c.record.enabled && some_file_absent(c) {
            seq![c.record]
        } else {
            Seq::<ModRecord>::empty()
        }),
{
    let cs = seq![c];
    assert(cs.drop_last() =~= Seq::<ModFileCheck>::empty());
    assert(cs.last() == c);
    assert(some_file_absent(c) == c.files_present@.contains(false)) by {
        if some_file_absent(c) {
            let j = choose|j: int| 0 <= j < c.files_present@.len() && !c.files_present@[j];
            assert(c.files_present@[j] == false);
        }
    }
    assert(flagged_game(cs.drop_last()) =~= Seq::<ModRecord>::empty());
    assert(flagged_staging(cs.drop_last()) =~= Seq::<ModRecord>::empty());
    assert(Seq::<ModRecord>::empty().push(c.record) =~= seq![c.record]);
}

/// The scan of several mods reports the findings of each in turn: scanning `a` then `b`
/// gives the findings of `a` followed by those of `b`.
pub proof fn lemma_findings_concat(a: Seq<ModFileCheck>, b: Seq<ModFileCheck>)
    ensures
        flagged_game(a + b) == flagged_game(a) + flagged_game(b),
        flagged_staging(a + b) == flagged_staging(a) + flagged_staging(b),
    decreases b.len(),
{
    if b.len() == 0 {
        assert(a + b =~= a);
        assert(flagged_game(a) + flagged_game(b) =~= flagged_game(a));
        assert(flagged_staging(a) + flagged_staging(b) =~= flagged_staging(a));
    } else {
        assert((a + b).drop_last() =~= a + b.drop_last());
        assert((a + b).last() == b.last());
        lemma_findings_concat(a, b.drop_last());
        assert(flagged_game(a + b) =~= flagged_game(a) + flagged_game(b));
        assert(flagged_staging(a + b) =~= flagged_staging(a) + flagged_staging(b));
    }
}

} // verus!
