use modtoggler::integrity::{
    expected_file_paths, file_paths_under, integrity_findings, IntegrityScanResult, ModFileCheck,
};
use modtoggler::journal::{FilePair, IncompleteJournalEntry};
use modtoggler::records::{FileEntry, ModRecord};

#[test]
fn test_empty_scan_result_has_no_warnings() {
    let result = IntegrityScanResult {
        missing_from_game: vec![],
        missing_from_staging: vec![],
        incomplete_journals: vec![],
    };

    assert!(result.missing_from_game.is_empty(), "Fresh DB should have no missing_from_game");
    assert!(result.missing_from_staging.is_empty(), "Fresh DB should have no missing_from_staging");
    assert!(result.incomplete_journals.is_empty(), "Fresh DB should have no incomplete_journals");
}

fn record(id: i64, enabled: bool) -> ModRecord {
    ModRecord { id, game_id: 1, name: format!("Mod {}", id), enabled, staged_path: format!("C:/staging/{}", id) }
}

#[test]
fn first_launch_reports_nothing() {
    let result = integrity_findings(&[], vec![]);
    assert!(result.missing_from_game.is_empty());
    assert!(result.missing_from_staging.is_empty());
    assert!(result.incomplete_journals.is_empty());
}

#[test]
fn mods_are_flagged_by_where_their_files_are() {
    let checks = vec![
        // enabled, one file absent from the game's mod directory: missing from the game
        ModFileCheck { record: record(1, true), files_present: vec![true, false] },
        // enabled, all files in the game's mod directory: fine
        ModFileCheck { record: record(2, true), files_present: vec![true] },
        // disabled, one file absent from staging: missing from staging
        ModFileCheck { record: record(3, false), files_present: vec![true, false] },
        // disabled, all files in staging: fine
        ModFileCheck { record: record(4, false), files_present: vec![true] },
        // no file entries: never flagged
        ModFileCheck { record: record(5, true), files_present: vec![] },
        ModFileCheck { record: record(6, false), files_present: vec![] },
    ];
    let journal = IncompleteJournalEntry {
        id: 9,
        mod_id: 1,
        operation: "enable".to_string(),
        files: vec![FilePair { src: "a".into(), dst: "b".into(), done: false }],
    };
    let result = integrity_findings(&checks, vec![journal]);
    let game: Vec<i64> = result.missing_from_game.iter().map(|m| m.id).collect();
    let staging: Vec<i64> = result.missing_from_staging.iter().map(|m| m.id).collect();
    assert_eq!(game, vec![1]);
    assert_eq!(staging, vec![3]);
    assert_eq!(result.incomplete_journals.len(), 1);
    assert_eq!(result.incomplete_journals[0].id, 9);
}

#[test]
fn staged_paths_join_relative_paths() {
    let entries = vec![
        FileEntry { id: 1, mod_id: 1, relative_path: "a.pak".into(), sub_mod_id: None },
        FileEntry { id: 2, mod_id: 1, relative_path: "Option_A/b.pak".into(), sub_mod_id: Some(3) },
    ];
    let paths: Vec<String> = file_paths_under("C:/staging/m", &entries).iter().map(|p| p.replace('\\', "/")).collect();
    assert_eq!(paths, vec!["C:/staging/m/a.pak".to_string(), "C:/staging/m/Option_A/b.pak".to_string()]);
}

#[test]
fn enabled_mods_are_checked_in_the_game_directory() {
    let entries = vec![FileEntry { id: 1, mod_id: 1, relative_path: "a.pak".into(), sub_mod_id: None }];
    let enabled: Vec<String> =
        expected_file_paths(&record(1, true), "D:/game/mods", &entries).iter().map(|p| p.replace('\\', "/")).collect();
    assert_eq!(enabled, vec!["D:/game/mods/a.pak".to_string()]);
    let disabled: Vec<String> =
        expected_file_paths(&record(1, false), "D:/game/mods", &entries).iter().map(|p| p.replace('\\', "/")).collect();
    assert_eq!(disabled, vec!["C:/staging/1/a.pak".to_string()]);
}

#[test]
fn enabled_mod_with_file_gone_everywhere_is_flagged() {
    let checks = vec![ModFileCheck { record: record(7, true), files_present: vec![false] }];
    let result = integrity_findings(&checks, vec![]);
    assert_eq!(result.missing_from_game.len(), 1);
    assert_eq!(result.missing_from_game[0].id, 7);
    assert!(result.missing_from_staging.is_empty());
}
