use modtoggler::import::{
    has_recognized_mod_files, is_option_folder_name, manifest_entry_path, option_file_path,
    partition_files, split_first_segment, staging_candidate, StagingNames,
};

#[test]
fn partition_files_separates_option_folders() {
    let paths = vec![
        "readme.txt".to_string(),
        "data/main.pak".to_string(),
        "Option_HighRes/textures/tex.pak".to_string(),
        "Option_HighRes/textures/tex.utoc".to_string(),
        "option_lowres/textures/tex.pak".to_string(),
    ];

    let (main_files, sub_mods) = partition_files(&paths);

    assert_eq!(main_files.len(), 2);
    assert!(main_files.contains(&"readme.txt".to_string()));
    assert!(main_files.contains(&"data/main.pak".to_string()));

    assert_eq!(sub_mods.len(), 2);
    let high = &sub_mods.iter().find(|g| g.folder_name == "Option_HighRes").unwrap().files;
    assert_eq!(high.len(), 2);
    assert!(high.contains(&"textures/tex.pak".to_string()));
    assert!(high.contains(&"textures/tex.utoc".to_string()));
    let low = &sub_mods.iter().find(|g| g.folder_name == "option_lowres").unwrap().files;
    assert_eq!(low.len(), 1);
    assert!(low.contains(&"textures/tex.pak".to_string()));
}

#[test]
fn partition_files_no_options_returns_all_main() {
    let paths = vec!["readme.txt".to_string(), "data/main.pak".to_string()];

    let (main_files, sub_mods) = partition_files(&paths);

    assert_eq!(main_files.len(), 2);
    assert!(sub_mods.is_empty());
}

#[test]
fn has_recognized_mod_files_detects_extensions() {
    assert!(has_recognized_mod_files(&["file.pak".to_string()]));
    assert!(has_recognized_mod_files(&["file.ucas".to_string()]));
    assert!(has_recognized_mod_files(&["file.utoc".to_string()]));
    assert!(has_recognized_mod_files(&["dir/FILE.PAK".to_string()]));
    assert!(!has_recognized_mod_files(&["readme.txt".to_string()]));
    assert!(!has_recognized_mod_files(&["config.ini".to_string()]));
    assert!(!has_recognized_mod_files(&[]));
}

#[test]
fn root_level_option_file_belongs_to_parent() {
    let (main_files, sub_mods) =
        partition_files(&["Option_notes.txt".to_string(), "Option_A/x.pak".to_string()]);
    assert_eq!(main_files, vec!["Option_notes.txt".to_string()]);
    assert_eq!(sub_mods.len(), 1);
    assert_eq!(sub_mods[0].folder_name, "Option_A");
    assert_eq!(sub_mods[0].files, vec!["x.pak".to_string()]);
}

#[test]
fn option_folder_entry_with_trailing_slash() {
    let (main_files, sub_mods) = partition_files(&["Option_Y/".to_string()]);
    assert!(main_files.is_empty());
    assert_eq!(sub_mods.len(), 1);
    assert_eq!(sub_mods[0].folder_name, "Option_Y");
    assert_eq!(sub_mods[0].files, vec!["".to_string()]);
}

#[test]
fn option_folder_names() {
    assert!(is_option_folder_name("Option_A"));
    assert!(is_option_folder_name("option_"));
    assert!(!is_option_folder_name("OPTION_A"));
    assert!(!is_option_folder_name("Options"));
    assert_eq!(split_first_segment("a/b/c"), ("a".to_string(), "b/c".to_string(), true));
    assert_eq!(split_first_segment("abc"), ("abc".to_string(), "abc".to_string(), false));
    assert_eq!(split_first_segment("/x"), ("".to_string(), "x".to_string(), true));
}

#[test]
fn manifest_entries_are_normalized() {
    assert_eq!(manifest_entry_path(true, Some("dir/".to_string())), None);
    assert_eq!(manifest_entry_path(false, None), None);
    assert_eq!(
        manifest_entry_path(false, Some("sub\\dir\\file.pak".to_string())),
        Some("sub/dir/file.pak".to_string())
    );
}

#[test]
fn option_files_keep_their_folder() {
    assert_eq!(option_file_path("Option_A", "x/y.pak"), "Option_A/x/y.pak");
}

#[test]
fn staging_candidates_number_the_stem() {
    assert_eq!(staging_candidate("config.ini", 0), "config.ini");
    assert_eq!(staging_candidate("config.ini", 1), "config_1.ini");
    assert_eq!(staging_candidate("archive.tar.gz", 12), "archive.tar_12.gz");
    assert_eq!(staging_candidate("README", 2), "README_2");
    assert_eq!(staging_candidate(".bashrc", 3), ".bashrc_3");
}

#[test]
fn staging_names_never_repeat() {
    let mut names = StagingNames::new();
    names.begin("config.ini");
    assert_eq!(names.current_candidate(), "config.ini");
    assert_eq!(names.answer(false), Some("config.ini".to_string()));
    // the same desired name again: taken in this batch, so the next candidate is tried
    names.begin("config.ini");
    assert_eq!(names.answer(false), None);
    assert_eq!(names.current_attempt(), 1);
    assert_eq!(names.current_candidate(), "config_1.ini");
    assert_eq!(names.answer(false), Some("config_1.ini".to_string()));
    // a name already on disk is never taken
    names.begin("other.ini");
    assert_eq!(names.answer(true), None);
    assert_eq!(names.current_candidate(), "other_1.ini");
}

#[test]
fn the_least_free_suffix_is_taken() {
    let mut names = StagingNames::new();
    // on disk: "a.pak" and "a_1.pak"; "a_2.pak" is free
    names.begin("a.pak");
    assert_eq!(names.answer(true), None);
    assert_eq!(names.answer(true), None);
    assert_eq!(names.current_candidate(), "a_2.pak");
    assert_eq!(names.answer(false), Some("a_2.pak".to_string()));
    // the next "a.pak": a.pak and a_1.pak on disk, a_2.pak given (and copied), a_3.pak free
    names.begin("a.pak");
    assert_eq!(names.answer(true), None);
    assert_eq!(names.answer(true), None);
    assert_eq!(names.answer(true), None);
    assert_eq!(names.current_attempt(), 3);
    assert_eq!(names.answer(false), Some("a_3.pak".to_string()));
}
