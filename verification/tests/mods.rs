use modtoggler::error::AppError;
use modtoggler::mods::{check_loose_mod, file_entry_location, loose_copy_sources, loose_file_entries, mod_staging_dir, LooseFileInput};

fn input(src: &str, dest: &str, name: &str) -> LooseFileInput {
    LooseFileInput { source_path: src.into(), destination_path: dest.into(), file_name: name.into() }
}

#[test]
fn mod_staging_dir_uses_the_slug() {
    assert_eq!(mod_staging_dir("C:/staging", "Cool Mod!").replace('\\', "/"), "C:/staging/cool-mod");
}

#[test]
fn loose_files_keep_their_destinations() {
    let files = vec![input("C:/a/config.ini", "bin/scripts", "config.ini"), input("C:/b/config.ini", "/", "config.ini")];
    let sources = loose_copy_sources(&files);
    assert_eq!(sources, vec![
        ("C:/a/config.ini".to_string(), "config.ini".to_string()),
        ("C:/b/config.ini".to_string(), "config.ini".to_string()),
    ]);
    let entries = loose_file_entries(&files, &["config.ini".to_string(), "config_1.ini".to_string()]);
    assert_eq!(entries, vec![
        ("config.ini".to_string(), "bin/scripts".to_string()),
        ("config_1.ini".to_string(), "/".to_string()),
    ]);
}

#[test]
fn only_loose_mods_accept_files() {
    assert!(check_loose_mod("loose").is_ok());
    match check_loose_mod("structured") {
        Err(AppError::IoError(m)) => assert_eq!(m, "Cannot add individual files to a structured mod"),
        other => panic!("unexpected {:?}", other),
    }
}

#[test]
fn file_locations_follow_the_enabled_flag() {
    let n = |s: String| s.replace('\\', "/");
    assert_eq!(n(file_entry_location(false, "C:/staging/m", "C:/game", Some("bin".into()), "a.ini")), "C:/staging/m/a.ini");
    assert_eq!(n(file_entry_location(true, "C:/staging/m", "C:/game", Some("bin".into()), "a.ini")), "C:/game/bin/a.ini");
    assert_eq!(n(file_entry_location(true, "C:/staging/m", "C:/game", Some("/".into()), "a.ini")), "C:/game/a.ini");
    assert_eq!(n(file_entry_location(true, "C:/staging/m", "C:/game", None, "a.ini")), "C:/game/a.ini");
}
