use modtoggler::error::AppError;
use modtoggler::games::{
    find_game, game_not_found, has_existing_mod_files, has_mod_extension, is_protected_path,
    pick_home, resolve_staging_dir, slug_from_name,
};
use modtoggler::records::GameRecord;

fn game(id: i64, name: &str) -> GameRecord {
    GameRecord {
        id,
        name: name.to_string(),
        mod_dir: "C:/game/Mods".to_string(),
        staging_dir: "C:/staging".to_string(),
        mod_structure: "structured".to_string(),
        requires_elevation: false,
    }
}

#[test]
fn test_slug_from_name_basic() {
    assert_eq!(slug_from_name("Tekken 8"), "tekken-8");
}

#[test]
fn test_slug_from_name_special_chars() {
    assert_eq!(slug_from_name("My Game: Edition"), "my-game--edition");
}

#[test]
fn test_is_protected_path_program_files() {
    assert!(is_protected_path(
        "C:/Program Files (x86)/Steam/steamapps/common/TEKKEN 8/Mods"
    ));
    assert!(is_protected_path("C:/Program Files/SomeGame/Mods"));
}

#[test]
fn test_is_protected_path_not_protected() {
    assert!(!is_protected_path("C:/Games/Tekken8/Mods"));
    assert!(!is_protected_path(
        "D:/SteamLibrary/steamapps/common/TEKKEN 8/Mods"
    ));
}

#[test]
fn slug_trims_dashes_and_keeps_unicode_letters() {
    assert_eq!(slug_from_name("--Street Fighter 6--"), "street-fighter-6");
    assert_eq!(slug_from_name("!!!"), "");
    assert_eq!(slug_from_name(""), "");
    assert_eq!(slug_from_name("Ünïcode Game"), "Ünïcode-game");
    assert_eq!(slug_from_name("a-b"), "a-b");
}

#[test]
fn protected_path_is_case_insensitive() {
    assert!(is_protected_path("c:/PROGRAM FILES/x"));
    assert!(!is_protected_path("C:/ProgramFiles/x"));
}

#[test]
fn staging_dir_defaults_under_home() {
    assert_eq!(
        resolve_staging_dir(None, "Tekken 8", "/home/u"),
        "/home/u/.modtoggler/games/tekken-8/staging"
    );
    assert_eq!(
        resolve_staging_dir(Some(String::new()), "Tekken 8", "/home/u"),
        "/home/u/.modtoggler/games/tekken-8/staging"
    );
    assert_eq!(
        resolve_staging_dir(Some("D:/stage".to_string()), "Tekken 8", "/home/u"),
        "D:/stage"
    );
}

#[test]
fn home_falls_back_in_order() {
    assert_eq!(pick_home(Some("C:/Users/me".into()), Some("/home/me".into())), "C:/Users/me");
    assert_eq!(pick_home(None, Some("/home/me".into())), "/home/me");
    assert_eq!(pick_home(None, None), ".");
}

#[test]
fn find_game_returns_first_match_or_not_found() {
    let games = vec![game(1, "A"), game(2, "B"), game(2, "C")];
    let g = find_game(&games, 2).unwrap();
    assert_eq!(g.name, "B");
    match find_game(&games, -7) {
        Err(AppError::GameNotFound(m)) => assert_eq!(m, "Game ID -7 not found"),
        other => panic!("unexpected {:?}", other),
    }
}

#[test]
fn game_not_found_message_formats_id() {
    match game_not_found(1234) {
        AppError::GameNotFound(m) => assert_eq!(m, "Game ID 1234 not found"),
        other => panic!("unexpected {:?}", other),
    }
    match game_not_found(i64::MIN) {
        AppError::GameNotFound(m) => assert_eq!(m, "Game ID -9223372036854775808 not found"),
        other => panic!("unexpected {:?}", other),
    }
}

#[test]
fn existing_mod_files_are_detected_by_extension() {
    assert!(has_mod_extension("C:/game/Mods/testmod.pak"));
    assert!(has_mod_extension("x/Y.UTOC"));
    assert!(has_mod_extension("a.Ucas"));
    assert!(!has_mod_extension("readme.txt"));
    assert!(!has_mod_extension(".pak"));
    assert!(has_existing_mod_files(&["a.txt".to_string(), "b.pak".to_string()]));
    assert!(!has_existing_mod_files(&[]));
    assert!(!has_existing_mod_files(&["a.txt".to_string()]));
}

#[test]
fn slug_of_a_slug_is_itself() {
    for name in ["My Cool Mod!", "--Über Mod--", "A_B c", "", "---", "ABC-def 123"] {
        let s = slug_from_name(name);
        assert_eq!(slug_from_name(&s), s);
        assert!(!s.starts_with('-') && !s.ends_with('-'));
        assert!(s.chars().all(|c| c == '-' || (c.is_alphanumeric() && !c.is_ascii_uppercase())));
    }
    assert_eq!(slug_from_name("My Cool Mod!"), "my-cool-mod");
}

#[test]
fn slugs_cannot_leave_the_staging_folder() {
    assert_eq!(slug_from_name("../../etc"), "etc");
    assert_eq!(slug_from_name("C:\\Windows\\x.y"), "c--windows-x-y");
    assert_eq!(slug_from_name("My Game: Edition"), "my-game--edition");
    assert_eq!(slug_from_name("Tekken 8"), "tekken-8");
    assert_eq!(slug_from_name("./."), "");
}
