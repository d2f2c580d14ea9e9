use modtoggler::records::{FileEntry, GameRecord, ModRecord, SubModRecord};
use modtoggler::error::AppError;
use modtoggler::toggle::{
    build_file_pairs, check_sub_mod_parent, entries_for_sub_mod, get_sub_mod_states_to_restore,
    parent_entries, plan_toggle_mod, plan_toggle_sub_mod, JournalOp, ToggleStep,
};

fn normalize(s: &str) -> String {
    s.replace('\\', "/")
}

fn entry(id: i64, rel: &str, sub: Option<i64>) -> FileEntry {
    FileEntry { id, mod_id: 1, relative_path: rel.to_string(), sub_mod_id: sub }
}

fn sub_mod(id: i64, name: &str, folder: &str, enabled: bool, user_enabled: bool) -> SubModRecord {
    SubModRecord { id, mod_id: 1, name: name.to_string(), folder_name: folder.to_string(), enabled, user_enabled }
}

#[test]
fn test_build_file_pairs_enable() {
    let entries = vec![entry(1, "textures/skin.pak", None), entry(2, "meshes/body.pak", None)];
    let pairs = build_file_pairs(&entries, "C:/staging/mymod", "C:/game/Mods");
    assert_eq!(pairs.len(), 2);
    assert_eq!(normalize(&pairs[0].src), "C:/staging/mymod/textures/skin.pak");
    assert_eq!(normalize(&pairs[0].dst), "C:/game/Mods/textures/skin.pak");
    assert!(!pairs[0].done);
}

#[test]
fn test_build_file_pairs_disable() {
    let entries = vec![entry(1, "data.pak", None)];
    let pairs = build_file_pairs(&entries, "C:/game/Mods", "C:/staging/mod");
    assert_eq!(normalize(&pairs[0].src), "C:/game/Mods/data.pak");
    assert_eq!(normalize(&pairs[0].dst), "C:/staging/mod/data.pak");
}

#[test]
fn test_build_file_pairs_sub_mod_only() {
    let all_entries = vec![
        entry(1, "main.pak", None),
        entry(2, "Option_A/extra.pak", Some(10)),
        entry(3, "Option_B/other.pak", Some(20)),
    ];
    let sub_entries = entries_for_sub_mod(&all_entries, 10);
    assert_eq!(sub_entries.len(), 1);
    assert_eq!(sub_entries[0].relative_path, "Option_A/extra.pak");

    let pairs = build_file_pairs(&sub_entries, "C:/staging/mod", "C:/game/Mods");
    assert_eq!(pairs.len(), 1);
    assert_eq!(normalize(&pairs[0].src), "C:/staging/mod/Option_A/extra.pak");
}

#[test]
fn test_parent_entries_excludes_sub_mods() {
    let all_entries = vec![entry(1, "main.pak", None), entry(2, "Option_A/extra.pak", Some(10))];
    let parent = parent_entries(&all_entries);
    assert_eq!(parent.len(), 1);
    assert_eq!(parent[0].relative_path, "main.pak");
}

#[test]
fn test_get_sub_mod_states_to_restore() {
    let sub_mods = vec![
        sub_mod(1, "Option A", "Option_A", false, true),
        sub_mod(2, "Option B", "Option_B", false, false),
        sub_mod(3, "Option C", "Option_C", false, true),
    ];
    let restore = get_sub_mod_states_to_restore(&sub_mods);
    assert_eq!(restore.len(), 2);
    assert!(restore.contains(&1));
    assert!(restore.contains(&3));
    assert!(!restore.contains(&2), "Option B has user_enabled=false");
}

#[test]
fn test_build_file_pairs_empty() {
    let entries: Vec<FileEntry> = vec![];
    let pairs = build_file_pairs(&entries, "a", "b");
    assert!(pairs.is_empty());
}

fn the_mod(enabled: bool) -> ModRecord {
    ModRecord { id: 1, game_id: 5, name: "Mod".into(), enabled, staged_path: "C:/staging/mod".into() }
}

fn the_game() -> GameRecord {
    GameRecord {
        id: 5,
        name: "Game".into(),
        mod_dir: "C:/game/Mods".into(),
        staging_dir: "C:/staging".into(),
        mod_structure: "structured".into(),
        requires_elevation: false,
    }
}

fn describe(steps: &[ToggleStep]) -> Vec<String> {
    steps
        .iter()
        .map(|s| match s {
            ToggleStep::MoveFiles { mod_id, operation, pairs } => format!(
                "move {} {} {}",
                mod_id,
                operation.as_str(),
                pairs.iter().map(|p| format!("{}>{}", normalize(&p.src), normalize(&p.dst))).collect::<Vec<_>>().join(",")
            ),
            ToggleStep::SetSubModEnabled { sub_mod_id, enabled, user_enabled } => {
                format!("sub {} {} {}", sub_mod_id, enabled, user_enabled)
            }
            ToggleStep::SetModEnabled { mod_id, enabled } => format!("mod {} {}", mod_id, enabled),
        })
        .collect()
}

#[test]
fn enabling_restores_user_enabled_sub_mods() {
    let entries = vec![entry(1, "main.pak", None), entry(2, "Option_A/a.pak", Some(10)), entry(3, "Option_B/b.pak", Some(20))];
    let subs = vec![sub_mod(10, "A", "Option_A", false, true), sub_mod(20, "B", "Option_B", false, false)];
    let steps = plan_toggle_mod(&the_mod(false), &the_game(), &entries, &subs, true);
    assert_eq!(
        describe(&steps),
        vec![
            "move 1 enable C:/staging/mod/main.pak>C:/game/Mods/main.pak".to_string(),
            "move 1 enable C:/staging/mod/Option_A/a.pak>C:/game/Mods/Option_A/a.pak".to_string(),
            "sub 10 true true".to_string(),
            "mod 1 true".to_string(),
        ]
    );
}

#[test]
fn disabling_retires_sub_mods_first_and_keeps_user_choice() {
    let entries = vec![entry(1, "main.pak", None), entry(2, "Option_A/a.pak", Some(10)), entry(3, "Option_B/b.pak", Some(20))];
    let subs = vec![sub_mod(10, "A", "Option_A", true, true), sub_mod(20, "B", "Option_B", false, true)];
    let steps = plan_toggle_mod(&the_mod(true), &the_game(), &entries, &subs, false);
    assert_eq!(
        describe(&steps),
        vec![
            "move 1 disable C:/game/Mods/Option_A/a.pak>C:/staging/mod/Option_A/a.pak".to_string(),
            "sub 10 false true".to_string(),
            "sub 20 false true".to_string(),
            "move 1 disable C:/game/Mods/main.pak>C:/staging/mod/main.pak".to_string(),
            "mod 1 false".to_string(),
        ]
    );
}

#[test]
fn toggling_a_mod_without_files_only_updates_flags() {
    let steps = plan_toggle_mod(&the_mod(false), &the_game(), &[], &[], true);
    assert_eq!(describe(&steps), vec!["mod 1 true".to_string()]);
}

#[test]
fn sub_mod_toggle_needs_an_enabled_parent() {
    match check_sub_mod_parent(&the_mod(false)) {
        Err(AppError::ModNotFound(m)) => assert_eq!(m, "Cannot toggle sub-mod: parent mod is disabled"),
        other => panic!("unexpected {:?}", other),
    }
    assert!(check_sub_mod_parent(&the_mod(true)).is_ok());
    let sm = sub_mod(10, "A", "Option_A", false, false);
    let steps = plan_toggle_sub_mod(&sm, &the_mod(true), &the_game(), &[entry(2, "Option_A/a.pak", Some(10))], true);
    assert_eq!(
        describe(&steps),
        vec![
            "move 1 enable C:/staging/mod/Option_A/a.pak>C:/game/Mods/Option_A/a.pak".to_string(),
            "sub 10 true true".to_string(),
        ]
    );
    let steps = plan_toggle_sub_mod(&sm, &the_mod(true), &the_game(), &[], false);
    assert_eq!(describe(&steps), vec!["sub 10 false false".to_string()]);
}

#[test]
fn journal_operations_are_named() {
    assert_eq!(JournalOp::Enable.as_str(), "enable");
    assert_eq!(JournalOp::Disable.as_str(), "disable");
    assert_eq!(JournalOp::for_target(true), JournalOp::Enable);
}

#[test]
fn turning_a_mod_off_and_on_restores_the_users_sub_mods() {
    let entries = vec![entry(1, "main.pak", None), entry(2, "Option_A/a.pak", Some(10)), entry(3, "Option_B/b.pak", Some(20))];
    let before = vec![sub_mod(10, "A", "Option_A", true, true), sub_mod(20, "B", "Option_B", false, false)];
    let off = plan_toggle_mod(&the_mod(true), &the_game(), &entries, &before, false);
    // the sub-mods as the first toggle leaves them
    let mut after_off = before.clone();
    for step in &off {
        if let ToggleStep::SetSubModEnabled { sub_mod_id, enabled, user_enabled } = step {
            for sm in after_off.iter_mut() {
                if sm.id == *sub_mod_id {
                    sm.enabled = *enabled;
                    sm.user_enabled = *user_enabled;
                }
            }
        }
    }
    assert!(after_off.iter().all(|sm| !sm.enabled));
    assert_eq!(after_off.iter().map(|sm| sm.user_enabled).collect::<Vec<_>>(), vec![true, false]);
    let on = plan_toggle_mod(&the_mod(false), &the_game(), &entries, &after_off, true);
    assert_eq!(
        describe(&on),
        vec![
            "move 1 enable C:/staging/mod/main.pak>C:/game/Mods/main.pak".to_string(),
            "move 1 enable C:/staging/mod/Option_A/a.pak>C:/game/Mods/Option_A/a.pak".to_string(),
            "sub 10 true true".to_string(),
            "mod 1 true".to_string(),
        ]
    );
}

#[test]
fn disabling_moves_files_back_where_enabling_took_them() {
    let entries = vec![entry(1, "a.pak", None), entry(2, "b/c.pak", None)];
    let there = build_file_pairs(&entries, "C:/staging/mod", "C:/game/Mods");
    let back = build_file_pairs(&entries, "C:/game/Mods", "C:/staging/mod");
    for (t, b) in there.iter().zip(back.iter()) {
        assert_eq!(t.src, b.dst);
        assert_eq!(t.dst, b.src);
    }
}

fn move_ends(steps: &[ToggleStep]) -> Vec<(String, String)> {
    let mut out = Vec::new();
    for s in steps {
        if let ToggleStep::MoveFiles { pairs, .. } = s {
            for p in pairs {
                out.push((normalize(&p.src), normalize(&p.dst)));
            }
        }
    }
    out
}

#[test]
fn enable_after_disable_moves_every_file_back() {
    let entries = vec![entry(1, "main.pak", None), entry(2, "Option_A/a.pak", Some(10)), entry(3, "Option_B/b.pak", Some(20))];
    let before = vec![sub_mod(10, "A", "Option_A", true, true), sub_mod(20, "B", "Option_B", false, false)];
    let off = plan_toggle_mod(&the_mod(true), &the_game(), &entries, &before, false);
    let after_off = vec![sub_mod(10, "A", "Option_A", false, true), sub_mod(20, "B", "Option_B", false, false)];
    let on = plan_toggle_mod(&the_mod(false), &the_game(), &entries, &after_off, true);
    let d = move_ends(&off);
    let e = move_ends(&on);
    assert_eq!(d.len(), 2);
    // the parent's batch, last when disabling, comes first when enabling
    let k = 1;
    let rotated: Vec<(String, String)> = d[k..].iter().chain(d[..k].iter()).map(|(a, b)| (b.clone(), a.clone())).collect();
    assert_eq!(e, rotated);
}

#[test]
fn parent_and_sub_mod_groups_cover_every_entry_once() {
    let entries = vec![
        entry(1, "main.pak", None),
        entry(2, "Option_A/a.pak", Some(10)),
        entry(3, "Option_B/b.pak", Some(20)),
        entry(4, "Option_A/c.pak", Some(10)),
        entry(5, "readme.txt", None),
    ];
    let parent = parent_entries(&entries);
    let a = entries_for_sub_mod(&entries, 10);
    let b = entries_for_sub_mod(&entries, 20);
    assert_eq!(parent.len() + a.len() + b.len(), entries.len());
    assert!(parent.iter().all(|e| e.sub_mod_id.is_none()));
    assert!(a.iter().all(|e| e.sub_mod_id == Some(10)));
    assert_eq!(a.iter().map(|e| e.id).collect::<Vec<_>>(), vec![2, 4]);
    assert_eq!(b.iter().map(|e| e.id).collect::<Vec<_>>(), vec![3]);
}
