use modtoggler::profiles::{
    plan_apply_profile, skipped_mod_label, snapshot_entry, sub_mod_needs_toggle, ProfileAction,
    SubModState,
};
use modtoggler::records::{ModRecord, ProfileEntryRecord, SubModRecord};

fn record(id: i64, enabled: bool) -> ModRecord {
    ModRecord { id, game_id: 1, name: format!("Mod {}", id), enabled, staged_path: format!("C:/staging/{}", id) }
}

fn entry(mod_id: i64, enabled: bool, states: Option<&str>) -> ProfileEntryRecord {
    ProfileEntryRecord { id: mod_id * 10, profile_id: 1, mod_id, enabled, sub_mod_states: states.map(|s| s.to_string()) }
}

fn describe(actions: &[ProfileAction]) -> Vec<String> {
    actions
        .iter()
        .map(|a| match a {
            ProfileAction::ToggleMod { mod_id, enable } => format!("toggle {} {}", mod_id, enable),
            ProfileAction::ApplySubModStates { mod_id, states_json } => format!("subs {} {}", mod_id, states_json),
        })
        .collect()
}

#[test]
fn snapshot_uses_user_intent_for_sub_mods() {
    let m = record(1, true);
    let subs = vec![
        SubModRecord { id: 7, mod_id: 1, name: "X".into(), folder_name: "Option_X".into(), enabled: false, user_enabled: true },
        SubModRecord { id: 8, mod_id: 1, name: "Y".into(), folder_name: "Option_Y".into(), enabled: true, user_enabled: false },
    ];
    let draft = snapshot_entry(&m, &subs);
    assert_eq!(draft.mod_id, 1);
    assert!(draft.enabled);
    assert_eq!(
        draft.sub_mod_states,
        Some(vec![SubModState { sub_mod_id: 7, enabled: true }, SubModState { sub_mod_id: 8, enabled: false }])
    );
    assert!(snapshot_entry(&record(2, false), &[]).sub_mod_states.is_none());
}

#[test]
fn applying_disables_before_enables_and_skips_deleted_mods() {
    // Mod 1 is enabled but saved disabled; mod 2 is disabled but saved enabled (with
    // sub-mod states); mod 3 is not in the profile and enabled; mod 4 was deleted.
    let game_mods = vec![record(1, true), record(2, false), record(3, true)];
    let entries = vec![entry(1, false, None), entry(4, true, None), entry(2, true, Some("[{\"sub_mod_id\":7,\"enabled\":true}]"))];
    let plan = plan_apply_profile(&entries, &game_mods, &game_mods);
    assert_eq!(
        describe(&plan.actions),
        vec![
            "toggle 1 false".to_string(),
            "toggle 3 false".to_string(),
            "toggle 2 true".to_string(),
            "subs 2 [{\"sub_mod_id\":7,\"enabled\":true}]".to_string(),
        ]
    );
    assert_eq!(plan.skipped_mods, vec!["mod_id=4".to_string()]);
}

#[test]
fn applying_a_profile_twice_changes_nothing_more() {
    let game_mods = vec![record(1, false), record(2, true)];
    let entries = vec![entry(1, false, Some("[]")), entry(2, true, None)];
    let plan = plan_apply_profile(&entries, &game_mods, &game_mods);
    assert!(plan.actions.is_empty());
    assert!(plan.skipped_mods.is_empty());
}

#[test]
fn save_then_load_restores_enabled_flags() {
    let saved = vec![record(1, true), record(2, false), record(3, true)];
    let entries: Vec<ProfileEntryRecord> = saved
        .iter()
        .map(|m| {
            let d = snapshot_entry(m, &[]);
            entry(d.mod_id, d.enabled, None)
        })
        .collect();
    // in between, every flag was flipped
    let now = vec![record(1, false), record(2, true), record(3, false)];
    let plan = plan_apply_profile(&entries, &now, &now);
    assert_eq!(
        describe(&plan.actions),
        vec!["toggle 2 false".to_string(), "toggle 1 true".to_string(), "toggle 3 true".to_string()]
    );
}

#[test]
fn sub_mod_states_toggle_only_on_change() {
    let sm = SubModRecord { id: 7, mod_id: 1, name: "X".into(), folder_name: "Option_X".into(), enabled: true, user_enabled: true };
    assert!(!sub_mod_needs_toggle(&sm, &SubModState { sub_mod_id: 7, enabled: true }));
    assert!(sub_mod_needs_toggle(&sm, &SubModState { sub_mod_id: 7, enabled: false }));
    assert_eq!(skipped_mod_label(-3), "mod_id=-3");
}
