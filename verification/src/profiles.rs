//! Profiles: saving the mod configuration of a game and applying a saved one.
//!
//! Applying a profile reads the profile's entries and the game's mods, then toggles mods in
//! a fixed order: disables first (profile entries saved disabled, then mods that are not in
//! the profile), then enables, then the saved sub-mod states of mods that end up enabled.
//! The order is decided here from what was read; the caller performs the actions in order
//! and stops at the first failure.
use vstd::prelude::*;

use crate::import::texts;
use crate::records::{ModRecord, ProfileEntryRecord, SubModRecord};
use crate::text::{i64_text, push_all, signed_decimal};

verus! {

/// A sub-mod's saved state in a profile: the user's choice for it.
#[derive(Debug, Clone, Copy, PartialEq, Eq, Structural)]
pub struct SubModState {
    pub sub_mod_id: i64,
    pub enabled: bool,
}

/// The result of applying a profile: the mods of the profile that no longer exist.
#[derive(Debug, Clone)]
pub struct ApplyProfileResult {
    pub skipped_mods: Vec<String>,
}

/// What a profile saves of one mod: whether it is enabled, and the user's choice for each
/// of its sub-mods (absent when it has none).
#[derive(Debug, Clone)]
pub struct ProfileEntryDraft {
    pub mod_id: i64,
    pub enabled: bool,
    pub sub_mod_states: Option<Vec<SubModState>>,
}

/// The saved state of each sub-mod: its `user_enabled` flag (the user's intent, not whether
/// its files are in place now).
pub open spec fn saved_sub_mod_states(sub_mods: Seq<SubModRecord>) -> Seq<SubModState> {
    sub_mods.map_values(|sm: SubModRecord| SubModState { sub_mod_id: sm.id, enabled: sm.user_enabled })
}

/// Snapshots one mod for a profile: its `enabled` flag and, when it has sub-mods, their
/// saved states.
pub fn snapshot_entry(mod_rec: &ModRecord, sub_mods: &[SubModRecord]) -> (r: ProfileEntryDraft)
    ensures
        r.mod_id == mod_rec.id,
        r.enabled == mod_rec.enabled,
        sub_mods@.len() == 0 ==> r.sub_mod_states is None,
        sub_mods@.len() > 0 ==> (r.sub_mod_states matches Some(v) && v@ == saved_sub_mod_states(sub_mods@)),
{
    let mut states: Vec<SubModState> = Vec::new();
    let n = sub_mods.len();
    for i in 0..n
        invariant
            n == sub_mods@.len(),
            states@ == saved_sub_mod_states(sub_mods@.take(i as int)),
    {
        states.push(SubModState { sub_mod_id: sub_mods[i].id, enabled: sub_mods[i].user_enabled });
        assert(saved_sub_mod_states(sub_mods@.take(i + 1)) =~= saved_sub_mod_states(sub_mods@.take(i as int)).push(
            SubModState { sub_mod_id: sub_mods@[i as int].id, enabled: sub_mods@[i as int].user_enabled },
        ));
    }
    assert(sub_mods@.take(n as int) =~= sub_mods@);
    let saved = if n == 0 {
        None
    } else {
        Some(states)
    };
    ProfileEntryDraft { mod_id: mod_rec.id, enabled: mod_rec.enabled, sub_mod_states: saved }
}

/// Whether restoring a saved sub-mod state needs a toggle: the current user choice differs
/// from the saved one.
pub fn sub_mod_needs_toggle(current: &SubModRecord, saved: &SubModState) -> (r: bool)
    ensures
        r == (current.user_enabled != saved.enabled),
{
    current.user_enabled != saved.enabled
}

/// One action of applying a profile.
#[derive(Debug, Clone)]
pub enum ProfileAction {
    /// Toggle the mod to `enable`.
    ToggleMod { mod_id: i64, enable: bool },
    /// Restore the saved sub-mod states (JSON text) of the enabled mod.
    ApplySubModStates { mod_id: i64, states_json: String },
}

/// A profile action with its text as a sequence.
pub enum ActionView {
    ToggleMod { mod_id: i64, enable: bool },
    ApplySubModStates { mod_id: i64, states_json: Seq<char> },
}

impl View for ProfileAction {
    type V = ActionView;

    open spec fn view(&self) -> ActionView {
        match self {
            ProfileAction::ToggleMod { mod_id, enable } => ActionView::ToggleMod { mod_id: *mod_id, enable: *enable },
            ProfileAction::ApplySubModStates { mod_id, states_json } => ActionView::ApplySubModStates {
                mod_id: *mod_id,
                states_json: states_json@,
            },
        }
    }
}

/// The plan of applying a profile.
#[derive(Debug, Clone)]
pub struct ProfilePlan {
    pub actions: Vec<ProfileAction>,
    pub skipped_mods: Vec<String>,
}

/// The index of the first mod with id `id`, or -1 when there is none.
pub open spec fn first_index(mods: Seq<ModRecord>, id: i64) -> int
    decreases mods.len(),
{
    if mods.len() == 0 {
        -1
    } else if mods[0].id == id {
        0
    } else {
        let r = first_index(mods.drop_first(), id);
        if r < 0 {
            -1
        } else {
            r + 1
        }
    }
}

/// The progress of a profile application: each known mod's `enabled` flag (by index in the
/// known mods), the actions so far, and the profile's mods that were not found.
pub struct PlanView {
    pub flags: Seq<bool>,
    pub actions: Seq<ActionView>,
    pub skipped: Seq<Seq<char>>,
}

/// The entry of a mod that was deleted since the profile was saved: `mod_id=<id>`.
pub open spec fn skipped_label(mod_id: i64) -> Seq<char> {
    "mod_id="@ + signed_decimal(mod_id as int)
}

/// Phase one: each entry in turn whose mod is gone is skipped; each entry saved disabled
/// whose mod is enabled disables it.
pub open spec fn disable_phase(entries: Seq<ProfileEntryRecord>, known: Seq<ModRecord>, p: PlanView) -> PlanView
    decreases entries.len(),
{
    if entries.len() == 0 {
        p
    } else {
        let q = disable_phase(entries.drop_last(), known, p);
        let e = entries.last();
        let k = first_index(known, e.mod_id);
        if k < 0 {
            PlanView { flags: q.flags, actions: q.actions, skipped: q.skipped.push(skipped_label(e.mod_id)) }
        } else if q.flags[k] && !e.enabled {
            PlanView {
                flags: q.flags.update(k, false),
                actions: q.actions.push(ActionView::ToggleMod { mod_id: e.mod_id, enable: false }),
                skipped: q.skipped,
            }
        } else {
            q
        }
    }
}

/// Whether a mod has an entry in the profile.
pub open spec fn in_profile(entries: Seq<ProfileEntryRecord>, mod_id: i64) -> bool {
    exists|i: int| 0 <= i < entries.len() && entries[i].mod_id == mod_id
}

/// Phase two: each enabled mod of the game that has no entry in the profile (imported after
/// the profile was saved) is disabled.
pub open spec fn stray_phase(
    game_mods: Seq<ModRecord>,
    entries: Seq<ProfileEntryRecord>,
    known: Seq<ModRecord>,
    p: PlanView,
) -> PlanView
    decreases game_mods.len(),
{
    if game_mods.len() == 0 {
        p
    } else {
        let q = stray_phase(game_mods.drop_last(), entries, known, p);
        let m = game_mods.last();
        let k = first_index(known, m.id);
        if !in_profile(entries, m.id) && m.enabled {
            PlanView {
                flags: if k >= 0 { q.flags.update(k, false) } else { q.flags },
                actions: q.actions.push(ActionView::ToggleMod { mod_id: m.id, enable: false }),
                skipped: q.skipped,
            }
        } else {
            q
        }
    }
}

/// Phase three: each entry in turn saved enabled whose mod exists and is disabled enables it.
pub open spec fn enable_phase(entries: Seq<ProfileEntryRecord>, known: Seq<ModRecord>, p: PlanView) -> PlanView
    decreases entries.len(),
{
    if entries.len() == 0 {
        p
    } else {
        let q = enable_phase(entries.drop_last(), known, p);
        let e = entries.last();
        let k = first_index(known, e.mod_id);
        if e.enabled && k >= 0 && !q.flags[k] {
            PlanView {
                flags: q.flags.update(k, true),
                actions: q.actions.push(ActionView::ToggleMod { mod_id: e.mod_id, enable: true }),
                skipped: q.skipped,
            }
        } else {
            q
        }
    }
}

/// Phase four: each entry in turn with saved sub-mod states whose mod exists and is enabled
/// restores them.
pub open spec fn sub_mod_phase(entries: Seq<ProfileEntryRecord>, known: Seq<ModRecord>, p: PlanView) -> PlanView
    decreases entries.len(),
{
    if entries.len() == 0 {
        p
    } else {
        let q = sub_mod_phase(entries.drop_last(), known, p);
        let e = entries.last();
        let k = first_index(known, e.mod_id);
        match e.sub_mod_states {
            Some(json) => if k >= 0 && q.flags[k] {
                PlanView {
                    flags: q.flags,
                    actions: q.actions.push(ActionView::ApplySubModStates { mod_id: e.mod_id, states_json: json@ }),
                    skipped: q.skipped,
                }
            } else {
                q
            },
            None => q,
        }
    }
}

/// The state before any action: the known mods' flags as read.
pub open spec fn initial_plan(known: Seq<ModRecord>) -> PlanView {
    PlanView {
        flags: known.map_values(|m: ModRecord| m.enabled),
        actions: Seq::empty(),
        skipped: Seq::empty(),
    }
}

/// The whole application of a profile, phase by phase.
pub open spec fn profile_plan(
    entries: Seq<ProfileEntryRecord>,
    game_mods: Seq<ModRecord>,
    known: Seq<ModRecord>,
) -> PlanView {
    sub_mod_phase(
        entries,
        known,
        enable_phase(
            entries,
            known,
            stray_phase(game_mods, entries, known, disable_phase(entries, known, initial_plan(known))),
        ),
    )
}

/// The actions as sequences of text.
pub open spec fn actions_view(actions: Seq<ProfileAction>) -> Seq<ActionView> {
    actions.map_values(|a: ProfileAction| a@)
}

/// The executable progress of a profile application matches `p`.
pub open spec fn progress_is(flags: Seq<bool>, actions: Seq<ProfileAction>, skipped: Seq<String>, p: PlanView) -> bool {
    &&& flags == p.flags
    &&& actions_view(actions) == p.actions
    &&& texts(skipped) == p.skipped
}

proof fn lemma_first_index(mods: Seq<ModRecord>, id: i64, k: int)
    requires
        0 <= k <= mods.len(),
        forall|j: int| 0 <= j < k ==> mods[j].id != id,
        k == mods.len() || mods[k].id == id,
    ensures
        first_index(mods, id) == (if k == mods.len() { -1 } else { k }),
    decreases k,
{
    if k > 0 {
        let t = mods.drop_first();
        assert forall|j: int| 0 <= j < k - 1 implies t[j].id != id by {
            assert(t[j] == mods[j + 1]);
        }
        if k < mods.len() {
            assert(t[k - 1] == mods[k]);
        }
        lemma_first_index(t, id, k - 1);
    }
}

/// `first_index` is -1 or the index of a mod with that id, before which no mod has it.
pub proof fn lemma_first_index_bounds(mods: Seq<ModRecord>, id: i64)
    ensures
        -1 <= first_index(mods, id) < mods.len(),
        first_index(mods, id) >= 0 ==> mods[first_index(mods, id)].id == id,
        first_index(mods, id) < 0 ==> forall|j: int| 0 <= j < mods.len() ==> mods[j].id != id,
    decreases mods.len(),
{
    if mods.len() > 0 && mods[0].id != id {
        let t = mods.drop_first();
        lemma_first_index_bounds(t, id);
        if first_index(t, id) >= 0 {
            assert(mods[first_index(t, id) + 1] == t[first_index(t, id)]);
        } else {
            assert forall|j: int| 0 <= j < mods.len() implies mods[j].id != id by {
                if j > 0 {
                    assert(mods[j] == t[j - 1]);
                }
            }
        }
    }
}

fn find_mod(mods: &[ModRecord], id: i64) -> (r: Option<usize>)
    ensures
        r matches Some(k) ==> k as int == first_index(mods@, id) && k < mods@.len(),
        r is None ==> first_index(mods@, id) < 0,
{
    let n = mods.len();
    for k in 0..n
        invariant
            n == mods@.len(),
            forall|j: int| 0 <= j < k ==> mods@[j].id != id,
    {
        if mods[k].id == id {
            proof {
                lemma_first_index(mods@, id, k as int);
            }
            return Some(k);
        }
    }
    proof {
        lemma_first_index(mods@, id, n as int);
    }
    None
}

fn entry_for_mod(entries: &[ProfileEntryRecord], mod_id: i64) -> (r: bool)
    ensures
        r == in_profile(entries@, mod_id),
{
    let n = entries.len();
    for i in 0..n
        invariant
            n == entries@.len(),
            forall|j: int| 0 <= j < i ==> entries@[j].mod_id != mod_id,
    {
        if entries[i].mod_id == mod_id {
            return true;
        }
    }
    false
}

/// The label of a deleted mod (see `skipped_label`).
pub fn skipped_mod_label(mod_id: i64) -> (r: String)
    ensures
        r@ == skipped_label(mod_id),
{
    let mut r = "mod_id=".to_string();
    let t = i64_text(mod_id);
    push_all(&mut r, t.as_str());
    r
}

/// Plans applying a profile (see `profile_plan`): `entries` are the profile's entries,
/// `game_mods` the mods of the profile's game as read before applying, and `known` the
/// mods that exist (those of the game, and any other mod an entry names that was found).
/// Disables come before enables, so that no two versions of a file are ever enabled
/// together; the mods of the profile that no longer exist are reported as skipped.
pub fn plan_apply_profile(
    entries: &[ProfileEntryRecord],
    game_mods: &[ModRecord],
    known: &[ModRecord],
) -> (r: ProfilePlan)
    ensures
        actions_view(r.actions@) == profile_plan(entries@, game_mods@, known@).actions,
        texts(r.skipped_mods@) == profile_plan(entries@, game_mods@, known@).skipped,
{
    let n = entries.len();
    let nk = known.len();
    let mut flags: Vec<bool> = Vec::new();
    for i in 0..nk
        invariant
            nk == known@.len(),
            flags@ == known@.take(i as int).map_values(|m: ModRecord| m.enabled),
    {
        flags.push(known[i].enabled);
        assert(known@.take(i + 1).map_values(|m: ModRecord| m.enabled) =~= known@.take(i as int).map_values(
            |m: ModRecord| m.enabled,
        ).push(known@[i as int].enabled));
    }
    assert(known@.take(nk as int) =~= known@);
    let mut actions: Vec<ProfileAction> = Vec::new();
    let mut skipped: Vec<String> = Vec::new();
    let ghost init = initial_plan(known@);
    assert(actions_view(actions@) =~= init.actions);
    assert(texts(skipped@) =~= init.skipped);
    // Disables of entries saved disabled.
    for i in 0..n
        invariant
            n == entries@.len(),
            flags@.len() == known@.len(),
            progress_is(flags@, actions@, skipped@, disable_phase(entries@.take(i as int), known@, init)),
    {
        let e = &entries[i];
        assert(entries@.take(i + 1).drop_last() =~= entries@.take(i as int));
        assert(entries@.take(i + 1).last() == entries@[i as int]);
        let ghost a0 = actions@;
        let ghost s0 = skipped@;
        match find_mod(known, e.mod_id) {
            None => {
                skipped.push(skipped_mod_label(e.mod_id));
                assert(texts(skipped@) =~= texts(s0).push(skipped_label(e.mod_id)));
            },
            Some(k) => {
                if flags[k] && !e.enabled {
                    flags.set(k, false);
                    actions.push(ProfileAction::ToggleMod { mod_id: e.mod_id, enable: false });
                    assert(actions_view(actions@) =~= actions_view(a0).push(
                        ActionView::ToggleMod { mod_id: e.mod_id, enable: false },
                    ));
                }
            },
        }
    }
    assert(entries@.take(n as int) =~= entries@);
    let ghost p1 = disable_phase(entries@, known@, init);
    // Disables of enabled mods that have no entry in the profile.
    let ng = game_mods.len();
    for i in 0..ng
        invariant
            ng == game_mods@.len(),
            flags@.len() == known@.len(),
            progress_is(flags@, actions@, skipped@, stray_phase(game_mods@.take(i as int), entries@, known@, p1)),
    {
        let m = &game_mods[i];
        assert(game_mods@.take(i + 1).drop_last() =~= game_mods@.take(i as int));
        assert(game_mods@.take(i + 1).last() == game_mods@[i as int]);
        let ghost a0 = actions@;
        if !entry_for_mod(entries, m.id) && m.enabled {
            match find_mod(known, m.id) {
                Some(k) => {
                    flags.set(k, false);
                },
                None => {},
            }
            actions.push(ProfileAction::ToggleMod { mod_id: m.id, enable: false });
            assert(actions_view(actions@) =~= actions_view(a0).push(ActionView::ToggleMod { mod_id: m.id, enable: false }));
        }
    }
    assert(game_mods@.take(ng as int) =~= game_mods@);
    let ghost p2 = stray_phase(game_mods@, entries@, known@, p1);
    // Enables of entries saved enabled.
    for i in 0..n
        invariant
            n == entries@.len(),
            flags@.len() == known@.len(),
            progress_is(flags@, actions@, skipped@, enable_phase(entries@.take(i as int), known@, p2)),
    {
        let e = &entries[i];
        assert(entries@.take(i + 1).drop_last() =~= entries@.take(i as int));
        assert(entries@.take(i + 1).last() == entries@[i as int]);
        let ghost a0 = actions@;
        if e.enabled {
            match find_mod(known, e.mod_id) {
                Some(k) => {
                    if !flags[k] {
                        flags.set(k, true);
                        actions.push(ProfileAction::ToggleMod { mod_id: e.mod_id, enable: true });
                        assert(actions_view(actions@) =~= actions_view(a0).push(
                            ActionView::ToggleMod { mod_id: e.mod_id, enable: true },
                        ));
                    }
                },
                None => {},
            }
        }
    }
    let ghost p3 = enable_phase(entries@, known@, p2);
    // Saved sub-mod states of the mods that are enabled now.
    for i in 0..n
        invariant
            n == entries@.len(),
            flags@.len() == known@.len(),
            progress_is(flags@, actions@, skipped@, sub_mod_phase(entries@.take(i as int), known@, p3)),
    {
        let e = &entries[i];
        assert(entries@.take(i + 1).drop_last() =~= entries@.take(i as int));
        assert(entries@.take(i + 1).last() == entries@[i as int]);
        let ghost a0 = actions@;
        match &e.sub_mod_states {
            Some(json) => {
                match find_mod(known, e.mod_id) {
                    Some(k) => {
                        if flags[k] {
                            actions.push(ProfileAction::ApplySubModStates { mod_id: e.mod_id, states_json: json.clone() });
                            assert(actions_view(actions@) =~= actions_view(a0).push(
                                ActionView::ApplySubModStates { mod_id: e.mod_id, states_json: json@ },
                            ));
                        }
                    },
                    None => {},
                }
            },
            None => {},
        }
    }
    ProfilePlan { actions, skipped_mods: skipped }
}

/// Some entry of `es` names a mod found at index `k` and was saved with `enabled == flag`.
pub open spec fn saved_at(es: Seq<ProfileEntryRecord>, known: Seq<ModRecord>, k: int, flag: bool) -> bool {
    exists|i: int| 0 <= i < es.len() && first_index(known, es[i].mod_id) == k && es[i].enabled == flag
}

/// Some enabled mod of the game, without an entry in the profile, is found at index `k`.
pub open spec fn stray_at(game_mods: Seq<ModRecord>, entries: Seq<ProfileEntryRecord>, known: Seq<ModRecord>, k: int) -> bool {
    exists|i: int| 0 <= i < game_mods.len() && !in_profile(entries, game_mods[i].id) && game_mods[i].enabled
        && first_index(known, game_mods[i].id) == k
}

/// Whether an action disables a mod.
pub open spec fn is_disable(a: ActionView) -> bool {
    a matches ActionView::ToggleMod { enable, .. } && !enable
}

/// Whether an action enables a mod.
pub open spec fn is_enable(a: ActionView) -> bool {
    a matches ActionView::ToggleMod { enable, .. } && enable
}

/// The labels of the entries whose mod is not known, in entry order.
pub open spec fn missing_labels(es: Seq<ProfileEntryRecord>, known: Seq<ModRecord>) -> Seq<Seq<char>>
    decreases es.len(),
{
    if es.len() == 0 {
        Seq::empty()
    } else if first_index(known, es.last().mod_id) < 0 {
        missing_labels(es.drop_last(), known).push(skipped_label(es.last().mod_id))
    } else {
        missing_labels(es.drop_last(), known)
    }
}

proof fn lemma_disable_phase(es: Seq<ProfileEntryRecord>, known: Seq<ModRecord>, p: PlanView)
    requires
        p.flags.len() == known.len(),
    ensures
        ({
            let q = disable_phase(es, known, p);
            &&& q.flags.len() == p.flags.len()
            &&& forall|k: int| 0 <= k < q.flags.len() ==> #[trigger] q.flags[k] == (p.flags[k] && !saved_at(es, known, k, false))
            &&& q.actions.len() >= p.actions.len()
            &&& q.actions.subrange(0, p.actions.len() as int) == p.actions
            &&& forall|j: int| p.actions.len() <= j < q.actions.len() ==> is_disable(#[trigger] q.actions[j])
            &&& q.skipped == p.skipped + missing_labels(es, known)
        }),
    decreases es.len(),
{
    let q = disable_phase(es, known, p);
    if es.len() == 0 {
        assert(q.actions.subrange(0, p.actions.len() as int) =~= p.actions);
        assert(p.skipped + missing_labels(es, known) =~= p.skipped);
    } else {
        let d = es.drop_last();
        let e = es.last();
        lemma_disable_phase(d, known, p);
        lemma_first_index_bounds(known, e.mod_id);
        let q0 = disable_phase(d, known, p);
        let k0 = first_index(known, e.mod_id);
        assert forall|k: int| 0 <= k < q.flags.len() implies #[trigger] q.flags[k] == (p.flags[k] && !saved_at(es, known, k, false)) by {
            assert(q0.flags[k] == (p.flags[k] && !saved_at(d, known, k, false)));
            if saved_at(d, known, k, false) {
                let i = choose|i: int| 0 <= i < d.len() && first_index(known, d[i].mod_id) == k && d[i].enabled == false;
                assert(es[i] == d[i]);
            }
            if saved_at(es, known, k, false) && !saved_at(d, known, k, false) {
                let i = choose|i: int| 0 <= i < es.len() && first_index(known, es[i].mod_id) == k && es[i].enabled == false;
                if i < d.len() {
                    assert(es[i] == d[i]);
                } else {
                    assert(es[i] == e);
                }
            }
            if k == k0 && !e.enabled {
                assert(es[es.len() - 1] == e);
            }
        }
        assert(q.actions.subrange(0, p.actions.len() as int) =~= p.actions) by {
            assert(q0.actions.subrange(0, p.actions.len() as int) == p.actions);
            if q.actions != q0.actions {
                assert(q.actions == q0.actions.push(ActionView::ToggleMod { mod_id: e.mod_id, enable: false }));
                assert(q.actions.subrange(0, p.actions.len() as int) =~= q0.actions.subrange(0, p.actions.len() as int));
            }
        }
        assert forall|j: int| p.actions.len() <= j < q.actions.len() implies is_disable(#[trigger] q.actions[j]) by {
            if j < q0.actions.len() {
                assert(is_disable(q0.actions[j]));
            }
        }
        if k0 < 0 {
            assert(q.skipped =~= p.skipped + missing_labels(es, known));
        } else {
            assert(q.skipped =~= p.skipped + missing_labels(es, known));
        }
    }
}

proof fn lemma_stray_phase(gs: Seq<ModRecord>, entries: Seq<ProfileEntryRecord>, known: Seq<ModRecord>, p: PlanView)
    requires
        p.flags.len() == known.len(),
    ensures
        ({
            let q = stray_phase(gs, entries, known, p);
            &&& q.flags.len() == p.flags.len()
            &&& forall|k: int| 0 <= k < q.flags.len() ==> #[trigger] q.flags[k] == (p.flags[k] && !stray_at(gs, entries, known, k))
            &&& q.actions.len() >= p.actions.len()
            &&& q.actions.subrange(0, p.actions.len() as int) == p.actions
            &&& forall|j: int| p.actions.len() <= j < q.actions.len() ==> is_disable(#[trigger] q.actions[j])
            &&& q.skipped == p.skipped
        }),
    decreases gs.len(),
{
    let q = stray_phase(gs, entries, known, p);
    if gs.len() == 0 {
        assert(q.actions.subrange(0, p.actions.len() as int) =~= p.actions);
    } else {
        let d = gs.drop_last();
        let m = gs.last();
        lemma_stray_phase(d, entries, known, p);
        lemma_first_index_bounds(known, m.id);
        let q0 = stray_phase(d, entries, known, p);
        let k0 = first_index(known, m.id);
        assert forall|k: int| 0 <= k < q.flags.len() implies #[trigger] q.flags[k] == (p.flags[k] && !stray_at(gs, entries, known, k)) by {
            assert(q0.flags[k] == (p.flags[k] && !stray_at(d, entries, known, k)));
            if stray_at(d, entries, known, k) {
                let i = choose|i: int| 0 <= i < d.len() && !in_profile(entries, d[i].id) && d[i].enabled
                    && first_index(known, d[i].id) == k;
                assert(gs[i] == d[i]);
            }
            if stray_at(gs, entries, known, k) && !stray_at(d, entries, known, k) {
                let i = choose|i: int| 0 <= i < gs.len() && !in_profile(entries, gs[i].id) && gs[i].enabled
                    && first_index(known, gs[i].id) == k;
                if i < d.len() {
                    assert(gs[i] == d[i]);
                }
            }
            if k == k0 && !in_profile(entries, m.id) && m.enabled {
                assert(gs[gs.len() - 1] == m);
            }
        }
        assert(q.actions.subrange(0, p.actions.len() as int) =~= p.actions) by {
            assert(q0.actions.subrange(0, p.actions.len() as int) == p.actions);
            if q.actions != q0.actions {
                assert(q.actions.subrange(0, p.actions.len() as int) =~= q0.actions.subrange(0, p.actions.len() as int));
            }
        }
        assert forall|j: int| p.actions.len() <= j < q.actions.len() implies is_disable(#[trigger] q.actions[j]) by {
            if j < q0.actions.len() {
                assert(is_disable(q0.actions[j]));
            }
        }
    }
}

proof fn lemma_enable_phase(es: Seq<ProfileEntryRecord>, known: Seq<ModRecord>, p: PlanView)
    requires
        p.flags.len() == known.len(),
    ensures
        ({
            let q = enable_phase(es, known, p);
            &&& q.flags.len() == p.flags.len()
            &&& forall|k: int| 0 <= k < q.flags.len() ==> #[trigger] q.flags[k] == (p.flags[k] || saved_at(es, known, k, true))
            &&& q.actions.len() >= p.actions.len()
            &&& q.actions.subrange(0, p.actions.len() as int) == p.actions
            &&& forall|j: int| p.actions.len() <= j < q.actions.len() ==> is_enable(#[trigger] q.actions[j])
            &&& q.skipped == p.skipped
        }),
    decreases es.len(),
{
    let q = enable_phase(es, known, p);
    if es.len() == 0 {
        assert(q.actions.subrange(0, p.actions.len() as int) =~= p.actions);
    } else {
        let d = es.drop_last();
        let e = es.last();
        lemma_enable_phase(d, known, p);
        lemma_first_index_bounds(known, e.mod_id);
        let q0 = enable_phase(d, known, p);
        let k0 = first_index(known, e.mod_id);
        assert forall|k: int| 0 <= k < q.flags.len() implies #[trigger] q.flags[k] == (p.flags[k] || saved_at(es, known, k, true)) by {
            assert(q0.flags[k] == (p.flags[k] || saved_at(d, known, k, true)));
            if saved_at(d, known, k, true) {
                let i = choose|i: int| 0 <= i < d.len() && first_index(known, d[i].mod_id) == k && d[i].enabled == true;
                assert(es[i] == d[i]);
            }
            if saved_at(es, known, k, true) && !saved_at(d, known, k, true) {
                let i = choose|i: int| 0 <= i < es.len() && first_index(known, es[i].mod_id) == k && es[i].enabled == true;
                if i < d.len() {
                    assert(es[i] == d[i]);
                } else {
                    assert(es[i] == e);
                }
            }
            if k == k0 && e.enabled {
                assert(es[es.len() - 1] == e);
            }
        }
        assert(q.actions.subrange(0, p.actions.len() as int) =~= p.actions) by {
            assert(q0.actions.subrange(0, p.actions.len() as int) == p.actions);
            if q.actions != q0.actions {
                assert(q.actions.subrange(0, p.actions.len() as int) =~= q0.actions.subrange(0, p.actions.len() as int));
            }
        }
        assert forall|j: int| p.actions.len() <= j < q.actions.len() implies is_enable(#[trigger] q.actions[j]) by {
            if j < q0.actions.len() {
                assert(is_enable(q0.actions[j]));
            }
        }
    }
}

proof fn lemma_sub_mod_phase(es: Seq<ProfileEntryRecord>, known: Seq<ModRecord>, p: PlanView)
    ensures
        ({
            let q = sub_mod_phase(es, known, p);
            &&& q.flags == p.flags
            &&& q.actions.len() >= p.actions.len()
            &&& q.actions.subrange(0, p.actions.len() as int) == p.actions
            &&& forall|j: int| p.actions.len() <= j < q.actions.len() ==> (#[trigger] q.actions[j]) is ApplySubModStates
            &&& q.skipped == p.skipped
        }),
    decreases es.len(),
{
    let q = sub_mod_phase(es, known, p);
    if es.len() == 0 {
        assert(q.actions.subrange(0, p.actions.len() as int) =~= p.actions);
    } else {
        let d = es.drop_last();
        lemma_sub_mod_phase(d, known, p);
        let q0 = sub_mod_phase(d, known, p);
        assert(q.actions.subrange(0, p.actions.len() as int) =~= p.actions) by {
            assert(q0.actions.subrange(0, p.actions.len() as int) == p.actions);
            if q.actions != q0.actions {
                assert(q.actions.subrange(0, p.actions.len() as int) =~= q0.actions.subrange(0, p.actions.len() as int));
            }
        }
        assert forall|j: int| p.actions.len() <= j < q.actions.len() implies (#[trigger] q.actions[j]) is ApplySubModStates by {
            if j < q0.actions.len() {
                assert(q0.actions[j] is ApplySubModStates);
            }
        }
    }
}

/// Applying a profile brings every mod it names that still exists to the state the profile
/// saved for it (for a mod saved more than once, enabled when any of its entries is), and
/// disables every mod of the game the profile does not name.
pub proof fn lemma_profile_restores_saved_state(
    entries: Seq<ProfileEntryRecord>,
    game_mods: Seq<ModRecord>,
    known: Seq<ModRecord>,
)
    requires
        forall|i: int| 0 <= i < game_mods.len() ==> first_index(known, #[trigger] game_mods[i].id) >= 0
            && known[first_index(known, game_mods[i].id)].enabled == game_mods[i].enabled,
    ensures
        ({
            let q = profile_plan(entries, game_mods, known);
            &&& q.flags.len() == known.len()
            &&& forall|i: int| 0 <= i < entries.len() && first_index(known, #[trigger] entries[i].mod_id) >= 0
                ==> q.flags[first_index(known, entries[i].mod_id)] == exists|j: int|
                    0 <= j < entries.len() && entries[j].mod_id == entries[i].mod_id && entries[j].enabled
            &&& forall|i: int| 0 <= i < game_mods.len() && !in_profile(entries, #[trigger] game_mods[i].id)
                ==> !q.flags[first_index(known, game_mods[i].id)]
        }),
{
    let p0 = initial_plan(known);
    let p1 = disable_phase(entries, known, p0);
    let p2 = stray_phase(game_mods, entries, known, p1);
    let p3 = enable_phase(entries, known, p2);
    let q = profile_plan(entries, game_mods, known);
    lemma_disable_phase(entries, known, p0);
    lemma_stray_phase(game_mods, entries, known, p1);
    lemma_enable_phase(entries, known, p2);
    lemma_sub_mod_phase(entries, known, p3);
    assert forall|i: int| 0 <= i < entries.len() && first_index(known, #[trigger] entries[i].mod_id) >= 0
        implies q.flags[first_index(known, entries[i].mod_id)] == exists|j: int|
            0 <= j < entries.len() && entries[j].mod_id == entries[i].mod_id && entries[j].enabled by {
        let id = entries[i].mod_id;
        let k = first_index(known, id);
        lemma_first_index_bounds(known, id);
        assert(q.flags[k] == p3.flags[k]);
        assert(p3.flags[k] == (p2.flags[k] || saved_at(entries, known, k, true)));
        assert(p2.flags[k] == (p1.flags[k] && !stray_at(game_mods, entries, known, k)));
        assert(p1.flags[k] == (p0.flags[k] && !saved_at(entries, known, k, false)));
        if saved_at(entries, known, k, true) {
            let j = choose|j: int| 0 <= j < entries.len() && first_index(known, entries[j].mod_id) == k && entries[j].enabled == true;
            lemma_first_index_bounds(known, entries[j].mod_id);
            assert(entries[j].mod_id == id);
        }
        if exists|j: int| 0 <= j < entries.len() && entries[j].mod_id == id && entries[j].enabled {
            let j = choose|j: int| 0 <= j < entries.len() && entries[j].mod_id == id && entries[j].enabled;
            assert(first_index(known, entries[j].mod_id) == k);
        } else {
            assert(!entries[i].enabled);
            assert(saved_at(entries, known, k, false));
        }
    }
    assert forall|i: int| 0 <= i < game_mods.len() && !in_profile(entries, #[trigger] game_mods[i].id)
        implies !q.flags[first_index(known, game_mods[i].id)] by {
        let id = game_mods[i].id;
        let k = first_index(known, id);
        lemma_first_index_bounds(known, id);
        assert(q.flags[k] == p3.flags[k]);
        if saved_at(entries, known, k, true) {
            let j = choose|j: int| 0 <= j < entries.len() && first_index(known, entries[j].mod_id) == k && entries[j].enabled == true;
            lemma_first_index_bounds(known, entries[j].mod_id);
            assert(entries[j].mod_id == id);
            assert(in_profile(entries, id));
        }
        if game_mods[i].enabled {
            assert(stray_at(game_mods, entries, known, k));
        } else {
            assert(p0.flags[k] == known[k].enabled);
        }
    }
}

/// The actions before `d` are disables, those from `d` to `e` enables, and the rest
/// restore sub-mod states.
pub open spec fn ordered_at(acts: Seq<ActionView>, d: int, e: int) -> bool {
    &&& 0 <= d <= e <= acts.len()
    &&& forall|j: int| 0 <= j < d ==> is_disable(#[trigger] acts[j])
    &&& forall|j: int| d <= j < e ==> is_enable(#[trigger] acts[j])
    &&& forall|j: int| e <= j < acts.len() ==> (#[trigger] acts[j]) is ApplySubModStates
}

/// Applying a profile performs all its disables before any enable, and restores saved
/// sub-mod states last.
pub proof fn lemma_profile_disables_before_enables(
    entries: Seq<ProfileEntryRecord>,
    game_mods: Seq<ModRecord>,
    known: Seq<ModRecord>,
)
    ensures
        ({
            let acts = profile_plan(entries, game_mods, known).actions;
            exists|d: int, e: int| #[trigger] ordered_at(acts, d, e)
        }),
{
    let p0 = initial_plan(known);
    let p1 = disable_phase(entries, known, p0);
    let p2 = stray_phase(game_mods, entries, known, p1);
    let p3 = enable_phase(entries, known, p2);
    let q = profile_plan(entries, game_mods, known);
    lemma_disable_phase(entries, known, p0);
    lemma_stray_phase(game_mods, entries, known, p1);
    lemma_enable_phase(entries, known, p2);
    lemma_sub_mod_phase(entries, known, p3);
    let d = p2.actions.len() as int;
    let e = p3.actions.len() as int;
    assert forall|j: int| 0 <= j < d implies is_disable(#[trigger] q.actions[j]) by {
        assert(q.actions[j] == p3.actions.subrange(0, p3.actions.len() as int)[j]);
        assert(q.actions.subrange(0, e)[j] == p3.actions[j]);
        assert(p3.actions.subrange(0, d)[j] == p2.actions[j]);
        if j < p1.actions.len() {
            assert(p2.actions.subrange(0, p1.actions.len() as int)[j] == p1.actions[j]);
        }
    }
    assert forall|j: int| d <= j < e implies is_enable(#[trigger] q.actions[j]) by {
        assert(q.actions.subrange(0, e)[j] == p3.actions[j]);
    }
    assert(forall|j: int| e <= j < q.actions.len() ==> (#[trigger] q.actions[j]) is ApplySubModStates);
    assert(ordered_at(q.actions, d, e));
}

/// The mods reported as skipped are exactly the profile entries, in order, whose mod no
/// longer exists, each as `mod_id=<id>`.
pub proof fn lemma_profile_skips_missing_mods(
    entries: Seq<ProfileEntryRecord>,
    game_mods: Seq<ModRecord>,
    known: Seq<ModRecord>,
)
    ensures
        profile_plan(entries, game_mods, known).skipped == missing_labels(entries, known),
{
    let p0 = initial_plan(known);
    let p1 = disable_phase(entries, known, p0);
    let p2 = stray_phase(game_mods, entries, known, p1);
    let p3 = enable_phase(entries, known, p2);
    lemma_disable_phase(entries, known, p0);
    lemma_stray_phase(game_mods, entries, known, p1);
    lemma_enable_phase(entries, known, p2);
    lemma_sub_mod_phase(entries, known, p3);
    assert(p0.skipped + missing_labels(entries, known) =~= missing_labels(entries, known));
}

/// No two mods share an id (as in the database).
pub open spec fn distinct_mod_ids(mods: Seq<ModRecord>) -> bool {
    forall|i: int, j: int| 0 <= i < mods.len() && 0 <= j < mods.len() && i != j ==> mods[i].id != mods[j].id
}

/// Saving a profile and loading it back restores every mod's saved `enabled` flag, whatever
/// state the mods were left in between: `saved` are the game's mods when the profile was
/// saved, `entries` the profile's entries as stored (one per mod, see `snapshot_entry`),
/// and `now` the same mods as they are when the profile is applied.
pub proof fn lemma_save_then_load_restores(saved: Seq<ModRecord>, entries: Seq<ProfileEntryRecord>, now: Seq<ModRecord>)
    requires
        distinct_mod_ids(saved),
        entries.len() == saved.len(),
        forall|i: int| 0 <= i < saved.len() ==> (#[trigger] entries[i]).mod_id == saved[i].id && entries[i].enabled == saved[i].enabled,
        now.len() == saved.len(),
        forall|i: int| 0 <= i < saved.len() ==> (#[trigger] now[i]).id == saved[i].id,
    ensures
        profile_plan(entries, now, now).flags.len() == saved.len(),
        forall|i: int| 0 <= i < saved.len() ==> profile_plan(entries, now, now).flags[i] == (#[trigger] saved[i]).enabled,
{
    assert forall|i: int| 0 <= i < now.len() implies first_index(now, #[trigger] now[i].id) == i by {
        assert forall|j: int| 0 <= j < i implies now[j].id != now[i].id by {
            assert(now[j].id == saved[j].id && now[i].id == saved[i].id);
        }
        lemma_first_index(now, now[i].id, i);
    }
    lemma_profile_restores_saved_state(entries, now, now);
    let q = profile_plan(entries, now, now);
    assert forall|i: int| 0 <= i < saved.len() implies q.flags[i] == (#[trigger] saved[i]).enabled by {
        assert(entries[i].mod_id == now[i].id);
        assert(first_index(now, entries[i].mod_id) == i);
        if exists|j: int| 0 <= j < entries.len() && entries[j].mod_id == entries[i].mod_id && entries[j].enabled {
            let j = choose|j: int| 0 <= j < entries.len() && entries[j].mod_id == entries[i].mod_id && entries[j].enabled;
            assert(entries[j].mod_id == saved[j].id);
            assert(j == i);
        } else {
            assert(!entries[i].enabled);
        }
    }
}

/// The entry `e` has saved sub-mod states and its mod, found at index `k`, is enabled
/// according to `flags`; `a` restores those states.
pub open spec fn restores_entry(e: ProfileEntryRecord, known: Seq<ModRecord>, flags: Seq<bool>, a: ActionView) -> bool {
    &&& e.sub_mod_states is Some
    &&& first_index(known, e.mod_id) >= 0
    &&& flags[first_index(known, e.mod_id)]
    &&& a == ActionView::ApplySubModStates { mod_id: e.mod_id, states_json: e.sub_mod_states->0@ }
}

proof fn lemma_sub_mod_phase_actions(es: Seq<ProfileEntryRecord>, known: Seq<ModRecord>, p: PlanView)
    requires
        p.flags.len() == known.len(),
    ensures
        ({
            let q = sub_mod_phase(es, known, p);
            &&& forall|i: int| 0 <= i < es.len() && (#[trigger] es[i]).sub_mod_states is Some
                && first_index(known, es[i].mod_id) >= 0 && p.flags[first_index(known, es[i].mod_id)]
                ==> exists|j: int| p.actions.len() <= j < q.actions.len() && restores_entry(es[i], known, p.flags, #[trigger] q.actions[j])
            &&& forall|j: int| #![trigger q.actions[j]] p.actions.len() <= j < q.actions.len() ==>
                exists|i: int| 0 <= i < es.len() && restores_entry(#[trigger] es[i], known, p.flags, q.actions[j])
        }),
    decreases es.len(),
{
    let q = sub_mod_phase(es, known, p);
    if es.len() > 0 {
        let d = es.drop_last();
        let e = es.last();
        lemma_sub_mod_phase_actions(d, known, p);
        lemma_sub_mod_phase(d, known, p);
        lemma_first_index_bounds(known, e.mod_id);
        let q0 = sub_mod_phase(d, known, p);
        assert(q0.flags == p.flags);
        assert forall|i: int| 0 <= i < es.len() && (#[trigger] es[i]).sub_mod_states is Some
            && first_index(known, es[i].mod_id) >= 0 && p.flags[first_index(known, es[i].mod_id)]
            implies exists|j: int| p.actions.len() <= j < q.actions.len() && restores_entry(es[i], known, p.flags, #[trigger] q.actions[j]) by {
            if i < d.len() {
                assert(es[i] == d[i]);
                let j = choose|j: int| p.actions.len() <= j < q0.actions.len() && restores_entry(d[i], known, p.flags, #[trigger] q0.actions[j]);
                assert(q.actions[j] == q0.actions[j]);
            } else {
                assert(es[i] == e);
                let j = q0.actions.len() as int;
                assert(q.actions[j] == ActionView::ApplySubModStates { mod_id: e.mod_id, states_json: e.sub_mod_states->0@ });
                assert(restores_entry(es[i], known, p.flags, q.actions[j]));
            }
        }
        assert forall|j: int| #![trigger q.actions[j]] p.actions.len() <= j < q.actions.len() implies
            exists|i: int| 0 <= i < es.len() && restores_entry(#[trigger] es[i], known, p.flags, q.actions[j]) by {
            if j < q0.actions.len() {
                let i = choose|i: int| 0 <= i < d.len() && restores_entry(#[trigger] d[i], known, p.flags, q0.actions[j]);
                assert(es[i] == d[i]);
                assert(q.actions[j] == q0.actions[j]);
            } else {
                let i = es.len() - 1;
                assert(es[i] == e);
                assert(restores_entry(es[i], known, p.flags, q.actions[j]));
            }
        }
    }
}

/// Applying a profile restores the saved sub-mod states of every entry whose mod exists and
/// is enabled once its mods are toggled, whether or not that mod was enabled before, and
/// restores no other states: every restoring action is that of such an entry.
pub proof fn lemma_profile_restores_sub_mod_states(
    entries: Seq<ProfileEntryRecord>,
    game_mods: Seq<ModRecord>,
    known: Seq<ModRecord>,
)
    ensures
        ({
            let q = profile_plan(entries, game_mods, known);
            &&& q.flags.len() == known.len()
            &&& forall|i: int| 0 <= i < entries.len() && (#[trigger] entries[i]).sub_mod_states is Some
                && first_index(known, entries[i].mod_id) >= 0 && q.flags[first_index(known, entries[i].mod_id)]
                ==> exists|j: int| 0 <= j < q.actions.len() && restores_entry(entries[i], known, q.flags, #[trigger] q.actions[j])
            &&& forall|j: int| 0 <= j < q.actions.len() && (#[trigger] q.actions[j]) is ApplySubModStates ==>
                exists|i: int| 0 <= i < entries.len() && restores_entry(#[trigger] entries[i], known, q.flags, q.actions[j])
        }),
{
    let p0 = initial_plan(known);
    let p1 = disable_phase(entries, known, p0);
    let p2 = stray_phase(game_mods, entries, known, p1);
    let p3 = enable_phase(entries, known, p2);
    let q = profile_plan(entries, game_mods, known);
    lemma_disable_phase(entries, known, p0);
    lemma_stray_phase(game_mods, entries, known, p1);
    lemma_enable_phase(entries, known, p2);
    lemma_sub_mod_phase(entries, known, p3);
    lemma_sub_mod_phase_actions(entries, known, p3);
    assert(q.flags == p3.flags);
    assert forall|j: int| 0 <= j < q.actions.len() && (#[trigger] q.actions[j]) is ApplySubModStates implies
        exists|i: int| 0 <= i < entries.len() && restores_entry(#[trigger] entries[i], known, q.flags, q.actions[j]) by {
        if j < p3.actions.len() {
            assert(q.actions.subrange(0, p3.actions.len() as int)[j] == p3.actions[j]);
            if j >= p2.actions.len() {
                assert(is_enable(p3.actions[j]));
            } else {
                assert(p3.actions.subrange(0, p2.actions.len() as int)[j] == p2.actions[j]);
                if j >= p1.actions.len() {
                    assert(is_disable(p2.actions[j]));
                } else {
                    assert(p2.actions.subrange(0, p1.actions.len() as int)[j] == p1.actions[j]);
                    assert(is_disable(p1.actions[j]));
                }
            }
        }
    }
}

} // verus!
