//! Enabling and disabling mods and sub-mods.
//!
//! A toggle reads the mod, its game, its file entries and its sub-mods, then performs a fixed
//! sequence of steps: journal-wrapped batches of file moves and database updates. The
//! sequence is decided here, from what was read; the caller performs the steps in order and
//! stops at the first failure.
use vstd::prelude::*;

use crate::error::AppError;
use crate::journal::{FilePair, PairView};
use crate::paths::{join_path, path_joined};
use crate::records::{FileEntry, GameRecord, ModRecord, SubModRecord};

verus! {

/// The operation a journal records.
#[derive(Debug, Clone, Copy, PartialEq, Eq, Structural)]
pub enum JournalOp {
    Enable,
    Disable,
}

impl JournalOp {
    /// The operation for a toggle towards `enable`.
    pub fn for_target(enable: bool) -> (r: JournalOp)
        ensures
            r == (if enable { JournalOp::Enable } else { JournalOp::Disable }),
    {
        if enable {
            JournalOp::Enable
        } else {
            JournalOp::Disable
        }
    }

    /// The operation as stored in the journal table: `"enable"` or `"disable"`.
    pub fn as_str(&self) -> (r: &'static str)
        ensures
            *self is Enable ==> r@ == "enable"@,
            *self is Disable ==> r@ == "disable"@,
    {
        match self {
            JournalOp::Enable => "enable",
            JournalOp::Disable => "disable",
        }
    }
}

/// The journal move of one file entry between two base folders, not done yet.
pub open spec fn pair_for(entry: FileEntry, src_base: Seq<char>, dst_base: Seq<char>) -> PairView {
    PairView {
        src: path_joined(src_base, entry.relative_path@),
        dst: path_joined(dst_base, entry.relative_path@),
        done: false,
    }
}

/// The journal moves of file entries between two base folders, in entry order.
pub open spec fn pairs_for(entries: Seq<FileEntry>, src_base: Seq<char>, dst_base: Seq<char>) -> Seq<PairView> {
    entries.map_values(|e: FileEntry| pair_for(e, src_base, dst_base))
}

/// Builds the journal moves for file entries: each entry's relative path joined to the
/// source base and to the destination base, not done yet.
pub fn build_file_pairs(entries: &[FileEntry], src_base: &str, dst_base: &str) -> (r: Vec<FilePair>)
    ensures
        r@.map_values(|p: FilePair| p@) == pairs_for(entries@, src_base@, dst_base@),
{
    let mut r: Vec<FilePair> = Vec::new();
    let n = entries.len();
    for i in 0..n
        invariant
            n == entries@.len(),
            r@.map_values(|p: FilePair| p@) == pairs_for(entries@.take(i as int), src_base@, dst_base@),
    {
        let e = &entries[i];
        let src = join_path(src_base, e.relative_path.as_str());
        let dst = join_path(dst_base, e.relative_path.as_str());
        r.push(FilePair { src, dst, done: false });
        assert(pairs_for(entries@.take(i + 1), src_base@, dst_base@) =~= pairs_for(
            entries@.take(i as int),
            src_base@,
            dst_base@,
        ).push(pair_for(entries@[i as int], src_base@, dst_base@)));
        assert(r@.map_values(|p: FilePair| p@) =~= pairs_for(entries@.take(i + 1), src_base@, dst_base@));
    }
    assert(entries@.take(n as int) =~= entries@);
    r
}

/// The file entries that belong to the sub-mod `sub_mod_id`, in order.
pub open spec fn sub_mod_files(entries: Seq<FileEntry>, sub_mod_id: i64) -> Seq<FileEntry>
    decreases entries.len(),
{
    if entries.len() == 0 {
        Seq::empty()
    } else if entries.last().sub_mod_id == Some(sub_mod_id) {
        sub_mod_files(entries.drop_last(), sub_mod_id).push(entries.last())
    } else {
        sub_mod_files(entries.drop_last(), sub_mod_id)
    }
}

/// The file entries of the parent mod itself (no sub-mod), in order.
pub open spec fn parent_files(entries: Seq<FileEntry>) -> Seq<FileEntry>
    decreases entries.len(),
{
    if entries.len() == 0 {
        Seq::empty()
    } else if entries.last().sub_mod_id is None {
        parent_files(entries.drop_last()).push(entries.last())
    } else {
        parent_files(entries.drop_last())
    }
}

/// Filters file entries to those of one sub-mod.
pub fn entries_for_sub_mod(entries: &[FileEntry], sub_mod_id: i64) -> (r: Vec<FileEntry>)
    ensures
        r@ == sub_mod_files(entries@, sub_mod_id),
{
    let mut r: Vec<FileEntry> = Vec::new();
    let n = entries.len();
    for i in 0..n
        invariant
            n == entries@.len(),
            r@ == sub_mod_files(entries@.take(i as int), sub_mod_id),
    {
        assert(entries@.take(i + 1).drop_last() =~= entries@.take(i as int));
        if entries[i].sub_mod_id == Some(sub_mod_id) {
            r.push(entries[i].duplicate());
        }
    }
    assert(entries@.take(n as int) =~= entries@);
    r
}

/// Filters file entries to those of the parent mod (no sub-mod).
pub fn parent_entries(entries: &[FileEntry]) -> (r: Vec<FileEntry>)
    ensures
        r@ == parent_files(entries@),
{
    let mut r: Vec<FileEntry> = Vec::new();
    let n = entries.len();
    for i in 0..n
        invariant
            n == entries@.len(),
            r@ == parent_files(entries@.take(i as int)),
    {
        assert(entries@.take(i + 1).drop_last() =~= entries@.take(i as int));
        if entries[i].sub_mod_id.is_none() {
            r.push(entries[i].duplicate());
        }
    }
    assert(entries@.take(n as int) =~= entries@);
    r
}

/// The ids of the sub-mods the user had enabled, in order.
pub open spec fn user_enabled_ids(sub_mods: Seq<SubModRecord>) -> Seq<i64>
    decreases sub_mods.len(),
{
    if sub_mods.len() == 0 {
        Seq::empty()
    } else if sub_mods.last().user_enabled {
        user_enabled_ids(sub_mods.drop_last()).push(sub_mods.last().id)
    } else {
        user_enabled_ids(sub_mods.drop_last())
    }
}

/// The sub-mods to restore when their parent is enabled again: those with `user_enabled`.
pub fn get_sub_mod_states_to_restore(sub_mods: &[SubModRecord]) -> (r: Vec<i64>)
    ensures
        r@ == user_enabled_ids(sub_mods@),
{
    let mut r: Vec<i64> = Vec::new();
    let n = sub_mods.len();
    for i in 0..n
        invariant
            n == sub_mods@.len(),
            r@ == user_enabled_ids(sub_mods@.take(i as int)),
    {
        assert(sub_mods@.take(i + 1).drop_last() =~= sub_mods@.take(i as int));
        if sub_mods[i].user_enabled {
            r.push(sub_mods[i].id);
        }
    }
    assert(sub_mods@.take(n as int) =~= sub_mods@);
    r
}

/// One step of a toggle, performed in plan order.
#[derive(Debug, Clone)]
pub enum ToggleStep {
    /// Move these files inside one journal of the mod: begin the journal, move each file and
    /// mark it done, then complete the journal.
    MoveFiles { mod_id: i64, operation: JournalOp, pairs: Vec<FilePair> },
    /// Store a sub-mod's `enabled` and `user_enabled` flags.
    SetSubModEnabled { sub_mod_id: i64, enabled: bool, user_enabled: bool },
    /// Store a mod's `enabled` flag.
    SetModEnabled { mod_id: i64, enabled: bool },
}

/// A toggle step with its moves as text.
pub enum StepView {
    MoveFiles { mod_id: i64, operation: JournalOp, pairs: Seq<PairView> },
    SetSubModEnabled { sub_mod_id: i64, enabled: bool, user_enabled: bool },
    SetModEnabled { mod_id: i64, enabled: bool },
}

impl View for ToggleStep {
    type V = StepView;

    open spec fn view(&self) -> StepView {
        match self {
            ToggleStep::MoveFiles { mod_id, operation, pairs } => StepView::MoveFiles {
                mod_id: *mod_id,
                operation: *operation,
                pairs: pairs@.map_values(|p: FilePair| p@),
            },
            ToggleStep::SetSubModEnabled { sub_mod_id, enabled, user_enabled } => StepView::SetSubModEnabled {
                sub_mod_id: *sub_mod_id,
                enabled: *enabled,
                user_enabled: *user_enabled,
            },
            ToggleStep::SetModEnabled { mod_id, enabled } => StepView::SetModEnabled {
                mod_id: *mod_id,
                enabled: *enabled,
            },
        }
    }
}

/// The steps of a plan, as text.
pub open spec fn steps_view(steps: Seq<ToggleStep>) -> Seq<StepView> {
    steps.map_values(|s: ToggleStep| s@)
}

/// A journal batch of moves; an empty batch is skipped altogether.
pub open spec fn moves(mod_id: i64, op: JournalOp, pairs: Seq<PairView>) -> Seq<StepView> {
    if pairs.len() == 0 {
        Seq::empty()
    } else {
        seq![StepView::MoveFiles { mod_id, operation: op, pairs }]
    }
}

/// Enabling: for each sub-mod in turn whose id is among those the user had enabled, move its
/// files from staging to the game directory, then mark it enabled (and user-enabled).
pub open spec fn restore_sub_mod_steps(
    sub_mods: Seq<SubModRecord>,
    all_sub_mods: Seq<SubModRecord>,
    entries: Seq<FileEntry>,
    mod_id: i64,
    staging: Seq<char>,
    game_dir: Seq<char>,
) -> Seq<StepView>
    decreases sub_mods.len(),
{
    if sub_mods.len() == 0 {
        Seq::empty()
    } else {
        let sm = sub_mods.last();
        let before = restore_sub_mod_steps(sub_mods.drop_last(), all_sub_mods, entries, mod_id, staging, game_dir);
        if user_enabled_ids(all_sub_mods).contains(sm.id) {
            before + moves(mod_id, JournalOp::Enable, pairs_for(sub_mod_files(entries, sm.id), staging, game_dir))
                + seq![StepView::SetSubModEnabled { sub_mod_id: sm.id, enabled: true, user_enabled: true }]
        } else {
            before
        }
    }
}

/// Disabling: for each sub-mod in turn, move its files back to staging if it is enabled, then
/// mark it disabled while keeping its `user_enabled` flag.
pub open spec fn retire_sub_mod_steps(
    sub_mods: Seq<SubModRecord>,
    entries: Seq<FileEntry>,
    mod_id: i64,
    staging: Seq<char>,
    game_dir: Seq<char>,
) -> Seq<StepView>
    decreases sub_mods.len(),
{
    if sub_mods.len() == 0 {
        Seq::empty()
    } else {
        let sm = sub_mods.last();
        let before = retire_sub_mod_steps(sub_mods.drop_last(), entries, mod_id, staging, game_dir);
        let back = if sm.enabled {
            moves(mod_id, JournalOp::Disable, pairs_for(sub_mod_files(entries, sm.id), game_dir, staging))
        } else {
            Seq::empty()
        };
        before + back + seq![StepView::SetSubModEnabled { sub_mod_id: sm.id, enabled: false, user_enabled: sm.user_enabled }]
    }
}

/// The steps of toggling a mod.
/// Enabling moves the parent files from staging to the game directory, restores the sub-mods
/// the user had enabled, and marks the mod enabled. Disabling first retires every sub-mod
/// (moving the enabled ones back, keeping `user_enabled`), then moves the parent files back to
/// staging, and marks the mod disabled.
pub open spec fn toggle_mod_steps(
    mod_id: i64,
    staging: Seq<char>,
    game_dir: Seq<char>,
    entries: Seq<FileEntry>,
    sub_mods: Seq<SubModRecord>,
    enable: bool,
) -> Seq<StepView> {
    if enable {
        moves(mod_id, JournalOp::Enable, pairs_for(parent_files(entries), staging, game_dir))
            + restore_sub_mod_steps(sub_mods, sub_mods, entries, mod_id, staging, game_dir)
            + seq![StepView::SetModEnabled { mod_id, enabled: true }]
    } else {
        retire_sub_mod_steps(sub_mods, entries, mod_id, staging, game_dir)
            + moves(mod_id, JournalOp::Disable, pairs_for(parent_files(entries), game_dir, staging))
            + seq![StepView::SetModEnabled { mod_id, enabled: false }]
    }
}

fn push_moves(steps: &mut Vec<ToggleStep>, mod_id: i64, op: JournalOp, pairs: Vec<FilePair>)
    ensures
        steps_view(final(steps)@) == steps_view(old(steps)@) + moves(mod_id, op, pairs@.map_values(|p: FilePair| p@)),
{
    let ghost pv = pairs@.map_values(|p: FilePair| p@);
    if pairs.len() > 0 {
        let ghost before = steps@;
        steps.push(ToggleStep::MoveFiles { mod_id, operation: op, pairs });
        assert(steps_view(steps@) =~= steps_view(before) + moves(mod_id, op, pv));
    } else {
        assert(moves(mod_id, op, pv) =~= Seq::<StepView>::empty());
        assert(steps_view(steps@) =~= steps_view(steps@) + moves(mod_id, op, pv));
    }
}

fn push_step(steps: &mut Vec<ToggleStep>, step: ToggleStep)
    ensures
        steps_view(final(steps)@) == steps_view(old(steps)@).push(step@),
{
    let ghost before = steps@;
    steps.push(step);
    assert(steps_view(steps@) =~= steps_view(before).push(step@));
}

fn contains_id(ids: &Vec<i64>, id: i64) -> (r: bool)
    ensures
        r == ids@.contains(id),
{
    let n = ids.len();
    for i in 0..n
        invariant
            n == ids@.len(),
            forall|j: int| 0 <= j < i ==> ids@[j] != id,
    {
        if ids[i] == id {
            assert(ids@[i as int] == id);
            return true;
        }
    }
    false
}

/// Plans toggling a mod on or off (see `toggle_mod_steps`). Every batch of moves is wrapped
/// in a journal, so that an interruption can be recovered.
pub fn plan_toggle_mod(
    mod_rec: &ModRecord,
    game: &GameRecord,
    all_entries: &[FileEntry],
    sub_mods: &[SubModRecord],
    enable: bool,
) -> (r: Vec<ToggleStep>)
    ensures
        steps_view(r@) == toggle_mod_steps(
            mod_rec.id,
            mod_rec.staged_path@,
            game.mod_dir@,
            all_entries@,
            sub_mods@,
            enable,
        ),
{
    let mod_id = mod_rec.id;
    let staging = mod_rec.staged_path.as_str();
    let game_dir = game.mod_dir.as_str();
    let ghost sv = staging@;
    let ghost gv = game_dir@;
    let op = JournalOp::for_target(enable);
    let mut steps: Vec<ToggleStep> = Vec::new();
    let n = sub_mods.len();
    if enable {
        let parent = parent_entries(all_entries);
        let pairs = build_file_pairs(&parent, staging, game_dir);
        push_moves(&mut steps, mod_id, op, pairs);
        let ghost head = steps_view(steps@);
        let restore = get_sub_mod_states_to_restore(sub_mods);
        for i in 0..n
            invariant
                n == sub_mods@.len(),
                restore@ == user_enabled_ids(sub_mods@),
                op == JournalOp::Enable,
                staging@ == sv,
                game_dir@ == gv,
                steps_view(steps@) == head + restore_sub_mod_steps(
                    sub_mods@.take(i as int),
                    sub_mods@,
                    all_entries@,
                    mod_id,
                    sv,
                    gv,
                ),
        {
            let sm = &sub_mods[i];
            assert(sub_mods@.take(i + 1).drop_last() =~= sub_mods@.take(i as int));
            assert(sub_mods@.take(i + 1).last() == sub_mods@[i as int]);
            if contains_id(&restore, sm.id) {
                let sm_entries = entries_for_sub_mod(all_entries, sm.id);
                let sm_pairs = build_file_pairs(&sm_entries, staging, game_dir);
                push_moves(&mut steps, mod_id, op, sm_pairs);
                push_step(&mut steps, ToggleStep::SetSubModEnabled { sub_mod_id: sm.id, enabled: true, user_enabled: true });
            }
            assert(steps_view(steps@) =~= head + restore_sub_mod_steps(
                sub_mods@.take(i + 1),
                sub_mods@,
                all_entries@,
                mod_id,
                sv,
                gv,
            ));
        }
        assert(sub_mods@.take(n as int) =~= sub_mods@);
        push_step(&mut steps, ToggleStep::SetModEnabled { mod_id, enabled: true });
    } else {
        for i in 0..n
            invariant
                n == sub_mods@.len(),
                op == JournalOp::Disable,
                staging@ == sv,
                game_dir@ == gv,
                steps_view(steps@) == retire_sub_mod_steps(sub_mods@.take(i as int), all_entries@, mod_id, sv, gv),
        {
            let sm = &sub_mods[i];
            assert(sub_mods@.take(i + 1).drop_last() =~= sub_mods@.take(i as int));
            assert(sub_mods@.take(i + 1).last() == sub_mods@[i as int]);
            let ghost before = steps_view(steps@);
            if sm.enabled {
                let sm_entries = entries_for_sub_mod(all_entries, sm.id);
                let sm_pairs = build_file_pairs(&sm_entries, game_dir, staging);
                push_moves(&mut steps, mod_id, op, sm_pairs);
            } else {
                assert(steps_view(steps@) =~= before + Seq::<StepView>::empty());
            }
            push_step(&mut steps, ToggleStep::SetSubModEnabled { sub_mod_id: sm.id, enabled: false, user_enabled: sm.user_enabled });
            assert(steps_view(steps@) =~= retire_sub_mod_steps(sub_mods@.take(i + 1), all_entries@, mod_id, sv, gv));
        }
        assert(sub_mods@.take(n as int) =~= sub_mods@);
        let parent = parent_entries(all_entries);
        let pairs = build_file_pairs(&parent, game_dir, staging);
        push_moves(&mut steps, mod_id, op, pairs);
        push_step(&mut steps, ToggleStep::SetModEnabled { mod_id, enabled: false });
    }
    steps
}

/// The message of a sub-mod toggle refused because its parent is off.
pub open spec fn parent_disabled_message() -> Seq<char> {
    "Cannot toggle sub-mod: parent mod is disabled"@
}

/// A sub-mod can be toggled only while its parent mod is enabled; otherwise the toggle is
/// refused with `ModNotFound`.
pub fn check_sub_mod_parent(parent: &ModRecord) -> (r: Result<(), AppError>)
    ensures
        r is Ok <==> parent.enabled,
        r matches Err(e) ==> e is ModNotFound && e.message() == parent_disabled_message(),
{
    if !parent.enabled {
        return Err(AppError::ModNotFound("Cannot toggle sub-mod: parent mod is disabled".to_string()));
    }
    Ok(())
}

/// The steps of toggling one sub-mod: move its files (to the game directory when enabling,
/// back to staging when disabling) in one journal of the parent mod, then set both its
/// `enabled` and `user_enabled` flags to the target.
pub open spec fn toggle_sub_mod_steps(
    sub_mod: SubModRecord,
    staging: Seq<char>,
    game_dir: Seq<char>,
    entries: Seq<FileEntry>,
    enable: bool,
) -> Seq<StepView> {
    let pairs = if enable {
        pairs_for(entries, staging, game_dir)
    } else {
        pairs_for(entries, game_dir, staging)
    };
    moves(sub_mod.mod_id, if enable { JournalOp::Enable } else { JournalOp::Disable }, pairs)
        + seq![StepView::SetSubModEnabled { sub_mod_id: sub_mod.id, enabled: enable, user_enabled: enable }]
}

/// Plans toggling one sub-mod, whose parent `parent` was found enabled
/// (`check_sub_mod_parent`); `sub_mod_entries` are the sub-mod's file entries.
pub fn plan_toggle_sub_mod(
    sub_mod: &SubModRecord,
    parent: &ModRecord,
    game: &GameRecord,
    sub_mod_entries: &[FileEntry],
    enable: bool,
) -> (r: Vec<ToggleStep>)
    ensures
        steps_view(r@) == toggle_sub_mod_steps(
            *sub_mod,
            parent.staged_path@,
            game.mod_dir@,
            sub_mod_entries@,
            enable,
        ),
{
    let staging = parent.staged_path.as_str();
    let game_dir = game.mod_dir.as_str();
    let op = JournalOp::for_target(enable);
    let pairs = if enable {
        build_file_pairs(sub_mod_entries, staging, game_dir)
    } else {
        build_file_pairs(sub_mod_entries, game_dir, staging)
    };
    let mut steps: Vec<ToggleStep> = Vec::new();
    push_moves(&mut steps, sub_mod.mod_id, op, pairs);
    push_step(&mut steps, ToggleStep::SetSubModEnabled { sub_mod_id: sub_mod.id, enabled: enable, user_enabled: enable });
    steps
}

/// What the database holds of mods and sub-mods, as far as toggles change it:
/// each mod's `enabled` flag, and each sub-mod's `(enabled, user_enabled)` flags.
pub struct ToggleState {
    pub mods: Map<i64, bool>,
    pub sub_mods: Map<i64, (bool, bool)>,
}

/// The database after one step (moves leave the flags as they are).
pub open spec fn apply_step(s: ToggleState, step: StepView) -> ToggleState {
    match step {
        StepView::MoveFiles { .. } => s,
        StepView::SetSubModEnabled { sub_mod_id, enabled, user_enabled } => ToggleState {
            mods: s.mods,
            sub_mods: s.sub_mods.insert(sub_mod_id, (enabled, user_enabled)),
        },
        StepView::SetModEnabled { mod_id, enabled } => ToggleState {
            mods: s.mods.insert(mod_id, enabled),
            sub_mods: s.sub_mods,
        },
    }
}

/// The database after the steps, in order.
pub open spec fn apply_steps(s: ToggleState, steps: Seq<StepView>) -> ToggleState
    decreases steps.len(),
{
    if steps.len() == 0 {
        s
    } else {
        apply_step(apply_steps(s, steps.drop_last()), steps.last())
    }
}

/// No two sub-mods share an id (as in the database).
pub open spec fn distinct_sub_mod_ids(sub_mods: Seq<SubModRecord>) -> bool {
    forall|i: int, j: int| 0 <= i < sub_mods.len() && 0 <= j < sub_mods.len() && i != j ==> sub_mods[i].id != sub_mods[j].id
}

/// The sub-mod records as they read after the database reached `s`.
pub open spec fn reread_sub_mods(sub_mods: Seq<SubModRecord>, s: ToggleState) -> Seq<SubModRecord> {
    sub_mods.map_values(|sm: SubModRecord| SubModRecord {
        enabled: s.sub_mods[sm.id].0,
        user_enabled: s.sub_mods[sm.id].1,
        ..sm
    })
}

proof fn lemma_apply_concat(s: ToggleState, a: Seq<StepView>, b: Seq<StepView>)
    ensures
        apply_steps(s, a + b) == apply_steps(apply_steps(s, a), b),
    decreases b.len(),
{
    if b.len() == 0 {
        assert(a + b =~= a);
    } else {
        assert((a + b).drop_last() =~= a + b.drop_last());
        assert((a + b).last() == b.last());
        lemma_apply_concat(s, a, b.drop_last());
    }
}

proof fn lemma_apply_moves(s: ToggleState, mod_id: i64, op: JournalOp, pairs: Seq<PairView>)
    ensures
        apply_steps(s, moves(mod_id, op, pairs)) == s,
{
    reveal_with_fuel(apply_steps, 2);
    if pairs.len() > 0 {
        let m = moves(mod_id, op, pairs);
        assert(m.drop_last() =~= Seq::<StepView>::empty());
    }
}

proof fn lemma_apply_one(s: ToggleState, step: StepView)
    ensures
        apply_steps(s, seq![step]) == apply_step(s, step),
{
    reveal_with_fuel(apply_steps, 2);
    assert(seq![step].drop_last() =~= Seq::<StepView>::empty());
}

proof fn lemma_user_enabled_ids_contains(all: Seq<SubModRecord>, id: i64)
    ensures
        user_enabled_ids(all).contains(id) <==> exists|i: int| 0 <= i < all.len() && all[i].id == id && all[i].user_enabled,
    decreases all.len(),
{
    if all.len() > 0 {
        let d = all.drop_last();
        let last = all.last();
        lemma_user_enabled_ids_contains(d, id);
        let u = user_enabled_ids(all);
        let ud = user_enabled_ids(d);
        if last.user_enabled {
            assert(u == ud.push(last.id));
        } else {
            assert(u == ud);
        }
        if u.contains(id) {
            let k = choose|k: int| 0 <= k < u.len() && u[k] == id;
            if k < ud.len() {
                assert(u[k] == ud[k]);
                assert(ud.contains(id));
                let i = choose|i: int| 0 <= i < d.len() && d[i].id == id && d[i].user_enabled;
                assert(all[i] == d[i]);
            } else {
                assert(last.user_enabled && last.id == id);
                assert(all[all.len() - 1] == last);
            }
        }
        if exists|i: int| 0 <= i < all.len() && all[i].id == id && all[i].user_enabled {
            let i = choose|i: int| 0 <= i < all.len() && all[i].id == id && all[i].user_enabled;
            if i < all.len() - 1 {
                assert(d[i] == all[i]);
                let k = choose|k: int| 0 <= k < ud.len() && ud[k] == id;
                assert(u[k] == ud[k]);
            } else {
                assert(u[ud.len() as int] == id);
            }
        }
    }
}

/// Every one of the sub-mods is stored disabled, with its own `user_enabled` flag.
pub open spec fn retired(t: ToggleState, sms: Seq<SubModRecord>) -> bool {
    forall|i: int| 0 <= i < sms.len() ==> #[trigger] t.sub_mods.dom().contains(sms[i].id)
        && t.sub_mods[sms[i].id] == (false, sms[i].user_enabled)
}

proof fn lemma_retire(s: ToggleState, sms: Seq<SubModRecord>, entries: Seq<FileEntry>, mod_id: i64, staging: Seq<char>, game_dir: Seq<char>)
    requires
        distinct_sub_mod_ids(sms),
    ensures
        apply_steps(s, retire_sub_mod_steps(sms, entries, mod_id, staging, game_dir)).mods == s.mods,
        retired(apply_steps(s, retire_sub_mod_steps(sms, entries, mod_id, staging, game_dir)), sms),
    decreases sms.len(),
{
    if sms.len() > 0 {
        let d = sms.drop_last();
        let sm = sms.last();
        assert forall|i: int, j: int| 0 <= i < d.len() && 0 <= j < d.len() && i != j implies d[i].id != d[j].id by {
            assert(d[i] == sms[i] && d[j] == sms[j]);
        }
        lemma_retire(s, d, entries, mod_id, staging, game_dir);
        let before = retire_sub_mod_steps(d, entries, mod_id, staging, game_dir);
        let back = if sm.enabled {
            moves(mod_id, JournalOp::Disable, pairs_for(sub_mod_files(entries, sm.id), game_dir, staging))
        } else {
            Seq::empty()
        };
        let last = seq![StepView::SetSubModEnabled { sub_mod_id: sm.id, enabled: false, user_enabled: sm.user_enabled }];
        let t0 = apply_steps(s, before);
        lemma_apply_concat(s, before + back, last);
        lemma_apply_concat(s, before, back);
        if sm.enabled {
            lemma_apply_moves(t0, mod_id, JournalOp::Disable, pairs_for(sub_mod_files(entries, sm.id), game_dir, staging));
        } else {
            assert(back.len() == 0);
            assert(apply_steps(t0, back) == t0);
        }
        lemma_apply_one(t0, last[0]);
        assert(retire_sub_mod_steps(sms, entries, mod_id, staging, game_dir) == before + back + last);
        assert(apply_steps(s, before + back) == t0);
        let t = apply_steps(s, retire_sub_mod_steps(sms, entries, mod_id, staging, game_dir));
        assert(t == apply_step(t0, last[0]));
        assert(t.mods == s.mods);
        assert forall|i: int| 0 <= i < sms.len() implies #[trigger] t.sub_mods.dom().contains(sms[i].id)
            && t.sub_mods[sms[i].id] == (false, sms[i].user_enabled) by {
            if i < sms.len() - 1 {
                assert(sms[i] == d[i]);
                assert(sms[i].id != sm.id);
                assert(t0.sub_mods.dom().contains(d[i].id));
            }
        }
        assert(retired(t, sms));
    } else {
        assert(retire_sub_mod_steps(sms, entries, mod_id, staging, game_dir) =~= Seq::<StepView>::empty());
    }
}

/// The sub-mod `id` is stored as it was in `s` (or still absent).
pub open spec fn unchanged_at(t: ToggleState, s: ToggleState, id: i64) -> bool {
    &&& t.sub_mods.dom().contains(id) == s.sub_mods.dom().contains(id)
    &&& s.sub_mods.dom().contains(id) ==> t.sub_mods[id] == s.sub_mods[id]
}

proof fn lemma_restore(s: ToggleState, sms: Seq<SubModRecord>, all: Seq<SubModRecord>, entries: Seq<FileEntry>, mod_id: i64, staging: Seq<char>, game_dir: Seq<char>)
    requires
        distinct_sub_mod_ids(sms),
    ensures
        ({
            let t = apply_steps(s, restore_sub_mod_steps(sms, all, entries, mod_id, staging, game_dir));
            &&& t.mods == s.mods
            &&& forall|i: int| 0 <= i < sms.len() && user_enabled_ids(all).contains(#[trigger] sms[i].id)
                ==> t.sub_mods.dom().contains(sms[i].id) && t.sub_mods[sms[i].id] == (true, true)
            &&& forall|id: i64| !(exists|i: int| 0 <= i < sms.len() && sms[i].id == id && user_enabled_ids(all).contains(id))
                ==> #[trigger] unchanged_at(t, s, id)
        }),
    decreases sms.len(),
{
    if sms.len() > 0 {
        let d = sms.drop_last();
        let sm = sms.last();
        assert forall|i: int, j: int| 0 <= i < d.len() && 0 <= j < d.len() && i != j implies d[i].id != d[j].id by {
            assert(d[i] == sms[i] && d[j] == sms[j]);
        }
        lemma_restore(s, d, all, entries, mod_id, staging, game_dir);
        let before = restore_sub_mod_steps(d, all, entries, mod_id, staging, game_dir);
        let t0 = apply_steps(s, before);
        let t = apply_steps(s, restore_sub_mod_steps(sms, all, entries, mod_id, staging, game_dir));
        if user_enabled_ids(all).contains(sm.id) {
            let mv = moves(mod_id, JournalOp::Enable, pairs_for(sub_mod_files(entries, sm.id), staging, game_dir));
            let last = seq![StepView::SetSubModEnabled { sub_mod_id: sm.id, enabled: true, user_enabled: true }];
            lemma_apply_concat(s, before + mv, last);
            lemma_apply_concat(s, before, mv);
            lemma_apply_moves(t0, mod_id, JournalOp::Enable, pairs_for(sub_mod_files(entries, sm.id), staging, game_dir));
            lemma_apply_one(t0, last[0]);
            assert(t == apply_step(t0, last[0]));
        } else {
            assert(t == t0);
        }
        assert forall|i: int| 0 <= i < sms.len() && user_enabled_ids(all).contains(#[trigger] sms[i].id)
            implies t.sub_mods.dom().contains(sms[i].id) && t.sub_mods[sms[i].id] == (true, true) by {
            if i < sms.len() - 1 {
                assert(sms[i] == d[i]);
                assert(sms[i].id != sm.id);
            }
        }
        assert forall|id: i64| !(exists|i: int| 0 <= i < sms.len() && sms[i].id == id && user_enabled_ids(all).contains(id))
            implies #[trigger] unchanged_at(t, s, id) by {
            assert(!(exists|i: int| 0 <= i < d.len() && d[i].id == id && user_enabled_ids(all).contains(id))) by {
                if exists|i: int| 0 <= i < d.len() && d[i].id == id && user_enabled_ids(all).contains(id) {
                    let i = choose|i: int| 0 <= i < d.len() && d[i].id == id && user_enabled_ids(all).contains(id);
                    assert(sms[i] == d[i]);
                }
            }
            assert(unchanged_at(t0, s, id));
            if user_enabled_ids(all).contains(sm.id) {
                assert(sm.id != id) by {
                    if sm.id == id {
                        assert(sms[sms.len() - 1] == sm);
                    }
                }
                assert(t.sub_mods == t0.sub_mods.insert(sm.id, (true, true)));
            }
        }
    }
}

/// Disabling a mod disables every one of its sub-mods while keeping what the user chose
/// for each (`user_enabled`), and marks the mod disabled.
pub proof fn lemma_disable_retires_sub_mods(
    s: ToggleState,
    mod_id: i64,
    staging: Seq<char>,
    game_dir: Seq<char>,
    entries: Seq<FileEntry>,
    sub_mods: Seq<SubModRecord>,
)
    requires
        distinct_sub_mod_ids(sub_mods),
    ensures
        ({
            let t = apply_steps(s, toggle_mod_steps(mod_id, staging, game_dir, entries, sub_mods, false));
            &&& t.mods.dom().contains(mod_id) && t.mods[mod_id] == false
            &&& forall|i: int| 0 <= i < sub_mods.len() ==> #[trigger] t.sub_mods.dom().contains(sub_mods[i].id)
                && t.sub_mods[sub_mods[i].id] == (false, sub_mods[i].user_enabled)
        }),
{
    let a = retire_sub_mod_steps(sub_mods, entries, mod_id, staging, game_dir);
    let mv = moves(mod_id, JournalOp::Disable, pairs_for(parent_files(entries), game_dir, staging));
    let last = seq![StepView::SetModEnabled { mod_id, enabled: false }];
    lemma_retire(s, sub_mods, entries, mod_id, staging, game_dir);
    lemma_apply_concat(s, a + mv, last);
    lemma_apply_concat(s, a, mv);
    lemma_apply_moves(apply_steps(s, a), mod_id, JournalOp::Disable, pairs_for(parent_files(entries), game_dir, staging));
    lemma_apply_one(apply_steps(s, a), last[0]);
}

/// Enabling a mod restores exactly the sub-mods the user had enabled (`user_enabled`),
/// leaves the other sub-mods as they were, and marks the mod enabled.
pub proof fn lemma_enable_restores_user_choices(
    s: ToggleState,
    mod_id: i64,
    staging: Seq<char>,
    game_dir: Seq<char>,
    entries: Seq<FileEntry>,
    sub_mods: Seq<SubModRecord>,
)
    requires
        distinct_sub_mod_ids(sub_mods),
    ensures
        ({
            let t = apply_steps(s, toggle_mod_steps(mod_id, staging, game_dir, entries, sub_mods, true));
            &&& t.mods.dom().contains(mod_id) && t.mods[mod_id] == true
            &&& forall|i: int| 0 <= i < sub_mods.len() && (#[trigger] sub_mods[i]).user_enabled
                ==> t.sub_mods.dom().contains(sub_mods[i].id) && t.sub_mods[sub_mods[i].id] == (true, true)
            &&& forall|i: int| 0 <= i < sub_mods.len() && !(#[trigger] sub_mods[i]).user_enabled
                ==> unchanged_at(t, s, sub_mods[i].id)
        }),
{
    let mv = moves(mod_id, JournalOp::Enable, pairs_for(parent_files(entries), staging, game_dir));
    let b = restore_sub_mod_steps(sub_mods, sub_mods, entries, mod_id, staging, game_dir);
    let last = seq![StepView::SetModEnabled { mod_id, enabled: true }];
    lemma_apply_moves(s, mod_id, JournalOp::Enable, pairs_for(parent_files(entries), staging, game_dir));
    lemma_apply_concat(s, mv + b, last);
    lemma_apply_concat(s, mv, b);
    lemma_restore(s, sub_mods, sub_mods, entries, mod_id, staging, game_dir);
    lemma_apply_one(apply_steps(s, mv + b), last[0]);
    let t = apply_steps(s, toggle_mod_steps(mod_id, staging, game_dir, entries, sub_mods, true));
    assert forall|i: int| 0 <= i < sub_mods.len() && (#[trigger] sub_mods[i]).user_enabled
        implies t.sub_mods.dom().contains(sub_mods[i].id) && t.sub_mods[sub_mods[i].id] == (true, true) by {
        lemma_user_enabled_ids_contains(sub_mods, sub_mods[i].id);
    }
    assert forall|i: int| 0 <= i < sub_mods.len() && !(#[trigger] sub_mods[i]).user_enabled
        implies unchanged_at(t, s, sub_mods[i].id) by {
        let id = sub_mods[i].id;
        lemma_user_enabled_ids_contains(sub_mods, id);
        assert(!user_enabled_ids(sub_mods).contains(id)) by {
            if user_enabled_ids(sub_mods).contains(id) {
                let k = choose|k: int| 0 <= k < sub_mods.len() && sub_mods[k].id == id && sub_mods[k].user_enabled;
                assert(k == i);
            }
        }
        assert(apply_steps(s, mv) == s);
        assert(apply_steps(s, mv + b) == apply_steps(s, b));
        assert(unchanged_at(apply_steps(s, b), s, id));
        assert(t.sub_mods == apply_steps(s, b).sub_mods);
    }
}

/// Turning a mod off and on again (the second toggle reading the sub-mods as the first left
/// them) keeps each sub-mod's `user_enabled` flag, and leaves exactly the sub-mods the user
/// had enabled enabled.
pub proof fn lemma_disable_enable_round_trip(
    s: ToggleState,
    mod_id: i64,
    staging: Seq<char>,
    game_dir: Seq<char>,
    entries: Seq<FileEntry>,
    sub_mods: Seq<SubModRecord>,
)
    requires
        distinct_sub_mod_ids(sub_mods),
    ensures
        ({
            let off = apply_steps(s, toggle_mod_steps(mod_id, staging, game_dir, entries, sub_mods, false));
            let on = apply_steps(off, toggle_mod_steps(mod_id, staging, game_dir, entries, reread_sub_mods(sub_mods, off), true));
            &&& on.mods[mod_id] == true
            &&& forall|i: int| 0 <= i < sub_mods.len() ==> #[trigger] on.sub_mods.dom().contains(sub_mods[i].id)
                && on.sub_mods[sub_mods[i].id] == (sub_mods[i].user_enabled, sub_mods[i].user_enabled)
        }),
{
    lemma_disable_retires_sub_mods(s, mod_id, staging, game_dir, entries, sub_mods);
    let off = apply_steps(s, toggle_mod_steps(mod_id, staging, game_dir, entries, sub_mods, false));
    let again = reread_sub_mods(sub_mods, off);
    assert forall|i: int, j: int| 0 <= i < again.len() && 0 <= j < again.len() && i != j implies again[i].id != again[j].id by {
        assert(again[i].id == sub_mods[i].id && again[j].id == sub_mods[j].id);
    }
    lemma_enable_restores_user_choices(off, mod_id, staging, game_dir, entries, again);
    let on = apply_steps(off, toggle_mod_steps(mod_id, staging, game_dir, entries, again, true));
    assert forall|i: int| 0 <= i < sub_mods.len() implies #[trigger] on.sub_mods.dom().contains(sub_mods[i].id)
        && on.sub_mods[sub_mods[i].id] == (sub_mods[i].user_enabled, sub_mods[i].user_enabled) by {
        assert(off.sub_mods.dom().contains(sub_mods[i].id));
        assert(again[i].id == sub_mods[i].id);
        assert(again[i].user_enabled == sub_mods[i].user_enabled);
        if again[i].user_enabled {
        } else {
            assert(unchanged_at(on, off, again[i].id));
        }
    }
}

/// Toggling a sub-mod sets both its `enabled` and `user_enabled` flags to the target and
/// leaves every mod's flag as it was.
pub proof fn lemma_sub_mod_toggle_sets_both_flags(
    s: ToggleState,
    sub_mod: SubModRecord,
    staging: Seq<char>,
    game_dir: Seq<char>,
    entries: Seq<FileEntry>,
    enable: bool,
)
    ensures
        ({
            let t = apply_steps(s, toggle_sub_mod_steps(sub_mod, staging, game_dir, entries, enable));
            &&& t.mods == s.mods
            &&& t.sub_mods.dom().contains(sub_mod.id) && t.sub_mods[sub_mod.id] == (enable, enable)
        }),
{
    let pairs = if enable {
        pairs_for(entries, staging, game_dir)
    } else {
        pairs_for(entries, game_dir, staging)
    };
    let op = if enable { JournalOp::Enable } else { JournalOp::Disable };
    let mv = moves(sub_mod.mod_id, op, pairs);
    let last = seq![StepView::SetSubModEnabled { sub_mod_id: sub_mod.id, enabled: enable, user_enabled: enable }];
    lemma_apply_concat(s, mv, last);
    lemma_apply_moves(s, sub_mod.mod_id, op, pairs);
    lemma_apply_one(s, last[0]);
}

/// Disabling moves each file back to where enabling took it from: the moves between the
/// game directory and staging in one direction are those of the other direction with
/// source and destination swapped.
pub proof fn lemma_disable_moves_undo_enable_moves(entries: Seq<FileEntry>, staging: Seq<char>, game_dir: Seq<char>)
    ensures
        pairs_for(entries, game_dir, staging).len() == pairs_for(entries, staging, game_dir).len(),
        forall|i: int| 0 <= i < entries.len() ==> (#[trigger] pairs_for(entries, game_dir, staging)[i]).src
            == pairs_for(entries, staging, game_dir)[i].dst && pairs_for(entries, game_dir, staging)[i].dst
            == pairs_for(entries, staging, game_dir)[i].src,
{
}

/// The ends (source, destination) of a batch of moves.
pub open spec fn pair_ends(pairs: Seq<PairView>) -> Seq<(Seq<char>, Seq<char>)> {
    pairs.map_values(|p: PairView| (p.src, p.dst))
}

/// The same moves in the other direction.
pub open spec fn swapped(ms: Seq<(Seq<char>, Seq<char>)>) -> Seq<(Seq<char>, Seq<char>)> {
    ms.map_values(|m: (Seq<char>, Seq<char>)| (m.1, m.0))
}

/// The ends of every file move of a plan, in plan order.
pub open spec fn plan_moves(steps: Seq<StepView>) -> Seq<(Seq<char>, Seq<char>)>
    decreases steps.len(),
{
    if steps.len() == 0 {
        Seq::empty()
    } else {
        plan_moves(steps.drop_last()) + match steps.last() {
            StepView::MoveFiles { pairs, .. } => pair_ends(pairs),
            _ => Seq::empty(),
        }
    }
}

proof fn lemma_plan_moves_concat(a: Seq<StepView>, b: Seq<StepView>)
    ensures
        plan_moves(a + b) == plan_moves(a) + plan_moves(b),
    decreases b.len(),
{
    if b.len() == 0 {
        assert(a + b =~= a);
        assert(plan_moves(a) + plan_moves(b) =~= plan_moves(a));
    } else {
        assert((a + b).drop_last() =~= a + b.drop_last());
        lemma_plan_moves_concat(a, b.drop_last());
        let tail = match b.last() {
            StepView::MoveFiles { pairs, .. } => pair_ends(pairs),
            _ => Seq::empty(),
        };
        assert(plan_moves(a + b) == plan_moves(a + b.drop_last()) + tail);
        assert(plan_moves(a) + plan_moves(b) =~= plan_moves(a) + plan_moves(b.drop_last()) + tail);
    }
}

proof fn lemma_moves_ends(mod_id: i64, op: JournalOp, pairs: Seq<PairView>)
    ensures
        plan_moves(moves(mod_id, op, pairs)) == pair_ends(pairs),
{
    if pairs.len() == 0 {
        assert(pair_ends(pairs) =~= Seq::<(Seq<char>, Seq<char>)>::empty());
    } else {
        let m = moves(mod_id, op, pairs);
        assert(m.drop_last() =~= Seq::<StepView>::empty());
        assert(plan_moves(m.drop_last()) == Seq::<(Seq<char>, Seq<char>)>::empty());
        assert(m.last() == StepView::MoveFiles { mod_id, operation: op, pairs });
        assert(plan_moves(m) =~= pair_ends(pairs));
    }
}

proof fn lemma_flag_step_moves(step: StepView)
    requires
        !(step is MoveFiles),
    ensures
        plan_moves(seq![step]) == Seq::<(Seq<char>, Seq<char>)>::empty(),
{
    assert(seq![step].drop_last() =~= Seq::<StepView>::empty());
    assert(plan_moves(seq![step].drop_last()) == Seq::<(Seq<char>, Seq<char>)>::empty());
    assert(seq![step].last() == step);
    assert(plan_moves(seq![step]) =~= Seq::<(Seq<char>, Seq<char>)>::empty());
}

proof fn lemma_swapped_pairs(entries: Seq<FileEntry>, staging: Seq<char>, game_dir: Seq<char>)
    ensures
        pair_ends(pairs_for(entries, staging, game_dir)) == swapped(pair_ends(pairs_for(entries, game_dir, staging))),
{
    assert(pair_ends(pairs_for(entries, staging, game_dir)) =~= swapped(pair_ends(pairs_for(entries, game_dir, staging))));
}

proof fn lemma_swapped_concat(a: Seq<(Seq<char>, Seq<char>)>, b: Seq<(Seq<char>, Seq<char>)>)
    ensures
        swapped(a + b) == swapped(a) + swapped(b),
{
    assert(swapped(a + b) =~= swapped(a) + swapped(b));
}

proof fn lemma_sub_mod_moves_round_trip(
    sub_mods: Seq<SubModRecord>,
    again: Seq<SubModRecord>,
    all_again: Seq<SubModRecord>,
    entries: Seq<FileEntry>,
    mod_id: i64,
    staging: Seq<char>,
    game_dir: Seq<char>,
)
    requires
        again.len() == sub_mods.len(),
        forall|i: int| 0 <= i < sub_mods.len() ==> (#[trigger] again[i]).id == sub_mods[i].id,
        forall|i: int| 0 <= i < sub_mods.len() ==>
            user_enabled_ids(all_again).contains((#[trigger] again[i]).id) == sub_mods[i].enabled,
    ensures
        plan_moves(restore_sub_mod_steps(again, all_again, entries, mod_id, staging, game_dir))
            == swapped(plan_moves(retire_sub_mod_steps(sub_mods, entries, mod_id, staging, game_dir))),
    decreases sub_mods.len(),
{
    if sub_mods.len() == 0 {
        assert(swapped(Seq::<(Seq<char>, Seq<char>)>::empty()) =~= Seq::<(Seq<char>, Seq<char>)>::empty());
    } else {
        let sm = sub_mods.last();
        let am = again.last();
        let n = sub_mods.len() as int;
        assert(am == again[n - 1] && sm == sub_mods[n - 1]);
        lemma_sub_mod_moves_round_trip(sub_mods.drop_last(), again.drop_last(), all_again, entries, mod_id, staging, game_dir);
        let before_on = restore_sub_mod_steps(again.drop_last(), all_again, entries, mod_id, staging, game_dir);
        let before_off = retire_sub_mod_steps(sub_mods.drop_last(), entries, mod_id, staging, game_dir);
        let files = sub_mod_files(entries, sm.id);
        let back = if sm.enabled {
            moves(mod_id, JournalOp::Disable, pairs_for(files, game_dir, staging))
        } else {
            Seq::empty()
        };
        let flag_off = seq![StepView::SetSubModEnabled { sub_mod_id: sm.id, enabled: false, user_enabled: sm.user_enabled }];
        lemma_plan_moves_concat(before_off + back, flag_off);
        lemma_plan_moves_concat(before_off, back);
        lemma_flag_step_moves(flag_off[0]);
        assert(seq![flag_off[0]] =~= flag_off);
        let off_moves = plan_moves(retire_sub_mod_steps(sub_mods, entries, mod_id, staging, game_dir));
        assert(off_moves =~= plan_moves(before_off) + plan_moves(back));
        if sm.enabled {
            lemma_moves_ends(mod_id, JournalOp::Disable, pairs_for(files, game_dir, staging));
            lemma_moves_ends(mod_id, JournalOp::Enable, pairs_for(files, staging, game_dir));
            lemma_swapped_pairs(files, staging, game_dir);
            let fwd = moves(mod_id, JournalOp::Enable, pairs_for(files, staging, game_dir));
            let flag_on = seq![StepView::SetSubModEnabled { sub_mod_id: am.id, enabled: true, user_enabled: true }];
            lemma_plan_moves_concat(before_on + fwd, flag_on);
            lemma_plan_moves_concat(before_on, fwd);
            lemma_flag_step_moves(flag_on[0]);
            assert(seq![flag_on[0]] =~= flag_on);
            lemma_swapped_concat(plan_moves(before_off), plan_moves(back));
            assert(plan_moves(restore_sub_mod_steps(again, all_again, entries, mod_id, staging, game_dir))
                =~= plan_moves(before_on) + plan_moves(fwd));
        } else {
            assert(plan_moves(back) =~= Seq::<(Seq<char>, Seq<char>)>::empty());
            assert(off_moves =~= plan_moves(before_off));
        }
    }
}

/// Turning a mod off and on again moves every file back along the path it came, when each
/// sub-mod's `enabled` flag agreed with its `user_enabled` flag: the moves of the enable
/// (planned from the sub-mods as the disable left them) are those of the disable with
/// source and destination swapped, taken in another order (the parent's batch, last when
/// disabling, comes first when enabling).
pub proof fn lemma_round_trip_moves(
    s: ToggleState,
    mod_id: i64,
    staging: Seq<char>,
    game_dir: Seq<char>,
    entries: Seq<FileEntry>,
    sub_mods: Seq<SubModRecord>,
)
    requires
        distinct_sub_mod_ids(sub_mods),
        forall|i: int| 0 <= i < sub_mods.len() ==> (#[trigger] sub_mods[i]).enabled == sub_mods[i].user_enabled,
    ensures
        ({
            let off_steps = toggle_mod_steps(mod_id, staging, game_dir, entries, sub_mods, false);
            let off = apply_steps(s, off_steps);
            let on_steps = toggle_mod_steps(mod_id, staging, game_dir, entries, reread_sub_mods(sub_mods, off), true);
            let d = plan_moves(off_steps);
            exists|k: int| 0 <= k <= d.len() && plan_moves(on_steps) == swapped(#[trigger] d.subrange(k, d.len() as int) + d.take(k))
        }),
{
    let off_steps = toggle_mod_steps(mod_id, staging, game_dir, entries, sub_mods, false);
    let off = apply_steps(s, off_steps);
    let again = reread_sub_mods(sub_mods, off);
    lemma_disable_retires_sub_mods(s, mod_id, staging, game_dir, entries, sub_mods);
    assert forall|i: int| 0 <= i < sub_mods.len() implies
        user_enabled_ids(again).contains((#[trigger] again[i]).id) == sub_mods[i].enabled by {
        lemma_user_enabled_ids_contains(again, again[i].id);
        assert(off.sub_mods.dom().contains(sub_mods[i].id));
        assert(again[i].user_enabled == sub_mods[i].user_enabled);
        if user_enabled_ids(again).contains(again[i].id) {
            let j = choose|j: int| 0 <= j < again.len() && again[j].id == again[i].id && again[j].user_enabled;
            assert(again[j].id == sub_mods[j].id);
            assert(j == i);
        }
    }
    lemma_sub_mod_moves_round_trip(sub_mods, again, again, entries, mod_id, staging, game_dir);
    let retire = retire_sub_mod_steps(sub_mods, entries, mod_id, staging, game_dir);
    let restore = restore_sub_mod_steps(again, again, entries, mod_id, staging, game_dir);
    let parent = parent_files(entries);
    let back = moves(mod_id, JournalOp::Disable, pairs_for(parent, game_dir, staging));
    let fwd = moves(mod_id, JournalOp::Enable, pairs_for(parent, staging, game_dir));
    let off_flag = seq![StepView::SetModEnabled { mod_id, enabled: false }];
    let on_flag = seq![StepView::SetModEnabled { mod_id, enabled: true }];
    lemma_plan_moves_concat(retire + back, off_flag);
    lemma_plan_moves_concat(retire, back);
    lemma_plan_moves_concat(fwd + restore, on_flag);
    lemma_plan_moves_concat(fwd, restore);
    lemma_flag_step_moves(off_flag[0]);
    lemma_flag_step_moves(on_flag[0]);
    assert(seq![off_flag[0]] =~= off_flag);
    assert(seq![on_flag[0]] =~= on_flag);
    lemma_moves_ends(mod_id, JournalOp::Disable, pairs_for(parent, game_dir, staging));
    lemma_moves_ends(mod_id, JournalOp::Enable, pairs_for(parent, staging, game_dir));
    lemma_swapped_pairs(parent, staging, game_dir);
    let d = plan_moves(off_steps);
    let k = plan_moves(retire).len() as int;
    assert(d =~= plan_moves(retire) + plan_moves(back));
    assert(d.subrange(k, d.len() as int) =~= plan_moves(back));
    assert(d.take(k) =~= plan_moves(retire));
    lemma_swapped_concat(plan_moves(back), plan_moves(retire));
    let on_steps = toggle_mod_steps(mod_id, staging, game_dir, entries, again, true);
    assert(plan_moves(on_steps) =~= plan_moves(fwd) + plan_moves(restore));
    assert(plan_moves(on_steps) == swapped(d.subrange(k, d.len() as int) + d.take(k)));
}

/// The number of file entries that belong to the listed sub-mods.
pub open spec fn files_of_sub_mods(entries: Seq<FileEntry>, ids: Seq<i64>) -> nat
    decreases ids.len(),
{
    if ids.len() == 0 {
        0
    } else {
        files_of_sub_mods(entries, ids.drop_last()) + sub_mod_files(entries, ids.last()).len()
    }
}

/// Whether an entry belongs to one of the listed sub-mods, as a count.
pub open spec fn in_listed_sub_mod(e: FileEntry, ids: Seq<i64>) -> nat {
    match e.sub_mod_id {
        Some(id) => if ids.contains(id) { 1 } else { 0 },
        None => 0,
    }
}

proof fn lemma_files_of_sub_mods_step(entries: Seq<FileEntry>, e: FileEntry, ids: Seq<i64>)
    requires
        ids.no_duplicates(),
    ensures
        files_of_sub_mods(entries.push(e), ids) == files_of_sub_mods(entries, ids) + in_listed_sub_mod(e, ids),
    decreases ids.len(),
{
    let all = entries.push(e);
    assert(all.drop_last() =~= entries);
    if ids.len() > 0 {
        let d = ids.drop_last();
        assert(d.no_duplicates()) by {
            assert forall|i: int, j: int| 0 <= i < d.len() && 0 <= j < d.len() && i != j implies d[i] != d[j] by {
                assert(d[i] == ids[i] && d[j] == ids[j]);
            }
        }
        lemma_files_of_sub_mods_step(entries, e, d);
        let last = ids.last();
        if let Some(id) = e.sub_mod_id {
            if id == last {
                assert(ids.contains(id)) by {
                    assert(ids[ids.len() - 1] == id);
                }
                assert(!d.contains(id)) by {
                    if d.contains(id) {
                        let k = choose|k: int| 0 <= k < d.len() && d[k] == id;
                        assert(ids[k] == ids[ids.len() - 1]);
                    }
                }
            } else {
                assert(ids.contains(id) == d.contains(id)) by {
                    if ids.contains(id) {
                        let k = choose|k: int| 0 <= k < ids.len() && ids[k] == id;
                        assert(d[k] == id);
                    }
                    if d.contains(id) {
                        let k = choose|k: int| 0 <= k < d.len() && d[k] == id;
                        assert(ids[k] == id);
                    }
                }
            }
        }
    }
}

proof fn lemma_parent_members(entries: Seq<FileEntry>)
    ensures
        forall|k: int| 0 <= k < parent_files(entries).len() ==> (#[trigger] parent_files(entries)[k]).sub_mod_id is None,
    decreases entries.len(),
{
    if entries.len() > 0 {
        let d = entries.drop_last();
        lemma_parent_members(d);
        assert forall|k: int| 0 <= k < parent_files(entries).len() implies (#[trigger] parent_files(entries)[k]).sub_mod_id is None by {
            if k < parent_files(d).len() {
                assert(parent_files(entries)[k] == parent_files(d)[k]);
            }
        }
    }
}

proof fn lemma_sub_mod_members(entries: Seq<FileEntry>, id: i64)
    ensures
        forall|k: int| 0 <= k < sub_mod_files(entries, id).len() ==> (#[trigger] sub_mod_files(entries, id)[k]).sub_mod_id == Some(id),
    decreases entries.len(),
{
    if entries.len() > 0 {
        let d = entries.drop_last();
        lemma_sub_mod_members(d, id);
        assert forall|k: int| 0 <= k < sub_mod_files(entries, id).len() implies (#[trigger] sub_mod_files(entries, id)[k]).sub_mod_id == Some(id) by {
            if k < sub_mod_files(d, id).len() {
                assert(sub_mod_files(entries, id)[k] == sub_mod_files(d, id)[k]);
            }
        }
    }
}

/// The parent's files and the files of the sub-mods together account for every file entry
/// of a mod, each exactly once: the parent group holds the entries without a sub-mod, the
/// group of a sub-mod holds the entries of that sub-mod, and the group sizes add up to the
/// number of entries (`ids` lists every sub-mod that an entry names, each once).
pub proof fn lemma_parent_and_sub_mod_files_partition(entries: Seq<FileEntry>, ids: Seq<i64>)
    requires
        ids.no_duplicates(),
        forall|i: int| 0 <= i < entries.len() && (#[trigger] entries[i]).sub_mod_id is Some ==>
            ids.contains(entries[i].sub_mod_id->0),
    ensures
        parent_files(entries).len() + files_of_sub_mods(entries, ids) == entries.len(),
        forall|k: int| 0 <= k < parent_files(entries).len() ==> (#[trigger] parent_files(entries)[k]).sub_mod_id is None,
        forall|id: i64, k: int| 0 <= k < sub_mod_files(entries, id).len() ==>
            (#[trigger] sub_mod_files(entries, id)[k]).sub_mod_id == Some(id),
    decreases entries.len(),
{
    if entries.len() == 0 {
        assert(files_of_sub_mods(entries, ids) == 0) by {
            lemma_no_files_of_sub_mods(entries, ids);
        }
    } else {
        let d = entries.drop_last();
        let e = entries.last();
        assert forall|i: int| 0 <= i < d.len() && (#[trigger] d[i]).sub_mod_id is Some implies
            ids.contains(d[i].sub_mod_id->0) by {
            assert(d[i] == entries[i]);
        }
        lemma_parent_and_sub_mod_files_partition(d, ids);
        assert(d.push(e) =~= entries);
        lemma_files_of_sub_mods_step(d, e, ids);
        assert(entries[entries.len() - 1] == e);
    }
    lemma_parent_members(entries);
    assert forall|id: i64, k: int| 0 <= k < sub_mod_files(entries, id).len() implies
        (#[trigger] sub_mod_files(entries, id)[k]).sub_mod_id == Some(id) by {
        lemma_sub_mod_members(entries, id);
    }
}

proof fn lemma_no_files_of_sub_mods(entries: Seq<FileEntry>, ids: Seq<i64>)
    requires
        entries.len() == 0,
    ensures
        files_of_sub_mods(entries, ids) == 0,
    decreases ids.len(),
{
    if ids.len() > 0 {
        lemma_no_files_of_sub_mods(entries, ids.drop_last());
    }
}

/// Toggling a sub-mod moves each of its files, in entry order, between the staging folder
/// and the game's mod directory: enabling from `staging/<relative path>` to
/// `game_dir/<relative path>`, and disabling the other way, from the game directory back to
/// staging. The moves of a disable are those of an enable with source and destination
/// swapped.
pub proof fn lemma_sub_mod_toggle_moves(
    sub_mod: SubModRecord,
    staging: Seq<char>,
    game_dir: Seq<char>,
    entries: Seq<FileEntry>,
)
    ensures
        plan_moves(toggle_sub_mod_steps(sub_mod, staging, game_dir, entries, true)).len() == entries.len(),
        forall|i: int| 0 <= i < entries.len() ==>
            #[trigger] plan_moves(toggle_sub_mod_steps(sub_mod, staging, game_dir, entries, true))[i]
                == (path_joined(staging, entries[i].relative_path@), path_joined(game_dir, entries[i].relative_path@)),
        forall|i: int| 0 <= i < entries.len() ==>
            #[trigger] plan_moves(toggle_sub_mod_steps(sub_mod, staging, game_dir, entries, false))[i]
                == (path_joined(game_dir, entries[i].relative_path@), path_joined(staging, entries[i].relative_path@)),
        plan_moves(toggle_sub_mod_steps(sub_mod, staging, game_dir, entries, false))
            == swapped(plan_moves(toggle_sub_mod_steps(sub_mod, staging, game_dir, entries, true))),
{
    let on_pairs = pairs_for(entries, staging, game_dir);
    let off_pairs = pairs_for(entries, game_dir, staging);
    let on_mv = moves(sub_mod.mod_id, JournalOp::Enable, on_pairs);
    let off_mv = moves(sub_mod.mod_id, JournalOp::Disable, off_pairs);
    let on_flag = seq![StepView::SetSubModEnabled { sub_mod_id: sub_mod.id, enabled: true, user_enabled: true }];
    let off_flag = seq![StepView::SetSubModEnabled { sub_mod_id: sub_mod.id, enabled: false, user_enabled: false }];
    lemma_plan_moves_concat(on_mv, on_flag);
    lemma_plan_moves_concat(off_mv, off_flag);
    lemma_flag_step_moves(on_flag[0]);
    lemma_flag_step_moves(off_flag[0]);
    assert(seq![on_flag[0]] =~= on_flag);
    assert(seq![off_flag[0]] =~= off_flag);
    lemma_moves_ends(sub_mod.mod_id, JournalOp::Enable, on_pairs);
    lemma_moves_ends(sub_mod.mod_id, JournalOp::Disable, off_pairs);
    lemma_swapped_pairs(entries, game_dir, staging);
    let on = plan_moves(toggle_sub_mod_steps(sub_mod, staging, game_dir, entries, true));
    let off = plan_moves(toggle_sub_mod_steps(sub_mod, staging, game_dir, entries, false));
    assert(on =~= pair_ends(on_pairs));
    assert(off =~= pair_ends(off_pairs));
    assert(off =~= swapped(on));
}

} // verus!
