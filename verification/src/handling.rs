//! Carrying commands out: what each one changes in the state, and what is left to do on the
//! screen and on disk.

use crate::commands::{Command, TransferMode, WindowId};
use crate::filing::{files, inbox_at, inbox_of, is_inbox, same_but_files, DesktopEntry};
use crate::item_ops::{item_at, text_views};
use crate::model::{
    ColumnWidths, FenceId, FenceKind, FenceModel, FenceView, Item, ItemId, NormGeometry, SortMode,
};
use crate::paths::path_key;
use crate::placement::Rect;
use crate::portals::portal_path_of;
use crate::reorder::{can_reorder, reordered};
use crate::rules::rules_ran;
use crate::snapshots::{trim_text, trimmed};
use crate::state::{
    at, fence_set, fences, geometry_eq, in_use, optional_widths_eq, same_but_fences, saved_widths,
    sorted_by, with_fence, AppState,
};
use crate::state_tabs::{attached, attaching_moves_a_fence_with_its_tabs, can_attach};
use crate::sync::{desktop_synced, SyncReport};
use crate::tab_laws::{normal, reordered_strip_is_shown};
use crate::tab_repair::repaired;
use crate::tabs::{
    distinct_ids, first_index, has_fence, host_of, is_first, is_tab_of, lemma_first_index,
    lemma_first_unique, moved_to, tabs_of, with_order,
};
use crate::text::chars_of;
use vstd::prelude::*;

verus! {

/// What was seen of windows and of the desktop, for a command that needs it.
pub struct Seen {
    /// The geometry of the window's bounds on its monitor; none without monitors.
    pub geometry: Option<NormGeometry>,
    /// Whether the window is rolled up; none without a window.
    pub rolled: Option<bool>,
    /// The fence of the window that something was dropped on.
    pub host: Option<FenceId>,
    /// The slot of the tab strip that was pointed at.
    pub slot: Option<usize>,
    pub settings_window: Option<WindowId>,
    pub default_widths: ColumnWidths,
    /// The desktop as it is.
    pub entries: Vec<DesktopEntry>,
    /// For each dropped path, whether its folder is a desktop folder.
    pub on_desktop: Vec<bool>,
}

/// What is left to do.
#[derive(Debug, PartialEq, Eq)]
pub enum Effect {
    ScheduleSave,
    SaveNow,
    /// The window follows the height of its contents.
    FollowHeight(FenceId),
    RollWindow { host: FenceId, rolled: bool },
    /// The window stays expanded.
    CommitWindow(FenceId),
    RefreshFence(FenceId),
    RefreshAll,
    RedrawFence(FenceId),
    RedrawAll,
    /// Read the desktop again.
    SyncDesktop,
    /// Draw everything anew and save, where reading the desktop changed anything.
    RefreshIfSynced,
    /// File expected items that appeared.
    RoutePending,
    RefreshPortals,
    MergeHint { target: WindowId, x: i32 },
    ClearMergeHints,
    ResyncWindows,
    ApplyView(FenceId),
    Raise(FenceId),
    MoveItems { items: Vec<ItemId>, to: FenceId },
    /// Move the items to the inbox, and then let the rules file them.
    FileFromInbox { items: Vec<ItemId>, inbox: FenceId },
    TransferIntoPortal { paths: Vec<String>, to: FenceId, mode: TransferMode },
    MakeShortcuts { paths: Vec<String>, to: FenceId },
    /// Bring files to the desktop and expect them in the fence.
    BringToDesktop { paths: Vec<String>, to: FenceId, copy: bool },
    /// Close the editor of a name.
    EndRename,
    RenameFile { item: ItemId, name: String },
    PushSettings,
    /// Tell the user how many items moved.
    TellMoved(usize),
    RestoreDesktopIcons,
    PostQuit,
    ForgetSettingsWindow,
    Destroy(WindowId),
}

/// What a command came to.
pub enum Handled {
    /// The command is one step of its own, outside of the state.
    Delegate(Command),
    /// The state has changed; this is left to do, in order.
    Done(Vec<Effect>),
}

/// The command is one step of its own.
pub open spec fn is_delegated(cmd: Command) -> bool {
    match cmd {
        Command::FenceBoundsChanged { .. } => false,
        Command::ToggleRollUp(_) => false,
        Command::CommitExpanded(_) => false,
        Command::ReorderItems { .. } => false,
        Command::DragOutFinished => false,
        Command::SetColumnWidths { .. } => false,
        Command::MergeHint { .. } => false,
        Command::MergeFence { .. } => false,
        Command::MoveItemsToInbox { .. } => false,
        Command::ExternalDrop { .. } => false,
        Command::RenameFence { .. } => false,
        Command::RenameItemCommit { .. } => false,
        Command::SortColumn { .. } => false,
        Command::ApplyRulesNow => false,
        Command::RedrawAll => false,
        Command::Quit => false,
        Command::WindowGone(_) => false,
        Command::FadeOutDone(_) => false,
        _ => true,
    }
}

// ---- single commands ----------------------------------------------------------------------

pub open spec fn is_rolled(seen: Seen) -> bool {
    seen.rolled == Some(true)
}

/// The bounds of a fence were stored.
pub open spec fn bounds_stored(a: AppState, b: AppState, id: FenceId, seen: Seen) -> bool {
    match seen.geometry {
        None => b == a,
        Some(g) => {
            let f = at(a, id);
            let rolled = is_rolled(seen);
            let changed = has_fence(fences(a), id) && (!geometry_eq(f.geometry, g@) || f.rolled_up
                != rolled);
            &&& fences(b) == if changed {
                with_fence(
                    fences(a),
                    id,
                    FenceModel { geometry: g@, expanded_h: g.h, rolled_up: rolled, ..f },
                )
            } else {
                fences(a)
            }
            &&& b.dirty == (a.dirty || changed)
            &&& same_but_fences(b, a)
        },
    }
}

/// A fence was rolled up or down.
pub open spec fn rolled_to(a: AppState, b: AppState, id: FenceId, rolled: bool) -> bool {
    &&& fences(b) == with_fence(fences(a), id, FenceModel { rolled_up: rolled, ..at(a, id) })
    &&& b.dirty
    &&& same_but_fences(b, a)
}

/// The widths of the columns were stored.
pub open spec fn widths_stored(
    a: AppState,
    b: AppState,
    id: FenceId,
    widths: ColumnWidths,
    defaults: ColumnWidths,
) -> bool {
    let v = at(a, id).view;
    let next = saved_widths(widths, defaults);
    let changed = has_fence(fences(a), id) && !optional_widths_eq(v.column_widths, next);
    &&& fences(b) == if changed {
        with_fence(
            fences(a),
            id,
            FenceModel { view: FenceView { column_widths: next, ..v }, ..at(a, id) },
        )
    } else {
        fences(a)
    }
    &&& b.dirty == (a.dirty || changed)
    &&& same_but_fences(b, a)
}

/// The view once the header of a column was clicked: sorted by it, in the opposite direction
/// where it was sorted by it already.
pub open spec fn column_clicked(v: FenceView, sort: SortMode) -> FenceView {
    FenceView { reverse: v.sort == sort && !v.reverse, ..sorted_by(v, sort) }
}

/// A fence can be merged into the window of `host`.
pub open spec fn can_merge(a: AppState, fence: FenceId, host: Option<FenceId>) -> bool {
    host matches Some(h) && h != fence && can_attach(fences(a), fence, h)
}

/// A fence became a tab of the window of `host`, at the slot.
pub open spec fn merged(
    a: AppState,
    b: AppState,
    fence: FenceId,
    host: FenceId,
    slot: Option<usize>,
) -> bool {
    &&& slotted(
        repaired(attached(fences(a), fence, host_of(fences(a), host))),
        fences(b),
        host,
        fence,
        slot,
    )
    &&& b.dirty
    &&& same_but_fences(b, a)
}

/// The tab was put at the slot; where that is where it stood, nothing changed.
pub open spec fn slotted(
    mid: Seq<FenceModel>,
    after: Seq<FenceModel>,
    host: FenceId,
    tab: FenceId,
    slot: Option<usize>,
) -> bool {
    let h = host_of(mid, host);
    let strip = tabs_of(mid, h);
    after == match slot {
        Some(i) if has_fence(mid, h) && strip.contains(tab) && moved_to(strip, tab, i as int)
            != strip => with_order(mid, h, moved_to(strip, tab, i as int)),
        _ => mid,
    }
}

/// Replacing a fence twice is replacing it once.
proof fn lemma_set_twice(fs: Seq<FenceModel>, id: FenceId, g: FenceModel, h: FenceModel)
    requires
        has_fence(fs, id),
        g.id == id,
        g != fs[first_index(fs, id)] ==> h != fs[first_index(fs, id)],
    ensures
        ({
            let mid = with_fence(fs, id, g);
            let after = with_fence(mid, id, h);
            &&& has_fence(mid, id)
            &&& mid[first_index(mid, id)] == g
            &&& after == with_fence(fs, id, h)
            &&& (mid != fs || after != mid) == (after != fs)
        }),
{
    let i = first_index(fs, id);
    lemma_first_index(fs, id);
    let mid = with_fence(fs, id, g);
    assert(mid[i].id == id);
    assert forall|j: int| 0 <= j < i implies (#[trigger] mid[j]).id != id by {
        assert(fs[j].id != id);
    }
    assert(is_first(mid, id, i));
    lemma_first_unique(mid, id, i);
    let after = with_fence(mid, id, h);
    assert(after =~= with_fence(fs, id, h));
    assert(after[i] == h);
    if g == fs[i] {
        assert(mid =~= fs);
    }
}

impl AppState {
    fn store_bounds(&mut self, id: FenceId, seen: Seen)
        requires
            in_use(*old(self)),
        ensures
            bounds_stored(*old(self), *final(self), id, seen),
    {
        let rolled: bool = match seen.rolled {
            Some(r) => r,
            None => false,
        };
        if let Some(g) = seen.geometry {
            self.set_fence_bounds(id, g, rolled);
        }
    }

    /// Sorts a fence by the column whose header was clicked. Returns whether there is one.
    #[verifier::rlimit(40)]
    #[verifier::spinoff_prover]
    pub fn sort_by_column(&mut self, id: FenceId, sort: SortMode) -> (r: bool)
        requires
            in_use(*old(self)),
        ensures
            r == has_fence(fences(*old(self)), id),
            fence_set(
                *old(self),
                *final(self),
                id,
                FenceModel {
                    view: column_clicked(at(*old(self), id).view, sort),
                    ..at(*old(self), id)
                },
            ),
    {
        let ghost before = *self;
        let reverse: bool = match self.fence(id) {
            Some(f) => f.view.sort == sort && !f.view.reverse,
            None => {
                return false;
            },
        };
        self.set_sort(id, sort);
        let ghost mid = *self;
        self.set_reverse(id, reverse);
        proof {
            let f = at(before, id);
            lemma_first_index(fences(before), id);
            lemma_set_twice(
                fences(before),
                id,
                FenceModel { view: sorted_by(f.view, sort), ..f },
                FenceModel { view: column_clicked(f.view, sort), ..f },
            );
        }
        true
    }

    /// Makes a fence a tab of the window that it was dropped on, at the slot that was pointed at.
    /// Returns whether that is possible.
    pub fn merge_fence(
        &mut self,
        fence: FenceId,
        host: Option<FenceId>,
        slot: Option<usize>,
    ) -> (r: bool)
        requires
            in_use(*old(self)),
        ensures
            r == can_merge(*old(self), fence, host),
            !r ==> fences(*final(self)) == fences(*old(self)) && final(self).dirty
                == old(self).dirty && same_but_fences(*final(self), *old(self)),
            r ==> merged(*old(self), *final(self), fence, host->0, slot),
    {
        let h: FenceId = match host {
            Some(h) => h,
            None => {
                return false;
            },
        };
        if h == fence || !self.attach_tab(fence, h) {
            return false;
        }
        let ghost mid = fences(*self);
        if let Some(i) = slot {
            self.reorder_tab(h, fence, i);
        }
        assert(slotted(mid, fences(*self), h, fence, slot));
        true
    }
}

// ---- dropped files ------------------------------------------------------------------------

/// A dropped path was sorted: it is an item, or it is from elsewhere. A path on the desktop that
/// is no item yet makes the desktop be read; it is dropped from the list where it is no item then
/// either.
pub open spec fn path_sorted(
    a: AppState,
    b: AppState,
    path: Seq<char>,
    on_desktop: bool,
    entries: Seq<DesktopEntry>,
    item: Option<ItemId>,
    foreign: bool,
) -> bool {
    match item_at(a, path) {
        Some(id) => b == a && item == Some(id) && !foreign,
        None => if on_desktop {
            &&& exists|now: i64, report: SyncReport| #[trigger]
                desktop_synced(
                    files(a),
                    files(b),
                    entries,
                    a.config.rules.keep_updated,
                    now,
                    report,
                )
            &&& same_but_files(b, a)
            &&& item == item_at(b, path)
            &&& !foreign
        } else {
            b == a && item is None && foreign
        },
    }
}

/// `ids` with one more, where there is one.
pub open spec fn with_id(ids: Seq<ItemId>, item: Option<ItemId>) -> Seq<ItemId> {
    match item {
        Some(id) => ids.push(id),
        None => ids,
    }
}

/// `paths` with one more, where it belongs to them.
pub open spec fn with_path(paths: Seq<Seq<char>>, path: Seq<char>, more: bool) -> Seq<Seq<char>> {
    if more {
        paths.push(path)
    } else {
        paths
    }
}

/// The last path of a drop was sorted, after the others.
pub open spec fn last_sorted(
    mid: AppState,
    b: AppState,
    path: Seq<char>,
    on_desktop: bool,
    entries: Seq<DesktopEntry>,
    before: (Seq<ItemId>, Seq<Seq<char>>),
    after: (Seq<ItemId>, Seq<Seq<char>>),
) -> bool {
    exists|item: Option<ItemId>, foreign: bool| #[trigger]
        path_sorted(mid, b, path, on_desktop, entries, item, foreign) && after == (
            with_id(before.0, item),
            with_path(before.1, path, foreign),
        )
}

/// Dropped paths were sorted one after the other into items and paths from elsewhere.
pub open spec fn drop_sorted(
    a: AppState,
    b: AppState,
    paths: Seq<String>,
    on_desktop: Seq<bool>,
    entries: Seq<DesktopEntry>,
    out: (Seq<ItemId>, Seq<Seq<char>>),
) -> bool
    decreases paths.len(),
{
    if paths.len() == 0 {
        b == a && out.0.len() == 0 && out.1.len() == 0
    } else {
        let k = paths.len() - 1;
        exists|mid: AppState, before: (Seq<ItemId>, Seq<Seq<char>>)|
            drop_sorted(a, mid, paths.drop_last(), on_desktop, entries, before)
                && #[trigger] last_sorted(
                mid,
                b,
                paths[k]@,
                on_desktop[k],
                entries,
                before,
                out,
            )
    }
}

impl AppState {
    /// Sorts dropped paths into items and paths from elsewhere. The desktop is read again for a
    /// path on it that is no item yet.
    pub fn split_drop(
        &mut self,
        paths: &Vec<String>,
        on_desktop: &Vec<bool>,
        entries: &Vec<DesktopEntry>,
    ) -> (r: (Vec<ItemId>, Vec<String>))
        requires
            in_use(*old(self)),
            on_desktop.len() == paths.len(),
        ensures
            drop_sorted(
                *old(self),
                *final(self),
                paths@,
                on_desktop@,
                entries@,
                (r.0@, text_views(r.1@)),
            ),
            in_use(*final(self)),
    {
        let ghost a = *self;
        let mut ids: Vec<ItemId> = Vec::new();
        let mut foreign: Vec<String> = Vec::new();
        let n: usize = paths.len();
        assert(text_views(foreign@) =~= Seq::<Seq<char>>::empty());
        for k in 0..n
            invariant
                n == paths.len(),
                n == on_desktop.len(),
                in_use(*self),
                a == *old(self),
                drop_sorted(
                    a,
                    *self,
                    paths@.take(k as int),
                    on_desktop@,
                    entries@,
                    (ids@, text_views(foreign@)),
                ),
        {
            let ghost mid = *self;
            let ghost before = (ids@, text_views(foreign@));
            assert(paths@.take(k + 1).drop_last() == paths@.take(k as int));
            let mut item: Option<ItemId> = self.item_by_path(paths[k].as_str());
            let mut far = false;
            if item.is_none() {
                if on_desktop[k] {
                    let report = self.sync_desktop(entries);
                    item = self.item_by_path(paths[k].as_str());
                } else {
                    far = true;
                }
            }
            assert(path_sorted(
                mid,
                *self,
                paths@[k as int]@,
                on_desktop@[k as int],
                entries@,
                item,
                far,
            ));
            if let Some(id) = item {
                ids.push(id);
            }
            let ghost were = foreign@;
            if far {
                let p = paths[k].clone();
                foreign.push(p);
                assert(text_views(foreign@) =~= text_views(were).push(paths@[k as int]@));
            }
            assert(last_sorted(
                mid,
                *self,
                paths@.take(k + 1)[k as int]@,
                on_desktop@[k as int],
                entries@,
                before,
                (ids@, text_views(foreign@)),
            ));
        }
        assert(paths@.take(n as int) == paths@);
        (ids, foreign)
    }
}

// ---- all commands -------------------------------------------------------------------------

/// The two states are the same but for what the fences hold in common with their models.
pub open spec fn unchanged(a: AppState, b: AppState) -> bool {
    fences(b) == fences(a) && b.dirty == a.dirty && same_but_fences(b, a)
}

/// What a drop of files onto a fence came to.
pub open spec fn dropped_on(
    a: AppState,
    b: AppState,
    paths: Vec<String>,
    to: FenceId,
    mode: TransferMode,
    seen: Seen,
    rest: Seq<Effect>,
) -> bool {
    if portal_path_of(a, to) is Some {
        b == a && rest == seq![Effect::TransferIntoPortal { paths, to, mode }]
    } else if mode == TransferMode::Link {
        b == a && rest == seq![
            Effect::MakeShortcuts { paths, to },
            Effect::SyncDesktop,
            Effect::RoutePending,
            Effect::RefreshIfSynced,
        ]
    } else {
        exists|ids: Seq<ItemId>, foreign: Seq<Seq<char>>| #[trigger]
            drop_sorted(a, b, paths@, seen.on_desktop@, seen.entries@, (ids, foreign))
                && are_drop_effects(rest, ids, foreign, to, mode == TransferMode::Copy)
    }
}

/// Files from elsewhere are brought to the desktop, and then items are moved into the fence.
pub open spec fn are_drop_effects(
    rest: Seq<Effect>,
    ids: Seq<ItemId>,
    foreign: Seq<Seq<char>>,
    to: FenceId,
    copy: bool,
) -> bool {
    let k: int = if foreign.len() > 0 {
        1
    } else {
        0
    };
    let n: int = if ids.len() > 0 {
        k + 1
    } else {
        k
    };
    &&& rest.len() == n
    &&& foreign.len() > 0 ==> (rest[0] matches Effect::BringToDesktop { paths, to: at, copy: c }
        && text_views(paths@) == foreign && at == to && c == copy)
    &&& ids.len() > 0 ==> (rest[k] matches Effect::MoveItems { items, to: at } && items@ == ids
        && at == to)
}

/// A fence was given a title, unless that is blank.
pub open spec fn titled(
    a: AppState,
    b: AppState,
    fence: FenceId,
    title: Seq<char>,
    rest: Seq<Effect>,
) -> bool {
    if trimmed(title).len() > 0 {
        fence_set(a, b, fence, FenceModel { title: trimmed(title), ..at(a, fence) }) && rest
            == seq![
            Effect::EndRename,
            Effect::RefreshFence(fence),
            Effect::ScheduleSave,
            Effect::PushSettings,
            Effect::RedrawFence(fence),
        ]
    } else {
        b == a && rest == seq![Effect::EndRename, Effect::RedrawFence(fence)]
    }
}

/// What a command changes, and what it leaves to do.
pub open spec fn handled(a: AppState, b: AppState, cmd: Command, seen: Seen, rest: Seq<Effect>) -> bool {
    match cmd {
        Command::FenceBoundsChanged { fence, .. } => bounds_stored(a, b, fence, seen) && rest
            == seq![Effect::ScheduleSave, Effect::FollowHeight(fence)],
        Command::ToggleRollUp(fence) => match seen.rolled {
            None => b == a && rest == Seq::<Effect>::empty(),
            Some(now) => {
                let host = host_of(fences(a), fence);
                rolled_to(a, b, host, !now) && rest == seq![
                    Effect::RollWindow { host, rolled: !now },
                    Effect::ScheduleSave,
                ]
            },
        },
        Command::CommitExpanded(fence) => rolled_to(a, b, fence, false) && rest == seq![
            Effect::CommitWindow(fence),
            Effect::ScheduleSave,
            Effect::FollowHeight(fence),
        ],
        Command::ReorderItems { fence, items, index } => if can_reorder(a, fence) {
            exists|shown: Seq<Item>, r: bool| #[trigger]
                reordered(a, b, fence, shown, items@, index as int, r) && rest == (if r {
                    seq![Effect::RefreshFence(fence), Effect::ScheduleSave]
                } else {
                    Seq::empty()
                })
        } else {
            b == a && rest == Seq::<Effect>::empty()
        },
        Command::DragOutFinished => b == a && rest == seq![
            Effect::SyncDesktop,
            Effect::RoutePending,
            Effect::RefreshPortals,
            Effect::RefreshIfSynced,
        ],
        Command::SetColumnWidths { fence, widths } => widths_stored(
            a,
            b,
            fence,
            widths,
            seen.default_widths,
        ) && rest == seq![Effect::ScheduleSave],
        Command::MergeHint { target, x } => b == a && rest == seq![Effect::MergeHint { target, x }],
        Command::MergeFence { fence, .. } => if can_merge(a, fence, seen.host) {
            merged(a, b, fence, seen.host->0, seen.slot) && rest == seq![
                Effect::ClearMergeHints,
                Effect::ResyncWindows,
                Effect::ApplyView(seen.host->0),
                Effect::Raise(seen.host->0),
                Effect::ScheduleSave,
            ]
        } else {
            unchanged(a, b) && rest == seq![Effect::ClearMergeHints]
        },
        Command::MoveItemsToInbox { items } => b == a && rest == match inbox_of(fences(a)) {
            Some(inbox) => seq![Effect::FileFromInbox { items, inbox }, Effect::ScheduleSave],
            None => Seq::empty(),
        },
        Command::ExternalDrop { paths, to, mode } => dropped_on(a, b, paths, to, mode, seen, rest),
        Command::RenameFence { fence, title } => titled(a, b, fence, title@, rest),
        Command::RenameItemCommit { item, name } => b == a && rest == seq![
            Effect::EndRename,
            Effect::RenameFile { item, name },
        ],
        Command::SortColumn { fence, sort } => fence_set(
            a,
            b,
            fence,
            FenceModel { view: column_clicked(at(a, fence).view, sort), ..at(a, fence) },
        ) && rest == if has_fence(fences(a), fence) {
            seq![Effect::RefreshFence(fence), Effect::ScheduleSave]
        } else {
            Seq::empty()
        },
        Command::ApplyRulesNow => exists|n: usize| #[trigger]
            rules_ran(
                files(a),
                files(b),
                seen.entries@,
                a.config.rules.list@,
                false,
                n as nat,
            ) && same_but_files(b, a) && rest == seq![
                Effect::RefreshAll,
                Effect::ScheduleSave,
                Effect::TellMoved(n),
            ],
        Command::RedrawAll => b == a && rest == seq![Effect::EndRename, Effect::RedrawAll],
        Command::Quit => b == a && rest == seq![
            Effect::SaveNow,
            Effect::RestoreDesktopIcons,
            Effect::PostQuit,
        ],
        Command::WindowGone(w) => b == a && rest == if seen.settings_window == Some(w) {
            seq![Effect::ForgetSettingsWindow]
        } else {
            Seq::empty()
        },
        Command::FadeOutDone(w) => b == a && rest == seq![Effect::Destroy(w)],
        _ => false,
    }
}

/// Every dropped path was looked at.
pub open spec fn can_handle(a: AppState, cmd: Command, seen: Seen) -> bool {
    match cmd {
        Command::ExternalDrop { paths, .. } => seen.on_desktop.len() == paths.len(),
        _ => true,
    }
}

fn one(a: Effect) -> (r: Vec<Effect>)
    ensures
        r@ == seq![a],
{
    vec![a]
}

fn two(a: Effect, b: Effect) -> (r: Vec<Effect>)
    ensures
        r@ == seq![a, b],
{
    vec![a, b]
}

fn three(a: Effect, b: Effect, c: Effect) -> (r: Vec<Effect>)
    ensures
        r@ == seq![a, b, c],
{
    vec![a, b, c]
}

fn four(a: Effect, b: Effect, c: Effect, d: Effect) -> (r: Vec<Effect>)
    ensures
        r@ == seq![a, b, c, d],
{
    vec![a, b, c, d]
}

fn five(a: Effect, b: Effect, c: Effect, d: Effect, e: Effect) -> (r: Vec<Effect>)
    ensures
        r@ == seq![a, b, c, d, e],
{
    vec![a, b, c, d, e]
}

impl AppState {
    fn handle_drop(
        &mut self,
        paths: Vec<String>,
        to: FenceId,
        mode: TransferMode,
        seen: Seen,
    ) -> (r: Vec<Effect>)
        requires
            in_use(*old(self)),
            seen.on_desktop.len() == paths.len(),
        ensures
            dropped_on(*old(self), *final(self), paths, to, mode, seen, r@),
    {
        if self.portal_path(to).is_some() {
            return one(Effect::TransferIntoPortal { paths, to, mode });
        }
        if mode == TransferMode::Link {
            return four(
                Effect::MakeShortcuts { paths, to },
                Effect::SyncDesktop,
                Effect::RoutePending,
                Effect::RefreshIfSynced,
            );
        }
        let (ids, foreign) = self.split_drop(&paths, &seen.on_desktop, &seen.entries);
        let ghost sorted = (ids@, text_views(foreign@));
        let mut rest: Vec<Effect> = Vec::new();
        if foreign.len() > 0 {
            rest.push(
                Effect::BringToDesktop { paths: foreign, to, copy: mode == TransferMode::Copy },
            );
        }
        if ids.len() > 0 {
            rest.push(Effect::MoveItems { items: ids, to });
        }
        assert(are_drop_effects(rest@, sorted.0, sorted.1, to, mode == TransferMode::Copy));
        rest
    }

    fn handle_reorder(&mut self, fence: FenceId, items: Vec<ItemId>, index: usize) -> (r: Vec<
        Effect,
    >)
        requires
            in_use(*old(self)),
        ensures
            if can_reorder(*old(self), fence) {
                exists|shown: Seq<Item>, done: bool| #[trigger]
                    reordered(
                        *old(self),
                        *final(self),
                        fence,
                        shown,
                        items@,
                        index as int,
                        done,
                    ) && r@ == (if done {
                        seq![Effect::RefreshFence(fence), Effect::ScheduleSave]
                    } else {
                        Seq::empty()
                    })
            } else {
                *final(self) == *old(self) && r@ == Seq::<Effect>::empty()
            },
    {
        let done = self.reorder_items(fence, &items, index);
        if done {
            two(Effect::RefreshFence(fence), Effect::ScheduleSave)
        } else {
            Vec::new()
        }
    }

    fn handle_merge(&mut self, fence: FenceId, seen: Seen) -> (r: Vec<Effect>)
        requires
            in_use(*old(self)),
        ensures
            if can_merge(*old(self), fence, seen.host) {
                merged(*old(self), *final(self), fence, seen.host->0, seen.slot) && r@ == seq![
                    Effect::ClearMergeHints,
                    Effect::ResyncWindows,
                    Effect::ApplyView(seen.host->0),
                    Effect::Raise(seen.host->0),
                    Effect::ScheduleSave,
                ]
            } else {
                unchanged(*old(self), *final(self)) && r@ == seq![Effect::ClearMergeHints]
            },
    {
        if self.merge_fence(fence, seen.host, seen.slot) {
            if let Some(h) = seen.host {
                return five(
                    Effect::ClearMergeHints,
                    Effect::ResyncWindows,
                    Effect::ApplyView(h),
                    Effect::Raise(h),
                    Effect::ScheduleSave,
                );
            }
        }
        one(Effect::ClearMergeHints)
    }

    fn handle_title(&mut self, fence: FenceId, title: String) -> (r: Vec<Effect>)
        requires
            in_use(*old(self)),
        ensures
            titled(*old(self), *final(self), fence, title@, r@),
    {
        let short = trim_text(title.as_str());
        if chars_of(short.as_str()).len() > 0 {
            self.rename_fence(fence, short.as_str());
            five(
                Effect::EndRename,
                Effect::RefreshFence(fence),
                Effect::ScheduleSave,
                Effect::PushSettings,
                Effect::RedrawFence(fence),
            )
        } else {
            two(Effect::EndRename, Effect::RedrawFence(fence))
        }
    }

    /// Carries a command out, as far as the state goes, and says what is left to do.
    pub fn handle(&mut self, cmd: Command, seen: Seen) -> (r: Handled)
        requires
            in_use(*old(self)),
            can_handle(*old(self), cmd, seen),
        ensures
            is_delegated(cmd) ==> r == Handled::Delegate(cmd) && *final(self) == *old(self),
            !is_delegated(cmd) ==> (r matches Handled::Done(rest) && handled(
                *old(self),
                *final(self),
                cmd,
                seen,
                rest@,
            )),
    {
        match cmd {
            Command::FenceBoundsChanged { fence, .. } => {
                self.store_bounds(fence, seen);
                Handled::Done(two(Effect::ScheduleSave, Effect::FollowHeight(fence)))
            },
            Command::ToggleRollUp(fence) => match seen.rolled {
                None => Handled::Done(Vec::new()),
                Some(now) => {
                    let host: FenceId = self.host_of(fence);
                    self.set_rolled(host, !now);
                    Handled::Done(
                        two(Effect::RollWindow { host, rolled: !now }, Effect::ScheduleSave),
                    )
                },
            },
            Command::CommitExpanded(fence) => {
                self.set_rolled(fence, false);
                Handled::Done(
                    three(Effect::CommitWindow(fence), Effect::ScheduleSave, Effect::FollowHeight(fence)),
                )
            },
            Command::ReorderItems { fence, items, index } => Handled::Done(
                self.handle_reorder(fence, items, index),
            ),
            Command::DragOutFinished => Handled::Done(
                four(Effect::SyncDesktop, Effect::RoutePending, Effect::RefreshPortals, Effect::RefreshIfSynced),
            ),
            Command::SetColumnWidths { fence, widths } => {
                self.set_column_widths(fence, widths, seen.default_widths);
                Handled::Done(one(Effect::ScheduleSave))
            },
            Command::MergeHint { target, x } => Handled::Done(
                one(Effect::MergeHint { target, x }),
            ),
            Command::MergeFence { fence, .. } => Handled::Done(self.handle_merge(fence, seen)),
            Command::MoveItemsToInbox { items } => match self.inbox_id() {
                Some(inbox) => Handled::Done(
                    two(Effect::FileFromInbox { items, inbox }, Effect::ScheduleSave),
                ),
                None => Handled::Done(Vec::new()),
            },
            Command::ExternalDrop { paths, to, mode } => Handled::Done(
                self.handle_drop(paths, to, mode, seen),
            ),
            Command::RenameFence { fence, title } => Handled::Done(self.handle_title(fence, title)),
            Command::RenameItemCommit { item, name } => Handled::Done(
                two(Effect::EndRename, Effect::RenameFile { item, name }),
            ),
            Command::SortColumn { fence, sort } => if self.sort_by_column(fence, sort) {
                Handled::Done(two(Effect::RefreshFence(fence), Effect::ScheduleSave))
            } else {
                Handled::Done(Vec::new())
            },
            Command::ApplyRulesNow => {
                let n: usize = self.apply_rules_all(&seen.entries);
                Handled::Done(
                    three(Effect::RefreshAll, Effect::ScheduleSave, Effect::TellMoved(n)),
                )
            },
            Command::RedrawAll => Handled::Done(two(Effect::EndRename, Effect::RedrawAll)),
            Command::Quit => Handled::Done(
                three(Effect::SaveNow, Effect::RestoreDesktopIcons, Effect::PostQuit),
            ),
            Command::WindowGone(w) => {
                let ours: bool = match seen.settings_window {
                    Some(s) => s == w,
                    None => false,
                };
                if ours {
                    Handled::Done(one(Effect::ForgetSettingsWindow))
                } else {
                    Handled::Done(Vec::new())
                }
            },
            Command::FadeOutDone(w) => Handled::Done(one(Effect::Destroy(w))),
            other => Handled::Delegate(other),
        }
    }
}

/// Clicking the header of a column twice ends up with that order, the other way round; a third
/// click turns it back.
pub proof fn clicking_a_column_again_reverses(v: FenceView, sort: SortMode)
    ensures
        ({
            let once = column_clicked(v, sort);
            let twice = column_clicked(once, sort);
            &&& once.sort == sort
            &&& twice == FenceView { reverse: !once.reverse, ..once }
            &&& column_clicked(twice, sort) == once
        }),
{
}

// ---- what commands do -------------------------------------------------------------------------

/// Rolling a window up or down turns it into what it was not, on the fence that owns it, and
/// changes nothing else about any fence.
pub proof fn rolling_toggles_the_window(
    a: AppState,
    b: AppState,
    fence: FenceId,
    seen: Seen,
    rest: Seq<Effect>,
    i: int,
)
    requires
        handled(a, b, Command::ToggleRollUp(fence), seen, rest),
        seen.rolled is Some,
        is_first(fences(a), host_of(fences(a), fence), i),
    ensures
        fences(b).len() == fences(a).len(),
        fences(b)[i] == (FenceModel { rolled_up: !seen.rolled->0, ..fences(a)[i] }),
        forall|j: int| 0 <= j < fences(a).len() && j != i ==> #[trigger] fences(b)[j] == fences(a)[j],
        rest.contains(Effect::ScheduleSave),
        rest.contains(
            Effect::RollWindow { host: host_of(fences(a), fence), rolled: !seen.rolled->0 },
        ),
{
    lemma_first_unique(fences(a), host_of(fences(a), fence), i);
    assert(rest.contains(rest[0]) && rest.contains(rest[1]));
}

/// A peeked window that is kept open is not rolled up any more.
pub proof fn a_committed_window_stays_open(
    a: AppState,
    b: AppState,
    fence: FenceId,
    seen: Seen,
    rest: Seq<Effect>,
    i: int,
)
    requires
        handled(a, b, Command::CommitExpanded(fence), seen, rest),
        is_first(fences(a), fence, i),
    ensures
        fences(b)[i] == (FenceModel { rolled_up: false, ..fences(a)[i] }),
        forall|j: int| 0 <= j < fences(a).len() && j != i ==> #[trigger] fences(b)[j] == fences(a)[j],
        rest.contains(Effect::CommitWindow(fence)) && rest.contains(Effect::ScheduleSave),
{
    lemma_first_unique(fences(a), fence, i);
    assert(rest.contains(rest[0]) && rest.contains(rest[1]));
}

/// A window that was moved or resized is stored with the frame that was seen, and with the height
/// of that frame to expand to; the items and everything else stay.
pub proof fn a_moved_window_is_stored(
    a: AppState,
    b: AppState,
    fence: FenceId,
    rect: Rect,
    seen: Seen,
    rest: Seq<Effect>,
    i: int,
)
    requires
        handled(a, b, Command::FenceBoundsChanged { fence, rect }, seen, rest),
        is_first(fences(a), fence, i),
    ensures
        seen.geometry is None ==> fences(b) == fences(a),
        seen.geometry is Some ==> geometry_eq(fences(a)[i].geometry, seen.geometry->0@)
            || fences(b)[i].geometry == seen.geometry->0@,
        seen.geometry is Some ==> fences(b)[i].rolled_up == (seen.rolled == Some(true)),
        seen.geometry is Some && fences(b) != fences(a) ==> fences(b)[i].expanded_h
            == seen.geometry->0.h && b.dirty,
        fences(b)[i].items == fences(a)[i].items && fences(b)[i].title == fences(a)[i].title
            && fences(b)[i].view == fences(a)[i].view,
        forall|j: int| 0 <= j < fences(a).len() && j != i ==> #[trigger] fences(b)[j] == fences(a)[j],
        rest.contains(Effect::ScheduleSave),
{
    lemma_first_unique(fences(a), fence, i);
    assert(rest.contains(rest[0]));
}

/// A fence takes the title it is given without the space around it, and keeps its own where that
/// is blank.
pub proof fn a_blank_title_is_ignored(
    a: AppState,
    b: AppState,
    fence: FenceId,
    title: String,
    seen: Seen,
    rest: Seq<Effect>,
    i: int,
)
    requires
        handled(a, b, Command::RenameFence { fence, title }, seen, rest),
        is_first(fences(a), fence, i),
    ensures
        trimmed(title@).len() == 0 ==> b == a,
        trimmed(title@).len() > 0 ==> fences(b)[i] == (FenceModel {
            title: trimmed(title@),
            ..fences(a)[i]
        }) && rest.contains(Effect::ScheduleSave),
        forall|j: int| 0 <= j < fences(a).len() && j != i ==> #[trigger] fences(b)[j] == fences(a)[j],
        rest.contains(Effect::EndRename),
{
    lemma_first_unique(fences(a), fence, i);
    assert(rest.contains(rest[0]));
    assert(rest.len() > 2 ==> rest.contains(rest[2]));
}

/// A column that is clicked sorts by itself, forward at first and the other way round when it did
/// already.
pub proof fn a_clicked_column_sorts(v: FenceView, sort: SortMode)
    ensures
        column_clicked(v, sort).sort == sort,
        v.sort != sort ==> !column_clicked(v, sort).reverse,
        v.sort == sort ==> column_clicked(v, sort).reverse == !v.reverse,
        column_clicked(v, sort).icon_size == v.icon_size && column_clicked(v, sort).layout == v.layout,
{
}

/// A fence that is dropped on another window becomes a tab of it, and is shown there; one that is
/// dropped on its own window, or on none, stays as it is.
pub proof fn a_dropped_fence_becomes_a_tab(
    a: AppState,
    b: AppState,
    fence: FenceId,
    into: WindowId,
    x: i32,
    seen: Seen,
    rest: Seq<Effect>,
)
    requires
        handled(a, b, Command::MergeFence { fence, into, x }, seen, rest),
        distinct_ids(fences(a)),
        normal(fences(a)),
        has_fence(fences(a), fence),
        seen.host is Some ==> has_fence(fences(a), host_of(fences(a), seen.host->0)),
    ensures
        seen.host is None || seen.host == Some(fence) ==> fences(b) == fences(a) && b.dirty == a.dirty,
        seen.host is Some && host_of(fences(a), seen.host->0) == host_of(fences(a), fence)
            ==> fences(b) == fences(a),
        seen.host is Some && seen.host->0 != fence && fence != host_of(fences(a), seen.host->0)
            && host_of(fences(a), seen.host->0) != host_of(fences(a), fence) ==> is_tab_of(
            fences(b),
            fence,
            host_of(fences(a), seen.host->0),
        ) && b.dirty && rest.contains(Effect::ScheduleSave),
        rest.contains(Effect::ClearMergeHints),
{
    assert(rest.contains(rest[0]));
    if can_merge(a, fence, seen.host) {
        let fs = fences(a);
        let host = seen.host->0;
        let h = host_of(fs, host);
        attaching_moves_a_fence_with_its_tabs(fs, fence, host);
        assert(rest.contains(rest[4]));
        let mid = repaired(attached(fs, fence, h));
        let gs = fences(b);
        let t = choose|t: int|
            0 <= t < mid.len() && (#[trigger] mid[t]).id == fence && mid[t].tab_host == Some(h);
        let k = host_of(mid, host);
        if has_fence(mid, k) {
            lemma_first_index(mid, k);
        }
        assert(gs[t].id == fence && gs[t].tab_host == Some(h));
    }
}

/// Items that are dropped on the bare desktop go to the inbox, where there is one.
pub proof fn the_bare_desktop_is_the_inbox(
    a: AppState,
    b: AppState,
    items: Vec<ItemId>,
    seen: Seen,
    rest: Seq<Effect>,
    i: int,
)
    requires
        handled(a, b, Command::MoveItemsToInbox { items }, seen, rest),
        0 <= i < fences(a).len(),
        fences(a)[i].kind == FenceKind::Inbox,
        forall|j: int| 0 <= j < i ==> (#[trigger] fences(a)[j]).kind != FenceKind::Inbox,
    ensures
        b == a,
        rest.contains(Effect::FileFromInbox { items, inbox: fences(a)[i].id }),
        rest.contains(Effect::ScheduleSave),
{
    let fs = fences(a);
    assert(is_inbox(fs, i));
    let k = inbox_at(fs);
    assert(is_inbox(fs, k));
    if k < i {
        assert(fs[k].kind != FenceKind::Inbox);
    }
    if i < k {
        assert(fs[i].kind != FenceKind::Inbox);
    }
    assert(rest.contains(rest[0]) && rest.contains(rest[1]));
}

/// Files that are dropped on a portal go into its folder, and as links they get shortcuts; the
/// state changes in neither case.
pub proof fn files_dropped_on_a_portal_go_into_it(
    a: AppState,
    b: AppState,
    paths: Vec<String>,
    to: FenceId,
    mode: TransferMode,
    seen: Seen,
    rest: Seq<Effect>,
)
    requires
        handled(a, b, Command::ExternalDrop { paths, to, mode }, seen, rest),
    ensures
        portal_path_of(a, to) is Some ==> b == a && rest == seq![
            Effect::TransferIntoPortal { paths, to, mode },
        ],
        portal_path_of(a, to) is None && mode is Link ==> b == a && rest.contains(
            Effect::MakeShortcuts { paths, to },
        ),
{
    assert(rest.len() > 0 ==> rest.contains(rest[0]));
}

/// A file that is dropped is moved as the item it is; one that is none yet, and lies on the
/// desktop, becomes one first, and any other is brought to the desktop.
pub proof fn a_dropped_file_is_moved_or_brought(
    a: AppState,
    b: AppState,
    path: Seq<char>,
    on_desktop: bool,
    entries: Seq<DesktopEntry>,
    item: Option<ItemId>,
    foreign: bool,
)
    requires
        path_sorted(a, b, path, on_desktop, entries, item, foreign),
    ensures
        foreign <==> !a.catalog@.contains_key((true, path_key(path))) && !on_desktop,
        a.catalog@.contains_key((true, path_key(path))) ==> b == a && item == Some(
            a.catalog@[(true, path_key(path))],
        ),
        foreign ==> b == a && item is None,
        item is Some ==> b.catalog@.contains_key((true, path_key(path))) && b.catalog@[(
            true,
            path_key(path),
        )] == item->0,
{
}

/// Quitting saves first, gives the desktop its icons back, and quits last.
pub proof fn quitting_saves_first(a: AppState, b: AppState, seen: Seen, rest: Seq<Effect>)
    requires
        handled(a, b, Command::Quit, seen, rest),
    ensures
        b == a,
        rest.len() == 3,
        rest[0] is SaveNow,
        rest[1] is RestoreDesktopIcons,
        rest.last() is PostQuit,
{
}

/// Applying the rules lets all of them run, saves, and tells how many items moved.
pub proof fn applying_the_rules_tells_what_moved(
    a: AppState,
    b: AppState,
    seen: Seen,
    rest: Seq<Effect>,
)
    requires
        handled(a, b, Command::ApplyRulesNow, seen, rest),
    ensures
        rest.contains(Effect::ScheduleSave) && rest.contains(Effect::RefreshAll),
        rest.last() is TellMoved,
        rules_ran(
            files(a),
            files(b),
            seen.entries@,
            a.config.rules.list@,
            false,
            rest.last()->TellMoved_0 as nat,
        ),
{
    assert(rest.contains(rest[0]) && rest.contains(rest[1]));
}

/// A command is either handled here or delegated, never both.
pub proof fn handled_commands_are_not_delegated(
    a: AppState,
    b: AppState,
    cmd: Command,
    seen: Seen,
    rest: Seq<Effect>,
)
    requires
        handled(a, b, cmd, seen, rest),
    ensures
        !is_delegated(cmd),
{
}

/// Of dropped files those from elsewhere are brought to the desktop for the fence first, copied
/// where that was asked for, and then the items among them are moved into it.
pub proof fn dropped_files_are_brought_and_moved(
    rest: Seq<Effect>,
    ids: Seq<ItemId>,
    foreign: Seq<Seq<char>>,
    to: FenceId,
    copy: bool,
)
    requires
        are_drop_effects(rest, ids, foreign, to, copy),
    ensures
        foreign.len() == 0 && ids.len() == 0 ==> rest.len() == 0,
        foreign.len() > 0 ==> rest.len() > 0 && rest[0] is BringToDesktop && rest[0]->BringToDesktop_to
            == to && rest[0]->BringToDesktop_copy == copy && text_views(
            rest[0]->BringToDesktop_paths@,
        ) == foreign,
        ids.len() > 0 ==> rest.len() > 0 && rest.last() is MoveItems && rest.last()->MoveItems_to == to
            && rest.last()->MoveItems_items@ == ids,
        ids.len() == 0 && foreign.len() > 0 ==> rest.len() == 1,
{
}

/// A fence that is dropped at a slot of a strip stands at that slot, and without a slot where its
/// strip puts it.
pub proof fn a_dropped_tab_stands_at_its_slot(
    mid: Seq<FenceModel>,
    after: Seq<FenceModel>,
    host: FenceId,
    tab: FenceId,
    slot: Option<usize>,
)
    requires
        slotted(mid, after, host, tab, slot),
        has_fence(mid, host_of(mid, host)),
        tabs_of(mid, host_of(mid, host)).contains(tab),
    ensures
        slot is None ==> after == mid,
        slot is Some ==> tabs_of(after, host_of(mid, host)) == moved_to(
            tabs_of(mid, host_of(mid, host)),
            tab,
            slot->0 as int,
        ),
{
    if let Some(i) = slot {
        reordered_strip_is_shown(mid, host_of(mid, host), tab, i as int);
    }
}

/// Each of the small commands does what it is named for, and leaves the state as it is.
pub proof fn small_commands_do_one_thing(
    a: AppState,
    b: AppState,
    w: WindowId,
    item: ItemId,
    name: String,
    seen: Seen,
    rest: Seq<Effect>,
)
    ensures
        handled(a, b, Command::WindowGone(w), seen, rest) ==> b == a && (rest.len() > 0
            <==> seen.settings_window == Some(w)) && (rest.len() > 0 ==> rest[0] is ForgetSettingsWindow),
        handled(a, b, Command::FadeOutDone(w), seen, rest) ==> b == a && rest == seq![
            Effect::Destroy(w),
        ],
        handled(a, b, Command::RenameItemCommit { item, name }, seen, rest) ==> b == a && rest.last()
            == (Effect::RenameFile { item, name }) && rest[0] is EndRename,
        handled(a, b, Command::RedrawAll, seen, rest) ==> b == a && rest.last() is RedrawAll,
        handled(a, b, Command::DragOutFinished, seen, rest) ==> b == a && rest[0] is SyncDesktop
            && rest.last() is RefreshIfSynced,
{
}

/// A click on a column sorts the fence by it, and the items stay.
pub proof fn a_click_on_a_column_sorts_its_fence(
    a: AppState,
    b: AppState,
    fence: FenceId,
    sort: SortMode,
    seen: Seen,
    rest: Seq<Effect>,
    i: int,
)
    requires
        is_first(fences(a), fence, i),
        handled(a, b, Command::SortColumn { fence, sort }, seen, rest),
    ensures
        fences(b)[i].view.sort == sort,
        fences(b)[i].view.reverse == (fences(a)[i].view.sort == sort && !fences(a)[i].view.reverse),
        fences(b)[i].items == fences(a)[i].items,
{
    lemma_first_unique(fences(a), fence, i);
    let v = column_clicked(fences(a)[i].view, sort);
    assert(fences(b)[i] == (FenceModel { view: v, ..fences(a)[i] }));
}

/// The widths of columns are stored where they differ from those before.
pub proof fn widths_of_columns_are_stored(
    a: AppState,
    b: AppState,
    fence: FenceId,
    widths: ColumnWidths,
    seen: Seen,
    rest: Seq<Effect>,
    i: int,
)
    requires
        is_first(fences(a), fence, i),
        handled(a, b, Command::SetColumnWidths { fence, widths }, seen, rest),
    ensures
        optional_widths_eq(
            fences(a)[i].view.column_widths,
            saved_widths(widths, seen.default_widths),
        ) || fences(b)[i].view.column_widths == saved_widths(widths, seen.default_widths),
        fences(b)[i].items == fences(a)[i].items,
{
    lemma_first_unique(fences(a), fence, i);
}

} // verus!
