//! Filing desktop items into fences: by the rules, by hand, and when a fence is deleted.

use crate::config::{
    a_filed_item_comes_last, can_file, fence_of, filed_item_is_in_one_fence, holds, is_holder, recent,
    rule_of, with_item,
};
use crate::model::{
    fence_models, AssignedBy, Assignment, Decision, Fence, FenceId, FenceKind, FenceModel, IconKey,
    Item, ItemId, Origin, Rule, RuleId, Target,
};
use crate::paths::path_key;
use crate::rules::{lemma_sent, pinned, placed_by_user, same_frames};
use crate::state::{fences, in_use, AppState};
use crate::tab_repair::lemma_same_ids;
use crate::tabs::{first_index, has_fence, is_first, lemma_first_index};
use vstd::prelude::*;

verus! {

// ---- entries ------------------------------------------------------------------------------

/// One entry of the desktop as it was enumerated, with what the rules say of it.
#[derive(Debug, PartialEq, Eq)]
pub struct DesktopEntry {
    pub path: String,
    pub file_name: String,
    /// The name that the shell shows, where it gives one.
    pub shell_name: Option<String>,
    pub origin: Origin,
    pub mtime: i64,
    pub is_folder: bool,
    pub attributes: u32,
    pub size: u64,
    pub icon_key: IconKey,
    /// What the rules decide for the entry.
    pub ruling: Decision,
}

/// The key of an entry, as the catalog has it.
pub open spec fn entry_key(e: DesktopEntry) -> (bool, Seq<char>) {
    (true, path_key(e.path@))
}

/// Whole days between `now` and the later of last write and last open.
pub open spec fn idle_days_of(mtime: int, last_opened: Option<i64>, now: int) -> Option<int> {
    let opened = match last_opened {
        Some(t) => t as int,
        None => 0,
    };
    let last = if mtime > opened {
        mtime
    } else {
        opened
    };
    if last > 0 {
        Some(if now > last {
            (now - last) / 86_400
        } else {
            0
        })
    } else {
        None
    }
}

/// Whole days between `now` and the later of last write and last open; none where the file has
/// neither time. Counts of days that do not fit are cut to their low 32 bits.
pub fn idle_days(mtime: i64, last_opened: Option<i64>, now: i64) -> (r: Option<u32>)
    ensures
        r == match idle_days_of(mtime as int, last_opened, now as int) {
            Some(d) => Some(d as u32),
            None => None,
        },
{
    let opened: i64 = match last_opened {
        Some(t) => t,
        None => 0,
    };
    let last: i64 = if mtime > opened {
        mtime
    } else {
        opened
    };
    if last > 0 {
        let days: i64 = if now > last {
            (now - last) / 86_400
        } else {
            0
        };
        Some(days as u32)
    } else {
        None
    }
}

// ---- where items go -----------------------------------------------------------------------

/// Fence `i` is the first inbox.
pub open spec fn is_inbox(fs: Seq<FenceModel>, i: int) -> bool {
    &&& 0 <= i < fs.len()
    &&& fs[i].kind == FenceKind::Inbox
    &&& forall|j: int| 0 <= j < i ==> (#[trigger] fs[j]).kind != FenceKind::Inbox
}

pub open spec fn inbox_at(fs: Seq<FenceModel>) -> int {
    choose|i: int| is_inbox(fs, i)
}

/// The first inbox, where there is one.
pub open spec fn inbox_of(fs: Seq<FenceModel>) -> Option<FenceId> {
    if exists|i: int| is_inbox(fs, i) {
        Some(fs[inbox_at(fs)].id)
    } else {
        None
    }
}

/// A fence that can hold filed items: it exists and is no portal, which shows a folder instead.
pub open spec fn routable(fs: Seq<FenceModel>, id: FenceId) -> bool {
    has_fence(fs, id) && fs[first_index(fs, id)].kind != FenceKind::FolderPortal
}

/// The fence that a target stands for: the inbox where the fence cannot hold items.
pub open spec fn target_id(fs: Seq<FenceModel>, t: Target) -> Option<FenceId> {
    match t {
        Target::Inbox => inbox_of(fs),
        Target::Fence(id) => if routable(fs, id) {
            Some(id)
        } else {
            inbox_of(fs)
        },
    }
}

/// Where a decision sends an item, and in whose name.
pub open spec fn target_of(fs: Seq<FenceModel>, d: Decision) -> Option<(FenceId, AssignedBy)> {
    let (id, by) = match d {
        Decision::Skip => (None, AssignedBy::Migration),
        Decision::Route { target, rule } => (target_id(fs, target), AssignedBy::Rule(rule)),
        Decision::Default(target) => (target_id(fs, target), AssignedBy::Migration),
    };
    match id {
        Some(f) => Some((f, by)),
        None => None,
    }
}

/// What is decided for a new entry: what the rules say, while they run by themselves. A shell
/// namespace item always goes to the inbox, and so does everything while they do not.
pub open spec fn route_of(keep_updated: bool, e: DesktopEntry) -> Decision {
    if e.origin == Origin::Namespace || !keep_updated {
        Decision::Default(Target::Inbox)
    } else {
        e.ruling
    }
}

// ---- the part of the state that filing changes --------------------------------------------

/// The items, the catalog, the fences of the layout in use, the undo log, and whether there is
/// something to save.
pub struct FilesModel {
    pub items: Map<ItemId, Item>,
    pub catalog: Map<(bool, Seq<char>), ItemId>,
    pub fences: Seq<FenceModel>,
    pub undo_log: Seq<Assignment>,
    pub dirty: bool,
}

pub open spec fn files(s: AppState) -> FilesModel {
    FilesModel {
        items: s.config.items@,
        catalog: s.catalog@,
        fences: fences(s),
        undo_log: s.config.undo_log@,
        dirty: s.dirty,
    }
}

/// The two states differ at most in what filing changes.
pub open spec fn same_but_files(a: AppState, b: AppState) -> bool {
    &&& a.config.schema_version == b.config.schema_version
    &&& a.config.settings == b.config.settings
    &&& a.config.rules == b.config.rules
    &&& a.config.snapshots == b.config.snapshots
    &&& a.config.layouts.len() == b.config.layouts.len()
    &&& forall|l: int|
        0 <= l < a.config.layouts.len() && l != a.layout ==> #[trigger] a.config.layouts@[l]
            == b.config.layouts@[l]
    &&& a.config.layouts@[a.layout as int].fingerprint@
        == b.config.layouts@[a.layout as int].fingerprint@
    &&& a.store == b.store
    &&& a.layout == b.layout
    &&& a.portal_items == b.portal_items
    &&& a.portal_members == b.portal_members
    &&& a.portal_cwd == b.portal_cwd
    &&& a.work_areas == b.work_areas
    &&& a.first_run == b.first_run
    &&& a.recovered_from == b.recovered_from
}

/// The fences and the undo log once the item was sent to a target at `ts`.
pub open spec fn sent(
    a: FilesModel,
    item: ItemId,
    target: Option<(FenceId, AssignedBy)>,
    ts: i64,
) -> FilesModel {
    match target {
        Some((to, by)) => if can_file(a.fences, item, to) {
            FilesModel {
                fences: with_item(a.fences, item, to, by),
                undo_log: if rule_of(by) is Some {
                    recent(
                        a.undo_log.push(
                            Assignment {
                                ts,
                                item_id: item,
                                from: fence_of(a.fences, item),
                                to,
                                rule_id: rule_of(by),
                            },
                        ),
                    )
                } else {
                    a.undo_log
                },
                ..a
            }
        } else {
            a
        },
        None => a,
    }
}

impl AppState {
    /// The first inbox of the layout in use.
    pub fn inbox_id(&self) -> (r: Option<FenceId>)
        requires
            in_use(*self),
        ensures
            r == inbox_of(fences(*self)),
    {
        let all = &self.config.layouts[self.layout].fences;
        let ghost fs = fence_models(all@);
        let n: usize = all.len();
        for i in 0..n
            invariant
                n == all.len(),
                fs == fence_models(all@),
                fs == fences(*self),
                forall|j: int| 0 <= j < i ==> (#[trigger] fs[j]).kind != FenceKind::Inbox,
        {
            assert(fs[i as int] == all@[i as int]@);
            if all[i].kind == FenceKind::Inbox {
                proof {
                    assert(is_inbox(fs, i as int));
                    let k = inbox_at(fs);
                    assert(is_inbox(fs, k));
                    assert(k == i);
                }
                return Some(all[i].id);
            }
        }
        None
    }

    /// `id` where it is a fence that can hold filed items.
    pub fn routable_fence(&self, id: FenceId) -> (r: Option<FenceId>)
        requires
            in_use(*self),
        ensures
            r == if routable(fences(*self), id) {
                Some(id)
            } else {
                None
            },
    {
        match self.fence(id) {
            Some(f) => {
                proof {
                    lemma_first_index(fences(*self), id);
                }
                if f.kind != FenceKind::FolderPortal {
                    Some(f.id)
                } else {
                    None
                }
            },
            None => None,
        }
    }

    fn target_id(&self, t: Target) -> (r: Option<FenceId>)
        requires
            in_use(*self),
        ensures
            r == target_id(fences(*self), t),
    {
        match t {
            Target::Inbox => self.inbox_id(),
            Target::Fence(id) => if self.routable_fence(id).is_some() {
                Some(id)
            } else {
                self.inbox_id()
            },
        }
    }

    /// Where a decision sends an item, and in whose name.
    pub fn target_fence(&self, decision: Decision) -> (r: Option<(FenceId, AssignedBy)>)
        requires
            in_use(*self),
        ensures
            r == target_of(fences(*self), decision),
    {
        match decision {
            Decision::Skip => None,
            Decision::Route { target, rule } => match self.target_id(target) {
                Some(id) => Some((id, AssignedBy::Rule(rule))),
                None => None,
            },
            Decision::Default(target) => match self.target_id(target) {
                Some(id) => Some((id, AssignedBy::Migration)),
                None => None,
            },
        }
    }

    /// What is decided for a new entry.
    pub fn route_decision(&self, entry: &DesktopEntry) -> (r: Decision)
        ensures
            r == route_of(self.config.rules.keep_updated, *entry),
    {
        if entry.origin == Origin::Namespace || !self.config.rules.keep_updated {
            Decision::Default(Target::Inbox)
        } else {
            entry.ruling
        }
    }

    /// Sends the item to a target. Returns whether it was filed there.
    pub fn send_item(&mut self, item: ItemId, target: Option<(FenceId, AssignedBy)>) -> (r: bool)
        requires
            in_use(*old(self)),
        ensures
            exists|ts: i64| files(*final(self)) == #[trigger] sent(
                files(*old(self)),
                item,
                target,
                ts,
            ),
            r == (target matches Some((to, _)) && can_file(fences(*old(self)), item, to)),
            same_but_files(*final(self), *old(self)),
    {
        match target {
            Some((to, by)) => {
                let layout: usize = self.layout;
                let ghost before = files(*self);
                let a = self.config.assign(layout, item, to, by);
                proof {
                    let ts = match a {
                        Some(x) => x.ts,
                        None => 0,
                    };
                    assert(files(*self) == sent(before, item, target, ts));
                }
                a.is_some()
            },
            None => {
                assert(files(*self) == sent(files(*self), item, target, 0));
                false
            },
        }
    }

    /// Moves items into a fence by hand. Items that do not exist stay out. Returns how many moved.
    /// Nothing can be moved into a portal.
    pub fn move_items(&mut self, items: &Vec<ItemId>, to: FenceId) -> (r: usize)
        requires
            in_use(*old(self)),
        ensures
            ({
                let done = moved(files(*old(self)), items@, to);
                let blocked = shows_folder(fences(*old(self)), to);
                &&& r == if blocked {
                    0
                } else {
                    done.1
                }
                &&& files(*final(self)) == if blocked {
                    files(*old(self))
                } else {
                    FilesModel { dirty: old(self).dirty || done.1 > 0, ..done.0 }
                }
            }),
            same_but_files(*final(self), *old(self)),
    {
        if self.is_portal(to) {
            return 0;
        }
        let ghost start = files(*self);
        let mut count: usize = 0;
        let n: usize = items.len();
        for k in 0..n
            invariant
                n == items.len(),
                in_use(*self),
                same_but_files(*self, *old(self)),
                count <= k,
                (files(*self), count as nat) == moved(start, items@.take(k as int), to),
                start == files(*old(self)),
                self.dirty == old(self).dirty,
        {
            proof {
                assert(items@.take(k + 1).drop_last() == items@.take(k as int));
            }
            let id: ItemId = items[k];
            if self.config.items.contains_key(&id) {
                let ghost before = *self;
                let layout: usize = self.layout;
                let a = self.config.assign(layout, id, to, AssignedBy::User);
                proof {
                    assert(files(*self) == sent(
                        files(before),
                        id,
                        Some((to, AssignedBy::User)),
                        0,
                    ));
                }
                if a.is_some() {
                    count = count + 1;
                }
            }
        }
        assert(items@.take(n as int) == items@);
        if count > 0 {
            self.dirty = true;
        }
        count
    }

    /// Whether the fence shows a folder.
    pub fn is_portal(&self, id: FenceId) -> (r: bool)
        requires
            in_use(*self),
        ensures
            r == shows_folder(fences(*self), id),
    {
        match self.fence(id) {
            Some(f) => {
                let folder = match &f.source {
                    crate::model::ItemSourceSpec::Folder { .. } => true,
                    crate::model::ItemSourceSpec::Desktop => false,
                };
                f.kind == FenceKind::FolderPortal && folder
            },
            None => false,
        }
    }
}

/// The fence is a portal with a folder.
pub open spec fn shows_folder(fs: Seq<FenceModel>, id: FenceId) -> bool {
    has_fence(fs, id) && fs[first_index(fs, id)].kind == FenceKind::FolderPortal && fs[first_index(
        fs,
        id,
    )].source is Folder
}

/// The files once each of `items` that exists was moved into fence `to`, one after the other, and
/// how many moved.
pub open spec fn moved(a: FilesModel, items: Seq<ItemId>, to: FenceId) -> (FilesModel, nat)
    decreases items.len(),
{
    if items.len() == 0 {
        (a, 0)
    } else {
        let (b, n) = moved(a, items.drop_last(), to);
        let id = items.last();
        if b.items.contains_key(id) && can_file(b.fences, id, to) {
            (sent(b, id, Some((to, AssignedBy::User)), 0), n + 1)
        } else {
            (b, n)
        }
    }
}

// ---- what filing does ---------------------------------------------------------------------

/// The days a file has been idle are the whole days since it was last changed or opened, none
/// where neither is known.
pub proof fn idle_days_count_from_the_last_use(mtime: int, last_opened: Option<i64>, now: int)
    ensures
        idle_days_of(mtime, last_opened, now) is Some <==> mtime > 0 || (last_opened is Some
            && last_opened->0 > 0),
        forall|d: int|
            idle_days_of(mtime, last_opened, now) == Some(d) ==> {
                &&& d >= 0
                &&& d > 0 ==> mtime <= now - d * 86_400
                &&& d > 0 && last_opened is Some ==> last_opened->0 <= now - d * 86_400
                &&& mtime > now - (d + 1) * 86_400 || (last_opened is Some && last_opened->0 > now - (
                d + 1) * 86_400)
            },
{
}

/// What a rule decides is filed by that rule, and what it does not name a usable fence for goes to
/// the inbox; what no rule decides goes to its default without a rule, and what is skipped
/// nowhere.
pub proof fn items_go_where_they_are_routed(
    fs: Seq<FenceModel>,
    target: Target,
    rule: RuleId,
    goal: FenceId,
)
    requires
        match target {
            Target::Fence(t) => exists|i: int| #[trigger]
                is_first(fs, t, i) && fs[i].kind != FenceKind::FolderPortal && goal == t,
            Target::Inbox => false,
        } || ((target is Fence ==> forall|i: int| #[trigger]
            is_first(fs, target->0, i) ==> fs[i].kind == FenceKind::FolderPortal) && exists|i: int|
            0 <= i < fs.len() && (#[trigger] fs[i]).kind == FenceKind::Inbox && fs[i].id == goal && (
            forall|j: int| 0 <= j < i ==> (#[trigger] fs[j]).kind != FenceKind::Inbox)),
    ensures
        target_of(fs, Decision::Route { target, rule }) == Some((goal, AssignedBy::Rule(rule))),
        target_of(fs, Decision::Default(target)) == Some((goal, AssignedBy::Migration)),
        target_of(fs, Decision::Skip) is None,
{
    if let Target::Fence(t) = target {
        if has_fence(fs, t) {
            lemma_first_index(fs, t);
        }
        if exists|i: int| #[trigger]
            is_first(fs, t, i) && fs[i].kind != FenceKind::FolderPortal && goal == t {
            let i = choose|i: int| #[trigger]
                is_first(fs, t, i) && fs[i].kind != FenceKind::FolderPortal && goal == t;
            let f = first_index(fs, t);
            assert(fs[i].id == t);
            if f < i {
                assert(fs[f].id != t);
            }
            if i < f {
                assert(fs[i].id != t);
            }
        }
    }
    if exists|i: int|
        0 <= i < fs.len() && (#[trigger] fs[i]).kind == FenceKind::Inbox && fs[i].id == goal && (
        forall|j: int| 0 <= j < i ==> (#[trigger] fs[j]).kind != FenceKind::Inbox) {
        let i = choose|i: int|
            0 <= i < fs.len() && (#[trigger] fs[i]).kind == FenceKind::Inbox && fs[i].id == goal && (
            forall|j: int| 0 <= j < i ==> (#[trigger] fs[j]).kind != FenceKind::Inbox);
        assert(is_inbox(fs, i));
        let k = inbox_at(fs);
        assert(is_inbox(fs, k));
        if k < i {
            assert(fs[k].kind != FenceKind::Inbox);
        }
        if i < k {
            assert(fs[i].kind != FenceKind::Inbox);
        }
    }
}

/// Without an inbox nothing falls back to one.
pub proof fn without_an_inbox_only_named_fences_take_items(fs: Seq<FenceModel>, d: Decision)
    requires
        forall|j: int| 0 <= j < fs.len() ==> (#[trigger] fs[j]).kind != FenceKind::Inbox,
    ensures
        target_of(fs, d) matches Some((id, _)) ==> has_fence(fs, id) && (d == Decision::Default(
            Target::Fence(id),
        ) || exists|rule: RuleId| d == (Decision::Route { target: Target::Fence(id), rule })),
{
    if let Some((id, by)) = target_of(fs, d) {
        if let Decision::Route { target, rule } = d {
            assert(d == (Decision::Route { target: Target::Fence(id), rule }));
        }
    }
}

/// A new file is filed by the rules where those are kept up to date; what is no file, and every
/// file otherwise, goes to the inbox.
pub proof fn new_files_are_filed_by_the_rules(keep_updated: bool, e: DesktopEntry)
    ensures
        keep_updated && !(e.origin is Namespace) ==> route_of(keep_updated, e) == e.ruling,
        e.origin is Namespace ==> route_of(keep_updated, e) == Decision::Default(Target::Inbox),
        !keep_updated ==> route_of(keep_updated, e) == Decision::Default(Target::Inbox),
{
}

/// What a rule files is logged, with where it came from and where it went; what the user or the
/// program files is not, and neither is what stays where it is.
pub proof fn what_rules_file_is_logged(
    a: FilesModel,
    item: ItemId,
    to: FenceId,
    by: AssignedBy,
    ts: i64,
)
    ensures
        ({
            let b = sent(a, item, Some((to, by)), ts);
            &&& b.undo_log != a.undo_log ==> by is Rule && fence_of(a.fences, item) != Some(to)
            &&& by is Rule && can_file(a.fences, item, to) ==> b.undo_log.len() > 0
                && b.undo_log.last() == (Assignment {
                ts,
                item_id: item,
                from: fence_of(a.fences, item),
                to,
                rule_id: Some(by->0),
            })
            &&& by is Rule && can_file(a.fences, item, to) && a.undo_log.len() < 50
                ==> b.undo_log.drop_last() == a.undo_log
            &&& by is Rule && can_file(a.fences, item, to) && a.undo_log.len() == 50
                ==> b.undo_log.drop_last() == a.undo_log.skip(1)
            &&& fence_of(a.fences, item) == Some(to) ==> b == a
            &&& b.dirty == a.dirty
        }),
        sent(a, item, None, ts) == a,
{
}

proof fn lemma_moved(a: FilesModel, items: Seq<ItemId>, to: FenceId, x: ItemId)
    requires
        has_fence(a.fences, to),
        a.fences[first_index(a.fences, to)].content is Files,
    ensures
        ({
            let b = moved(a, items, to).0;
            &&& same_frames(a.fences, b.fences)
            &&& b.items == a.items
            &&& b.catalog == a.catalog
            &&& b.undo_log == a.undo_log
            &&& b.dirty == a.dirty
            &&& moved(a, items, to).1 == 0 ==> b == a
            &&& fence_of(b.fences, x) == if items.contains(x) && a.items.contains_key(x) {
                Some(to)
            } else {
                fence_of(a.fences, x)
            }
            &&& items.contains(x) && a.items.contains_key(x) && fence_of(a.fences, x) != Some(to)
                ==> pinned(b.fences, x)
            &&& !items.contains(x) ==> pinned(b.fences, x) == pinned(a.fences, x)
        }),
    decreases items.len(),
{
    if items.len() > 0 {
        let front = items.drop_last();
        let id = items.last();
        let mid = moved(a, front, to).0;
        lemma_moved(a, front, to, x);
        lemma_same_ids(mid.fences, a.fences, to);
        lemma_first_index(a.fences, to);
        assert(mid.fences[first_index(a.fences, to)].content
            == a.fences[first_index(a.fences, to)].content);
        assert(items == front.push(id));
        assert(items.contains(x) <==> front.contains(x) || x == id) by {
            if front.contains(x) {
                assert(items[front.index_of(x)] == x);
            }
            if x == id {
                assert(items[front.len() as int] == x);
            }
            if items.contains(x) && x != id {
                assert(front[items.index_of(x)] == x);
            }
        }
        if mid.items.contains_key(id) && can_file(mid.fences, id, to) {
            lemma_sent(mid, id, Some((to, AssignedBy::User)), 0, x);
            let t = first_index(mid.fences, to);
            a_filed_item_comes_last(mid.fences, id, to, AssignedBy::User, t);
            filed_item_is_in_one_fence(mid.fences, id, to, AssignedBy::User);
            let gs = with_item(mid.fences, id, to, AssignedBy::User);
            let k = gs[t].items.len() - 1;
            assert(gs[t].items[k].item_id == id && gs[t].items[k].assigned_by == AssignedBy::User);
            assert(placed_by_user(gs[t], id));
            assert(holds(gs[t], id));
            assert forall|j: int| 0 <= j < t implies !holds(#[trigger] gs[j], id) by {}
            assert(is_holder(gs, id, t));
        }
    }
}

/// What the user moves to a fence of files is in it afterwards, and stays where the rules would
/// have it elsewhere; what they do not move, or what is no item, stays where it was.
pub proof fn the_user_moves_what_they_name(a: FilesModel, items: Seq<ItemId>, to: FenceId, x: ItemId)
    requires
        has_fence(a.fences, to),
        a.fences[first_index(a.fences, to)].content is Files,
    ensures
        items.contains(x) && a.items.contains_key(x) ==> fence_of(moved(a, items, to).0.fences, x)
            == Some(to),
        items.contains(x) && a.items.contains_key(x) && fence_of(a.fences, x) != Some(to) ==> pinned(
            moved(a, items, to).0.fences,
            x,
        ),
        !(items.contains(x) && a.items.contains_key(x)) ==> fence_of(
            moved(a, items, to).0.fences,
            x,
        ) == fence_of(a.fences, x),
        moved(a, items, to).0.items == a.items,
        moved(a, items, to).0.undo_log == a.undo_log,
        moved(a, items, to).1 == 0 ==> moved(a, items, to).0 == a,
{
    lemma_moved(a, items, to, x);
}

/// A portal that shows a folder is a fence of that kind with a folder as its source.
pub proof fn only_portals_show_folders(fs: Seq<FenceModel>, id: FenceId, i: int)
    requires
        is_first(fs, id, i),
    ensures
        shows_folder(fs, id) <==> fs[i].kind is FolderPortal && fs[i].source is Folder,
{
    assert(fs[i].id == id);
    lemma_first_index(fs, id);
    let f = first_index(fs, id);
    if f < i {
        assert(fs[f].id != id);
    }
    if i < f {
        assert(fs[i].id != id);
    }
}

/// Where only files were handled, the settings, the rules, the snapshots, the other layouts and the
/// portals are as they were.
pub proof fn handling_files_leaves_the_rest(a: AppState, b: AppState, l: int)
    requires
        same_but_files(a, b),
        0 <= l < b.config.layouts.len(),
        l != a.layout,
    ensures
        a.config.settings == b.config.settings && a.config.rules == b.config.rules
            && a.config.snapshots == b.config.snapshots && a.config.schema_version
            == b.config.schema_version,
        a.config.layouts.len() == b.config.layouts.len() && a.config.layouts@[l] == b.config.layouts@[l],
        a.layout == b.layout && a.store == b.store && a.work_areas == b.work_areas,
        a.portal_items == b.portal_items && a.portal_members == b.portal_members && a.portal_cwd
            == b.portal_cwd,
        a.first_run == b.first_run && a.recovered_from == b.recovered_from,
{
}

/// The number of items that moved is that of the items among those named which exist and were not
/// in the fence already.
pub proof fn moved_items_are_counted_once(a: FilesModel, items: Seq<ItemId>, to: FenceId)
    requires
        has_fence(a.fences, to),
        a.fences[first_index(a.fences, to)].content is Files,
        items.no_duplicates(),
    ensures
        moved(a, items, to).1 == items.filter(
            |x: ItemId| a.items.contains_key(x) && fence_of(a.fences, x) != Some(to),
        ).len(),
    decreases items.len(),
{
    reveal(Seq::filter);
    if items.len() > 0 {
        let front = items.drop_last();
        let id = items.last();
        moved_items_are_counted_once(a, front, to);
        if front.contains(id) {
            assert(items[front.index_of(id)] == items[items.len() - 1]);
        }
        lemma_moved(a, front, to, id);
        let mid = moved(a, front, to).0;
        lemma_same_ids(mid.fences, a.fences, to);
        lemma_first_index(a.fences, to);
        assert(mid.fences[first_index(a.fences, to)].content
            == a.fences[first_index(a.fences, to)].content);
    }
}

/// Moving items by hand puts those that exist into the fence, tells how many moved, and does
/// nothing where the fence shows a folder.
pub proof fn moving_by_hand_files_the_items(
    s: &mut AppState,
    items: &Vec<ItemId>,
    to: FenceId,
    r: usize,
    x: ItemId,
)
    requires
        call_ensures(AppState::move_items, (s, items, to), r),
        has_fence(fences(*old(s)), to),
        fences(*old(s))[first_index(fences(*old(s)), to)].content is Files,
    ensures
        shows_folder(fences(*old(s)), to) ==> r == 0 && files(*final(s)) == files(*old(s)),
        !shows_folder(fences(*old(s)), to) && items@.contains(x) && old(s).config.items@.contains_key(x)
            ==> fence_of(fences(*final(s)), x) == Some(to),
        !items@.contains(x) ==> fence_of(fences(*final(s)), x) == fence_of(fences(*old(s)), x),
        r > 0 ==> final(s).dirty,
        r == 0 ==> files(*final(s)) == files(*old(s)),
{
    lemma_moved(files(*old(s)), items@, to, x);
}

} // verus!
