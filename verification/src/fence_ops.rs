//! Making and deleting fences.

use crate::clock::is_random_id;
use crate::config::{
    a_filed_item_comes_last, can_file, fence_of, filed_item_is_in_one_fence, filing_keeps_other_items,
    with_item,
};
use crate::filing::{files, inbox_at, inbox_of, is_inbox, routable, same_but_files, FilesModel};
use crate::model::{
    AssignedBy, Fence, FenceContentSpec, FenceId, FenceKind, FenceModel, FenceView, ItemId, ItemRef,
    ItemSourceSpec, NormGeometry, Rule, RuleSet, SortMode, Target, default_fence_view,
};
use crate::portals::{dropped, members_of};
use crate::rules::{has_idle, has_idle_cond, same_frames};
use crate::state::{at, fences, in_use, same_but_fences, AppState};
use crate::tab_repair::{lemma_same_ids, repaired};

use crate::tabs::{distinct_ids, first_index, has_fence, lemma_first_index, position};
use vstd::prelude::*;

verus! {

// ---- new fences ---------------------------------------------------------------------------

/// A new virtual fence with this title and frame, and icons of this size.
pub open spec fn new_fence_model(
    id: FenceId,
    title: Seq<char>,
    geometry: NormGeometry,
    icon_size: u32,
) -> FenceModel {
    FenceModel {
        id,
        title,
        kind: FenceKind::Virtual,
        source: ItemSourceSpec::Desktop,
        content: FenceContentSpec::Files { source: ItemSourceSpec::Desktop },
        geometry: geometry@,
        rolled_up: false,
        expanded_h: geometry.h,
        view: FenceView { icon_size, ..default_fence_view() },
        appearance: None,
        exclude_from_quick_hide: false,
        locked: false,
        tab_host: None,
        active_tab: None,
        tab_order: Seq::empty(),
        portal_navigate: true,
        hide_title_icon: false,
        items: Seq::empty(),
    }
}

/// The fences of the layout that is set up first: three virtual ones, then the inbox, with these
/// titles and frames and icons of this size.
pub fn default_fences(titles: [&str; 4], frames: [NormGeometry; 4], icon_size: u32) -> (r: Vec<Fence>)
    ensures
        r.len() == 4,
        forall|i: int|
            0 <= i < 4 ==> {
                let f = #[trigger] r@[i];
                &&& is_random_id(f.id)
                &&& f@ == (FenceModel {
                    kind: if i == 3 {
                        FenceKind::Inbox
                    } else {
                        FenceKind::Virtual
                    },
                    ..new_fence_model(f.id, titles@[i]@, frames@[i], icon_size)
                })
            },
{
    let mut out: Vec<Fence> = Vec::new();
    for i in 0..4usize
        invariant
            out.len() == i,
            forall|j: int|
                0 <= j < i ==> {
                    let f = #[trigger] out@[j];
                    &&& is_random_id(f.id)
                    &&& f@ == (FenceModel {
                        kind: if j == 3 {
                            FenceKind::Inbox
                        } else {
                            FenceKind::Virtual
                        },
                        ..new_fence_model(f.id, titles@[j]@, frames@[j], icon_size)
                    })
                },
    {
        let kind = if i == 3 {
            FenceKind::Inbox
        } else {
            FenceKind::Virtual
        };
        let mut f = Fence::new(titles[i], kind, frames[i].clone());
        f.view.icon_size = icon_size;
        out.push(f);
    }
    out
}

/// The layout that is set up first has exactly one inbox, the last of its four fences.
pub proof fn default_layout_has_one_inbox(fs: Seq<FenceModel>)
    requires
        fs.len() == 4,
        forall|i: int| 0 <= i < 4 ==> ((#[trigger] fs[i]).kind == FenceKind::Inbox <==> i == 3),
    ensures
        crate::validate::inboxes(fs) == 1,
        inbox_of(fs) == Some(fs[3].id),
{
    let s3 = fs.drop_last();
    let s2 = s3.drop_last();
    let s1 = s2.drop_last();
    let s0 = s1.drop_last();
    assert(fs.last() == fs[3] && s3.last() == fs[2] && s2.last() == fs[1] && s1.last() == fs[0]);
    assert(s0.len() == 0);
    reveal_with_fuel(crate::validate::inboxes, 5);
    assert(crate::filing::is_inbox(fs, 3));
    let k = crate::filing::inbox_at(fs);
    assert(crate::filing::is_inbox(fs, k));
}

/// The two states differ at most in the fences of the layout in use, in the rules, and in whether
/// there is something to save.
pub open spec fn same_but_rules(a: AppState, b: AppState) -> bool {
    &&& a.config.schema_version == b.config.schema_version
    &&& a.config.settings == b.config.settings
    &&& a.config.items == b.config.items
    &&& a.config.snapshots == b.config.snapshots
    &&& a.config.undo_log == b.config.undo_log
    &&& a.config.layouts.len() == b.config.layouts.len()
    &&& forall|l: int|
        0 <= l < a.config.layouts.len() && l != a.layout ==> #[trigger] a.config.layouts@[l]
            == b.config.layouts@[l]
    &&& a.config.layouts@[a.layout as int].fingerprint@
        == b.config.layouts@[a.layout as int].fingerprint@
    &&& a.store == b.store
    &&& a.layout == b.layout
    &&& a.catalog == b.catalog
    &&& a.portal_items == b.portal_items
    &&& a.portal_members == b.portal_members
    &&& a.portal_cwd == b.portal_cwd
    &&& a.work_areas == b.work_areas
    &&& a.first_run == b.first_run
    &&& a.recovered_from == b.recovered_from
}

impl AppState {
    /// Adds a virtual fence, where there is a frame for it. Returns its id.
    pub fn new_fence(&mut self, title: &str, frame: Option<NormGeometry>) -> (r: Option<FenceId>)
        requires
            in_use(*old(self)),
        ensures
            r is Some <==> frame is Some,
            r matches Some(id) ==> {
                &&& is_random_id(id)
                &&& fences(*final(self)) == fences(*old(self)).push(
                    new_fence_model(
                        id,
                        title@,
                        frame->0,
                        old(self).config.settings.icon_size,
                    ),
                )
                &&& final(self).dirty
                &&& same_but_fences(*final(self), *old(self))
            },
            r is None ==> *final(self) == *old(self),
    {
        match frame {
            None => None,
            Some(g) => {
                let ghost fs = fences(*self);
                let mut f = Fence::new(title, FenceKind::Virtual, g);
                f.view.icon_size = self.config.settings.icon_size;
                let id: FenceId = f.id;
                let ghost m = f@;
                let layout: usize = self.layout;
                self.config.layouts[layout].fences.push(f);
                self.dirty = true;
                assert(fences(*self) =~= fs.push(m));
                Some(id)
            },
        }
    }

    /// Adds a portal for a folder, sorted by name, where there is a frame for it. Returns its id.
    pub fn new_portal_fence(
        &mut self,
        folder: &str,
        title: &str,
        frame: Option<NormGeometry>,
    ) -> (r: Option<FenceId>)
        requires
            in_use(*old(self)),
        ensures
            r is Some <==> frame is Some,
            r matches Some(id) ==> {
                let f = fences(*final(self)).last();
                let base = new_fence_model(
                    id,
                    title@,
                    frame->0,
                    old(self).config.settings.icon_size,
                );
                &&& is_random_id(id)
                &&& fences(*final(self)) == fences(*old(self)).push(f)
                &&& f.source matches ItemSourceSpec::Folder { path, recursive: false, filter: None }
                &&& path@ == folder@
                &&& f == (FenceModel {
                    kind: FenceKind::FolderPortal,
                    source: f.source,
                    content: FenceContentSpec::Files { source: f.source },
                    view: FenceView { sort: SortMode::Name, ..base.view },
                    ..base
                })
                &&& final(self).dirty
                &&& same_but_fences(*final(self), *old(self))
            },
            r is None ==> *final(self) == *old(self),
    {
        match frame {
            None => None,
            Some(g) => {
                let ghost fs = fences(*self);
                let mut f = Fence::new(title, FenceKind::Virtual, g);
                f.view.icon_size = self.config.settings.icon_size;
                f.kind = FenceKind::FolderPortal;
                f.set_file_source(
                    ItemSourceSpec::Folder {
                        path: folder.to_owned(),
                        recursive: false,
                        filter: None,
                    },
                );
                f.view.sort = SortMode::Name;
                let id: FenceId = f.id;
                let ghost m = f@;
                let layout: usize = self.layout;
                self.config.layouts[layout].fences.push(f);
                self.dirty = true;
                assert(fences(*self) =~= fs.push(m));
                Some(id)
            },
        }
    }
}

// ---- templates ----------------------------------------------------------------------------

/// Rule `i` is the first one that was made from the template.
pub open spec fn is_from_template(list: Seq<Rule>, key: Seq<char>, i: int) -> bool {
    &&& 0 <= i < list.len()
    &&& list[i].template matches Some(t)
    &&& t@ == key
    &&& forall|j: int|
        0 <= j < i ==> match (#[trigger] list[j]).template {
            Some(t) => t@ != key,
            None => true,
        }
}

/// The rules at the front that depend on the clock.
pub open spec fn leading_idle(list: Seq<Rule>) -> nat
    decreases list.len(),
{
    if list.len() > 0 && has_idle(list[0]) {
        1 + leading_idle(list.skip(1))
    } else {
        0
    }
}

/// Where a new rule goes: ahead of the others, so that it wins over broader ones, but behind
/// those that depend on the clock unless it does so too.
pub open spec fn rule_place(list: Seq<Rule>, rule: Rule) -> int {
    if has_idle(rule) {
        0
    } else {
        leading_idle(list) as int
    }
}

fn find_template(list: &Vec<Rule>, key: &str) -> (r: Option<usize>)
    ensures
        match r {
            Some(i) => is_from_template(list@, key@, i as int),
            None => forall|i: int| !is_from_template(list@, key@, i),
        },
{
    let wanted = key.to_owned();
    let n: usize = list.len();
    for i in 0..n
        invariant
            n == list.len(),
            wanted@ == key@,
            forall|j: int|
                0 <= j < i ==> match (#[trigger] list@[j]).template {
                    Some(t) => t@ != key@,
                    None => true,
                },
    {
        if let Some(t) = &list[i].template {
            if *t == wanted {
                return Some(i);
            }
        }
    }
    None
}

fn place_of(list: &Vec<Rule>, rule: &Rule) -> (r: usize)
    ensures
        r == rule_place(list@, *rule),
        r <= list.len(),
{
    if has_idle_cond(rule) {
        return 0;
    }
    let mut i: usize = 0;
    assert(list@.skip(0) == list@);
    while i < list.len() && has_idle_cond(&list[i])
        invariant
            i <= list.len(),
            i + leading_idle(list@.skip(i as int)) == leading_idle(list@),
        decreases list.len() - i,
    {
        assert(list@.skip(i as int).skip(1) == list@.skip(i + 1));
        i = i + 1;
    }
    i
}

impl AppState {
    /// Adds a fence and a rule that files into it, made from a template. Where the template was
    /// added before, the error is the fence that its rule points to, if that can hold items. With
    /// no frame for the fence the error is none.
    pub fn add_template(
        &mut self,
        key: &str,
        title: &str,
        frame: Option<NormGeometry>,
        rule: Rule,
    ) -> (r: Result<FenceId, Option<FenceId>>)
        requires
            in_use(*old(self)),
        ensures
            ({
                let list = old(self).config.rules.list@;
                let fs = fences(*old(self));
                match r {
                    Err(existing) => {
                        &&& *final(self) == *old(self)
                        &&& if exists|i: int| is_from_template(list, key@, i) {
                            exists|i: int| #[trigger]
                                is_from_template(list, key@, i) && existing == match list[i].target {
                                    Target::Inbox => inbox_of(fs),
                                    Target::Fence(id) => if routable(fs, id) {
                                        Some(id)
                                    } else {
                                        None
                                    },
                                }
                        } else {
                            frame is None && existing is None
                        }
                    },
                    Ok(id) => {
                        let made = Rule { target: Target::Fence(id), ..rule };
                        &&& frame is Some
                        &&& forall|i: int| !is_from_template(list, key@, i)
                        &&& is_random_id(id)
                        &&& fences(*final(self)) == fs.push(
                            new_fence_model(
                                id,
                                title@,
                                frame->0,
                                old(self).config.settings.icon_size,
                            ),
                        )
                        &&& final(self).config.rules.list@ == list.insert(
                            rule_place(list, made),
                            made,
                        )
                        &&& final(self).config.rules.keep_updated
                            == old(self).config.rules.keep_updated
                        &&& final(self).dirty
                        &&& same_but_rules(*final(self), *old(self))
                    },
                }
            }),
    {
        if let Some(i) = find_template(&self.config.rules.list, key) {
            let existing = match self.config.rules.list[i].target {
                Target::Fence(id) => self.routable_fence(id),
                Target::Inbox => self.inbox_id(),
            };
            return Err(existing);
        }
        let id: FenceId = match self.new_fence(title, frame) {
            Some(id) => id,
            None => {
                return Err(None);
            },
        };
        let mut made = rule;
        made.target = Target::Fence(id);
        let at: usize = place_of(&self.config.rules.list, &made);
        self.config.rules.list.insert(at, made);
        self.dirty = true;
        Ok(id)
    }
}

proof fn lemma_leading(list: Seq<Rule>)
    ensures
        leading_idle(list) <= list.len(),
        forall|j: int| 0 <= j < leading_idle(list) ==> has_idle(#[trigger] list[j]),
        leading_idle(list) < list.len() ==> !has_idle(list[leading_idle(list) as int]),
    decreases list.len(),
{
    if list.len() > 0 && has_idle(list[0]) {
        lemma_leading(list.skip(1));
        assert forall|j: int| 0 <= j < leading_idle(list) implies has_idle(#[trigger] list[j]) by {
            if j > 0 {
                assert(list.skip(1)[j - 1] == list[j]);
            }
        }
        if leading_idle(list) < list.len() {
            assert(list.skip(1)[leading_idle(list.skip(1)) as int] == list[leading_idle(
                list,
            ) as int]);
        }
    }
}

/// A rule that depends on the clock stays ahead of every other one that a template adds, so that
/// the broader rule never takes its items first.
pub proof fn idle_rules_stay_ahead(list: Seq<Rule>, rule: Rule)
    requires
        !has_idle(rule),
    ensures
        0 <= rule_place(list, rule) <= list.len(),
        forall|j: int| 0 <= j < rule_place(list, rule) ==> has_idle(#[trigger] list[j]),
        rule_place(list, rule) < list.len() ==> !has_idle(list[rule_place(list, rule)]),
{
    lemma_leading(list);
}

// ---- deleting -----------------------------------------------------------------------------

/// The fences once the items of a deleted one went to the inbox, one after the other.
pub open spec fn returned(fs: Seq<FenceModel>, refs: Seq<ItemRef>, inbox: FenceId) -> Seq<FenceModel>
    decreases refs.len(),
{
    if refs.len() == 0 {
        fs
    } else {
        let gs = returned(fs, refs.drop_last(), inbox);
        let item = refs.last().item_id;
        if can_file(gs, item, inbox) {
            with_item(gs, item, inbox, AssignedBy::Migration)
        } else {
            gs
        }
    }
}

/// The rules that do not file into the fence.
pub open spec fn rules_without(list: Seq<Rule>, id: FenceId) -> Seq<Rule>
    decreases list.len(),
{
    if list.len() == 0 {
        Seq::empty()
    } else {
        let rest = rules_without(list.drop_last(), id);
        if list.last().target != Target::Fence(id) {
            rest.push(list.last())
        } else {
            rest
        }
    }
}

/// The fence can be deleted: it exists, and there is an inbox, which it is not.
pub open spec fn can_delete(fs: Seq<FenceModel>, id: FenceId) -> bool {
    inbox_of(fs) is Some && inbox_of(fs) != Some(id) && has_fence(fs, id)
}

/// The fences once `id` was deleted and its items went to the inbox, before repair.
pub open spec fn after_delete(fs: Seq<FenceModel>, id: FenceId) -> Seq<FenceModel> {
    let i = first_index(fs, id);
    returned(fs.remove(i), fs[i].items, inbox_of(fs)->0)
}

/// The two states have the same other layouts, the same monitors, and the same place and kind of
/// configuration.
pub open spec fn same_around(a: AppState, b: AppState) -> bool {
    &&& a.config.schema_version == b.config.schema_version
    &&& a.config.layouts.len() == b.config.layouts.len()
    &&& forall|l: int|
        0 <= l < a.config.layouts.len() && l != a.layout ==> #[trigger] a.config.layouts@[l]
            == b.config.layouts@[l]
    &&& a.config.layouts@[a.layout as int].fingerprint@
        == b.config.layouts@[a.layout as int].fingerprint@
    &&& a.store == b.store
    &&& a.work_areas == b.work_areas
    &&& a.first_run == b.first_run
    &&& a.recovered_from == b.recovered_from
}

/// `a` and `b` have the same ids and hosts.
spec fn same_links(a: Seq<FenceModel>, b: Seq<FenceModel>) -> bool {
    &&& a.len() == b.len()
    &&& forall|i: int|
        0 <= i < a.len() ==> (#[trigger] a[i]).id == b[i].id && a[i].tab_host == b[i].tab_host
}

proof fn lemma_returned_links(fs: Seq<FenceModel>, refs: Seq<ItemRef>, inbox: FenceId)
    ensures
        same_links(returned(fs, refs, inbox), fs),
    decreases refs.len(),
{
    if refs.len() > 0 {
        let gs = returned(fs, refs.drop_last(), inbox);
        lemma_returned_links(fs, refs.drop_last(), inbox);
        let item = refs.last().item_id;
        if can_file(gs, item, inbox) {
            lemma_first_index(gs, inbox);
            let hs = with_item(gs, item, inbox, AssignedBy::Migration);
            assert forall|i: int| 0 <= i < hs.len() implies (#[trigger] hs[i]).id == fs[i].id
                && hs[i].tab_host == fs[i].tab_host by {
                assert(gs[i].id == fs[i].id);
            }
        }
    }
}

fn drop_rules(rules: &mut RuleSet, id: FenceId)
    ensures
        final(rules).list@ == rules_without(old(rules).list@, id),
        final(rules).keep_updated == old(rules).keep_updated,
{
    let ghost all = rules.list@;
    let mut i: usize = 0;
    let ghost mut seen: int = 0;
    assert(all.skip(0) == all);
    while i < rules.list.len()
        invariant
            0 <= seen <= all.len(),
            i <= rules.list.len(),
            rules.keep_updated == old(rules).keep_updated,
            rules.list@ == rules_without(all.take(seen), id) + all.skip(seen),
            i == rules_without(all.take(seen), id).len(),
        decreases all.len() - seen,
    {
        proof {
            assert(all.skip(seen).len() > 0);
            assert(rules.list@[i as int] == all.skip(seen)[0]);
            assert(all.take(seen + 1).drop_last() == all.take(seen));
            assert(all.take(seen + 1).last() == all[seen]);
        }
        let ghost kept = rules_without(all.take(seen), id);
        if rules.list[i].target == Target::Fence(id) {
            rules.list.remove(i);
            assert(rules.list@ =~= kept + all.skip(seen + 1));
        } else {
            i = i + 1;
            assert(rules.list@ =~= kept.push(all[seen]) + all.skip(seen + 1));
        }
        proof {
            seen = seen + 1;
        }
    }
    assert(all.take(seen) == all);
    assert(rules.list@ =~= rules_without(all, id));
}

impl AppState {
    fn return_items(&mut self, refs: &Vec<ItemRef>, inbox: FenceId)
        requires
            in_use(*old(self)),
        ensures
            files(*final(self)) == (FilesModel {
                fences: returned(fences(*old(self)), refs@, inbox),
                ..files(*old(self))
            }),
            same_but_files(*final(self), *old(self)),
    {
        let ghost fs = fences(*self);
        let n: usize = refs.len();
        for k in 0..n
            invariant
                n == refs.len(),
                in_use(*self),
                fs == fences(*old(self)),
                same_but_files(*self, *old(self)),
                files(*self) == (FilesModel {
                    fences: returned(fs, refs@.take(k as int), inbox),
                    ..files(*old(self))
                }),
        {
            assert(refs@.take(k + 1).drop_last() == refs@.take(k as int));
            let layout: usize = self.layout;
            self.config.assign(layout, refs[k].item_id, inbox, AssignedBy::Migration);
        }
        assert(refs@.take(n as int) == refs@);
    }

    /// Deletes a fence. Its items go to the inbox, the rules that file into it are dropped, and
    /// its tabs become windows. The inbox itself cannot be deleted. Returns whether it was.
    pub fn delete_fence(&mut self, id: FenceId) -> (r: bool)
        requires
            in_use(*old(self)),
        ensures
            r == can_delete(fences(*old(self)), id),
            !r ==> *final(self) == *old(self),
            r ==> {
                let d = dropped(
                    old(self).portal_items@,
                    members_of(*old(self), id),
                    old(self).portal_members@.remove(id),
                );
                &&& fences(*final(self)) == repaired(after_delete(fences(*old(self)), id))
                &&& final(self).config.rules.list@ == rules_without(
                    old(self).config.rules.list@,
                    id,
                )
                &&& final(self).config.rules.keep_updated == old(self).config.rules.keep_updated
                &&& final(self).portal_cwd@ == old(self).portal_cwd@.remove(id)
                &&& final(self).portal_members@ == old(self).portal_members@.remove(id)
                &&& final(self).portal_items@ == d.0
                &&& final(self).config.items@ == old(self).config.items@
                &&& final(self).config.undo_log@ == old(self).config.undo_log@
                &&& final(self).config.settings == old(self).config.settings
                &&& final(self).config.snapshots == old(self).config.snapshots
                &&& final(self).catalog@ == old(self).catalog@
                &&& final(self).layout == old(self).layout
                &&& final(self).dirty
                &&& same_around(*final(self), *old(self))
            },
    {
        let inbox: FenceId = match self.inbox_id() {
            Some(i) => i,
            None => {
                return false;
            },
        };
        if inbox == id {
            return false;
        }
        let layout: usize = self.layout;
        let pos: usize = match position(&self.config.layouts[layout].fences, id) {
            Some(p) => p,
            None => {
                return false;
            },
        };
        let ghost fs = fences(*self);
        let removed = self.config.layouts[layout].fences.remove(pos);
        assert(fences(*self) =~= fs.remove(pos as int));
        assert(removed@ == fs[pos as int]);
        self.portal_cwd.remove(&id);
        self.evict_portal_members(id);
        self.return_items(&removed.items, inbox);
        drop_rules(&mut self.config.rules, id);
        assert(fences(*self) == after_delete(fs, id));
        self.normalize_tabs();
        self.dirty = true;
        assert(self.portal_cwd@ =~= old(self).portal_cwd@.remove(id));
        true
    }
}

/// A deleted fence is gone, and every other fence is still there.
pub proof fn deleting_keeps_the_other_fences(fs: Seq<FenceModel>, id: FenceId)
    requires
        distinct_ids(fs),
        can_delete(fs, id),
    ensures
        repaired(after_delete(fs, id)).len() == fs.len() - 1,
        !has_fence(repaired(after_delete(fs, id)), id),
        forall|x: FenceId| #[trigger]
            has_fence(fs, x) && x != id ==> has_fence(repaired(after_delete(fs, id)), x),
{
    let i = first_index(fs, id);
    lemma_first_index(fs, id);
    let gs = fs.remove(i);
    let hs = after_delete(fs, id);
    lemma_returned_links(gs, fs[i].items, inbox_of(fs)->0);
    assert forall|k: int| 0 <= k < hs.len() implies (#[trigger] hs[k]).id != id by {
        assert(hs[k].id == gs[k].id);
        let u = if k < i {
            k
        } else {
            k + 1
        };
        assert(gs[k] == fs[u]);
        if fs[u].id == id {
            assert(fs[u].id == fs[i].id);
        }
    }
    let rs = repaired(hs);
    assert forall|k: int| 0 <= k < rs.len() implies (#[trigger] rs[k]).id != id by {
        assert(hs[k].id != id);
    }
    assert forall|x: FenceId| #[trigger] has_fence(fs, x) && x != id implies has_fence(rs, x) by {
        let u = choose|u: int| 0 <= u < fs.len() && (#[trigger] fs[u]).id == x;
        let k = if u < i {
            u
        } else {
            u - 1
        };
        assert(gs[k] == fs[u]);
        assert(hs[k].id == x);
        assert(rs[k].id == x);
    }
}

/// A new fence is empty, open, no tab, shows the desktop, and takes its frame and its icon size
/// from what it is given.
pub proof fn a_new_fence_is_open_and_on_its_own(
    id: FenceId,
    title: Seq<char>,
    geometry: NormGeometry,
    icon_size: u32,
)
    ensures
        ({
            let f = new_fence_model(id, title, geometry, icon_size);
            &&& f.id == id && f.title == title && f.geometry == geometry@
            &&& f.items.len() == 0 && f.tab_order.len() == 0
            &&& f.tab_host is None && f.active_tab is None
            &&& f.kind is Virtual && f.source is Desktop && f.content is Files
            &&& !f.rolled_up && !f.locked && !f.exclude_from_quick_hide && !f.hide_title_icon
            &&& f.portal_navigate && f.appearance is None
            &&& f.view.icon_size == icon_size
        }),
{
}

/// A rule with a condition on idle days goes before all others; any other one goes behind the
/// rules of that kind that stand in front.
pub proof fn rules_on_idle_days_come_first(list: Seq<Rule>, rule: Rule)
    ensures
        (exists|c: int| 0 <= c < rule.all_of@.len() && (#[trigger] rule.all_of@[c]) is IdleDays)
            ==> rule_place(list, rule) == 0,
        (forall|c: int| 0 <= c < rule.all_of@.len() ==> !((#[trigger] rule.all_of@[c]) is IdleDays))
            ==> {
            let p = rule_place(list, rule);
            &&& 0 <= p <= list.len()
            &&& forall|j: int|
                0 <= j < p ==> exists|c: int|
                    0 <= c < (#[trigger] list[j]).all_of@.len() && (
                    #[trigger] list[j].all_of@[c]) is IdleDays
            &&& p < list.len() ==> forall|c: int|
                0 <= c < list[p].all_of@.len() ==> !((#[trigger] list[p].all_of@[c]) is IdleDays)
        },
{
    if !has_idle(rule) {
        idle_rules_stay_ahead(list, rule);
        let p = rule_place(list, rule);
        assert forall|j: int| 0 <= j < p implies exists|c: int|
            0 <= c < (#[trigger] list[j]).all_of@.len() && (#[trigger] list[j].all_of@[c]) is IdleDays by {
            assert(has_idle(list[j]));
        }
        if p < list.len() {
            assert(!has_idle(list[p]));
        }
    }
}

/// The rules that sent items to a deleted fence go with it, and no other rule does.
pub proof fn the_rules_of_a_deleted_fence_go_with_it(list: Seq<Rule>, id: FenceId)
    ensures
        rules_without(list, id) == list.filter(|r: Rule| r.target != Target::Fence(id)),
    decreases list.len(),
{
    reveal(Seq::filter);
    if list.len() > 0 {
        the_rules_of_a_deleted_fence_go_with_it(list.drop_last(), id);
    }
}

/// A fence can be deleted where it is there and there is an inbox that is not it.
pub proof fn the_inbox_is_not_deleted(fs: Seq<FenceModel>, id: FenceId, inbox: int)
    requires
        0 <= inbox < fs.len(),
        fs[inbox].kind == FenceKind::Inbox,
        forall|j: int| 0 <= j < inbox ==> (#[trigger] fs[j]).kind != FenceKind::Inbox,
    ensures
        can_delete(fs, id) <==> has_fence(fs, id) && fs[inbox].id != id,
{
    lemma_inbox(fs, inbox);
}

/// Where there is no inbox, nothing can be deleted.
pub proof fn without_an_inbox_nothing_is_deleted(fs: Seq<FenceModel>, id: FenceId)
    requires
        forall|j: int| 0 <= j < fs.len() ==> (#[trigger] fs[j]).kind != FenceKind::Inbox,
    ensures
        !can_delete(fs, id),
{
}

proof fn lemma_inbox(fs: Seq<FenceModel>, inbox: int)
    requires
        0 <= inbox < fs.len(),
        fs[inbox].kind == FenceKind::Inbox,
        forall|j: int| 0 <= j < inbox ==> (#[trigger] fs[j]).kind != FenceKind::Inbox,
    ensures
        inbox_of(fs) == Some(fs[inbox].id),
{
    assert(is_inbox(fs, inbox));
    let k = inbox_at(fs);
    assert(is_inbox(fs, k));
    if k < inbox {
        assert(fs[k].kind != FenceKind::Inbox);
    }
    if inbox < k {
        assert(fs[inbox].kind != FenceKind::Inbox);
    }
}

proof fn lemma_returned(fs: Seq<FenceModel>, refs: Seq<ItemRef>, inbox: FenceId, x: ItemId)
    requires
        has_fence(fs, inbox),
        fs[first_index(fs, inbox)].content is Files,
    ensures
        ({
            let gs = returned(fs, refs, inbox);
            &&& same_frames(fs, gs)
            &&& fence_of(gs, x) == if exists|k: int|
                0 <= k < refs.len() && (#[trigger] refs[k]).item_id == x {
                Some(inbox)
            } else {
                fence_of(fs, x)
            }
        }),
    decreases refs.len(),
{
    if refs.len() > 0 {
        let front = refs.drop_last();
        let item = refs.last().item_id;
        let gs = returned(fs, front, inbox);
        lemma_returned(fs, front, inbox, x);
        lemma_same_ids(gs, fs, inbox);
        lemma_first_index(fs, inbox);
        let t = first_index(fs, inbox);
        assert(fs[t].content == gs[t].content);
        if can_file(gs, item, inbox) {
            a_filed_item_comes_last(gs, item, inbox, AssignedBy::Migration, t);
            filed_item_is_in_one_fence(gs, item, inbox, AssignedBy::Migration);
            if item != x {
                filing_keeps_other_items(gs, item, inbox, AssignedBy::Migration, x);
            }
        }
        if exists|k: int| 0 <= k < refs.len() && (#[trigger] refs[k]).item_id == x {
            let k = choose|k: int| 0 <= k < refs.len() && (#[trigger] refs[k]).item_id == x;
            if k < front.len() {
                assert(front[k].item_id == x);
            }
        }
        if exists|k: int| 0 <= k < front.len() && (#[trigger] front[k]).item_id == x {
            let k = choose|k: int| 0 <= k < front.len() && (#[trigger] front[k]).item_id == x;
            assert(refs[k].item_id == x);
        }
        assert(refs[refs.len() - 1].item_id == item);
    }
}

/// What a deleted fence held goes to the inbox; every other item stays where it is.
pub proof fn the_items_of_a_deleted_fence_go_to_the_inbox(
    fs: Seq<FenceModel>,
    id: FenceId,
    gone: int,
    inbox: int,
    x: ItemId,
)
    requires
        distinct_ids(fs),
        0 <= gone < fs.len(),
        0 <= inbox < fs.len(),
        inbox != gone,
        fs[gone].id == id,
        fs[inbox].kind == FenceKind::Inbox,
        fs[inbox].content is Files,
        forall|j: int| 0 <= j < inbox ==> (#[trigger] fs[j]).kind != FenceKind::Inbox,
    ensures
        (exists|k: int| 0 <= k < fs[gone].items.len() && (#[trigger] fs[gone].items[k]).item_id == x)
            ==> fence_of(after_delete(fs, id), x) == Some(fs[inbox].id),
        (forall|k: int| 0 <= k < fs[gone].items.len() ==> (#[trigger] fs[gone].items[k]).item_id != x)
            ==> fence_of(after_delete(fs, id), x) == fence_of(fs.remove(gone), x),
{
    assert(has_fence(fs, id));
    lemma_first_index(fs, id);
    assert(fs[first_index(fs, id)].id == fs[gone].id);
    lemma_inbox(fs, inbox);
    let gs = fs.remove(gone);
    let t = if inbox < gone {
        inbox
    } else {
        inbox - 1
    };
    assert(gs[t] == fs[inbox]);
    assert(has_fence(gs, fs[inbox].id));
    lemma_first_index(gs, fs[inbox].id);
    let f = first_index(gs, fs[inbox].id);
    let u = if f < gone {
        f
    } else {
        f + 1
    };
    assert(gs[f] == fs[u]);
    assert(fs[u].id == fs[inbox].id);
    lemma_returned(gs, fs[gone].items, fs[inbox].id, x);
}

/// A new fence is put behind the others, which stay as they are; without a place for it there is
/// none.
pub proof fn a_new_fence_comes_last(
    s: &mut AppState,
    title: &str,
    folder: &str,
    frame: Option<NormGeometry>,
    r: Option<FenceId>,
)
    ensures
        call_ensures(AppState::new_fence, (s, title, frame), r) ==> {
            &&& frame is None ==> r is None && *final(s) == *old(s)
            &&& frame is Some ==> r is Some && fences(*final(s)).drop_last() == fences(*old(s))
                && fences(*final(s)).last().id == r->0 && fences(*final(s)).last().title == title@
                && fences(*final(s)).last().kind is Virtual && fences(*final(s)).last().items.len() == 0
                && final(s).dirty
        },
        call_ensures(AppState::new_portal_fence, (s, folder, title, frame), r) ==> {
            &&& frame is None ==> r is None && *final(s) == *old(s)
            &&& frame is Some ==> r is Some && fences(*final(s)).drop_last() == fences(*old(s))
                && fences(*final(s)).last().id == r->0 && fences(*final(s)).last().title == title@
                && fences(*final(s)).last().kind is FolderPortal && fences(*final(s)).last().source
                is Folder && fences(*final(s)).last().source->path@ == folder@
                && fences(*final(s)).last().view.sort is Name && final(s).dirty
        },
{
    if frame is Some && (call_ensures(AppState::new_fence, (s, title, frame), r) || call_ensures(
        AppState::new_portal_fence,
        (s, folder, title, frame),
        r,
    )) {
        assert(fences(*final(s)).drop_last() =~= fences(*old(s)));
    }
}

/// A template makes a fence and a rule that sends to it, and keeps the rules that are there; where
/// it makes none, nothing changes.
pub proof fn a_template_brings_its_rule(
    s: &mut AppState,
    key: &str,
    title: &str,
    frame: Option<NormGeometry>,
    rule: Rule,
    r: Result<FenceId, Option<FenceId>>,
    k: int,
)
    requires
        call_ensures(AppState::add_template, (s, key, title, frame, rule), r),
        0 <= k < old(s).config.rules.list@.len(),
    ensures
        r is Err ==> *final(s) == *old(s),
        r is Ok ==> final(s).config.rules.list@.len() == old(s).config.rules.list@.len() + 1,
        r is Ok ==> final(s).config.rules.list@.contains(Rule { target: Target::Fence(r->Ok_0), ..rule }),
        r is Ok ==> final(s).config.rules.list@.contains(old(s).config.rules.list@[k]),
        r is Ok ==> fences(*final(s)).last().id == r->Ok_0 && fences(*final(s)).drop_last() == fences(
            *old(s),
        ),
{
    let list = old(s).config.rules.list@;
    if r is Ok {
        let made = Rule { target: Target::Fence(r->Ok_0), ..rule };
        let p = rule_place(list, made);
        lemma_leading_idle(list);
        let now = list.insert(p, made);
        assert(now[p] == made);
        assert(now[if k < p {
            k
        } else {
            k + 1
        }] == list[k]);
        assert(fences(*final(s)).drop_last() =~= fences(*old(s)));
    }
}

proof fn lemma_leading_idle(list: Seq<Rule>)
    ensures
        leading_idle(list) <= list.len(),
    decreases list.len(),
{
    if list.len() > 0 && has_idle(list[0]) {
        lemma_leading_idle(list.skip(1));
    }
}

/// Making a fence from a template, or deleting one, leaves the settings, the snapshots, the log, the
/// records and the other layouts.
pub proof fn making_and_deleting_leave_the_rest(a: AppState, b: AppState, l: int)
    requires
        0 <= l < b.config.layouts.len(),
        l != a.layout,
    ensures
        same_but_rules(a, b) ==> a.config.settings == b.config.settings && a.config.items
            == b.config.items && a.config.snapshots == b.config.snapshots && a.config.undo_log
            == b.config.undo_log && a.config.layouts@[l] == b.config.layouts@[l] && a.catalog
            == b.catalog && a.portal_items == b.portal_items && a.portal_members == b.portal_members
            && a.portal_cwd == b.portal_cwd && a.store == b.store,
        same_around(a, b) ==> a.config.layouts@[l] == b.config.layouts@[l] && a.store == b.store
            && a.work_areas == b.work_areas && a.first_run == b.first_run,
{
}

/// A fence that is deleted takes its rules, its folder and what only it showed along; the records of
/// the items stay, and so does everything where it cannot be deleted.
pub proof fn a_deleted_fence_takes_its_own_along(
    s: &mut AppState,
    id: FenceId,
    r: bool,
    k: int,
    f: FenceId,
)
    requires
        call_ensures(AppState::delete_fence, (s, id), r),
        0 <= k < old(s).config.rules.list@.len(),
        f != id,
    ensures
        r <==> can_delete(fences(*old(s)), id),
        !r ==> *final(s) == *old(s),
        r ==> final(s).config.rules.list@ == old(s).config.rules.list@.filter(
            |x: Rule| x.target != Target::Fence(id),
        ),
        r ==> !final(s).portal_members@.contains_key(id) && !final(s).portal_cwd@.contains_key(id),
        r ==> final(s).portal_members@.contains_key(f) == old(s).portal_members@.contains_key(f)
            && final(s).portal_cwd@.contains_key(f) == old(s).portal_cwd@.contains_key(f),
        r ==> final(s).config.items@ == old(s).config.items@ && final(s).config.settings
            == old(s).config.settings && final(s).config.snapshots == old(s).config.snapshots,
        r ==> final(s).dirty,
{
    the_rules_of_a_deleted_fence_go_with_it(old(s).config.rules.list@, id);
}

} // verus!
