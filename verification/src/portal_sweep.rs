//! Reading every portal again, and forgetting those that the layout no longer has.

use crate::model::{fence_models, FenceId, FenceKind, FenceModel, Item, ItemId};
use crate::portals::{
    dropped, is_listed, members_of, portal_path_of, portal_read, records_eq, same_but_portals,
    FolderEntry,
};
use crate::state::{fences, in_use, AppState};
use crate::tables::{ids_of, lists_keys};
use crate::tabs::contains_id;
use vstd::prelude::*;

verus! {

/// The ids of the portals among `fs`, in their order.
pub open spec fn portal_ids(fs: Seq<FenceModel>) -> Seq<FenceId>
    decreases fs.len(),
{
    if fs.len() == 0 {
        Seq::empty()
    } else if fs.last().kind == FenceKind::FolderPortal {
        portal_ids(fs.drop_last()).push(fs.last().id)
    } else {
        portal_ids(fs.drop_last())
    }
}

/// The items that stay when the member lists shrink from `before` to `after`: what was listed and
/// no longer is, goes.
pub open spec fn still_shown(
    items: Map<ItemId, Item>,
    before: Map<FenceId, Vec<ItemId>>,
    after: Map<FenceId, Vec<ItemId>>,
) -> Map<ItemId, Item> {
    items.restrict(Set::new(|id: ItemId| is_listed(before, id) ==> is_listed(after, id)))
}

/// The member lists of the fences in `ids`.
pub open spec fn lists_kept(
    members: Map<FenceId, Vec<ItemId>>,
    ids: Seq<FenceId>,
) -> Map<FenceId, Vec<ItemId>> {
    members.restrict(ids.to_set())
}

/// The subfolders that are left once those of fences with a member list that are not in `ids` are
/// gone.
pub open spec fn folders_kept(
    cwd: Map<FenceId, String>,
    members: Map<FenceId, Vec<ItemId>>,
    ids: Seq<FenceId>,
) -> Map<FenceId, String> {
    cwd.restrict(Set::new(|f: FenceId| members.contains_key(f) ==> ids.contains(f)))
}

/// What dropping the items of one list leaves.
proof fn lemma_dropped(
    items: Map<ItemId, Item>,
    ids: Seq<ItemId>,
    members: Map<FenceId, Vec<ItemId>>,
)
    ensures
        dropped(items, ids, members).0 == items.restrict(
            Set::new(|id: ItemId| ids.contains(id) ==> is_listed(members, id)),
        ),
    decreases ids.len(),
{
    if ids.len() == 0 {
        assert(items.restrict(
            Set::new(|id: ItemId| ids.contains(id) ==> is_listed(members, id)),
        ) =~= items);
    } else {
        let front = ids.drop_last();
        lemma_dropped(items, front, members);
        assert forall|id: ItemId| ids.contains(id) <==> front.contains(id) || id == ids.last() by {
            if front.contains(id) {
                let k = front.index_of(id);
                assert(ids[k] == id);
            }
            if ids.contains(id) && id != ids.last() {
                let k = ids.index_of(id);
                assert(front[k] == id);
            }
            assert(ids[ids.len() - 1] == ids.last());
        }
        assert(dropped(items, ids, members).0 =~= items.restrict(
            Set::new(|id: ItemId| ids.contains(id) ==> is_listed(members, id)),
        ));
    }
}

/// One more stale list goes.
proof fn lemma_shrunk(
    items: Map<ItemId, Item>,
    before: Map<FenceId, Vec<ItemId>>,
    now: Map<FenceId, Vec<ItemId>>,
    stale: FenceId,
)
    requires
        forall|f: FenceId| #[trigger] now.contains_key(f) ==> before.contains_key(f) && before[f] == now[f],
        now.contains_key(stale),
    ensures
        dropped(still_shown(items, before, now), now[stale]@, now.remove(stale)).0 == still_shown(
            items,
            before,
            now.remove(stale),
        ),
{
    let next = now.remove(stale);
    lemma_dropped(still_shown(items, before, now), now[stale]@, next);
    assert forall|id: ItemId|
        (is_listed(before, id) ==> is_listed(next, id)) <==> (is_listed(before, id) ==> is_listed(
            now,
            id,
        )) && (now[stale]@.contains(id) ==> is_listed(next, id)) by {
        if now[stale]@.contains(id) {
            assert(before.contains_key(stale) && before[stale]@.contains(id));
        }
        if is_listed(next, id) {
            let f = choose|f: FenceId| #[trigger] next.contains_key(f) && next[f]@.contains(id);
            assert(now.contains_key(f) && now[f]@.contains(id));
        }
        if is_listed(now, id) && !now[stale]@.contains(id) {
            let f = choose|f: FenceId| #[trigger] now.contains_key(f) && now[f]@.contains(id);
            assert(next.contains_key(f) && next[f]@.contains(id));
        }
    }
    assert(dropped(still_shown(items, before, now), now[stale]@, next).0 =~= still_shown(
        items,
        before,
        next,
    ));
}

/// What `refresh_portal` says of one portal.
pub open spec fn refreshed(
    a: AppState,
    b: AppState,
    id: FenceId,
    entries: Seq<FolderEntry>,
    changed: bool,
) -> bool {
    &&& portal_path_of(a, id) is None ==> !changed && b == a
    &&& portal_path_of(a, id) is Some ==> exists|new_items: Seq<Item>|
        #[trigger] portal_read(a, b, id, entries, new_items) && changed == !records_eq(
            dropped(a.portal_items@, members_of(a, id), a.portal_members@.remove(id)).1,
            new_items,
        )
    &&& b.portal_cwd == a.portal_cwd
    &&& same_but_portals(b, a)
}

/// One more portal was refreshed, and added to `before` where it changed.
pub open spec fn one_refreshed(
    a: AppState,
    b: AppState,
    id: FenceId,
    entries: Seq<FolderEntry>,
    before: Seq<FenceId>,
    after: Seq<FenceId>,
) -> bool {
    ||| refreshed(a, b, id, entries, true) && after == before.push(id)
    ||| refreshed(a, b, id, entries, false) && after == before
}

/// Each of `ids` was refreshed, one after the other, from what its folder holds; `changed` are
/// those that changed, in order.
pub open spec fn all_refreshed(
    a: AppState,
    b: AppState,
    ids: Seq<FenceId>,
    folders: Seq<Vec<FolderEntry>>,
    changed: Seq<FenceId>,
) -> bool
    decreases ids.len(),
{
    if ids.len() == 0 {
        b == a && changed.len() == 0
    } else {
        let k = ids.len() - 1;
        exists|mid: AppState, some: Seq<FenceId>|
            all_refreshed(a, mid, ids.drop_last(), folders, some) && #[trigger] one_refreshed(
                mid,
                b,
                ids[k],
                folders[k]@,
                some,
                changed,
            )
    }
}

/// The state after stale portals were dropped.
pub open spec fn stale_dropped(a: AppState, b: AppState) -> bool {
    let ids = portal_ids(fences(a));
    &&& b.portal_members@ == lists_kept(a.portal_members@, ids)
    &&& b.portal_items@ == still_shown(a.portal_items@, a.portal_members@, b.portal_members@)
    &&& b.portal_cwd@ == folders_kept(a.portal_cwd@, a.portal_members@, ids)
    &&& same_but_portals(b, a)
}

impl AppState {
    /// The portals of the layout, in order.
    pub fn portals(&self) -> (r: Vec<FenceId>)
        requires
            in_use(*self),
        ensures
            r@ == portal_ids(fences(*self)),
    {
        let fs = self.fences();
        let ghost ms = fence_models(fs@);
        let mut out: Vec<FenceId> = Vec::new();
        let n: usize = fs.len();
        for i in 0..n
            invariant
                n == fs.len(),
                ms == fence_models(fs@),
                out@ == portal_ids(ms.take(i as int)),
        {
            assert(ms.take(i + 1).drop_last() == ms.take(i as int));
            assert(ms[i as int] == fs@[i as int]@);
            if fs[i].kind == FenceKind::FolderPortal {
                out.push(fs[i].id);
            }
        }
        assert(ms.take(n as int) == ms);
        out
    }

    /// Forgets what is known of portals that the layout does not have: their members, the items
    /// that no other portal lists, and the subfolders they showed. Item ids stand for paths, so a
    /// new portal on the same folder would otherwise share them.
    pub fn drop_stale_portals(&mut self)
        requires
            in_use(*old(self)),
        ensures
            stale_dropped(*old(self), *final(self)),
    {
        let portals = self.portals();
        let keys = ids_of(&self.portal_members);
        let ghost before = self.portal_members@;
        let ghost items = self.portal_items@;
        let ghost cwd = self.portal_cwd@;
        proof {
            assert(still_shown(items, before, before) =~= items);
        }
        let n: usize = keys.len();
        for k in 0..n
            invariant
                n == keys.len(),
                lists_keys(keys@, before),
                before == old(self).portal_members@,
                items == old(self).portal_items@,
                cwd == old(self).portal_cwd@,
                portals@ == portal_ids(fences(*old(self))),
                same_but_portals(*self, *old(self)),
                forall|f: FenceId| #[trigger]
                    self.portal_members@.contains_key(f) ==> before.contains_key(f) && before[f]
                        == self.portal_members@[f],
                forall|f: FenceId| #[trigger]
                    self.portal_members@.contains_key(f) <==> before.contains_key(f) && (
                    portals@.contains(f) || !keys@.take(k as int).contains(f)),
                self.portal_items@ == still_shown(items, before, self.portal_members@),
                forall|f: FenceId| #[trigger]
                    self.portal_cwd@.contains_key(f) <==> cwd.contains_key(f) && (portals@.contains(
                        f,
                    ) || !keys@.take(k as int).contains(f)),
                forall|f: FenceId| #[trigger] self.portal_cwd@.contains_key(f) ==> self.portal_cwd@[f] == cwd[f],
        {
            let id: FenceId = keys[k];
            let ghost now = self.portal_members@;
            proof {
                assert(keys@.contains(keys@[k as int]));
                assert forall|f: FenceId| #[trigger]
                    keys@.take(k + 1).contains(f) <==> keys@.take(k as int).contains(f) || f
                        == id by {
                    if keys@.take(k as int).contains(f) {
                        let j = keys@.take(k as int).index_of(f);
                        assert(keys@.take(k + 1)[j] == f);
                    }
                    if keys@.take(k + 1).contains(f) && f != id {
                        let j = keys@.take(k + 1).index_of(f);
                        assert(keys@.take(k as int)[j] == f);
                    }
                    assert(keys@.take(k + 1)[k as int] == id);
                }
                if keys@.take(k as int).contains(id) {
                    let j = keys@.take(k as int).index_of(id);
                    assert(keys@[j] == keys@[k as int]);
                }
                assert(now.contains_key(id));
                lemma_shrunk(items, before, now, id);
            }
            if !contains_id(&portals, id) {
                self.evict_portal_members(id);
                self.portal_cwd.remove(&id);
            }
        }
        proof {
            assert(keys@.take(n as int) =~= keys@);
            let ids = portals@;
            assert forall|f: FenceId| before.contains_key(f) implies keys@.contains(f) by {}
            assert(self.portal_members@ =~= lists_kept(before, ids));
            assert(self.portal_cwd@ =~= folders_kept(cwd, before, ids));
        }
    }

    /// Reads every portal again, given what the folder of each holds, in the order of `portals`.
    /// Returns the portals that changed.
    pub fn refresh_all_portals(&mut self, folders: &Vec<Vec<FolderEntry>>) -> (r: Vec<FenceId>)
        requires
            in_use(*old(self)),
            folders.len() == portal_ids(fences(*old(self))).len(),
        ensures
            exists|mid: AppState| #[trigger]
                stale_dropped(*old(self), mid) && all_refreshed(
                    mid,
                    *final(self),
                    portal_ids(fences(*old(self))),
                    folders@,
                    r@,
                ),
    {
        let portals = self.portals();
        self.drop_stale_portals();
        let ghost mid = *self;
        let mut out: Vec<FenceId> = Vec::new();
        let n: usize = portals.len();
        for k in 0..n
            invariant
                n == portals.len(),
                n == folders.len(),
                in_use(*self),
                all_refreshed(mid, *self, portals@.take(k as int), folders@, out@),
        {
            let ghost here = *self;
            let ghost some = out@;
            assert(portals@.take(k + 1).drop_last() == portals@.take(k as int));
            let changed = self.refresh_portal(portals[k], &folders[k]);
            if changed {
                out.push(portals[k]);
            }
            assert(one_refreshed(
                here,
                *self,
                portals@.take(k + 1)[k as int],
                folders@[k as int]@,
                some,
                out@,
            ));
        }
        assert(portals@.take(n as int) == portals@);
        out
    }
}

// ---- what the sweep keeps -------------------------------------------------------------------

/// The portals are the fences of that kind, in their order.
pub proof fn portals_keep_the_order_of_fences(fs: Seq<FenceModel>)
    ensures
        portal_ids(fs) == fs.filter(|f: FenceModel| f.kind is FolderPortal).map_values(
            |f: FenceModel| f.id,
        ),
    decreases fs.len(),
{
    reveal(Seq::filter);
    let p = |f: FenceModel| f.kind is FolderPortal;
    let g = |f: FenceModel| f.id;
    if fs.len() > 0 {
        portals_keep_the_order_of_fences(fs.drop_last());
        let front = fs.drop_last().filter(p);
        assert(front.push(fs.last()).map_values(g) =~= front.map_values(g).push(g(fs.last())));
    }
}

proof fn lemma_portal_ids(fs: Seq<FenceModel>, id: FenceId)
    ensures
        portal_ids(fs).contains(id) <==> exists|i: int|
            0 <= i < fs.len() && (#[trigger] fs[i]).id == id && fs[i].kind is FolderPortal,
    decreases fs.len(),
{
    if fs.len() > 0 {
        let front = fs.drop_last();
        let ids = portal_ids(front);
        lemma_portal_ids(front, id);
        if fs.last().kind == FenceKind::FolderPortal && fs.last().id == id {
            assert(ids.push(id)[ids.len() as int] == id);
            assert(fs[fs.len() - 1].id == id);
        }
        if ids.contains(id) {
            let i = choose|i: int|
                0 <= i < front.len() && (#[trigger] front[i]).id == id && front[i].kind is FolderPortal;
            assert(fs[i].id == id);
            assert(portal_ids(fs)[ids.index_of(id)] == id);
        }
        if portal_ids(fs).contains(id) {
            let k = portal_ids(fs).index_of(id);
            if k < ids.len() {
                assert(ids[k] == id);
            }
        }
        if exists|i: int| 0 <= i < fs.len() && (#[trigger] fs[i]).id == id && fs[i].kind is FolderPortal {
            let i = choose|i: int|
                0 <= i < fs.len() && (#[trigger] fs[i]).id == id && fs[i].kind is FolderPortal;
            if i < front.len() {
                assert(front[i].id == id);
            }
        }
    }
}

/// A list is kept where its fence is still a portal, and goes with the folder it was walked to
/// where it is not; the items that only such lists showed go too, and no others.
pub proof fn only_portals_keep_their_lists(a: AppState, b: AppState, f: FenceId, x: ItemId)
    requires
        stale_dropped(a, b),
        a.portal_members@.contains_key(f),
    ensures
        b.portal_members@.contains_key(f) <==> exists|i: int|
            0 <= i < fences(a).len() && (#[trigger] fences(a)[i]).id == f && fences(a)[i].kind is FolderPortal,
        b.portal_members@.contains_key(f) ==> b.portal_members@[f] == a.portal_members@[f] && (
        b.portal_cwd@.contains_key(f) == a.portal_cwd@.contains_key(f)),
        !b.portal_members@.contains_key(f) ==> !b.portal_cwd@.contains_key(f),
        a.portal_items@.contains_key(x) && b.portal_members@.contains_key(f)
            && a.portal_members@[f]@.contains(x) ==> b.portal_items@.contains_key(x)
            && b.portal_items@[x] == a.portal_items@[x],
        a.portal_members@[f]@.contains(x) && (forall|g: FenceId| #[trigger]
            b.portal_members@.contains_key(g) ==> !b.portal_members@[g]@.contains(x))
            ==> !b.portal_items@.contains_key(x),
{
    lemma_portal_ids(fences(a), f);
    assert(portal_ids(fences(a)).to_set().contains(f) <==> portal_ids(fences(a)).contains(f));
    if a.portal_members@[f]@.contains(x) {
        assert(is_listed(a.portal_members@, x));
        if b.portal_members@.contains_key(f) {
            assert(is_listed(b.portal_members@, x));
        }
    }
}

/// Reading a portal again tells whether anything it shows has changed; a fence that shows no folder
/// is left alone.
pub proof fn a_change_is_told(
    a: AppState,
    b: AppState,
    id: FenceId,
    entries: Seq<FolderEntry>,
    changed: bool,
)
    requires
        refreshed(a, b, id, entries, changed),
    ensures
        portal_path_of(a, id) is None ==> !changed && b == a,
        b.config == a.config && b.portal_cwd == a.portal_cwd && b.dirty == a.dirty,
        portal_path_of(a, id) is Some ==> b.portal_members@.contains_key(id)
            && b.portal_members@[id]@.len() == entries.len(),
        portal_path_of(a, id) is Some && dropped(
            a.portal_items@,
            members_of(a, id),
            a.portal_members@.remove(id),
        ).1.len() != entries.len() ==> changed,
{
    if portal_path_of(a, id) is Some {
        let new_items = choose|new_items: Seq<Item>|
            #[trigger] portal_read(a, b, id, entries, new_items) && changed == !records_eq(
                dropped(a.portal_items@, members_of(a, id), a.portal_members@.remove(id)).1,
                new_items,
            );
        assert(portal_read(a, b, id, entries, new_items));
        assert(b.portal_members@.dom().contains(id));
    }
}

} // verus!
