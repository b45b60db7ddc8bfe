//! Tabbed fences of the layout in use.

use crate::model::{fence_models, Fence, FenceId, FenceModel};
use crate::state::{at, fence_set, fences, in_use, same_but_fences, AppState};
use crate::tab_laws::{
    cancelling_a_detach_restores_the_fences, hosted_by_window, lemma_hosts_stay, normal,
    normal_fences_have_free_heirs, reordered_strip_is_shown, repair_settles,
};
use crate::tab_repair::{host_index, lemma_host_index, lemma_same_ids, repaired};
use crate::tabs::{
    active_tab_of, can_cancel, can_detach, detached, distinct_ids, first_index, has_fence, host_of,
    is_first, is_tab_of, is_window, lemma_first_index, lemma_first_unique, moved_to, placement_models,
    placements, position,
    remaining_host, restored, tabs_of, with_order, TabDetach,
};
use vstd::prelude::*;

verus! {

/// The fences that own a window, in layout order.
pub open spec fn windows(fs: Seq<FenceModel>) -> Seq<FenceModel>
    decreases fs.len(),
{
    if fs.len() == 0 {
        Seq::empty()
    } else {
        let rest = windows(fs.drop_last());
        if fs.last().tab_host is None {
            rest.push(fs.last())
        } else {
            rest
        }
    }
}

/// Fence `f` once `fence` became a tab of `host`: the tabs of `fence` move along, and the window
/// shows it.
pub open spec fn attached_fence(f: FenceModel, fence: FenceId, host: FenceId) -> FenceModel {
    if f.id == fence {
        FenceModel { tab_host: Some(host), active_tab: None, ..f }
    } else if f.tab_host == Some(fence) {
        FenceModel { tab_host: Some(host), ..f }
    } else {
        f
    }
}

/// The fences once `fence` became a tab of `host`, before repair.
pub open spec fn attached(fs: Seq<FenceModel>, fence: FenceId, host: FenceId) -> Seq<FenceModel> {
    let gs = Seq::new(fs.len(), |i: int| attached_fence(fs[i], fence, host));
    let h = first_index(fs, host);
    gs.update(h, FenceModel { active_tab: Some(fence), ..gs[h] })
}

/// `fence` can become a tab of the window that `host` is shown in: both exist, and it is not in
/// that window already.
pub open spec fn can_attach(fs: Seq<FenceModel>, fence: FenceId, host: FenceId) -> bool {
    fence != host_of(fs, host) && host_of(fs, fence) != host_of(fs, host) && has_fence(
        fs,
        fence,
    ) && has_fence(fs, host_of(fs, host))
}

fn set_tab_of(f: &mut Fence, fence: FenceId, host: FenceId)
    ensures
        final(f)@ == attached_fence(old(f)@, fence, host),
{
    if f.id == fence {
        f.tab_host = Some(host);
        f.active_tab = None;
    } else if f.tab_host == Some(fence) {
        f.tab_host = Some(host);
    }
}

fn set_active(f: &mut Fence, active: Option<FenceId>)
    ensures
        final(f)@ == (FenceModel { active_tab: active, ..old(f)@ }),
{
    f.active_tab = active;
}

fn attach_in(fences: &mut Vec<Fence>, fence: FenceId, host: FenceId)
    requires
        has_fence(fence_models(old(fences)@), host),
    ensures
        fence_models(final(fences)@) == attached(fence_models(old(fences)@), fence, host),
{
    let ghost fs = fence_models(fences@);
    let n: usize = fences.len();
    for i in 0..n
        invariant
            n == fences.len(),
            n == fs.len(),
            forall|j: int|
                0 <= j < i ==> (#[trigger] fences@[j])@ == attached_fence(fs[j], fence, host),
            forall|j: int| i <= j < n ==> (#[trigger] fences@[j])@ == fs[j],
    {
        assert(fences@[i as int]@ == fs[i as int]);
        set_tab_of(&mut fences[i], fence, host);
    }
    let ghost gs = Seq::new(fs.len(), |i: int| attached_fence(fs[i], fence, host));
    assert(fence_models(fences@) =~= gs);
    proof {
        lemma_same_ids(gs, fs, host);
    }
    if let Some(h) = position(fences, host) {
        set_active(&mut fences[h], Some(fence));
    }
    assert(fence_models(fences@) =~= attached(fs, fence, host));
}

impl AppState {
    /// The window (host fence) a fence is shown in.
    pub fn host_of(&self, id: FenceId) -> (r: FenceId)
        requires
            in_use(*self),
        ensures
            r == host_of(fences(*self), id),
    {
        self.config.layouts[self.layout].host_of(id)
    }

    /// The tabs of a window in strip order.
    pub fn tabs_of(&self, host: FenceId) -> (r: Vec<FenceId>)
        requires
            in_use(*self),
        ensures
            r@ == tabs_of(fences(*self), host),
    {
        self.config.layouts[self.layout].tabs_of(host)
    }

    /// The fence whose items a window shows.
    pub fn active_tab_of(&self, host: FenceId) -> (r: FenceId)
        requires
            in_use(*self),
        ensures
            r == active_tab_of(fences(*self), host),
    {
        self.config.layouts[self.layout].active_tab_of(host)
    }

    /// The fences that own a window, in layout order.
    pub fn host_fences(&self) -> (r: Vec<Fence>)
        requires
            in_use(*self),
        ensures
            fence_models(r@) == windows(fences(*self)),
    {
        let all = &self.config.layouts[self.layout].fences;
        let ghost fs = fence_models(all@);
        let mut out: Vec<Fence> = Vec::new();
        let n: usize = all.len();
        for i in 0..n
            invariant
                n == all.len(),
                fs == fence_models(all@),
                fence_models(out@) == windows(fs.take(i as int)),
        {
            proof {
                assert(fs.take(i + 1).drop_last() == fs.take(i as int));
                assert(fs.take(i + 1).last() == fs[i as int]);
            }
            if all[i].tab_host.is_none() {
                let ghost before = out@;
                let f = all[i].clone();
                out.push(f);
                assert(fence_models(out@) =~= fence_models(before).push(fs[i as int]));
            }
        }
        assert(fs.take(n as int) == fs);
        out
    }

    /// Repairs tab links, after loading, a change of layout or a deletion. Returns whether
    /// anything changed.
    pub fn normalize_tabs(&mut self) -> (changed: bool)
        requires
            in_use(*old(self)),
        ensures
            fences(*final(self)) == repaired(fences(*old(self))),
            changed == (fences(*final(self)) != fences(*old(self))),
            final(self).dirty == (old(self).dirty || changed),
            same_but_fences(*final(self), *old(self)),
    {
        let layout: usize = self.layout;
        let ghost before = *self;
        let changed = self.config.layouts[layout].normalize_tabs();
        if changed {
            self.dirty = true;
        }
        changed
    }

    /// Makes `fence` a tab of the window that `host` is shown in, and its tabs with it. Returns
    /// false, and changes nothing, where it is in that window already or either does not exist.
    pub fn attach_tab(&mut self, fence: FenceId, host: FenceId) -> (r: bool)
        requires
            in_use(*old(self)),
        ensures
            r == can_attach(fences(*old(self)), fence, host),
            r ==> fences(*final(self)) == repaired(
                attached(fences(*old(self)), fence, host_of(fences(*old(self)), host)),
            ),
            !r ==> fences(*final(self)) == fences(*old(self)),
            final(self).dirty == (old(self).dirty || r),
            same_but_fences(*final(self), *old(self)),
    {
        let ghost fs = fences(*self);
        let host: FenceId = self.host_of(host);
        if fence == host || self.host_of(fence) == host || self.fence(fence).is_none() || self.fence(host).is_none() {
            return false;
        }
        let layout: usize = self.layout;
        attach_in(&mut self.config.layouts[layout].fences, fence, host);
        assert(fences(*self) == attached(fs, fence, host));
        self.normalize_tabs();
        self.dirty = true;
        true
    }

    /// Takes a tab out of its window.
    pub fn detach_tab(&mut self, fence: FenceId) -> (r: Option<TabDetach>)
        requires
            in_use(*old(self)),
        ensures
            r is Some <==> can_detach(fences(*old(self)), fence),
            r matches Some(change) ==> {
                let fs = fences(*old(self));
                &&& change.tab == fence
                &&& change.source_host == host_of(fs, fence)
                &&& change.remaining_host == remaining_host(fs, fence)
                &&& placement_models(change.before@) == placements(
                    fs,
                    tabs_of(fs, host_of(fs, fence)),
                )
                &&& fences(*final(self)) == detached(fs, fence)
            },
            r is None ==> fences(*final(self)) == fences(*old(self)),
            final(self).dirty == (old(self).dirty || r is Some),
            same_but_fences(*final(self), *old(self)),
    {
        let layout: usize = self.layout;
        let change = self.config.layouts[layout].detach_tab(fence);
        if change.is_some() {
            self.dirty = true;
        }
        change
    }

    /// Puts a detached tab back. Returns false, and changes nothing, where the group changed.
    pub fn cancel_tab_detach(&mut self, change: &TabDetach) -> (r: bool)
        requires
            in_use(*old(self)),
        ensures
            r == can_cancel(
                fences(*old(self)),
                change.tab,
                change.remaining_host,
                placement_models(change.before@),
            ),
            fences(*final(self)) == if r {
                restored(fences(*old(self)), placement_models(change.before@))
            } else {
                fences(*old(self))
            },
            final(self).dirty == (old(self).dirty || r),
            same_but_fences(*final(self), *old(self)),
    {
        let layout: usize = self.layout;
        let r = self.config.layouts[layout].cancel_tab_detach(change);
        if r {
            self.dirty = true;
        }
        r
    }

    /// Places `tab` at strip index `to` of the window that `host` is shown in.
    pub fn reorder_tab(&mut self, host: FenceId, tab: FenceId, to: usize) -> (r: bool)
        requires
            in_use(*old(self)),
        ensures
            ({
                let fs = fences(*old(self));
                let h = host_of(fs, host);
                let strip = tabs_of(fs, h);
                &&& r == (has_fence(fs, h) && strip.contains(tab) && moved_to(strip, tab, to as int)
                    != strip)
                &&& fences(*final(self)) == if r {
                    with_order(fs, h, moved_to(strip, tab, to as int))
                } else {
                    fs
                }
            }),
            final(self).dirty == (old(self).dirty || r),
            same_but_fences(*final(self), *old(self)),
    {
        let host: FenceId = self.host_of(host);
        let layout: usize = self.layout;
        let changed = self.config.layouts[layout].reorder_tab(host, tab, to);
        if changed {
            self.dirty = true;
        }
        changed
    }

    /// Makes the window that `host` is shown in show `tab`.
    pub fn set_active_tab(&mut self, host: FenceId, tab: FenceId)
        requires
            in_use(*old(self)),
        ensures
            ({
                let h = host_of(fences(*old(self)), host);
                fence_set(
                    *old(self),
                    *final(self),
                    h,
                    FenceModel {
                        active_tab: if tab != h {
                            Some(tab)
                        } else {
                            None
                        },
                        ..at(*old(self), h)
                    },
                )
            }),
    {
        let host: FenceId = self.host_of(host);
        let value: Option<FenceId> = if tab != host {
            Some(tab)
        } else {
            None
        };
        let ghost before = *self;
        let layout: usize = self.layout;
        let mut changed = false;
        if let Some(f) = self.config.fence_mut(layout, host) {
            if f.active_tab != value {
                f.active_tab = value;
                changed = true;
            }
        }
        if changed {
            self.dirty = true;
        }
        proof {
            crate::state::lemma_edited(before, *self, host);
        }
    }
}

// ---- laws ---------------------------------------------------------------------------------

/// Attaching puts the fence and its tabs into the window, which shows it. Every other fence stays
/// in its window.
pub proof fn attaching_moves_a_fence_with_its_tabs(
    fs: Seq<FenceModel>,
    fence: FenceId,
    host: FenceId,
)
    requires
        distinct_ids(fs),
        normal(fs),
        can_attach(fs, fence, host),
    ensures
        ({
            let h = host_of(fs, host);
            let rs = repaired(attached(fs, fence, h));
            &&& normal(rs)
            &&& is_tab_of(rs, fence, h)
            &&& active_tab_of(rs, h) == fence
            &&& rs.len() == fs.len()
            &&& forall|i: int|
                0 <= i < fs.len() ==> (#[trigger] rs[i]).id == fs[i].id && rs[i].tab_host
                    == if fs[i].id == fence || fs[i].tab_host == Some(fence) {
                    Some(h)
                } else {
                    fs[i].tab_host
                }
        }),
{
    let h = host_of(fs, host);
    let gs = attached(fs, fence, h);
    lemma_first_index(fs, h);
    lemma_first_index(fs, fence);
    let hi = first_index(fs, h);
    let fi = first_index(fs, fence);
    assert forall|i: int| 0 <= i < fs.len() implies (#[trigger] gs[i]).id == fs[i].id by {}
    lemma_host_is_root(fs, host);
    lemma_same_ids(gs, fs, h);
    assert(fs[hi].id != fence);
    assert(gs[hi].tab_host is None);
    assert forall|i: int| 0 <= i < gs.len() implies #[trigger] hosted_by_window(gs, i) by {
        if gs[i].tab_host == Some(h) {
            assert(host_index(gs, i) == Some(hi)) by {
                if gs[i].id == h {
                    assert(fs[i].id == fs[hi].id);
                }
            }
        } else if gs[i].tab_host is Some {
            assert(gs[i].tab_host == fs[i].tab_host);
            assert(hosted_by_window(fs, i));
            lemma_host_index(fs, i);
            let j = host_index(fs, i)->0;
            lemma_same_ids(gs, fs, fs[i].tab_host->0);
            assert(host_index(gs, i) == Some(j));
            assert(fs[j].id != fence);
        }
    }
    lemma_hosts_stay(gs);
    repair_settles(gs);
    let rs = repaired(gs);
    assert(rs[fi].id == fence && rs[fi].tab_host == Some(h));
    assert(is_tab_of(gs, fence, h)) by {
        assert(gs[fi].id == fence && gs[fi].tab_host == Some(h));
    }
    lemma_same_ids(rs, fs, h);
    assert(rs[hi].active_tab == Some(fence));
}

/// The window that an existing fence is shown in is not a tab.
proof fn lemma_host_is_root(fs: Seq<FenceModel>, host: FenceId)
    requires
        distinct_ids(fs),
        normal(fs),
        has_fence(fs, host_of(fs, host)),
    ensures
        fs[first_index(fs, host_of(fs, host))].tab_host is None,
{
    let h = host_of(fs, host);
    lemma_first_index(fs, h);
    let hi = first_index(fs, h);
    if h != host {
        let j = choose|j: int|
            0 <= j < fs.len() && (#[trigger] fs[j]).id == h && fs[j].tab_host is None;
        assert(fs[j].id == fs[hi].id);
    } else if fs[hi].tab_host is Some {
        assert(hosted_by_window(fs, hi));
        lemma_host_index(fs, hi);
        let j = host_index(fs, hi)->0;
        assert(fs[j].tab_host is None);
        assert(is_window(fs, fs[j].id));
    }
}

/// A tab that is torn off and put back leaves every fence as it was.
pub proof fn putting_a_tab_back_undoes_tearing_it_off(
    s: &mut AppState,
    t: &mut AppState,
    tab: FenceId,
    torn: Option<TabDetach>,
    change: &TabDetach,
    back: bool,
)
    requires
        call_ensures(AppState::detach_tab, (s, tab), torn),
        torn == Some(*change),
        fences(*old(t)) == fences(*final(s)),
        call_ensures(AppState::cancel_tab_detach, (t, change), back),
        distinct_ids(fences(*old(s))),
        normal(fences(*old(s))),
    ensures
        back,
        fences(*final(t)) == fences(*old(s)),
{
    normal_fences_have_free_heirs(fences(*old(s)), tab);
    cancelling_a_detach_restores_the_fences(fences(*old(s)), tab);
}

/// A tab that is switched to comes to the front of its window, and the window's own tab is in front
/// where that is asked for.
pub proof fn a_tab_that_is_switched_to_is_in_front(
    s: &mut AppState,
    host: FenceId,
    tab: FenceId,
    h: int,
    t: int,
)
    requires
        call_ensures(AppState::set_active_tab, (s, host, tab), ()),
        is_first(fences(*old(s)), host, h),
        fences(*old(s))[h].tab_host is None,
        0 <= t < fences(*old(s)).len(),
        fences(*old(s))[t].id == tab,
        tab == host || fences(*old(s))[t].tab_host == Some(host),
    ensures
        active_tab_of(fences(*final(s)), host) == tab,
{
    let fs = fences(*old(s));
    let gs = fences(*final(s));
    lemma_first_unique(fs, host, h);
    lemma_same_ids(gs, fs, host);
    assert(gs[t].id == tab && gs[t].tab_host == fs[t].tab_host);
}

/// A tab that is moved in its strip is shown where it was put.
pub proof fn a_moved_tab_is_shown_where_it_was_put(
    s: &mut AppState,
    host: FenceId,
    tab: FenceId,
    to: usize,
    r: bool,
)
    requires
        call_ensures(AppState::reorder_tab, (s, host, tab, to), r),
    ensures
        ({
            let h = host_of(fences(*old(s)), host);
            let strip = tabs_of(fences(*old(s)), h);
            &&& r ==> tabs_of(fences(*final(s)), h) == moved_to(strip, tab, to as int) && final(s).dirty
            &&& !r ==> fences(*final(s)) == fences(*old(s))
            &&& has_fence(fences(*old(s)), h) && strip.contains(tab) && moved_to(strip, tab, to as int)
                != strip ==> r
        }),
{
    let fs = fences(*old(s));
    let h = host_of(fs, host);
    if r {
        reordered_strip_is_shown(fs, h, tab, to as int);
    }
}

} // verus!
