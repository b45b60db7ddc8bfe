//! Which windows there are, and what each one shows.

use crate::dip::{Dip, ONE_BITS};
use crate::model::{
    fence_models, ColumnFlags, ColumnWidths, Fence, FenceId, FenceKind, FenceModel, SortMode,
    Spacing, ViewLayout,
};
use crate::settings::Backdrop;
use crate::state::{at, fences, in_use, lemma_edited, same_but_fences, with_fence, AppState};
use crate::state_tabs::windows;
use crate::tab_repair::repaired;
use crate::tabs::{
    active_tab_of, contains_id, first_index, has_fence, host_of, is_first, lemma_first_unique,
};
use vstd::prelude::*;

verus! {

// ---- the set of windows -------------------------------------------------------------------

/// A window that should be there.
#[derive(Clone, Copy, Debug, PartialEq, Eq, Structural)]
pub struct HostWindow {
    pub host: FenceId,
    /// The tab in front.
    pub active: FenceId,
    /// The fence whose contents it shows: the tab in front, or the host where that is missing.
    pub shown: FenceId,
    /// It has to be made.
    pub create: bool,
}

/// How the windows that are open become those that should be.
pub struct WindowPlan {
    /// The windows to close.
    pub gone: Vec<FenceId>,
    /// The windows to update or make, in layout order.
    pub hosts: Vec<HostWindow>,
}

/// A window that is open: its fence, and whether the system still knows it.
#[derive(Clone, Copy, Debug, PartialEq, Eq, Structural)]
pub struct OpenWindow {
    pub fence: FenceId,
    pub alive: bool,
}

pub open spec fn ids_of_fences(fs: Seq<FenceModel>) -> Seq<FenceId> {
    Seq::new(fs.len(), |i: int| fs[i].id)
}

/// The window stays open.
pub open spec fn stays(w: OpenWindow, hosts: Seq<FenceId>) -> bool {
    hosts.contains(w.fence) && w.alive
}

/// The fences whose windows are closed, in order.
pub open spec fn closing(open: Seq<OpenWindow>, hosts: Seq<FenceId>) -> Seq<FenceId>
    decreases open.len(),
{
    if open.len() == 0 {
        Seq::empty()
    } else if stays(open.last(), hosts) {
        closing(open.drop_last(), hosts)
    } else {
        closing(open.drop_last(), hosts).push(open.last().fence)
    }
}

/// A window of the fence is open and stays so.
pub open spec fn kept_open(open: Seq<OpenWindow>, hosts: Seq<FenceId>, fence: FenceId) -> bool {
    exists|i: int| 0 <= i < open.len() && (#[trigger] open[i]).fence == fence && stays(
        open[i],
        hosts,
    )
}

/// What the window of `host` should be.
pub open spec fn host_window(
    fs: Seq<FenceModel>,
    open: Seq<OpenWindow>,
    host: FenceId,
) -> HostWindow {
    let active = active_tab_of(fs, host);
    HostWindow {
        host,
        active,
        shown: if has_fence(fs, active) {
            active
        } else {
            host
        },
        create: !kept_open(open, ids_of_fences(windows(fs)), host),
    }
}

fn fence_ids(fs: &Vec<Fence>) -> (r: Vec<FenceId>)
    ensures
        r@ == ids_of_fences(fence_models(fs@)),
{
    let mut out: Vec<FenceId> = Vec::new();
    let n: usize = fs.len();
    for i in 0..n
        invariant
            n == fs.len(),
            out.len() == i,
            forall|j: int| 0 <= j < i ==> #[trigger] out@[j] == fs@[j].id,
    {
        out.push(fs[i].id);
    }
    assert(out@ =~= ids_of_fences(fence_models(fs@)));
    out
}

fn close_windows(open: &Vec<OpenWindow>, hosts: &Vec<FenceId>) -> (r: Vec<FenceId>)
    ensures
        r@ == closing(open@, hosts@),
{
    let mut out: Vec<FenceId> = Vec::new();
    let n: usize = open.len();
    for i in 0..n
        invariant
            n == open.len(),
            out@ == closing(open@.take(i as int), hosts@),
    {
        assert(open@.take(i + 1).drop_last() == open@.take(i as int));
        if !(contains_id(hosts, open[i].fence) && open[i].alive) {
            out.push(open[i].fence);
        }
    }
    assert(open@.take(n as int) == open@);
    out
}

fn is_kept_open(open: &Vec<OpenWindow>, hosts: &Vec<FenceId>, fence: FenceId) -> (r: bool)
    ensures
        r == kept_open(open@, hosts@, fence),
{
    let n: usize = open.len();
    for i in 0..n
        invariant
            n == open.len(),
            forall|j: int|
                0 <= j < i ==> !((#[trigger] open@[j]).fence == fence && stays(open@[j], hosts@)),
    {
        if open[i].fence == fence && contains_id(hosts, open[i].fence) && open[i].alive {
            return true;
        }
    }
    false
}

impl AppState {
    /// Repairs the tab links and says how the windows that are open become those that should be:
    /// every fence that is no tab has one.
    pub fn plan_windows(&mut self, open: &Vec<OpenWindow>) -> (r: WindowPlan)
        requires
            in_use(*old(self)),
        ensures
            fences(*final(self)) == repaired(fences(*old(self))),
            final(self).dirty == (old(self).dirty || fences(*final(self)) != fences(*old(self))),
            same_but_fences(*final(self), *old(self)),
            ({
                let fs = fences(*final(self));
                let hosts = ids_of_fences(windows(fs));
                &&& r.gone@ == closing(open@, hosts)
                &&& r.hosts.len() == hosts.len()
                &&& forall|i: int|
                    0 <= i < hosts.len() ==> #[trigger] r.hosts@[i] == host_window(
                        fs,
                        open@,
                        hosts[i],
                    )
            }),
    {
        self.normalize_tabs();
        let ghost fs = fences(*self);
        let hosts = fence_ids(&self.host_fences());
        let gone = close_windows(open, &hosts);
        let mut plan: Vec<HostWindow> = Vec::new();
        let n: usize = hosts.len();
        for i in 0..n
            invariant
                n == hosts.len(),
                in_use(*self),
                fs == fences(*self),
                hosts@ == ids_of_fences(windows(fs)),
                plan.len() == i,
                forall|j: int|
                    0 <= j < i ==> #[trigger] plan@[j] == host_window(fs, open@, hosts@[j]),
        {
            let host: FenceId = hosts[i];
            let active: FenceId = self.active_tab_of(host);
            let shown: FenceId = if self.fence(active).is_some() {
                active
            } else {
                host
            };
            let create = !is_kept_open(open, &hosts, host);
            plan.push(HostWindow { host, active, shown, create });
        }
        WindowPlan { gone, hosts: plan }
    }
}

/// After a plan was carried out there is exactly one window per fence that is no tab: a window
/// that is open is either closed or among those to update, and what is to be made was not open.
pub proof fn a_plan_covers_every_window(
    fs: Seq<FenceModel>,
    open: Seq<OpenWindow>,
    i: int,
)
    requires
        0 <= i < open.len(),
    ensures
        ({
            let hosts = ids_of_fences(windows(fs));
            let w = open[i];
            &&& stays(w, hosts) ==> !host_window(fs, open, w.fence).create && hosts.contains(w.fence)
            &&& !stays(w, hosts) ==> closing(open, hosts).contains(w.fence)
        }),
{
    let hosts = ids_of_fences(windows(fs));
    if !stays(open[i], hosts) {
        lemma_closing(open, hosts, i);
    }
}

proof fn lemma_closing(open: Seq<OpenWindow>, hosts: Seq<FenceId>, i: int)
    requires
        0 <= i < open.len(),
        !stays(open[i], hosts),
    ensures
        closing(open, hosts).contains(open[i].fence),
    decreases open.len(),
{
    let rest = closing(open.drop_last(), hosts);
    let all = closing(open, hosts);
    if i == open.len() - 1 {
        assert(all[all.len() - 1] == open[i].fence);
    } else {
        assert(open.drop_last()[i] == open[i]);
        lemma_closing(open.drop_last(), hosts, i);
        assert(all[rest.index_of(open[i].fence)] == open[i].fence);
    }
}

// ---- what a window shows ------------------------------------------------------------------

/// Everything saved of a fence that its window follows. What concerns the window is that of the
/// host, what concerns the contents that of the tab in front.
#[derive(Clone, Copy, Debug, PartialEq, Eq, Structural)]
pub struct WindowView {
    pub host: FenceId,
    pub shown: FenceId,
    pub icon_size: u32,
    pub label_lines: u8,
    pub layout: ViewLayout,
    pub is_inbox: bool,
    pub spacing: Spacing,
    /// None for the default widths.
    pub column_widths: Option<ColumnWidths>,
    pub columns_visible: ColumnFlags,
    pub group_by_date: bool,
    pub sort: SortMode,
    pub reverse: bool,
    /// The window follows the height of its contents.
    pub auto_height: bool,
    pub rolled: bool,
    pub locked: bool,
    /// None for the material of the settings.
    pub backdrop: Option<Backdrop>,
    pub opacity: Dip,
    pub exclude_from_quick_hide: bool,
}

/// The fence that a window shows.
pub open spec fn shown_fence(fs: Seq<FenceModel>, host: FenceId) -> FenceModel {
    let active = active_tab_of(fs, host);
    if has_fence(fs, active) {
        fs[first_index(fs, active)]
    } else {
        fs[first_index(fs, host)]
    }
}

/// What the window of `host` follows.
pub open spec fn view_of(fs: Seq<FenceModel>, host: FenceId) -> WindowView {
    let f = fs[first_index(fs, host)];
    let s = shown_fence(fs, host);
    WindowView {
        host,
        shown: s.id,
        icon_size: s.view.icon_size,
        label_lines: s.view.label_lines,
        layout: s.view.layout,
        is_inbox: s.kind == FenceKind::Inbox,
        spacing: s.view.spacing,
        column_widths: s.view.column_widths,
        columns_visible: match s.view.columns_visible {
            Some(c) => c,
            None => ColumnFlags { date: true, kind: true, size: true },
        },
        group_by_date: s.view.group_by_date,
        sort: s.view.sort,
        reverse: s.view.reverse,
        auto_height: f.view.auto_height && s.content is Files,
        rolled: f.rolled_up,
        locked: f.locked,
        backdrop: match f.appearance {
            Some(a) => a.backdrop,
            None => None,
        },
        opacity: match f.appearance {
            Some(a) => match a.opacity {
                Some(o) => o,
                None => Dip { bits: ONE_BITS },
            },
            None => Dip { bits: ONE_BITS },
        },
        exclude_from_quick_hide: f.exclude_from_quick_hide,
    }
}

fn view_of_fences(f: &Fence, s: &Fence, host: FenceId) -> (r: WindowView)
    ensures
        r == (WindowView {
            host,
            shown: s@.id,
            icon_size: s@.view.icon_size,
            label_lines: s@.view.label_lines,
            layout: s@.view.layout,
            is_inbox: s@.kind == FenceKind::Inbox,
            spacing: s@.view.spacing,
            column_widths: s@.view.column_widths,
            columns_visible: match s@.view.columns_visible {
                Some(c) => c,
                None => ColumnFlags { date: true, kind: true, size: true },
            },
            group_by_date: s@.view.group_by_date,
            sort: s@.view.sort,
            reverse: s@.view.reverse,
            auto_height: f@.view.auto_height && s@.content is Files,
            rolled: f@.rolled_up,
            locked: f@.locked,
            backdrop: match f@.appearance {
                Some(a) => a.backdrop,
                None => None,
            },
            opacity: match f@.appearance {
                Some(a) => match a.opacity {
                    Some(o) => o,
                    None => Dip { bits: ONE_BITS },
                },
                None => Dip { bits: ONE_BITS },
            },
            exclude_from_quick_hide: f@.exclude_from_quick_hide,
        }),
{
    let opaque = Dip { bits: ONE_BITS };
    let (backdrop, opacity) = match &f.appearance {
        Some(a) => (
            a.backdrop,
            match a.opacity {
                Some(o) => o,
                None => opaque,
            },
        ),
        None => (None, opaque),
    };
    let columns_visible = match s.view.columns_visible {
        Some(c) => c,
        None => ColumnFlags { date: true, kind: true, size: true },
    };
    WindowView {
        host,
        shown: s.id,
        icon_size: s.view.icon_size,
        label_lines: s.view.label_lines,
        layout: s.view.layout,
        is_inbox: s.kind == FenceKind::Inbox,
        spacing: s.view.spacing,
        column_widths: s.view.column_widths,
        columns_visible,
        group_by_date: s.view.group_by_date,
        sort: s.view.sort,
        reverse: s.view.reverse,
        auto_height: f.view.auto_height && s.content.is_files(),
        rolled: f.rolled_up,
        locked: f.locked,
        backdrop,
        opacity,
        exclude_from_quick_hide: f.exclude_from_quick_hide,
    }
}

/// What has to be drawn anew in a window when the contents of a fence changed.
#[derive(Clone, Copy, Debug, PartialEq, Eq, Structural)]
pub struct Refresh {
    pub host: FenceId,
    pub active: FenceId,
    /// The fence is the one in front, so its items are drawn anew.
    pub items: bool,
}

impl AppState {
    /// What the window that a fence is shown in follows; none where that window's fence is
    /// missing.
    pub fn window_view(&self, id: FenceId) -> (r: Option<WindowView>)
        requires
            in_use(*self),
        ensures
            ({
                let fs = fences(*self);
                let host = host_of(fs, id);
                r == if has_fence(fs, host) {
                    Some(view_of(fs, host))
                } else {
                    None
                }
            }),
    {
        let host: FenceId = self.host_of(id);
        let f = match self.fence(host) {
            Some(f) => f,
            None => {
                return None;
            },
        };
        let active: FenceId = self.active_tab_of(host);
        let shown = match self.fence(active) {
            Some(s) => s,
            None => f,
        };
        Some(view_of_fences(f, shown, host))
    }

    /// What to draw anew when the contents of a fence changed.
    pub fn refresh_of(&self, id: FenceId) -> (r: Refresh)
        requires
            in_use(*self),
        ensures
            ({
                let fs = fences(*self);
                let host = host_of(fs, id);
                r == (Refresh {
                    host,
                    active: active_tab_of(fs, host),
                    items: active_tab_of(fs, host) == id && has_fence(fs, id),
                })
            }),
    {
        let host: FenceId = self.host_of(id);
        let active: FenceId = self.active_tab_of(host);
        let items = active == id && self.fence(id).is_some();
        Refresh { host, active, items }
    }

    /// The window whose size follows its grid when `id` changes: none where it shows a panel.
    pub fn sized_window(&self, id: FenceId) -> (r: Option<FenceId>)
        requires
            in_use(*self),
        ensures
            ({
                let fs = fences(*self);
                let host = host_of(fs, id);
                let active = active_tab_of(fs, host);
                r == if has_fence(fs, active) && !(fs[first_index(fs, active)].content is Files) {
                    None
                } else {
                    Some(host)
                }
            }),
    {
        let host: FenceId = self.host_of(id);
        let active: FenceId = self.active_tab_of(host);
        match self.fence(active) {
            Some(f) => if f.content.is_files() {
                Some(host)
            } else {
                None
            },
            None => Some(host),
        }
    }

    /// Rolls a fence up or down, as its window is now. There is something to save in any case.
    pub fn set_rolled(&mut self, id: FenceId, rolled: bool)
        requires
            in_use(*old(self)),
        ensures
            fences(*final(self)) == with_fence(
                fences(*old(self)),
                id,
                FenceModel { rolled_up: rolled, ..at(*old(self), id) },
            ),
            final(self).dirty,
            same_but_fences(*final(self), *old(self)),
    {
        let ghost before = *self;
        let layout: usize = self.layout;
        if let Some(f) = self.config.fence_mut(layout, id) {
            f.rolled_up = rolled;
        }
        self.dirty = true;
        proof {
            lemma_edited(before, *self, id);
        }
    }
}

/// The height that a window changes to so that it follows its contents; none where it has that
/// height or does not follow them.
pub fn height_to_follow(now: i32, wanted: Option<i32>) -> (r: Option<i32>)
    ensures
        r == if wanted == Some(now) {
            None
        } else {
            wanted
        },
{
    match wanted {
        Some(h) => if h == now {
            None
        } else {
            Some(h)
        },
        None => None,
    }
}

/// The windows to close are those that are gone or whose fence has none any more, in their order.
pub proof fn windows_close_with_their_fence(open: Seq<OpenWindow>, hosts: Seq<FenceId>)
    ensures
        closing(open, hosts) == open.filter(
            |w: OpenWindow| !w.alive || !hosts.contains(w.fence),
        ).map_values(|w: OpenWindow| w.fence),
    decreases open.len(),
{
    reveal(Seq::filter);
    let p = |w: OpenWindow| !w.alive || !hosts.contains(w.fence);
    let g = |w: OpenWindow| w.fence;
    if open.len() > 0 {
        windows_close_with_their_fence(open.drop_last(), hosts);
        let front = open.drop_last().filter(p);
        assert(front.push(open.last()).map_values(g) =~= front.map_values(g).push(g(open.last())));
    }
}

/// A window shows the tab in front, and is made where no living window of that fence is open.
pub proof fn a_window_shows_the_tab_in_front(
    fs: Seq<FenceModel>,
    open: Seq<OpenWindow>,
    host: FenceId,
)
    requires
        ids_of_fences(windows(fs)).contains(host),
    ensures
        ({
            let w = host_window(fs, open, host);
            &&& w.host == host
            &&& w.active == active_tab_of(fs, host)
            &&& has_fence(fs, w.active) ==> w.shown == w.active
            &&& !has_fence(fs, w.active) ==> w.shown == host
            &&& !w.create <==> exists|i: int|
                0 <= i < open.len() && (#[trigger] open[i]).fence == host && open[i].alive
        }),
{
    let hosts = ids_of_fences(windows(fs));
    if kept_open(open, hosts, host) {
        let i = choose|i: int|
            0 <= i < open.len() && (#[trigger] open[i]).fence == host && stays(open[i], hosts);
        assert(open[i].fence == host && open[i].alive);
    }
    if exists|i: int| 0 <= i < open.len() && (#[trigger] open[i]).fence == host && open[i].alive {
        let i = choose|i: int|
            0 <= i < open.len() && (#[trigger] open[i]).fence == host && open[i].alive;
        assert(stays(open[i], hosts));
    }
}

/// How items are shown is up to the tab in front; how the window looks and whether it is rolled up
/// or locked is up to the fence that owns it.
pub proof fn the_tab_in_front_says_how_items_are_shown(
    fs: Seq<FenceModel>,
    host: FenceId,
    h: int,
    t: int,
)
    requires
        is_first(fs, host, h),
        is_first(fs, active_tab_of(fs, host), t),
    ensures
        ({
            let v = view_of(fs, host);
            let owner = fs[h];
            let tab = fs[t];
            &&& v.host == host && v.shown == tab.id
            &&& v.icon_size == tab.view.icon_size && v.label_lines == tab.view.label_lines
                && v.layout == tab.view.layout && v.spacing == tab.view.spacing && v.sort
                == tab.view.sort && v.reverse == tab.view.reverse && v.group_by_date
                == tab.view.group_by_date && v.column_widths == tab.view.column_widths
            &&& v.is_inbox <==> tab.kind is Inbox
            &&& tab.view.columns_visible is Some ==> v.columns_visible
                == tab.view.columns_visible->0
            &&& tab.view.columns_visible is None ==> v.columns_visible.date
                && v.columns_visible.kind && v.columns_visible.size
            &&& v.auto_height <==> owner.view.auto_height && tab.content is Files
            &&& v.rolled == owner.rolled_up && v.locked == owner.locked
                && v.exclude_from_quick_hide == owner.exclude_from_quick_hide
            &&& owner.appearance is None ==> v.backdrop is None && v.opacity.bits == ONE_BITS
            &&& owner.appearance is Some ==> v.backdrop == owner.appearance->0.backdrop
            &&& owner.appearance is Some && owner.appearance->0.opacity is Some ==> v.opacity
                == owner.appearance->0.opacity->0
            &&& owner.appearance is Some && owner.appearance->0.opacity is None ==> v.opacity.bits
                == ONE_BITS
        }),
{
    lemma_first_unique(fs, host, h);
    lemma_first_unique(fs, active_tab_of(fs, host), t);
}

} // verus!
