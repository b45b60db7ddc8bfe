//! The running application's data: the configuration, the layout in use, and the contents of
//! folder portals.

use crate::config::{fences_at, same_rest};
use crate::dip::Dip;
use crate::model::{
    fence_models, no_override, AppearanceOverride, ColumnFlags, ColumnWidths, Config, Fence,
    FenceId, FenceModel, FenceView, GeometryModel, Item, ItemId, NormGeometry, SortMode, Spacing,
    TitleSize, ViewLayout,
};
use crate::settings::{Backdrop, Rgb};
use crate::store::ConfigStore;
use crate::tables::Catalog;
use crate::tabs::{
    first_index, has_fence, is_first, lemma_first_index, lemma_first_unique, position,
};
use std::collections::HashMap;
use vstd::prelude::*;

verus! {

/// One monitor: where it and its work area lie on the virtual screen, in pixels.
#[derive(Debug, PartialEq, Eq)]
pub struct WorkArea {
    pub device_path: String,
    pub left: i32,
    pub top: i32,
    pub right: i32,
    pub bottom: i32,
    pub dpi: u32,
    pub mon_left: i32,
    pub mon_top: i32,
    pub mon_right: i32,
    pub mon_bottom: i32,
}

pub struct AppState {
    pub config: Config,
    pub store: ConfigStore,
    /// The layout in use.
    pub layout: usize,
    /// Something changed since the configuration was last saved.
    pub dirty: bool,
    /// Which item a desktop path stands for.
    pub catalog: Catalog,
    /// The items that portals show. They are not saved.
    pub portal_items: HashMap<ItemId, Item>,
    /// The items of each portal, in order.
    pub portal_members: HashMap<FenceId, Vec<ItemId>>,
    /// The subfolder that a portal shows instead of its root.
    pub portal_cwd: HashMap<FenceId, String>,
    pub work_areas: Vec<WorkArea>,
    pub first_run: bool,
    pub recovered_from: Option<String>,
}

/// The layout in use exists.
pub open spec fn in_use(s: AppState) -> bool {
    s.layout < s.config.layouts.len()
}

/// The fences of the layout in use.
pub open spec fn fences(s: AppState) -> Seq<FenceModel> {
    fences_at(s.config, s.layout as int)
}

/// The two states differ at most in the fences of the layout in use and in whether there is
/// something to save.
pub open spec fn same_but_fences(a: AppState, b: AppState) -> bool {
    &&& same_rest(a.config, b.config)
    &&& a.config.undo_log == b.config.undo_log
    &&& a.config.layouts.len() == b.config.layouts.len()
    &&& forall|l: int|
        0 <= l < a.config.layouts.len() && l != a.layout ==> #[trigger] a.config.layouts@[l]
            == b.config.layouts@[l]
    &&& a.config.layouts@[a.layout as int].fingerprint@
        == b.config.layouts@[a.layout as int].fingerprint@
    &&& a.store == b.store
    &&& a.layout == b.layout
    &&& a.catalog == b.catalog
    &&& a.portal_items == b.portal_items
    &&& a.portal_members == b.portal_members
    &&& a.portal_cwd == b.portal_cwd
    &&& a.work_areas == b.work_areas
    &&& a.first_run == b.first_run
    &&& a.recovered_from == b.recovered_from
}

/// The first fence `id` of the layout in use.
pub open spec fn at(s: AppState, id: FenceId) -> FenceModel {
    fences(s)[first_index(fences(s), id)]
}

/// `fs` with its first fence `id`, where there is one, replaced by `f`.
pub open spec fn with_fence(fs: Seq<FenceModel>, id: FenceId, f: FenceModel) -> Seq<FenceModel> {
    if has_fence(fs, id) {
        fs.update(first_index(fs, id), f)
    } else {
        fs
    }
}

/// The first fence `id` of `before`, where there is one, was replaced by `f` to give `after`;
/// where that made a difference there is something to save.
pub open spec fn fence_set(before: AppState, after: AppState, id: FenceId, f: FenceModel) -> bool {
    &&& fences(after) == with_fence(fences(before), id, f)
    &&& after.dirty == (before.dirty || fences(after) != fences(before))
    &&& same_but_fences(after, before)
}

/// What `fence_mut` hands out and takes back, in terms of the fences of the layout in use.
proof fn lemma_fence_set(before: AppState, after: AppState, id: FenceId, f: Fence)
    requires
        in_use(before),
        has_fence(fences(before), id),
        after.config.layouts@ == before.config.layouts@.update(
            before.layout as int,
            after.config.layouts@[before.layout as int],
        ),
        after.layout == before.layout,
        after.config.layouts@[before.layout as int].fences@
            == before.config.layouts@[before.layout as int].fences@.update(
            first_index(fences(before), id),
            f,
        ),
    ensures
        fences(after) == with_fence(fences(before), id, f@),
        fences(after) != fences(before) <==> f@ != at(before, id),
{
    let fs = fences(before);
    lemma_first_index(fs, id);
    let i = first_index(fs, id);
    assert(fences(after) =~= with_fence(fs, id, f@));
    assert(fences(after)[i] == f@);
    if f@ == at(before, id) {
        assert(fences(after) =~= fs);
    }
}

/// What a change through `fence_mut` means for the fences of the layout in use.
pub(crate) proof fn lemma_edited(before: AppState, after: AppState, id: FenceId)
    requires
        in_use(before),
        after.layout == before.layout,
        has_fence(fences(before), id) ==> {
            let l = before.layout as int;
            let i = first_index(fences(before), id);
            &&& after.config.layouts@ == before.config.layouts@.update(l, after.config.layouts@[l])
            &&& exists|f: Fence|
                after.config.layouts@[l].fences@ == #[trigger] before.config.layouts@[l].fences@.update(
                    i,
                    f,
                )
        },
        !has_fence(fences(before), id) ==> after.config == before.config,
    ensures
        has_fence(fences(before), id) ==> {
            let l = before.layout as int;
            let i = first_index(fences(before), id);
            let f = after.config.layouts@[l].fences@[i];
            &&& is_first(fences(before), id, i)
            &&& after.config.layouts@[l].fences@ == before.config.layouts@[l].fences@.update(i, f)
            &&& fences(after) == with_fence(fences(before), id, f@)
            &&& fences(after) != fences(before) <==> f@ != at(before, id)
        },
{
    if has_fence(fences(before), id) {
        let l = before.layout as int;
        lemma_first_index(fences(before), id);
        let i = first_index(fences(before), id);
        lemma_fence_set(before, after, id, after.config.layouts@[l].fences@[i]);
    }
}

impl AppState {
    /// The fences of the layout in use.
    pub fn fences(&self) -> (r: &Vec<Fence>)
        requires
            in_use(*self),
        ensures
            fence_models(r@) == fences(*self),
    {
        &self.config.layouts[self.layout].fences
    }

    /// The first fence `id` of the layout in use.
    pub fn fence(&self, id: FenceId) -> (r: Option<&Fence>)
        requires
            in_use(*self),
        ensures
            r is Some <==> has_fence(fences(*self), id),
            r matches Some(f) ==> f@ == at(*self, id),
    {
        let fences = &self.config.layouts[self.layout].fences;
        match position(fences, id) {
            Some(i) => Some(&fences[i]),
            None => None,
        }
    }

    /// Notes that there is something to save.
    pub fn mark_dirty(&mut self)
        ensures
            *final(self) == (AppState { dirty: true, ..*old(self) }),
    {
        self.dirty = true;
    }

    /// Whether there is something to save.
    pub fn is_dirty(&self) -> (r: bool)
        ensures
            r == self.dirty,
    {
        self.dirty
    }

    /// Takes note of how a save went: after one that succeeded there is nothing to save until the
    /// next change. Returns whether something was saved.
    pub fn note_saved(&mut self, succeeded: bool) -> (r: bool)
        ensures
            r == (old(self).dirty && succeeded),
            *final(self) == (AppState { dirty: old(self).dirty && !succeeded, ..*old(self) }),
    {
        if !self.dirty {
            return false;
        }
        if succeeded {
            self.dirty = false;
        }
        succeeded
    }

    /// Whether double-clicking a subfolder opens it inside the portal.
    pub fn set_portal_navigate(&mut self, id: FenceId, on: bool)
        requires
            in_use(*old(self)),
        ensures
            fence_set(*old(self), *final(self), id, FenceModel { portal_navigate: on, ..at(*old(self), id) }),
    {
        let ghost before = *self;
        let layout: usize = self.layout;
        let mut changed = false;
        if let Some(f) = self.config.fence_mut(layout, id) {
            if f.portal_navigate != on {
                f.portal_navigate = on;
                changed = true;
            }
        }
        if changed {
            self.dirty = true;
        }
        proof {
            lemma_edited(before, *self, id);
        }
    }

    /// Whether the folder glyph before a portal's title is hidden.
    pub fn set_hide_title_icon(&mut self, id: FenceId, on: bool)
        requires
            in_use(*old(self)),
        ensures
            fence_set(*old(self), *final(self), id, FenceModel { hide_title_icon: on, ..at(*old(self), id) }),
    {
        let ghost before = *self;
        let layout: usize = self.layout;
        let mut changed = false;
        if let Some(f) = self.config.fence_mut(layout, id) {
            if f.hide_title_icon != on {
                f.hide_title_icon = on;
                changed = true;
            }
        }
        if changed {
            self.dirty = true;
        }
        proof {
            lemma_edited(before, *self, id);
        }
    }

    /// Whether position and size are fixed.
    pub fn set_locked(&mut self, id: FenceId, on: bool)
        requires
            in_use(*old(self)),
        ensures
            fence_set(*old(self), *final(self), id, FenceModel { locked: on, ..at(*old(self), id) }),
    {
        let ghost before = *self;
        let layout: usize = self.layout;
        let mut changed = false;
        if let Some(f) = self.config.fence_mut(layout, id) {
            if f.locked != on {
                f.locked = on;
                changed = true;
            }
        }
        if changed {
            self.dirty = true;
        }
        proof {
            lemma_edited(before, *self, id);
        }
    }

    /// Whether the fence stays when the others are hidden.
    pub fn set_exclude_from_quick_hide(&mut self, id: FenceId, on: bool)
        requires
            in_use(*old(self)),
        ensures
            fence_set(*old(self), *final(self), id, FenceModel { exclude_from_quick_hide: on, ..at(*old(self), id) }),
    {
        let ghost before = *self;
        let layout: usize = self.layout;
        let mut changed = false;
        if let Some(f) = self.config.fence_mut(layout, id) {
            if f.exclude_from_quick_hide != on {
                f.exclude_from_quick_hide = on;
                changed = true;
            }
        }
        if changed {
            self.dirty = true;
        }
        proof {
            lemma_edited(before, *self, id);
        }
    }

}

/// A fence's view sorted by `sort`. Any order but by date ends grouping by date.
pub open spec fn sorted_by(v: FenceView, sort: SortMode) -> FenceView {
    FenceView { sort, group_by_date: v.group_by_date && sort == SortMode::Date, ..v }
}

/// A fence's view with grouping by date on or off. Turning it on also sorts by date.
pub open spec fn grouped_by_date(v: FenceView, on: bool) -> FenceView {
    FenceView {
        group_by_date: on,
        sort: if on {
            SortMode::Date
        } else {
            v.sort
        },
        ..v
    }
}

/// A view that groups by date sorts by date, and stays so whatever order or grouping is chosen.
pub proof fn grouping_implies_date_order(v: FenceView, sort: SortMode, on: bool)
    requires
        v.group_by_date ==> v.sort == SortMode::Date,
    ensures
        sorted_by(v, sort).group_by_date ==> sorted_by(v, sort).sort == SortMode::Date,
        grouped_by_date(v, on).group_by_date ==> grouped_by_date(v, on).sort == SortMode::Date,
        sorted_by(v, sort).sort == sort,
        grouped_by_date(v, on).group_by_date == on,
{
}

/// The columns as they are saved: none where all are shown.
pub open spec fn saved_columns(visible: ColumnFlags) -> Option<ColumnFlags> {
    if visible == (ColumnFlags { date: true, kind: true, size: true }) {
        None
    } else {
        Some(visible)
    }
}

/// Two sets of widths are equal.
pub open spec fn widths_eq(a: ColumnWidths, b: ColumnWidths) -> bool {
    a.date.equals(b.date) && a.kind.equals(b.kind) && a.size.equals(b.size)
}

/// Two optional sets of widths are equal.
pub open spec fn optional_widths_eq(a: Option<ColumnWidths>, b: Option<ColumnWidths>) -> bool {
    match (a, b) {
        (Some(x), Some(y)) => widths_eq(x, y),
        (None, None) => true,
        _ => false,
    }
}

/// The widths as they are saved: none where they are the defaults.
pub open spec fn saved_widths(w: ColumnWidths, defaults: ColumnWidths) -> Option<ColumnWidths> {
    if widths_eq(w, defaults) {
        None
    } else {
        Some(w)
    }
}

fn same_widths(a: &ColumnWidths, b: &ColumnWidths) -> (r: bool)
    ensures
        r == widths_eq(*a, *b),
{
    a.date.same(b.date) && a.kind.same(b.kind) && a.size.same(b.size)
}

/// Two overrides are equal.
pub open spec fn override_eq(a: AppearanceOverride, b: AppearanceOverride) -> bool {
    &&& a.tint_rgb == b.tint_rgb
    &&& match (a.opacity, b.opacity) {
        (Some(x), Some(y)) => x.equals(y),
        (None, None) => true,
        _ => false,
    }
    &&& a.backdrop == b.backdrop
    &&& a.title_rgb == b.title_rgb
    &&& a.title_size == b.title_size
}

/// Two optional overrides are equal.
pub open spec fn optional_override_eq(
    a: Option<AppearanceOverride>,
    b: Option<AppearanceOverride>,
) -> bool {
    match (a, b) {
        (Some(x), Some(y)) => override_eq(x, y),
        (None, None) => true,
        _ => false,
    }
}

/// An override as it is saved: none where it overrides nothing.
pub open spec fn saved_override(a: AppearanceOverride) -> Option<AppearanceOverride> {
    if override_eq(a, no_override()) {
        None
    } else {
        Some(a)
    }
}

/// The override of a fence, or one that overrides nothing.
pub open spec fn override_of(f: FenceModel) -> AppearanceOverride {
    match f.appearance {
        Some(a) => a,
        None => no_override(),
    }
}

/// A fence with `next` as its override, unless it has an equal one already.
pub open spec fn with_override(f: FenceModel, next: AppearanceOverride) -> FenceModel {
    let saved = saved_override(next);
    if optional_override_eq(f.appearance, saved) {
        f
    } else {
        FenceModel { appearance: saved, ..f }
    }
}

fn same_override(a: &AppearanceOverride, b: &AppearanceOverride) -> (r: bool)
    ensures
        r == override_eq(*a, *b),
{
    let same_opacity = match (a.opacity, b.opacity) {
        (Some(x), Some(y)) => x.same(y),
        (None, None) => true,
        _ => false,
    };
    a.tint_rgb == b.tint_rgb && same_opacity && a.backdrop == b.backdrop && a.title_rgb
        == b.title_rgb && a.title_size == b.title_size
}

/// Gives a fence `next` as its override. Returns whether that changed it.
fn put_override(f: &mut Fence, next: AppearanceOverride) -> (changed: bool)
    ensures
        final(f)@ == with_override(old(f)@, next),
        changed == !optional_override_eq(old(f)@.appearance, saved_override(next)),
{
    let saved = if same_override(&next, &AppearanceOverride::default()) {
        None
    } else {
        Some(next)
    };
    let same = match (&f.appearance, &saved) {
        (Some(x), Some(y)) => same_override(x, y),
        (None, None) => true,
        _ => false,
    };
    if !same {
        f.appearance = saved;
    }
    !same
}

/// The fence was given an override; there is something to save where it had no equal one.
pub open spec fn override_set(
    before: AppState,
    after: AppState,
    id: FenceId,
    next: AppearanceOverride,
) -> bool {
    &&& fences(after) == with_fence(fences(before), id, with_override(at(before, id), next))
    &&& after.dirty == (before.dirty || (has_fence(fences(before), id) && !optional_override_eq(
        at(before, id).appearance,
        saved_override(next),
    )))
    &&& same_but_fences(after, before)
}

/// Two geometries are equal.
pub open spec fn geometry_eq(a: GeometryModel, b: GeometryModel) -> bool {
    &&& a.monitor == b.monitor
    &&& a.x.equals(b.x)
    &&& a.y.equals(b.y)
    &&& a.w.equals(b.w)
    &&& a.h.equals(b.h)
    &&& a.work_w.equals(b.work_w)
    &&& a.work_h.equals(b.work_h)
    &&& a.anchor == b.anchor
}

fn same_geometry(a: &NormGeometry, b: &NormGeometry) -> (r: bool)
    ensures
        r == geometry_eq(a@, b@),
{
    a.monitor == b.monitor && a.x.same(b.x) && a.y.same(b.y) && a.w.same(b.w) && a.h.same(b.h)
        && a.work_w.same(b.work_w) && a.work_h.same(b.work_h) && a.anchor == b.anchor
}

/// A point lies in a work area.
pub open spec fn in_area(w: WorkArea, x: int, y: int) -> bool {
    w.left <= x < w.right && w.top <= y < w.bottom
}

/// The work area that a point belongs to: the first one that it lies in, else the first one.
pub fn work_area_at(areas: &Vec<WorkArea>, x: i32, y: i32) -> (r: Option<usize>)
    ensures
        r is None <==> areas.len() == 0,
        r matches Some(i) ==> {
            &&& i < areas.len()
            &&& forall|j: int| 0 <= j < i ==> !in_area(#[trigger] areas@[j], x as int, y as int)
            &&& in_area(areas@[i as int], x as int, y as int) || (i == 0 && forall|j: int|
                0 <= j < areas.len() ==> !in_area(#[trigger] areas@[j], x as int, y as int))
        },
{
    let n: usize = areas.len();
    for i in 0..n
        invariant
            n == areas.len(),
            forall|j: int| 0 <= j < i ==> !in_area(#[trigger] areas@[j], x as int, y as int),
    {
        let w = &areas[i];
        if x >= w.left && x < w.right && y >= w.top && y < w.bottom {
            return Some(i);
        }
    }
    if n == 0 {
        None
    } else {
        Some(0)
    }
}

impl AppState {
    /// How the fence shows its items.
    fn view_of(&self, id: FenceId) -> (r: Option<FenceView>)
        requires
            in_use(*self),
        ensures
            r == if has_fence(fences(*self), id) {
                Some(at(*self, id).view)
            } else {
                None
            },
    {
        match self.fence(id) {
            Some(f) => Some(f.view),
            None => None,
        }
    }

    /// Makes `v` how the fence shows its items; `changed` says whether it is another way.
    fn set_view(&mut self, id: FenceId, v: FenceView, changed: bool)
        requires
            in_use(*old(self)),
            has_fence(fences(*old(self)), id),
            changed == (v != at(*old(self), id).view),
        ensures
            fence_set(
                *old(self),
                *final(self),
                id,
                FenceModel { view: v, ..at(*old(self), id) },
            ),
    {
        let ghost before = *self;
        let layout: usize = self.layout;
        if changed {
            if let Some(f) = self.config.fence_mut(layout, id) {
                f.view = v;
            }
            self.dirty = true;
            proof {
                lemma_edited(before, *self, id);
            }
        } else {
            proof {
                lemma_first_index(fences(before), id);
                assert(fences(before) =~= with_fence(fences(before), id, at(before, id)));
            }
        }
    }

    /// The size of the icons.
    pub fn set_icon_size(&mut self, id: FenceId, size: u32)
        requires
            in_use(*old(self)),
        ensures
            fence_set(
                *old(self),
                *final(self),
                id,
                FenceModel {
                    view: FenceView { icon_size: size, ..at(*old(self), id).view },
                    ..at(*old(self), id)
                },
            ),
    {
        if let Some(v) = self.view_of(id) {
            let next = FenceView { icon_size: size, ..v };
            self.set_view(id, next, v.icon_size != size);
        }
    }

    /// Whether the height follows the items.
    pub fn set_auto_height(&mut self, id: FenceId, on: bool)
        requires
            in_use(*old(self)),
        ensures
            fence_set(
                *old(self),
                *final(self),
                id,
                FenceModel {
                    view: FenceView { auto_height: on, ..at(*old(self), id).view },
                    ..at(*old(self), id)
                },
            ),
    {
        if let Some(v) = self.view_of(id) {
            let next = FenceView { auto_height: on, ..v };
            self.set_view(id, next, v.auto_height != on);
        }
    }

    /// Whether the order is reversed.
    pub fn set_reverse(&mut self, id: FenceId, on: bool)
        requires
            in_use(*old(self)),
        ensures
            fence_set(
                *old(self),
                *final(self),
                id,
                FenceModel {
                    view: FenceView { reverse: on, ..at(*old(self), id).view },
                    ..at(*old(self), id)
                },
            ),
    {
        if let Some(v) = self.view_of(id) {
            let next = FenceView { reverse: on, ..v };
            self.set_view(id, next, v.reverse != on);
        }
    }

    /// The distance between icons.
    pub fn set_spacing(&mut self, id: FenceId, spacing: Spacing)
        requires
            in_use(*old(self)),
        ensures
            fence_set(
                *old(self),
                *final(self),
                id,
                FenceModel {
                    view: FenceView { spacing, ..at(*old(self), id).view },
                    ..at(*old(self), id)
                },
            ),
    {
        if let Some(v) = self.view_of(id) {
            let next = FenceView { spacing, ..v };
            self.set_view(id, next, v.spacing != spacing);
        }
    }

    /// How the items are laid out.
    pub fn set_layout(&mut self, id: FenceId, layout: ViewLayout)
        requires
            in_use(*old(self)),
        ensures
            fence_set(
                *old(self),
                *final(self),
                id,
                FenceModel {
                    view: FenceView { layout, ..at(*old(self), id).view },
                    ..at(*old(self), id)
                },
            ),
    {
        if let Some(v) = self.view_of(id) {
            let next = FenceView { layout, ..v };
            self.set_view(id, next, v.layout != layout);
        }
    }

    /// Which columns are shown.
    pub fn set_columns_visible(&mut self, id: FenceId, visible: ColumnFlags)
        requires
            in_use(*old(self)),
        ensures
            fence_set(
                *old(self),
                *final(self),
                id,
                FenceModel {
                    view: FenceView { columns_visible: saved_columns(visible), ..at(*old(self), id).view },
                    ..at(*old(self), id)
                },
            ),
    {
        if let Some(v) = self.view_of(id) {
            let columns: Option<ColumnFlags> = if visible.date && visible.kind && visible.size {
                None
            } else {
                Some(visible)
            };
            let next = FenceView { columns_visible: columns, ..v };
            self.set_view(id, next, v.columns_visible != columns);
        }
    }

    /// The order of the items. Any order but by date ends grouping by date.
    pub fn set_sort(&mut self, id: FenceId, sort: SortMode)
        requires
            in_use(*old(self)),
        ensures
            fence_set(
                *old(self),
                *final(self),
                id,
                FenceModel {
                    view: sorted_by(at(*old(self), id).view, sort),
                    ..at(*old(self), id)
                },
            ),
    {
        if let Some(v) = self.view_of(id) {
            let ends: bool = sort != SortMode::Date && v.group_by_date;
            let next = FenceView { sort, group_by_date: v.group_by_date && !ends, ..v };
            self.set_view(id, next, v.sort != sort || ends);
        }
    }

    /// Whether the items are grouped by date. Turning it on also sorts by date.
    pub fn set_group_by_date(&mut self, id: FenceId, on: bool)
        requires
            in_use(*old(self)),
        ensures
            fence_set(
                *old(self),
                *final(self),
                id,
                FenceModel {
                    view: grouped_by_date(at(*old(self), id).view, on),
                    ..at(*old(self), id)
                },
            ),
    {
        if let Some(v) = self.view_of(id) {
            let sorts: bool = on && v.sort != SortMode::Date;
            let next = FenceView {
                group_by_date: on,
                sort: if sorts {
                    SortMode::Date
                } else {
                    v.sort
                },
                ..v
            };
            self.set_view(id, next, v.group_by_date != on || sorts);
        }
    }

    /// The widths of the columns, saved where they are not the `defaults`.
    pub fn set_column_widths(&mut self, id: FenceId, widths: ColumnWidths, defaults: ColumnWidths)
        requires
            in_use(*old(self)),
        ensures
            ({
                let v = at(*old(self), id).view;
                let next = saved_widths(widths, defaults);
                let changed = has_fence(fences(*old(self)), id) && !optional_widths_eq(
                    v.column_widths,
                    next,
                );
                &&& fences(*final(self)) == if changed {
                    with_fence(
                        fences(*old(self)),
                        id,
                        FenceModel {
                            view: FenceView { column_widths: next, ..v },
                            ..at(*old(self), id)
                        },
                    )
                } else {
                    fences(*old(self))
                }
                &&& final(self).dirty == (old(self).dirty || changed)
            }),
            same_but_fences(*final(self), *old(self)),
    {
        let ghost before = *self;
        let layout: usize = self.layout;
        let next: Option<ColumnWidths> = if same_widths(&widths, &defaults) {
            None
        } else {
            Some(widths)
        };
        let mut changed = false;
        if let Some(f) = self.config.fence_mut(layout, id) {
            let same = match (&f.view.column_widths, &next) {
                (Some(x), Some(y)) => same_widths(x, y),
                (None, None) => true,
                _ => false,
            };
            if !same {
                f.view.column_widths = next;
                changed = true;
            }
        }
        if changed {
            self.dirty = true;
        }
        proof {
            lemma_edited(before, *self, id);
        }
    }

    /// The title of the fence.
    pub fn rename_fence(&mut self, id: FenceId, title: &str)
        requires
            in_use(*old(self)),
        ensures
            fence_set(*old(self), *final(self), id, FenceModel { title: title@, ..at(*old(self), id) }),
    {
        let ghost before = *self;
        let layout: usize = self.layout;
        let mut changed = false;
        let new_title = title.to_owned();
        if let Some(f) = self.config.fence_mut(layout, id) {
            if f.title != new_title {
                f.title = new_title;
                changed = true;
            }
        }
        if changed {
            self.dirty = true;
        }
        proof {
            lemma_edited(before, *self, id);
        }
    }

    /// Overrides the material and the opacity of one fence; none for what the settings say.
    pub fn set_appearance(&mut self, id: FenceId, backdrop: Option<Backdrop>, opacity: Option<Dip>)
        requires
            in_use(*old(self)),
        ensures
            override_set(
                *old(self),
                *final(self),
                id,
                AppearanceOverride { backdrop, opacity, ..override_of(at(*old(self), id)) },
            ),
    {
        let ghost before = *self;
        let layout: usize = self.layout;
        let mut changed = false;
        if let Some(f) = self.config.fence_mut(layout, id) {
            let mut next = match f.appearance {
                Some(a) => a,
                None => AppearanceOverride::default(),
            };
            next.backdrop = backdrop;
            next.opacity = opacity;
            changed = put_override(f, next);
        }
        if changed {
            self.dirty = true;
        }
        proof {
            lemma_edited(before, *self, id);
        }
    }

    /// Overrides the colour wash, the title's colour and its size; none for what the theme says.
    pub fn set_style(
        &mut self,
        id: FenceId,
        tint_rgb: Option<Rgb>,
        title_rgb: Option<Rgb>,
        title_size: Option<TitleSize>,
    )
        requires
            in_use(*old(self)),
        ensures
            override_set(
                *old(self),
                *final(self),
                id,
                AppearanceOverride {
                    tint_rgb,
                    title_rgb,
                    title_size,
                    ..override_of(at(*old(self), id))
                },
            ),
    {
        let ghost before = *self;
        let layout: usize = self.layout;
        let mut changed = false;
        if let Some(f) = self.config.fence_mut(layout, id) {
            let mut next = match f.appearance {
                Some(a) => a,
                None => AppearanceOverride::default(),
            };
            next.tint_rgb = tint_rgb;
            next.title_rgb = title_rgb;
            next.title_size = title_size;
            changed = put_override(f, next);
        }
        if changed {
            self.dirty = true;
        }
        proof {
            lemma_edited(before, *self, id);
        }
    }

    /// Rolls the fence up, or down again. Returns whether it is rolled up now; none where there is
    /// no such fence.
    pub fn toggle_rolled(&mut self, id: FenceId) -> (r: Option<bool>)
        requires
            in_use(*old(self)),
        ensures
            r == if has_fence(fences(*old(self)), id) {
                Some(!at(*old(self), id).rolled_up)
            } else {
                None
            },
            fence_set(
                *old(self),
                *final(self),
                id,
                FenceModel {
                    rolled_up: !at(*old(self), id).rolled_up,
                    ..at(*old(self), id)
                },
            ),
    {
        let ghost before = *self;
        let layout: usize = self.layout;
        let mut rolled: Option<bool> = None;
        if let Some(f) = self.config.fence_mut(layout, id) {
            f.rolled_up = !f.rolled_up;
            rolled = Some(f.rolled_up);
        }
        if rolled.is_some() {
            self.dirty = true;
        }
        proof {
            lemma_edited(before, *self, id);
        }
        rolled
    }

    /// Takes over a fence's geometry and whether it is rolled up, where either changed. The height
    /// to restore is that of the geometry, which is the expanded one.
    pub fn set_fence_bounds(&mut self, id: FenceId, geometry: NormGeometry, rolled: bool)
        requires
            in_use(*old(self)),
        ensures
            ({
                let f = at(*old(self), id);
                let changed = has_fence(fences(*old(self)), id) && (!geometry_eq(
                    f.geometry,
                    geometry@,
                ) || f.rolled_up != rolled);
                &&& fences(*final(self)) == if changed {
                    with_fence(
                        fences(*old(self)),
                        id,
                        FenceModel {
                            geometry: geometry@,
                            expanded_h: geometry.h,
                            rolled_up: rolled,
                            ..f
                        },
                    )
                } else {
                    fences(*old(self))
                }
                &&& final(self).dirty == (old(self).dirty || changed)
            }),
            same_but_fences(*final(self), *old(self)),
    {
        let ghost before = *self;
        let layout: usize = self.layout;
        let mut changed = false;
        if let Some(f) = self.config.fence_mut(layout, id) {
            if !same_geometry(&f.geometry, &geometry) || f.rolled_up != rolled {
                f.expanded_h = geometry.h;
                f.geometry = geometry;
                f.rolled_up = rolled;
                changed = true;
            }
        }
        if changed {
            self.dirty = true;
        }
        proof {
            lemma_edited(before, *self, id);
        }
    }
}

// ---- what edits change ------------------------------------------------------------------------

/// Changing a fence changes the first one with that id and no other.
pub proof fn an_edit_changes_one_fence(fs: Seq<FenceModel>, id: FenceId, f: FenceModel, i: int)
    requires
        0 <= i < fs.len(),
    ensures
        with_fence(fs, id, f).len() == fs.len(),
        fs[i].id != id ==> with_fence(fs, id, f)[i] == fs[i],
        fs[i].id == id && (forall|j: int| 0 <= j < i ==> (#[trigger] fs[j]).id != id) ==> with_fence(
            fs,
            id,
            f,
        )[i] == f,
{
    if has_fence(fs, id) {
        lemma_first_index(fs, id);
        let k = first_index(fs, id);
        if fs[i].id == id && (forall|j: int| 0 <= j < i ==> (#[trigger] fs[j]).id != id) {
            if k < i {
                assert(fs[k].id != id);
            }
            if i < k {
                assert(fs[i].id != id);
            }
        }
    }
}

/// A fence keeps nothing of its own looks where they are those of every fence; columns and their
/// widths likewise.
pub proof fn defaults_are_not_saved(
    a: AppearanceOverride,
    visible: ColumnFlags,
    w: ColumnWidths,
    defaults: ColumnWidths,
)
    ensures
        a.tint_rgb is None && a.opacity is None && a.backdrop is None && a.title_rgb is None
            && a.title_size is None ==> saved_override(a) is None,
        a.tint_rgb is Some || a.opacity is Some || a.backdrop is Some || a.title_rgb is Some
            || a.title_size is Some ==> saved_override(a) == Some(a),
        visible.date && visible.kind && visible.size ==> saved_columns(visible) is None,
        !(visible.date && visible.kind && visible.size) ==> saved_columns(visible) == Some(visible),
        w.date.equals(defaults.date) && w.kind.equals(defaults.kind) && w.size.equals(defaults.size)
            ==> saved_widths(w, defaults) is None,
        !w.date.equals(defaults.date) || !w.kind.equals(defaults.kind) || !w.size.equals(
            defaults.size,
        ) ==> saved_widths(w, defaults) == Some(w),
{
}

/// Sorting a fence by another order ends its grouping by date, and grouping sorts it by date;
/// neither changes anything else about its view.
pub proof fn sorting_keeps_the_rest_of_the_view(v: FenceView, sort: SortMode, on: bool)
    ensures
        sorted_by(v, sort) == (FenceView {
            sort,
            group_by_date: sorted_by(v, sort).group_by_date,
            ..v
        }),
        sort is Date ==> sorted_by(v, sort).group_by_date == v.group_by_date,
        !(sort is Date) ==> !sorted_by(v, sort).group_by_date,
        grouped_by_date(v, false) == (FenceView { group_by_date: false, ..v }),
        grouped_by_date(v, true) == (FenceView { group_by_date: true, sort: SortMode::Date, ..v }),
{
}

/// A point is in a work area from its left and top edges on, up to but not on the right and bottom
/// ones.
pub proof fn areas_exclude_their_far_edges(w: WorkArea, x: int, y: int)
    ensures
        in_area(w, x, y) ==> x != w.right && y != w.bottom && x >= w.left && y >= w.top,
        w.left < w.right && w.top < w.bottom ==> in_area(w, w.left as int, w.top as int) && in_area(
            w,
            w.right - 1,
            w.bottom - 1,
        ),
        x < w.left || y < w.top || x > w.right || y > w.bottom ==> !in_area(w, x, y),
{
}

/// A fence is locked, left out of hiding, walked in or shown without its icon as it is told, and
/// nothing else about it changes.
pub proof fn switches_of_a_fence_are_stored(
    s: &mut AppState,
    id: FenceId,
    i: int,
    on: bool,
)
    requires
        is_first(fences(*old(s)), id, i),
    ensures
        call_ensures(AppState::set_locked, (s, id, on), ()) ==> fences(*final(s))[i] == (FenceModel {
            locked: on,
            ..fences(*old(s))[i]
        }),
        call_ensures(AppState::set_portal_navigate, (s, id, on), ()) ==> fences(*final(s))[i] == (FenceModel {
            portal_navigate: on,
            ..fences(*old(s))[i]
        }),
        call_ensures(AppState::set_hide_title_icon, (s, id, on), ()) ==> fences(*final(s))[i] == (FenceModel {
            hide_title_icon: on,
            ..fences(*old(s))[i]
        }),
        call_ensures(AppState::set_exclude_from_quick_hide, (s, id, on), ()) ==> fences(*final(s))[i] == (FenceModel {
            exclude_from_quick_hide: on,
            ..fences(*old(s))[i]
        }),
{
    lemma_first_unique(fences(*old(s)), id, i);
}

/// A fence follows the height of its contents and lists them the other way round as it is told,
/// with icons of the size it is given.
pub proof fn the_height_and_order_of_a_fence_are_stored(
    s: &mut AppState,
    id: FenceId,
    i: int,
    on: bool,
    size: u32,
)
    requires
        is_first(fences(*old(s)), id, i),
    ensures
        call_ensures(AppState::set_auto_height, (s, id, on), ()) ==> fences(*final(s))[i] == (FenceModel {
            view: FenceView { auto_height: on, ..fences(*old(s))[i].view },
            ..fences(*old(s))[i]
        }),
        call_ensures(AppState::set_reverse, (s, id, on), ()) ==> fences(*final(s))[i] == (FenceModel {
            view: FenceView { reverse: on, ..fences(*old(s))[i].view },
            ..fences(*old(s))[i]
        }),
        call_ensures(AppState::set_icon_size, (s, id, size), ()) ==> fences(*final(s))[i] == (FenceModel {
            view: FenceView { icon_size: size, ..fences(*old(s))[i].view },
            ..fences(*old(s))[i]
        }),
{
    lemma_first_unique(fences(*old(s)), id, i);
}

/// A fence is laid out, spaced and sorted as it is told.
pub proof fn the_view_of_a_fence_is_stored(
    s: &mut AppState,
    id: FenceId,
    i: int,
    layout: ViewLayout,
    spacing: Spacing,
    sort: SortMode,
)
    requires
        is_first(fences(*old(s)), id, i),
    ensures
        call_ensures(AppState::set_spacing, (s, id, spacing), ()) ==> fences(*final(s))[i] == (FenceModel {
            view: FenceView { spacing, ..fences(*old(s))[i].view },
            ..fences(*old(s))[i]
        }),
        call_ensures(AppState::set_layout, (s, id, layout), ()) ==> fences(*final(s))[i] == (FenceModel {
            view: FenceView { layout, ..fences(*old(s))[i].view },
            ..fences(*old(s))[i]
        }),
        call_ensures(AppState::set_sort, (s, id, sort), ()) ==> fences(*final(s))[i].view.sort == sort
            && fences(*final(s))[i].items == fences(*old(s))[i].items,
{
    lemma_first_unique(fences(*old(s)), id, i);
}

/// Rolling a fence turns it over and says what it is now; a state that was saved has nothing left
/// to save.
pub proof fn rolling_and_saving_turn_over(s: &mut AppState, id: FenceId, i: int, r: Option<bool>, b: bool)
    requires
        is_first(fences(*old(s)), id, i),
    ensures
        call_ensures(AppState::toggle_rolled, (s, id), r) ==> r == Some(!fences(*old(s))[i].rolled_up)
            && fences(*final(s))[i].rolled_up == !fences(*old(s))[i].rolled_up && final(s).dirty,
        call_ensures(AppState::note_saved, (s, true), b) ==> !final(s).dirty && b == old(s).dirty,
        call_ensures(AppState::note_saved, (s, false), b) ==> final(s).dirty == old(s).dirty && !b,
        call_ensures(AppState::mark_dirty, (s,), ()) ==> final(s).dirty,
{
    lemma_first_unique(fences(*old(s)), id, i);
    if call_ensures(AppState::toggle_rolled, (s, id), r) {
        assert(fences(*final(s))[i] != fences(*old(s))[i]);
    }
}

/// Where only fences were edited, the items, the rules, the settings, the log, the snapshots, the
/// other layouts and the portals are as they were.
pub proof fn editing_fences_leaves_the_rest(a: AppState, b: AppState, l: int)
    requires
        same_but_fences(a, b),
        0 <= l < b.config.layouts.len(),
        l != a.layout,
    ensures
        a.config.items == b.config.items && a.config.rules == b.config.rules && a.config.settings
            == b.config.settings && a.config.undo_log == b.config.undo_log && a.config.snapshots
            == b.config.snapshots && a.config.schema_version == b.config.schema_version,
        a.config.layouts.len() == b.config.layouts.len() && a.config.layouts@[l] == b.config.layouts@[l],
        a.layout == b.layout && a.store == b.store && a.work_areas == b.work_areas,
        a.catalog == b.catalog && a.portal_items == b.portal_items && a.portal_members
            == b.portal_members && a.portal_cwd == b.portal_cwd,
        a.first_run == b.first_run && a.recovered_from == b.recovered_from,
{
}

/// The looks of a fence are what was asked for, kept only where they differ from those of every
/// fence; there is something to save where that changes them.
pub proof fn looks_are_stored_where_they_differ(f: FenceModel, next: AppearanceOverride)
    ensures
        ({
            let g = with_override(f, next);
            &&& g == (FenceModel { appearance: g.appearance, ..f })
            &&& override_eq(next, no_override()) ==> g.appearance is None
            &&& !override_eq(next, no_override()) ==> g.appearance == Some(next) || (
            f.appearance is Some && override_eq(f.appearance->0, next) && g == f)
        }),
        override_of(f) == (if f.appearance is Some {
            f.appearance->0
        } else {
            no_override()
        }),
        override_eq(next, next) || (next.opacity is Some && next.opacity->0.nan()),
{
}

/// Two looks are the same where all of their parts are.
pub proof fn looks_compare_part_by_part(a: AppearanceOverride, b: AppearanceOverride)
    ensures
        override_eq(a, b) ==> a.tint_rgb == b.tint_rgb && a.backdrop == b.backdrop && a.title_rgb
            == b.title_rgb && a.title_size == b.title_size && (a.opacity is Some <==> b.opacity is Some),
        override_eq(a, b) && a.opacity is Some ==> a.opacity->0.equals(b.opacity->0),
        a == b && a.opacity is None ==> override_eq(a, b),
{
}

/// Two frames are the same where their monitor, their anchor and all of their lengths are.
pub proof fn frames_compare_part_by_part(a: GeometryModel, b: GeometryModel)
    ensures
        geometry_eq(a, b) <==> a.monitor == b.monitor && a.anchor == b.anchor && a.x.equals(b.x)
            && a.y.equals(b.y) && a.w.equals(b.w) && a.h.equals(b.h) && a.work_w.equals(b.work_w)
            && a.work_h.equals(b.work_h),
{
}

} // verus!
