//! Choosing the layout for the monitors that are there.

use crate::config::{is_for, texts};
use crate::model::{
    clone_fences, fence_models, layout_models, Config, Fence, FenceModel, GeometryModel, Layout,
    LayoutModel, MonitorIdentity, NormGeometry, RuleSet,
};
use crate::records::{is_catalog_of, same_but_records};
use crate::state::{fences, in_use, same_but_fences, AppState, WorkArea};
use crate::store::{ConfigStore, LoadOutcome};
use crate::tab_repair::repaired;
use crate::tables::Catalog;
use std::collections::HashMap;
use vstd::prelude::*;

verus! {

/// What a layout that has to be made is made of: the monitors that are there, and, where no
/// layout exists at all, the fences and the rules to begin with.
pub struct Setup {
    pub fingerprint: Vec<MonitorIdentity>,
    pub fences: Vec<Fence>,
    pub rules: RuleSet,
}

/// The device paths of the monitors.
pub open spec fn area_paths(areas: Seq<WorkArea>) -> Seq<Seq<char>> {
    Seq::new(areas.len(), |i: int| areas[i].device_path@)
}

/// The first layout for these monitors stands at `i`.
pub open spec fn first_for(layouts: Seq<LayoutModel>, paths: Seq<Seq<char>>, i: int) -> bool {
    &&& 0 <= i < layouts.len()
    &&& is_for(layouts[i], paths)
    &&& forall|j: int| 0 <= j < i ==> !is_for(#[trigger] layouts[j], paths)
}

/// Where the first layout for these monitors stands.
pub open spec fn layout_place(layouts: Seq<LayoutModel>, paths: Seq<Seq<char>>) -> Option<int> {
    if exists|i: int| first_for(layouts, paths, i) {
        Some(choose|i: int| first_for(layouts, paths, i))
    } else {
        None
    }
}

/// The fences of a layout that has to be made: those of the first layout, else those to begin
/// with.
pub open spec fn seed(layouts: Seq<LayoutModel>, setup: Setup) -> Seq<FenceModel> {
    if layouts.len() > 0 {
        layouts[0].fences
    } else {
        fence_models(setup.fences@)
    }
}

/// The fences that are in use once the layout was chosen.
pub open spec fn chosen_fences(
    layouts: Seq<LayoutModel>,
    paths: Seq<Seq<char>>,
    setup: Setup,
) -> Seq<FenceModel> {
    match layout_place(layouts, paths) {
        Some(i) => layouts[i].fences,
        None => seed(layouts, setup),
    }
}

/// The layouts once the one for the monitors was chosen: a new one is added where there is none.
pub open spec fn chosen_layouts(
    layouts: Seq<LayoutModel>,
    paths: Seq<Seq<char>>,
    setup: Setup,
) -> Seq<LayoutModel> {
    match layout_place(layouts, paths) {
        Some(_) => layouts,
        None => layouts.push(
            LayoutModel { fingerprint: setup.fingerprint@, fences: seed(layouts, setup) },
        ),
    }
}

/// The two configurations differ at most in layouts and rules.
pub open spec fn same_but_layouts(a: Config, b: Config) -> bool {
    &&& a.schema_version == b.schema_version
    &&& a.settings == b.settings
    &&& a.items == b.items
    &&& a.undo_log == b.undo_log
    &&& a.snapshots == b.snapshots
}

/// What choosing the layout does.
pub open spec fn layout_ensured(a: AppState, b: AppState, setup: Setup) -> bool {
    let before = layout_models(a.config.layouts@);
    let paths = area_paths(a.work_areas@);
    &&& layout_models(b.config.layouts@) == chosen_layouts(before, paths, setup)
    &&& b.layout == match layout_place(before, paths) {
        Some(i) => i,
        None => before.len() as int,
    }
    &&& b.config.rules == if before.len() == 0 {
        setup.rules
    } else {
        a.config.rules
    }
    &&& b.dirty == (a.dirty || layout_place(before, paths) is None)
    &&& layout_place(before, paths) is Some ==> b.config == a.config
    &&& same_but_layouts(b.config, a.config)
    &&& same_but_records(b, AppState { config: b.config, layout: b.layout, ..a })
    &&& b.catalog == a.catalog
}

proof fn lemma_place(layouts: Seq<LayoutModel>, paths: Seq<Seq<char>>, i: int)
    requires
        first_for(layouts, paths, i),
    ensures
        layout_place(layouts, paths) == Some(i),
{
    let k = choose|k: int| first_for(layouts, paths, k);
    assert(first_for(layouts, paths, k));
    if k < i {
        assert(!is_for(layouts[k], paths));
    }
    if i < k {
        assert(!is_for(layouts[i], paths));
    }
}

impl AppState {
    /// The device paths of the monitors.
    pub fn device_paths(&self) -> (r: Vec<String>)
        ensures
            texts(r@) == area_paths(self.work_areas@),
    {
        let mut out: Vec<String> = Vec::new();
        let n: usize = self.work_areas.len();
        for i in 0..n
            invariant
                n == self.work_areas.len(),
                out.len() == i,
                forall|j: int|
                    0 <= j < i ==> (#[trigger] out@[j])@ == self.work_areas@[j].device_path@,
        {
            out.push(self.work_areas[i].device_path.clone());
        }
        assert(texts(out@) =~= area_paths(self.work_areas@));
        out
    }

    /// Chooses the layout for the monitors that are there. Where there is none, one is made: with
    /// the fences of the first layout, or, where there is no layout at all, with those to begin
    /// with and their rules.
    pub fn ensure_layout(&mut self, setup: Setup)
        requires
            old(self).config.layouts.len() < usize::MAX,
        ensures
            layout_ensured(*old(self), *final(self), setup),
            in_use(*final(self)),
    {
        let paths = self.device_paths();
        let ghost before = layout_models(self.config.layouts@);
        let ghost wanted = area_paths(self.work_areas@);
        if let Some(i) = self.config.layout_for(&paths) {
            proof {
                assert(first_for(before, wanted, i as int)) by {
                    assert forall|j: int| 0 <= j < i implies !is_for(#[trigger] before[j], wanted) by {
                        assert(before[j] == self.config.layouts@[j]@);
                    }
                }
                lemma_place(before, wanted, i as int);
            }
            self.layout = i;
            return ;
        }
        proof {
            assert forall|i: int| !first_for(before, wanted, i) by {
                if first_for(before, wanted, i) {
                    assert(before[i] == self.config.layouts@[i]@);
                }
            }
        }
        let Setup { fingerprint, fences, rules } = setup;
        let fresh: bool = self.config.layouts.len() == 0;
        let fences = if fresh {
            self.config.rules = rules;
            fences
        } else {
            clone_fences(&self.config.layouts[0].fences)
        };
        let n: usize = self.config.layouts.len();
        let made = Layout { fingerprint, fences };
        assert(made@.fences == seed(before, setup));
        self.config.layouts.push(made);
        assert(layout_models(self.config.layouts@) =~= chosen_layouts(before, wanted, setup));
        self.layout = n;
        self.dirty = true;
    }
}

// ---- settling -----------------------------------------------------------------------------

/// The layout for the monitors is in use, with its tab links repaired; the other layouts are as
/// they were.
pub open spec fn settled(
    b: AppState,
    layouts: Seq<LayoutModel>,
    paths: Seq<Seq<char>>,
    setup: Setup,
) -> bool {
    let all = chosen_layouts(layouts, paths, setup);
    let now = layout_models(b.config.layouts@);
    &&& b.layout == match layout_place(layouts, paths) {
        Some(i) => i,
        None => layouts.len() as int,
    }
    &&& now.len() == all.len()
    &&& forall|l: int| 0 <= l < all.len() && l != b.layout ==> #[trigger] now[l] == all[l]
    &&& now[b.layout as int].fingerprint == all[b.layout as int].fingerprint
    &&& fences(b) == repaired(chosen_fences(layouts, paths, setup))
}

/// The rules once the layout was chosen.
pub open spec fn settled_rules(layouts: Seq<LayoutModel>, rules: RuleSet, setup: Setup) -> RuleSet {
    if layouts.len() == 0 {
        setup.rules
    } else {
        rules
    }
}

impl AppState {
    /// Chooses the layout anew and repairs its tab links.
    pub(crate) fn settle(&mut self, setup: Setup)
        requires
            old(self).config.layouts.len() < usize::MAX,
        ensures
            settled(
                *final(self),
                layout_models(old(self).config.layouts@),
                area_paths(old(self).work_areas@),
                setup,
            ),
            ({
                let layouts = layout_models(old(self).config.layouts@);
                let paths = area_paths(old(self).work_areas@);
                &&& final(self).config.rules == settled_rules(
                    layouts,
                    old(self).config.rules,
                    setup,
                )
                &&& final(self).dirty == (old(self).dirty || layout_place(layouts, paths) is None
                    || fences(*final(self)) != chosen_fences(layouts, paths, setup))
            }),
            in_use(*final(self)),
            same_but_layouts(final(self).config, old(self).config),
            final(self).store == old(self).store,
            final(self).catalog == old(self).catalog,
            final(self).portal_items == old(self).portal_items,
            final(self).portal_members == old(self).portal_members,
            final(self).portal_cwd == old(self).portal_cwd,
            final(self).work_areas == old(self).work_areas,
            final(self).first_run == old(self).first_run,
            final(self).recovered_from == old(self).recovered_from,
    {
        let ghost layouts = layout_models(self.config.layouts@);
        let ghost paths = area_paths(self.work_areas@);
        self.layout = 0;
        self.ensure_layout(setup);
        let ghost mid = *self;
        let ghost all = chosen_layouts(layouts, paths, setup);
        proof {
            if let Some(i) = layout_place(layouts, paths) {
                assert(first_for(layouts, paths, i));
            }
            assert(layout_models(mid.config.layouts@)[mid.layout as int]
                == mid.config.layouts@[mid.layout as int]@);
            assert(fences(mid) == chosen_fences(layouts, paths, setup));
        }
        self.normalize_tabs();
        proof {
            let now = layout_models(self.config.layouts@);
            assert forall|l: int| 0 <= l < all.len() && l != self.layout implies #[trigger] now[l]
                == all[l] by {
                assert(self.config.layouts@[l] == mid.config.layouts@[l]);
                assert(layout_models(mid.config.layouts@)[l] == mid.config.layouts@[l]@);
            }
        }
    }

    /// The state to begin with, from what loading came to.
    pub fn load(
        outcome: LoadOutcome,
        store: ConfigStore,
        work_areas: Vec<WorkArea>,
        setup: Setup,
    ) -> (r: AppState)
        requires
            loaded_config(outcome).layouts.len() < usize::MAX,
        ensures
            ({
                let c = loaded_config(outcome);
                let layouts = layout_models(c.layouts@);
                let paths = area_paths(work_areas@);
                &&& settled(r, layouts, paths, setup)
                &&& same_but_layouts(r.config, c)
                &&& r.config.rules == settled_rules(layouts, c.rules, setup)
                &&& r.dirty == (layout_place(layouts, paths) is None || fences(r) != chosen_fences(
                    layouts,
                    paths,
                    setup,
                ))
                &&& is_catalog_of(r.catalog@, c.items@)
            }),
            in_use(r),
            r.store == store,
            r.work_areas == work_areas,
            r.first_run == (outcome is Fresh),
            r.recovered_from == match outcome {
                LoadOutcome::Recovered(_, from) => Some(from),
                _ => None,
            },
            r.portal_items@ == Map::<crate::model::ItemId, crate::model::Item>::empty(),
            r.portal_members@ == Map::<
                crate::model::FenceId,
                Vec<crate::model::ItemId>,
            >::empty(),
            r.portal_cwd@ == Map::<crate::model::FenceId, String>::empty(),
    {
        let (config, first_run, recovered_from) = match outcome {
            LoadOutcome::Primary(c) => (c, false, None),
            LoadOutcome::Recovered(c, from) => (c, false, Some(from)),
            LoadOutcome::Fresh(c, _) => (c, true, None),
        };
        let mut state = AppState {
            config,
            store,
            layout: 0,
            dirty: false,
            catalog: Catalog::new(),
            portal_items: HashMap::new(),
            portal_members: HashMap::new(),
            portal_cwd: HashMap::new(),
            work_areas,
            first_run,
            recovered_from,
        };
        state.rebuild_catalog();
        state.settle(setup);
        state
    }
}

/// The configuration that was loaded.
pub open spec fn loaded_config(outcome: LoadOutcome) -> Config {
    match outcome {
        LoadOutcome::Primary(c) => c,
        LoadOutcome::Recovered(c, _) => c,
        LoadOutcome::Fresh(c, _) => c,
    }
}

/// A layout that is there for the monitors is used as it is; nothing is made or saved.
pub proof fn a_known_set_of_monitors_gets_its_layout(
    a: AppState,
    b: AppState,
    setup: Setup,
    i: int,
)
    requires
        layout_ensured(a, b, setup),
        0 <= i < a.config.layouts.len(),
        is_for(a.config.layouts@[i]@, area_paths(a.work_areas@)),
    ensures
        b.config == a.config,
        b.dirty == a.dirty,
        0 <= b.layout <= i,
        is_for(b.config.layouts@[b.layout as int]@, area_paths(a.work_areas@)),
        forall|j: int|
            0 <= j < b.layout ==> !is_for(
                (#[trigger] a.config.layouts@[j])@,
                area_paths(a.work_areas@),
            ),
{
    let layouts = layout_models(a.config.layouts@);
    let paths = area_paths(a.work_areas@);
    assert(layouts[i] == a.config.layouts@[i]@);
    lemma_some_first(layouts, paths, i);
    let k = choose|k: int| first_for(layouts, paths, k);
    lemma_place(layouts, paths, k);
    if i < k {
        assert(!is_for(layouts[i], paths));
    }
    assert(layouts[k] == a.config.layouts@[k]@);
    assert forall|j: int| 0 <= j < b.layout implies !is_for(
        (#[trigger] a.config.layouts@[j])@,
        paths,
    ) by {
        assert(layouts[j] == a.config.layouts@[j]@);
    }
}

/// A new set of monitors gets a layout of its own, behind the others, which stay: with the fences
/// of the first layout, and the fences and the rules to begin with only where there is no layout at
/// all.
pub proof fn a_new_set_of_monitors_keeps_the_fences(a: AppState, b: AppState, setup: Setup)
    requires
        layout_ensured(a, b, setup),
        forall|j: int|
            0 <= j < a.config.layouts.len() ==> !is_for(
                (#[trigger] a.config.layouts@[j])@,
                area_paths(a.work_areas@),
            ),
    ensures
        b.layout == a.config.layouts.len(),
        b.config.layouts.len() == a.config.layouts.len() + 1,
        forall|j: int|
            0 <= j < a.config.layouts.len() ==> (#[trigger] b.config.layouts@[j])@
                == a.config.layouts@[j]@,
        b.config.layouts@[b.layout as int]@.fingerprint == setup.fingerprint@,
        a.config.layouts.len() > 0 ==> fences(b) == a.config.layouts@[0]@.fences && b.config.rules
            == a.config.rules,
        a.config.layouts.len() == 0 ==> fences(b) == fence_models(setup.fences@) && b.config.rules
            == setup.rules,
        b.dirty,
{
    let layouts = layout_models(a.config.layouts@);
    let paths = area_paths(a.work_areas@);
    assert forall|i: int| !first_for(layouts, paths, i) by {
        if first_for(layouts, paths, i) {
            assert(layouts[i] == a.config.layouts@[i]@);
        }
    }
    let now = layout_models(b.config.layouts@);
    assert(now.len() == b.config.layouts.len());
    assert forall|j: int| 0 <= j < a.config.layouts.len() implies (
    #[trigger] b.config.layouts@[j])@ == a.config.layouts@[j]@ by {
        assert(now[j] == b.config.layouts@[j]@);
        assert(layouts[j] == a.config.layouts@[j]@);
    }
    let n = a.config.layouts.len() as int;
    assert(now[n] == b.config.layouts@[n]@);
    if n > 0 {
        assert(layouts[0] == a.config.layouts@[0]@);
    }
}

/// Choosing the layout again changes nothing, as long as the monitors are the ones that the layout
/// was made for.
pub proof fn a_chosen_layout_stays_chosen(
    layouts: Seq<LayoutModel>,
    paths: Seq<Seq<char>>,
    setup: Setup,
    again: Setup,
)
    requires
        is_for(LayoutModel { fingerprint: setup.fingerprint@, fences: Seq::empty() }, paths),
    ensures
        ({
            let all = chosen_layouts(layouts, paths, setup);
            let i = match layout_place(layouts, paths) {
                Some(i) => i,
                None => layouts.len() as int,
            };
            &&& layout_place(all, paths) == Some(i)
            &&& chosen_layouts(all, paths, again) == all
            &&& chosen_fences(all, paths, again) == chosen_fences(layouts, paths, setup)
        }),
{
    let all = chosen_layouts(layouts, paths, setup);
    match layout_place(layouts, paths) {
        Some(i) => {},
        None => {
            let n = layouts.len() as int;
            assert(is_for(all[n], paths));
            assert forall|j: int| 0 <= j < n implies !is_for(#[trigger] all[j], paths) by {
                if is_for(layouts[j], paths) {
                    lemma_some_first(layouts, paths, j);
                }
            }
            assert(first_for(all, paths, n));
            lemma_place(all, paths, n);
        },
    }
}

proof fn lemma_some_first(layouts: Seq<LayoutModel>, paths: Seq<Seq<char>>, j: int)
    requires
        0 <= j < layouts.len(),
        is_for(layouts[j], paths),
    ensures
        exists|i: int| first_for(layouts, paths, i),
    decreases j,
{
    if exists|k: int| 0 <= k < j && is_for(#[trigger] layouts[k], paths) {
        let k = choose|k: int| 0 <= k < j && is_for(#[trigger] layouts[k], paths);
        lemma_some_first(layouts, paths, k);
    } else {
        assert(first_for(layouts, paths, j));
    }
}

// ---- swapping monitors --------------------------------------------------------------------

/// Some monitor has this device path.
pub open spec fn has_area(areas: Seq<WorkArea>, path: Seq<char>) -> bool {
    exists|i: int| 0 <= i < areas.len() && (#[trigger] areas[i]).device_path@ == path
}

/// Where a fence on monitor `at` goes when `a` and `b` swap.
pub open spec fn swap_target(at: Seq<char>, a: Seq<char>, b: Seq<char>) -> Option<Seq<char>> {
    if a == b {
        None
    } else if at == a {
        Some(b)
    } else if at == b {
        Some(a)
    } else {
        None
    }
}

/// A fence once the contents of two monitors were swapped: `placed` is its geometry on the other
/// monitor, which only matters where that monitor is there.
pub open spec fn swapped(
    f: FenceModel,
    a: Seq<char>,
    b: Seq<char>,
    areas: Seq<WorkArea>,
    placed: GeometryModel,
) -> FenceModel {
    match swap_target(f.geometry.monitor, a, b) {
        None => f,
        Some(to) => FenceModel {
            geometry: if has_area(areas, to) {
                placed
            } else {
                GeometryModel { monitor: to, ..f.geometry }
            },
            ..f
        },
    }
}

/// How many of the first `n` fences move when `a` and `b` swap.
pub open spec fn swaps(fs: Seq<FenceModel>, a: Seq<char>, b: Seq<char>) -> nat
    decreases fs.len(),
{
    if fs.len() == 0 {
        0
    } else {
        swaps(fs.drop_last(), a, b) + if swap_target(fs.last().geometry.monitor, a, b) is Some {
            1nat
        } else {
            0nat
        }
    }
}

fn area_there(areas: &Vec<WorkArea>, path: &str) -> (r: bool)
    ensures
        r == has_area(areas@, path@),
{
    let wanted = path.to_owned();
    let n: usize = areas.len();
    for i in 0..n
        invariant
            n == areas.len(),
            wanted@ == path@,
            forall|j: int| 0 <= j < i ==> (#[trigger] areas@[j]).device_path@ != path@,
    {
        if areas[i].device_path == wanted {
            return true;
        }
    }
    false
}

fn swap_fence(f: &mut Fence, to: &str, there: bool, placed: &NormGeometry)
    ensures
        final(f)@ == (FenceModel {
            geometry: if there {
                placed@
            } else {
                GeometryModel { monitor: to@, ..old(f)@.geometry }
            },
            ..old(f)@
        }),
{
    if there {
        f.geometry = placed.clone();
    } else {
        f.geometry.monitor = to.to_owned();
    }
}

impl AppState {
    /// Swaps the contents of two monitors: every fence on `a` moves to `b` and the other way
    /// round. `placed` has the geometry of each fence on the other monitor, its gaps to the edges
    /// it is anchored to kept. Returns how many fences moved.
    pub fn swap_monitors(&mut self, a: &str, b: &str, placed: &Vec<NormGeometry>) -> (r: usize)
        requires
            in_use(*old(self)),
            placed.len() == fences(*old(self)).len(),
        ensures
            fences(*final(self)).len() == fences(*old(self)).len(),
            forall|i: int|
                0 <= i < fences(*old(self)).len() ==> #[trigger] fences(*final(self))[i] == swapped(
                    fences(*old(self))[i],
                    a@,
                    b@,
                    old(self).work_areas@,
                    placed@[i]@,
                ),
            r == swaps(fences(*old(self)), a@, b@),
            final(self).dirty == (old(self).dirty || r > 0),
            same_but_fences(*final(self), *old(self)),
    {
        let first = a.to_owned();
        let second = b.to_owned();
        let ghost fs = fences(*self);
        if first == second {
            proof {
                lemma_no_swap(fs, a@, b@);
            }
            return 0;
        }
        let has_a = area_there(&self.work_areas, a);
        let has_b = area_there(&self.work_areas, b);
        let layout: usize = self.layout;
        let mut count: usize = 0;
        let n: usize = self.config.layouts[layout].fences.len();
        for i in 0..n
            invariant
                layout == self.layout,
                in_use(*self),
                fs == fences(*old(self)),
                n == fs.len(),
                n == placed.len(),
                fences(*self).len() == n,
                first@ == a@,
                second@ == b@,
                a@ != b@,
                has_a == has_area(old(self).work_areas@, a@),
                has_b == has_area(old(self).work_areas@, b@),
                count == swaps(fs.take(i as int), a@, b@),
                count <= i,
                self.dirty == old(self).dirty,
                same_but_fences(*self, *old(self)),
                forall|j: int|
                    0 <= j < i ==> #[trigger] fences(*self)[j] == swapped(
                        fs[j],
                        a@,
                        b@,
                        old(self).work_areas@,
                        placed@[j]@,
                    ),
                forall|j: int| i <= j < n ==> #[trigger] fences(*self)[j] == fs[j],
        {
            let ghost here = fences(*self);
            assert(fs.take(i + 1).drop_last() == fs.take(i as int));
            assert(here[i as int] == fs[i as int]);
            assert(here[i as int] == self.config.layouts@[layout as int].fences@[i as int]@);
            if self.config.layouts[layout].fences[i].geometry.monitor == first {
                swap_fence(&mut self.config.layouts[layout].fences[i], b, has_b, &placed[i]);
                count = count + 1;
            } else if self.config.layouts[layout].fences[i].geometry.monitor == second {
                swap_fence(&mut self.config.layouts[layout].fences[i], a, has_a, &placed[i]);
                count = count + 1;
            }
            assert(fences(*self) =~= here.update(
                i as int,
                swapped(fs[i as int], a@, b@, old(self).work_areas@, placed@[i as int]@),
            ));
        }
        assert(fs.take(n as int) == fs);
        if count > 0 {
            self.dirty = true;
        }
        count
    }
}

proof fn lemma_no_swap(fs: Seq<FenceModel>, a: Seq<char>, b: Seq<char>)
    requires
        a == b,
    ensures
        swaps(fs, a, b) == 0,
    decreases fs.len(),
{
    if fs.len() > 0 {
        lemma_no_swap(fs.drop_last(), a, b);
    }
}

/// Where neither monitor is there, swapping twice restores every fence.
pub proof fn swapping_twice_restores(
    f: FenceModel,
    a: Seq<char>,
    b: Seq<char>,
    areas: Seq<WorkArea>,
    placed: GeometryModel,
    placed_back: GeometryModel,
)
    requires
        !has_area(areas, a),
        !has_area(areas, b),
    ensures
        swapped(swapped(f, a, b, areas, placed), a, b, areas, placed_back) == f,
{
}

/// The fences of two monitors change places: one on the first goes to the second, with the frame
/// that is placed there or, where that monitor is away, with its own, and the other way round.
/// Those on other monitors stay.
pub proof fn fences_change_places(
    f: FenceModel,
    a: Seq<char>,
    b: Seq<char>,
    areas: Seq<WorkArea>,
    placed: GeometryModel,
)
    requires
        a != b,
    ensures
        ({
            let g = swapped(f, a, b, areas, placed);
            let to = if f.geometry.monitor == a {
                b
            } else {
                a
            };
            &&& f.geometry.monitor != a && f.geometry.monitor != b ==> g == f
            &&& f.geometry.monitor == a || f.geometry.monitor == b ==> {
                &&& g == (FenceModel { geometry: g.geometry, ..f })
                &&& (exists|i: int|
                    0 <= i < areas.len() && (#[trigger] areas[i]).device_path@ == to) ==> g.geometry
                    == placed
                &&& (forall|i: int|
                    0 <= i < areas.len() ==> (#[trigger] areas[i]).device_path@ != to) ==> g.geometry
                    == (GeometryModel { monitor: to, ..f.geometry })
            }
        }),
        swapped(f, a, a, areas, placed) == f,
{
}

/// The number of fences that change places is that of the fences on either monitor.
pub proof fn swapped_fences_are_counted(fs: Seq<FenceModel>, a: Seq<char>, b: Seq<char>)
    requires
        a != b,
    ensures
        swaps(fs, a, b) == fs.filter(
            |f: FenceModel| f.geometry.monitor == a || f.geometry.monitor == b,
        ).len(),
    decreases fs.len(),
{
    reveal(Seq::filter);
    if fs.len() > 0 {
        swapped_fences_are_counted(fs.drop_last(), a, b);
    }
}

/// A layout that was not there before brings its own rules only where there was none at all.
pub proof fn the_first_layout_brings_the_rules(
    layouts: Seq<LayoutModel>,
    rules: RuleSet,
    setup: Setup,
)
    ensures
        layouts.len() > 0 ==> settled_rules(layouts, rules, setup) == rules,
        layouts.len() == 0 ==> settled_rules(layouts, rules, setup) == setup.rules,
{
}

/// A state that is settled on layouts shows the first one for the monitors that are there; where
/// there is none it shows the fences of the first layout of all, or those of the setup where there
/// is no layout. The other layouts stay as they are.
pub proof fn a_settled_state_shows_its_layout(
    b: AppState,
    layouts: Seq<LayoutModel>,
    paths: Seq<Seq<char>>,
    setup: Setup,
    i: int,
    l: int,
)
    requires
        settled(b, layouts, paths, setup),
        0 <= l < layouts.len(),
    ensures
        0 <= i < layouts.len() && is_for(layouts[i], paths) && (forall|j: int|
            0 <= j < i ==> !is_for(#[trigger] layouts[j], paths)) ==> b.layout == i && fences(b)
            == repaired(layouts[i].fences) && b.config.layouts.len() == layouts.len(),
        (forall|j: int| 0 <= j < layouts.len() ==> !is_for(#[trigger] layouts[j], paths)) ==> b.layout
            == layouts.len() && fences(b) == repaired(layouts[0].fences) && b.config.layouts.len()
            == layouts.len() + 1,
        l != b.layout ==> b.config.layouts@[l]@ == layouts[l],
{
    if 0 <= i < layouts.len() && is_for(layouts[i], paths) && (forall|j: int|
        0 <= j < i ==> !is_for(#[trigger] layouts[j], paths)) {
        assert(first_for(layouts, paths, i));
        let k = choose|k: int| first_for(layouts, paths, k);
        assert(first_for(layouts, paths, k));
        if k < i {
            assert(!is_for(layouts[k], paths));
        }
        if i < k {
            assert(!is_for(layouts[i], paths));
        }
    }
    if l != b.layout {
        let now = layout_models(b.config.layouts@);
        assert(now[l] == chosen_layouts(layouts, paths, setup)[l]);
    }
}

/// Where there is no layout at all, the fences of the setup are shown.
pub proof fn without_layouts_the_setup_is_shown(
    b: AppState,
    paths: Seq<Seq<char>>,
    setup: Setup,
)
    requires
        settled(b, Seq::empty(), paths, setup),
    ensures
        b.layout == 0,
        b.config.layouts.len() == 1,
        fences(b) == repaired(fence_models(setup.fences@)),
{
    assert forall|i: int| !first_for(Seq::<LayoutModel>::empty(), paths, i) by {}
}

/// Loading keeps what was loaded, forgets what portals showed, and tells a first run and where the
/// configuration was recovered from.
pub proof fn loading_keeps_what_was_loaded(
    outcome: LoadOutcome,
    store: ConfigStore,
    work_areas: Vec<WorkArea>,
    setup: Setup,
    r: AppState,
)
    requires
        call_ensures(AppState::load, (outcome, store, work_areas, setup), r),
    ensures
        outcome is Fresh <==> r.first_run,
        outcome is Recovered <==> r.recovered_from is Some,
        outcome matches LoadOutcome::Primary(c) ==> r.config.settings == c.settings && r.config.items
            == c.items && r.config.snapshots == c.snapshots && r.config.undo_log == c.undo_log,
        outcome matches LoadOutcome::Recovered(c, from) ==> r.config.settings == c.settings
            && r.config.items == c.items && r.recovered_from == Some(from),
        r.store == store && r.work_areas == work_areas,
        forall|f: crate::model::FenceId| !r.portal_cwd@.contains_key(f),
{
}

/// Choosing a layout leaves the settings, the items, the log and the snapshots.
pub proof fn choosing_a_layout_leaves_the_rest(a: Config, b: Config)
    requires
        same_but_layouts(a, b),
    ensures
        a.settings == b.settings && a.items == b.items && a.undo_log == b.undo_log && a.snapshots
            == b.snapshots && a.schema_version == b.schema_version,
{
}

} // verus!
