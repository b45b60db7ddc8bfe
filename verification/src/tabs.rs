//! Tabbed fences: which window a fence is shown in, the order of the tabs, and what moves when a
//! tab leaves its window or comes back.

use crate::dip::Dip;
use crate::model::{fence_models, Fence, FenceId, FenceModel, GeometryModel, Layout, NormGeometry};
use vstd::prelude::*;

verus! {

// ---- finding fences -----------------------------------------------------------------------

/// Some fence has this id.
pub open spec fn has_fence(fs: Seq<FenceModel>, id: FenceId) -> bool {
    exists|i: int| 0 <= i < fs.len() && (#[trigger] fs[i]).id == id
}

/// Fence `i` is the first one with this id.
pub open spec fn is_first(fs: Seq<FenceModel>, id: FenceId, i: int) -> bool {
    &&& 0 <= i < fs.len()
    &&& fs[i].id == id
    &&& forall|j: int| 0 <= j < i ==> (#[trigger] fs[j]).id != id
}

/// The position of the first fence with this id, where there is one.
pub open spec fn first_index(fs: Seq<FenceModel>, id: FenceId) -> int {
    choose|i: int| is_first(fs, id, i)
}

/// No two fences share an id.
pub open spec fn distinct_ids(fs: Seq<FenceModel>) -> bool {
    forall|i: int, j: int|
        0 <= i < fs.len() && 0 <= j < fs.len() && (#[trigger] fs[i]).id == (#[trigger] fs[j]).id
            ==> i == j
}

/// Where a fence has the id, `first_index` is the first such one.
pub proof fn lemma_first_index(fs: Seq<FenceModel>, id: FenceId)
    requires
        has_fence(fs, id),
    ensures
        is_first(fs, id, first_index(fs, id)),
    decreases fs.len(),
{
    let k = choose|i: int| 0 <= i < fs.len() && (#[trigger] fs[i]).id == id;
    lemma_first_below(fs, id, k);
}

pub(crate) proof fn lemma_first_below(fs: Seq<FenceModel>, id: FenceId, k: int)
    requires
        0 <= k < fs.len(),
        fs[k].id == id,
    ensures
        exists|i: int| is_first(fs, id, i),
    decreases k,
{
    if exists|j: int| 0 <= j < k && (#[trigger] fs[j]).id == id {
        let j = choose|j: int| 0 <= j < k && (#[trigger] fs[j]).id == id;
        lemma_first_below(fs, id, j);
    } else {
        assert(is_first(fs, id, k));
    }
}

/// Only one fence is the first one with an id.
pub proof fn lemma_first_unique(fs: Seq<FenceModel>, id: FenceId, i: int)
    requires
        is_first(fs, id, i),
    ensures
        has_fence(fs, id),
        first_index(fs, id) == i,
{
    let k = first_index(fs, id);
    assert(is_first(fs, id, k));
    if k < i {
        assert(fs[k].id != id);
    }
    if i < k {
        assert(fs[i].id != id);
    }
}

/// The position of the first fence with this id.
pub fn position(fences: &Vec<Fence>, id: FenceId) -> (r: Option<usize>)
    ensures
        r matches Some(i) ==> is_first(fence_models(fences@), id, i as int) && first_index(
            fence_models(fences@),
            id,
        ) == i,
        r is Some <==> has_fence(fence_models(fences@), id),
{
    let ghost fs = fence_models(fences@);
    let n: usize = fences.len();
    for i in 0..n
        invariant
            n == fences.len(),
            fs == fence_models(fences@),
            forall|j: int| 0 <= j < i ==> (#[trigger] fs[j]).id != id,
    {
        if fences[i].id == id {
            assert(fs[i as int].id == id);
            proof {
                lemma_first_unique(fs, id, i as int);
            }
            return Some(i);
        }
        assert(fs[i as int].id != id);
    }
    None
}

// ---- hosts and tabs -----------------------------------------------------------------------

/// A fence with this id owns a window: it is not a tab.
pub open spec fn is_window(fs: Seq<FenceModel>, id: FenceId) -> bool {
    exists|j: int| 0 <= j < fs.len() && (#[trigger] fs[j]).id == id && fs[j].tab_host is None
}

/// The window a fence is shown in: that of its host, where the host owns one, else its own.
pub open spec fn host_of(fs: Seq<FenceModel>, id: FenceId) -> FenceId {
    if has_fence(fs, id) {
        match fs[first_index(fs, id)].tab_host {
            Some(h) => if is_window(fs, h) {
                h
            } else {
                id
            },
            None => id,
        }
    } else {
        id
    }
}

/// Fence `t` is a tab of `host`.
pub open spec fn is_tab_of(fs: Seq<FenceModel>, t: FenceId, host: FenceId) -> bool {
    exists|j: int| 0 <= j < fs.len() && (#[trigger] fs[j]).id == t && fs[j].tab_host == Some(host)
}

/// The fence whose items a window shows: the host's active tab, where it is a tab of it, else
/// the host itself.
pub open spec fn active_tab_of(fs: Seq<FenceModel>, host: FenceId) -> FenceId {
    if has_fence(fs, host) {
        match fs[first_index(fs, host)].active_tab {
            Some(t) => if is_tab_of(fs, t, host) {
                t
            } else {
                host
            },
            None => host,
        }
    } else {
        host
    }
}

/// The ids of the fences hosted by `host`, in layout order.
pub open spec fn hosted_ids(fs: Seq<FenceModel>, host: FenceId) -> Seq<FenceId>
    decreases fs.len(),
{
    if fs.len() == 0 {
        Seq::empty()
    } else {
        let rest = hosted_ids(fs.drop_last(), host);
        if fs.last().tab_host == Some(host) {
            rest.push(fs.last().id)
        } else {
            rest
        }
    }
}

/// The fence is a tab itself, or names a host that is not there.
pub open spec fn is_hosted(fs: Seq<FenceModel>, id: FenceId) -> bool {
    has_fence(fs, id) && !is_window(fs, id)
}

/// The host and then its tabs in layout order. A fence that is itself hosted has none.
pub open spec fn natural_tabs(fs: Seq<FenceModel>, host: FenceId) -> Seq<FenceId> {
    if is_hosted(fs, host) {
        seq![host]
    } else {
        seq![host] + hosted_ids(fs, host)
    }
}

/// The stored strip order of a host.
pub open spec fn order_of(fs: Seq<FenceModel>, host: FenceId) -> Seq<FenceId> {
    if has_fence(fs, host) {
        fs[first_index(fs, host)].tab_order
    } else {
        Seq::empty()
    }
}

/// The members of `s` that are in `allowed`, in their order.
pub open spec fn only(s: Seq<FenceId>, allowed: Seq<FenceId>) -> Seq<FenceId>
    decreases s.len(),
{
    if s.len() == 0 {
        Seq::empty()
    } else {
        let rest = only(s.drop_last(), allowed);
        if allowed.contains(s.last()) {
            rest.push(s.last())
        } else {
            rest
        }
    }
}

/// The members of `s` other than `id`, in their order.
pub open spec fn without(s: Seq<FenceId>, id: FenceId) -> Seq<FenceId>
    decreases s.len(),
{
    if s.len() == 0 {
        Seq::empty()
    } else {
        let rest = without(s.drop_last(), id);
        if s.last() != id {
            rest.push(s.last())
        } else {
            rest
        }
    }
}

/// `s` with every repetition left out.
pub open spec fn first_occurrences(s: Seq<FenceId>) -> Seq<FenceId>
    decreases s.len(),
{
    if s.len() == 0 {
        Seq::empty()
    } else {
        let rest = first_occurrences(s.drop_last());
        if rest.contains(s.last()) {
            rest
        } else {
            rest.push(s.last())
        }
    }
}

/// The tabs of a window in strip order: those that the stored order lists, then the others, the
/// host first.
pub open spec fn tabs_of(fs: Seq<FenceModel>, host: FenceId) -> Seq<FenceId> {
    first_occurrences(only(order_of(fs, host), natural_tabs(fs, host)) + natural_tabs(fs, host))
}

pub(crate) proof fn lemma_push_contains(s: Seq<FenceId>, x: FenceId)
    ensures
        forall|y: FenceId| #[trigger] s.push(x).contains(y) <==> s.contains(y) || y == x,
{
    assert forall|y: FenceId| #[trigger] s.push(x).contains(y) <==> s.contains(y) || y == x by {
        if s.contains(y) {
            assert(s.push(x)[s.index_of(y)] == y);
        }
        if y == x {
            assert(s.push(x)[s.len() as int] == y);
        }
        if s.push(x).contains(y) {
            let k = s.push(x).index_of(y);
            if k < s.len() {
                assert(s[k] == y);
            }
        }
    }
}

pub(crate) proof fn lemma_first_occurrences(s: Seq<FenceId>)
    ensures
        first_occurrences(s).no_duplicates(),
        forall|x: FenceId| #[trigger] first_occurrences(s).contains(x) <==> s.contains(x),
    decreases s.len(),
{
    if s.len() > 0 {
        let t = s.drop_last();
        lemma_first_occurrences(t);
        assert(s == t.push(s.last()));
        lemma_push_contains(t, s.last());
        lemma_push_contains(first_occurrences(t), s.last());
    }
}

pub(crate) proof fn lemma_only(s: Seq<FenceId>, allowed: Seq<FenceId>)
    ensures
        forall|x: FenceId| #[trigger]
            only(s, allowed).contains(x) <==> s.contains(x) && allowed.contains(x),
    decreases s.len(),
{
    if s.len() > 0 {
        let t = s.drop_last();
        lemma_only(t, allowed);
        assert(s == t.push(s.last()));
        lemma_push_contains(t, s.last());
        lemma_push_contains(only(t, allowed), s.last());
    }
}

pub(crate) proof fn lemma_hosted_ids(fs: Seq<FenceModel>, host: FenceId)
    ensures
        forall|x: FenceId| #[trigger] hosted_ids(fs, host).contains(x) <==> is_tab_of(fs, x, host),
    decreases fs.len(),
{
    if fs.len() > 0 {
        let t = fs.drop_last();
        lemma_hosted_ids(t, host);
        lemma_push_contains(hosted_ids(t, host), fs.last().id);
        assert forall|x: FenceId| #[trigger]
            hosted_ids(fs, host).contains(x) <==> is_tab_of(fs, x, host) by {
            if is_tab_of(t, x, host) {
                let j = choose|j: int|
                    0 <= j < t.len() && (#[trigger] t[j]).id == x && t[j].tab_host == Some(host);
                assert(fs[j].id == x);
            }
            if is_tab_of(fs, x, host) {
                let j = choose|j: int|
                    0 <= j < fs.len() && (#[trigger] fs[j]).id == x && fs[j].tab_host == Some(host);
                if j < t.len() {
                    assert(t[j].id == x);
                }
            }
            assert(hosted_ids(t, host).contains(x) <==> is_tab_of(t, x, host));
        }
    }
}

/// The tabs of a window are listed once each: the host and the fences that it hosts, no others. A
/// fence that is itself hosted lists none but itself.
pub proof fn tabs_are_the_host_and_its_tabs(fs: Seq<FenceModel>, host: FenceId)
    ensures
        tabs_of(fs, host).no_duplicates(),
        forall|x: FenceId| #[trigger]
            tabs_of(fs, host).contains(x) <==> x == host || !is_hosted(fs, host) && is_tab_of(
                fs,
                x,
                host,
            ),
{
    let natural = natural_tabs(fs, host);
    let kept = only(order_of(fs, host), natural);
    lemma_first_occurrences(kept + natural);
    lemma_only(order_of(fs, host), natural);
    lemma_hosted_ids(fs, host);
    assert forall|x: FenceId| #[trigger]
        tabs_of(fs, host).contains(x) <==> x == host || !is_hosted(fs, host) && is_tab_of(
            fs,
            x,
            host,
        ) by {
        let hosted = hosted_ids(fs, host);
        if natural.contains(x) {
            let k = natural.index_of(x);
            if k > 0 {
                assert(hosted[k - 1] == x);
            }
            assert((kept + natural)[kept.len() + k] == x);
        }
        if x == host {
            assert(natural[0] == x);
        }
        if !is_hosted(fs, host) && hosted.contains(x) {
            assert(natural[hosted.index_of(x) + 1] == x);
        }
        if (kept + natural).contains(x) {
            let m = (kept + natural).index_of(x);
            if m < kept.len() {
                assert(kept[m] == x);
                assert(kept.contains(x));
            } else {
                assert(natural[m - kept.len()] == x);
            }
            assert(natural.contains(x));
        }
        assert(hosted.contains(x) <==> is_tab_of(fs, x, host));
    }
}

/// A strip of more than one tab is that of a window.
pub(crate) proof fn lemma_strips_are_of_windows(fs: Seq<FenceModel>, host: FenceId)
    requires
        tabs_of(fs, host).len() >= 2,
    ensures
        !is_hosted(fs, host),
{
    let strip = tabs_of(fs, host);
    tabs_are_the_host_and_its_tabs(fs, host);
    assert(strip.contains(strip[0]) && strip.contains(strip[1]));
}

/// Whether `id` is one of `ids`.
pub fn contains_id(ids: &Vec<FenceId>, id: FenceId) -> (r: bool)
    ensures
        r == ids@.contains(id),
{
    let n: usize = ids.len();
    for i in 0..n
        invariant
            n == ids.len(),
            forall|j: int| 0 <= j < i ==> ids@[j] != id,
    {
        if ids[i] == id {
            return true;
        }
    }
    false
}

/// The first position of `id` in `ids`.
pub fn id_position(ids: &Vec<FenceId>, id: FenceId) -> (r: Option<usize>)
    ensures
        r matches Some(i) ==> i < ids.len() && ids@[i as int] == id && forall|j: int|
            0 <= j < i ==> ids@[j] != id,
        r is Some <==> ids@.contains(id),
{
    let n: usize = ids.len();
    for i in 0..n
        invariant
            n == ids.len(),
            forall|j: int| 0 <= j < i ==> ids@[j] != id,
    {
        if ids[i] == id {
            return Some(i);
        }
    }
    None
}

/// Whether two lists of ids are equal.
pub fn same_ids(a: &Vec<FenceId>, b: &Vec<FenceId>) -> (r: bool)
    ensures
        r == (a@ == b@),
{
    if a.len() != b.len() {
        return false;
    }
    let n: usize = a.len();
    for i in 0..n
        invariant
            n == a.len(),
            n == b.len(),
            forall|j: int| 0 <= j < i ==> a@[j] == b@[j],
    {
        if a[i] != b[i] {
            return false;
        }
    }
    assert(a@ =~= b@);
    true
}

impl Layout {
    /// The window a fence is shown in: itself, or the fence hosting it as a tab.
    pub fn host_of(&self, id: FenceId) -> (r: FenceId)
        ensures
            r == host_of(self@.fences, id),
    {
        match position(&self.fences, id) {
            Some(i) => match self.fences[i].tab_host {
                Some(h) => if self.owns_window(h) {
                    h
                } else {
                    id
                },
                None => id,
            },
            None => id,
        }
    }

    fn owns_window(&self, id: FenceId) -> (r: bool)
        ensures
            r == is_window(self@.fences, id),
    {
        let ghost fs = self@.fences;
        let n: usize = self.fences.len();
        for i in 0..n
            invariant
                n == self.fences.len(),
                fs == self@.fences,
                forall|j: int| 0 <= j < i ==> (#[trigger] fs[j]).id != id || fs[j].tab_host is Some,
        {
            assert(fs[i as int].id == self.fences[i as int].id);
            if self.fences[i].id == id && self.fences[i].tab_host.is_none() {
                return true;
            }
        }
        false
    }

    pub(crate) fn is_tab(&self, tab: FenceId, host: FenceId) -> (r: bool)
        ensures
            r == is_tab_of(self@.fences, tab, host),
    {
        let ghost fs = self@.fences;
        let n: usize = self.fences.len();
        for i in 0..n
            invariant
                n == self.fences.len(),
                fs == self@.fences,
                forall|j: int|
                    0 <= j < i ==> (#[trigger] fs[j]).id != tab || fs[j].tab_host != Some(host),
        {
            assert(fs[i as int].id == self.fences[i as int].id);
            if self.fences[i].id == tab && self.fences[i].tab_host == Some(host) {
                return true;
            }
        }
        false
    }

    /// The fence whose items a host window currently shows.
    pub fn active_tab_of(&self, host: FenceId) -> (r: FenceId)
        ensures
            r == active_tab_of(self@.fences, host),
    {
        match position(&self.fences, host) {
            Some(i) => match self.fences[i].active_tab {
                Some(t) => if self.is_tab(t, host) {
                    t
                } else {
                    host
                },
                None => host,
            },
            None => host,
        }
    }

    fn natural_tabs(&self, host: FenceId) -> (r: Vec<FenceId>)
        ensures
            r@ == natural_tabs(self@.fences, host),
    {
        let ghost fs = self@.fences;
        let mut out: Vec<FenceId> = Vec::new();
        out.push(host);
        if position(&self.fences, host).is_some() && !self.owns_window(host) {
            return out;
        }
        let n: usize = self.fences.len();
        for i in 0..n
            invariant
                n == self.fences.len(),
                fs == self@.fences,
                out@ == seq![host] + hosted_ids(fs.take(i as int), host),
        {
            proof {
                assert(fs.take(i + 1).drop_last() == fs.take(i as int));
                assert(fs.take(i + 1).last() == fs[i as int]);
            }
            if self.fences[i].tab_host == Some(host) {
                out.push(self.fences[i].id);
                assert(out@ == seq![host] + hosted_ids(fs.take(i + 1), host));
            }
        }
        assert(fs.take(n as int) == fs);
        out
    }

    /// The tabs of a host window in strip order: those listed in the host's order first, then
    /// the others, the host itself before its hosted fences in layout order. A fence that is
    /// itself hosted has no tabs but itself.
    pub fn tabs_of(&self, host: FenceId) -> (r: Vec<FenceId>)
        ensures
            r@ == tabs_of(self@.fences, host),
    {
        let natural = self.natural_tabs(host);
        let ghost base = natural@;
        let mut out: Vec<FenceId> = Vec::new();
        let ghost mut kept: Seq<FenceId> = Seq::empty();
        match position(&self.fences, host) {
            Some(p) => {
                let order = &self.fences[p].tab_order;
                let n: usize = order.len();
                for i in 0..n
                    invariant
                        n == order.len(),
                        base == natural@,
                        kept == only(order@.take(i as int), base),
                        out@ == first_occurrences(kept),
                {
                    let id: FenceId = order[i];
                    let ghost before = kept;
                    proof {
                        assert(order@.take(i + 1).drop_last() == order@.take(i as int));
                        kept = only(order@.take(i + 1), base);
                    }
                    if contains_id(&natural, id) {
                        assert(kept.drop_last() == before);
                        if !contains_id(&out, id) {
                            out.push(id);
                        }
                    }
                }
                assert(order@.take(n as int) == order@);
                assert(kept == only(order_of(self@.fences, host), base));
            },
            None => {},
        }
        let m: usize = natural.len();
        for j in 0..m
            invariant
                m == natural.len(),
                base == natural@,
                out@ == first_occurrences(kept + base.take(j as int)),
        {
            assert((kept + base.take(j + 1)).drop_last() == kept + base.take(j as int));
            if !contains_id(&out, natural[j]) {
                out.push(natural[j]);
            }
        }
        assert(base.take(m as int) == base);
        out
    }
}

// ---- reordering the strip -----------------------------------------------------------------

/// `strip` with `tab` taken out and put back at index `to`, or at the end where `to` is past it.
pub open spec fn moved_to(strip: Seq<FenceId>, tab: FenceId, to: int) -> Seq<FenceId> {
    let rest = strip.remove(strip.index_of(tab));
    rest.insert(if to < rest.len() { to } else { rest.len() as int }, tab)
}

/// `fs` with the strip order of its first fence `host` replaced.
pub open spec fn with_order(
    fs: Seq<FenceModel>,
    host: FenceId,
    order: Seq<FenceId>,
) -> Seq<FenceModel> {
    let i = first_index(fs, host);
    fs.update(i, FenceModel { tab_order: order, ..fs[i] })
}

impl Layout {
    /// Places `tab` at strip index `to` of `host`'s window, or at the end where `to` is past it.
    /// Returns false, and changes nothing, where `tab` is not one of the host's tabs or where it
    /// is already there.
    pub fn reorder_tab(&mut self, host: FenceId, tab: FenceId, to: usize) -> (r: bool)
        ensures
            r == {
                let strip = tabs_of(old(self)@.fences, host);
                has_fence(old(self)@.fences, host) && strip.contains(tab) && moved_to(
                    strip,
                    tab,
                    to as int,
                ) != strip
            },
            final(self)@.fingerprint == old(self)@.fingerprint,
            final(self)@.fences == if r {
                with_order(
                    old(self)@.fences,
                    host,
                    moved_to(tabs_of(old(self)@.fences, host), tab, to as int),
                )
            } else {
                old(self)@.fences
            },
    {
        let ghost fs = self@.fences;
        let current = self.tabs_of(host);
        proof {
            tabs_are_the_host_and_its_tabs(fs, host);
        }
        let from: usize = match id_position(&current, tab) {
            Some(i) => i,
            None => {
                return false;
            },
        };
        assert(current@.index_of(tab) == from);
        let mut order = current.clone();
        assert(order@ =~= current@);
        order.remove(from);
        let at: usize = if to < order.len() {
            to
        } else {
            order.len()
        };
        order.insert(at, tab);
        assert(order@ == moved_to(current@, tab, to as int));
        if same_ids(&order, &current) {
            return false;
        }
        match position(&self.fences, host) {
            Some(p) => {
                self.fences[p].tab_order = order;
                assert(self@.fences =~= with_order(fs, host, order@));
                true
            },
            None => false,
        }
    }
}

// ---- taking a tab out of its window -------------------------------------------------------

/// Where one fence stood in its tab group: what a cancelled drag puts back. Content, titles and
/// appearance are not part of it, so cancelling never undoes an edit made meanwhile.
#[derive(Debug, PartialEq, Eq)]
pub struct TabPlacement {
    pub id: FenceId,
    pub host: Option<FenceId>,
    pub active: Option<FenceId>,
    pub order: Vec<FenceId>,
    pub geometry: NormGeometry,
    pub rolled: bool,
    pub expanded_h: Dip,
    pub auto_height: bool,
}

/// The model of a [`TabPlacement`].
pub struct PlacementModel {
    pub id: FenceId,
    pub host: Option<FenceId>,
    pub active: Option<FenceId>,
    pub order: Seq<FenceId>,
    pub geometry: GeometryModel,
    pub rolled: bool,
    pub expanded_h: Dip,
    pub auto_height: bool,
}

impl View for TabPlacement {
    type V = PlacementModel;

    open spec fn view(&self) -> PlacementModel {
        PlacementModel {
            id: self.id,
            host: self.host,
            active: self.active,
            order: self.order@,
            geometry: self.geometry@,
            rolled: self.rolled,
            expanded_h: self.expanded_h,
            auto_height: self.auto_height,
        }
    }
}

/// The placement of a fence.
pub open spec fn placement_of(f: FenceModel) -> PlacementModel {
    PlacementModel {
        id: f.id,
        host: f.tab_host,
        active: f.active_tab,
        order: f.tab_order,
        geometry: f.geometry,
        rolled: f.rolled_up,
        expanded_h: f.expanded_h,
        auto_height: f.view.auto_height,
    }
}

/// A fence put back where `p` says. Its id and everything that is not placement stay.
pub open spec fn placed(f: FenceModel, p: PlacementModel) -> FenceModel {
    FenceModel {
        tab_host: p.host,
        active_tab: p.active,
        tab_order: p.order,
        geometry: p.geometry,
        rolled_up: p.rolled,
        expanded_h: p.expanded_h,
        view: crate::model::FenceView { auto_height: p.auto_height, ..f.view },
        ..f
    }
}

impl TabPlacement {
    /// Records where a fence stands.
    pub fn capture(fence: &Fence) -> (r: Self)
        ensures
            r@ == placement_of(fence@),
    {
        let order = fence.tab_order.clone();
        assert(order@ =~= fence.tab_order@);
        TabPlacement {
            id: fence.id,
            host: fence.tab_host,
            active: fence.active_tab,
            order,
            geometry: fence.geometry.clone(),
            rolled: fence.rolled_up,
            expanded_h: fence.expanded_h,
            auto_height: fence.view.auto_height,
        }
    }

    /// Puts a fence back.
    pub fn restore(&self, fence: &mut Fence)
        ensures
            final(fence)@ == placed(old(fence)@, self@),
    {
        let order = self.order.clone();
        assert(order@ =~= self.order@);
        fence.tab_host = self.host;
        fence.active_tab = self.active;
        fence.tab_order = order;
        fence.geometry = self.geometry.clone();
        fence.rolled_up = self.rolled;
        fence.expanded_h = self.expanded_h;
        fence.view.auto_height = self.auto_height;
    }
}

/// A tab that left its window, and what its group was before.
#[derive(Debug, PartialEq, Eq)]
pub struct TabDetach {
    pub tab: FenceId,
    pub source_host: FenceId,
    pub remaining_host: FenceId,
    pub before: Vec<TabPlacement>,
}

/// The models of a sequence of placements.
pub open spec fn placement_models(ps: Seq<TabPlacement>) -> Seq<PlacementModel> {
    Seq::new(ps.len(), |i: int| ps[i]@)
}

/// The placements of the fences whose ids are in `group`, in layout order.
pub open spec fn placements(fs: Seq<FenceModel>, group: Seq<FenceId>) -> Seq<PlacementModel>
    decreases fs.len(),
{
    if fs.len() == 0 {
        Seq::empty()
    } else {
        let rest = placements(fs.drop_last(), group);
        if group.contains(fs.last().id) {
            rest.push(placement_of(fs.last()))
        } else {
            rest
        }
    }
}

/// A tab can leave: it exists and its window has another tab.
pub open spec fn can_detach(fs: Seq<FenceModel>, tab: FenceId) -> bool {
    has_fence(fs, tab) && tabs_of(fs, host_of(fs, tab)).len() >= 2
}

/// The tabs that stay when `tab` leaves, in strip order.
pub open spec fn remaining_tabs(fs: Seq<FenceModel>, tab: FenceId) -> Seq<FenceId> {
    without(tabs_of(fs, host_of(fs, tab)), tab)
}

/// The fence that owns the window of the tabs that stay: the host, or the first remaining tab
/// where the host itself leaves.
pub open spec fn remaining_host(fs: Seq<FenceModel>, tab: FenceId) -> FenceId {
    if tab == host_of(fs, tab) {
        remaining_tabs(fs, tab)[0]
    } else {
        host_of(fs, tab)
    }
}

/// The tab that the remaining window shows: the one it showed, or, where that one leaves, the
/// neighbour that takes its place in the strip.
pub open spec fn next_active(fs: Seq<FenceModel>, tab: FenceId) -> FenceId {
    let source = host_of(fs, tab);
    let active = active_tab_of(fs, source);
    let rest = remaining_tabs(fs, tab);
    let index = tabs_of(fs, source).index_of(tab);
    if active == tab {
        rest[if index < rest.len() { index } else { rest.len() - 1 }]
    } else {
        active
    }
}

/// How a tab group splits: the tab that leaves, the tabs that stay with their owner and active
/// tab, and the frame of the group.
pub struct Split {
    pub tab: FenceId,
    pub rest: Seq<FenceId>,
    pub root: FenceId,
    pub next: FenceId,
    /// The leaving tab owned the window.
    pub takes_over: bool,
    pub group: PlacementModel,
}

/// How the group of `tab` splits when it leaves.
pub open spec fn split_of(fs: Seq<FenceModel>, tab: FenceId) -> Split {
    Split {
        tab,
        rest: remaining_tabs(fs, tab),
        root: remaining_host(fs, tab),
        next: next_active(fs, tab),
        takes_over: tab == host_of(fs, tab),
        group: placement_of(fs[first_index(fs, host_of(fs, tab))]),
    }
}

/// Fence `f` after the split. The tab becomes a window of its own. The remaining host lists the
/// remaining tabs and, where it takes over from the leaving host, keeps the group's frame. The
/// others are its tabs. A fence outside the group stays as it is.
pub open spec fn after_split(f: FenceModel, s: Split) -> FenceModel {
    if f.id == s.tab {
        FenceModel { tab_host: None, active_tab: None, tab_order: Seq::empty(), ..f }
    } else if !s.rest.contains(f.id) {
        f
    } else if f.id != s.root {
        FenceModel { tab_host: Some(s.root), active_tab: None, tab_order: Seq::empty(), ..f }
    } else {
        let frame = if s.takes_over {
            s.group
        } else {
            placement_of(f)
        };
        FenceModel {
            tab_host: None,
            active_tab: if s.next != s.root {
                Some(s.next)
            } else {
                None
            },
            tab_order: s.rest,
            geometry: frame.geometry,
            rolled_up: frame.rolled,
            expanded_h: frame.expanded_h,
            view: crate::model::FenceView { auto_height: frame.auto_height, ..f.view },
            ..f
        }
    }
}

/// The fences after `tab` has left.
pub open spec fn detached(fs: Seq<FenceModel>, tab: FenceId) -> Seq<FenceModel> {
    Seq::new(fs.len(), |i: int| after_split(fs[i], split_of(fs, tab)))
}

pub(crate) proof fn lemma_without(s: Seq<FenceId>, id: FenceId)
    ensures
        forall|x: FenceId| #[trigger] without(s, id).contains(x) <==> s.contains(x) && x != id,
        s.no_duplicates() ==> without(s, id).no_duplicates(),
        without(s, id).len() <= s.len(),
        s.no_duplicates() && s.contains(id) ==> without(s, id).len() == s.len() - 1,
        !s.contains(id) ==> without(s, id).len() == s.len(),
    decreases s.len(),
{
    if s.len() > 0 {
        let t = s.drop_last();
        lemma_without(t, id);
        assert(s == t.push(s.last()));
        lemma_push_contains(t, s.last());
        lemma_push_contains(without(t, id), s.last());
        if s.no_duplicates() {
            assert(t.no_duplicates());
            if t.contains(s.last()) {
                let k = t.index_of(s.last());
                assert(s[k] == s.last());
            }
            assert(!without(t, id).contains(s.last()));
        }
    }
}

/// The leaving tab is in the strip of its window, its window's owner exists, and other tabs stay.
pub(crate) proof fn lemma_detach_group(fs: Seq<FenceModel>, tab: FenceId)
    requires
        has_fence(fs, tab),
    ensures
        tabs_of(fs, host_of(fs, tab)).contains(tab),
        has_fence(fs, host_of(fs, tab)),
        tabs_of(fs, host_of(fs, tab)).no_duplicates(),
        remaining_tabs(fs, tab).len() == tabs_of(fs, host_of(fs, tab)).len() - 1,
{
    let source = host_of(fs, tab);
    lemma_first_index(fs, tab);
    tabs_are_the_host_and_its_tabs(fs, source);
    if source != tab {
        assert(is_tab_of(fs, tab, source));
        let j = choose|j: int|
            0 <= j < fs.len() && (#[trigger] fs[j]).id == source && fs[j].tab_host is None;
        assert(fs[j].id == source);
    }
    assert(tabs_of(fs, source).contains(tab));
    lemma_without(tabs_of(fs, source), tab);
}

/// The members of `ids` other than `id`.
fn ids_without(ids: &Vec<FenceId>, id: FenceId) -> (r: Vec<FenceId>)
    ensures
        r@ == without(ids@, id),
{
    let mut out: Vec<FenceId> = Vec::new();
    let n: usize = ids.len();
    for i in 0..n
        invariant
            n == ids.len(),
            out@ == without(ids@.take(i as int), id),
    {
        assert(ids@.take(i + 1).drop_last() == ids@.take(i as int));
        if ids[i] != id {
            out.push(ids[i]);
        }
    }
    assert(ids@.take(n as int) == ids@);
    out
}

fn set_tab_links(
    fence: &mut Fence,
    host: Option<FenceId>,
    active: Option<FenceId>,
    order: Vec<FenceId>,
)
    ensures
        final(fence)@ == (FenceModel {
            tab_host: host,
            active_tab: active,
            tab_order: order@,
            ..old(fence)@
        }),
{
    fence.tab_host = host;
    fence.active_tab = active;
    fence.tab_order = order;
}

fn set_frame(fence: &mut Fence, frame: &TabPlacement)
    ensures
        final(fence)@ == (FenceModel {
            geometry: frame@.geometry,
            rolled_up: frame@.rolled,
            expanded_h: frame@.expanded_h,
            view: crate::model::FenceView {
                auto_height: frame@.auto_height,
                ..old(fence)@.view
            },
            ..old(fence)@
        }),
{
    fence.geometry = frame.geometry.clone();
    fence.rolled_up = frame.rolled;
    fence.expanded_h = frame.expanded_h;
    fence.view.auto_height = frame.auto_height;
}

/// Moves one fence to where the split puts it.
fn split_fence(
    fence: &mut Fence,
    tab: FenceId,
    rest: &Vec<FenceId>,
    root: FenceId,
    next: FenceId,
    frame: Option<&TabPlacement>,
    Ghost(split): Ghost<Split>,
)
    requires
        split.tab == tab,
        split.rest == rest@,
        split.root == root,
        split.next == next,
        split.takes_over == (frame is Some),
        frame matches Some(g) ==> g@ == split.group,
    ensures
        final(fence)@ == after_split(old(fence)@, split),
{
    if fence.id == tab {
        set_tab_links(fence, None, None, Vec::new());
    } else if contains_id(rest, fence.id) {
        if fence.id == root {
            let strip = rest.clone();
            assert(strip@ =~= rest@);
            let active: Option<FenceId> = if next != root {
                Some(next)
            } else {
                None
            };
            set_tab_links(fence, None, active, strip);
            if let Some(group) = frame {
                set_frame(fence, group);
            }
        } else {
            set_tab_links(fence, Some(root), None, Vec::new());
        }
    }
}

fn capture_group(fences: &Vec<Fence>, group: &Vec<FenceId>) -> (r: Vec<TabPlacement>)
    ensures
        placement_models(r@) == placements(fence_models(fences@), group@),
{
    let ghost fs = fence_models(fences@);
    let mut out: Vec<TabPlacement> = Vec::new();
    let n: usize = fences.len();
    for i in 0..n
        invariant
            n == fences.len(),
            fs == fence_models(fences@),
            placement_models(out@) == placements(fs.take(i as int), group@),
    {
        proof {
            assert(fs.take(i + 1).drop_last() == fs.take(i as int));
            assert(fs.take(i + 1).last() == fs[i as int]);
        }
        let ghost before = out@;
        if contains_id(group, fences[i].id) {
            out.push(TabPlacement::capture(&fences[i]));
            assert(placement_models(out@) =~= placement_models(before).push(
                placement_of(fs[i as int]),
            ));
        }
    }
    assert(fs.take(n as int) == fs);
    out
}

impl Layout {
    /// Takes `tab` out of its window. Every tab can leave, the one that owns the window too: a
    /// remaining tab then takes the window over, with its frame and strip order. None, and no
    /// change, where the tab does not exist or is alone in its window.
    pub fn detach_tab(&mut self, tab: FenceId) -> (r: Option<TabDetach>)
        ensures
            r is Some <==> can_detach(old(self)@.fences, tab),
            r matches Some(change) ==> {
                let fs = old(self)@.fences;
                &&& change.tab == tab
                &&& change.source_host == host_of(fs, tab)
                &&& change.remaining_host == remaining_host(fs, tab)
                &&& placement_models(change.before@) == placements(
                    fs,
                    tabs_of(fs, host_of(fs, tab)),
                )
                &&& final(self)@.fences == detached(fs, tab)
            },
            r is None ==> final(self)@.fences == old(self)@.fences,
            final(self)@.fingerprint == old(self)@.fingerprint,
    {
        let ghost fs = self@.fences;
        if position(&self.fences, tab).is_none() {
            return None;
        }
        proof {
            lemma_detach_group(fs, tab);
        }
        let source_host: FenceId = self.host_of(tab);
        let order = self.tabs_of(source_host);
        if order.len() < 2 {
            return None;
        }
        let index: usize = match id_position(&order, tab) {
            Some(i) => i,
            None => {
                return None;
            },
        };
        assert(order@.index_of(tab) == index);
        let remaining = ids_without(&order, tab);
        let remaining_host: FenceId = if tab == source_host {
            remaining[0]
        } else {
            source_host
        };
        let active: FenceId = self.active_tab_of(source_host);
        let next_active: FenceId = if active == tab {
            let last: usize = remaining.len() - 1;
            remaining[if index < last { index } else { last }]
        } else {
            active
        };
        assert(next_active == self::next_active(fs, tab));
        let before = capture_group(&self.fences, &order);
        let at: usize = match position(&self.fences, source_host) {
            Some(i) => i,
            None => {
                return None;
            },
        };
        let group = TabPlacement::capture(&self.fences[at]);
        let n: usize = self.fences.len();
        let ghost split = split_of(fs, tab);
        for i in 0..n
            invariant
                n == self.fences.len(),
                n == fs.len(),
                self.fingerprint == old(self).fingerprint,
                split.tab == tab,
                split.rest == remaining@,
                split.root == remaining_host,
                split.next == next_active,
                split.takes_over == (tab == source_host),
                split.group == group@,
                forall|j: int| 0 <= j < i ==> (#[trigger] self.fences@[j])@ == after_split(fs[j], split),
                forall|j: int| i <= j < n ==> (#[trigger] self.fences@[j])@ == fs[j],
        {
            assert(self.fences@[i as int]@ == fs[i as int]);
            split_fence(
                &mut self.fences[i],
                tab,
                &remaining,
                remaining_host,
                next_active,
                if tab == source_host {
                    Some(&group)
                } else {
                    None
                },
                Ghost(split),
            );
        }
        assert(self@.fences =~= detached(fs, tab));
        Some(TabDetach { tab, source_host, remaining_host, before })
    }
}

// ---- putting a tab back -------------------------------------------------------------------

/// A detached tab can be put back: it and the remaining window are as the split left them, with
/// the same tabs. A later delete or merge owns the state.
pub open spec fn can_cancel(
    fs: Seq<FenceModel>,
    tab: FenceId,
    root: FenceId,
    before: Seq<PlacementModel>,
) -> bool {
    &&& host_of(fs, tab) == tab
    &&& host_of(fs, root) == root
    &&& forall|k: int| 0 <= k < before.len() ==> has_fence(fs, (#[trigger] before[k]).id)
    &&& tabs_of(fs, root).len() + 1 == before.len()
    &&& forall|k: int|
        0 <= k < before.len() && (#[trigger] before[k]).id != tab ==> tabs_of(fs, root).contains(
            before[k].id,
        )
}

/// `fs` with its first fence `p.id`, where there is one, put back where `p` says.
pub open spec fn restore_one(fs: Seq<FenceModel>, p: PlacementModel) -> Seq<FenceModel> {
    if has_fence(fs, p.id) {
        let i = first_index(fs, p.id);
        fs.update(i, placed(fs[i], p))
    } else {
        fs
    }
}

/// `fs` with every placement put back, in order.
pub open spec fn restored(fs: Seq<FenceModel>, before: Seq<PlacementModel>) -> Seq<FenceModel>
    decreases before.len(),
{
    if before.len() == 0 {
        fs
    } else {
        restore_one(restored(fs, before.drop_last()), before.last())
    }
}

impl Layout {
    fn may_cancel(&self, change: &TabDetach) -> (r: bool)
        ensures
            r == can_cancel(
                self@.fences,
                change.tab,
                change.remaining_host,
                placement_models(change.before@),
            ),
    {
        let ghost fs = self@.fences;
        let ghost before = placement_models(change.before@);
        if self.host_of(change.tab) != change.tab || self.host_of(change.remaining_host)
            != change.remaining_host {
            return false;
        }
        let n: usize = change.before.len();
        for k in 0..n
            invariant
                n == change.before.len(),
                fs == self@.fences,
                before == placement_models(change.before@),
                forall|j: int| 0 <= j < k ==> has_fence(fs, (#[trigger] before[j]).id),
        {
            if position(&self.fences, change.before[k].id).is_none() {
                assert(!has_fence(fs, before[k as int].id));
                return false;
            }
        }
        let remaining = self.tabs_of(change.remaining_host);
        if n == 0 || remaining.len() != n - 1 {
            return false;
        }
        for k in 0..n
            invariant
                n == change.before.len(),
                fs == self@.fences,
                before == placement_models(change.before@),
                remaining@ == tabs_of(fs, change.remaining_host),
                forall|j: int|
                    0 <= j < k && (#[trigger] before[j]).id != change.tab ==> remaining@.contains(
                        before[j].id,
                    ),
        {
            let id: FenceId = change.before[k].id;
            if id != change.tab && !contains_id(&remaining, id) {
                assert(before[k as int].id == id);
                return false;
            }
        }
        true
    }

    /// Puts a detached tab back into its window: hosts, strip order, active tab and frame are as
    /// before the detach. Returns false, and changes nothing, where a later delete or merge
    /// changed the group.
    pub fn cancel_tab_detach(&mut self, change: &TabDetach) -> (r: bool)
        ensures
            r == can_cancel(
                old(self)@.fences,
                change.tab,
                change.remaining_host,
                placement_models(change.before@),
            ),
            final(self)@.fences == if r {
                restored(old(self)@.fences, placement_models(change.before@))
            } else {
                old(self)@.fences
            },
            final(self)@.fingerprint == old(self)@.fingerprint,
    {
        if !self.may_cancel(change) {
            return false;
        }
        let ghost fs = self@.fences;
        let ghost before = placement_models(change.before@);
        let n: usize = change.before.len();
        for k in 0..n
            invariant
                n == change.before.len(),
                before == placement_models(change.before@),
                self@.fences == restored(fs, before.take(k as int)),
                self@.fingerprint == old(self)@.fingerprint,
        {
            assert(before.take(k + 1).drop_last() == before.take(k as int));
            assert(before.take(k + 1).last() == change.before@[k as int]@);
            let ghost now = self@.fences;
            match position(&self.fences, change.before[k].id) {
                Some(i) => {
                    change.before[k].restore(&mut self.fences[i]);
                    assert(self@.fences =~= restore_one(now, before[k as int]));
                },
                None => {},
            }
        }
        assert(before.take(n as int) == before);
        true
    }
}

} // verus!
