//! The strip of tabs that a window shows, and where each tab was scrolled to.

use crate::dip::Dip;
use crate::model::{FenceId, TitleSize, ViewLayout};
use crate::settings::Rgb;
use crate::tables::{ids_of, lists_keys};
use std::collections::HashMap;
use vstd::prelude::*;

verus! {

broadcast use vstd::std_specs::hash::group_hash_axioms;

// ---- tabs ---------------------------------------------------------------------------------

/// A tab as it is shown.
#[derive(Debug, PartialEq, Eq)]
pub struct TabHead {
    pub id: FenceId,
    pub title: String,
    pub color: Option<Rgb>,
    pub title_size: Option<TitleSize>,
    pub title_color: Option<Rgb>,
}

/// The model of a [`TabHead`].
pub struct TabModel {
    pub id: FenceId,
    pub title: Seq<char>,
    pub color: Option<Rgb>,
    pub title_size: Option<TitleSize>,
    pub title_color: Option<Rgb>,
}

impl View for TabHead {
    type V = TabModel;

    open spec fn view(&self) -> TabModel {
        TabModel {
            id: self.id,
            title: self.title@,
            color: self.color,
            title_size: self.title_size,
            title_color: self.title_color,
        }
    }
}

impl TabHead {
    fn dup(&self) -> (r: Self)
        ensures
            r@ == self@,
    {
        TabHead {
            id: self.id,
            title: self.title.clone(),
            color: self.color,
            title_size: self.title_size,
            title_color: self.title_color,
        }
    }

    fn looks_like(&self, other: &TabHead) -> (r: bool)
        ensures
            r == (self@ == other@),
    {
        self.id == other.id && self.title == other.title && self.color == other.color
            && self.title_size == other.title_size && self.title_color == other.title_color
    }
}

/// The models of tabs.
pub open spec fn heads(tabs: Seq<TabHead>) -> Seq<TabModel> {
    Seq::new(tabs.len(), |i: int| tabs[i]@)
}

/// The place of a tab, its first one.
pub open spec fn find(tabs: Seq<TabModel>, id: FenceId) -> Option<int>
    decreases tabs.len(),
{
    if tabs.len() == 0 {
        None
    } else {
        match find(tabs.drop_last(), id) {
            Some(i) => Some(i),
            None => if tabs.last().id == id {
                Some(tabs.len() - 1)
            } else {
                None
            },
        }
    }
}

/// No tab is there twice.
pub open spec fn all_differ(tabs: Seq<TabModel>) -> bool {
    forall|i: int, j: int| 0 <= i < j < tabs.len() ==> #[trigger] tabs[i].id != #[trigger] tabs[j].id
}

/// The tabs are the same, in whatever order.
pub open spec fn same_set(a: Seq<TabModel>, b: Seq<TabModel>) -> bool {
    a.len() == b.len() && forall|i: int| 0 <= i < a.len() ==> find(b, #[trigger] a[i].id) is Some
}

/// The tabs of `new`, in the order of `old`.
pub open spec fn in_order(old: Seq<TabModel>, new: Seq<TabModel>) -> Seq<TabModel> {
    Seq::new(old.len(), |i: int| new[find(new, old[i].id)->0])
}

/// The tabs that a window shows next: while one of them is dragged, they keep the order that the
/// drag has given them.
pub open spec fn next_tabs(old: Seq<TabModel>, new: Seq<TabModel>, dragging: bool) -> Seq<TabModel> {
    if dragging && same_set(old, new) {
        in_order(old, new)
    } else {
        new
    }
}

/// The tabs of `new` that are not in `old`.
pub open spec fn newcomers(old: Seq<TabModel>, new: Seq<TabModel>) -> Seq<FenceId>
    decreases new.len(),
{
    if new.len() == 0 {
        Seq::empty()
    } else {
        let rest = newcomers(old, new.drop_last());
        if find(old, new.last().id) is None {
            rest.push(new.last().id)
        } else {
            rest
        }
    }
}

proof fn lemma_find(tabs: Seq<TabModel>, id: FenceId)
    ensures
        find(tabs, id) matches Some(i) ==> 0 <= i < tabs.len() && tabs[i].id == id,
        find(tabs, id) is None ==> forall|i: int|
            0 <= i < tabs.len() ==> #[trigger] tabs[i].id != id,
    decreases tabs.len(),
{
    if tabs.len() > 0 {
        lemma_find(tabs.drop_last(), id);
        assert forall|i: int| 0 <= i < tabs.len() - 1 implies #[trigger] tabs[i]
            == tabs.drop_last()[i] by {}
    }
}

fn find_tab(tabs: &Vec<TabHead>, id: FenceId) -> (r: Option<usize>)
    ensures
        match r {
            Some(i) => find(heads(tabs@), id) == Some(i as int) && i < tabs.len(),
            None => find(heads(tabs@), id) is None,
        },
{
    let ghost all = heads(tabs@);
    let n: usize = tabs.len();
    for i in 0..n
        invariant
            n == tabs.len(),
            all == heads(tabs@),
            find(all.take(i as int), id) is None,
    {
        assert(all.take(i + 1).drop_last() =~= all.take(i as int));
        if tabs[i].id == id {
            proof {
                lemma_find_longer(all, id, i + 1);
            }
            return Some(i);
        }
    }
    assert(all.take(n as int) =~= all);
    None
}

proof fn lemma_find_longer(tabs: Seq<TabModel>, id: FenceId, n: int)
    requires
        0 <= n <= tabs.len(),
        find(tabs.take(n), id) is Some,
    ensures
        find(tabs, id) == find(tabs.take(n), id),
    decreases tabs.len() - n,
{
    if n < tabs.len() {
        assert(tabs.take(n + 1).drop_last() =~= tabs.take(n));
        lemma_find_longer(tabs, id, n + 1);
    } else {
        assert(tabs.take(n) =~= tabs);
    }
}

fn have_same_set(a: &Vec<TabHead>, b: &Vec<TabHead>) -> (r: bool)
    ensures
        r == same_set(heads(a@), heads(b@)),
{
    if a.len() != b.len() {
        return false;
    }
    let n: usize = a.len();
    for i in 0..n
        invariant
            n == a.len() == b.len(),
            forall|j: int| 0 <= j < i ==> find(heads(b@), #[trigger] heads(a@)[j].id) is Some,
    {
        if find_tab(b, a[i].id).is_none() {
            assert(heads(a@)[i as int].id == a@[i as int].id);
            return false;
        }
    }
    true
}

fn look_same(a: &Vec<TabHead>, b: &Vec<TabHead>) -> (r: bool)
    ensures
        r == (heads(a@) == heads(b@)),
{
    if a.len() != b.len() {
        return false;
    }
    let n: usize = a.len();
    for i in 0..n
        invariant
            n == a.len() == b.len(),
            forall|j: int| 0 <= j < i ==> heads(a@)[j] == heads(b@)[j],
    {
        if !a[i].looks_like(&b[i]) {
            assert(heads(a@)[i as int] != heads(b@)[i as int]);
            return false;
        }
    }
    assert(heads(a@) =~= heads(b@));
    true
}

fn put_in_order(old: &Vec<TabHead>, new: Vec<TabHead>) -> (r: Vec<TabHead>)
    requires
        same_set(heads(old@), heads(new@)),
    ensures
        heads(r@) == in_order(heads(old@), heads(new@)),
{
    let mut out: Vec<TabHead> = Vec::new();
    let n: usize = old.len();
    for i in 0..n
        invariant
            n == old.len(),
            same_set(heads(old@), heads(new@)),
            out.len() == i,
            forall|j: int|
                0 <= j < i ==> #[trigger] out@[j]@ == in_order(heads(old@), heads(new@))[j],
    {
        assert(heads(old@)[i as int].id == old@[i as int].id);
        if let Some(k) = find_tab(&new, old[i].id) {
            out.push(new[k].dup());
        }
    }
    assert(heads(out@) =~= in_order(heads(old@), heads(new@)));
    out
}

fn new_ids(old: &Vec<TabHead>, new: &Vec<TabHead>) -> (r: Vec<FenceId>)
    ensures
        r@ == newcomers(heads(old@), heads(new@)),
{
    let ghost all = heads(new@);
    let mut out: Vec<FenceId> = Vec::new();
    let n: usize = new.len();
    for i in 0..n
        invariant
            n == new.len(),
            all == heads(new@),
            out@ == newcomers(heads(old@), all.take(i as int)),
    {
        assert(all.take(i + 1).drop_last() =~= all.take(i as int));
        if find_tab(old, new[i].id).is_none() {
            out.push(new[i].id);
        }
    }
    assert(all.take(n as int) =~= all);
    out
}

// ---- the strip ----------------------------------------------------------------------------

/// A drag of a tab within its strip.
#[derive(Clone, Copy, Debug, PartialEq, Eq, Structural)]
pub struct TabDrag {
    pub index: usize,
    pub start_index: usize,
}

/// The tabs of a window. One alone is the plain title.
pub struct Strip {
    pub tabs: Vec<TabHead>,
    /// The fence whose items are shown.
    pub active: FenceId,
    pub scroll: Dip,
    /// Where the tabs that are not shown were scrolled to.
    pub memory: HashMap<u128, Dip>,
    /// Where to scroll once the items of another tab are there.
    pub restore: Option<Dip>,
    pub drag: Option<TabDrag>,
}

/// The model of a [`Strip`].
pub struct StripModel {
    pub tabs: Seq<TabModel>,
    pub active: FenceId,
    pub scroll: Dip,
    pub memory: Map<u128, Dip>,
    pub restore: Option<Dip>,
    pub drag: Option<TabDrag>,
}

impl View for Strip {
    type V = StripModel;

    open spec fn view(&self) -> StripModel {
        StripModel {
            tabs: heads(self.tabs@),
            active: self.active,
            scroll: self.scroll,
            memory: self.memory@,
            restore: self.restore,
            drag: self.drag,
        }
    }
}

/// The top of a list.
pub open spec fn top() -> Dip {
    Dip { bits: 0 }
}

/// What is remembered of the tabs that are still there.
pub open spec fn remembered(m: Map<u128, Dip>, tabs: Seq<TabModel>) -> Map<u128, Dip> {
    Map::new(|k: u128| m.contains_key(k) && find(tabs, k) is Some, |k: u128| m[k])
}

/// What is remembered once the strip was set: the tabs that left take their places with them, and
/// the tab that is no longer shown is remembered where it was.
pub open spec fn next_memory(
    s: StripModel,
    tabs: Seq<TabModel>,
    active: FenceId,
    scrolled: Dip,
) -> Map<u128, Dip> {
    let kept = if same_set(s.tabs, tabs) {
        s.memory
    } else {
        remembered(s.memory, tabs)
    };
    if s.active != active && find(tabs, s.active) is Some {
        kept.insert(s.active, scrolled)
    } else {
        kept
    }
}

/// The strip with these tabs. `scrolled` is where the list shown is, or is going to.
pub open spec fn with_tabs(s: StripModel, new: Seq<TabModel>, active: FenceId, scrolled: Dip) -> StripModel {
    let tabs = next_tabs(s.tabs, new, s.drag is Some);
    let memory = next_memory(s, tabs, active, scrolled);
    let back = if memory.contains_key(active) {
        memory[active]
    } else {
        top()
    };
    StripModel {
        tabs,
        active,
        scroll: if s.active != active {
            back
        } else {
            s.scroll
        },
        memory,
        restore: if s.active != active {
            Some(back)
        } else {
            None
        },
        drag: s.drag,
    }
}

/// What becomes of the tabs that are sliding to their places.
#[derive(Clone, Copy, Debug, PartialEq, Eq, Structural)]
pub enum Slides {
    Keep,
    /// They slide from where they are painted.
    Follow,
    Drop,
}

/// What a new strip changes.
pub struct TabsChange {
    /// No tab joined or left.
    pub same_set: bool,
    /// Another fence is shown: nothing is selected in it.
    pub switched: bool,
    pub slides: Slides,
    /// The tabs that fade in.
    pub joined: Vec<FenceId>,
    /// The contents are swapped, forward or back along the strip.
    pub swap: Option<bool>,
    /// The mark of the tab in front glides to its new place.
    pub glide: bool,
    /// The title row is drawn anew.
    pub redraw: bool,
}

/// How a window is when its strip is set.
#[derive(Clone, Copy, Debug, PartialEq, Eq, Structural)]
pub struct StripSight {
    pub rolled_up: bool,
    pub height_changing: bool,
    pub animations: bool,
}

/// The contents are swapped: two tabs that were both there, in a window that is open and at rest.
pub open spec fn swap_of(s: StripModel, n: StripModel, sight: StripSight) -> Option<bool> {
    match (find(s.tabs, s.active), find(n.tabs, n.active)) {
        (Some(o), Some(i)) => if s.active != n.active && o != i && !sight.rolled_up
            && !sight.height_changing && sight.animations {
            Some(i > o)
        } else {
            None
        },
        _ => None,
    }
}

/// What becomes of the tabs that are sliding.
pub open spec fn slides_of(s: StripModel, n: StripModel) -> Slides {
    if s.tabs == n.tabs {
        Slides::Keep
    } else if s.drag is None {
        Slides::Follow
    } else if !same_set(s.tabs, n.tabs) {
        Slides::Drop
    } else {
        Slides::Keep
    }
}

/// The change from one strip to the next.
pub open spec fn is_change(c: TabsChange, s: StripModel, n: StripModel, sight: StripSight) -> bool {
    &&& c.same_set == same_set(s.tabs, n.tabs)
    &&& c.switched == (s.active != n.active)
    &&& c.slides == slides_of(s, n)
    &&& c.joined@ == if !c.same_set && (s.tabs.len() > 1 || n.tabs.len() > 1) {
        newcomers(s.tabs, n.tabs)
    } else {
        Seq::empty()
    }
    &&& c.swap == swap_of(s, n, sight)
    &&& c.glide == (c.swap is Some && !(s.drag matches Some(d) && d.index != d.start_index))
    &&& c.redraw == (s.tabs != n.tabs || s.active != n.active)
}

fn forget_others(memory: &mut HashMap<u128, Dip>, tabs: &Vec<TabHead>)
    ensures
        final(memory)@ == remembered(old(memory)@, heads(tabs@)),
{
    let ids = ids_of(memory);
    let n: usize = ids.len();
    let ghost before = memory@;
    for i in 0..n
        invariant
            n == ids.len(),
            lists_keys(ids@, before),
            forall|k: u128| #[trigger]
                memory@.contains_key(k) ==> before.contains_key(k) && memory@[k] == before[k],
            forall|k: u128| #[trigger]
                before.contains_key(k) && find(heads(tabs@), k) is Some ==> memory@.contains_key(k),
            forall|j: int|
                0 <= j < i && find(heads(tabs@), #[trigger] ids@[j]) is None
                    ==> !memory@.contains_key(ids@[j]),
    {
        if find_tab(tabs, ids[i]).is_none() {
            memory.remove(&ids[i]);
        }
    }
    assert forall|k: u128| #[trigger] memory@.contains_key(k) implies find(heads(tabs@), k)
        is Some by {
        assert(ids@.contains(k));
        let j = choose|j: int| 0 <= j < ids.len() && ids@[j] == k;
        assert(ids@[j] == k);
    }
    assert(memory@ =~= remembered(before, heads(tabs@)));
}

impl Strip {
    /// The strip of a window that was just made: no tabs yet, and nothing scrolled.
    pub fn new(active: FenceId) -> (r: Self)
        ensures
            r@ == (StripModel {
                tabs: Seq::empty(),
                active,
                scroll: top(),
                memory: Map::empty(),
                restore: None,
                drag: None,
            }),
    {
        let r = Strip {
            tabs: Vec::new(),
            active,
            scroll: Dip { bits: 0 },
            memory: HashMap::new(),
            restore: None,
            drag: None,
        };
        assert(heads(r.tabs@) =~= Seq::<TabModel>::empty());
        assert(r.memory@ =~= Map::<u128, Dip>::empty());
        r
    }

    /// Sets the tabs, and the fence that is shown. `scrolled` is where the list shown is, or is
    /// going to.
    pub fn set_tabs(
        &mut self,
        tabs: Vec<TabHead>,
        active: FenceId,
        scrolled: Dip,
        sight: &StripSight,
    ) -> (r: TabsChange)
        requires
            all_differ(old(self)@.tabs),
            all_differ(heads(tabs@)),
        ensures
            final(self)@ == with_tabs(old(self)@, heads(tabs@), active, scrolled),
            all_differ(final(self)@.tabs),
            is_change(r, old(self)@, final(self)@, *sight),
    {
        proof {
            lemma_still_differ(self@.tabs, heads(tabs@), self.drag is Some);
        }
        let ghost before = self@;
        let dragging: bool = self.drag.is_some();
        let mut next: Vec<TabHead> = tabs;
        if dragging && have_same_set(&self.tabs, &next) {
            next = put_in_order(&self.tabs, next);
        }
        let ghost shown = next_tabs(before.tabs, heads(tabs@), dragging);
        assert(heads(next@) == shown);
        let same_look: bool = look_same(&self.tabs, &next);
        let same: bool = have_same_set(&self.tabs, &next);
        let switched: bool = self.active != active;
        let old_index = find_tab(&self.tabs, self.active);
        let new_index = find_tab(&next, active);
        let slides = if same_look {
            Slides::Keep
        } else if !dragging {
            Slides::Follow
        } else if !same {
            Slides::Drop
        } else {
            Slides::Keep
        };
        let joined: Vec<FenceId> = if !same && (self.tabs.len() > 1 || next.len() > 1) {
            new_ids(&self.tabs, &next)
        } else {
            Vec::new()
        };
        assert(!(!same && (before.tabs.len() > 1 || shown.len() > 1)) ==> joined@ =~= Seq::empty());
        let swap: Option<bool> = match (old_index, new_index) {
            (Some(o), Some(n)) => if switched && o != n && !sight.rolled_up
                && !sight.height_changing && sight.animations {
                Some(n > o)
            } else {
                None
            },
            _ => None,
        };
        let reordered: bool = match self.drag {
            Some(d) => d.index != d.start_index,
            None => false,
        };
        if !same {
            forget_others(&mut self.memory, &next);
        }
        if switched {
            if find_tab(&next, self.active).is_some() {
                self.memory.insert(self.active, scrolled);
            }
            let back: Dip = match self.memory.get(&active) {
                Some(d) => *d,
                None => Dip { bits: 0 },
            };
            self.scroll = back;
            self.restore = Some(back);
        } else {
            self.restore = None;
        }
        self.tabs = next;
        self.active = active;
        assert(self.memory@ =~= next_memory(before, shown, active, scrolled));
        TabsChange {
            same_set: same,
            switched,
            slides,
            joined,
            swap,
            glide: swap.is_some() && !reordered,
            redraw: !same_look || switched,
        }
    }

    /// The items of the fence shown are there: the list goes back to where that tab was.
    pub fn items_came(&mut self)
        ensures
            final(self)@ == (StripModel {
                scroll: match old(self).restore {
                    Some(d) => d,
                    None => old(self).scroll,
                },
                ..old(self)@
            }),
    {
        if let Some(d) = self.restore {
            self.scroll = d;
        }
    }

    /// The layout of the list is set. A new layout starts at the top, but for the place that a
    /// switch of tabs has left to go back to.
    pub fn layout_set(&mut self, was: ViewLayout, layout: ViewLayout)
        ensures
            final(self)@ == (StripModel {
                scroll: if was == layout {
                    old(self).scroll
                } else {
                    match old(self).restore {
                        Some(d) => d,
                        None => top(),
                    }
                },
                restore: None,
                ..old(self)@
            }),
    {
        let back = self.restore;
        self.restore = None;
        if was == layout {
            return;
        }
        self.scroll = match back {
            Some(d) => d,
            None => Dip { bits: 0 },
        };
    }

    /// The place of the tab in front; the first one where it is not there.
    pub fn active_index(&self) -> (r: usize)
        ensures
            r == match find(self@.tabs, self.active) {
                Some(i) => i,
                None => 0,
            },
    {
        match find_tab(&self.tabs, self.active) {
            Some(i) => i,
            None => 0,
        }
    }
}

/// The ids of tabs.
spec fn ids(tabs: Seq<TabModel>) -> Seq<FenceId> {
    Seq::new(tabs.len(), |i: int| tabs[i].id)
}

/// A tab of the new strip is shown, in whatever order.
proof fn lemma_shown(old: Seq<TabModel>, new: Seq<TabModel>, dragging: bool, id: FenceId)
    requires
        all_differ(old),
        find(new, id) is Some,
    ensures
        find(next_tabs(old, new, dragging), id) is Some,
{
    let next = next_tabs(old, new, dragging);
    lemma_find(new, id);
    lemma_find(next, id);
    if dragging && same_set(old, new) {
        let (a, b) = (ids(old).to_set(), ids(new).to_set());
        assert forall|x: FenceId| a.contains(x) implies b.contains(x) by {
            let i = choose|i: int| 0 <= i < ids(old).len() && ids(old)[i] == x;
            assert(old[i].id == x);
            lemma_find(new, x);
            assert(ids(new)[find(new, x)->0] == x);
        }
        assert(ids(old).no_duplicates());
        ids(old).unique_seq_to_set();
        ids(new).lemma_cardinality_of_set();
        vstd::set_lib::lemma_len_subset(a, b);
        vstd::set_lib::lemma_subset_equality(a, b);
        let k = find(new, id)->0;
        assert(ids(new)[k] == id);
        assert(b.contains(id));
        let i = choose|i: int| 0 <= i < ids(old).len() && ids(old)[i] == id;
        assert(old[i].id == id);
        assert(next[i].id == id);
    }
}

proof fn lemma_still_differ(old: Seq<TabModel>, new: Seq<TabModel>, dragging: bool)
    requires
        all_differ(old),
        all_differ(new),
    ensures
        all_differ(next_tabs(old, new, dragging)),
{
    if dragging && same_set(old, new) {
        let next = next_tabs(old, new, dragging);
        assert forall|i: int, j: int| 0 <= i < j < next.len() implies #[trigger] next[i].id
            != #[trigger] next[j].id by {
            assert(find(new, old[i].id) is Some);
            assert(find(new, old[j].id) is Some);
            lemma_find(new, old[i].id);
            lemma_find(new, old[j].id);
        }
    }
}

/// A tab that is left and shown again is where it was.
pub proof fn coming_back_restores_the_scroll(
    s: StripModel,
    tabs: Seq<TabModel>,
    other: FenceId,
    scrolled: Dip,
    later: Dip,
)
    requires
        all_differ(s.tabs),
        all_differ(tabs),
        find(tabs, s.active) is Some,
        find(tabs, other) is Some,
        s.active != other,
    ensures
        with_tabs(with_tabs(s, tabs, other, scrolled), tabs, s.active, later).scroll == scrolled,
{
    let one = with_tabs(s, tabs, other, scrolled);
    lemma_shown(s.tabs, tabs, s.drag is Some, s.active);
    assert(one.memory.contains_key(s.active) && one.memory[s.active] == scrolled);
    lemma_still_differ(s.tabs, tabs, s.drag is Some);
    lemma_shown(one.tabs, tabs, s.drag is Some, s.active);
}

/// While a tab is dragged, a refresh of the same tabs does not move them.
pub proof fn drags_keep_their_order(s: StripModel, new: Seq<TabModel>, active: FenceId, scrolled: Dip)
    requires
        s.drag is Some,
        same_set(s.tabs, new),
    ensures
        with_tabs(s, new, active, scrolled).tabs.len() == s.tabs.len(),
        forall|i: int|
            0 <= i < s.tabs.len() ==> #[trigger] with_tabs(s, new, active, scrolled).tabs[i].id
                == s.tabs[i].id,
{
    assert forall|i: int| 0 <= i < s.tabs.len() implies #[trigger] with_tabs(
        s,
        new,
        active,
        scrolled,
    ).tabs[i].id == s.tabs[i].id by {
        assert(find(new, s.tabs[i].id) is Some);
        lemma_find(new, s.tabs[i].id);
    }
}

/// A tab is found at its first place in the strip, and nowhere where the strip does not have it.
pub proof fn a_tab_is_found_at_its_first_place(tabs: Seq<TabModel>, id: FenceId)
    ensures
        find(tabs, id) is Some ==> 0 <= find(tabs, id)->0 < tabs.len() && tabs[find(tabs, id)->0].id == id,
        find(tabs, id) is Some ==> forall|j: int|
            0 <= j < find(tabs, id)->0 ==> (#[trigger] tabs[j]).id != id,
        find(tabs, id) is None ==> forall|j: int| 0 <= j < tabs.len() ==> (#[trigger] tabs[j]).id != id,
    decreases tabs.len(),
{
    if tabs.len() > 0 {
        let front = tabs.drop_last();
        a_tab_is_found_at_its_first_place(front, id);
        if find(front, id) is None {
            assert forall|j: int| 0 <= j < front.len() implies (#[trigger] tabs[j]).id != id by {
                assert(front[j].id != id);
            }
        } else {
            let i = find(front, id)->0;
            assert forall|j: int| 0 <= j < i implies (#[trigger] tabs[j]).id != id by {
                assert(front[j].id != id);
            }
        }
    }
}

/// The tabs that fade in are those that the strip did not have, in their order.
pub proof fn new_tabs_fade_in(old_tabs: Seq<TabModel>, new: Seq<TabModel>)
    ensures
        newcomers(old_tabs, new) == new.filter(
            |t: TabModel| find(old_tabs, t.id) is None,
        ).map_values(|t: TabModel| t.id),
    decreases new.len(),
{
    reveal(Seq::filter);
    let p = |t: TabModel| find(old_tabs, t.id) is None;
    let g = |t: TabModel| t.id;
    if new.len() > 0 {
        new_tabs_fade_in(old_tabs, new.drop_last());
        let front = new.drop_last().filter(p);
        assert(front.push(new.last()).map_values(g) =~= front.map_values(g).push(g(new.last())));
    }
}

/// Without a drag a strip takes the tabs it is given; during one it keeps its order unless a tab
/// joins or leaves. The tab in front is the one that is asked for, and where it does not change
/// neither does the scroll.
pub proof fn a_strip_shows_the_tabs_it_is_given(
    s: StripModel,
    new: Seq<TabModel>,
    active: FenceId,
    scrolled: Dip,
)
    ensures
        ({
            let n = with_tabs(s, new, active, scrolled);
            &&& n.active == active && n.drag == s.drag
            &&& s.drag is None ==> n.tabs == new
            &&& !same_set(s.tabs, new) ==> n.tabs == new
            &&& s.active == active ==> n.scroll == s.scroll && n.restore is None
            &&& s.active != active ==> n.restore == Some(n.scroll)
            &&& s.active != active && !n.memory.contains_key(active) ==> n.scroll.bits == 0
            &&& s.active != active && n.memory.contains_key(active) ==> n.scroll == n.memory[active]
        }),
{
}

/// Where a tab was scrolled to is remembered while the strip has it, and forgotten when it leaves.
pub proof fn only_tabs_of_the_strip_are_remembered(m: Map<u128, Dip>, tabs: Seq<TabModel>, k: u128)
    ensures
        remembered(m, tabs).contains_key(k) <==> m.contains_key(k) && exists|i: int|
            0 <= i < tabs.len() && (#[trigger] tabs[i]).id == k,
        remembered(m, tabs).contains_key(k) ==> remembered(m, tabs)[k] == m[k],
{
    a_tab_is_found_at_its_first_place(tabs, k);
    if find(tabs, k) is Some {
        let i = find(tabs, k)->0;
        assert(tabs[i].id == k);
    }
}

/// The contents are swapped forward where the new tab stands behind the old one and back where it
/// stands before it, and not at all where nothing of it could be seen.
pub proof fn contents_swap_along_the_strip(s: StripModel, n: StripModel, sight: StripSight)
    ensures
        s.active == n.active || sight.rolled_up || sight.height_changing || !sight.animations
            ==> swap_of(s, n, sight) is None,
        find(s.tabs, s.active) is None || find(n.tabs, n.active) is None ==> swap_of(s, n, sight)
            is None,
        s.active != n.active && !sight.rolled_up && !sight.height_changing && sight.animations
            && find(s.tabs, s.active) is Some && find(n.tabs, n.active) is Some && find(
            s.tabs,
            s.active,
        ) != find(n.tabs, n.active) ==> swap_of(s, n, sight) == Some(
            find(s.tabs, s.active)->0 < find(n.tabs, n.active)->0,
        ),
{
}

/// Tabs slide to new places from where they are, except in a drag, whose slides go on, or end
/// where a tab joins or leaves.
pub proof fn tabs_slide_to_new_places(s: StripModel, n: StripModel)
    ensures
        s.tabs == n.tabs ==> slides_of(s, n) is Keep,
        s.tabs != n.tabs && s.drag is None ==> slides_of(s, n) is Follow,
        s.tabs != n.tabs && s.drag is Some && same_set(s.tabs, n.tabs) ==> slides_of(s, n) is Keep,
        s.tabs != n.tabs && s.drag is Some && !same_set(s.tabs, n.tabs) ==> slides_of(s, n) is Drop,
{
}

/// What changes in a strip is told: whether tabs joined or left and which, whether another is in
/// front, and that the title row is drawn anew where any of it shows.
pub proof fn changes_of_a_strip_are_told(c: TabsChange, s: StripModel, n: StripModel, sight: StripSight)
    requires
        is_change(c, s, n, sight),
    ensures
        c.switched <==> s.active != n.active,
        c.redraw <==> s.tabs != n.tabs || s.active != n.active,
        c.same_set ==> c.joined@.len() == 0,
        s.tabs.len() <= 1 && n.tabs.len() <= 1 ==> c.joined@.len() == 0,
        !c.same_set && (s.tabs.len() > 1 || n.tabs.len() > 1) ==> c.joined@ == n.tabs.filter(
            |t: TabModel| find(s.tabs, t.id) is None,
        ).map_values(|t: TabModel| t.id),
        c.glide ==> c.swap is Some,
        s.drag is None && c.swap is Some ==> c.glide,
{
    new_tabs_fade_in(s.tabs, n.tabs);
}

/// A tab that leaves the front is remembered where it was scrolled to, while the strip has it.
pub proof fn the_tab_that_leaves_the_front_is_remembered(
    s: StripModel,
    tabs: Seq<TabModel>,
    active: FenceId,
    scrolled: Dip,
    k: FenceId,
)
    ensures
        ({
            let m = next_memory(s, tabs, active, scrolled);
            &&& s.active != active && find(tabs, s.active) is Some ==> m.contains_key(s.active)
                && m[s.active] == scrolled
            &&& s.active == active && same_set(s.tabs, tabs) ==> m == s.memory
            &&& k != s.active && m.contains_key(k) ==> s.memory.contains_key(k) && m[k] == s.memory[k]
            &&& k != s.active && s.memory.contains_key(k) && find(tabs, k) is Some ==> m.contains_key(k)
        }),
{
}

} // verus!
