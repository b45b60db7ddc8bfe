//! Making fences and filing items into them.

use crate::clock::{is_random_id, new_id, now_unix};
use crate::model::{
    default_fence_view, fence_models, AssignedBy, Assignment, Config, Fence, FenceContentSpec,
    FenceId, FenceKind, FenceModel, FenceView, ItemId, ItemRef, ItemSourceSpec, LayoutModel,
    MonitorIdentity, NormGeometry, RuleId,
};
use crate::tabs::{first_index, has_fence, lemma_first_index, position};
use vstd::prelude::*;

verus! {

/// The most filed assignments that are remembered.
pub const UNDO_LOG_MAX: usize = 50;

// ---- fences -------------------------------------------------------------------------------

impl Fence {
    /// A new fence: empty, expanded, a window of its own, with the desktop as its source.
    pub fn new(title: &str, kind: FenceKind, geometry: NormGeometry) -> (r: Self)
        ensures
            is_random_id(r.id),
            r@ == (FenceModel {
                id: r.id,
                title: title@,
                kind,
                source: ItemSourceSpec::Desktop,
                content: FenceContentSpec::Files { source: ItemSourceSpec::Desktop },
                geometry: geometry@,
                rolled_up: false,
                expanded_h: geometry.h,
                view: default_fence_view(),
                appearance: None,
                exclude_from_quick_hide: false,
                locked: false,
                tab_host: None,
                active_tab: None,
                tab_order: Seq::empty(),
                portal_navigate: true,
                hide_title_icon: false,
                items: Seq::empty(),
            }),
    {
        Fence {
            id: new_id(),
            title: title.to_owned(),
            kind,
            source: ItemSourceSpec::Desktop,
            content: FenceContentSpec::default(),
            expanded_h: geometry.h,
            geometry,
            rolled_up: false,
            view: FenceView::default(),
            appearance: None,
            exclude_from_quick_hide: false,
            locked: false,
            tab_host: None,
            active_tab: None,
            tab_order: Vec::new(),
            portal_navigate: true,
            hide_title_icon: false,
            items: Vec::new(),
        }
    }

    /// Makes the fence show files from `source`; its content says the same.
    pub fn set_file_source(&mut self, source: ItemSourceSpec)
        ensures
            final(self)@ == (FenceModel {
                source,
                content: FenceContentSpec::Files { source },
                ..old(self)@
            }),
    {
        self.content = FenceContentSpec::Files { source: source.clone() };
        self.source = source;
    }

    /// Whether the item is in the fence.
    pub fn contains_item(&self, id: ItemId) -> (r: bool)
        ensures
            r == holds(self@, id),
    {
        let n: usize = self.items.len();
        for k in 0..n
            invariant
                n == self.items.len(),
                forall|j: int| 0 <= j < k ==> (#[trigger] self.items@[j]).item_id != id,
        {
            if self.items[k].item_id == id {
                return true;
            }
        }
        false
    }
}

/// The content and the source of a fence as it was saved: a fence saved without content shows
/// files from its source, and the source of one that shows files is that of its content.
pub fn loaded_content(source: ItemSourceSpec, content: Option<FenceContentSpec>) -> (r: (
    FenceContentSpec,
    ItemSourceSpec,
))
    ensures
        r.0 == match content {
            Some(c) => c,
            None => FenceContentSpec::Files { source },
        },
        r.1 == match r.0 {
            FenceContentSpec::Files { source: s } => s,
            FenceContentSpec::Panel { .. } => source,
        },
{
    match content {
        None => (FenceContentSpec::Files { source: source.clone() }, source),
        Some(FenceContentSpec::Files { source: s }) => (
            FenceContentSpec::Files { source: s.clone() },
            s,
        ),
        Some(FenceContentSpec::Panel { panel }) => (FenceContentSpec::Panel { panel }, source),
    }
}

// ---- membership ---------------------------------------------------------------------------

/// The fence holds the item.
pub open spec fn holds(f: FenceModel, item: ItemId) -> bool {
    exists|k: int| 0 <= k < f.items.len() && (#[trigger] f.items[k]).item_id == item
}

/// Fence `i` is the first one that holds the item.
pub open spec fn is_holder(fs: Seq<FenceModel>, item: ItemId, i: int) -> bool {
    &&& 0 <= i < fs.len()
    &&& holds(fs[i], item)
    &&& forall|j: int| 0 <= j < i ==> !holds(#[trigger] fs[j], item)
}

/// The first fence that holds the item, where one does.
pub open spec fn holder(fs: Seq<FenceModel>, item: ItemId) -> int {
    choose|i: int| is_holder(fs, item, i)
}

/// The id of the first fence that holds the item.
pub open spec fn fence_of(fs: Seq<FenceModel>, item: ItemId) -> Option<FenceId> {
    if exists|i: int| is_holder(fs, item, i) {
        Some(fs[holder(fs, item)].id)
    } else {
        None
    }
}

pub(crate) proof fn lemma_holder_unique(fs: Seq<FenceModel>, item: ItemId, i: int)
    requires
        is_holder(fs, item, i),
    ensures
        holder(fs, item) == i,
        fence_of(fs, item) == Some(fs[i].id),
{
    let k = holder(fs, item);
    assert(is_holder(fs, item, k));
    if k < i {
        assert(!holds(fs[k], item));
    }
    if i < k {
        assert(!holds(fs[i], item));
    }
}

pub(crate) proof fn lemma_no_holder(fs: Seq<FenceModel>, item: ItemId)
    requires
        forall|j: int| 0 <= j < fs.len() ==> !holds(#[trigger] fs[j], item),
    ensures
        fence_of(fs, item) is None,
{
}

/// The first fence of a list that holds the item.
pub fn holder_position(fences: &Vec<Fence>, item: ItemId) -> (r: Option<usize>)
    ensures
        r matches Some(i) ==> is_holder(fence_models(fences@), item, i as int),
        r is None ==> forall|j: int|
            0 <= j < fences.len() ==> !holds(#[trigger] fence_models(fences@)[j], item),
        fence_of(fence_models(fences@), item) == match r {
            Some(i) => Some(fences@[i as int].id),
            None => None,
        },
{
    let ghost fs = fence_models(fences@);
    let n: usize = fences.len();
    for i in 0..n
        invariant
            n == fences.len(),
            fs == fence_models(fences@),
            forall|j: int| 0 <= j < i ==> !holds(#[trigger] fs[j], item),
    {
        assert(fs[i as int] == fences@[i as int]@);
        if fences[i].contains_item(item) {
            proof {
                lemma_holder_unique(fs, item, i as int);
            }
            return Some(i);
        }
    }
    proof {
        lemma_no_holder(fs, item);
    }
    None
}

/// The memberships of other items.
pub open spec fn refs_without(refs: Seq<ItemRef>, item: ItemId) -> Seq<ItemRef>
    decreases refs.len(),
{
    if refs.len() == 0 {
        Seq::empty()
    } else {
        let rest = refs_without(refs.drop_last(), item);
        if refs.last().item_id != item {
            rest.push(refs.last())
        } else {
            rest
        }
    }
}

pub(crate) proof fn lemma_refs_without(refs: Seq<ItemRef>, item: ItemId)
    ensures
        forall|k: int|
            0 <= k < refs_without(refs, item).len() ==> (#[trigger] refs_without(refs, item)[k]).item_id
                != item,
        forall|r: ItemRef| #[trigger]
            refs_without(refs, item).contains(r) <==> refs.contains(r) && r.item_id != item,
    decreases refs.len(),
{
    if refs.len() > 0 {
        let t = refs.drop_last();
        let rest = refs_without(t, item);
        lemma_refs_without(t, item);
        assert(refs == t.push(refs.last()));
        assert forall|r: ItemRef| #[trigger]
            refs_without(refs, item).contains(r) <==> refs.contains(r) && r.item_id != item by {
            lemma_push_ref(t, refs.last(), r);
            lemma_push_ref(rest, refs.last(), r);
            assert(rest.contains(r) <==> t.contains(r) && r.item_id != item);
        }
    }
}

proof fn lemma_push_ref(s: Seq<ItemRef>, x: ItemRef, y: ItemRef)
    ensures
        s.push(x).contains(y) <==> s.contains(y) || y == x,
{
    if s.contains(y) {
        assert(s.push(x)[s.index_of(y)] == y);
    }
    if y == x {
        assert(s.push(x)[s.len() as int] == y);
    }
    if s.push(x).contains(y) {
        let k = s.push(x).index_of(y);
        if k < s.len() {
            assert(s[k] == y);
        }
    }
}

/// The memberships of other items.
pub fn drop_item(refs: &Vec<ItemRef>, item: ItemId) -> (r: Vec<ItemRef>)
    ensures
        r@ == refs_without(refs@, item),
{
    let mut out: Vec<ItemRef> = Vec::new();
    let n: usize = refs.len();
    for k in 0..n
        invariant
            n == refs.len(),
            out@ == refs_without(refs@.take(k as int), item),
    {
        assert(refs@.take(k + 1).drop_last() == refs@.take(k as int));
        if refs[k].item_id != item {
            out.push(refs[k]);
        }
    }
    assert(refs@.take(n as int) == refs@);
    out
}

/// The fence without the item.
pub open spec fn fence_without(f: FenceModel, item: ItemId) -> FenceModel {
    FenceModel { items: refs_without(f.items, item), ..f }
}

/// The fences without the item.
pub open spec fn fences_without(fs: Seq<FenceModel>, item: ItemId) -> Seq<FenceModel> {
    Seq::new(fs.len(), |i: int| fence_without(fs[i], item))
}

/// The fences with the item in the first fence `to`, last, and in no other.
pub open spec fn with_item(
    fs: Seq<FenceModel>,
    item: ItemId,
    to: FenceId,
    by: AssignedBy,
) -> Seq<FenceModel> {
    let base = fences_without(fs, item);
    let t = first_index(fs, to);
    base.update(
        t,
        FenceModel {
            items: base[t].items.push(
                ItemRef { item_id: item, manual_index: None, assigned_by: by },
            ),
            ..base[t]
        },
    )
}

fn set_items(fence: &mut Fence, items: Vec<ItemRef>)
    ensures
        final(fence)@ == (FenceModel { items: items@, ..old(fence)@ }),
{
    fence.items = items;
}

/// Takes the item out of every fence.
pub fn remove_item(fences: &mut Vec<Fence>, item: ItemId)
    ensures
        fence_models(final(fences)@) == fences_without(fence_models(old(fences)@), item),
        final(fences).len() == old(fences).len(),
{
    let ghost fs = fence_models(fences@);
    let n: usize = fences.len();
    for i in 0..n
        invariant
            n == fences.len(),
            n == fs.len(),
            forall|j: int| 0 <= j < i ==> (#[trigger] fences@[j])@ == fence_without(fs[j], item),
            forall|j: int| i <= j < n ==> (#[trigger] fences@[j])@ == fs[j],
    {
        assert(fences@[i as int]@ == fs[i as int]);
        let rest = drop_item(&fences[i].items, item);
        set_items(&mut fences[i], rest);
    }
    assert(fence_models(fences@) =~= fences_without(fs, item));
}

// ---- layouts ------------------------------------------------------------------------------

/// The device paths of a layout's monitors.
pub open spec fn monitor_paths(fingerprint: Seq<MonitorIdentity>) -> Seq<Seq<char>> {
    Seq::new(fingerprint.len(), |i: int| fingerprint[i].device_path@)
}

/// The texts of a list of strings.
pub open spec fn texts(paths: Seq<String>) -> Seq<Seq<char>> {
    Seq::new(paths.len(), |i: int| paths[i]@)
}

/// The layout is for exactly these monitors, in whatever order.
pub open spec fn is_for(l: LayoutModel, paths: Seq<Seq<char>>) -> bool {
    monitor_paths(l.fingerprint).to_multiset() == paths.to_multiset()
}

/// How often `x` occurs in `s`.
pub open spec fn occurrences(s: Seq<Seq<char>>, x: Seq<char>) -> nat
    decreases s.len(),
{
    if s.len() == 0 {
        0
    } else {
        occurrences(s.drop_last(), x) + if s.last() == x {
            1nat
        } else {
            0nat
        }
    }
}

proof fn lemma_occurrences(s: Seq<Seq<char>>, x: Seq<char>)
    ensures
        occurrences(s, x) == s.to_multiset().count(x),
        !s.contains(x) ==> occurrences(s, x) == 0,
    decreases s.len(),
{
    broadcast use vstd::seq_lib::group_to_multiset_ensures;

    if s.len() > 0 {
        let t = s.drop_last();
        lemma_occurrences(t, x);
        assert(s == t.push(s.last()));
        if !s.contains(x) {
            assert(s[s.len() - 1] == s.last());
            assert(s.contains(s.last()));
            assert(!t.contains(x)) by {
                if t.contains(x) {
                    assert(s[t.index_of(x)] == x);
                }
            }
        }
    } else {
        assert(s =~= Seq::empty());
        assert(s.to_multiset().count(x) == 0);
    }
}

fn count_in(paths: &Vec<String>, x: &String) -> (r: usize)
    ensures
        r == occurrences(texts(paths@), x@),
{
    let ghost s = texts(paths@);
    let mut count: usize = 0;
    let n: usize = paths.len();
    for i in 0..n
        invariant
            n == paths.len(),
            s == texts(paths@),
            count == occurrences(s.take(i as int), x@),
            count <= i,
    {
        assert(s.take(i + 1).drop_last() == s.take(i as int));
        assert(s.take(i + 1).last() == paths@[i as int]@);
        if paths[i] == *x {
            count = count + 1;
        }
    }
    assert(s.take(n as int) == s);
    count
}

fn counts_agree(a: &Vec<String>, b: &Vec<String>) -> (r: bool)
    ensures
        r == forall|i: int|
            0 <= i < a.len() ==> occurrences(texts(a@), #[trigger] texts(a@)[i]) == occurrences(
                texts(b@),
                texts(a@)[i],
            ),
{
    let n: usize = a.len();
    for i in 0..n
        invariant
            n == a.len(),
            forall|j: int|
                0 <= j < i ==> occurrences(texts(a@), #[trigger] texts(a@)[j]) == occurrences(
                    texts(b@),
                    texts(a@)[j],
                ),
    {
        assert(texts(a@)[i as int] == a@[i as int]@);
        if count_in(a, &a[i]) != count_in(b, &a[i]) {
            return false;
        }
    }
    true
}

/// Whether two lists hold the same strings equally often.
fn same_strings(a: &Vec<String>, b: &Vec<String>) -> (r: bool)
    ensures
        r == (texts(a@).to_multiset() == texts(b@).to_multiset()),
{
    let r = counts_agree(a, b) && counts_agree(b, a);
    proof {
        let s = texts(a@);
        let t = texts(b@);
        assert forall|x: Seq<char>| r implies s.to_multiset().count(x) == t.to_multiset().count(
            x,
        ) by {
            lemma_occurrences(s, x);
            lemma_occurrences(t, x);
            if s.contains(x) {
                assert(s[s.index_of(x)] == x);
            } else if t.contains(x) {
                assert(t[t.index_of(x)] == x);
            }
        }
        if r {
            assert(s.to_multiset() =~= t.to_multiset());
        }
        if s.to_multiset() == t.to_multiset() {
            assert forall|x: Seq<char>| occurrences(s, x) == occurrences(t, x) by {
                lemma_occurrences(s, x);
                lemma_occurrences(t, x);
            }
        }
    }
    r
}

fn device_paths(fingerprint: &Vec<MonitorIdentity>) -> (r: Vec<String>)
    ensures
        texts(r@) == monitor_paths(fingerprint@),
{
    let mut out: Vec<String> = Vec::new();
    let n: usize = fingerprint.len();
    for i in 0..n
        invariant
            n == fingerprint.len(),
            out.len() == i,
            forall|j: int| 0 <= j < i ==> (#[trigger] out@[j])@ == fingerprint@[j].device_path@,
    {
        out.push(fingerprint[i].device_path.clone());
    }
    assert(texts(out@) =~= monitor_paths(fingerprint@));
    out
}

/// The fences of layout `layout`.
pub open spec fn fences_at(c: Config, layout: int) -> Seq<FenceModel> {
    c.layouts@[layout]@.fences
}

/// Everything of a configuration but its layouts and its undo log is the same.
pub open spec fn same_rest(a: Config, b: Config) -> bool {
    &&& a.schema_version == b.schema_version
    &&& a.settings == b.settings
    &&& a.items == b.items
    &&& a.rules == b.rules
    &&& a.snapshots == b.snapshots
}

/// The item can be filed into fence `to`: it is not there already, and the fence exists and shows
/// files.
pub open spec fn can_file(fs: Seq<FenceModel>, item: ItemId, to: FenceId) -> bool {
    &&& fence_of(fs, item) != Some(to)
    &&& has_fence(fs, to)
    &&& fs[first_index(fs, to)].content is Files
}

/// The item can be filed into fence `to` of the layout.
pub open spec fn can_assign(c: Config, layout: int, item: ItemId, to: FenceId) -> bool {
    0 <= layout < c.layouts.len() && can_file(fences_at(c, layout), item, to)
}

/// The rule that an assignment comes from.
pub open spec fn rule_of(by: AssignedBy) -> Option<RuleId> {
    match by {
        AssignedBy::Rule(r) => Some(r),
        _ => None,
    }
}

/// The last assignments of a log, as many as are remembered.
pub open spec fn recent(log: Seq<Assignment>) -> Seq<Assignment> {
    if log.len() > UNDO_LOG_MAX {
        log.skip(log.len() - UNDO_LOG_MAX)
    } else {
        log
    }
}

impl Config {
    /// The first layout for exactly these monitors, in whatever order they are named.
    pub fn layout_for(&self, device_paths: &Vec<String>) -> (r: Option<usize>)
        ensures
            match r {
                Some(i) => {
                    &&& i < self.layouts.len()
                    &&& is_for(self.layouts@[i as int]@, texts(device_paths@))
                    &&& forall|j: int|
                        0 <= j < i ==> !is_for((#[trigger] self.layouts@[j])@, texts(device_paths@))
                },
                None => forall|j: int|
                    0 <= j < self.layouts.len() ==> !is_for(
                        (#[trigger] self.layouts@[j])@,
                        texts(device_paths@),
                    ),
            },
    {
        let n: usize = self.layouts.len();
        for i in 0..n
            invariant
                n == self.layouts.len(),
                forall|j: int|
                    0 <= j < i ==> !is_for((#[trigger] self.layouts@[j])@, texts(device_paths@)),
        {
            let have = self::device_paths(&self.layouts[i].fingerprint);
            if same_strings(&have, device_paths) {
                return Some(i);
            }
        }
        None
    }

    /// The fence `id` of a layout, to change.
    pub fn fence_mut(&mut self, layout: usize, id: FenceId) -> (r: Option<&mut Fence>)
        ensures
            r is Some <==> layout < old(self).layouts.len() && has_fence(
                fences_at(*old(self), layout as int),
                id,
            ),
            match r {
                Some(f) => {
                    let fences = old(self).layouts@[layout as int].fences@;
                    let i = first_index(fences_at(*old(self), layout as int), id);
                    &&& *f == fences[i]
                    &&& final(self).layouts@ == old(self).layouts@.update(
                        layout as int,
                        final(self).layouts@[layout as int],
                    )
                    &&& final(self).layouts@[layout as int].fingerprint
                        == old(self).layouts@[layout as int].fingerprint
                    &&& final(self).layouts@[layout as int].fences@ == fences.update(i, *final(f))
                    &&& final(self).undo_log == old(self).undo_log
                    &&& same_rest(*final(self), *old(self))
                },
                None => *final(self) == *old(self),
            },
    {
        if layout >= self.layouts.len() {
            return None;
        }
        match position(&self.layouts[layout].fences, id) {
            Some(i) => Some(&mut self.layouts[layout].fences[i]),
            None => None,
        }
    }

    /// The fence of a layout that holds the item, if any: the first one.
    pub fn fence_of_item(&self, layout: usize, item: ItemId) -> (r: Option<FenceId>)
        ensures
            r == if layout < self.layouts.len() {
                fence_of(fences_at(*self, layout as int), item)
            } else {
                None
            },
    {
        if layout >= self.layouts.len() {
            return None;
        }
        let fences = &self.layouts[layout].fences;
        match holder_position(fences, item) {
            Some(i) => Some(fences[i].id),
            None => None,
        }
    }

    /// Moves the item into fence `to` at time `ts`, out of any other fence of the layout. What a
    /// rule did is remembered. None, and no change, where the item cannot be filed there.
    pub fn assign_at(
        &mut self,
        layout: usize,
        item: ItemId,
        to: FenceId,
        by: AssignedBy,
        ts: i64,
    ) -> (r: Option<Assignment>)
        ensures
            r is Some <==> can_assign(*old(self), layout as int, item, to),
            match r {
                Some(a) => {
                    let fs = fences_at(*old(self), layout as int);
                    &&& a == (Assignment {
                        ts,
                        item_id: item,
                        from: fence_of(fs, item),
                        to,
                        rule_id: rule_of(by),
                    })
                    &&& fences_at(*final(self), layout as int) == with_item(fs, item, to, by)
                    &&& final(self).layouts@ == old(self).layouts@.update(
                        layout as int,
                        final(self).layouts@[layout as int],
                    )
                    &&& final(self).layouts@[layout as int].fingerprint
                        == old(self).layouts@[layout as int].fingerprint
                    &&& final(self).undo_log@ == if rule_of(by) is Some {
                        recent(old(self).undo_log@.push(a))
                    } else {
                        old(self).undo_log@
                    }
                    &&& same_rest(*final(self), *old(self))
                },
                None => *final(self) == *old(self),
            },
    {
        let from = self.fence_of_item(layout, item);
        if layout >= self.layouts.len() {
            return None;
        }
        if let Some(f) = from {
            if f == to {
                return None;
            }
        }
        let t: usize = match position(&self.layouts[layout].fences, to) {
            Some(t) => t,
            None => {
                return None;
            },
        };
        if !self.layouts[layout].fences[t].content.is_files() {
            return None;
        }
        let ghost fs = fences_at(*self, layout as int);
        remove_item(&mut self.layouts[layout].fences, item);
        push_item(
            &mut self.layouts[layout].fences,
            t,
            ItemRef { item_id: item, manual_index: None, assigned_by: by },
        );
        assert(fences_at(*self, layout as int) =~= with_item(fs, item, to, by));
        let rule_id: Option<RuleId> = match by {
            AssignedBy::Rule(r) => Some(r),
            _ => None,
        };
        let a = Assignment { ts, item_id: item, from, to, rule_id };
        if rule_id.is_some() {
            self.undo_log.push(a);
            if self.undo_log.len() > UNDO_LOG_MAX {
                let excess: usize = self.undo_log.len() - UNDO_LOG_MAX;
                let kept = self.undo_log.split_off(excess);
                self.undo_log = kept;
            }
            assert(self.undo_log@ =~= recent(old(self).undo_log@.push(a)));
        }
        assert(self.layouts@ =~= old(self).layouts@.update(
            layout as int,
            self.layouts@[layout as int],
        ));
        Some(a)
    }

    /// Moves the item into fence `to` now, as [`Config::assign_at`] does.
    pub fn assign(
        &mut self,
        layout: usize,
        item: ItemId,
        to: FenceId,
        by: AssignedBy,
    ) -> (r: Option<Assignment>)
        ensures
            r is Some <==> can_assign(*old(self), layout as int, item, to),
            match r {
                Some(a) => {
                    let fs = fences_at(*old(self), layout as int);
                    &&& a == (Assignment {
                        ts: a.ts,
                        item_id: item,
                        from: fence_of(fs, item),
                        to,
                        rule_id: rule_of(by),
                    })
                    &&& fences_at(*final(self), layout as int) == with_item(fs, item, to, by)
                    &&& final(self).layouts@ == old(self).layouts@.update(
                        layout as int,
                        final(self).layouts@[layout as int],
                    )
                    &&& final(self).layouts@[layout as int].fingerprint
                        == old(self).layouts@[layout as int].fingerprint
                    &&& final(self).undo_log@ == if rule_of(by) is Some {
                        recent(old(self).undo_log@.push(a))
                    } else {
                        old(self).undo_log@
                    }
                    &&& same_rest(*final(self), *old(self))
                },
                None => *final(self) == *old(self),
            },
    {
        let ts: i64 = now_unix();
        self.assign_at(layout, item, to, by, ts)
    }
}

fn push_item(fences: &mut Vec<Fence>, t: usize, r: ItemRef)
    requires
        t < old(fences).len(),
    ensures
        fence_models(final(fences)@) == {
            let fs = fence_models(old(fences)@);
            fs.update(t as int, FenceModel { items: fs[t as int].items.push(r), ..fs[t as int] })
        },
        final(fences).len() == old(fences).len(),
{
    let ghost fs = fence_models(fences@);
    fences[t].items.push(r);
    assert(fence_models(fences@) =~= fs.update(
        t as int,
        FenceModel { items: fs[t as int].items.push(r), ..fs[t as int] },
    ));
}

// ---- laws ---------------------------------------------------------------------------------

/// After an item was filed into a fence, that fence holds it and no other does.
pub proof fn filed_item_is_in_one_fence(
    fs: Seq<FenceModel>,
    item: ItemId,
    to: FenceId,
    by: AssignedBy,
)
    requires
        has_fence(fs, to),
    ensures
        fence_of(with_item(fs, item, to, by), item) == Some(to),
        forall|i: int|
            0 <= i < fs.len() ==> (holds(#[trigger] with_item(fs, item, to, by)[i], item) <==> i
                == first_index(fs, to)),
{
    let gs = with_item(fs, item, to, by);
    let t = first_index(fs, to);
    lemma_first_index(fs, to);
    assert forall|i: int| 0 <= i < fs.len() implies (holds(#[trigger] gs[i], item) <==> i == t) by {
        lemma_refs_without(fs[i].items, item);
        let base = refs_without(fs[i].items, item);
        if i == t {
            assert(gs[i].items[base.len() as int].item_id == item);
        } else if holds(gs[i], item) {
            let k = choose|k: int|
                0 <= k < gs[i].items.len() && (#[trigger] gs[i].items[k]).item_id == item;
            assert(base[k].item_id != item);
        }
    }
    assert(is_holder(gs, item, t)) by {
        assert(holds(gs[t], item));
    }
    lemma_holder_unique(gs, item, t);
    assert(gs[t].id == to);
}

/// Filing one item leaves every other membership as it was.
pub proof fn filing_keeps_other_items(
    fs: Seq<FenceModel>,
    item: ItemId,
    to: FenceId,
    by: AssignedBy,
    other: ItemId,
)
    requires
        has_fence(fs, to),
        other != item,
    ensures
        forall|i: int|
            0 <= i < fs.len() ==> (holds(#[trigger] with_item(fs, item, to, by)[i], other) <==> holds(
                fs[i],
                other,
            )),
        fence_of(with_item(fs, item, to, by), other) == fence_of(fs, other),
{
    let gs = with_item(fs, item, to, by);
    let t = first_index(fs, to);
    lemma_first_index(fs, to);
    assert forall|i: int| 0 <= i < fs.len() implies (holds(#[trigger] gs[i], other) <==> holds(
        fs[i],
        other,
    )) by {
        lemma_refs_without(fs[i].items, item);
        let base = refs_without(fs[i].items, item);
        if holds(fs[i], other) {
            let k = choose|k: int|
                0 <= k < fs[i].items.len() && (#[trigger] fs[i].items[k]).item_id == other;
            assert(fs[i].items.contains(fs[i].items[k]));
            assert(base.contains(fs[i].items[k]));
            let m = base.index_of(fs[i].items[k]);
            assert(gs[i].items[m].item_id == other);
        }
        if holds(gs[i], other) {
            let k = choose|k: int|
                0 <= k < gs[i].items.len() && (#[trigger] gs[i].items[k]).item_id == other;
            assert(k < base.len());
            assert(base.contains(base[k]));
            assert(fs[i].items.contains(base[k]));
            let m = fs[i].items.index_of(base[k]);
            assert(fs[i].items[m].item_id == other);
        }
    }
    assert forall|i: int| is_holder(gs, other, i) <==> is_holder(fs, other, i) by {
        if is_holder(fs, other, i) {
            assert(holds(gs[i], other));
            assert forall|j: int| 0 <= j < i implies !holds(#[trigger] gs[j], other) by {
                assert(!holds(fs[j], other));
            }
        }
        if is_holder(gs, other, i) {
            assert(holds(gs[i], other));
            assert forall|j: int| 0 <= j < i implies !holds(#[trigger] fs[j], other) by {
                assert(!holds(gs[j], other));
            }
        }
    }
    if exists|i: int| is_holder(fs, other, i) {
        let i = choose|i: int| is_holder(fs, other, i);
        lemma_holder_unique(fs, other, i);
        lemma_holder_unique(gs, other, i);
        assert(gs[i].id == fs[i].id);
    }
}

/// The undo log never holds more than the assignments that are remembered, and the newest is
/// among them.
pub proof fn undo_log_is_bounded(log: Seq<Assignment>, a: Assignment)
    ensures
        recent(log.push(a)).len() <= UNDO_LOG_MAX,
        recent(log.push(a)).last() == a,
{
}

/// An item is in the first fence that lists it, and in none where no fence does.
pub proof fn an_item_is_where_it_is_listed_first(fs: Seq<FenceModel>, item: ItemId, i: int, k: int)
    requires
        0 <= i < fs.len(),
        0 <= k < fs[i].items.len(),
        fs[i].items[k].item_id == item,
        forall|j: int, m: int|
            0 <= j < i && 0 <= m < fs[j].items.len() ==> (#[trigger] fs[j].items[m]).item_id != item,
    ensures
        fence_of(fs, item) == Some(fs[i].id),
{
    assert(holds(fs[i], item));
    assert(is_holder(fs, item, i));
    lemma_holder_unique(fs, item, i);
}

/// An item that no fence lists is in none.
pub proof fn an_unlisted_item_is_in_no_fence(fs: Seq<FenceModel>, item: ItemId)
    ensures
        fence_of(fs, item) is None <==> forall|j: int, m: int|
            0 <= j < fs.len() && 0 <= m < fs[j].items.len() ==> (#[trigger] fs[j].items[m]).item_id
                != item,
{
    if fence_of(fs, item) is None {
        assert forall|j: int, m: int| 0 <= j < fs.len() && 0 <= m < fs[j].items.len() implies (
        #[trigger] fs[j].items[m]).item_id != item by {
            if fs[j].items[m].item_id == item {
                lemma_some_holder(fs, item, j);
            }
        }
    }
}

proof fn lemma_some_holder(fs: Seq<FenceModel>, item: ItemId, j: int)
    requires
        0 <= j < fs.len(),
        holds(fs[j], item),
    ensures
        exists|i: int| is_holder(fs, item, i),
    decreases j,
{
    if forall|i: int| 0 <= i < j ==> !holds(#[trigger] fs[i], item) {
        assert(is_holder(fs, item, j));
    } else {
        let i = choose|i: int| 0 <= i < j && holds(#[trigger] fs[i], item);
        lemma_some_holder(fs, item, i);
    }
}

pub(crate) proof fn lemma_refs_filtered(refs: Seq<ItemRef>, item: ItemId)
    ensures
        refs_without(refs, item) == refs.filter(|r: ItemRef| r.item_id != item),
    decreases refs.len(),
{
    reveal(Seq::filter);
    if refs.len() > 0 {
        lemma_refs_filtered(refs.drop_last(), item);
    }
}

/// Filing an item takes it out of every fence and puts it last in the one it goes to, with who
/// filed it; the other items keep their order, and nothing else about a fence changes.
pub proof fn a_filed_item_comes_last(
    fs: Seq<FenceModel>,
    item: ItemId,
    to: FenceId,
    by: AssignedBy,
    t: int,
)
    requires
        0 <= t < fs.len(),
        fs[t].id == to,
        forall|j: int| 0 <= j < t ==> (#[trigger] fs[j]).id != to,
    ensures
        with_item(fs, item, to, by).len() == fs.len(),
        with_item(fs, item, to, by)[t].items == fs[t].items.filter(
            |r: ItemRef| r.item_id != item,
        ).push(ItemRef { item_id: item, manual_index: None, assigned_by: by }),
        forall|i: int|
            0 <= i < fs.len() ==> (#[trigger] with_item(fs, item, to, by)[i]) == (FenceModel {
                items: with_item(fs, item, to, by)[i].items,
                ..fs[i]
            }),
        forall|i: int|
            0 <= i < fs.len() && i != t ==> (#[trigger] with_item(fs, item, to, by)[i]).items
                == fs[i].items.filter(|r: ItemRef| r.item_id != item),
{
    assert(has_fence(fs, to));
    lemma_first_index(fs, to);
    let f = first_index(fs, to);
    if f < t {
        assert(fs[f].id != to);
    }
    if t < f {
        assert(fs[t].id != to);
    }
    assert forall|i: int| 0 <= i < fs.len() implies refs_without(#[trigger] fs[i].items, item)
        == fs[i].items.filter(|r: ItemRef| r.item_id != item) by {
        lemma_refs_filtered(fs[i].items, item);
    }
}

/// An item can be filed into a fence that is there, holds files, and does not have it yet.
pub proof fn only_fences_of_files_take_items(fs: Seq<FenceModel>, item: ItemId, to: FenceId)
    ensures
        (forall|j: int| 0 <= j < fs.len() ==> (#[trigger] fs[j]).id != to) ==> !can_file(fs, item, to),
        forall|t: int|
            0 <= t < fs.len() && (#[trigger] fs[t]).id == to && (forall|j: int|
                0 <= j < t ==> (#[trigger] fs[j]).id != to) ==> (can_file(fs, item, to) <==> fs[t].content is Files
                && fence_of(fs, item) != Some(to)),
{
    assert forall|t: int|
        0 <= t < fs.len() && (#[trigger] fs[t]).id == to && (forall|j: int|
            0 <= j < t ==> (#[trigger] fs[j]).id != to) implies (can_file(fs, item, to)
        <==> fs[t].content is Files && fence_of(fs, item) != Some(to)) by {
        assert(has_fence(fs, to));
        lemma_first_index(fs, to);
        let f = first_index(fs, to);
        if f < t {
            assert(fs[f].id != to);
        }
        if t < f {
            assert(fs[t].id != to);
        }
    }
}

/// The log keeps the latest fifty assignments, in the order they came in.
pub proof fn the_log_keeps_the_latest(log: Seq<Assignment>)
    ensures
        log.len() <= 50 ==> recent(log) == log,
        log.len() > 50 ==> recent(log) == log.subrange(log.len() - 50, log.len() as int),
{
}

/// Only what a rule filed carries a rule.
pub proof fn only_rules_have_an_id(by: AssignedBy)
    ensures
        by is User || by is Migration ==> rule_of(by) is None,
        forall|r: RuleId| rule_of(by) == Some(r) <==> by == AssignedBy::Rule(r),
{
}

/// A layout belongs to a set of monitors whatever the order they are named in, and to no other.
pub proof fn the_order_of_monitors_does_not_matter(
    l: LayoutModel,
    p: Seq<Seq<char>>,
    q: Seq<Seq<char>>,
)
    ensures
        is_for(l, p + q) <==> is_for(l, q + p),
        is_for(l, p) ==> l.fingerprint.len() == p.len() && forall|i: int|
            0 <= i < l.fingerprint.len() ==> p.contains((#[trigger] l.fingerprint[i]).device_path@),
        l.fingerprint.len() == p.len() && (forall|i: int|
            0 <= i < p.len() ==> (#[trigger] l.fingerprint[i]).device_path@ == p[i]) ==> is_for(l, p),
{
    vstd::seq_lib::lemma_multiset_commutative(p, q);
    vstd::seq_lib::lemma_multiset_commutative(q, p);
    assert((p + q).to_multiset() =~= (q + p).to_multiset());
    let m = monitor_paths(l.fingerprint);
    if is_for(l, p) {
        m.to_multiset_ensures();
        p.to_multiset_ensures();
        assert forall|i: int| 0 <= i < l.fingerprint.len() implies p.contains(
            (#[trigger] l.fingerprint[i]).device_path@,
        ) by {
            assert(m[i] == l.fingerprint[i].device_path@);
            assert(m.contains(m[i]));
            assert(m.to_multiset().count(m[i]) > 0);
            assert(p.to_multiset().count(m[i]) > 0);
        }
    }
    if l.fingerprint.len() == p.len() && (forall|i: int|
        0 <= i < p.len() ==> (#[trigger] l.fingerprint[i]).device_path@ == p[i]) {
        assert(m =~= p);
    }
}

} // verus!
