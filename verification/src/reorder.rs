//! Arranging the items of a fence by hand.

use crate::listing::{
    arranged, contents, display_order, is_listing, is_visible, leads, list_order, listed_refs,
    Listed,
};
use crate::model::{FenceId, FenceKind, FenceModel, Item, ItemId, ItemRef, SortMode};
use crate::order::lemma_all_covered;
use crate::portals::portal_path_of;
use crate::state::{at, fences, in_use, lemma_edited, same_but_fences, with_fence, AppState};
use crate::tabs::{contains_id, has_fence, same_ids};
use vstd::prelude::*;

verus! {

// ---- the new order ------------------------------------------------------------------------

/// Those of `order` that are among `items`, or those that are not.
pub open spec fn picked(order: Seq<ItemId>, items: Seq<ItemId>, wanted: bool) -> Seq<ItemId>
    decreases order.len(),
{
    if order.len() == 0 {
        Seq::empty()
    } else if items.contains(order.last()) == wanted {
        picked(order.drop_last(), items, wanted).push(order.last())
    } else {
        picked(order.drop_last(), items, wanted)
    }
}

/// `order` with those among `items` moved, in their order, in front of what stands at `index`.
pub open spec fn moved_to(order: Seq<ItemId>, items: Seq<ItemId>, index: int) -> Seq<ItemId> {
    let end = if index < order.len() {
        index
    } else {
        order.len() as int
    };
    let rest = picked(order, items, false);
    let slot = index - picked(order.take(end), items, true).len();
    let slot = if slot < rest.len() {
        slot
    } else {
        rest.len() as int
    };
    rest.take(slot) + picked(order, items, true) + rest.skip(slot)
}

/// The first reference to the item stands at `k`.
pub open spec fn refers_at(refs: Seq<ItemRef>, id: ItemId, k: int) -> bool {
    &&& 0 <= k < refs.len()
    &&& refs[k].item_id == id
    &&& forall|j: int| 0 <= j < k ==> (#[trigger] refs[j]).item_id != id
}

pub open spec fn ref_place(refs: Seq<ItemRef>, id: ItemId) -> int {
    choose|k: int| refers_at(refs, id, k)
}

/// `refs` with place `i` given to the first reference to `id`, where there is one.
pub open spec fn with_place(refs: Seq<ItemRef>, id: ItemId, i: u32) -> Seq<ItemRef> {
    if exists|k: int| refers_at(refs, id, k) {
        let k = ref_place(refs, id);
        refs.update(k, ItemRef { manual_index: Some(i), ..refs[k] })
    } else {
        refs
    }
}

/// `refs` with the items of `order` given their places in it.
pub open spec fn numbered(refs: Seq<ItemRef>, order: Seq<ItemId>) -> Seq<ItemRef>
    decreases order.len(),
{
    if order.len() == 0 {
        refs
    } else {
        with_place(numbered(refs, order.drop_last()), order.last(), (order.len() - 1) as u32)
    }
}

pub open spec fn ids_of_items(items: Seq<Item>) -> Seq<ItemId> {
    Seq::new(items.len(), |k: int| items[k].id)
}

/// The items of the fence can be arranged by hand.
pub open spec fn can_reorder(s: AppState, id: FenceId) -> bool {
    portal_path_of(s, id) is None && has_fence(fences(s), id) && at(s, id).view.sort
        == SortMode::Manual
}

/// The fence with its items numbered so that it shows them in this order.
pub open spec fn rearranged(f: FenceModel, order: Seq<ItemId>) -> FenceModel {
    FenceModel {
        items: numbered(
            f.items,
            if f.view.reverse {
                order.reverse()
            } else {
                order
            },
        ),
        ..f
    }
}

/// What moving `items` to `index` does to the fence, given what it shows.
pub open spec fn reordered(
    a: AppState,
    b: AppState,
    id: FenceId,
    shown: Seq<Item>,
    items: Seq<ItemId>,
    index: int,
    r: bool,
) -> bool {
    let order = ids_of_items(shown);
    let next = moved_to(order, items, index);
    &&& is_listing(a, at(a, id), shown)
    &&& r == (picked(order, items, true).len() > 0 && next != order)
    &&& !r ==> b == a
    &&& r ==> {
        &&& fences(b) == with_fence(fences(a), id, rearranged(at(a, id), next))
        &&& b.dirty
        &&& same_but_fences(b, a)
    }
}

// ---- execution ----------------------------------------------------------------------------

fn pick(order: &Vec<ItemId>, upto: usize, items: &Vec<ItemId>, wanted: bool) -> (r: Vec<ItemId>)
    requires
        upto <= order.len(),
    ensures
        r@ == picked(order@.take(upto as int), items@, wanted),
        r.len() <= upto,
{
    let mut out: Vec<ItemId> = Vec::new();
    for k in 0..upto
        invariant
            upto <= order.len(),
            out@ == picked(order@.take(k as int), items@, wanted),
            out.len() <= k,
    {
        assert(order@.take(k + 1).drop_last() == order@.take(k as int));
        if contains_id(items, order[k]) == wanted {
            out.push(order[k]);
        }
    }
    out
}

/// `order` with those among `items` moved in front of what stands at `index`, and how many moved.
fn move_to(order: &Vec<ItemId>, items: &Vec<ItemId>, index: usize) -> (r: (Vec<ItemId>, usize))
    ensures
        r.0@ == moved_to(order@, items@, index as int),
        r.1 == picked(order@, items@, true).len(),
{
    let n: usize = order.len();
    let end: usize = if index < n {
        index
    } else {
        n
    };
    let before: usize = pick(order, end, items, true).len();
    assert(order@.take(n as int) == order@);
    let chosen = pick(order, n, items, true);
    let rest = pick(order, n, items, false);
    let slot: usize = if index - before < rest.len() {
        index - before
    } else {
        rest.len()
    };
    let mut out: Vec<ItemId> = Vec::new();
    for k in 0..slot
        invariant
            slot <= rest.len(),
            out@ == rest@.take(k as int),
    {
        out.push(rest[k]);
    }
    let count: usize = chosen.len();
    for k in 0..count
        invariant
            count == chosen.len(),
            slot <= rest.len(),
            out@ == rest@.take(slot as int) + chosen@.take(k as int),
    {
        out.push(chosen[k]);
    }
    assert(chosen@.take(count as int) == chosen@);
    let m: usize = rest.len();
    for k in slot..m
        invariant
            m == rest.len(),
            slot <= k <= rest.len(),
            out@ == rest@.take(slot as int) + chosen@ + rest@.subrange(slot as int, k as int),
    {
        out.push(rest[k]);
        assert(out@ =~= rest@.take(slot as int) + chosen@ + rest@.subrange(
            slot as int,
            k + 1,
        ));
    }
    assert(rest@.subrange(slot as int, m as int) =~= rest@.skip(slot as int));
    (out, count)
}

fn reversed(order: &Vec<ItemId>) -> (r: Vec<ItemId>)
    ensures
        r@ == order@.reverse(),
{
    let mut out: Vec<ItemId> = Vec::new();
    let n: usize = order.len();
    for k in 0..n
        invariant
            n == order.len(),
            out.len() == k,
            forall|j: int| 0 <= j < k ==> #[trigger] out@[j] == order@[n - 1 - j],
    {
        out.push(order[n - 1 - k]);
    }
    assert(out@ =~= order@.reverse());
    out
}

fn place_ref(refs: &mut Vec<ItemRef>, id: ItemId, i: u32)
    ensures
        final(refs)@ == with_place(old(refs)@, id, i),
{
    let n: usize = refs.len();
    for k in 0..n
        invariant
            n == refs.len(),
            refs@ == old(refs)@,
            forall|j: int| 0 <= j < k ==> (#[trigger] refs@[j]).item_id != id,
    {
        if refs[k].item_id == id {
            proof {
                assert(refers_at(refs@, id, k as int));
                lemma_ref_place(refs@, id, k as int);
            }
            refs[k].manual_index = Some(i);
            return ;
        }
    }
}

proof fn lemma_ref_place(refs: Seq<ItemRef>, id: ItemId, k: int)
    requires
        refers_at(refs, id, k),
    ensures
        ref_place(refs, id) == k,
{
    let p = ref_place(refs, id);
    assert(refers_at(refs, id, p));
    if p < k {
        assert(refs[p].item_id != id);
    }
    if k < p {
        assert(refs[k].item_id != id);
    }
}

fn number_refs(refs: &mut Vec<ItemRef>, order: &Vec<ItemId>)
    ensures
        final(refs)@ == numbered(old(refs)@, order@),
{
    let n: usize = order.len();
    for k in 0..n
        invariant
            n == order.len(),
            refs@ == numbered(old(refs)@, order@.take(k as int)),
    {
        assert(order@.take(k + 1).drop_last() == order@.take(k as int));
        place_ref(refs, order[k], k as u32);
    }
    assert(order@.take(n as int) == order@);
}

fn item_ids(items: &Vec<&Item>) -> (r: Vec<ItemId>)
    ensures
        r@ == ids_of_items(items@.unref()),
{
    let mut out: Vec<ItemId> = Vec::new();
    let n: usize = items.len();
    for k in 0..n
        invariant
            n == items.len(),
            out.len() == k,
            forall|j: int| 0 <= j < k ==> #[trigger] out@[j] == items@[j].id,
    {
        out.push(items[k].id);
    }
    assert(out@ =~= ids_of_items(items@.unref()));
    out
}

impl AppState {
    /// Moves items of a fence, in the order in which it shows them, in front of what it shows at
    /// `index`. Refused for portals and for fences with another order than the user's. Returns
    /// whether the order changed.
    pub fn reorder_items(&mut self, fence: FenceId, items: &Vec<ItemId>, index: usize) -> (r: bool)
        requires
            in_use(*old(self)),
        ensures
            !can_reorder(*old(self), fence) ==> !r && *final(self) == *old(self),
            can_reorder(*old(self), fence) ==> exists|shown: Seq<Item>| #[trigger]
                reordered(*old(self), *final(self), fence, shown, items@, index as int, r),
    {
        if self.portal_path(fence).is_some() {
            return false;
        }
        let ghost before = *self;
        let (reverse, order, next, count) = match self.fence(fence) {
            Some(f) => {
                if f.view.sort != SortMode::Manual {
                    return false;
                }
                let shown = self.items_of(f);
                let order = item_ids(&shown);
                let (next, count) = move_to(&order, items, index);
                assert(is_listing(before, at(before, fence), shown@.unref()));
                (f.view.reverse, order, next, count)
            },
            None => {
                return false;
            },
        };
        let ghost shown = choose|shown: Seq<Item>| #[trigger]
            is_listing(before, at(before, fence), shown) && order@ == ids_of_items(shown);
        if count == 0 || same_ids(&next, &order) {
            assert(reordered(before, *self, fence, shown, items@, index as int, false));
            return false;
        }
        let forward = if reverse {
            reversed(&next)
        } else {
            next
        };
        let layout: usize = self.layout;
        if let Some(f) = self.config.fence_mut(layout, fence) {
            number_refs(&mut f.items, &forward);
        }
        self.dirty = true;
        proof {
            lemma_edited(before, *self, fence);
            assert(reordered(before, *self, fence, shown, items@, index as int, true));
        }
        true
    }
}

// ---- what the fence then shows ------------------------------------------------------------

/// Every item is recorded under its own id.
pub open spec fn keyed_by_id(items: Map<ItemId, Item>) -> bool {
    forall|id: ItemId| #[trigger] items.contains_key(id) ==> items[id].id == id
}

/// No item is referred to twice.
pub open spec fn refs_distinct(refs: Seq<ItemRef>) -> bool {
    forall|i: int, j: int|
        0 <= i < refs.len() && 0 <= j < refs.len() && (#[trigger] refs[i]).item_id == (
        #[trigger] refs[j]).item_id ==> i == j
}

/// The references are to the same items, in the same order.
spec fn same_items(a: Seq<ItemRef>, b: Seq<ItemRef>) -> bool {
    &&& a.len() == b.len()
    &&& forall|k: int| 0 <= k < a.len() ==> (#[trigger] a[k]).item_id == b[k].item_id
}

proof fn lemma_picked(order: Seq<ItemId>, items: Seq<ItemId>, wanted: bool)
    requires
        order.no_duplicates(),
    ensures
        picked(order, items, wanted).no_duplicates(),
        forall|x: ItemId| #[trigger]
            picked(order, items, wanted).contains(x) <==> order.contains(x) && items.contains(x)
                == wanted,
    decreases order.len(),
{
    if order.len() > 0 {
        let front = order.drop_last();
        lemma_picked(front, items, wanted);
        let p = picked(front, items, wanted);
        assert forall|x: ItemId| order.contains(x) <==> front.contains(x) || x == order.last() by {
            if front.contains(x) {
                assert(order[front.index_of(x)] == x);
            }
            if order.contains(x) && x != order.last() {
                assert(front[order.index_of(x)] == x);
            }
            assert(order[order.len() - 1] == order.last());
        }
        assert(!front.contains(order.last())) by {
            if front.contains(order.last()) {
                assert(order[front.index_of(order.last())] == order[order.len() - 1]);
            }
        }
        if items.contains(order.last()) == wanted {
            let q = p.push(order.last());
            assert forall|x: ItemId| #[trigger] q.contains(x) <==> p.contains(x) || x
                == order.last() by {
                if p.contains(x) {
                    assert(q[p.index_of(x)] == x);
                }
                if q.contains(x) && x != order.last() {
                    assert(p[q.index_of(x)] == x);
                }
                assert(q[q.len() - 1] == order.last());
            }
            assert forall|i: int, j: int| 0 <= i < q.len() && 0 <= j < q.len() && i != j implies q[i]
                != q[j] by {
                if i < p.len() {
                    assert(p.contains(p[i]));
                }
                if j < p.len() {
                    assert(p.contains(p[j]));
                }
            }
        }
    }
}

proof fn lemma_picked_len(order: Seq<ItemId>, items: Seq<ItemId>)
    ensures
        picked(order, items, true).len() + picked(order, items, false).len() == order.len(),
    decreases order.len(),
{
    if order.len() > 0 {
        lemma_picked_len(order.drop_last(), items);
    }
}

/// Moving keeps the items.
proof fn lemma_moved_to(order: Seq<ItemId>, items: Seq<ItemId>, index: int)
    requires
        order.no_duplicates(),
        index >= 0,
    ensures
        moved_to(order, items, index).no_duplicates(),
        moved_to(order, items, index).len() == order.len(),
        forall|x: ItemId| #[trigger]
            moved_to(order, items, index).contains(x) <==> order.contains(x),
{
    lemma_picked(order, items, true);
    lemma_picked(order, items, false);
    lemma_picked_len(order, items);
    let end = if index < order.len() {
        index
    } else {
        order.len() as int
    };
    let head = order.take(end);
    lemma_picked_len(head, items);
    let rest = picked(order, items, false);
    let chosen = picked(order, items, true);
    let slot = index - picked(head, items, true).len();
    let slot = if slot < rest.len() {
        slot
    } else {
        rest.len() as int
    };
    let out = moved_to(order, items, index);
    let a = rest.take(slot);
    let b = rest.skip(slot);
    assert(out =~= a + chosen + b);
    assert forall|i: int| 0 <= i < out.len() implies #[trigger] out[i] == (if i < slot {
        rest[i]
    } else if i < slot + chosen.len() {
        chosen[i - slot]
    } else {
        rest[i - chosen.len()]
    }) by {}
    assert forall|i: int, j: int| 0 <= i < out.len() && 0 <= j < out.len() && i != j implies out[i]
        != out[j] by {
        lemma_sides(out, rest, chosen, slot, i);
        lemma_sides(out, rest, chosen, slot, j);
    }
    assert forall|x: ItemId| #[trigger] out.contains(x) <==> order.contains(x) by {
        if out.contains(x) {
            lemma_sides(out, rest, chosen, slot, out.index_of(x));
        }
        if order.contains(x) {
            if items.contains(x) {
                assert(chosen.contains(x));
                assert(out[slot + chosen.index_of(x)] == x);
            } else {
                assert(rest.contains(x));
                let k = rest.index_of(x);
                if k < slot {
                    assert(out[k] == x);
                } else {
                    assert(out[k + chosen.len()] == x);
                }
            }
        }
    }
}

proof fn lemma_sides(
    out: Seq<ItemId>,
    rest: Seq<ItemId>,
    chosen: Seq<ItemId>,
    slot: int,
    i: int,
)
    requires
        0 <= slot <= rest.len(),
        out == rest.take(slot) + chosen + rest.skip(slot),
        0 <= i < out.len(),
    ensures
        slot <= i < slot + chosen.len() ==> out[i] == chosen[i - slot] && chosen.contains(out[i]),
        i < slot ==> out[i] == rest[i] && rest.contains(out[i]),
        i >= slot + chosen.len() ==> out[i] == rest[i - chosen.len()] && rest.contains(out[i]),
{
    if i < slot {
        assert(rest.contains(rest[i]));
    } else if i < slot + chosen.len() {
        assert(chosen.contains(chosen[i - slot]));
    } else {
        assert(rest.contains(rest[i - chosen.len()]));
    }
}

/// What numbering gives each reference.
proof fn lemma_numbered(refs: Seq<ItemRef>, order: Seq<ItemId>)
    requires
        refs_distinct(refs),
        order.no_duplicates(),
        order.len() <= u32::MAX,
    ensures
        same_items(numbered(refs, order), refs),
        forall|k: int, p: int|
            0 <= k < refs.len() && 0 <= p < order.len() && (#[trigger] refs[k]).item_id
                == #[trigger] order[p] ==> numbered(refs, order)[k].manual_index == Some(p as u32),
    decreases order.len(),
{
    if order.len() > 0 {
        let front = order.drop_last();
        let last = order.last();
        lemma_numbered(refs, front);
        let ns = numbered(refs, front);
        let out = numbered(refs, order);
        if exists|k: int| refers_at(ns, last, k) {
            let m = ref_place(ns, last);
            assert(refers_at(ns, last, m));
            assert(refs[m].item_id == last);
        }
        assert forall|k: int, p: int|
            0 <= k < refs.len() && 0 <= p < order.len() && (#[trigger] refs[k]).item_id
                == #[trigger] order[p] implies out[k].manual_index == Some(p as u32) by {
            if p < front.len() {
                assert(front[p] == order[p]);
                assert(order[p] != order[order.len() - 1]);
                if exists|j: int| refers_at(ns, last, j) {
                    let m = ref_place(ns, last);
                    assert(refers_at(ns, last, m));
                    assert(ns[m].item_id == refs[m].item_id);
                }
            } else {
                assert(ns[k].item_id == last);
                assert forall|j: int| 0 <= j < k implies (#[trigger] ns[j]).item_id != last by {
                    assert(ns[j].item_id == refs[j].item_id);
                }
                assert(refers_at(ns, last, k));
                lemma_ref_place(ns, last, k);
            }
        }
    }
}

/// Where the entries of a listing come from, for two lists of references to the same items.
proof fn lemma_listed(
    items: Map<ItemId, Item>,
    a: Seq<ItemRef>,
    b: Seq<ItemRef>,
) -> (from: Seq<int>)
    requires
        same_items(a, b),
    ensures
        from.len() == listed_refs(items, a).len(),
        from.len() == listed_refs(items, b).len(),
        forall|j: int|
            0 <= j < from.len() ==> {
                let k = #[trigger] from[j];
                &&& 0 <= k < a.len()
                &&& is_visible(items, a[k])
                &&& listed_refs(items, a)[j] == (Listed {
                    index: a[k].manual_index,
                    item: items[a[k].item_id],
                })
                &&& listed_refs(items, b)[j] == (Listed {
                    index: b[k].manual_index,
                    item: items[a[k].item_id],
                })
            },
        forall|i: int, j: int| 0 <= i < j < from.len() ==> #[trigger] from[i] < #[trigger] from[j],
    decreases a.len(),
{
    if a.len() == 0 {
        Seq::empty()
    } else {
        let n = a.len() - 1;
        let front = lemma_listed(items, a.drop_last(), b.drop_last());
        assert(a[n].item_id == b[n].item_id);
        if is_visible(items, a.last()) {
            let from = front.push(n);
            assert forall|j: int| 0 <= j < from.len() implies {
                let k = #[trigger] from[j];
                &&& 0 <= k < a.len()
                &&& is_visible(items, a[k])
                &&& listed_refs(items, a)[j] == (Listed {
                    index: a[k].manual_index,
                    item: items[a[k].item_id],
                })
                &&& listed_refs(items, b)[j] == (Listed {
                    index: b[k].manual_index,
                    item: items[a[k].item_id],
                })
            } by {
                if j < front.len() {
                    assert(from[j] == front[j]);
                    assert(a.drop_last()[front[j]] == a[front[j]]);
                    assert(b.drop_last()[front[j]] == b[front[j]]);
                }
            }
            from
        } else {
            assert forall|j: int| 0 <= j < front.len() implies {
                let k = #[trigger] front[j];
                &&& 0 <= k < a.len()
                &&& is_visible(items, a[k])
                &&& listed_refs(items, a)[j] == (Listed {
                    index: a[k].manual_index,
                    item: items[a[k].item_id],
                })
                &&& listed_refs(items, b)[j] == (Listed {
                    index: b[k].manual_index,
                    item: items[a[k].item_id],
                })
            } by {
                assert(a.drop_last()[front[j]] == a[front[j]]);
                assert(b.drop_last()[front[j]] == b[front[j]]);
            }
            front
        }
    }
}

/// Growing numbers below `n`, `n` of them, are the numbers themselves.
proof fn lemma_growing(p: Seq<int>, a: int)
    requires
        forall|i: int| 0 <= i < p.len() ==> 0 <= #[trigger] p[i] < p.len(),
        forall|i: int, j: int| 0 <= i < j < p.len() ==> #[trigger] p[i] < #[trigger] p[j],
        0 <= a < p.len(),
    ensures
        p[a] == a,
{
    lemma_at_least(p, a);
    lemma_at_most(p, a);
}

proof fn lemma_at_least(p: Seq<int>, a: int)
    requires
        forall|i: int| 0 <= i < p.len() ==> 0 <= #[trigger] p[i] < p.len(),
        forall|i: int, j: int| 0 <= i < j < p.len() ==> #[trigger] p[i] < #[trigger] p[j],
        0 <= a < p.len(),
    ensures
        p[a] >= a,
    decreases a,
{
    if a > 0 {
        lemma_at_least(p, a - 1);
    }
}

proof fn lemma_at_most(p: Seq<int>, a: int)
    requires
        forall|i: int| 0 <= i < p.len() ==> 0 <= #[trigger] p[i] < p.len(),
        forall|i: int, j: int| 0 <= i < j < p.len() ==> #[trigger] p[i] < #[trigger] p[j],
        0 <= a < p.len(),
    ensures
        p[a] <= a,
    decreases p.len() - a,
{
    if a + 1 < p.len() {
        lemma_at_most(p, a + 1);
        assert(p[a] < p[a + 1]);
    }
}

/// The ids that a fence shows: once each, those of its contents.
proof fn lemma_shown(
    s: AppState,
    f: FenceModel,
    shown: Seq<Item>,
    from: Seq<int>,
)
    requires
        f.kind != FenceKind::FolderPortal,
        refs_distinct(f.items),
        keyed_by_id(s.config.items@),
        is_listing(s, f, shown),
        contents(s, f).len() <= u32::MAX,
        from.len() == contents(s, f).len(),
        forall|j: int|
            0 <= j < from.len() ==> {
                let k = #[trigger] from[j];
                &&& 0 <= k < f.items.len()
                &&& is_visible(s.config.items@, f.items[k])
                &&& contents(s, f)[j].item == s.config.items@[f.items[k].item_id]
            },
        forall|i: int, j: int| 0 <= i < j < from.len() ==> #[trigger] from[i] < #[trigger] from[j],
    ensures
        ids_of_items(shown).no_duplicates(),
        shown.len() == contents(s, f).len(),
        forall|j: int|
            0 <= j < from.len() ==> ids_of_items(shown).contains(
                (#[trigger] contents(s, f)[j]).item.id,
            ),
{
    let cs = contents(s, f);
    let perm = choose|perm: Seq<usize>| #[trigger]
        display_order(f.view.sort, cs, perm) && shown == arranged(cs, perm, f.view.reverse);
    let ids = ids_of_items(shown);
    assert forall|i: int, j: int|
        0 <= i < cs.len() && 0 <= j < cs.len() && (#[trigger] cs[i]).item.id == (
        #[trigger] cs[j]).item.id implies i == j by {
        assert(f.items[from[i]].item_id == f.items[from[j]].item_id);
        assert(from[i] == from[j]);
        if i < j {
            assert(from[i] < from[j]);
        }
        if j < i {
            assert(from[j] < from[i]);
        }
    }
    assert forall|a: int, b: int| 0 <= a < ids.len() && 0 <= b < ids.len() && a != b implies ids[a]
        != ids[b] by {
        let p = if f.view.reverse {
            perm.len() - 1 - a
        } else {
            a
        };
        let q = if f.view.reverse {
            perm.len() - 1 - b
        } else {
            b
        };
        assert(perm[p] != perm[q]);
        assert(shown[a] == cs[perm[p] as int].item);
        assert(shown[b] == cs[perm[q] as int].item);
    }
    assert forall|j: int| 0 <= j < from.len() implies ids.contains((#[trigger] cs[j]).item.id) by {
        assert(perm.len() == cs.len());
        if perm.len() > 0 {
            assert(perm[0] < cs.len());
        }
        lemma_index(perm, j);
        let a = choose|a: int| 0 <= a < perm.len() && #[trigger] perm[a] == j;
        let b = if f.view.reverse {
            perm.len() - 1 - a
        } else {
            a
        };
        assert(ids[b] == cs[j].item.id);
    }
}

proof fn lemma_index(perm: Seq<usize>, j: int)
    requires
        perm.len() <= u32::MAX,
        perm.no_duplicates(),
        forall|a: int| 0 <= a < perm.len() ==> 0 <= #[trigger] perm[a] < perm.len(),
        0 <= j < perm.len(),
    ensures
        exists|a: int| 0 <= a < perm.len() && #[trigger] perm[a] == j,
{
    lemma_all_covered(perm, perm.len() as int, j as usize);
    assert(perm[perm.index_of(j as usize)] == j);
}

/// An arranged fence shows its items in the order they were moved to, whether or not it is
/// reversed.
pub proof fn reordered_items_are_shown(
    a: AppState,
    b: AppState,
    id: FenceId,
    shown: Seq<Item>,
    items: Seq<ItemId>,
    index: int,
    r: bool,
    after: Seq<Item>,
)
    requires
        can_reorder(a, id),
        at(a, id).kind != FenceKind::FolderPortal,
        refs_distinct(at(a, id).items),
        keyed_by_id(a.config.items@),
        contents(a, at(a, id)).len() <= u32::MAX,
        index >= 0,
        reordered(a, b, id, shown, items, index, r),
        is_listing(b, rearranged(at(a, id), moved_to(ids_of_items(shown), items, index)), after),
        r,
    ensures
        ids_of_items(after) == moved_to(ids_of_items(shown), items, index),
{
    let f = at(a, id);
    let recs = a.config.items@;
    let order = moved_to(ids_of_items(shown), items, index);
    let forward = if f.view.reverse {
        order.reverse()
    } else {
        order
    };
    let g = rearranged(f, order);
    let n = order.len() as int;
    assert(b.config.items@ == recs);
    let plain = lemma_listed(recs, f.items, f.items);
    lemma_shown(a, f, shown, plain);
    lemma_moved_to(ids_of_items(shown), items, index);
    assert forall|i: int, j: int| 0 <= i < n && 0 <= j < n && i != j implies forward[i]
        != forward[j] by {
        assert(order[n - 1 - i] != order[n - 1 - j]);
    }
    lemma_numbered(f.items, forward);
    let from = lemma_listed(recs, f.items, g.items);
    let cs = contents(b, g);
    let perm = choose|perm: Seq<usize>| #[trigger]
        display_order(g.view.sort, cs, perm) && after == arranged(cs, perm, g.view.reverse);
    let place = Seq::new(n as nat, |k: int| list_order(g.view.sort, cs[perm[k] as int]).number);
    assert forall|j: int| 0 <= j < n implies {
        let p = list_order(g.view.sort, #[trigger] cs[j]).number;
        0 <= p < n && forward[p] == cs[j].item.id
    } by {
        assert(contents(a, f)[j].item == cs[j].item) by {
            let k = from[j];
        }
        let want = cs[j].item.id;
        assert(ids_of_items(shown).contains(want));
        assert(order.contains(want));
        let o = order.index_of(want);
        let p = if f.view.reverse {
            n - 1 - o
        } else {
            o
        };
        assert(forward[p] == want);
        let k = from[j];
        assert(f.items[k].item_id == want);
        assert(g.items[k].manual_index == Some(p as u32));
    }
    assert forall|i: int| 0 <= i < n implies 0 <= #[trigger] place[i] < n by {
        assert(0 <= perm[i] < cs.len());
        let e = cs[perm[i] as int];
    }
    assert forall|i: int, j: int| 0 <= i < j < n implies #[trigger] place[i] < #[trigger] place[j] by {
        assert(0 <= perm[i] < cs.len() && 0 <= perm[j] < cs.len());
        assert(perm[i] != perm[j]);
        assert(leads(g.view.sort, cs, perm[i] as int, perm[j] as int));
        let x = cs[perm[i] as int];
        let y = cs[perm[j] as int];
        if place[i] == place[j] {
            assert(x.item.id == y.item.id);
            let u = from[perm[i] as int];
            let v = from[perm[j] as int];
            assert(f.items[u].item_id == f.items[v].item_id);
            assert(u == v);
        }
    }
    assert forall|i: int| 0 <= i < n implies #[trigger] ids_of_items(after)[i] == order[i] by {
        let k = if f.view.reverse {
            n - 1 - i
        } else {
            i
        };
        lemma_growing(place, k);
        assert(0 <= perm[k] < cs.len());
        let e = cs[perm[k] as int];
        assert(after[i] == e.item);
        assert(place[k] == k);
    }
    assert(ids_of_items(after) =~= order);
}

proof fn lemma_picked_filters(order: Seq<ItemId>, items: Seq<ItemId>)
    ensures
        picked(order, items, true) == order.filter(|id: ItemId| items.contains(id)),
        picked(order, items, false) == order.filter(|id: ItemId| !items.contains(id)),
        picked(order, items, true).len() + picked(order, items, false).len() == order.len(),
    decreases order.len(),
{
    reveal(Seq::filter);
    if order.len() > 0 {
        lemma_picked_filters(order.drop_last(), items);
    }
}

/// Items dropped at a place stand there together in the order they had: behind the other items
/// that were in front of the place and before those that were behind it, which keep their order.
pub proof fn dropped_items_stand_at_the_place(order: Seq<ItemId>, items: Seq<ItemId>, index: int)
    requires
        0 <= index,
    ensures
        ({
            let end = if index < order.len() {
                index
            } else {
                order.len() as int
            };
            let other = |id: ItemId| !items.contains(id);
            moved_to(order, items, index) == order.take(end).filter(other) + order.filter(
                |id: ItemId| items.contains(id),
            ) + order.skip(end).filter(other)
        }),
{
    let end = if index < order.len() {
        index
    } else {
        order.len() as int
    };
    let other = |id: ItemId| !items.contains(id);
    let front = order.take(end);
    let back = order.skip(end);
    lemma_picked_filters(order, items);
    lemma_picked_filters(front, items);
    lemma_picked_filters(back, items);
    assert(order =~= front + back);
    Seq::filter_distributes_over_add(front, back, other);
    let rest = picked(order, items, false);
    let a = front.filter(other);
    let b = back.filter(other);
    assert(rest == a + b);
    assert(a.len() == end - picked(front, items, true).len());
    assert((a + b).take(a.len() as int) =~= a);
    assert((a + b).skip(a.len() as int) =~= b);
    if index > end {
        assert(back.len() == 0);
        assert(b.len() == 0);
        assert(rest.take(rest.len() as int) =~= rest);
        assert(rest.skip(rest.len() as int) =~= b);
        assert(rest =~= a);
    }
}

/// Items can be arranged by hand in a fence that shows no folder and is sorted by hand.
pub proof fn only_manual_fences_are_arranged(s: AppState, id: FenceId)
    ensures
        can_reorder(s, id) <==> has_fence(fences(s), id) && at(s, id).view.sort is Manual && !(at(
            s,
            id,
        ).kind is FolderPortal && at(s, id).source is Folder),
{
}

} // verus!
