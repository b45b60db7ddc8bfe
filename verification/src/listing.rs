//! The order in which a fence shows its items.

use crate::model::{Fence, FenceKind, FenceModel, Item, ItemId, ItemRef, SortMode};
use crate::order::{ahead, lemma_all_covered, sort_order, Keyed};
use crate::paths::{ext_of_key, key_extension, key_is_namespace};
use crate::state::AppState;
use crate::text::{
    chars_before, chars_of, lemma_text_before, lowercase, lowercase_of, natural_order,
    natural_order_is_total, natural_rank, text_before, Rank,
};
use std::collections::HashMap;
use vstd::prelude::*;

verus! {

// ---- candidates ---------------------------------------------------------------------------

/// An item that a fence shows, with its place in the user's order where it has one.
pub struct Listed {
    pub index: Option<u32>,
    pub item: Item,
}

/// The known items among `ids`, in order.
pub open spec fn listed_members(items: Map<ItemId, Item>, ids: Seq<ItemId>) -> Seq<Listed>
    decreases ids.len(),
{
    if ids.len() == 0 {
        Seq::empty()
    } else if items.contains_key(ids.last()) {
        listed_members(items, ids.drop_last()).push(
            Listed { index: None, item: items[ids.last()] },
        )
    } else {
        listed_members(items, ids.drop_last())
    }
}

/// The reference is to a known item that is not missing from the desktop.
pub open spec fn is_visible(items: Map<ItemId, Item>, r: ItemRef) -> bool {
    items.contains_key(r.item_id) && items[r.item_id].orphaned_since is None
}

/// The visible items that `refs` refer to, in order.
pub open spec fn listed_refs(items: Map<ItemId, Item>, refs: Seq<ItemRef>) -> Seq<Listed>
    decreases refs.len(),
{
    if refs.len() == 0 {
        Seq::empty()
    } else if is_visible(items, refs.last()) {
        listed_refs(items, refs.drop_last()).push(
            Listed { index: refs.last().manual_index, item: items[refs.last().item_id] },
        )
    } else {
        listed_refs(items, refs.drop_last())
    }
}

/// What a fence shows, in the order in which it holds it.
pub open spec fn contents(s: AppState, f: FenceModel) -> Seq<Listed> {
    if f.kind == FenceKind::FolderPortal {
        if s.portal_members@.contains_key(f.id) {
            listed_members(s.portal_items@, s.portal_members@[f.id]@)
        } else {
            Seq::empty()
        }
    } else {
        listed_refs(s.config.items@, f.items)
    }
}

// ---- keys ---------------------------------------------------------------------------------

/// By what an item is listed: the parts count in this order, and one that a sort mode does not
/// use is the same for every item.
#[verifier::ext_equal]
pub struct ListOrder {
    /// The item is no namespace item.
    pub late: bool,
    /// The item is no folder.
    pub file: bool,
    pub number: int,
    /// Compared by code points.
    pub text: Seq<char>,
    /// Compared by code points, after `text`.
    pub folded: Seq<char>,
    /// Compared as names are.
    pub name: Seq<char>,
}

pub open spec fn list_order(sort: SortMode, e: Listed) -> ListOrder {
    let base = ListOrder {
        late: sort != SortMode::Manual && !key_is_namespace(e.item.key),
        file: false,
        number: 0,
        text: Seq::empty(),
        folded: Seq::empty(),
        name: Seq::empty(),
    };
    match sort {
        SortMode::Manual => ListOrder {
            number: match e.index {
                Some(i) => i as int,
                None => u32::MAX as int,
            },
            folded: lowercase_of(e.item.display_name@),
            ..base
        },
        SortMode::Name => ListOrder { name: e.item.display_name@, ..base },
        SortMode::Type => ListOrder {
            file: !e.item.is_folder,
            text: key_extension(e.item.key),
            folded: lowercase_of(e.item.display_name@),
            ..base
        },
        SortMode::Date => ListOrder { number: -e.item.mtime, ..base },
        SortMode::Size => ListOrder {
            file: !e.item.is_folder,
            number: -e.item.size,
            name: e.item.display_name@,
            ..base
        },
        SortMode::OpenCount => ListOrder {
            number: -e.item.open_count,
            name: e.item.display_name@,
            ..base
        },
    }
}

/// `a` is listed before `b`.
pub open spec fn comes_first(a: ListOrder, b: ListOrder) -> bool {
    if a.late != b.late {
        !a.late
    } else if a.file != b.file {
        !a.file
    } else if a.number != b.number {
        a.number < b.number
    } else if text_before(a.text, b.text) || text_before(b.text, a.text) {
        text_before(a.text, b.text)
    } else if text_before(a.folded, b.folded) || text_before(b.folded, a.folded) {
        text_before(a.folded, b.folded)
    } else {
        natural_order(a.name, b.name) == Rank::Before
    }
}

/// By what an item is listed.
pub struct ListKey {
    pub late: bool,
    pub file: bool,
    pub number: i128,
    pub text: Vec<char>,
    pub folded: Vec<char>,
    pub name: String,
}

impl View for ListKey {
    type V = ListOrder;

    open spec fn view(&self) -> ListOrder {
        ListOrder {
            late: self.late,
            file: self.file,
            number: self.number as int,
            text: self.text@,
            folded: self.folded@,
            name: self.name@,
        }
    }
}

impl Keyed for ListKey {
    open spec fn before(self, other: Self) -> bool {
        comes_first(self@, other@)
    }

    fn comes_before(&self, other: &Self) -> (r: bool) {
        if self.late != other.late {
            return !self.late;
        }
        if self.file != other.file {
            return !self.file;
        }
        if self.number != other.number {
            return self.number < other.number;
        }
        if chars_before(&self.text, &other.text) {
            return true;
        }
        if chars_before(&other.text, &self.text) {
            return false;
        }
        if chars_before(&self.folded, &other.folded) {
            return true;
        }
        if chars_before(&other.folded, &self.folded) {
            return false;
        }
        match natural_rank(self.name.as_str(), other.name.as_str()) {
            Rank::Before => true,
            Rank::Same => false,
            Rank::After => false,
        }
    }

    proof fn ordered(x: Self, y: Self, z: Self) {
        lemma_text_before(x.text@, y.text@, z.text@);
        lemma_text_before(y.text@, x.text@, z.text@);
        lemma_text_before(x.text@, z.text@, y.text@);
        lemma_text_before(z.text@, x.text@, y.text@);
        lemma_text_before(z.text@, y.text@, x.text@);
        lemma_text_before(y.text@, z.text@, x.text@);
        lemma_text_before(x.folded@, y.folded@, z.folded@);
        lemma_text_before(y.folded@, x.folded@, z.folded@);
        lemma_text_before(x.folded@, z.folded@, y.folded@);
        lemma_text_before(z.folded@, x.folded@, y.folded@);
        lemma_text_before(z.folded@, y.folded@, x.folded@);
        lemma_text_before(y.folded@, z.folded@, x.folded@);
        natural_order_is_total(x.name@, y.name@, z.name@);
        natural_order_is_total(x.name@, z.name@, y.name@);
        natural_order_is_total(y.name@, x.name@, z.name@);
        natural_order_is_total(y.name@, z.name@, x.name@);
        natural_order_is_total(z.name@, x.name@, y.name@);
        natural_order_is_total(z.name@, y.name@, x.name@);
    }
}

/// The key of an item under a sort mode.
fn list_key(sort: SortMode, index: Option<u32>, it: &Item) -> (r: ListKey)
    ensures
        r@ == list_order(sort, Listed { index, item: *it }),
{
    let mut key = ListKey {
        late: false,
        file: false,
        number: 0,
        text: Vec::new(),
        folded: Vec::new(),
        name: String::new(),
    };
    proof {
        reveal_strlit("");
    }
    if sort != SortMode::Manual {
        key.late = !it.is_namespace();
    }
    match sort {
        SortMode::Manual => {
            key.number = match index {
                Some(i) => i as i128,
                None => u32::MAX as i128,
            };
            key.folded = chars_of(lowercase(it.display_name.as_str()).as_str());
        },
        SortMode::Name => {
            key.name = it.display_name.clone();
        },
        SortMode::Type => {
            key.file = !it.is_folder;
            key.text = chars_of(ext_of_key(&it.key).as_str());
            key.folded = chars_of(lowercase(it.display_name.as_str()).as_str());
        },
        SortMode::Date => {
            key.number = -(it.mtime as i128);
        },
        SortMode::Size => {
            key.file = !it.is_folder;
            key.number = -(it.size as i128);
            key.name = it.display_name.clone();
        },
        SortMode::OpenCount => {
            key.number = -(it.open_count as i128);
            key.name = it.display_name.clone();
        },
    }
    key
}

// ---- the listing --------------------------------------------------------------------------

/// The entry at `i` is listed ahead of the entry at `j`; ties keep their order.
pub open spec fn leads(sort: SortMode, cs: Seq<Listed>, i: int, j: int) -> bool {
    ||| comes_first(list_order(sort, cs[i]), list_order(sort, cs[j]))
    ||| !comes_first(list_order(sort, cs[j]), list_order(sort, cs[i])) && i < j
}

/// `perm` lists the entries in display order.
pub open spec fn display_order(sort: SortMode, cs: Seq<Listed>, perm: Seq<usize>) -> bool {
    &&& perm.len() == cs.len()
    &&& forall|a: int| 0 <= a < perm.len() ==> 0 <= #[trigger] perm[a] < cs.len()
    &&& perm.no_duplicates()
    &&& forall|a: int, b: int|
        0 <= a < b < perm.len() ==> leads(
            sort,
            cs,
            #[trigger] perm[a] as int,
            #[trigger] perm[b] as int,
        )
}

/// The items at the listed positions, the last one first where `reverse` holds.
pub open spec fn arranged(cs: Seq<Listed>, perm: Seq<usize>, reverse: bool) -> Seq<Item> {
    Seq::new(
        perm.len(),
        |a: int|
            cs[perm[if reverse {
                perm.len() - 1 - a
            } else {
                a
            }] as int].item,
    )
}

/// `r` are the items of the fence in display order.
pub open spec fn is_listing(s: AppState, f: FenceModel, r: Seq<Item>) -> bool {
    exists|perm: Seq<usize>| #[trigger]
        display_order(f.view.sort, contents(s, f), perm) && r == arranged(
            contents(s, f),
            perm,
            f.view.reverse,
        )
}

fn portal_contents<'a>(
    items: &'a HashMap<ItemId, Item>,
    ids: &Vec<ItemId>,
    sort: SortMode,
) -> (r: (Vec<&'a Item>, Vec<ListKey>))
    ensures
        r.0.len() == listed_members(items@, ids@).len(),
        r.1.len() == r.0.len(),
        forall|j: int|
            0 <= j < r.0.len() ==> *(#[trigger] r.0@[j]) == listed_members(items@, ids@)[j].item,
        forall|j: int|
            0 <= j < r.1.len() ==> (#[trigger] r.1@[j])@ == list_order(
                sort,
                listed_members(items@, ids@)[j],
            ),
{
    let mut out: Vec<&Item> = Vec::new();
    let mut keys: Vec<ListKey> = Vec::new();
    let n: usize = ids.len();
    for k in 0..n
        invariant
            n == ids.len(),
            out.len() == listed_members(items@, ids@.take(k as int)).len(),
            keys.len() == out.len(),
            forall|j: int|
                0 <= j < out.len() ==> *(#[trigger] out@[j]) == listed_members(
                    items@,
                    ids@.take(k as int),
                )[j].item,
            forall|j: int|
                0 <= j < keys.len() ==> (#[trigger] keys@[j])@ == list_order(
                    sort,
                    listed_members(items@, ids@.take(k as int))[j],
                ),
    {
        assert(ids@.take(k + 1).drop_last() == ids@.take(k as int));
        if let Some(it) = items.get(&ids[k]) {
            keys.push(list_key(sort, None, it));
            out.push(it);
        }
    }
    assert(ids@.take(n as int) == ids@);
    (out, keys)
}

fn fence_contents<'a>(
    items: &'a HashMap<ItemId, Item>,
    refs: &Vec<ItemRef>,
    sort: SortMode,
) -> (r: (Vec<&'a Item>, Vec<ListKey>))
    ensures
        r.0.len() == listed_refs(items@, refs@).len(),
        r.1.len() == r.0.len(),
        forall|j: int|
            0 <= j < r.0.len() ==> *(#[trigger] r.0@[j]) == listed_refs(items@, refs@)[j].item,
        forall|j: int|
            0 <= j < r.1.len() ==> (#[trigger] r.1@[j])@ == list_order(
                sort,
                listed_refs(items@, refs@)[j],
            ),
{
    let mut out: Vec<&Item> = Vec::new();
    let mut keys: Vec<ListKey> = Vec::new();
    let n: usize = refs.len();
    for k in 0..n
        invariant
            n == refs.len(),
            out.len() == listed_refs(items@, refs@.take(k as int)).len(),
            keys.len() == out.len(),
            forall|j: int|
                0 <= j < out.len() ==> *(#[trigger] out@[j]) == listed_refs(
                    items@,
                    refs@.take(k as int),
                )[j].item,
            forall|j: int|
                0 <= j < keys.len() ==> (#[trigger] keys@[j])@ == list_order(
                    sort,
                    listed_refs(items@, refs@.take(k as int))[j],
                ),
    {
        assert(refs@.take(k + 1).drop_last() == refs@.take(k as int));
        if let Some(it) = items.get(&refs[k].item_id) {
            if it.orphaned_since.is_none() {
                keys.push(list_key(sort, refs[k].manual_index, it));
                out.push(it);
            }
        }
    }
    assert(refs@.take(n as int) == refs@);
    (out, keys)
}

/// `found` in the order of `perm`, or in its opposite.
fn arrange<'a>(found: &Vec<&'a Item>, perm: &Vec<usize>, reverse: bool) -> (r: Vec<&'a Item>)
    requires
        forall|a: int| 0 <= a < perm.len() ==> 0 <= #[trigger] perm@[a] < found.len(),
    ensures
        r.len() == perm.len(),
        forall|a: int|
            0 <= a < r.len() ==> #[trigger] r@[a] == found@[perm@[if reverse {
                perm.len() - 1 - a
            } else {
                a
            }] as int],
{
    let mut out: Vec<&Item> = Vec::new();
    let n: usize = perm.len();
    for a in 0..n
        invariant
            n == perm.len(),
            out.len() == a,
            forall|j: int| 0 <= j < perm.len() ==> 0 <= #[trigger] perm@[j] < found.len(),
            forall|j: int|
                0 <= j < a ==> #[trigger] out@[j] == found@[perm@[if reverse {
                    perm.len() - 1 - j
                } else {
                    j
                }] as int],
    {
        let p: usize = if reverse {
            n - 1 - a
        } else {
            a
        };
        assert(perm@[p as int] < found.len());
        out.push(found[perm[p]]);
    }
    out
}

impl AppState {
    /// The items of a fence in display order. Items that are missing from the desktop are left
    /// out.
    pub fn items_of(&self, fence: &Fence) -> (r: Vec<&Item>)
        ensures
            is_listing(*self, fence@, r@.unref()),
    {
        let sort: SortMode = fence.view.sort;
        let (found, keys) = if fence.kind == FenceKind::FolderPortal {
            match self.portal_members.get(&fence.id) {
                Some(ids) => portal_contents(&self.portal_items, ids, sort),
                None => (Vec::new(), Vec::new()),
            }
        } else {
            fence_contents(&self.config.items, &fence.items, sort)
        };
        let perm = sort_order(&keys);
        let ghost cs = contents(*self, fence@);
        proof {
            assert(cs.len() == keys.len());
            assert forall|a: int, b: int| 0 <= a < b < perm.len() implies leads(
                sort,
                cs,
                #[trigger] perm@[a] as int,
                #[trigger] perm@[b] as int,
            ) by {
                assert(ahead(keys@, perm@[a] as int, perm@[b] as int));
            }
            assert(display_order(sort, cs, perm@));
        }
        let out = arrange(&found, &perm, fence.view.reverse);
        proof {
            let want = arranged(cs, perm@, fence.view.reverse);
            assert forall|a: int| 0 <= a < out.len() implies *(#[trigger] out@[a]) == want[a] by {
                let p = if fence.view.reverse {
                    perm.len() - 1 - a
                } else {
                    a
                };
                assert(perm@[p] < found.len());
                assert(*found@[perm@[p] as int] == cs[perm@[p] as int].item);
            }
            assert(out@.unref() =~= want);
        }
        out
    }
}

// ---- laws ---------------------------------------------------------------------------------

proof fn lemma_comes_first(a: ListOrder, b: ListOrder)
    ensures
        !(comes_first(a, b) && comes_first(b, a)),
{
    lemma_text_before(a.text, b.text, a.text);
    lemma_text_before(a.folded, b.folded, a.folded);
    natural_order_is_total(a.name, b.name, a.name);
}

/// There is one display order.
proof fn lemma_one_order(
    sort: SortMode,
    cs: Seq<Listed>,
    p: Seq<usize>,
    q: Seq<usize>,
    n: int,
)
    requires
        display_order(sort, cs, p),
        display_order(sort, cs, q),
        0 <= n <= cs.len(),
    ensures
        forall|a: int| 0 <= a < n ==> p[a] == q[a],
    decreases n,
{
    if n > 0 {
        let a = n - 1;
        lemma_one_order(sort, cs, p, q, a);
        if p[a] != q[a] {
            lemma_all_covered(q, cs.len() as int, p[a]);
            lemma_all_covered(p, cs.len() as int, q[a]);
            let k = q.index_of(p[a]);
            let m = p.index_of(q[a]);
            assert(k > a) by {
                if k < a {
                    assert(p[k] == q[k]);
                    assert(p[k] == p[a]);
                }
            }
            assert(m > a) by {
                if m < a {
                    assert(p[m] == q[m]);
                    assert(q[m] == q[a]);
                }
            }
            assert(leads(sort, cs, q[a] as int, q[k] as int));
            assert(leads(sort, cs, p[a] as int, p[m] as int));
            lemma_comes_first(list_order(sort, cs[p[a] as int]), list_order(sort, cs[q[a] as int]));
        }
    }
}

/// Turning the order of a fence round turns the list round, item by item.
pub proof fn reversing_turns_the_list_round(
    s: AppState,
    f: FenceModel,
    g: FenceModel,
    r: Seq<Item>,
    t: Seq<Item>,
)
    requires
        g == (FenceModel {
            view: crate::model::FenceView { reverse: !f.view.reverse, ..f.view },
            ..f
        }),
        is_listing(s, f, r),
        is_listing(s, g, t),
    ensures
        t == r.reverse(),
{
    let sort = f.view.sort;
    let cs = contents(s, f);
    let p = choose|perm: Seq<usize>| #[trigger]
        display_order(sort, cs, perm) && r == arranged(cs, perm, f.view.reverse);
    let q = choose|perm: Seq<usize>| #[trigger]
        display_order(sort, contents(s, g), perm) && t == arranged(
            contents(s, g),
            perm,
            g.view.reverse,
        );
    lemma_one_order(sort, cs, p, q, cs.len() as int);
    assert(p =~= q);
    assert(t =~= r.reverse());
}

/// The items of entries.
pub open spec fn items_in(cs: Seq<Listed>) -> Seq<Item> {
    cs.map_values(|e: Listed| e.item)
}

proof fn lemma_same_items(cs: Seq<Listed>, perm: Seq<usize>)
    requires
        perm.len() == cs.len(),
        forall|a: int| 0 <= a < perm.len() ==> 0 <= #[trigger] perm[a] < cs.len(),
        perm.no_duplicates(),
    ensures
        arranged(cs, perm, false).to_multiset() == items_in(cs).to_multiset(),
    decreases cs.len(),
{
    broadcast use vstd::seq_lib::group_to_multiset_ensures;

    let out = arranged(cs, perm, false);
    let all = items_in(cs);
    if cs.len() == 0 {
        assert(out =~= all);
    } else {
        let n = cs.len() - 1;
        lemma_fits(perm);
        let last = n as usize;
        lemma_all_covered(perm, cs.len() as int, last);
        let k = perm.index_of(last);
        let rest = perm.remove(k);
        assert forall|a: int| 0 <= a < rest.len() implies 0 <= #[trigger] rest[a] < n by {
            let b = if a < k {
                a
            } else {
                a + 1
            };
            assert(rest[a] == perm[b]);
            assert(perm[b] != perm[k]);
        }
        assert forall|a: int, b: int| 0 <= a < rest.len() && 0 <= b < rest.len() && a != b implies
            rest[a] != rest[b] by {
            let a2 = if a < k {
                a
            } else {
                a + 1
            };
            let b2 = if b < k {
                b
            } else {
                b + 1
            };
            assert(rest[a] == perm[a2] && rest[b] == perm[b2]);
        }
        let cut = cs.drop_last();
        lemma_same_items(cut, rest);
        assert forall|a: int| 0 <= a < rest.len() implies out.remove(k)[a] == arranged(
            cut,
            rest,
            false,
        )[a] by {
            let b = if a < k {
                a
            } else {
                a + 1
            };
            assert(rest[a] == perm[b]);
            assert(out.remove(k)[a] == out[b]);
            assert(0 <= rest[a] < n);
        }
        assert(out.remove(k) =~= arranged(cut, rest, false));
        assert(all.remove(n as int) =~= items_in(cut));
        assert(out[k] == all[n as int]);
        assert(out.to_multiset() =~= out.remove(k).to_multiset().insert(out[k]));
        assert(all.to_multiset() =~= all.remove(n as int).to_multiset().insert(all[n as int]));
    }
}

/// A list of different numbers is no longer than there are numbers.
proof fn lemma_fits(perm: Seq<usize>)
    requires
        perm.no_duplicates(),
    ensures
        perm.len() <= usize::MAX + 1,
{
    crate::order::lemma_below((usize::MAX + 1) as nat);
    perm.unique_seq_to_set();
    vstd::set_lib::lemma_len_subset(
        perm.to_set(),
        Set::new(|x: usize| x < (usize::MAX + 1) as nat),
    );
}

/// A fence lists each item that it holds and that is there, as often as it holds it, and nothing
/// else.
pub proof fn everything_is_listed(s: AppState, f: FenceModel, r: Seq<Item>)
    requires
        is_listing(s, f, r),
    ensures
        r.to_multiset() == items_in(contents(s, f)).to_multiset(),
{
    let cs = contents(s, f);
    let perm = choose|perm: Seq<usize>| #[trigger]
        display_order(f.view.sort, cs, perm) && r == arranged(cs, perm, f.view.reverse);
    if f.view.reverse {
        let back = perm.reverse();
        assert forall|a: int| 0 <= a < back.len() implies 0 <= #[trigger] back[a] < cs.len() by {
            assert(back[a] == perm[perm.len() - 1 - a]);
        }
        assert(back.no_duplicates());
        assert(r =~= arranged(cs, back, false));
        lemma_same_items(cs, back);
    } else {
        lemma_same_items(cs, perm);
    }
}

/// By name, the items of the namespace come first, and then the others; each of the two lists is
/// in the order of names.
pub proof fn names_are_in_order(s: AppState, f: FenceModel, r: Seq<Item>, a: int, b: int)
    requires
        is_listing(s, f, r),
        f.view.sort == SortMode::Name,
        !f.view.reverse,
        0 <= a < b < r.len(),
    ensures
        key_is_namespace(r[b].key) ==> key_is_namespace(r[a].key),
        key_is_namespace(r[a].key) == key_is_namespace(r[b].key) ==> natural_order(
            r[a].display_name@,
            r[b].display_name@,
        ) != Rank::After,
{
    let cs = contents(s, f);
    let perm = choose|perm: Seq<usize>| #[trigger]
        display_order(f.view.sort, cs, perm) && r == arranged(cs, perm, f.view.reverse);
    assert(leads(f.view.sort, cs, perm[a] as int, perm[b] as int));
    natural_order_is_total(r[b].display_name@, r[a].display_name@, r[b].display_name@);
}

/// Two items of a list that is in order and not turned round: the entries they come from, which
/// were in this order, or tie and stood in this order.
proof fn lemma_two_listed(s: AppState, f: FenceModel, r: Seq<Item>, a: int, b: int) -> (ij: (int, int))
    requires
        is_listing(s, f, r),
        !f.view.reverse,
        0 <= a < b < r.len(),
    ensures
        ({
            let cs = contents(s, f);
            let (i, j) = ij;
            &&& 0 <= i < cs.len()
            &&& 0 <= j < cs.len()
            &&& cs[i].item == r[a]
            &&& cs[j].item == r[b]
            &&& leads(f.view.sort, cs, i, j)
        }),
{
    let cs = contents(s, f);
    let perm = choose|perm: Seq<usize>| #[trigger]
        display_order(f.view.sort, cs, perm) && r == arranged(cs, perm, f.view.reverse);
    assert(leads(f.view.sort, cs, perm[a] as int, perm[b] as int));
    (perm[a] as int, perm[b] as int)
}

/// By size, folders come first, then the largest files; where the sizes are the same, the names
/// are in order. Items of the namespace come ahead of all that.
pub proof fn the_largest_come_first(s: AppState, f: FenceModel, r: Seq<Item>, a: int, b: int)
    requires
        is_listing(s, f, r),
        f.view.sort == SortMode::Size,
        !f.view.reverse,
        0 <= a < b < r.len(),
    ensures
        key_is_namespace(r[b].key) ==> key_is_namespace(r[a].key),
        key_is_namespace(r[a].key) == key_is_namespace(r[b].key) ==> {
            &&& r[b].is_folder ==> r[a].is_folder
            &&& r[a].is_folder == r[b].is_folder ==> r[a].size >= r[b].size
            &&& r[a].is_folder == r[b].is_folder && r[a].size == r[b].size ==> natural_order(
                r[a].display_name@,
                r[b].display_name@,
            ) != Rank::After
        },
{
    let (i, j) = lemma_two_listed(s, f, r, a, b);
    natural_order_is_total(r[b].display_name@, r[a].display_name@, r[b].display_name@);
}

/// By date, what was written last comes first, after the items of the namespace.
pub proof fn the_latest_come_first(s: AppState, f: FenceModel, r: Seq<Item>, a: int, b: int)
    requires
        is_listing(s, f, r),
        f.view.sort == SortMode::Date,
        !f.view.reverse,
        0 <= a < b < r.len(),
    ensures
        key_is_namespace(r[b].key) ==> key_is_namespace(r[a].key),
        key_is_namespace(r[a].key) == key_is_namespace(r[b].key) ==> r[a].mtime >= r[b].mtime,
{
    let (i, j) = lemma_two_listed(s, f, r, a, b);
}

/// By use, what was opened most often comes first, after the items of the namespace; where the
/// counts are the same, the names are in order.
pub proof fn the_most_used_come_first(s: AppState, f: FenceModel, r: Seq<Item>, a: int, b: int)
    requires
        is_listing(s, f, r),
        f.view.sort == SortMode::OpenCount,
        !f.view.reverse,
        0 <= a < b < r.len(),
    ensures
        key_is_namespace(r[b].key) ==> key_is_namespace(r[a].key),
        key_is_namespace(r[a].key) == key_is_namespace(r[b].key) ==> {
            &&& r[a].open_count >= r[b].open_count
            &&& r[a].open_count == r[b].open_count ==> natural_order(
                r[a].display_name@,
                r[b].display_name@,
            ) != Rank::After
        },
{
    let (i, j) = lemma_two_listed(s, f, r, a, b);
    natural_order_is_total(r[b].display_name@, r[a].display_name@, r[b].display_name@);
}

/// By type, folders come first, then the files by their endings, and those with one ending by
/// their names in lower case. Items of the namespace come ahead of all that.
pub proof fn types_are_together(s: AppState, f: FenceModel, r: Seq<Item>, a: int, b: int)
    requires
        is_listing(s, f, r),
        f.view.sort == SortMode::Type,
        !f.view.reverse,
        0 <= a < b < r.len(),
    ensures
        key_is_namespace(r[b].key) ==> key_is_namespace(r[a].key),
        key_is_namespace(r[a].key) == key_is_namespace(r[b].key) ==> {
            let x = key_extension(r[a].key);
            let y = key_extension(r[b].key);
            &&& r[b].is_folder ==> r[a].is_folder
            &&& r[a].is_folder == r[b].is_folder ==> !text_before(y, x)
            &&& r[a].is_folder == r[b].is_folder && x == y ==> !text_before(
                lowercase_of(r[b].display_name@),
                lowercase_of(r[a].display_name@),
            )
        },
{
    let (i, j) = lemma_two_listed(s, f, r, a, b);
    let x = key_extension(r[a].key);
    lemma_text_before(x, x, x);
    lemma_text_before(x, key_extension(r[b].key), x);
    let n = lowercase_of(r[a].display_name@);
    lemma_text_before(n, lowercase_of(r[b].display_name@), n);
}

proof fn lemma_listed_refs(items: Map<ItemId, Item>, refs: Seq<ItemRef>)
    ensures
        forall|k: int|
            0 <= k < listed_refs(items, refs).len() ==> #[trigger] from_ref(
                items,
                refs,
                listed_refs(items, refs)[k],
            ),
        forall|m: int|
            0 <= m < refs.len() && items.contains_key((#[trigger] refs[m]).item_id)
                && items[refs[m].item_id].orphaned_since is None ==> listed_refs(
                items,
                refs,
            ).contains(Listed { index: refs[m].manual_index, item: items[refs[m].item_id] }),
    decreases refs.len(),
{
    if refs.len() > 0 {
        let t = refs.drop_last();
        lemma_listed_refs(items, t);
        let rest = listed_refs(items, t);
        let out = listed_refs(items, refs);
        assert forall|k: int| 0 <= k < out.len() implies #[trigger] from_ref(items, refs, out[k]) by {
            if k < rest.len() {
                assert(out[k] == rest[k]);
                assert(from_ref(items, t, rest[k]));
                let m = choose|m: int| #[trigger] is_from(items, t, rest[k], m);
                assert(is_from(items, refs, out[k], m));
            } else {
                assert(is_from(items, refs, out[k], refs.len() - 1));
            }
        }
        assert forall|m: int|
            0 <= m < refs.len() && items.contains_key((#[trigger] refs[m]).item_id)
                && items[refs[m].item_id].orphaned_since is None implies out.contains(
            Listed { index: refs[m].manual_index, item: items[refs[m].item_id] },
        ) by {
            let e = Listed { index: refs[m].manual_index, item: items[refs[m].item_id] };
            if m < t.len() {
                assert(t[m] == refs[m]);
                assert(rest.contains(e));
                assert(out[rest.index_of(e)] == e);
            } else {
                assert(out[out.len() - 1] == e);
            }
        }
    }
}

/// Entry `e` comes from reference `m`, to a known item that is not missing.
spec fn is_from(items: Map<ItemId, Item>, refs: Seq<ItemRef>, e: Listed, m: int) -> bool {
    &&& 0 <= m < refs.len()
    &&& items.contains_key(refs[m].item_id)
    &&& e.item == items[refs[m].item_id]
    &&& e.index == refs[m].manual_index
    &&& e.item.orphaned_since is None
}

spec fn from_ref(items: Map<ItemId, Item>, refs: Seq<ItemRef>, e: Listed) -> bool {
    exists|m: int| #[trigger] is_from(items, refs, e, m)
}

proof fn lemma_listed_members(items: Map<ItemId, Item>, ids: Seq<ItemId>)
    ensures
        forall|k: int|
            0 <= k < listed_members(items, ids).len() ==> exists|m: int|
                0 <= m < ids.len() && items.contains_key(#[trigger] ids[m]) && items[ids[m]] == (
                #[trigger] listed_members(items, ids)[k]).item,
        forall|m: int|
            0 <= m < ids.len() && items.contains_key(#[trigger] ids[m]) ==> listed_members(
                items,
                ids,
            ).contains(Listed { index: None, item: items[ids[m]] }),
    decreases ids.len(),
{
    if ids.len() > 0 {
        let t = ids.drop_last();
        lemma_listed_members(items, t);
        let rest = listed_members(items, t);
        let out = listed_members(items, ids);
        assert forall|k: int| 0 <= k < out.len() implies exists|m: int|
            0 <= m < ids.len() && items.contains_key(#[trigger] ids[m]) && items[ids[m]] == (
            #[trigger] out[k]).item by {
            if k < rest.len() {
                assert(out[k] == rest[k]);
                let m = choose|m: int|
                    0 <= m < t.len() && items.contains_key(#[trigger] t[m]) && items[t[m]]
                        == rest[k].item;
                assert(ids[m] == t[m]);
            } else {
                assert(ids[ids.len() - 1] == ids.last());
            }
        }
        assert forall|m: int| 0 <= m < ids.len() && items.contains_key(
            #[trigger] ids[m],
        ) implies out.contains(Listed { index: None, item: items[ids[m]] }) by {
            let e = Listed { index: None, item: items[ids[m]] };
            if m < t.len() {
                assert(t[m] == ids[m]);
                assert(rest.contains(e));
                assert(out[rest.index_of(e)] == e);
            } else {
                assert(out[out.len() - 1] == e);
            }
        }
    }
}

proof fn lemma_listed_all(s: AppState, f: FenceModel, r: Seq<Item>)
    requires
        is_listing(s, f, r),
    ensures
        forall|a: int|
            0 <= a < r.len() ==> exists|k: int|
                0 <= k < contents(s, f).len() && contents(s, f)[k].item == #[trigger] r[a],
        forall|k: int|
            0 <= k < contents(s, f).len() ==> r.contains((#[trigger] contents(s, f)[k]).item),
{
    let cs = contents(s, f);
    let perm = choose|perm: Seq<usize>| #[trigger]
        display_order(f.view.sort, cs, perm) && r == arranged(cs, perm, f.view.reverse);
    assert forall|a: int| 0 <= a < r.len() implies exists|k: int|
        0 <= k < cs.len() && cs[k].item == #[trigger] r[a] by {
        let p = if f.view.reverse {
            perm.len() - 1 - a
        } else {
            a
        };
        assert(cs[perm[p] as int].item == r[a]);
    }
    assert forall|k: int| 0 <= k < cs.len() implies r.contains((#[trigger] cs[k]).item) by {
        lemma_fits(perm);
        lemma_all_covered(perm, cs.len() as int, k as usize);
        let p = perm.index_of(k as usize);
        let a = if f.view.reverse {
            perm.len() - 1 - p
        } else {
            p
        };
        assert(r[a] == cs[k].item);
    }
}

/// A fence of files lists an item just where it refers to it and the item is not missing from the
/// desktop.
pub proof fn fences_list_what_they_hold(s: AppState, f: FenceModel, r: Seq<Item>, it: Item)
    requires
        is_listing(s, f, r),
        f.kind != FenceKind::FolderPortal,
    ensures
        r.contains(it) <==> it.orphaned_since is None && exists|m: int|
            0 <= m < f.items.len() && s.config.items@.contains_key((#[trigger] f.items[m]).item_id)
                && s.config.items@[f.items[m].item_id] == it,
{
    let items = s.config.items@;
    let cs = contents(s, f);
    lemma_listed_refs(items, f.items);
    lemma_listed_all(s, f, r);
    if r.contains(it) {
        let a = r.index_of(it);
        assert(r[a] == it);
        let k = choose|k: int| 0 <= k < cs.len() && cs[k].item == r[a];
        assert(from_ref(items, f.items, cs[k]));
        let m = choose|m: int| #[trigger] is_from(items, f.items, cs[k], m);
        assert(items.contains_key(f.items[m].item_id));
    }
    if it.orphaned_since is None && exists|m: int|
        0 <= m < f.items.len() && items.contains_key((#[trigger] f.items[m]).item_id)
            && items[f.items[m].item_id] == it {
        let m = choose|m: int|
            0 <= m < f.items.len() && items.contains_key((#[trigger] f.items[m]).item_id)
                && items[f.items[m].item_id] == it;
        let e = Listed { index: f.items[m].manual_index, item: it };
        assert(cs.contains(e));
        assert(cs[cs.index_of(e)].item == it);
    }
}

/// A portal lists an item just where it is a known one among its members.
pub proof fn portals_list_their_members(s: AppState, f: FenceModel, r: Seq<Item>, it: Item)
    requires
        is_listing(s, f, r),
        f.kind == FenceKind::FolderPortal,
    ensures
        r.contains(it) <==> s.portal_members@.contains_key(f.id) && exists|m: int|
            0 <= m < s.portal_members@[f.id]@.len() && s.portal_items@.contains_key(
                #[trigger] s.portal_members@[f.id]@[m],
            ) && s.portal_items@[s.portal_members@[f.id]@[m]] == it,
{
    let items = s.portal_items@;
    let ids = s.portal_members@[f.id]@;
    let cs = contents(s, f);
    lemma_listed_members(items, ids);
    lemma_listed_all(s, f, r);
    if r.contains(it) {
        let a = r.index_of(it);
        assert(r[a] == it);
        let k = choose|k: int| 0 <= k < cs.len() && cs[k].item == r[a];
        assert(cs[k].item == it);
    }
    if s.portal_members@.contains_key(f.id) && exists|m: int|
        0 <= m < ids.len() && items.contains_key(#[trigger] ids[m]) && items[ids[m]] == it {
        let m = choose|m: int|
            0 <= m < ids.len() && items.contains_key(#[trigger] ids[m]) && items[ids[m]] == it;
        let e = Listed { index: None, item: it };
        assert(cs.contains(e));
        assert(cs[cs.index_of(e)].item == it);
    }
}

/// In the user's own order, an item with a lower place comes ahead of one with a higher place, and
/// one with a place ahead of one without.
pub proof fn the_users_order_is_kept(
    s: AppState,
    f: FenceModel,
    r: Seq<Item>,
    a: int,
    b: int,
    i: int,
    j: int,
)
    requires
        is_listing(s, f, r),
        f.kind != FenceKind::FolderPortal,
        f.view.sort == SortMode::Manual,
        !f.view.reverse,
        forall|id: ItemId| #[trigger]
            s.config.items@.contains_key(id) ==> s.config.items@[id].id == id,
        forall|m: int, k: int|
            0 <= m < k < f.items.len() ==> (#[trigger] f.items[m]).item_id != (
            #[trigger] f.items[k]).item_id,
        0 <= a < r.len(),
        0 <= b < r.len(),
        0 <= i < f.items.len(),
        0 <= j < f.items.len(),
        r[a].id == f.items[i].item_id,
        r[b].id == f.items[j].item_id,
        f.items[i].manual_index matches Some(x) && match f.items[j].manual_index {
            Some(y) => x < y,
            None => x < u32::MAX,
        },
    ensures
        a < b,
{
    if a == b {
        if i < j {
            assert(f.items[i].item_id != f.items[j].item_id);
        } else if j < i {
            assert(f.items[j].item_id != f.items[i].item_id);
        }
    } else if b < a {
        let items = s.config.items@;
        let cs = contents(s, f);
        let (p, q) = lemma_two_listed(s, f, r, b, a);
        lemma_listed_refs(items, f.items);
        assert(from_ref(items, f.items, cs[p]));
        assert(from_ref(items, f.items, cs[q]));
        let m = choose|m: int| #[trigger] is_from(items, f.items, cs[p], m);
        let k = choose|k: int| #[trigger] is_from(items, f.items, cs[q], k);
        assert(m == j) by {
            if m < j {
                assert(f.items[m].item_id != f.items[j].item_id);
            } else if j < m {
                assert(f.items[j].item_id != f.items[m].item_id);
            }
        }
        assert(k == i) by {
            if k < i {
                assert(f.items[k].item_id != f.items[i].item_id);
            } else if i < k {
                assert(f.items[i].item_id != f.items[k].item_id);
            }
        }
    }
}

/// Whatever the order, namespace items come ahead of all others, unless the user arranged the
/// items or the order is reversed.
pub proof fn namespace_items_come_first(s: AppState, f: FenceModel, r: Seq<Item>, a: int, b: int)
    requires
        is_listing(s, f, r),
        f.view.sort != SortMode::Manual,
        !f.view.reverse,
        0 <= a < b < r.len(),
        key_is_namespace(r[b].key),
    ensures
        key_is_namespace(r[a].key),
{
    let cs = contents(s, f);
    let perm = choose|perm: Seq<usize>| #[trigger]
        display_order(f.view.sort, cs, perm) && r == arranged(cs, perm, f.view.reverse);
    assert(leads(f.view.sort, cs, perm[a] as int, perm[b] as int));
}

} // verus!
