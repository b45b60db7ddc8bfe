//! Repair of tab links: hosts that do not exist, tabs of tabs, hosts in a circle, active tabs and
//! strip orders that name fences which are not tabs.

use crate::model::{fence_models, Fence, FenceId, FenceModel, Layout};
use crate::tabs::{
    first_index, has_fence, is_first, is_tab_of, lemma_first_index, lemma_first_unique, position,
};
use vstd::prelude::*;

verus! {

// ---- what repair leaves -------------------------------------------------------------------

/// The fence that hosts fence `i`: none where the host does not exist or is the fence itself.
pub open spec fn host_index(fs: Seq<FenceModel>, i: int) -> Option<int> {
    match fs[i].tab_host {
        Some(h) => if h != fs[i].id && has_fence(fs, h) {
            Some(first_index(fs, h))
        } else {
            None
        },
        None => None,
    }
}

/// Fence `i` is found by its id.
pub open spec fn found(fs: Seq<FenceModel>, i: int) -> bool {
    is_first(fs, fs[i].id, i)
}

/// One link along the hosts; a fence without a host stays.
pub open spec fn step(fs: Seq<FenceModel>, i: int) -> int {
    match host_index(fs, i) {
        Some(j) => j,
        None => i,
    }
}

/// `k` links along the hosts.
pub open spec fn walk(fs: Seq<FenceModel>, i: int, k: nat) -> int
    decreases k,
{
    if k == 0 {
        i
    } else {
        walk(fs, step(fs, i), (k - 1) as nat)
    }
}

/// The first one of the fences that are met in `k` links.
pub open spec fn least(fs: Seq<FenceModel>, i: int, k: nat) -> int
    decreases k,
{
    if k == 0 {
        i
    } else {
        let before = least(fs, i, (k - 1) as nat);
        let here = walk(fs, i, (k - 1) as nat);
        if here < before {
            here
        } else {
            before
        }
    }
}

/// The fence whose window fence `i` belongs to: the one at the end of its chain of hosts. Where the
/// chain runs into a circle, the circle is cut at its first fence.
pub open spec fn root_of(fs: Seq<FenceModel>, i: int) -> int {
    let end = walk(fs, i, fs.len());
    if host_index(fs, end) is None {
        end
    } else {
        least(fs, end, fs.len())
    }
}

/// The host that repair gives to fence `i`: none where it owns the window itself.
pub open spec fn window_host(fs: Seq<FenceModel>, i: int) -> Option<FenceId> {
    let r = root_of(fs, i);
    if fs[r].id == fs[i].id {
        None
    } else {
        Some(fs[r].id)
    }
}

/// `fs` with each fence hosted by the window that it belongs to.
pub open spec fn with_roots(fs: Seq<FenceModel>) -> Seq<FenceModel> {
    Seq::new(fs.len(), |i: int| FenceModel { tab_host: window_host(fs, i), ..fs[i] })
}

/// The members of `order` that are `id` or a tab of it, in their order.
pub open spec fn own_tabs(fs: Seq<FenceModel>, id: FenceId, order: Seq<FenceId>) -> Seq<FenceId>
    decreases order.len(),
{
    if order.len() == 0 {
        Seq::empty()
    } else {
        let rest = own_tabs(fs, id, order.drop_last());
        if order.last() == id || is_tab_of(fs, order.last(), id) {
            rest.push(order.last())
        } else {
            rest
        }
    }
}

/// Fence `f` with the active tab and the strip order cut down to its tabs. A tab has neither
/// strip order nor, having no tabs, an active tab.
pub open spec fn pruned_fence(fs: Seq<FenceModel>, f: FenceModel) -> FenceModel {
    FenceModel {
        active_tab: match f.active_tab {
            Some(a) => if is_tab_of(fs, a, f.id) {
                Some(a)
            } else {
                None
            },
            None => None,
        },
        tab_order: if f.tab_host is Some {
            Seq::empty()
        } else {
            own_tabs(fs, f.id, f.tab_order)
        },
        ..f
    }
}

/// `fs` with every active tab and strip order cut down.
pub open spec fn pruned(fs: Seq<FenceModel>) -> Seq<FenceModel> {
    Seq::new(fs.len(), |i: int| pruned_fence(fs, fs[i]))
}

/// What repair makes of `fs`.
pub open spec fn repaired(fs: Seq<FenceModel>) -> Seq<FenceModel> {
    pruned(with_roots(fs))
}

// ---- links --------------------------------------------------------------------------------

pub(crate) proof fn lemma_same_ids(a: Seq<FenceModel>, b: Seq<FenceModel>, id: FenceId)
    requires
        a.len() == b.len(),
        forall|i: int| 0 <= i < a.len() ==> (#[trigger] a[i]).id == b[i].id,
    ensures
        has_fence(a, id) == has_fence(b, id),
        has_fence(a, id) ==> first_index(a, id) == first_index(b, id) && is_first(
            a,
            id,
            first_index(a, id),
        ),
        forall|i: int| is_first(a, id, i) == is_first(b, id, i),
{
    assert forall|i: int| is_first(a, id, i) == is_first(b, id, i) by {
        if is_first(a, id, i) {
            assert forall|j: int| 0 <= j < i implies (#[trigger] b[j]).id != id by {
                assert(a[j].id != id);
            }
            assert(a[i].id == b[i].id);
        }
        if is_first(b, id, i) {
            assert forall|j: int| 0 <= j < i implies (#[trigger] a[j]).id != id by {
                assert(b[j].id != id);
            }
            assert(a[i].id == b[i].id);
        }
    }
    if has_fence(a, id) {
        lemma_first_index(a, id);
        lemma_first_unique(b, id, first_index(a, id));
    }
    if has_fence(b, id) {
        lemma_first_index(b, id);
        lemma_first_unique(a, id, first_index(b, id));
    }
}

/// Where the host is another fence, so is its index.
pub(crate) proof fn lemma_host_index(fs: Seq<FenceModel>, i: int)
    requires
        0 <= i < fs.len(),
    ensures
        host_index(fs, i) matches Some(j) ==> {
            &&& 0 <= j < fs.len()
            &&& j != i
            &&& Some(fs[j].id) == fs[i].tab_host
            &&& found(fs, j)
        },
{
    if host_index(fs, i) is Some {
        lemma_first_index(fs, fs[i].tab_host->0);
    }
}

proof fn lemma_walk_in(fs: Seq<FenceModel>, i: int, k: nat)
    requires
        0 <= i < fs.len(),
    ensures
        0 <= walk(fs, i, k) < fs.len(),
        walk(fs, i, k) != i ==> found(fs, walk(fs, i, k)),
    decreases k,
{
    if k > 0 {
        lemma_host_index(fs, i);
        lemma_walk_in(fs, step(fs, i), (k - 1) as nat);
    }
}

proof fn lemma_walk_on(fs: Seq<FenceModel>, i: int, a: nat, b: nat)
    ensures
        walk(fs, walk(fs, i, a), b) == walk(fs, i, a + b),
    decreases a,
{
    if a > 0 {
        lemma_walk_on(fs, step(fs, i), (a - 1) as nat, b);
    }
}

proof fn lemma_walk_one_more(fs: Seq<FenceModel>, i: int, k: nat)
    ensures
        walk(fs, i, k + 1) == step(fs, walk(fs, i, k)),
{
    lemma_walk_on(fs, i, k, 1);
    assert(walk(fs, step(fs, walk(fs, i, k)), 0) == step(fs, walk(fs, i, k)));
}

/// A fence without a host is where every walk from it ends.
pub(crate) proof fn lemma_walk_end(fs: Seq<FenceModel>, i: int, k: nat)
    requires
        host_index(fs, i) is None,
    ensures
        walk(fs, i, k) == i,
    decreases k,
{
    if k > 0 {
        lemma_walk_end(fs, i, (k - 1) as nat);
    }
}

/// Walking round a circle any number of times leads nowhere else.
proof fn lemma_rounds(fs: Seq<FenceModel>, i: int, p: nat, q: nat)
    requires
        walk(fs, i, p) == i,
    ensures
        walk(fs, i, q * p) == i,
    decreases q,
{
    if q > 0 {
        lemma_rounds(fs, i, p, (q - 1) as nat);
        lemma_walk_on(fs, i, ((q - 1) * p) as nat, p);
        assert((q - 1) * p + p == q * p) by (nonlinear_arith);
        assert((q - 1) * p >= 0) by (nonlinear_arith)
            requires
                q > 0,
        ;
    } else {
        assert(q * p == 0) by (nonlinear_arith)
            requires
                q == 0,
        ;
    }
}

/// What is met on a circle is met in its first round.
proof fn lemma_first_round(fs: Seq<FenceModel>, i: int, p: nat, k: nat)
    requires
        p > 0,
        walk(fs, i, p) == i,
    ensures
        walk(fs, i, k) == walk(fs, i, k % p),
{
    let q = k / p;
    lemma_rounds(fs, i, p, q);
    assert(k == q * p + k % p) by (nonlinear_arith)
        requires
            q == k / p,
            p > 0,
    ;
    assert(q * p >= 0) by (nonlinear_arith);
    lemma_walk_on(fs, i, (q * p) as nat, k % p);
}

/// After as many links as there are fences, a walk is on a circle, or where it ends.
proof fn lemma_walk_closes(fs: Seq<FenceModel>, i: int) -> (p: nat)
    requires
        0 <= i < fs.len(),
    ensures
        0 < p <= fs.len(),
        walk(fs, walk(fs, i, fs.len()), p) == walk(fs, i, fs.len()),
{
    let n = fs.len();
    let met = Seq::new((n + 1) as nat, |k: int| walk(fs, i, k as nat));
    let all = vstd::set_lib::set_int_range(0, n as int);
    vstd::set_lib::lemma_int_range(0, n as int);
    assert forall|x: int| met.to_set().contains(x) implies all.contains(x) by {
        let k = choose|k: int| 0 <= k < met.len() && met[k] == x;
        lemma_walk_in(fs, i, k as nat);
    }
    if met.no_duplicates() {
        met.unique_seq_to_set();
        vstd::set_lib::lemma_len_subset(met.to_set(), all);
    }
    let (x, y) = choose|x: int, y: int|
        0 <= x < met.len() && 0 <= y < met.len() && x != y && met[x] == met[y];
    let (a, b) = if x < y {
        (x as nat, y as nat)
    } else {
        (y as nat, x as nat)
    };
    let p = (b - a) as nat;
    let c = walk(fs, i, a);
    lemma_walk_on(fs, i, a, p);
    assert(walk(fs, c, p) == c);
    let rest = (n - a) as nat;
    lemma_walk_on(fs, i, a, rest);
    lemma_walk_on(fs, c, rest, p);
    lemma_walk_on(fs, c, p, rest);
    p
}

proof fn lemma_least(fs: Seq<FenceModel>, i: int, k: nat)
    ensures
        exists|m: nat| m <= k && least(fs, i, k) == #[trigger] walk(fs, i, m) && (k > 0 ==> m < k),
        forall|m: nat| m < k ==> least(fs, i, k) <= #[trigger] walk(fs, i, m),
    decreases k,
{
    if k > 0 {
        lemma_least(fs, i, (k - 1) as nat);
        let here = walk(fs, i, (k - 1) as nat);
        let before = least(fs, i, (k - 1) as nat);
        if here < before {
            assert(least(fs, i, k) == walk(fs, i, (k - 1) as nat));
        } else {
            let m = choose|m: nat| m <= k - 1 && before == #[trigger] walk(fs, i, m);
            assert(least(fs, i, k) == walk(fs, i, m));
        }
        assert forall|m: nat| m < k implies least(fs, i, k) <= #[trigger] walk(fs, i, m) by {
            if m == k - 1 {
                assert(walk(fs, i, m) == here);
            }
        }
    } else {
        assert(walk(fs, i, 0) == i);
    }
}

/// The fences of a circle have the same first one.
proof fn lemma_same_circle(fs: Seq<FenceModel>, i: int, p: nat, m: nat)
    requires
        0 < p <= fs.len(),
        walk(fs, i, p) == i,
    ensures
        least(fs, walk(fs, i, m), fs.len()) == least(fs, i, fs.len()),
        walk(fs, walk(fs, i, m), p) == walk(fs, i, m),
        exists|k: nat| #[trigger] walk(fs, walk(fs, i, m), k) == i,
{
    let n = fs.len();
    let y = walk(fs, i, m);
    lemma_walk_on(fs, i, m, p);
    lemma_walk_on(fs, i, p, m);
    assert(walk(fs, y, p) == y);
    let back = (p - m % p) as nat;
    lemma_first_round(fs, i, p, m);
    lemma_walk_on(fs, i, m % p, back);
    assert(walk(fs, y, back) == i);
    lemma_least(fs, i, n);
    lemma_least(fs, y, n);
    let a = choose|a: nat| a <= n && least(fs, i, n) == #[trigger] walk(fs, i, a) && (n > 0 ==> a < n);
    let b = choose|b: nat| b <= n && least(fs, y, n) == #[trigger] walk(fs, y, b) && (n > 0 ==> b < n);
    // The first one seen from `i` is met from `y`, and the other way round.
    lemma_walk_on(fs, y, back, a);
    lemma_first_round(fs, y, p, back + a);
    assert((back + a) % p < n);
    assert(walk(fs, y, ((back + a) % p) as nat) == least(fs, i, n));
    lemma_walk_on(fs, i, m, b);
    lemma_first_round(fs, i, p, m + b);
    assert((m + b) % p < n);
    assert(walk(fs, i, ((m + b) % p) as nat) == least(fs, y, n));
}

/// A fence belongs to a window that is there, and which belongs to itself.
pub(crate) proof fn lemma_root(fs: Seq<FenceModel>, i: int)
    requires
        0 <= i < fs.len(),
    ensures
        0 <= root_of(fs, i) < fs.len(),
        root_of(fs, i) != i ==> found(fs, root_of(fs, i)),
        root_of(fs, root_of(fs, i)) == root_of(fs, i),
{
    let n = fs.len();
    let end = walk(fs, i, n);
    lemma_walk_in(fs, i, n);
    if host_index(fs, end) is None {
        lemma_walk_end(fs, end, n);
    } else {
        let p = lemma_walk_closes(fs, i);
        lemma_least(fs, end, n);
        let r = root_of(fs, i);
        let m = choose|m: nat| m <= n && r == #[trigger] walk(fs, end, m) && (n > 0 ==> m < n);
        lemma_walk_on(fs, i, n, m);
        lemma_walk_in(fs, i, n + m);
        lemma_walk_on(fs, end, m, n);
        let last = walk(fs, r, n);
        lemma_same_circle(fs, end, p, m + n);
        assert(last == walk(fs, end, m + n));
        if host_index(fs, last) is None {
            let k = choose|k: nat| #[trigger] walk(fs, last, k) == end;
            lemma_walk_end(fs, last, k);
        }
    }
}

/// A fence and its host belong to the same window.
pub proof fn links_stay_in_a_window(fs: Seq<FenceModel>, i: int)
    requires
        0 <= i < fs.len(),
    ensures
        root_of(fs, step(fs, i)) == root_of(fs, i),
{
    let n = fs.len();
    let end = walk(fs, i, n);
    lemma_walk_one_more(fs, i, n);
    lemma_walk_on(fs, i, 1, n);
    assert(walk(fs, i, 1) == step(fs, i)) by {
        assert(walk(fs, step(fs, i), 0) == step(fs, i));
    }
    let next = walk(fs, step(fs, i), n);
    assert(next == step(fs, end));
    if host_index(fs, end) is Some {
        let p = lemma_walk_closes(fs, i);
        assert(walk(fs, end, 1) == next) by {
            assert(walk(fs, step(fs, end), 0) == step(fs, end));
        }
        lemma_same_circle(fs, end, p, 1);
        if host_index(fs, next) is None {
            let k = choose|k: nat| #[trigger] walk(fs, next, k) == end;
            lemma_walk_end(fs, next, k);
        }
    }
}

// ---- pruning --------------------------------------------------------------------------------

pub(crate) proof fn lemma_same_tabs(a: Seq<FenceModel>, b: Seq<FenceModel>)
    requires
        a.len() == b.len(),
        forall|i: int|
            0 <= i < a.len() ==> (#[trigger] a[i]).id == b[i].id && a[i].tab_host == b[i].tab_host,
    ensures
        forall|t: FenceId, h: FenceId| is_tab_of(a, t, h) == is_tab_of(b, t, h),
{
    assert forall|t: FenceId, h: FenceId| is_tab_of(a, t, h) == is_tab_of(b, t, h) by {
        if is_tab_of(a, t, h) {
            let j = choose|j: int|
                0 <= j < a.len() && (#[trigger] a[j]).id == t && a[j].tab_host == Some(h);
            assert(b[j].id == t);
        }
        if is_tab_of(b, t, h) {
            let j = choose|j: int|
                0 <= j < b.len() && (#[trigger] b[j]).id == t && b[j].tab_host == Some(h);
            assert(a[j].id == t);
        }
    }
}

pub(crate) proof fn lemma_own_tabs(fs: Seq<FenceModel>, id: FenceId, order: Seq<FenceId>)
    ensures
        own_tabs(fs, id, order).len() <= order.len(),
        own_tabs(fs, id, order).len() == order.len() ==> own_tabs(fs, id, order) == order,
        forall|k: int|
            0 <= k < own_tabs(fs, id, order).len() ==> {
                let t = #[trigger] own_tabs(fs, id, order)[k];
                t == id || is_tab_of(fs, t, id)
            },
        (forall|k: int|
            0 <= k < order.len() ==> order[k] == id || is_tab_of(fs, #[trigger] order[k], id))
            ==> own_tabs(fs, id, order) == order,
    decreases order.len(),
{
    if order.len() > 0 {
        let rest = order.drop_last();
        lemma_own_tabs(fs, id, rest);
        assert(order == rest.push(order.last()));
        if forall|k: int|
            0 <= k < order.len() ==> order[k] == id || is_tab_of(fs, #[trigger] order[k], id) {
            assert forall|k: int| 0 <= k < rest.len() implies rest[k] == id || is_tab_of(
                fs,
                #[trigger] rest[k],
                id,
            ) by {
                assert(rest[k] == order[k]);
            }
            assert(order.last() == order[order.len() - 1]);
        }
    }
}

impl Layout {
    fn own_tabs(&self, id: FenceId, order: &Vec<FenceId>) -> (r: Vec<FenceId>)
        ensures
            r@ == own_tabs(self@.fences, id, order@),
    {
        let mut out: Vec<FenceId> = Vec::new();
        let n: usize = order.len();
        for k in 0..n
            invariant
                n == order.len(),
                out@ == own_tabs(self@.fences, id, order@.take(k as int)),
        {
            assert(order@.take(k + 1).drop_last() == order@.take(k as int));
            if order[k] == id || self.is_tab(order[k], id) {
                out.push(order[k]);
            }
        }
        assert(order@.take(n as int) == order@);
        out
    }

    /// What pruning leaves of fence `i`: whether its active tab goes, and its new strip order
    /// where that is shorter.
    fn prune_plan(&self, i: usize) -> (r: (bool, Option<Vec<FenceId>>))
        requires
            i < self.fences.len(),
        ensures
            ({
                let f = self@.fences[i as int];
                let p = pruned_fence(self@.fences, f);
                &&& r.0 == (p.active_tab != f.active_tab)
                &&& r.0 ==> p.active_tab is None
                &&& r.1 is Some <==> p.tab_order != f.tab_order
                &&& r.1 matches Some(o) ==> o@ == p.tab_order
            }),
    {
        let f = &self.fences[i];
        let ghost m = self@.fences[i as int];
        assert(m == f@);
        let drop_active: bool = match f.active_tab {
            Some(a) => !self.is_tab(a, f.id),
            None => false,
        };
        let kept: Vec<FenceId> = if f.tab_host.is_some() {
            Vec::new()
        } else {
            self.own_tabs(f.id, &f.tab_order)
        };
        proof {
            lemma_own_tabs(self@.fences, m.id, m.tab_order);
        }
        assert(kept@ =~= pruned_fence(self@.fences, m).tab_order);
        if kept.len() != f.tab_order.len() {
            (drop_active, Some(kept))
        } else {
            assert(kept@ =~= f.tab_order@);
            (drop_active, None)
        }
    }

    fn prune_at(&mut self, i: usize) -> (changed: bool)
        requires
            i < old(self).fences.len(),
        ensures
            final(self).fences@ == old(self).fences@.update(i as int, final(self).fences@[i as int]),
            final(self).fences@[i as int]@ == pruned_fence(
                old(self)@.fences,
                old(self)@.fences[i as int],
            ),
            final(self).fingerprint == old(self).fingerprint,
            changed == (final(self).fences@[i as int]@ != old(self).fences@[i as int]@),
    {
        let (drop_active, order) = self.prune_plan(i);
        let ghost was = self.fences@;
        let mut changed = drop_active;
        if drop_active {
            clear_active(&mut self.fences[i]);
        }
        if let Some(o) = order {
            set_order(&mut self.fences[i], o);
            changed = true;
        }
        assert(self.fences@ =~= was.update(i as int, self.fences@[i as int]));
        changed
    }

    /// Cuts active tabs and strip orders down to real tabs. Returns whether one changed.
    fn prune_tabs(&mut self) -> (changed: bool)
        ensures
            final(self)@.fences == pruned(old(self)@.fences),
            final(self)@.fingerprint == old(self)@.fingerprint,
            changed == (final(self)@.fences != old(self)@.fences),
    {
        let ghost fs = self@.fences;
        let mut changed = false;
        let n: usize = self.fences.len();
        let ghost mut at: int = -1;
        for i in 0..n
            invariant
                n == self.fences.len(),
                n == fs.len(),
                self.fingerprint == old(self).fingerprint,
                forall|j: int| 0 <= j < i ==> (#[trigger] self.fences@[j])@ == pruned_fence(fs, fs[j]),
                forall|j: int| i <= j < n ==> (#[trigger] self.fences@[j])@ == fs[j],
                changed ==> 0 <= at < i && pruned_fence(fs, fs[at]) != fs[at],
                !changed ==> forall|j: int| 0 <= j < i ==> pruned_fence(fs, #[trigger] fs[j]) == fs[j],
        {
            proof {
                lemma_pruned_midway(fs, self.fences@, i as int);
            }
            if self.prune_at(i) {
                changed = true;
                proof {
                    at = i as int;
                }
            }
        }
        assert(self@.fences =~= pruned(fs));
        proof {
            if changed {
                assert(self@.fences[at] != fs[at]);
            } else {
                assert(self@.fences =~= fs);
            }
        }
        changed
    }
}

/// Pruning the fences before `i` does not change what pruning makes of fence `i`.
proof fn lemma_pruned_midway(fs: Seq<FenceModel>, fences: Seq<Fence>, i: int)
    requires
        fences.len() == fs.len(),
        0 <= i < fs.len(),
        forall|j: int| 0 <= j < i ==> (#[trigger] fences[j])@ == pruned_fence(fs, fs[j]),
        forall|j: int| i <= j < fs.len() ==> (#[trigger] fences[j])@ == fs[j],
    ensures
        fence_models(fences)[i] == fs[i],
        pruned_fence(fence_models(fences), fs[i]) == pruned_fence(fs, fs[i]),
{
    let now = fence_models(fences);
    assert(fences[i]@ == fs[i]);
    assert forall|j: int| 0 <= j < fs.len() implies (#[trigger] now[j]).id == fs[j].id
        && now[j].tab_host == fs[j].tab_host by {
        assert(now[j] == fences[j]@);
    }
    lemma_same_tabs(now, fs);
    lemma_own_tabs_same(now, fs, fs[i].id, fs[i].tab_order);
}

pub(crate) proof fn lemma_own_tabs_same(
    a: Seq<FenceModel>,
    b: Seq<FenceModel>,
    id: FenceId,
    order: Seq<FenceId>,
)
    requires
        forall|t: FenceId, h: FenceId| is_tab_of(a, t, h) == is_tab_of(b, t, h),
    ensures
        own_tabs(a, id, order) == own_tabs(b, id, order),
    decreases order.len(),
{
    if order.len() > 0 {
        lemma_own_tabs_same(a, b, id, order.drop_last());
    }
}

fn set_order(fence: &mut Fence, order: Vec<FenceId>)
    ensures
        final(fence)@ == (FenceModel { tab_order: order@, ..old(fence)@ }),
{
    fence.tab_order = order;
}

fn clear_active(fence: &mut Fence)
    ensures
        final(fence)@ == (FenceModel { active_tab: None, ..old(fence)@ }),
{
    fence.active_tab = None;
}

fn set_host(fence: &mut Fence, host: Option<FenceId>)
    ensures
        final(fence)@ == (FenceModel { tab_host: host, ..old(fence)@ }),
{
    fence.tab_host = host;
}

// ---- repair ---------------------------------------------------------------------------------

fn host_position(fences: &Vec<Fence>, i: usize) -> (r: Option<usize>)
    requires
        i < fences.len(),
    ensures
        match r {
            Some(j) => host_index(fence_models(fences@), i as int) == Some(j as int) && j
                < fences.len(),
            None => host_index(fence_models(fences@), i as int) is None,
        },
{
    assert(fence_models(fences@)[i as int] == fences@[i as int]@);
    match fences[i].tab_host {
        Some(h) => if h != fences[i].id {
            position(fences, h)
        } else {
            None
        },
        None => None,
    }
}

/// The fence whose window fence `i` belongs to.
fn root_position(fences: &Vec<Fence>, i: usize) -> (r: usize)
    requires
        i < fences.len(),
    ensures
        r < fences.len(),
        r == root_of(fence_models(fences@), i as int),
{
    let ghost fs = fence_models(fences@);
    let n: usize = fences.len();
    let mut end: usize = i;
    for k in 0..n
        invariant
            n == fences.len(),
            fs == fence_models(fences@),
            end < n,
            end == walk(fs, i as int, k as nat),
    {
        proof {
            lemma_walk_one_more(fs, i as int, k as nat);
        }
        if let Some(j) = host_position(fences, end) {
            end = j;
        }
    }
    if host_position(fences, end).is_none() {
        return end;
    }
    let mut at: usize = end;
    let mut low: usize = end;
    for k in 0..n
        invariant
            n == fences.len(),
            fs == fence_models(fences@),
            at < n,
            low < n,
            at == walk(fs, end as int, k as nat),
            low == least(fs, end as int, k as nat),
    {
        proof {
            lemma_walk_one_more(fs, end as int, k as nat);
        }
        if at < low {
            low = at;
        }
        if let Some(j) = host_position(fences, at) {
            at = j;
        }
    }
    low
}

impl Layout {
    /// Puts each fence into the window that it belongs to. Returns whether one changed.
    fn host_by_windows(&mut self) -> (changed: bool)
        ensures
            final(self)@.fences == with_roots(old(self)@.fences),
            final(self)@.fingerprint == old(self)@.fingerprint,
            changed == (final(self)@.fences != old(self)@.fences),
    {
        let ghost fs = self@.fences;
        let ghost gs = with_roots(fs);
        let n: usize = self.fences.len();
        let mut hosts: Vec<Option<FenceId>> = Vec::new();
        for i in 0..n
            invariant
                n == self.fences.len(),
                n == fs.len(),
                fs == self@.fences,
                *self == *old(self),
                hosts.len() == i,
                forall|j: int| 0 <= j < i ==> #[trigger] hosts@[j] == window_host(fs, j),
        {
            let r: usize = root_position(&self.fences, i);
            assert(fs[r as int] == self.fences@[r as int]@);
            assert(fs[i as int] == self.fences@[i as int]@);
            let id: FenceId = self.fences[r].id;
            if id == self.fences[i].id {
                hosts.push(None);
            } else {
                hosts.push(Some(id));
            }
        }
        let mut changed = false;
        let ghost mut at: int = -1;
        for i in 0..n
            invariant
                n == self.fences.len(),
                n == fs.len(),
                n == hosts.len(),
                gs == with_roots(fs),
                self.fingerprint == old(self).fingerprint,
                forall|j: int| 0 <= j < n ==> #[trigger] hosts@[j] == window_host(fs, j),
                forall|j: int| 0 <= j < i ==> (#[trigger] self.fences@[j])@ == gs[j],
                forall|j: int| i <= j < n ==> (#[trigger] self.fences@[j])@ == fs[j],
                changed ==> 0 <= at < i && gs[at] != fs[at],
                !changed ==> forall|j: int| 0 <= j < i ==> gs[j] == #[trigger] fs[j],
        {
            assert(self.fences@[i as int]@ == fs[i as int]);
            if self.fences[i].tab_host != hosts[i] {
                set_host(&mut self.fences[i], hosts[i]);
                changed = true;
                proof {
                    at = i as int;
                    assert(gs[at].tab_host != fs[at].tab_host);
                }
            }
        }
        assert(self@.fences =~= gs);
        proof {
            if changed {
                assert(self@.fences[at] != fs[at]);
            } else {
                assert(self@.fences =~= fs);
            }
        }
        changed
    }

    /// Repairs tab links after loading or deleting: a host that does not exist is dropped, a tab
    /// of a tab moves to the window at the end of the chain, a circle of hosts is cut at its first
    /// fence, and active tabs and strip orders are cut down to real tabs. Returns whether anything
    /// changed.
    pub fn normalize_tabs(&mut self) -> (changed: bool)
        ensures
            final(self)@.fences == repaired(old(self)@.fences),
            changed == (final(self)@.fences != old(self)@.fences),
            final(self)@.fingerprint == old(self)@.fingerprint,
    {
        let ghost fs = self@.fences;
        let moved = self.host_by_windows();
        let ghost hs = self@.fences;
        let cut = self.prune_tabs();
        proof {
            let end = self@.fences;
            assert(forall|i: int| 0 <= i < fs.len() ==> (#[trigger] end[i]).tab_host == hs[i].tab_host);
            if moved {
                if forall|i: int| 0 <= i < fs.len() ==> hs[i] == #[trigger] fs[i] {
                    assert(hs =~= fs);
                }
                let i = choose|i: int| 0 <= i < fs.len() && hs[i] != #[trigger] fs[i];
                assert(hs[i].tab_host != fs[i].tab_host);
                assert(end[i] != fs[i]);
            }
        }
        moved || cut
    }
}

} // verus!
