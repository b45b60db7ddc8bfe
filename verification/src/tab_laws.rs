//! What holds of tabbed fences whatever is done to them.

use crate::model::{FenceId, FenceModel};
use crate::state_tabs::{can_attach, windows};
use crate::tab_repair::{
    host_index, lemma_host_index, lemma_own_tabs, lemma_own_tabs_same, lemma_root,
    lemma_same_ids, lemma_same_tabs, lemma_walk_end, own_tabs, pruned, repaired, root_of,
    with_roots,
};
use crate::tabs::{
    active_tab_of, after_split, can_cancel, can_detach, detached, distinct_ids, first_index,
    first_occurrences, has_fence, host_of, hosted_ids, is_first, is_hosted, is_tab_of, is_window,
    lemma_detach_group, lemma_first_index, lemma_first_unique, lemma_strips_are_of_windows,
    lemma_without, moved_to, natural_tabs, next_active, only, order_of, placed, placement_of,
    placements, remaining_host, remaining_tabs, restore_one, restored, split_of,
    tabs_are_the_host_and_its_tabs, tabs_of, with_order, without, PlacementModel, Split,
};
use vstd::prelude::*;

verus! {

// ---- repair ---------------------------------------------------------------------------------

/// Every host is a window, and active tabs and strip orders name real tabs only.
pub open spec fn normal(fs: Seq<FenceModel>) -> bool {
    &&& forall|i: int| 0 <= i < fs.len() ==> #[trigger] hosted_by_window(fs, i)
    &&& pruned(fs) == fs
}

/// Fence `i` is a window or a tab of one.
pub open spec fn hosted_by_window(fs: Seq<FenceModel>, i: int) -> bool {
    fs[i].tab_host is Some ==> match host_index(fs, i) {
        Some(j) => fs[j].tab_host is None,
        None => false,
    }
}

/// Fences that are hosted by windows keep their hosts.
pub(crate) proof fn lemma_hosts_stay(fs: Seq<FenceModel>)
    requires
        forall|i: int| 0 <= i < fs.len() ==> #[trigger] hosted_by_window(fs, i),
    ensures
        with_roots(fs) == fs,
{
    let n = fs.len();
    assert forall|i: int| 0 <= i < n implies #[trigger] with_roots(fs)[i] == fs[i] by {
        assert(hosted_by_window(fs, i));
        lemma_host_index(fs, i);
        match host_index(fs, i) {
            Some(j) => {
                assert(hosted_by_window(fs, j));
                assert(host_index(fs, j) is None);
                lemma_walk_end(fs, j, (n - 1) as nat);
            },
            None => {
                lemma_walk_end(fs, i, n);
            },
        }
    }
    assert(with_roots(fs) =~= fs);
}

/// Repair leaves fences as they are that need none.
pub proof fn repair_keeps_what_is_normal(fs: Seq<FenceModel>)
    requires
        normal(fs),
    ensures
        repaired(fs) == fs,
{
    lemma_hosts_stay(fs);
}

proof fn lemma_pruned_twice(fs: Seq<FenceModel>)
    ensures
        pruned(pruned(fs)) == pruned(fs),
{
    let gs = pruned(fs);
    lemma_same_tabs(gs, fs);
    assert forall|i: int| 0 <= i < fs.len() implies #[trigger] pruned(gs)[i] == gs[i] by {
        let f = fs[i];
        lemma_own_tabs_same(gs, fs, f.id, gs[i].tab_order);
        lemma_own_tabs(fs, f.id, f.tab_order);
        let kept = own_tabs(fs, f.id, f.tab_order);
        assert forall|k: int| 0 <= k < kept.len() implies kept[k] == f.id || is_tab_of(
            fs,
            #[trigger] kept[k],
            f.id,
        ) by {}
        lemma_own_tabs(fs, f.id, kept);
    }
    assert(pruned(gs) =~= gs);
}

/// After repair every host is a window and every active tab and strip order names real tabs
/// only: another repair changes nothing.
pub proof fn repair_settles(fs: Seq<FenceModel>)
    ensures
        normal(repaired(fs)),
        repaired(repaired(fs)) == repaired(fs),
{
    let hs = with_roots(fs);
    let gs = repaired(fs);
    lemma_pruned_twice(hs);
    assert forall|i: int| 0 <= i < gs.len() implies #[trigger] hosted_by_window(gs, i) by {
        assert(gs[i].tab_host == hs[i].tab_host);
        lemma_root(fs, i);
        let r = root_of(fs, i);
        if fs[r].id != fs[i].id {
            lemma_first_unique(fs, fs[r].id, r);
            lemma_same_ids(gs, fs, fs[r].id);
            assert(host_index(gs, i) == Some(r));
            assert(gs[r].tab_host == hs[r].tab_host);
        }
    }
    repair_keeps_what_is_normal(gs);
}

// ---- the strip ------------------------------------------------------------------------------

proof fn lemma_dedup_of_unique(s: Seq<FenceId>)
    requires
        s.no_duplicates(),
    ensures
        first_occurrences(s) == s,
    decreases s.len(),
{
    if s.len() > 0 {
        let t = s.drop_last();
        lemma_dedup_of_unique(t);
        assert(s == t.push(s.last()));
        if t.contains(s.last()) {
            assert(s[t.index_of(s.last())] == s.last());
        }
    }
}

proof fn lemma_dedup_tail(s: Seq<FenceId>, t: Seq<FenceId>)
    requires
        s.no_duplicates(),
        forall|x: FenceId| #[trigger] t.contains(x) ==> s.contains(x),
    ensures
        first_occurrences(s + t) == s,
    decreases t.len(),
{
    if t.len() == 0 {
        assert(s + t == s);
        lemma_dedup_of_unique(s);
    } else {
        assert((s + t).drop_last() == s + t.drop_last());
        assert forall|x: FenceId| #[trigger] t.drop_last().contains(x) implies s.contains(x) by {
            assert(t[t.drop_last().index_of(x)] == x);
            assert(t.contains(x));
        }
        lemma_dedup_tail(s, t.drop_last());
        assert(t.contains(t.last())) by {
            assert(t[t.len() - 1] == t.last());
        }
    }
}

proof fn lemma_only_all(s: Seq<FenceId>, allowed: Seq<FenceId>)
    requires
        forall|x: FenceId| #[trigger] s.contains(x) ==> allowed.contains(x),
    ensures
        only(s, allowed) == s,
    decreases s.len(),
{
    if s.len() > 0 {
        let t = s.drop_last();
        assert forall|x: FenceId| #[trigger] t.contains(x) implies allowed.contains(x) by {
            assert(s[t.index_of(x)] == x);
            assert(s.contains(x));
        }
        lemma_only_all(t, allowed);
        assert(s[s.len() - 1] == s.last());
        assert(s.contains(s.last()));
        assert(s == t.push(s.last()));
    }
}

/// A host whose stored order lists its window's tabs once each shows them in that order.
proof fn lemma_full_order(fs: Seq<FenceModel>, host: FenceId, order: Seq<FenceId>)
    requires
        order_of(fs, host) == order,
        order.no_duplicates(),
        forall|x: FenceId| #[trigger]
            order.contains(x) <==> x == host || !is_hosted(fs, host) && is_tab_of(fs, x, host),
    ensures
        tabs_of(fs, host) == order,
{
    let natural = natural_tabs(fs, host);
    tabs_are_the_host_and_its_tabs(fs, host);
    assert forall|x: FenceId| #[trigger] natural.contains(x) <==> order.contains(x) by {
        lemma_natural(fs, host, x);
    }
    lemma_only_all(order, natural);
    lemma_dedup_tail(order, natural);
}

proof fn lemma_natural(fs: Seq<FenceModel>, host: FenceId, x: FenceId)
    ensures
        natural_tabs(fs, host).contains(x) <==> x == host || !is_hosted(fs, host) && is_tab_of(
            fs,
            x,
            host,
        ),
{
    crate::tabs::lemma_hosted_ids(fs, host);
    let hosted = hosted_ids(fs, host);
    let natural = natural_tabs(fs, host);
    assert(hosted.contains(x) <==> is_tab_of(fs, x, host));
    if x == host {
        assert(natural[0] == x);
    }
    if !is_hosted(fs, host) && hosted.contains(x) {
        assert(natural[hosted.index_of(x) + 1] == x);
    }
    if natural.contains(x) {
        let k = natural.index_of(x);
        if k > 0 {
            assert(hosted[k - 1] == x);
        }
    }
}

proof fn lemma_moved(strip: Seq<FenceId>, tab: FenceId, to: int)
    requires
        strip.no_duplicates(),
        strip.contains(tab),
        to >= 0,
    ensures
        moved_to(strip, tab, to).no_duplicates(),
        forall|x: FenceId| #[trigger] moved_to(strip, tab, to).contains(x) <==> strip.contains(x),
{
    let from = strip.index_of(tab);
    let rest = strip.remove(from);
    let at = if to < rest.len() {
        to
    } else {
        rest.len() as int
    };
    let out = moved_to(strip, tab, to);
    assert(out == rest.insert(at, tab));
    assert forall|i: int| 0 <= i < rest.len() implies #[trigger] rest[i] != tab by {
        if i < from {
            assert(rest[i] == strip[i]);
        } else {
            assert(rest[i] == strip[i + 1]);
        }
    }
    assert(rest.no_duplicates()) by {
        assert forall|i: int, j: int| 0 <= i < rest.len() && 0 <= j < rest.len() && i != j implies
            rest[i] != rest[j] by {
            let a = if i < from {
                i
            } else {
                i + 1
            };
            let b = if j < from {
                j
            } else {
                j + 1
            };
            assert(rest[i] == strip[a] && rest[j] == strip[b]);
        }
    }
    assert forall|i: int, j: int| 0 <= i < out.len() && 0 <= j < out.len() && i != j implies out[i]
        != out[j] by {
        let a = if i < at {
            i
        } else {
            i - 1
        };
        let b = if j < at {
            j
        } else {
            j - 1
        };
        if i != at && j != at {
            assert(out[i] == rest[a] && out[j] == rest[b]);
        } else if i == at {
            assert(out[j] == rest[b]);
        } else {
            assert(out[i] == rest[a]);
        }
    }
    assert forall|x: FenceId| #[trigger] out.contains(x) <==> strip.contains(x) by {
        if strip.contains(x) {
            let k = strip.index_of(x);
            if x == tab {
                assert(out[at] == x);
            } else {
                let m = if k < from {
                    k
                } else {
                    k - 1
                };
                assert(rest[m] == x);
                if m < at {
                    assert(out[m] == x);
                } else {
                    assert(out[m + 1] == x);
                }
            }
        }
        if out.contains(x) {
            let k = out.index_of(x);
            if k != at {
                let m = if k < at {
                    k
                } else {
                    k - 1
                };
                assert(rest[m] == x);
                if m < from {
                    assert(strip[m] == x);
                } else {
                    assert(strip[m + 1] == x);
                }
            }
        }
    }
}

/// After a tab was moved along the strip, the window shows its tabs in the order asked for.
pub proof fn reordered_strip_is_shown(fs: Seq<FenceModel>, host: FenceId, tab: FenceId, to: int)
    requires
        has_fence(fs, host),
        tabs_of(fs, host).contains(tab),
        to >= 0,
    ensures
        tabs_of(with_order(fs, host, moved_to(tabs_of(fs, host), tab, to)), host) == moved_to(
            tabs_of(fs, host),
            tab,
            to,
        ),
{
    let strip = tabs_of(fs, host);
    let order = moved_to(strip, tab, to);
    let gs = with_order(fs, host, order);
    tabs_are_the_host_and_its_tabs(fs, host);
    lemma_moved(strip, tab, to);
    lemma_first_index(fs, host);
    lemma_same_ids(gs, fs, host);
    lemma_same_tabs(gs, fs);
    assert(is_hosted(gs, host) == is_hosted(fs, host)) by {
        if is_window(gs, host) {
            let j = choose|j: int|
                0 <= j < gs.len() && (#[trigger] gs[j]).id == host && gs[j].tab_host is None;
            assert(fs[j].id == host);
        }
        if is_window(fs, host) {
            let j = choose|j: int|
                0 <= j < fs.len() && (#[trigger] fs[j]).id == host && fs[j].tab_host is None;
            assert(gs[j].id == host);
        }
    }
    lemma_full_order(gs, host, order);
}

/// The window a fence is shown in is shown in itself.
pub proof fn hosts_are_windows(fs: Seq<FenceModel>, id: FenceId)
    requires
        distinct_ids(fs),
    ensures
        host_of(fs, host_of(fs, id)) == host_of(fs, id),
{
    let h = host_of(fs, id);
    if h != id {
        let j = choose|j: int|
            0 <= j < fs.len() && (#[trigger] fs[j]).id == h && fs[j].tab_host is None;
        assert(is_first(fs, h, j));
        lemma_first_unique(fs, h, j);
    }
}

// ---- leaving and coming back ----------------------------------------------------------------

/// Where the owner of the window leaves, the tab that takes over has no tabs of its own yet.
pub open spec fn heir_is_free(fs: Seq<FenceModel>, tab: FenceId) -> bool {
    tab == host_of(fs, tab) ==> forall|x: FenceId| !#[trigger]
        is_tab_of(fs, x, remaining_host(fs, tab))
}

proof fn lemma_detached_ids(fs: Seq<FenceModel>, tab: FenceId)
    ensures
        detached(fs, tab).len() == fs.len(),
        forall|i: int| 0 <= i < fs.len() ==> (#[trigger] detached(fs, tab)[i]).id == fs[i].id,
{
}

proof fn lemma_only_one(fs: Seq<FenceModel>, i: int)
    requires
        distinct_ids(fs),
        0 <= i < fs.len(),
    ensures
        is_first(fs, fs[i].id, i),
        first_index(fs, fs[i].id) == i,
        has_fence(fs, fs[i].id),
{
    assert(is_first(fs, fs[i].id, i));
    lemma_first_unique(fs, fs[i].id, i);
}

proof fn lemma_rest(fs: Seq<FenceModel>, tab: FenceId)
    requires
        can_detach(fs, tab),
    ensures
        ({
            let source = host_of(fs, tab);
            let rest = remaining_tabs(fs, tab);
            &&& rest.len() >= 1
            &&& rest.no_duplicates()
            &&& rest.contains(remaining_host(fs, tab))
            &&& forall|x: FenceId| #[trigger]
                rest.contains(x) <==> x != tab && (x == source || is_tab_of(fs, x, source))
            &&& forall|x: FenceId| #[trigger] rest.contains(x) ==> has_fence(fs, x)
        }),
{
    let source = host_of(fs, tab);
    let rest = remaining_tabs(fs, tab);
    lemma_detach_group(fs, tab);
    tabs_are_the_host_and_its_tabs(fs, source);
    lemma_strips_are_of_windows(fs, source);
    lemma_without(tabs_of(fs, source), tab);
    assert forall|x: FenceId| #[trigger] rest.contains(x) <==> x != tab && (x == source
        || is_tab_of(fs, x, source)) by {
        assert(tabs_of(fs, source).contains(x) <==> x == source || is_tab_of(fs, x, source));
    }
    assert forall|x: FenceId| #[trigger] rest.contains(x) implies has_fence(fs, x) by {
        if x != source {
            let j = choose|j: int|
                0 <= j < fs.len() && (#[trigger] fs[j]).id == x && fs[j].tab_host == Some(source);
            assert(fs[j].id == x);
        }
    }
    assert(rest.contains(rest[0]));
    if tab != source {
        assert(rest.contains(source));
    }
}

proof fn lemma_tabs_after(fs: Seq<FenceModel>, tab: FenceId)
    requires
        distinct_ids(fs),
        can_detach(fs, tab),
        heir_is_free(fs, tab),
    ensures
        ({
            let gs = detached(fs, tab);
            let root = remaining_host(fs, tab);
            let rest = remaining_tabs(fs, tab);
            &&& forall|x: FenceId| #[trigger]
                is_tab_of(gs, x, root) <==> rest.contains(x) && x != root
            &&& tabs_of(gs, root) == rest
            &&& host_of(gs, tab) == tab
            &&& host_of(gs, root) == root
            &&& has_fence(gs, root)
            &&& gs[first_index(gs, root)].tab_host is None
            &&& gs[first_index(gs, root)].id == root
            &&& active_tab_of(gs, root) == next_active(fs, tab)
        }),
{
    let gs = detached(fs, tab);
    let source = host_of(fs, tab);
    let root = remaining_host(fs, tab);
    let rest = remaining_tabs(fs, tab);
    let split = split_of(fs, tab);
    lemma_detached_ids(fs, tab);
    lemma_rest(fs, tab);
    assert forall|x: FenceId| #[trigger] is_tab_of(gs, x, root) <==> rest.contains(x) && x != root by {
        if is_tab_of(gs, x, root) {
            let j = choose|j: int|
                0 <= j < gs.len() && (#[trigger] gs[j]).id == x && gs[j].tab_host == Some(root);
            assert(fs[j].id == x);
            if x != tab && !rest.contains(x) {
                assert(gs[j] == fs[j]);
                assert(is_tab_of(fs, x, root));
            }
        }
        if rest.contains(x) && x != root {
            lemma_first_index(fs, x);
            let j = first_index(fs, x);
            assert(gs[j].id == x);
            assert(gs[j].tab_host == Some(root));
        }
    }
    lemma_first_index(fs, root);
    lemma_same_ids(gs, fs, root);
    let r = first_index(fs, root);
    assert(gs[r].id == root && gs[r].tab_order == rest && gs[r].tab_host is None);
    lemma_full_order(gs, root, rest);
    lemma_first_index(fs, tab);
    lemma_same_ids(gs, fs, tab);
    assert(gs[first_index(fs, tab)].tab_host is None);
    let next = next_active(fs, tab);
    assert(rest.contains(next)) by {
        lemma_detach_group(fs, tab);
        let active = active_tab_of(fs, source);
        tabs_are_the_host_and_its_tabs(fs, source);
        if active != tab {
            assert(active == source || is_tab_of(fs, active, source));
        }
    }
    assert(active_tab_of(gs, root) == next);
}

/// The window that remains when `tab` leaves has the frame that the window had.
pub open spec fn keeps_frame(fs: Seq<FenceModel>, tab: FenceId) -> bool {
    let host = fs[first_index(fs, host_of(fs, tab))];
    let left = detached(fs, tab)[first_index(fs, remaining_host(fs, tab))];
    &&& left.id == remaining_host(fs, tab)
    &&& left.geometry == host.geometry
    &&& left.rolled_up == host.rolled_up
    &&& left.expanded_h == host.expanded_h
    &&& left.view.auto_height == host.view.auto_height
}

proof fn lemma_keeps_frame(fs: Seq<FenceModel>, tab: FenceId)
    requires
        can_detach(fs, tab),
    ensures
        keeps_frame(fs, tab),
{
    lemma_rest(fs, tab);
    lemma_first_index(fs, remaining_host(fs, tab));
    lemma_detach_group(fs, tab);
    lemma_first_index(fs, host_of(fs, tab));
}

/// Taking a tab out of its window leaves two windows with nothing to repair: the tab is alone in
/// its own, and the remaining tabs keep their strip order, under the host or, where the host
/// left, under the first of them. The remaining window shows the tab that it showed, or the
/// neighbour of the one that left, and it keeps the frame of the window.
pub proof fn detaching_splits_the_window(fs: Seq<FenceModel>, tab: FenceId)
    requires
        distinct_ids(fs),
        normal(fs),
        can_detach(fs, tab),
    ensures
        normal(detached(fs, tab)),
        repaired(detached(fs, tab)) == detached(fs, tab),
        keeps_frame(fs, tab),
        host_of(detached(fs, tab), tab) == tab,
        tabs_of(detached(fs, tab), tab) == seq![tab],
        tabs_of(detached(fs, tab), remaining_host(fs, tab)) == remaining_tabs(fs, tab),
        active_tab_of(detached(fs, tab), remaining_host(fs, tab)) == next_active(fs, tab),
        forall|x: FenceId| #[trigger]
            remaining_tabs(fs, tab).contains(x) ==> host_of(detached(fs, tab), x)
                == remaining_host(fs, tab),
{
    let gs = detached(fs, tab);
    let source = host_of(fs, tab);
    let root = remaining_host(fs, tab);
    let rest = remaining_tabs(fs, tab);
    lemma_detached_ids(fs, tab);
    lemma_rest(fs, tab);
    lemma_detach_group(fs, tab);
    lemma_windows_have_tabs(fs);
    if tab == source {
        assert(rest.contains(root));
        assert(is_tab_of(fs, root, source));
        lemma_tabs_host_nothing(fs, root, source);
    } else {
        lemma_first_index(fs, tab);
        assert(is_tab_of(fs, tab, source));
        lemma_tabs_host_nothing(fs, tab, source);
    }
    lemma_tabs_after(fs, tab);
    // Nothing is hosted by the tab any more.
    assert forall|x: FenceId| !#[trigger] is_tab_of(gs, x, tab) by {
        if is_tab_of(gs, x, tab) {
            let j = choose|j: int|
                0 <= j < gs.len() && (#[trigger] gs[j]).id == x && gs[j].tab_host == Some(tab);
            assert(fs[j].id == x);
            assert(rest.contains(root));
            assert(gs[j] == fs[j]);
            assert(is_tab_of(fs, x, tab));
        }
    }
    lemma_first_index(fs, tab);
    lemma_same_ids(gs, fs, tab);
    assert(gs[first_index(fs, tab)].tab_order =~= Seq::empty());
    assert(order_of(gs, tab) == Seq::<FenceId>::empty());
    lemma_alone(gs, tab);
    assert forall|x: FenceId| #[trigger] rest.contains(x) implies host_of(gs, x) == root by {
        if x != root {
            lemma_first_index(fs, x);
            lemma_same_ids(gs, fs, x);
            let j = first_index(fs, x);
            assert(gs[j].tab_host == Some(root));
            assert(gs[first_index(gs, root)].id == root);
            assert(is_window(gs, root));
        }
    }
    lemma_detached_normal(fs, tab);
    repair_keeps_what_is_normal(gs);
    lemma_keeps_frame(fs, tab);
}

/// A tab hosts nothing.
proof fn lemma_tabs_host_nothing(fs: Seq<FenceModel>, t: FenceId, host: FenceId)
    requires
        distinct_ids(fs),
        normal(fs),
        is_tab_of(fs, t, host),
    ensures
        forall|x: FenceId| !#[trigger] is_tab_of(fs, x, t),
{
    let j = choose|j: int|
        0 <= j < fs.len() && (#[trigger] fs[j]).id == t && fs[j].tab_host == Some(host);
    lemma_only_one(fs, j);
    assert forall|x: FenceId| !#[trigger] is_tab_of(fs, x, t) by {
        if is_tab_of(fs, x, t) {
            let k = choose|k: int|
                0 <= k < fs.len() && (#[trigger] fs[k]).id == x && fs[k].tab_host == Some(t);
            assert(hosted_by_window(fs, k));
        }
    }
}

/// A fence with tabs is a window.
proof fn lemma_windows_have_tabs(fs: Seq<FenceModel>)
    requires
        distinct_ids(fs),
        normal(fs),
    ensures
        forall|x: FenceId, h: FenceId| #[trigger] is_tab_of(fs, x, h) ==> is_window(fs, h),
{
    assert forall|x: FenceId, h: FenceId| #[trigger] is_tab_of(fs, x, h) implies is_window(fs, h) by {
        let k = choose|k: int|
            0 <= k < fs.len() && (#[trigger] fs[k]).id == x && fs[k].tab_host == Some(h);
        assert(hosted_by_window(fs, k));
        lemma_host_index(fs, k);
        assert(fs[host_index(fs, k)->0].id == h);
    }
}

proof fn lemma_alone(fs: Seq<FenceModel>, id: FenceId)
    requires
        order_of(fs, id) == Seq::<FenceId>::empty(),
        forall|x: FenceId| !#[trigger] is_tab_of(fs, x, id),
    ensures
        tabs_of(fs, id) == seq![id],
{
    let hosted = hosted_ids(fs, id);
    crate::tabs::lemma_hosted_ids(fs, id);
    if hosted.len() > 0 {
        assert(hosted.contains(hosted[0]));
        assert(is_tab_of(fs, hosted[0], id));
    }
    assert(natural_tabs(fs, id) =~= seq![id]);
    let both = only(order_of(fs, id), natural_tabs(fs, id)) + natural_tabs(fs, id);
    assert(both =~= seq![id]);
    lemma_dedup_of_unique(seq![id]);
}

proof fn lemma_detached_normal(fs: Seq<FenceModel>, tab: FenceId)
    requires
        distinct_ids(fs),
        normal(fs),
        can_detach(fs, tab),
        heir_is_free(fs, tab),
        forall|x: FenceId| !#[trigger] is_tab_of(detached(fs, tab), x, tab),
    ensures
        normal(detached(fs, tab)),
{
    let gs = detached(fs, tab);
    let source = host_of(fs, tab);
    let root = remaining_host(fs, tab);
    let rest = remaining_tabs(fs, tab);
    lemma_detached_ids(fs, tab);
    lemma_rest(fs, tab);
    lemma_tabs_after(fs, tab);
    assert forall|i: int| 0 <= i < gs.len() implies #[trigger] hosted_by_window(gs, i) by {
        if gs[i].tab_host is Some {
            let h = gs[i].tab_host->0;
            lemma_same_ids(gs, fs, h);
            if rest.contains(fs[i].id) {
                assert(h == root && fs[i].id != root);
                assert(host_index(gs, i) == Some(first_index(gs, root)));
            } else {
                assert(gs[i] == fs[i]);
                assert(hosted_by_window(fs, i));
                let j = host_index(fs, i)->0;
                lemma_host_index(fs, i);
                assert(host_index(gs, i) == Some(j));
                // A window outside the group stays one.
                assert(h != tab) by {
                    if h == tab {
                        assert(is_tab_of(gs, fs[i].id, tab));
                    }
                }
                assert(!rest.contains(h) || h == root) by {
                    if rest.contains(h) && h != root {
                        if h == source {
                            assert(tab != source);
                        } else {
                            assert(is_tab_of(fs, h, source));
                            assert(is_tab_of(fs, fs[i].id, h));
                            lemma_tabs_host_nothing(fs, h, source);
                        }
                    }
                }
                assert(gs[j].id == h);
                assert(gs[j].tab_host is None);
            }
        }
    }
    lemma_detached_pruned(fs, tab);
}

proof fn lemma_detached_pruned(fs: Seq<FenceModel>, tab: FenceId)
    requires
        distinct_ids(fs),
        normal(fs),
        can_detach(fs, tab),
        heir_is_free(fs, tab),
    ensures
        pruned(detached(fs, tab)) == detached(fs, tab),
{
    let gs = detached(fs, tab);
    let root = remaining_host(fs, tab);
    let rest = remaining_tabs(fs, tab);
    lemma_detached_ids(fs, tab);
    lemma_rest(fs, tab);
    lemma_tabs_after(fs, tab);
    assert forall|i: int| 0 <= i < gs.len() implies #[trigger] pruned(gs)[i] == gs[i] by {
        let f = fs[i];
        let g = gs[i];
        assert(pruned(fs)[i] == f);
        lemma_own_tabs(gs, g.id, g.tab_order);
        if f.id == tab {
            assert(g.tab_order =~= own_tabs(gs, g.id, g.tab_order));
        } else if rest.contains(f.id) {
            if f.id == root {
                assert forall|k: int| 0 <= k < g.tab_order.len() implies g.tab_order[k] == g.id
                    || is_tab_of(gs, #[trigger] g.tab_order[k], g.id) by {
                    assert(rest.contains(rest[k]));
                    assert(is_tab_of(gs, rest[k], root) <==> rest.contains(rest[k]) && rest[k]
                        != root);
                }
                if g.active_tab is Some {
                    let next = next_active(fs, tab);
                    assert(active_tab_of(gs, root) == next);
                    assert(is_tab_of(gs, next, root));
                }
            } else {
                assert(g.tab_order =~= Seq::<FenceId>::empty());
            }
        } else {
            assert(g == f);
            lemma_outside_tabs(fs, tab, f.id);
            lemma_own_tabs(fs, f.id, f.tab_order);
            if f.tab_host is None {
                assert(own_tabs(fs, f.id, f.tab_order) == f.tab_order);
                assert forall|k: int| 0 <= k < f.tab_order.len() implies f.tab_order[k] == f.id
                    || is_tab_of(gs, #[trigger] f.tab_order[k], f.id) by {
                    assert(own_tabs(fs, f.id, f.tab_order)[k] == f.tab_order[k]);
                }
            }
        }
    }
    assert(pruned(gs) =~= gs);
}

/// The tabs of a fence outside the group are the same after the split.
proof fn lemma_outside_tabs(fs: Seq<FenceModel>, tab: FenceId, h: FenceId)
    requires
        distinct_ids(fs),
        normal(fs),
        can_detach(fs, tab),
        h != tab,
        !remaining_tabs(fs, tab).contains(h),
    ensures
        forall|x: FenceId| #[trigger] is_tab_of(fs, x, h) ==> is_tab_of(detached(fs, tab), x, h),
{
    let gs = detached(fs, tab);
    let source = host_of(fs, tab);
    let rest = remaining_tabs(fs, tab);
    lemma_detached_ids(fs, tab);
    lemma_rest(fs, tab);
    assert forall|x: FenceId| #[trigger] is_tab_of(fs, x, h) implies is_tab_of(gs, x, h) by {
        let j = choose|j: int|
            0 <= j < fs.len() && (#[trigger] fs[j]).id == x && fs[j].tab_host == Some(h);
        lemma_only_one(fs, j);
        if x == tab {
            lemma_windows_have_tabs(fs);
            assert(is_window(fs, h));
            assert(source == h);
            assert(rest.contains(h));
        } else if rest.contains(x) {
            if x == source {
                let k = choose|k: int|
                    0 <= k < fs.len() && (#[trigger] fs[k]).id == source && fs[k].tab_host is None;
                assert(fs[k].id == fs[j].id);
            } else {
                let k = choose|k: int|
                    0 <= k < fs.len() && (#[trigger] fs[k]).id == x && fs[k].tab_host == Some(
                        source,
                    );
                assert(fs[k].id == fs[j].id);
            }
        }
        assert(gs[j] == fs[j]);
        assert(gs[j].id == x);
    }
}

/// `p` is the placement of a member of the group.
spec fn from_group(fs: Seq<FenceModel>, group: Seq<FenceId>, p: PlacementModel) -> bool {
    exists|i: int|
        0 <= i < fs.len() && p == placement_of(#[trigger] fs[i]) && group.contains(fs[i].id)
}

/// The placement of `f` is in `ps`.
spec fn listed(ps: Seq<PlacementModel>, f: FenceModel) -> bool {
    exists|k: int| 0 <= k < ps.len() && #[trigger] ps[k] == placement_of(f)
}

spec fn distinct_placements(ps: Seq<PlacementModel>) -> bool {
    forall|a: int, b: int| 0 <= a < b < ps.len() ==> (#[trigger] ps[a]).id != (#[trigger] ps[b]).id
}

proof fn lemma_placements_from(fs: Seq<FenceModel>, group: Seq<FenceId>)
    ensures
        forall|k: int|
            0 <= k < placements(fs, group).len() ==> #[trigger] from_group(
                fs,
                group,
                placements(fs, group)[k],
            ),
    decreases fs.len(),
{
    if fs.len() > 0 {
        let gs = fs.drop_last();
        lemma_placements_from(gs, group);
        let rest = placements(gs, group);
        let out = placements(fs, group);
        assert forall|k: int| 0 <= k < out.len() implies #[trigger] from_group(fs, group, out[k]) by {
            if k < rest.len() {
                assert(out[k] == rest[k]);
                assert(from_group(gs, group, rest[k]));
                let i = choose|i: int|
                    0 <= i < gs.len() && rest[k] == placement_of(#[trigger] gs[i])
                        && group.contains(gs[i].id);
                assert(fs[i] == gs[i]);
            } else {
                assert(out[k] == placement_of(fs[fs.len() - 1]));
            }
        }
    }
}

proof fn lemma_placements_listed(fs: Seq<FenceModel>, group: Seq<FenceId>)
    ensures
        forall|i: int|
            0 <= i < fs.len() && group.contains(fs[i].id) ==> #[trigger] listed(
                placements(fs, group),
                fs[i],
            ),
    decreases fs.len(),
{
    if fs.len() > 0 {
        let gs = fs.drop_last();
        lemma_placements_listed(gs, group);
        let rest = placements(gs, group);
        let out = placements(fs, group);
        assert forall|i: int| 0 <= i < fs.len() && group.contains(fs[i].id) implies #[trigger] listed(
            out,
            fs[i],
        ) by {
            if i < gs.len() {
                assert(gs[i] == fs[i]);
                assert(listed(rest, gs[i]));
                let k = choose|k: int|
                    0 <= k < rest.len() && #[trigger] rest[k] == placement_of(gs[i]);
                assert(out[k] == rest[k]);
            } else {
                assert(out[out.len() - 1] == placement_of(fs[i]));
            }
        }
    }
}

proof fn lemma_placements_distinct(fs: Seq<FenceModel>, group: Seq<FenceId>)
    requires
        distinct_ids(fs),
    ensures
        distinct_placements(placements(fs, group)),
    decreases fs.len(),
{
    if fs.len() > 0 {
        let gs = fs.drop_last();
        assert(distinct_ids(gs)) by {
            assert forall|i: int, j: int|
                0 <= i < gs.len() && 0 <= j < gs.len() && (#[trigger] gs[i]).id == (
                #[trigger] gs[j]).id implies i == j by {
                assert(fs[i].id == fs[j].id);
            }
        }
        lemma_placements_distinct(gs, group);
        lemma_placements_from(gs, group);
        let rest = placements(gs, group);
        let out = placements(fs, group);
        assert forall|a: int, b: int| 0 <= a < b < out.len() implies (#[trigger] out[a]).id != (
        #[trigger] out[b]).id by {
            assert(out[a] == rest[a]);
            if b < rest.len() {
                assert(out[b] == rest[b]);
            } else {
                assert(from_group(gs, group, rest[a]));
                let i = choose|i: int|
                    0 <= i < gs.len() && rest[a] == placement_of(#[trigger] gs[i])
                        && group.contains(gs[i].id);
                assert(fs[i].id == rest[a].id);
                assert(out[b] == placement_of(fs[fs.len() - 1]));
            }
        }
    }
}

/// A group of existing fences has one placement per member.
proof fn lemma_placements_len(fs: Seq<FenceModel>, group: Seq<FenceId>)
    requires
        distinct_ids(fs),
        group.no_duplicates(),
        forall|x: FenceId| #[trigger] group.contains(x) ==> has_fence(fs, x),
    ensures
        placements(fs, group).len() == group.len(),
{
    lemma_placements_from(fs, group);
    lemma_placements_listed(fs, group);
    lemma_placements_distinct(fs, group);
    let ps = placements(fs, group);
    let ids = Seq::new(ps.len(), |k: int| ps[k].id);
    assert(ids.no_duplicates()) by {
        assert forall|a: int, b: int| 0 <= a < ids.len() && 0 <= b < ids.len() && a != b implies ids[a]
            != ids[b] by {
            assert(ids[a] == ps[a].id && ids[b] == ps[b].id);
            if a < b {
                assert(ps[a].id != ps[b].id);
            } else {
                assert(ps[b].id != ps[a].id);
            }
        }
    }
    assert forall|x: FenceId| ids.to_set().contains(x) <==> group.to_set().contains(x) by {
        if ids.contains(x) {
            let k = ids.index_of(x);
            assert(ids[k] == ps[k].id);
            assert(from_group(fs, group, ps[k]));
        }
        if group.contains(x) {
            lemma_first_index(fs, x);
            let i = first_index(fs, x);
            assert(group.contains(fs[i].id));
            assert(listed(ps, fs[i]));
            let k = choose|k: int| 0 <= k < ps.len() && #[trigger] ps[k] == placement_of(fs[i]);
            assert(ids[k] == x);
        }
    }
    assert(ids.to_set() =~= group.to_set());
    ids.unique_seq_to_set();
    group.unique_seq_to_set();
}

/// Fence `r`, which is fence `i` of `gs` put back as in `fs` or not, is put back where a placement
/// names it, and not where none does.
spec fn back(
    fs: Seq<FenceModel>,
    gs: Seq<FenceModel>,
    before: Seq<PlacementModel>,
    r: FenceModel,
    i: int,
) -> bool {
    r == if exists|k: int| 0 <= k < before.len() && (#[trigger] before[k]).id == fs[i].id {
        placed(gs[i], placement_of(fs[i]))
    } else {
        gs[i]
    }
}

/// Putting placements back one by one puts each fence of `gs` that has one back as in `fs`.
proof fn lemma_restoring(
    fs: Seq<FenceModel>,
    gs: Seq<FenceModel>,
    group: Seq<FenceId>,
    before: Seq<PlacementModel>,
)
    requires
        distinct_ids(fs),
        gs.len() == fs.len(),
        forall|i: int| 0 <= i < fs.len() ==> (#[trigger] gs[i]).id == fs[i].id,
        forall|k: int|
            0 <= k < before.len() ==> #[trigger] from_group(fs, group, before[k]),
    ensures
        restored(gs, before).len() == fs.len(),
        forall|i: int|
            0 <= i < fs.len() ==> #[trigger] back(fs, gs, before, restored(gs, before)[i], i),
    decreases before.len(),
{
    if before.len() > 0 {
        let rest = before.drop_last();
        assert forall|k: int| 0 <= k < rest.len() implies #[trigger] from_group(fs, group, rest[k]) by {
            assert(rest[k] == before[k]);
            assert(from_group(fs, group, before[k]));
        }
        lemma_restoring(fs, gs, group, rest);
        let mid = restored(gs, rest);
        let p = before.last();
        assert(p == before[before.len() - 1]);
        assert(from_group(fs, group, before[before.len() - 1]));
        let at = choose|i: int|
            0 <= i < fs.len() && p == placement_of(#[trigger] fs[i]) && group.contains(fs[i].id);
        assert forall|i: int| 0 <= i < fs.len() implies (#[trigger] mid[i]).id == fs[i].id by {
            assert(back(fs, gs, rest, mid[i], i));
            assert(gs[i].id == fs[i].id);
        }
        lemma_only_one(fs, at);
        lemma_same_ids(mid, fs, p.id);
        let out = restored(gs, before);
        assert(out == restore_one(mid, p));
        assert(first_index(mid, p.id) == at);
        assert(back(fs, gs, rest, mid[at], at));
        assert(placed(mid[at], p) == placed(gs[at], p));
        assert forall|i: int| 0 <= i < fs.len() implies #[trigger] back(fs, gs, before, out[i], i) by {
            assert(back(fs, gs, rest, mid[i], i));
            if i == at {
                assert(before[before.len() - 1].id == fs[i].id);
            } else if exists|k: int| 0 <= k < before.len() && (#[trigger] before[k]).id == fs[i].id {
                let k = choose|k: int|
                    0 <= k < before.len() && (#[trigger] before[k]).id == fs[i].id;
                assert(k < rest.len()) by {
                    if k == before.len() - 1 {
                        assert(fs[at].id == fs[i].id);
                    }
                }
                assert(rest[k].id == fs[i].id);
            } else {
                assert forall|k: int| 0 <= k < rest.len() implies (#[trigger] rest[k]).id
                    != fs[i].id by {
                    assert(rest[k] == before[k]);
                }
            }
        }
    }
}

/// The same fences, each hosted by the same one. Whatever else is edited is not compared.
pub open spec fn same_hosts(a: Seq<FenceModel>, b: Seq<FenceModel>) -> bool {
    &&& a.len() == b.len()
    &&& forall|i: int|
        0 <= i < a.len() ==> (#[trigger] a[i]).id == b[i].id && a[i].tab_host == b[i].tab_host
}

proof fn lemma_same_windows(a: Seq<FenceModel>, b: Seq<FenceModel>, id: FenceId)
    requires
        same_hosts(a, b),
    ensures
        is_window(a, id) == is_window(b, id),
        has_fence(a, id) == has_fence(b, id),
        host_of(a, id) == host_of(b, id),
        is_hosted(a, id) == is_hosted(b, id),
{
    assert forall|x: FenceId| #[trigger] is_window(a, x) == is_window(b, x) by {
        if is_window(a, x) {
            let j = choose|j: int|
                0 <= j < a.len() && (#[trigger] a[j]).id == x && a[j].tab_host is None;
            assert(b[j].id == x);
        }
        if is_window(b, x) {
            let j = choose|j: int|
                0 <= j < b.len() && (#[trigger] b[j]).id == x && b[j].tab_host is None;
            assert(a[j].id == x);
        }
    }
    lemma_same_ids(a, b, id);
    if has_fence(a, id) {
        lemma_first_index(a, id);
        assert(a[first_index(a, id)].tab_host == b[first_index(a, id)].tab_host);
    }
}

/// Edits that leave the hosts alone leave each window with the tabs that it had.
proof fn lemma_same_strip(a: Seq<FenceModel>, b: Seq<FenceModel>, host: FenceId)
    requires
        same_hosts(a, b),
    ensures
        tabs_of(a, host).len() == tabs_of(b, host).len(),
        forall|x: FenceId| #[trigger] tabs_of(a, host).contains(x) <==> tabs_of(b, host).contains(x),
{
    lemma_same_windows(a, b, host);
    lemma_same_tabs(a, b);
    tabs_are_the_host_and_its_tabs(a, host);
    tabs_are_the_host_and_its_tabs(b, host);
    let x = tabs_of(a, host);
    let y = tabs_of(b, host);
    assert forall|t: FenceId| #[trigger] x.contains(t) <==> y.contains(t) by {
        assert(is_tab_of(a, t, host) == is_tab_of(b, t, host));
    }
    assert(x.to_set() =~= y.to_set());
    x.unique_seq_to_set();
    y.unique_seq_to_set();
}

/// Fence `i` once a detach was cancelled: where it stood before, with whatever was edited
/// meanwhile; a fence outside the group is left alone.
pub open spec fn put_back(
    fs: Seq<FenceModel>,
    hs: Seq<FenceModel>,
    group: Seq<FenceId>,
    i: int,
) -> FenceModel {
    if group.contains(fs[i].id) {
        placed(hs[i], placement_of(fs[i]))
    } else {
        hs[i]
    }
}

/// Cancelling a detach later on, whatever was edited meanwhile but who is hosted by whom, puts the
/// group back where it stood: hosts, strip order, active tabs and frames are those of before the
/// detach, and titles, items, sources and looks stay as they were edited. Where the owner of the
/// window left, this asks that the tab which took over had no tabs of its own, as is so of fences
/// that need no repair.
pub proof fn cancelling_a_detach_keeps_edits(
    fs: Seq<FenceModel>,
    tab: FenceId,
    hs: Seq<FenceModel>,
)
    requires
        distinct_ids(fs),
        can_detach(fs, tab),
        heir_is_free(fs, tab),
        same_hosts(hs, detached(fs, tab)),
    ensures
        ({
            let group = tabs_of(fs, host_of(fs, tab));
            let before = placements(fs, group);
            &&& can_cancel(hs, tab, remaining_host(fs, tab), before)
            &&& restored(hs, before).len() == fs.len()
            &&& forall|i: int|
                0 <= i < fs.len() ==> #[trigger] restored(hs, before)[i] == put_back(
                    fs,
                    hs,
                    group,
                    i,
                )
        }),
{
    let gs = detached(fs, tab);
    let source = host_of(fs, tab);
    let root = remaining_host(fs, tab);
    let order = tabs_of(fs, source);
    let before = placements(fs, order);
    lemma_detached_ids(fs, tab);
    lemma_rest(fs, tab);
    lemma_detach_group(fs, tab);
    lemma_tabs_after(fs, tab);
    lemma_placements_from(fs, order);
    lemma_placements_listed(fs, order);
    lemma_without(order, tab);
    lemma_same_windows(hs, gs, tab);
    lemma_same_windows(hs, gs, root);
    lemma_same_strip(hs, gs, root);
    assert forall|x: FenceId| #[trigger] order.contains(x) implies has_fence(fs, x) by {
        if x != tab {
            assert(remaining_tabs(fs, tab).contains(x));
        }
    }
    lemma_placements_len(fs, order);
    assert forall|k: int| 0 <= k < before.len() implies has_fence(hs, (#[trigger] before[k]).id) && (
    before[k].id != tab ==> tabs_of(hs, root).contains(before[k].id)) by {
        assert(from_group(fs, order, before[k]));
        let i = choose|i: int|
            0 <= i < fs.len() && before[k] == placement_of(#[trigger] fs[i]) && order.contains(
                fs[i].id,
            );
        assert(gs[i].id == before[k].id);
        assert(hs[i].id == before[k].id);
        if before[k].id != tab {
            assert(remaining_tabs(fs, tab).contains(before[k].id));
        }
    }
    assert forall|i: int| 0 <= i < fs.len() implies (#[trigger] hs[i]).id == fs[i].id by {
        assert(gs[i].id == fs[i].id);
    }
    lemma_restoring(fs, hs, order, before);
    let out = restored(hs, before);
    assert forall|i: int| 0 <= i < fs.len() implies #[trigger] out[i] == put_back(fs, hs, order, i) by {
        assert(back(fs, hs, before, out[i], i));
        if order.contains(fs[i].id) {
            assert(listed(before, fs[i]));
            let k = choose|k: int|
                0 <= k < before.len() && #[trigger] before[k] == placement_of(fs[i]);
            assert(before[k].id == fs[i].id);
        } else if exists|k: int| 0 <= k < before.len() && (#[trigger] before[k]).id == fs[i].id {
            let k = choose|k: int| 0 <= k < before.len() && (#[trigger] before[k]).id == fs[i].id;
            assert(from_group(fs, order, before[k]));
        }
    }
}

/// Cancelling right after a detach puts everything back as it was.
pub proof fn cancelling_a_detach_restores_the_fences(fs: Seq<FenceModel>, tab: FenceId)
    requires
        distinct_ids(fs),
        can_detach(fs, tab),
        heir_is_free(fs, tab),
    ensures
        can_cancel(
            detached(fs, tab),
            tab,
            remaining_host(fs, tab),
            placements(fs, tabs_of(fs, host_of(fs, tab))),
        ),
        restored(detached(fs, tab), placements(fs, tabs_of(fs, host_of(fs, tab)))) == fs,
{
    let gs = detached(fs, tab);
    let order = tabs_of(fs, host_of(fs, tab));
    let out = restored(gs, placements(fs, order));
    cancelling_a_detach_keeps_edits(fs, tab, gs);
    lemma_without(order, tab);
    lemma_detach_group(fs, tab);
    assert forall|i: int| 0 <= i < fs.len() implies out[i] == fs[i] by {
        assert(out[i] == put_back(fs, gs, order, i));
        lemma_split_is_placement(fs[i], split_of(fs, tab));
        if !order.contains(fs[i].id) {
            assert(!remaining_tabs(fs, tab).contains(fs[i].id));
        }
    }
    assert(out =~= fs);
}

/// The split changes nothing of a fence but its placement.
proof fn lemma_split_is_placement(f: FenceModel, split: Split)
    ensures
        placed(after_split(f, split), placement_of(f)) == f,
{
}

/// Fences that need no repair leave the heir of a window free.
pub proof fn normal_fences_have_free_heirs(fs: Seq<FenceModel>, tab: FenceId)
    requires
        distinct_ids(fs),
        normal(fs),
        can_detach(fs, tab),
    ensures
        heir_is_free(fs, tab),
{
    lemma_rest(fs, tab);
    if tab == host_of(fs, tab) {
        let root = remaining_host(fs, tab);
        assert(remaining_tabs(fs, tab).contains(root));
        lemma_tabs_host_nothing(fs, root, tab);
    }
}

// ---- strips and windows ---------------------------------------------------------------------

/// A tab belongs to the window that it names, where that is one; every other fence is its own.
pub proof fn a_tab_belongs_to_the_window_it_names(fs: Seq<FenceModel>, id: FenceId, i: int)
    requires
        is_first(fs, id, i),
    ensures
        fs[i].tab_host is None ==> host_of(fs, id) == id,
        fs[i].tab_host matches Some(h) ==> ((exists|j: int|
            0 <= j < fs.len() && (#[trigger] fs[j]).id == h && fs[j].tab_host is None) ==> host_of(
            fs,
            id,
        ) == h),
        fs[i].tab_host matches Some(h) ==> ((forall|j: int|
            0 <= j < fs.len() && (#[trigger] fs[j]).id == h ==> fs[j].tab_host is Some) ==> host_of(
            fs,
            id,
        ) == id),
{
    lemma_first_unique(fs, id, i);
}

/// The tab in front is the one that the window names, where that is a tab of it, else the window's
/// own.
pub proof fn the_tab_in_front_is_one_of_the_window(fs: Seq<FenceModel>, host: FenceId, i: int)
    requires
        is_first(fs, host, i),
    ensures
        fs[i].active_tab is None ==> active_tab_of(fs, host) == host,
        fs[i].active_tab matches Some(t) ==> ((exists|j: int|
            0 <= j < fs.len() && (#[trigger] fs[j]).id == t && fs[j].tab_host == Some(host))
            ==> active_tab_of(fs, host) == t),
        fs[i].active_tab matches Some(t) ==> ((forall|j: int|
            0 <= j < fs.len() && (#[trigger] fs[j]).id == t ==> fs[j].tab_host != Some(host))
            ==> active_tab_of(fs, host) == host),
{
    lemma_first_unique(fs, host, i);
}

/// The fences that name a host are its tabs, in the order of the layout.
pub proof fn tabs_keep_the_order_of_the_layout(fs: Seq<FenceModel>, host: FenceId)
    ensures
        hosted_ids(fs, host) == fs.filter(|f: FenceModel| f.tab_host == Some(host)).map_values(
            |f: FenceModel| f.id,
        ),
    decreases fs.len(),
{
    reveal(Seq::filter);
    let p = |f: FenceModel| f.tab_host == Some(host);
    let g = |f: FenceModel| f.id;
    if fs.len() > 0 {
        tabs_keep_the_order_of_the_layout(fs.drop_last(), host);
        let front = fs.drop_last().filter(p);
        assert(front.push(fs.last()).map_values(g) =~= front.map_values(g).push(g(fs.last())));
    }
}

/// Without a saved order a window's strip begins with the window's own tab, and the others follow
/// in the order of the layout.
pub proof fn an_unordered_strip_begins_with_its_window(fs: Seq<FenceModel>, host: FenceId, i: int)
    requires
        is_first(fs, host, i),
        fs[i].tab_host is None,
        fs[i].tab_order.len() == 0,
        !hosted_ids(fs, host).contains(host),
        hosted_ids(fs, host).no_duplicates(),
    ensures
        tabs_of(fs, host) == seq![host] + hosted_ids(fs, host),
{
    lemma_first_unique(fs, host, i);
    assert(fs[i].id == host);
    let strip = seq![host] + hosted_ids(fs, host);
    assert(is_window(fs, host));
    assert(only(order_of(fs, host), natural_tabs(fs, host)) =~= Seq::<FenceId>::empty());
    assert(Seq::<FenceId>::empty() + strip =~= strip);
    let rest = hosted_ids(fs, host);
    assert forall|a: int, b: int| 0 <= a < strip.len() && 0 <= b < strip.len() && a != b implies strip[a]
        != strip[b] by {
        if a > 0 && b > 0 {
            assert(strip[a] == rest[a - 1] && strip[b] == rest[b - 1]);
        } else if a == 0 {
            assert(rest.contains(rest[b - 1]));
        } else {
            assert(rest.contains(rest[a - 1]));
        }
    }
    lemma_dedup_of_unique(strip);
}

/// A tab that is moved in its strip stands where it was put, or last where that is past the end;
/// the other tabs keep their order.
pub proof fn a_moved_tab_stands_where_it_was_put(strip: Seq<FenceId>, tab: FenceId, to: int)
    requires
        strip.no_duplicates(),
        strip.contains(tab),
        to >= 0,
    ensures
        moved_to(strip, tab, to).len() == strip.len(),
        moved_to(strip, tab, to)[if to < strip.len() {
            to
        } else {
            strip.len() - 1
        }] == tab,
        without(moved_to(strip, tab, to), tab) == without(strip, tab),
{
    let from = strip.index_of(tab);
    let rest = strip.remove(from);
    let at = if to < rest.len() {
        to
    } else {
        rest.len() as int
    };
    let out = moved_to(strip, tab, to);
    lemma_moved(strip, tab, to);
    lemma_without_one(strip, tab, from);
    lemma_without_one(out, tab, at);
    assert(out.remove(at) =~= rest);
}

proof fn lemma_without_one(s: Seq<FenceId>, x: FenceId, i: int)
    requires
        s.no_duplicates(),
        0 <= i < s.len(),
        s[i] == x,
    ensures
        without(s, x) == s.remove(i),
    decreases s.len(),
{
    let t = s.drop_last();
    if i == s.len() - 1 {
        lemma_without_none(t, x);
        assert(s.remove(i) =~= t);
    } else {
        lemma_without_one(t, x, i);
        assert(s.last() != x);
        assert(s.remove(i) =~= t.remove(i).push(s.last()));
    }
}

proof fn lemma_without_none(s: Seq<FenceId>, x: FenceId)
    requires
        !s.contains(x),
    ensures
        without(s, x) == s,
    decreases s.len(),
{
    if s.len() > 0 {
        let t = s.drop_last();
        assert(s.contains(s.last()));
        if t.contains(x) {
            assert(s[t.index_of(x)] == x);
        }
        lemma_without_none(t, x);
        assert(s =~= t.push(s.last()));
    }
}

/// Where the tab in front leaves its window, the next one in the strip comes to the front, or the
/// one before it where it was the last; where another tab leaves, the front stays.
pub proof fn the_neighbour_comes_to_the_front(
    fs: Seq<FenceModel>,
    tab: FenceId,
    left: Seq<FenceId>,
    right: Seq<FenceId>,
)
    requires
        tabs_of(fs, host_of(fs, tab)) == left.push(tab) + right,
    ensures
        active_tab_of(fs, host_of(fs, tab)) != tab ==> next_active(fs, tab) == active_tab_of(
            fs,
            host_of(fs, tab),
        ),
        active_tab_of(fs, host_of(fs, tab)) == tab && right.len() > 0 ==> next_active(fs, tab)
            == right[0],
        active_tab_of(fs, host_of(fs, tab)) == tab && right.len() == 0 && left.len() > 0
            ==> next_active(fs, tab) == left.last(),
        remaining_tabs(fs, tab) == left + right,
        host_of(fs, tab) != tab ==> remaining_host(fs, tab) == host_of(fs, tab),
        host_of(fs, tab) == tab && left.len() > 0 ==> remaining_host(fs, tab) == left[0],
        host_of(fs, tab) == tab && left.len() == 0 && right.len() > 0 ==> remaining_host(fs, tab)
            == right[0],
{
    let strip = left.push(tab) + right;
    let k = left.len() as int;
    tabs_are_the_host_and_its_tabs(fs, host_of(fs, tab));
    assert(strip[k] == tab);
    assert(strip.contains(tab));
    assert(strip.index_of(tab) == k);
    lemma_without_one(strip, tab, k);
    assert(strip.remove(k) =~= left + right);
}

/// A fence whose host is missing, or is itself, becomes a window of its own.
pub proof fn a_tab_without_a_host_becomes_a_window(fs: Seq<FenceModel>, i: int)
    requires
        0 <= i < fs.len(),
        fs[i].tab_host matches Some(h) ==> h == fs[i].id || !has_fence(fs, h),
    ensures
        repaired(fs)[i].tab_host is None,
{
    lemma_walk_end(fs, i, fs.len());
}

/// Repairing changes nothing about a fence but its place among the tabs.
pub proof fn repair_only_changes_tabs(fs: Seq<FenceModel>, i: int)
    requires
        0 <= i < fs.len(),
    ensures
        repaired(fs).len() == fs.len(),
        repaired(fs)[i] == (FenceModel {
            tab_host: repaired(fs)[i].tab_host,
            active_tab: repaired(fs)[i].active_tab,
            tab_order: repaired(fs)[i].tab_order,
            ..fs[i]
        }),
        repaired(fs)[i].active_tab is Some ==> repaired(fs)[i].active_tab == fs[i].active_tab,
{
}

/// The windows are the fences that are no tabs, in their order.
pub proof fn windows_keep_the_order_of_fences(fs: Seq<FenceModel>)
    ensures
        windows(fs) == fs.filter(|f: FenceModel| f.tab_host is None),
    decreases fs.len(),
{
    reveal(Seq::filter);
    if fs.len() > 0 {
        windows_keep_the_order_of_fences(fs.drop_last());
    }
}

/// A fence can become a tab of a window that it does not belong to yet.
pub proof fn only_fences_of_other_windows_are_attached(
    fs: Seq<FenceModel>,
    fence: FenceId,
    host: FenceId,
)
    requires
        has_fence(fs, fence),
        has_fence(fs, host_of(fs, host)),
    ensures
        host_of(fs, fence) == host_of(fs, host) ==> !can_attach(fs, fence, host),
        fence == host_of(fs, host) ==> !can_attach(fs, fence, host),
        host_of(fs, fence) != host_of(fs, host) && fence != host_of(fs, host) ==> can_attach(
            fs,
            fence,
            host,
        ),
{
}

} // verus!
