//! Running the filing rules over the desktop, and the rules that templates add.

use crate::config::{
    can_file, fence_of, filed_item_is_in_one_fence, filing_keeps_other_items, holder_position, holds,
    is_holder, lemma_refs_without, refs_without, with_item,
};
use crate::filing::{
    entry_key, files, inbox_at, is_inbox, same_but_files, sent, target_of, DesktopEntry, FilesModel,
};
use crate::model::{
    key_text, AssignedBy, Cond, Decision, Fence, FenceId, FenceKind, FenceModel, ItemId, ItemKey,
    Origin, Rule, RuleId, Target,
};
use crate::state::{fences, in_use, AppState};
use crate::tab_repair::lemma_same_ids;
use crate::tabs::{first_index, has_fence, lemma_first_index};
use vstd::prelude::*;

verus! {

/// The rule depends on the clock.
pub open spec fn has_idle(r: Rule) -> bool {
    exists|k: int| 0 <= k < r.all_of@.len() && (#[trigger] r.all_of@[k]) is IdleDays
}

/// Whether a rule depends on the clock.
pub fn has_idle_cond(rule: &Rule) -> (r: bool)
    ensures
        r == has_idle(*rule),
{
    let n: usize = rule.all_of.len();
    for k in 0..n
        invariant
            n == rule.all_of.len(),
            forall|j: int| 0 <= j < k ==> !((#[trigger] rule.all_of@[j]) is IdleDays),
    {
        match rule.all_of[k] {
            Cond::IdleDays { .. } => {
                assert(rule.all_of@[k as int] is IdleDays);
                return true;
            },
            Cond::Facts => {},
        }
    }
    false
}

/// Rule `id` is on the list and depends on the clock.
pub open spec fn is_idle_rule(list: Seq<Rule>, id: RuleId) -> bool {
    exists|k: int| 0 <= k < list.len() && (#[trigger] list[k]).id == id && has_idle(list[k])
}

fn idle_rule(list: &Vec<Rule>, id: RuleId) -> (r: bool)
    ensures
        r == is_idle_rule(list@, id),
{
    let n: usize = list.len();
    for k in 0..n
        invariant
            n == list.len(),
            forall|j: int| 0 <= j < k ==> (#[trigger] list@[j]).id != id || !has_idle(list@[j]),
    {
        if list[k].id == id && has_idle_cond(&list[k]) {
            assert(list@[k as int].id == id);
            return true;
        }
    }
    false
}

/// The user put the item where it is.
pub open spec fn pinned(fs: Seq<FenceModel>, id: ItemId) -> bool {
    exists|i: int| #[trigger] is_holder(fs, id, i) && placed_by_user(fs[i], id)
}

pub open spec fn placed_by_user(f: FenceModel, id: ItemId) -> bool {
    exists|k: int|
        0 <= k < f.items.len() && (#[trigger] f.items[k]).item_id == id && f.items[k].assigned_by
            == AssignedBy::User
}

fn user_placed(f: &Fence, id: ItemId) -> (r: bool)
    ensures
        r == placed_by_user(f@, id),
{
    let n: usize = f.items.len();
    for k in 0..n
        invariant
            n == f.items.len(),
            forall|j: int|
                0 <= j < k ==> (#[trigger] f.items@[j]).item_id != id || f.items@[j].assigned_by
                    != AssignedBy::User,
    {
        if f.items[k].item_id == id && f.items[k].assigned_by == AssignedBy::User {
            assert(f@.items[k as int].item_id == id);
            return true;
        }
    }
    false
}

/// The item that the rules may move for an entry: one that the catalog knows, whose place the
/// user has not chosen and, where only rules that depend on the clock run, one that such a rule
/// decides.
pub open spec fn ruled_item(
    a: FilesModel,
    e: DesktopEntry,
    list: Seq<Rule>,
    idle_only: bool,
) -> Option<ItemId> {
    if e.origin != Origin::Namespace && a.catalog.contains_key(entry_key(e)) && !pinned(
        a.fences,
        a.catalog[entry_key(e)],
    ) && (idle_only ==> match e.ruling {
        Decision::Route { rule, .. } => is_idle_rule(list, rule),
        _ => false,
    }) {
        Some(a.catalog[entry_key(e)])
    } else {
        None
    }
}

/// Whether filing an item where the rules say moves it.
pub open spec fn rule_moves(a: FilesModel, id: ItemId, e: DesktopEntry) -> bool {
    match target_of(a.fences, e.ruling) {
        Some((to, _)) => can_file(a.fences, id, to),
        None => false,
    }
}

/// The files once the rules ran over `entries`, the k-th one at `times[k]`, and how many items
/// moved.
pub open spec fn ruled(
    a: FilesModel,
    entries: Seq<DesktopEntry>,
    list: Seq<Rule>,
    idle_only: bool,
    times: Seq<i64>,
) -> (FilesModel, nat)
    decreases entries.len(),
{
    if entries.len() == 0 {
        (a, 0)
    } else {
        let (b, n) = ruled(a, entries.drop_last(), list, idle_only, times.drop_last());
        let e = entries.last();
        match ruled_item(b, e, list, idle_only) {
            Some(id) => (
                sent(b, id, target_of(b.fences, e.ruling), times.last()),
                n + if rule_moves(b, id, e) {
                    1nat
                } else {
                    0nat
                },
            ),
            None => (b, n),
        }
    }
}

/// The rules ran over `entries` and moved `n` items.
pub open spec fn rules_ran(
    a: FilesModel,
    b: FilesModel,
    entries: Seq<DesktopEntry>,
    list: Seq<Rule>,
    idle_only: bool,
    n: nat,
) -> bool {
    exists|times: Seq<i64>| #[trigger]
        times.len() == entries.len() && ruled(a, entries, list, idle_only, times).1 == n && b == (
        FilesModel { dirty: a.dirty || n > 0, ..ruled(a, entries, list, idle_only, times).0 })
}

impl AppState {
    fn ruled_item(&self, e: &DesktopEntry, idle_only: bool) -> (r: Option<ItemId>)
        requires
            in_use(*self),
        ensures
            r == ruled_item(files(*self), *e, self.config.rules.list@, idle_only),
    {
        if e.origin == Origin::Namespace {
            return None;
        }
        let key = ItemKey::from_path(e.path.as_str());
        assert(key_text(key) == entry_key(*e));
        let id: ItemId = match self.catalog.get(&key) {
            Some(id) => id,
            None => {
                return None;
            },
        };
        let all = &self.config.layouts[self.layout].fences;
        let ghost fs = fences(*self);
        if let Some(i) = holder_position(all, id) {
            assert(fs[i as int] == all@[i as int]@);
            if user_placed(&all[i], id) {
                assert(pinned(fs, id));
                return None;
            }
            assert(!pinned(fs, id)) by {
                if pinned(fs, id) {
                    let j = choose|j: int| #[trigger]
                        is_holder(fs, id, j) && placed_by_user(fs[j], id);
                    crate::config::lemma_holder_unique(fs, id, i as int);
                    crate::config::lemma_holder_unique(fs, id, j);
                }
            }
        } else {
            assert(!pinned(fs, id)) by {
                if pinned(fs, id) {
                    let j = choose|j: int| #[trigger]
                        is_holder(fs, id, j) && placed_by_user(fs[j], id);
                    assert(holds(fs[j], id));
                }
            }
        }
        if idle_only {
            let by_idle = match e.ruling {
                Decision::Route { target: _, rule } => idle_rule(&self.config.rules.list, rule),
                _ => false,
            };
            if !by_idle {
                return None;
            }
        }
        Some(id)
    }

    fn apply_rules_filtered(&mut self, entries: &Vec<DesktopEntry>, idle_only: bool) -> (r: usize)
        requires
            in_use(*old(self)),
        ensures
            rules_ran(
                files(*old(self)),
                files(*final(self)),
                entries@,
                old(self).config.rules.list@,
                idle_only,
                r as nat,
            ),
            same_but_files(*final(self), *old(self)),
    {
        let ghost a = files(*self);
        let ghost list = self.config.rules.list@;
        let ghost mut times: Seq<i64> = Seq::empty();
        let mut moved: usize = 0;
        let n: usize = entries.len();
        for k in 0..n
            invariant
                n == entries.len(),
                in_use(*self),
                same_but_files(*self, *old(self)),
                list == old(self).config.rules.list@,
                a == files(*old(self)),
                times.len() == k,
                moved <= k,
                (files(*self), moved as nat) == ruled(
                    a,
                    entries@.take(k as int),
                    list,
                    idle_only,
                    times,
                ),
                self.dirty == a.dirty,
        {
            proof {
                assert(entries@.take(k + 1).drop_last() == entries@.take(k as int));
                assert(entries@.take(k + 1).last() == entries@[k as int]);
            }
            let ghost b = files(*self);
            let e = &entries[k];
            let ghost mut ts: i64 = 0;
            if let Some(id) = self.ruled_item(e, idle_only) {
                let target = self.target_fence(e.ruling);
                let done = self.send_item(id, target);
                proof {
                    ts = choose|ts: i64| files(*self) == #[trigger] sent(b, id, target, ts);
                }
                if done {
                    moved = moved + 1;
                }
            }
            proof {
                let old_times = times;
                times = times.push(ts);
                assert(times.drop_last() == old_times);
            }
        }
        assert(entries@.take(n as int) == entries@);
        if moved > 0 {
            self.dirty = true;
        }
        assert(times.len() == entries@.len());
        moved
    }

    /// Runs the rules over every entry. What the user placed stays. Returns how many items moved.
    pub fn apply_rules_all(&mut self, entries: &Vec<DesktopEntry>) -> (r: usize)
        requires
            in_use(*old(self)),
        ensures
            rules_ran(
                files(*old(self)),
                files(*final(self)),
                entries@,
                old(self).config.rules.list@,
                false,
                r as nat,
            ),
            same_but_files(*final(self), *old(self)),
    {
        self.apply_rules_filtered(entries, false)
    }

    /// Runs the rules that depend on the clock: only an item that such a rule decides moves.
    pub fn apply_idle_rules(&mut self, entries: &Vec<DesktopEntry>) -> (r: usize)
        requires
            in_use(*old(self)),
        ensures
            rules_ran(
                files(*old(self)),
                files(*final(self)),
                entries@,
                old(self).config.rules.list@,
                true,
                r as nat,
            ),
            same_but_files(*final(self), *old(self)),
    {
        self.apply_rules_filtered(entries, true)
    }
}

/// The rules never move an item that the user placed.
pub proof fn rules_respect_the_user(a: FilesModel, e: DesktopEntry, list: Seq<Rule>, idle_only: bool)
    requires
        a.catalog.contains_key(entry_key(e)),
        pinned(a.fences, a.catalog[entry_key(e)]),
    ensures
        ruled_item(a, e, list, idle_only) is None,
{
}

// ---- what the rules do to one item ----------------------------------------------------------

/// A rule with a condition on idle days made the decision.
pub open spec fn clock_decides(list: Seq<Rule>, d: Decision) -> bool {
    exists|k: int, c: int|
        0 <= k < list.len() && 0 <= c < list[k].all_of@.len() && d is Route && list[k].id
            == d->rule && (#[trigger] list[k].all_of@[c]) is IdleDays
}

/// The entry is a file whose item is `id`.
pub open spec fn is_entry_of(a: FilesModel, e: DesktopEntry, id: ItemId) -> bool {
    e.origin != Origin::Namespace && a.catalog.contains_key(entry_key(e))
        && a.catalog[entry_key(e)] == id
}

/// Entry `k` is a file whose item is `id`, and the rules that run decide on it.
pub open spec fn decides_on(
    a: FilesModel,
    entries: Seq<DesktopEntry>,
    list: Seq<Rule>,
    idle_only: bool,
    id: ItemId,
    k: int,
) -> bool {
    &&& 0 <= k < entries.len()
    &&& is_entry_of(a, entries[k], id)
    &&& idle_only ==> clock_decides(list, entries[k].ruling)
}

proof fn lemma_clock_decides(list: Seq<Rule>, d: Decision)
    ensures
        clock_decides(list, d) <==> d is Route && is_idle_rule(list, d->rule),
{
    if clock_decides(list, d) {
        let (k, c) = choose|k: int, c: int|
            0 <= k < list.len() && 0 <= c < list[k].all_of@.len() && d is Route && list[k].id
                == d->rule && (#[trigger] list[k].all_of@[c]) is IdleDays;
        assert(has_idle(list[k]));
        assert(list[k].id == d->rule);
    }
    if d is Route && is_idle_rule(list, d->rule) {
        let k = choose|k: int|
            0 <= k < list.len() && (#[trigger] list[k]).id == d->rule && has_idle(list[k]);
        let c = choose|c: int|
            0 <= c < list[k].all_of@.len() && (#[trigger] list[k].all_of@[c]) is IdleDays;
        assert(list[k].all_of@[c] is IdleDays);
    }
}

/// The same fences, with other items in them.
pub(crate) open spec fn same_frames(a: Seq<FenceModel>, b: Seq<FenceModel>) -> bool {
    &&& a.len() == b.len()
    &&& forall|i: int|
        0 <= i < a.len() ==> (#[trigger] a[i]).id == b[i].id && a[i].kind == b[i].kind
            && a[i].content == b[i].content
}

proof fn lemma_same_targets(a: Seq<FenceModel>, b: Seq<FenceModel>, d: Decision)
    requires
        same_frames(a, b),
    ensures
        target_of(a, d) == target_of(b, d),
{
    assert forall|x: FenceId| #[trigger] has_fence(a, x) == has_fence(b, x) && (has_fence(a, x)
        ==> first_index(a, x) == first_index(b, x)) by {
        lemma_same_ids(a, b, x);
    }
    assert forall|i: int| is_inbox(a, i) <==> is_inbox(b, i) by {
        if is_inbox(a, i) {
            assert forall|j: int| 0 <= j < i implies (#[trigger] b[j]).kind != FenceKind::Inbox by {
                assert(a[j].kind != FenceKind::Inbox);
            }
            assert(a[i].kind == b[i].kind);
        }
        if is_inbox(b, i) {
            assert forall|j: int| 0 <= j < i implies (#[trigger] a[j]).kind != FenceKind::Inbox by {
                assert(b[j].kind != FenceKind::Inbox);
            }
            assert(a[i].kind == b[i].kind);
        }
    }
    if exists|i: int| is_inbox(a, i) {
        let i = choose|i: int| is_inbox(a, i);
        let j = inbox_at(a);
        let k = inbox_at(b);
        assert(is_inbox(a, j) && is_inbox(b, k));
        if j < k {
            assert(b[j].kind != FenceKind::Inbox);
        } else if k < j {
            assert(a[k].kind != FenceKind::Inbox);
        }
        assert(a[j].id == b[j].id);
    }
    if let Decision::Route { target: Target::Fence(t), .. } = d {
        if has_fence(a, t) {
            lemma_first_index(a, t);
            assert(a[first_index(a, t)].kind == b[first_index(a, t)].kind);
        }
    }
    if let Decision::Default(Target::Fence(t)) = d {
        if has_fence(a, t) {
            lemma_first_index(a, t);
            assert(a[first_index(a, t)].kind == b[first_index(a, t)].kind);
        }
    }
}

/// Filing one item leaves the frames of the fences, and where another one is and who put it there.
pub(crate) proof fn lemma_sent(
    a: FilesModel,
    id: ItemId,
    target: Option<(FenceId, AssignedBy)>,
    ts: i64,
    other: ItemId,
)
    ensures
        ({
            let b = sent(a, id, target, ts);
            &&& same_frames(a.fences, b.fences)
            &&& b.catalog == a.catalog
            &&& b.items == a.items
            &&& other != id ==> fence_of(b.fences, other) == fence_of(a.fences, other) && pinned(
                b.fences,
                other,
            ) == pinned(a.fences, other)
            &&& target is Some && can_file(a.fences, id, (target->0).0) ==> fence_of(b.fences, id)
                == Some((target->0).0)
        }),
{
    if let Some((to, by)) = target {
        if can_file(a.fences, id, to) {
            let fs = a.fences;
            let gs = with_item(fs, id, to, by);
            filed_item_is_in_one_fence(fs, id, to, by);
            lemma_first_index(fs, to);
            if other != id {
                filing_keeps_other_items(fs, id, to, by, other);
                assert forall|i: int| 0 <= i < fs.len() implies placed_by_user(
                    #[trigger] gs[i],
                    other,
                ) == placed_by_user(fs[i], other) by {
                    lemma_refs_without(fs[i].items, id);
                    let base = refs_without(fs[i].items, id);
                    if placed_by_user(fs[i], other) {
                        let k = choose|k: int|
                            0 <= k < fs[i].items.len() && (#[trigger] fs[i].items[k]).item_id == other
                                && fs[i].items[k].assigned_by == AssignedBy::User;
                        let r = fs[i].items[k];
                        assert(fs[i].items.contains(r));
                        assert(base.contains(r));
                        assert(gs[i].items[base.index_of(r)] == r);
                    }
                    if placed_by_user(gs[i], other) {
                        let k = choose|k: int|
                            0 <= k < gs[i].items.len() && (#[trigger] gs[i].items[k]).item_id == other
                                && gs[i].items[k].assigned_by == AssignedBy::User;
                        let r = gs[i].items[k];
                        assert(k < base.len());
                        assert(base[k] == r);
                        assert(base.contains(r));
                        assert(fs[i].items.contains(r));
                        assert(fs[i].items[fs[i].items.index_of(r)] == r);
                    }
                }
                assert forall|i: int| is_holder(gs, other, i) <==> is_holder(fs, other, i) by {
                    if is_holder(fs, other, i) {
                        assert(holds(gs[i], other));
                        assert forall|j: int| 0 <= j < i implies !holds(#[trigger] gs[j], other) by {
                            assert(!holds(fs[j], other));
                        }
                    }
                    if is_holder(gs, other, i) {
                        assert(holds(gs[i], other));
                        assert forall|j: int| 0 <= j < i implies !holds(#[trigger] fs[j], other) by {
                            assert(!holds(gs[j], other));
                        }
                    }
                }
                if pinned(fs, other) {
                    let i = choose|i: int| #[trigger]
                        is_holder(fs, other, i) && placed_by_user(fs[i], other);
                    assert(is_holder(gs, other, i) && placed_by_user(gs[i], other));
                }
                if pinned(gs, other) {
                    let i = choose|i: int| #[trigger]
                        is_holder(gs, other, i) && placed_by_user(gs[i], other);
                    assert(is_holder(fs, other, i) && placed_by_user(fs[i], other));
                }
            }
        }
    }
}

/// An item that the user placed, or that no entry decides on, stays as it is.
proof fn lemma_ruled(
    a: FilesModel,
    entries: Seq<DesktopEntry>,
    list: Seq<Rule>,
    idle_only: bool,
    times: Seq<i64>,
    id: ItemId,
)
    ensures
        ({
            let (b, n) = ruled(a, entries, list, idle_only, times);
            &&& same_frames(a.fences, b.fences)
            &&& b.catalog == a.catalog
            &&& b.items == a.items
            &&& n <= entries.len()
            &&& n == 0 ==> b.fences == a.fences && b.undo_log == a.undo_log
            &&& pinned(a.fences, id) || (forall|k: int| !#[trigger]
                decides_on(a, entries, list, idle_only, id, k)) ==> fence_of(b.fences, id)
                == fence_of(a.fences, id) && pinned(b.fences, id) == pinned(a.fences, id)
        }),
    decreases entries.len(),
{
    if entries.len() > 0 {
        let front = entries.drop_last();
        let e = entries.last();
        lemma_ruled(a, front, list, idle_only, times.drop_last(), id);
        let (mid, m) = ruled(a, front, list, idle_only, times.drop_last());
        if forall|k: int| !#[trigger] decides_on(a, entries, list, idle_only, id, k) {
            assert forall|k: int| !#[trigger] decides_on(a, front, list, idle_only, id, k) by {
                if decides_on(a, front, list, idle_only, id, k) {
                    assert(front[k] == entries[k]);
                    assert(decides_on(a, entries, list, idle_only, id, k));
                }
            }
        }
        lemma_clock_decides(list, e.ruling);
        if let Some(x) = ruled_item(mid, e, list, idle_only) {
            lemma_sent(mid, x, target_of(mid.fences, e.ruling), times.last(), id);
            if x == id {
                assert(decides_on(a, entries, list, idle_only, id, entries.len() - 1));
            }
        }
    }
}

/// The rules leave an item alone that the user placed, and move another one only for an entry that
/// is its file, and on the hourly sweep only where a rule with a condition on idle days decided.
pub proof fn only_what_a_rule_decides_on_moves(
    a: FilesModel,
    b: FilesModel,
    entries: Seq<DesktopEntry>,
    list: Seq<Rule>,
    idle_only: bool,
    n: nat,
    id: ItemId,
)
    requires
        rules_ran(a, b, entries, list, idle_only, n),
        fence_of(b.fences, id) != fence_of(a.fences, id),
    ensures
        !pinned(a.fences, id),
        exists|k: int| decides_on(a, entries, list, idle_only, id, k),
{
    let times = choose|times: Seq<i64>| #[trigger]
        times.len() == entries.len() && ruled(a, entries, list, idle_only, times).1 == n && b == (
        FilesModel { dirty: a.dirty || n > 0, ..ruled(a, entries, list, idle_only, times).0 });
    lemma_ruled(a, entries, list, idle_only, times, id);
}

/// The rules change nothing but in which fence items are, and the log of that; where none moved,
/// nothing at all, and where one did, there is something to save.
pub proof fn rules_only_move_items(
    a: FilesModel,
    b: FilesModel,
    entries: Seq<DesktopEntry>,
    list: Seq<Rule>,
    idle_only: bool,
    n: nat,
)
    requires
        rules_ran(a, b, entries, list, idle_only, n),
    ensures
        b.items == a.items,
        b.catalog == a.catalog,
        n == 0 ==> b == a,
        n > 0 ==> b.dirty,
        b.fences.len() == a.fences.len(),
        forall|i: int|
            0 <= i < a.fences.len() ==> (#[trigger] b.fences[i]).id == a.fences[i].id,
{
    let times = choose|times: Seq<i64>| #[trigger]
        times.len() == entries.len() && ruled(a, entries, list, idle_only, times).1 == n && b == (
        FilesModel { dirty: a.dirty || n > 0, ..ruled(a, entries, list, idle_only, times).0 });
    lemma_ruled(a, entries, list, idle_only, times, 0);
    lemma_ruled_dirty(a, entries, list, idle_only, times);
    assert forall|i: int| 0 <= i < a.fences.len() implies (#[trigger] b.fences[i]).id
        == a.fences[i].id by {
        assert(a.fences[i].id == b.fences[i].id);
    }
}

proof fn lemma_ruled_dirty(
    a: FilesModel,
    entries: Seq<DesktopEntry>,
    list: Seq<Rule>,
    idle_only: bool,
    times: Seq<i64>,
)
    ensures
        ruled(a, entries, list, idle_only, times).0.dirty == a.dirty,
    decreases entries.len(),
{
    if entries.len() > 0 {
        lemma_ruled_dirty(a, entries.drop_last(), list, idle_only, times.drop_last());
    }
}

/// No other entry is of the item.
pub open spec fn only_entry(a: FilesModel, entries: Seq<DesktopEntry>, id: ItemId, k: int) -> bool {
    forall|j: int| 0 <= j < entries.len() && j != k ==> !is_entry_of(a, #[trigger] entries[j], id)
}

proof fn lemma_ruled_to(
    a: FilesModel,
    entries: Seq<DesktopEntry>,
    list: Seq<Rule>,
    idle_only: bool,
    times: Seq<i64>,
    id: ItemId,
    k: int,
    to: FenceId,
)
    requires
        decides_on(a, entries, list, idle_only, id, k),
        only_entry(a, entries, id, k),
        !pinned(a.fences, id),
        target_of(a.fences, entries[k].ruling) matches Some((x, _)) && x == to,
        has_fence(a.fences, to),
        a.fences[first_index(a.fences, to)].content is Files,
    ensures
        fence_of(ruled(a, entries, list, idle_only, times).0.fences, id) == Some(to),
    decreases entries.len(),
{
    let front = entries.drop_last();
    let e = entries.last();
    let (mid, m) = ruled(a, front, list, idle_only, times.drop_last());
    lemma_ruled(a, front, list, idle_only, times.drop_last(), id);
    if k < front.len() {
        assert(front[k] == entries[k]);
        assert forall|j: int| 0 <= j < front.len() && j != k implies !is_entry_of(
            a,
            #[trigger] front[j],
            id,
        ) by {
            assert(front[j] == entries[j]);
        }
        lemma_ruled_to(a, front, list, idle_only, times.drop_last(), id, k, to);
        if let Some(x) = ruled_item(mid, e, list, idle_only) {
            assert(!is_entry_of(a, entries[entries.len() - 1], id));
            lemma_sent(mid, x, target_of(mid.fences, e.ruling), times.last(), id);
        }
    } else {
        assert forall|j: int| !#[trigger] decides_on(a, front, list, idle_only, id, j) by {
            if decides_on(a, front, list, idle_only, id, j) {
                assert(front[j] == entries[j]);
                assert(!is_entry_of(a, entries[j], id));
            }
        }
        lemma_clock_decides(list, e.ruling);
        lemma_same_targets(a.fences, mid.fences, e.ruling);
        lemma_same_ids(mid.fences, a.fences, to);
        lemma_first_index(a.fences, to);
        assert(ruled_item(mid, e, list, idle_only) == Some(id));
        lemma_sent(mid, id, target_of(mid.fences, e.ruling), times.last(), id);
    }
}

/// An item that the user has not placed ends where the rules decided: in the fence that they name,
/// where it is there and shows no folder, or else in the inbox. The hourly sweep does so where a
/// rule with a condition on idle days decided.
pub proof fn items_end_where_the_rules_decide(
    a: FilesModel,
    b: FilesModel,
    entries: Seq<DesktopEntry>,
    list: Seq<Rule>,
    idle_only: bool,
    n: nat,
    id: ItemId,
    k: int,
    target: Target,
    rule: RuleId,
    inbox: int,
)
    requires
        rules_ran(a, b, entries, list, idle_only, n),
        decides_on(a, entries, list, idle_only, id, k),
        only_entry(a, entries, id, k),
        !pinned(a.fences, id),
        entries[k].ruling == (Decision::Route { target, rule }) || entries[k].ruling
            == Decision::Default(target),
        0 <= inbox < a.fences.len(),
        a.fences[inbox].kind == FenceKind::Inbox,
        forall|i: int| 0 <= i < inbox ==> (#[trigger] a.fences[i]).kind != FenceKind::Inbox,
        a.fences[first_index(a.fences, a.fences[inbox].id)].content is Files,
        target is Fence && has_fence(a.fences, target->0) ==> a.fences[first_index(
            a.fences,
            target->0,
        )].content is Files,
    ensures
        match target {
            Target::Fence(t) if has_fence(a.fences, t) && a.fences[first_index(a.fences, t)].kind
                != FenceKind::FolderPortal => fence_of(b.fences, id) == Some(t),
            _ => fence_of(b.fences, id) == Some(a.fences[inbox].id),
        },
{
    let times = choose|times: Seq<i64>| #[trigger]
        times.len() == entries.len() && ruled(a, entries, list, idle_only, times).1 == n && b == (
        FilesModel { dirty: a.dirty || n > 0, ..ruled(a, entries, list, idle_only, times).0 });
    assert(is_inbox(a.fences, inbox));
    let j = inbox_at(a.fences);
    assert(is_inbox(a.fences, j));
    if j < inbox {
        assert(a.fences[j].kind != FenceKind::Inbox);
    } else if inbox < j {
        assert(a.fences[inbox].kind != FenceKind::Inbox);
    }
    let to = (target_of(a.fences, entries[k].ruling)->0).0;
    assert(has_fence(a.fences, a.fences[inbox].id));
    lemma_first_index(a.fences, to);
    lemma_ruled_to(a, entries, list, idle_only, times, id, k, to);
}

/// The rules leave an item alone where the first fence that lists it has it from the user, and no
/// other item.
pub proof fn only_the_user_pins_an_item(fs: Seq<FenceModel>, id: ItemId)
    ensures
        pinned(fs, id) <==> exists|i: int, k: int|
            0 <= i < fs.len() && 0 <= k < fs[i].items.len() && (#[trigger] fs[i].items[k]).item_id == id
                && fs[i].items[k].assigned_by is User && forall|j: int, m: int|
                0 <= j < i && 0 <= m < fs[j].items.len() ==> (#[trigger] fs[j].items[m]).item_id != id,
{
    if pinned(fs, id) {
        let i = choose|i: int| #[trigger] is_holder(fs, id, i) && placed_by_user(fs[i], id);
        let k = choose|k: int|
            0 <= k < fs[i].items.len() && (#[trigger] fs[i].items[k]).item_id == id
                && fs[i].items[k].assigned_by == AssignedBy::User;
        assert forall|j: int, m: int| 0 <= j < i && 0 <= m < fs[j].items.len() implies (
        #[trigger] fs[j].items[m]).item_id != id by {
            assert(!holds(fs[j], id));
        }
        assert(fs[i].items[k].item_id == id);
    }
    if exists|i: int, k: int|
        0 <= i < fs.len() && 0 <= k < fs[i].items.len() && (#[trigger] fs[i].items[k]).item_id == id
            && fs[i].items[k].assigned_by is User && forall|j: int, m: int|
            0 <= j < i && 0 <= m < fs[j].items.len() ==> (#[trigger] fs[j].items[m]).item_id != id {
        let (i, k) = choose|i: int, k: int|
            0 <= i < fs.len() && 0 <= k < fs[i].items.len() && (#[trigger] fs[i].items[k]).item_id
                == id && fs[i].items[k].assigned_by is User && forall|j: int, m: int|
                0 <= j < i && 0 <= m < fs[j].items.len() ==> (#[trigger] fs[j].items[m]).item_id
                    != id;
        assert(holds(fs[i], id));
        assert(is_holder(fs, id, i));
        assert(placed_by_user(fs[i], id));
    }
}

/// The items that are in another fence than before.
pub open spec fn moved_items(a: FilesModel, b: FilesModel) -> Set<ItemId> {
    Set::new(|id: ItemId| fence_of(a.fences, id) != fence_of(b.fences, id))
}

/// Where each entry is of another item, the number that the rules return is that of the items that
/// are in another fence than before.
pub proof fn moved_items_are_counted(
    a: FilesModel,
    b: FilesModel,
    entries: Seq<DesktopEntry>,
    list: Seq<Rule>,
    idle_only: bool,
    n: nat,
)
    requires
        rules_ran(a, b, entries, list, idle_only, n),
        forall|i: int, j: int|
            0 <= i < j < entries.len() && a.catalog.contains_key(entry_key(#[trigger] entries[i]))
                && a.catalog.contains_key(entry_key(#[trigger] entries[j]))
                ==> a.catalog[entry_key(entries[i])] != a.catalog[entry_key(entries[j])],
    ensures
        moved_items(a, b).finite(),
        moved_items(a, b).len() == n,
{
    let times = choose|times: Seq<i64>| #[trigger]
        times.len() == entries.len() && ruled(a, entries, list, idle_only, times).1 == n && b == (
        FilesModel { dirty: a.dirty || n > 0, ..ruled(a, entries, list, idle_only, times).0 });
    lemma_moved_counted(a, entries, list, idle_only, times);
    assert(moved_items(a, b) =~= moved_items(a, ruled(a, entries, list, idle_only, times).0));
}

proof fn lemma_moved_counted(
    a: FilesModel,
    entries: Seq<DesktopEntry>,
    list: Seq<Rule>,
    idle_only: bool,
    times: Seq<i64>,
)
    requires
        forall|i: int, j: int|
            0 <= i < j < entries.len() && a.catalog.contains_key(entry_key(#[trigger] entries[i]))
                && a.catalog.contains_key(entry_key(#[trigger] entries[j]))
                ==> a.catalog[entry_key(entries[i])] != a.catalog[entry_key(entries[j])],
    ensures
        ({
            let (b, n) = ruled(a, entries, list, idle_only, times);
            moved_items(a, b).finite() && moved_items(a, b).len() == n
        }),
    decreases entries.len(),
{
    if entries.len() == 0 {
        assert(moved_items(a, a) =~= Set::empty());
    } else {
        let front = entries.drop_last();
        let e = entries.last();
        assert forall|i: int, j: int|
            0 <= i < j < front.len() && a.catalog.contains_key(entry_key(#[trigger] front[i]))
                && a.catalog.contains_key(
                entry_key(#[trigger] front[j]),
            ) implies a.catalog[entry_key(front[i])] != a.catalog[entry_key(front[j])] by {
            assert(front[i] == entries[i] && front[j] == entries[j]);
        }
        lemma_moved_counted(a, front, list, idle_only, times.drop_last());
        let (mid, m) = ruled(a, front, list, idle_only, times.drop_last());
        let b = ruled(a, entries, list, idle_only, times).0;
        lemma_ruled(a, front, list, idle_only, times.drop_last(), 0);
        match ruled_item(mid, e, list, idle_only) {
            Some(id) => {
                assert forall|k: int| !#[trigger] decides_on(a, front, list, idle_only, id, k) by {
                    if decides_on(a, front, list, idle_only, id, k) {
                        assert(front[k] == entries[k]);
                        assert(entries[entries.len() - 1] == e);
                    }
                }
                lemma_ruled(a, front, list, idle_only, times.drop_last(), id);
                let target = target_of(mid.fences, e.ruling);
                assert forall|x: ItemId| #[trigger] moved_items(a, b).contains(x) <==> moved_items(
                    a,
                    mid,
                ).contains(x) || (x == id && rule_moves(mid, id, e)) by {
                    lemma_sent(mid, id, target, times.last(), x);
                }
                if rule_moves(mid, id, e) {
                    assert(moved_items(a, b) =~= moved_items(a, mid).insert(id));
                } else {
                    assert(moved_items(a, b) =~= moved_items(a, mid));
                }
            },
            None => {},
        }
    }
}

// ---- letting go ---------------------------------------------------------------------------

/// The fences once the rules re-filed those of `ids`, and which fences gained or lost an item.
pub open spec fn refiled(
    a: FilesModel,
    ids: Seq<ItemId>,
    entries: Seq<DesktopEntry>,
    times: Seq<i64>,
) -> (FilesModel, Set<FenceId>)
    decreases entries.len(),
{
    if entries.len() == 0 {
        (a, Set::empty())
    } else {
        let (b, touched) = refiled(a, ids, entries.drop_last(), times.drop_last());
        let e = entries.last();
        let id = b.catalog[entry_key(e)];
        let target = target_of(b.fences, e.ruling);
        if e.origin != Origin::Namespace && b.catalog.contains_key(entry_key(e)) && ids.contains(id)
            && rule_moves(b, id, e) {
            (
                sent(b, id, target, times.last()),
                match fence_of(b.fences, id) {
                    Some(from) => touched.insert(from).insert((target->0).0),
                    None => touched.insert((target->0).0),
                },
            )
        } else {
            (b, touched)
        }
    }
}

/// The ids are listed once each, in rising order.
pub open spec fn rising(ids: Seq<FenceId>) -> bool {
    forall|i: int, j: int| 0 <= i < j < ids.len() ==> ids[i] < ids[j]
}

fn insert_rising(ids: &mut Vec<FenceId>, id: FenceId)
    requires
        rising(old(ids)@),
    ensures
        rising(final(ids)@),
        final(ids)@.to_set() == old(ids)@.to_set().insert(id),
{
    let ghost before = ids@;
    let mut p: usize = 0;
    while p < ids.len() && ids[p] < id
        invariant
            p <= ids.len(),
            ids@ == before,
            forall|j: int| 0 <= j < p ==> ids@[j] < id,
        decreases ids.len() - p,
    {
        p = p + 1;
    }
    if p < ids.len() && ids[p] == id {
        assert(before.contains(before[p as int]));
        assert(before.to_set() =~= before.to_set().insert(id));
        return;
    }
    ids.insert(p, id);
    proof {
        let now = ids@;
        assert forall|i: int, j: int| 0 <= i < j < now.len() implies now[i] < now[j] by {
            let i2 = if i < p {
                i
            } else {
                i - 1
            };
            let j2 = if j < p {
                j
            } else {
                j - 1
            };
            if i != p {
                assert(now[i] == before[i2]);
            }
            if j != p {
                assert(now[j] == before[j2]);
            }
            if i == p {
                assert(before[p as int] <= before[j2]);
            }
        }
        assert(now.to_set() =~= before.to_set().insert(id)) by {
            assert forall|x: FenceId| now.to_set().contains(x) <==> before.to_set().insert(
                id,
            ).contains(x) by {
                if before.contains(x) {
                    let k = before.index_of(x);
                    if k < p {
                        assert(now[k] == x);
                    } else {
                        assert(now[k + 1] == x);
                    }
                }
                if x == id {
                    assert(now[p as int] == x);
                }
                if now.contains(x) {
                    let k = now.index_of(x);
                    if k < p {
                        assert(before[k] == x);
                    } else if k > p {
                        assert(before[k - 1] == x);
                    }
                }
            }
        }
    }
}

fn has_id(ids: &Vec<ItemId>, id: ItemId) -> (r: bool)
    ensures
        r == ids@.contains(id),
{
    crate::tabs::contains_id(ids, id)
}

impl AppState {
    /// Re-files `ids` by the rules as if they had just arrived, wherever the user had put them.
    /// Returns the fences that gained or lost an item, in rising order.
    pub fn apply_rules_to(&mut self, ids: &Vec<ItemId>, entries: &Vec<DesktopEntry>) -> (r: Vec<
        FenceId,
    >)
        requires
            in_use(*old(self)),
        ensures
            rising(r@),
            exists|times: Seq<i64>| #[trigger]
                times.len() == entries@.len() && r@.to_set() == refiled(
                    files(*old(self)),
                    ids@,
                    entries@,
                    times,
                ).1 && files(*final(self)) == (FilesModel {
                    dirty: old(self).dirty || r@.len() > 0,
                    ..refiled(files(*old(self)), ids@, entries@, times).0
                }),
            same_but_files(*final(self), *old(self)),
    {
        let ghost a = files(*self);
        let ghost mut times: Seq<i64> = Seq::empty();
        let mut touched: Vec<FenceId> = Vec::new();
        let n: usize = entries.len();
        assert(touched@.to_set() =~= Set::<FenceId>::empty());
        for k in 0..n
            invariant
                n == entries.len(),
                in_use(*self),
                same_but_files(*self, *old(self)),
                a == files(*old(self)),
                times.len() == k,
                rising(touched@),
                (files(*self), touched@.to_set()) == refiled(a, ids@, entries@.take(k as int), times),
                self.dirty == a.dirty,
        {
            proof {
                assert(entries@.take(k + 1).drop_last() == entries@.take(k as int));
                assert(entries@.take(k + 1).last() == entries@[k as int]);
            }
            let ghost b = files(*self);
            let ghost before = touched@.to_set();
            let e = &entries[k];
            let ghost mut ts: i64 = 0;
            if e.origin != Origin::Namespace {
                let key = ItemKey::from_path(e.path.as_str());
                assert(key_text(key) == entry_key(*e));
                if let Some(id) = self.catalog.get(&key) {
                    if has_id(ids, id) {
                        let layout: usize = self.layout;
                        let from = self.config.fence_of_item(layout, id);
                        let target = self.target_fence(e.ruling);
                        let done = self.send_item(id, target);
                        proof {
                            ts = choose|ts: i64| files(*self) == #[trigger] sent(b, id, target, ts);
                        }
                        if done {
                            if let Some(f) = from {
                                insert_rising(&mut touched, f);
                            }
                            if let Some((to, _)) = target {
                                insert_rising(&mut touched, to);
                            }
                        }
                    }
                }
            }
            proof {
                let old_times = times;
                times = times.push(ts);
                assert(times.drop_last() == old_times);
            }
        }
        assert(entries@.take(n as int) == entries@);
        if !touched.is_empty() {
            self.dirty = true;
        }
        assert(times.len() == entries@.len());
        touched
    }
}

// ---- what letting go does to one item -------------------------------------------------------

/// Entry `k` is a file whose item is `id`, one of those that were let go.
pub open spec fn is_let_go(
    a: FilesModel,
    ids: Seq<ItemId>,
    entries: Seq<DesktopEntry>,
    id: ItemId,
    k: int,
) -> bool {
    0 <= k < entries.len() && ids.contains(id) && is_entry_of(a, entries[k], id)
}

proof fn lemma_refiled(
    a: FilesModel,
    ids: Seq<ItemId>,
    entries: Seq<DesktopEntry>,
    times: Seq<i64>,
    id: ItemId,
)
    ensures
        ({
            let (b, touched) = refiled(a, ids, entries, times);
            &&& same_frames(a.fences, b.fences)
            &&& b.catalog == a.catalog
            &&& b.items == a.items
            &&& (forall|k: int| !#[trigger] is_let_go(a, ids, entries, id, k)) ==> fence_of(
                b.fences,
                id,
            ) == fence_of(a.fences, id)
        }),
    decreases entries.len(),
{
    if entries.len() > 0 {
        let front = entries.drop_last();
        let e = entries.last();
        lemma_refiled(a, ids, front, times.drop_last(), id);
        let mid = refiled(a, ids, front, times.drop_last()).0;
        if forall|k: int| !#[trigger] is_let_go(a, ids, entries, id, k) {
            assert forall|k: int| !#[trigger] is_let_go(a, ids, front, id, k) by {
                if is_let_go(a, ids, front, id, k) {
                    assert(front[k] == entries[k]);
                    assert(is_let_go(a, ids, entries, id, k));
                }
            }
        }
        let x = mid.catalog[entry_key(e)];
        if e.origin != Origin::Namespace && mid.catalog.contains_key(entry_key(e)) && ids.contains(x)
            && rule_moves(mid, x, e) {
            lemma_sent(mid, x, target_of(mid.fences, e.ruling), times.last(), id);
            if x == id {
                assert(is_let_go(a, ids, entries, id, entries.len() - 1));
            }
        }
    }
}

/// Letting items go moves only those that were named and are files, and changes nothing else
/// about items.
pub proof fn only_named_items_are_let_go(
    a: FilesModel,
    ids: Seq<ItemId>,
    entries: Seq<DesktopEntry>,
    times: Seq<i64>,
    id: ItemId,
)
    ensures
        refiled(a, ids, entries, times).0.items == a.items,
        refiled(a, ids, entries, times).0.catalog == a.catalog,
        fence_of(refiled(a, ids, entries, times).0.fences, id) != fence_of(a.fences, id)
            ==> ids.contains(id) && exists|k: int| is_let_go(a, ids, entries, id, k),
{
    lemma_refiled(a, ids, entries, times, id);
}

/// An item that is let go ends where the rules decide, also where the user had placed it, and both
/// the fence it left and the one it went to are reported.
pub proof fn items_let_go_end_where_the_rules_decide(
    a: FilesModel,
    ids: Seq<ItemId>,
    entries: Seq<DesktopEntry>,
    times: Seq<i64>,
    id: ItemId,
    k: int,
    to: FenceId,
)
    requires
        is_let_go(a, ids, entries, id, k),
        only_entry(a, entries, id, k),
        target_of(a.fences, entries[k].ruling) matches Some((x, _)) && x == to,
        has_fence(a.fences, to),
        a.fences[first_index(a.fences, to)].content is Files,
    ensures
        fence_of(refiled(a, ids, entries, times).0.fences, id) == Some(to),
        fence_of(a.fences, id) != Some(to) ==> refiled(a, ids, entries, times).1.contains(to),
        fence_of(a.fences, id) is Some && fence_of(a.fences, id) != Some(to) ==> refiled(
            a,
            ids,
            entries,
            times,
        ).1.contains(fence_of(a.fences, id)->0),
    decreases entries.len(),
{
    let front = entries.drop_last();
    let e = entries.last();
    let mid = refiled(a, ids, front, times.drop_last()).0;
    lemma_refiled(a, ids, front, times.drop_last(), id);
    if k < front.len() {
        assert(front[k] == entries[k]);
        assert forall|j: int| 0 <= j < front.len() && j != k implies !is_entry_of(
            a,
            #[trigger] front[j],
            id,
        ) by {
            assert(front[j] == entries[j]);
        }
        items_let_go_end_where_the_rules_decide(a, ids, front, times.drop_last(), id, k, to);
        assert(!is_entry_of(a, entries[entries.len() - 1], id));
        let x = mid.catalog[entry_key(e)];
        if e.origin != Origin::Namespace && mid.catalog.contains_key(entry_key(e)) && ids.contains(x)
            && rule_moves(mid, x, e) {
            lemma_sent(mid, x, target_of(mid.fences, e.ruling), times.last(), id);
        }
    } else {
        assert forall|j: int| !#[trigger] is_let_go(a, ids, front, id, j) by {
            if is_let_go(a, ids, front, id, j) {
                assert(front[j] == entries[j]);
                assert(!is_entry_of(a, entries[j], id));
            }
        }
        lemma_same_targets(a.fences, mid.fences, e.ruling);
        lemma_same_ids(mid.fences, a.fences, to);
        lemma_first_index(a.fences, to);
        lemma_sent(mid, id, target_of(mid.fences, e.ruling), times.last(), id);
    }
}

/// The hourly sweep moves an item only where a rule with a condition on idle days decided on its
/// file; applying all rules moves one wherever the rules decide. Neither moves what the user placed,
/// and both tell that there is something to save where any item moved.
pub proof fn sweeps_move_by_the_clock_only(
    s: &mut AppState,
    entries: &Vec<DesktopEntry>,
    r: usize,
    id: ItemId,
)
    ensures
        call_ensures(AppState::apply_idle_rules, (s, entries), r) && fence_of(fences(*final(s)), id)
            != fence_of(fences(*old(s)), id) ==> !pinned(fences(*old(s)), id) && exists|k: int|
            0 <= k < entries@.len() && (#[trigger] entries@[k]).origin != Origin::Namespace
                && clock_decides(old(s).config.rules.list@, entries@[k].ruling),
        call_ensures(AppState::apply_rules_all, (s, entries), r) && fence_of(fences(*final(s)), id)
            != fence_of(fences(*old(s)), id) ==> !pinned(fences(*old(s)), id) && exists|k: int|
            0 <= k < entries@.len() && (#[trigger] entries@[k]).origin != Origin::Namespace,
        call_ensures(AppState::apply_idle_rules, (s, entries), r) && r > 0 ==> final(s).dirty,
        call_ensures(AppState::apply_rules_all, (s, entries), r) && r > 0 ==> final(s).dirty,
{
    let a = files(*old(s));
    let b = files(*final(s));
    let list = old(s).config.rules.list@;
    if call_ensures(AppState::apply_idle_rules, (s, entries), r) {
        rules_only_move_items(a, b, entries@, list, true, r as nat);
        if fence_of(b.fences, id) != fence_of(a.fences, id) {
            only_what_a_rule_decides_on_moves(a, b, entries@, list, true, r as nat, id);
            let k = choose|k: int| decides_on(a, entries@, list, true, id, k);
            assert(entries@[k].origin != Origin::Namespace);
        }
    }
    if call_ensures(AppState::apply_rules_all, (s, entries), r) {
        rules_only_move_items(a, b, entries@, list, false, r as nat);
        if fence_of(b.fences, id) != fence_of(a.fences, id) {
            only_what_a_rule_decides_on_moves(a, b, entries@, list, false, r as nat, id);
            let k = choose|k: int| decides_on(a, entries@, list, false, id, k);
            assert(entries@[k].origin != Origin::Namespace);
        }
    }
}

} // verus!
