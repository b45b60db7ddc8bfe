//! Snapshots of the layouts, and replacing the whole configuration.

use crate::clock::{is_random_id, new_id, now_unix};
use crate::layouts::{
    area_paths, chosen_fences, layout_place, same_but_layouts, settled, settled_rules, Setup,
};
use crate::model::{
    clone_layouts, key_text, layout_models, snapshot_models, Config, ItemId, Layout, LayoutModel, Snapshot,
    SnapshotModel, MAX_SNAPSHOTS,
};
use crate::records::is_catalog_of;
use crate::state::{fences, in_use, AppState};
use crate::tab_laws::{normal, repair_keeps_what_is_normal};
use crate::text::{chars_of, string_of};
use crate::validate::{is_space, is_white};

use vstd::prelude::*;

verus! {

// ---- names --------------------------------------------------------------------------------

/// The text without white space at its beginning.
pub open spec fn trimmed_start(s: Seq<char>) -> Seq<char>
    decreases s.len(),
{
    if s.len() > 0 && is_space(s[0]) {
        trimmed_start(s.skip(1))
    } else {
        s
    }
}

/// The text without white space at its end.
pub open spec fn trimmed_end(s: Seq<char>) -> Seq<char>
    decreases s.len(),
{
    if s.len() > 0 && is_space(s.last()) {
        trimmed_end(s.drop_last())
    } else {
        s
    }
}

/// The text without white space around it.
pub open spec fn trimmed(s: Seq<char>) -> Seq<char> {
    trimmed_end(trimmed_start(s))
}

/// The text without white space around it.
pub fn trim_text(s: &str) -> (r: String)
    ensures
        r@ == trimmed(s@),
{
    let chars = chars_of(s);
    let mut from: usize = 0;
    assert(s@.skip(0) == s@);
    while from < chars.len() && is_white(chars[from])
        invariant
            from <= chars.len(),
            chars@ == s@,
            trimmed_start(s@) == trimmed_start(s@.skip(from as int)),
        decreases chars.len() - from,
    {
        assert(s@.skip(from as int).skip(1) == s@.skip(from + 1));
        from = from + 1;
    }
    let ghost t = s@.skip(from as int);
    assert(trimmed_start(s@) == t);
    let mut to: usize = chars.len();
    assert(t.take(t.len() as int) == t);
    while to > from && is_white(chars[to - 1])
        invariant
            from <= to <= chars.len(),
            chars@ == s@,
            t == s@.skip(from as int),
            trimmed_end(t) == trimmed_end(t.take(to - from)),
        decreases to,
    {
        assert(t.take(to - from).last() == s@[to - 1]);
        assert(t.take(to - from).drop_last() == t.take(to - from - 1));
        to = to - 1;
    }
    assert(to > from ==> t.take(to - from).last() == s@[to - 1]);
    let mut out: Vec<char> = Vec::new();
    for i in from..to
        invariant
            from <= i <= to <= chars.len(),
            chars@ == s@,
            out@ == s@.subrange(from as int, i as int),
    {
        out.push(chars[i]);
        assert(out@ =~= s@.subrange(from as int, i + 1));
    }
    assert(out@ =~= t.take(to - from));
    string_of(&out)
}

// ---- the list -----------------------------------------------------------------------------

/// The newest snapshots of a list, as many as are kept.
pub open spec fn capped(snaps: Seq<SnapshotModel>) -> Seq<SnapshotModel> {
    if snaps.len() > MAX_SNAPSHOTS {
        snaps.skip(snaps.len() - MAX_SNAPSHOTS)
    } else {
        snaps
    }
}

fn cap(snaps: &mut Vec<Snapshot>)
    ensures
        snapshot_models(final(snaps)@) == capped(snapshot_models(old(snaps)@)),
{
    let ghost all = snaps@;
    let ghost mut gone: int = 0;
    assert(all.skip(0) == all);
    while snaps.len() > MAX_SNAPSHOTS
        invariant
            0 <= gone <= all.len(),
            snaps@ == all.skip(gone),
            gone > 0 ==> all.len() - gone >= MAX_SNAPSHOTS,
        decreases snaps.len(),
    {
        snaps.remove(0);
        proof {
            assert(snaps@ =~= all.skip(gone + 1));
            gone = gone + 1;
        }
    }
    assert(snapshot_models(snaps@) =~= capped(snapshot_models(all)));
}

/// A list by time with one more snapshot in it, behind those of the same time.
pub open spec fn inserted(snaps: Seq<SnapshotModel>, x: SnapshotModel) -> Seq<SnapshotModel>
    decreases snaps.len(),
{
    if snaps.len() == 0 || snaps.last().ts <= x.ts {
        snaps.push(x)
    } else {
        inserted(snaps.drop_last(), x).push(snaps.last())
    }
}

/// The snapshots by time, those of one time in the order they had.
pub open spec fn by_time(snaps: Seq<SnapshotModel>) -> Seq<SnapshotModel>
    decreases snaps.len(),
{
    if snaps.len() == 0 {
        snaps
    } else {
        inserted(by_time(snaps.drop_last()), snaps.last())
    }
}

pub open spec fn has_snapshot(snaps: Seq<SnapshotModel>, id: u128) -> bool {
    exists|i: int| 0 <= i < snaps.len() && (#[trigger] snaps[i]).id == id
}

/// `mine` and behind them those of `theirs` with ids that are not there yet.
pub open spec fn merged(mine: Seq<SnapshotModel>, theirs: Seq<SnapshotModel>) -> Seq<SnapshotModel>
    decreases theirs.len(),
{
    if theirs.len() == 0 {
        mine
    } else {
        let rest = merged(mine, theirs.drop_last());
        if has_snapshot(rest, theirs.last().id) {
            rest
        } else {
            rest.push(theirs.last())
        }
    }
}

fn find_snapshot(snaps: &Vec<Snapshot>, id: u128) -> (r: Option<usize>)
    ensures
        match r {
            Some(i) => is_first_snapshot(snapshot_models(snaps@), id, i as int),
            None => !has_snapshot(snapshot_models(snaps@), id),
        },
{
    let ghost ms = snapshot_models(snaps@);
    let n: usize = snaps.len();
    for i in 0..n
        invariant
            n == snaps.len(),
            ms == snapshot_models(snaps@),
            forall|j: int| 0 <= j < i ==> (#[trigger] ms[j]).id != id,
    {
        assert(ms[i as int] == snaps@[i as int]@);
        if snaps[i].id == id {
            return Some(i);
        }
    }
    None
}

/// The first snapshot `id` stands at `i`.
pub open spec fn is_first_snapshot(snaps: Seq<SnapshotModel>, id: u128, i: int) -> bool {
    &&& 0 <= i < snaps.len()
    &&& snaps[i].id == id
    &&& forall|j: int| 0 <= j < i ==> (#[trigger] snaps[j]).id != id
}

fn merge(mine: Vec<Snapshot>, theirs: Vec<Snapshot>) -> (r: Vec<Snapshot>)
    ensures
        snapshot_models(r@) == merged(snapshot_models(mine@), snapshot_models(theirs@)),
{
    let ghost ours = snapshot_models(mine@);
    let ghost all = snapshot_models(theirs@);
    let mut out = mine;
    let mut rest = theirs;
    let ghost mut seen: int = 0;
    assert(theirs@.skip(0) == theirs@);
    assert(all.take(0) =~= Seq::<SnapshotModel>::empty());
    while rest.len() > 0
        invariant
            0 <= seen <= all.len(),
            all == snapshot_models(theirs@),
            rest@ == theirs@.skip(seen),
            snapshot_models(out@) == merged(ours, all.take(seen)),
        decreases rest.len(),
    {
        let ghost before = out@;
        let s = rest.remove(0);
        proof {
            assert(s == theirs@[seen]);
            assert(all[seen] == s@);
            assert(rest@ =~= theirs@.skip(seen + 1));
            assert(all.take(seen + 1).drop_last() =~= all.take(seen));
            assert(all.take(seen + 1).last() == s@);
        }
        let known: bool = match find_snapshot(&out, s.id) {
            Some(i) => {
                assert(snapshot_models(out@)[i as int].id == s.id);
                true
            },
            None => false,
        };
        if !known {
            out.push(s);
            assert(snapshot_models(out@) =~= snapshot_models(before).push(s@));
        }
        proof {
            seen = seen + 1;
        }
    }
    assert(all.take(seen) =~= all);
    out
}

fn insert_by_time(snaps: &mut Vec<Snapshot>, x: Snapshot)
    ensures
        snapshot_models(final(snaps)@) == inserted(snapshot_models(old(snaps)@), x@),
{
    let ghost ms = snapshot_models(snaps@);
    let mut k: usize = snaps.len();
    assert(ms.take(k as int) =~= ms);
    assert(ms.skip(k as int) =~= Seq::<SnapshotModel>::empty());
    assert(inserted(ms, x@) =~= inserted(ms.take(k as int), x@) + ms.skip(k as int));
    while k > 0 && snaps[k - 1].ts > x.ts
        invariant
            k <= snaps.len(),
            snaps@ == old(snaps)@,
            ms == snapshot_models(snaps@),
            inserted(ms, x@) == inserted(ms.take(k as int), x@) + ms.skip(k as int),
        decreases k,
    {
        proof {
            assert(ms[k - 1] == snaps@[k - 1]@);
            let t = ms.take(k as int);
            assert(t.last() == ms[k - 1]);
            assert(t.drop_last() =~= ms.take(k - 1));
            assert(inserted(ms.take(k - 1), x@).push(ms[k - 1]) + ms.skip(k as int) =~= inserted(
                ms.take(k - 1),
                x@,
            ) + ms.skip(k - 1));
        }
        k = k - 1;
    }
    proof {
        if k > 0 {
            assert(ms[k - 1] == snaps@[k - 1]@);
            assert(ms.take(k as int).last() == ms[k - 1]);
        }
        assert(inserted(ms, x@) =~= ms.take(k as int).push(x@) + ms.skip(k as int));
    }
    snaps.insert(k, x);
    assert(snapshot_models(snaps@) =~= ms.take(k as int).push(x@) + ms.skip(k as int));
}

fn sort_by_time(snaps: Vec<Snapshot>) -> (r: Vec<Snapshot>)
    ensures
        snapshot_models(r@) == by_time(snapshot_models(snaps@)),
{
    let ghost all = snapshot_models(snaps@);
    let mut out: Vec<Snapshot> = Vec::new();
    let mut rest = snaps;
    let ghost mut seen: int = 0;
    assert(snaps@.skip(0) == snaps@);
    assert(all.take(0) =~= Seq::<SnapshotModel>::empty());
    assert(snapshot_models(out@) =~= Seq::<SnapshotModel>::empty());
    while rest.len() > 0
        invariant
            0 <= seen <= all.len(),
            all == snapshot_models(snaps@),
            rest@ == snaps@.skip(seen),
            snapshot_models(out@) == by_time(all.take(seen)),
        decreases rest.len(),
    {
        let s = rest.remove(0);
        proof {
            assert(s == snaps@[seen]);
            assert(all[seen] == s@);
            assert(rest@ =~= snaps@.skip(seen + 1));
            assert(all.take(seen + 1).drop_last() =~= all.take(seen));
            assert(all.take(seen + 1).last() == s@);
            seen = seen + 1;
        }
        insert_by_time(&mut out, s);
    }
    assert(all.take(seen) =~= all);
    out
}

/// The snapshots without those called `id`.
pub open spec fn without(snaps: Seq<SnapshotModel>, id: u128) -> Seq<SnapshotModel>
    decreases snaps.len(),
{
    if snaps.len() == 0 {
        snaps
    } else if snaps.last().id == id {
        without(snaps.drop_last(), id)
    } else {
        without(snaps.drop_last(), id).push(snaps.last())
    }
}

fn drop_snapshots(snaps: &mut Vec<Snapshot>, id: u128) -> (r: bool)
    ensures
        snapshot_models(final(snaps)@) == without(snapshot_models(old(snaps)@), id),
        r == has_snapshot(snapshot_models(old(snaps)@), id),
        !r ==> final(snaps)@ == old(snaps)@,
{
    let ghost all = snaps@;
    let ghost ms = snapshot_models(all);
    let mut i: usize = 0;
    let ghost mut seen: int = 0;
    let mut removed = false;
    assert(all.skip(0) == all);
    assert(ms.take(0) =~= Seq::<SnapshotModel>::empty());
    assert(ms.skip(0) =~= ms);
    while i < snaps.len()
        invariant
            0 <= seen <= all.len(),
            i <= snaps.len(),
            ms == snapshot_models(all),
            snapshot_models(snaps@) == without(ms.take(seen), id) + ms.skip(seen),
            i == without(ms.take(seen), id).len(),
            removed == has_snapshot(ms.take(seen), id),
            !removed ==> snaps@ == all && i == seen,
        decreases all.len() - seen,
    {
        let ghost now = snapshot_models(snaps@);
        let ghost kept = without(ms.take(seen), id);
        proof {
            assert(snapshot_models(snaps@).len() == snaps.len());
            assert(ms.skip(seen).len() > 0);
            assert(now[i as int] == ms.skip(seen)[0]);
            assert(now[i as int] == snaps@[i as int]@);
            assert(ms.take(seen + 1).drop_last() =~= ms.take(seen));
            assert(ms.take(seen + 1).last() == ms[seen]);
            assert(has_snapshot(ms.take(seen + 1), id) == (has_snapshot(ms.take(seen), id)
                || ms[seen].id == id)) by {
                if has_snapshot(ms.take(seen), id) {
                    let j = choose|j: int|
                        0 <= j < ms.take(seen).len() && (#[trigger] ms.take(seen)[j]).id == id;
                    assert(ms.take(seen + 1)[j].id == id);
                }
                if has_snapshot(ms.take(seen + 1), id) && ms[seen].id != id {
                    let j = choose|j: int|
                        0 <= j < ms.take(seen + 1).len() && (#[trigger] ms.take(seen + 1)[j]).id
                            == id;
                    assert(ms.take(seen)[j].id == id);
                }
                assert(ms.take(seen + 1)[seen] == ms[seen]);
            }
        }
        if snaps[i].id == id {
            snaps.remove(i);
            removed = true;
            assert(snapshot_models(snaps@) =~= now.remove(i as int));
            assert(snapshot_models(snaps@) =~= kept + ms.skip(seen + 1));
        } else {
            i = i + 1;
            assert(now =~= kept.push(ms[seen]) + ms.skip(seen + 1));
        }
        proof {
            seen = seen + 1;
        }
    }
    assert(snapshot_models(snaps@).len() == snaps.len());
    assert(ms.take(seen) =~= ms);
    assert(snapshot_models(snaps@) =~= without(ms, id));
    removed
}

// ---- snapshots of the running state -------------------------------------------------------

/// The two states differ at most in the snapshots and in whether there is something to save.
pub open spec fn same_but_snapshots(a: AppState, b: AppState) -> bool {
    &&& a.config.schema_version == b.config.schema_version
    &&& a.config.settings == b.config.settings
    &&& a.config.items == b.config.items
    &&& a.config.layouts == b.config.layouts
    &&& a.config.rules == b.config.rules
    &&& a.config.undo_log == b.config.undo_log
    &&& a.store == b.store
    &&& a.layout == b.layout
    &&& a.catalog == b.catalog
    &&& a.portal_items == b.portal_items
    &&& a.portal_members == b.portal_members
    &&& a.portal_cwd == b.portal_cwd
    &&& a.work_areas == b.work_areas
    &&& a.first_run == b.first_run
    &&& a.recovered_from == b.recovered_from
}

/// What a snapshot is called.
pub open spec fn snapshot_name(name: Seq<char>, fallback: Seq<char>) -> Seq<char> {
    if trimmed(name).len() == 0 {
        fallback
    } else {
        trimmed(name)
    }
}

/// The snapshots once one more was taken of the layouts.
pub open spec fn with_snapshot(s: AppState, id: u128, name: Seq<char>, ts: i64) -> Seq<
    SnapshotModel,
> {
    capped(
        snapshot_models(s.config.snapshots@).push(
            SnapshotModel { id, name, ts, layouts: layout_models(s.config.layouts@) },
        ),
    )
}

/// A snapshot was taken, at some time and under a new id, and nothing else happened.
pub open spec fn snapshot_taken(
    a: AppState,
    b: AppState,
    id: u128,
    name: Seq<char>,
    ts: i64,
) -> bool {
    &&& snapshot_models(b.config.snapshots@) == with_snapshot(a, id, name, ts)
    &&& b.dirty
    &&& same_but_snapshots(b, a)
}

impl AppState {
    /// Takes a snapshot of the layouts, with this id and time. Only the newest are kept.
    pub fn save_snapshot_at(&mut self, name: &str, fallback: &str, id: u128, ts: i64)
        ensures
            snapshot_taken(*old(self), *final(self), id, snapshot_name(name@, fallback@), ts),
    {
        let short = trim_text(name);
        let name = if chars_of(short.as_str()).len() == 0 {
            fallback.to_owned()
        } else {
            short
        };
        let ghost before = snapshot_models(self.config.snapshots@);
        let snap = Snapshot { id, name, ts, layouts: clone_layouts(&self.config.layouts) };
        self.config.snapshots.push(snap);
        assert(snapshot_models(self.config.snapshots@) =~= before.push(snap@));
        cap(&mut self.config.snapshots);
        self.dirty = true;
    }

    /// Takes a snapshot of the layouts, called `name`, or `fallback` where that is blank. Returns
    /// its id.
    pub fn save_snapshot(&mut self, name: &str, fallback: &str) -> (r: u128)
        ensures
            is_random_id(r),
            exists|ts: i64| #[trigger]
                snapshot_taken(*old(self), *final(self), r, snapshot_name(name@, fallback@), ts),
    {
        let id: u128 = new_id();
        let ts: i64 = now_unix();
        self.save_snapshot_at(name, fallback, id, ts);
        id
    }

    /// Drops a snapshot. Returns whether there was one.
    pub fn delete_snapshot(&mut self, id: u128) -> (r: bool)
        ensures
            r == has_snapshot(snapshot_models(old(self).config.snapshots@), id),
            snapshot_models(final(self).config.snapshots@) == without(
                snapshot_models(old(self).config.snapshots@),
                id,
            ),
            final(self).dirty == (old(self).dirty || r),
            same_but_snapshots(*final(self), *old(self)),
    {
        let removed = drop_snapshots(&mut self.config.snapshots, id);
        if removed {
            self.dirty = true;
        }
        removed
    }

    fn apply_snapshot_layouts(&mut self, layouts: Vec<Layout>, setup: Setup)
        requires
            layouts.len() < usize::MAX,
        ensures
            layouts_applied(*old(self), *final(self), layout_models(layouts@), setup),
    {
        self.config.layouts = layouts;
        self.settle(setup);
        self.portal_cwd.clear();
        self.dirty = true;
    }

    /// Puts the layouts of a snapshot back, once a snapshot of the present ones was taken. The
    /// settings, the rules and the items stay. Returns false, and changes nothing, where there is
    /// no such snapshot.
    pub fn restore_snapshot_with_backup(
        &mut self,
        id: u128,
        backup_name: &str,
        fallback: &str,
        setup: Setup,
    ) -> (r: bool)
        requires
            has_snapshot(snapshot_models(old(self).config.snapshots@), id) ==> snapshot_of(
                *old(self),
                id,
            ).layouts.len() < usize::MAX,
        ensures
            r == has_snapshot(snapshot_models(old(self).config.snapshots@), id),
            !r ==> *final(self) == *old(self),
            r ==> exists|backup: u128, ts: i64| #[trigger]
                restored(
                    *old(self),
                    *final(self),
                    id,
                    backup,
                    snapshot_name(backup_name@, fallback@),
                    ts,
                    setup,
                ),
    {
        let at: usize = match find_snapshot(&self.config.snapshots, id) {
            Some(i) => i,
            None => {
                return false;
            },
        };
        let ghost before = *self;
        let layouts = clone_layouts(&self.config.snapshots[at].layouts);
        proof {
            let ms = snapshot_models(self.config.snapshots@);
            assert(ms[at as int] == self.config.snapshots@[at as int]@);
            assert(has_snapshot(ms, id));
            lemma_snapshot_of(ms, id, at as int);
            assert(layout_models(layouts@).len() == layouts.len());
        }
        let backup: u128 = self.save_snapshot(backup_name, fallback);
        let ghost mid = *self;
        let ghost name = snapshot_name(backup_name@, fallback@);
        let ghost ts = choose|ts: i64| #[trigger] snapshot_taken(before, mid, backup, name, ts);
        self.apply_snapshot_layouts(layouts, setup);
        assert(restored(before, *self, id, backup, name, ts, setup));
        true
    }

    /// Replaces the whole configuration, as an import does. The present items stay where the new
    /// configuration has none, and the snapshots of both are kept, by time, the newest ones.
    pub fn replace_config(&mut self, config: Config, setup: Setup)
        requires
            config.layouts.len() < usize::MAX,
        ensures
            replaced(*old(self), *final(self), config, setup),
            in_use(*final(self)),
    {
        let ghost before = *self;
        let mut config = config;
        let ghost given = config;
        if config.items.len() == 0 {
            std::mem::swap(&mut config.items, &mut self.config.items);
        }
        let mut mine: Vec<Snapshot> = Vec::new();
        std::mem::swap(&mut mine, &mut self.config.snapshots);
        let mut theirs: Vec<Snapshot> = Vec::new();
        std::mem::swap(&mut theirs, &mut config.snapshots);
        let mut snaps = sort_by_time(merge(mine, theirs));
        cap(&mut snaps);
        config.snapshots = snaps;
        self.config = config;
        self.rebuild_catalog();
        self.settle(setup);
        self.portal_cwd.clear();
        self.dirty = true;
        proof {
            assert(given.items@.len() == 0 ==> given.items@.dom() =~= Set::empty());
        }
    }
}

/// The first snapshot called `id`.
pub open spec fn snapshot_of(s: AppState, id: u128) -> SnapshotModel {
    let snaps = snapshot_models(s.config.snapshots@);
    snaps[choose|i: int| is_first_snapshot(snaps, id, i)]
}

proof fn lemma_snapshot_of(snaps: Seq<SnapshotModel>, id: u128, i: int)
    requires
        is_first_snapshot(snaps, id, i),
    ensures
        snaps[choose|k: int| is_first_snapshot(snaps, id, k)] == snaps[i],
{
    let k = choose|k: int| is_first_snapshot(snaps, id, k);
    assert(is_first_snapshot(snaps, id, k));
    if k < i {
        assert(snaps[k].id != id);
    }
    if i < k {
        assert(snaps[i].id != id);
    }
}

/// These layouts were put in place of the present ones, and the one for the monitors chosen.
/// Portals show their roots again.
pub open spec fn layouts_applied(
    a: AppState,
    b: AppState,
    layouts: Seq<LayoutModel>,
    setup: Setup,
) -> bool {
    &&& settled(b, layouts, area_paths(a.work_areas@), setup)
    &&& b.config.rules == settled_rules(layouts, a.config.rules, setup)
    &&& b.portal_cwd@ == Map::<crate::model::FenceId, String>::empty()
    &&& b.dirty
    &&& same_but_layouts(b.config, a.config)
    &&& b.store == a.store
    &&& b.catalog == a.catalog
    &&& b.portal_items == a.portal_items
    &&& b.portal_members == a.portal_members
    &&& b.work_areas == a.work_areas
    &&& b.first_run == a.first_run
    &&& b.recovered_from == a.recovered_from
    &&& in_use(b)
}

/// A snapshot called `backup` was taken, and the layouts of snapshot `id` were put back.
pub open spec fn restored(
    a: AppState,
    b: AppState,
    id: u128,
    backup: u128,
    name: Seq<char>,
    ts: i64,
    setup: Setup,
) -> bool {
    &&& is_random_id(backup)
    &&& exists|mid: AppState| #[trigger]
        snapshot_taken(a, mid, backup, name, ts) && layouts_applied(
            mid,
            b,
            snapshot_of(a, id).layouts,
            setup,
        )
}

/// The whole configuration was replaced.
pub open spec fn replaced(a: AppState, b: AppState, config: Config, setup: Setup) -> bool {
    let layouts = layout_models(config.layouts@);
    let items = if config.items@.dom() == Set::<ItemId>::empty() {
        a.config.items
    } else {
        config.items
    };
    &&& b.config.schema_version == config.schema_version
    &&& b.config.settings == config.settings
    &&& b.config.items == items
    &&& b.config.undo_log == config.undo_log
    &&& snapshot_models(b.config.snapshots@) == capped(
        by_time(
            merged(snapshot_models(a.config.snapshots@), snapshot_models(config.snapshots@)),
        ),
    )
    &&& settled(b, layouts, area_paths(a.work_areas@), setup)
    &&& b.config.rules == settled_rules(layouts, config.rules, setup)
    &&& is_catalog_of(b.catalog@, items@)
    &&& b.portal_cwd@ == Map::<crate::model::FenceId, String>::empty()
    &&& b.dirty
    &&& b.store == a.store
    &&& b.portal_items == a.portal_items
    &&& b.portal_members == a.portal_members
    &&& b.work_areas == a.work_areas
    &&& b.first_run == a.first_run
    &&& b.recovered_from == a.recovered_from
}

// ---- laws ---------------------------------------------------------------------------------

/// Deleting a snapshot keeps every other one, unchanged and in its order, and none of this id.
pub proof fn deleting_keeps_the_other_snapshots(snaps: Seq<SnapshotModel>, id: u128)
    ensures
        without(snaps, id) == snaps.filter(|s: SnapshotModel| s.id != id),
        forall|s: SnapshotModel| #[trigger]
            without(snaps, id).contains(s) <==> snaps.contains(s) && s.id != id,
        !has_snapshot(without(snaps, id), id),
    decreases snaps.len(),
{
    reveal(Seq::filter);
    if snaps.len() > 0 {
        let t = snaps.drop_last();
        let last = snaps.last();
        deleting_keeps_the_other_snapshots(t, id);
        let rest = without(t, id);
        let out = without(snaps, id);
        assert forall|s: SnapshotModel| snaps.contains(s) <==> t.contains(s) || s == last by {
            if t.contains(s) {
                assert(snaps[t.index_of(s)] == s);
            }
            if snaps.contains(s) && s != last {
                assert(t[snaps.index_of(s)] == s);
            }
            assert(snaps[snaps.len() - 1] == last);
        }
        assert forall|s: SnapshotModel| #[trigger] out.contains(s) <==> snaps.contains(s) && s.id
            != id by {
            if last.id != id {
                if rest.contains(s) {
                    assert(out[rest.index_of(s)] == s);
                }
                if out.contains(s) && s != last {
                    assert(rest[out.index_of(s)] == s);
                    assert(rest.contains(s));
                }
                assert(out[out.len() - 1] == last);
            }
            assert(rest.contains(s) <==> t.contains(s) && s.id != id);
        }
        if has_snapshot(out, id) {
            let i = choose|i: int| 0 <= i < out.len() && (#[trigger] out[i]).id == id;
            assert(out.contains(out[i]));
        }
    }
}

/// No more snapshots are kept than may be, and the one just taken is among them, as the last.
pub proof fn a_new_snapshot_is_kept(s: AppState, id: u128, name: Seq<char>, ts: i64)
    ensures
        with_snapshot(s, id, name, ts).len() <= MAX_SNAPSHOTS,
        with_snapshot(s, id, name, ts).len() > 0,
        with_snapshot(s, id, name, ts).last() == (SnapshotModel {
            id,
            name,
            ts,
            layouts: layout_models(s.config.layouts@),
        }),
{
}

proof fn lemma_inserted(snaps: Seq<SnapshotModel>, x: SnapshotModel)
    requires
        forall|i: int, j: int|
            0 <= i < j < snaps.len() ==> (#[trigger] snaps[i]).ts <= (#[trigger] snaps[j]).ts,
    ensures
        inserted(snaps, x).to_multiset() == snaps.to_multiset().insert(x),
        inserted(snaps, x).len() == snaps.len() + 1,
        forall|i: int, j: int|
            0 <= i < j < inserted(snaps, x).len() ==> (#[trigger] inserted(snaps, x)[i]).ts <= (
            #[trigger] inserted(snaps, x)[j]).ts,
        forall|i: int|
            0 <= i < inserted(snaps, x).len() ==> (#[trigger] inserted(snaps, x)[i]).ts <= x.ts || (
            snaps.len() > 0 && inserted(snaps, x)[i].ts <= snaps.last().ts),
    decreases snaps.len(),
{
    broadcast use vstd::seq_lib::group_to_multiset_ensures;

    if snaps.len() == 0 || snaps.last().ts <= x.ts {
        assert forall|i: int, j: int| 0 <= i < j < inserted(snaps, x).len() implies (
        #[trigger] inserted(snaps, x)[i]).ts <= (#[trigger] inserted(snaps, x)[j]).ts by {
            if j == snaps.len() {
                assert(snaps[i].ts <= snaps[snaps.len() - 1].ts);
            }
        }
    } else {
        let front = snaps.drop_last();
        lemma_inserted(front, x);
        let r = inserted(front, x);
        assert(snaps =~= front.push(snaps.last()));
        assert(inserted(snaps, x) == r.push(snaps.last()));
        assert(r.push(snaps.last()).to_multiset() =~= snaps.to_multiset().insert(x));
        assert forall|i: int| 0 <= i < r.len() implies (#[trigger] r[i]).ts <= snaps.last().ts by {
            if front.len() > 0 {
                assert(snaps[front.len() - 1].ts <= snaps[snaps.len() - 1].ts);
            }
        }
    }
}

/// Sorting by time keeps every snapshot, and puts the older ones first.
pub proof fn sorting_by_time_keeps_every_snapshot(snaps: Seq<SnapshotModel>)
    ensures
        by_time(snaps).to_multiset() == snaps.to_multiset(),
        by_time(snaps).len() == snaps.len(),
        forall|i: int, j: int|
            0 <= i < j < by_time(snaps).len() ==> (#[trigger] by_time(snaps)[i]).ts <= (
            #[trigger] by_time(snaps)[j]).ts,
    decreases snaps.len(),
{
    broadcast use vstd::seq_lib::group_to_multiset_ensures;

    if snaps.len() > 0 {
        sorting_by_time_keeps_every_snapshot(snaps.drop_last());
        lemma_inserted(by_time(snaps.drop_last()), snaps.last());
        assert(snaps =~= snaps.drop_last().push(snaps.last()));
    }
}

proof fn lemma_merged(mine: Seq<SnapshotModel>, theirs: Seq<SnapshotModel>)
    ensures
        merged(mine, theirs).len() >= mine.len(),
        merged(mine, theirs).take(mine.len() as int) == mine,
    decreases theirs.len(),
{
    if theirs.len() > 0 {
        lemma_merged(mine, theirs.drop_last());
        let rest = merged(mine, theirs.drop_last());
        assert(rest.push(theirs.last()).take(mine.len() as int) =~= rest.take(mine.len() as int));
    }
}

/// Replacing the configuration drops none of the present snapshots, as long as those of both
/// sides are no more than are kept.
pub proof fn replacing_keeps_the_present_snapshots(
    mine: Seq<SnapshotModel>,
    theirs: Seq<SnapshotModel>,
    s: SnapshotModel,
)
    requires
        mine.contains(s),
        merged(mine, theirs).len() <= MAX_SNAPSHOTS,
    ensures
        capped(by_time(merged(mine, theirs))).contains(s),
{
    broadcast use vstd::seq_lib::group_to_multiset_ensures;

    let all = merged(mine, theirs);
    lemma_merged(mine, theirs);
    sorting_by_time_keeps_every_snapshot(all);
    let k = mine.index_of(s);
    assert(all.take(mine.len() as int)[k] == s);
    assert(all[k] == s);
    assert(all.to_multiset().count(s) > 0);
    assert(by_time(all).to_multiset().count(s) > 0);
}

/// Putting a snapshot back can be undone: the backup that is taken puts back the layouts that were
/// there, as long as one of them is for the monitors and had its tab links in order.
pub proof fn a_restored_snapshot_can_be_undone(
    a: AppState,
    b: AppState,
    c: AppState,
    id: u128,
    backup: u128,
    name: Seq<char>,
    ts: i64,
    setup: Setup,
    again: u128,
    name2: Seq<char>,
    ts2: i64,
    setup2: Setup,
)
    requires
        !has_snapshot(snapshot_models(a.config.snapshots@), backup),
        restored(a, b, id, backup, name, ts, setup),
        restored(b, c, backup, again, name2, ts2, setup2),
        layout_place(layout_models(a.config.layouts@), area_paths(a.work_areas@)) is Some,
        normal(
            chosen_fences(layout_models(a.config.layouts@), area_paths(a.work_areas@), setup2),
        ),
    ensures
        layout_models(c.config.layouts@) == layout_models(a.config.layouts@),
{
    let old_snaps = snapshot_models(a.config.snapshots@);
    let layouts = layout_models(a.config.layouts@);
    let paths = area_paths(a.work_areas@);
    let taken = SnapshotModel { id: backup, name, ts, layouts };
    let mid = choose|mid: AppState| #[trigger]
        snapshot_taken(a, mid, backup, name, ts) && layouts_applied(
            mid,
            b,
            snapshot_of(a, id).layouts,
            setup,
        );
    let snaps = snapshot_models(b.config.snapshots@);
    assert(snaps == capped(old_snaps.push(taken)));
    let n = snaps.len() - 1;
    assert(snaps[n] == taken);
    assert forall|j: int| 0 <= j < n implies (#[trigger] snaps[j]).id != backup by {
        if snaps[j].id == backup {
            let shift = old_snaps.len() + 1 - snaps.len();
            assert(snaps[j] == old_snaps[j + shift]);
        }
    }
    assert(is_first_snapshot(snaps, backup, n));
    lemma_snapshot_of(snaps, backup, n);
    assert(snapshot_of(b, backup) == taken);
    let mid2 = choose|mid2: AppState| #[trigger]
        snapshot_taken(b, mid2, again, name2, ts2) && layouts_applied(
            mid2,
            c,
            snapshot_of(b, backup).layouts,
            setup2,
        );
    let fs = chosen_fences(layouts, paths, setup2);
    assert(settled(c, layouts, paths, setup2));
    repair_keeps_what_is_normal(fs);
    assert(fences(c) == fs);
    let now = layout_models(c.config.layouts@);
    assert(now[c.layout as int] == c.config.layouts@[c.layout as int]@);
    assert forall|l: int| 0 <= l < layouts.len() implies #[trigger] now[l] == layouts[l] by {}
    assert(now =~= layouts);
}

// ---- names and order ------------------------------------------------------------------------

proof fn lemma_trimmed_start(s: Seq<char>) -> (pre: Seq<char>)
    ensures
        s == pre + trimmed_start(s),
        forall|i: int| 0 <= i < pre.len() ==> is_space(#[trigger] pre[i]),
        trimmed_start(s).len() > 0 ==> !is_space(trimmed_start(s)[0]),
    decreases s.len(),
{
    if s.len() > 0 && is_space(s[0]) {
        let rest = lemma_trimmed_start(s.skip(1));
        let pre = seq![s[0]] + rest;
        assert(s =~= seq![s[0]] + s.skip(1));
        assert(s =~= pre + trimmed_start(s));
        pre
    } else {
        assert(s =~= Seq::<char>::empty() + s);
        Seq::empty()
    }
}

proof fn lemma_trimmed_end(s: Seq<char>) -> (post: Seq<char>)
    ensures
        s == trimmed_end(s) + post,
        forall|i: int| 0 <= i < post.len() ==> is_space(#[trigger] post[i]),
        trimmed_end(s).len() > 0 ==> !is_space(trimmed_end(s).last()),
    decreases s.len(),
{
    if s.len() > 0 && is_space(s.last()) {
        let rest = lemma_trimmed_end(s.drop_last());
        let post = rest.push(s.last());
        assert(s =~= s.drop_last().push(s.last()));
        assert(s =~= trimmed_end(s) + post);
        post
    } else {
        assert(s =~= s + Seq::<char>::empty());
        Seq::empty()
    }
}

/// Trimming a text takes the white space off its two ends and nothing else.
pub proof fn only_the_space_around_is_trimmed(s: Seq<char>) -> (r: (Seq<char>, Seq<char>))
    ensures
        s == r.0 + trimmed(s) + r.1,
        forall|i: int| 0 <= i < r.0.len() ==> is_space(#[trigger] r.0[i]),
        forall|i: int| 0 <= i < r.1.len() ==> is_space(#[trigger] r.1[i]),
        trimmed(s).len() > 0 ==> !is_space(trimmed(s)[0]) && !is_space(trimmed(s).last()),
{
    let pre = lemma_trimmed_start(s);
    let mid = trimmed_start(s);
    let post = lemma_trimmed_end(mid);
    assert(s =~= pre + trimmed(s) + post);
    if trimmed(s).len() > 0 {
        assert(trimmed(s)[0] == mid[0]);
    }
    (pre, post)
}

/// A snapshot has the name it is given, or the one to fall back on where that is blank.
pub proof fn a_blank_name_is_replaced(name: Seq<char>, fallback: Seq<char>)
    ensures
        snapshot_name(name, fallback) == fallback || snapshot_name(name, fallback) == trimmed(name),
        (forall|i: int| 0 <= i < name.len() ==> is_space(#[trigger] name[i])) ==> snapshot_name(
            name,
            fallback,
        ) == fallback,
        (exists|i: int| 0 <= i < name.len() && !is_space(#[trigger] name[i])) ==> snapshot_name(
            name,
            fallback,
        ) == trimmed(name),
{
    let (pre, post) = only_the_space_around_is_trimmed(name);
    let mid = trimmed(name);
    if mid.len() > 0 {
        assert(name[pre.len() as int] == mid[0]);
    } else {
        assert forall|i: int| 0 <= i < name.len() implies is_space(#[trigger] name[i]) by {
            if i < pre.len() {
                assert(name[i] == pre[i]);
            } else {
                assert(name[i] == post[i - pre.len()]);
            }
        }
    }
}

/// The twenty snapshots that come last are kept, in their order.
pub proof fn the_last_twenty_snapshots_are_kept(snaps: Seq<SnapshotModel>)
    ensures
        snaps.len() <= 20 ==> capped(snaps) == snaps,
        snaps.len() > 20 ==> capped(snaps) == snaps.subrange(snaps.len() - 20, snaps.len() as int),
{
}

proof fn lemma_inserted_at(snaps: Seq<SnapshotModel>, x: SnapshotModel, t: i64)
    requires
        forall|i: int, j: int|
            0 <= i < j < snaps.len() ==> (#[trigger] snaps[i]).ts <= (#[trigger] snaps[j]).ts,
    ensures
        inserted(snaps, x).filter(|s: SnapshotModel| s.ts == t) == if x.ts == t {
            snaps.filter(|s: SnapshotModel| s.ts == t).push(x)
        } else {
            snaps.filter(|s: SnapshotModel| s.ts == t)
        },
    decreases snaps.len(),
{
    reveal(Seq::filter);
    let p = |s: SnapshotModel| s.ts == t;
    if snaps.len() == 0 || snaps.last().ts <= x.ts {
        assert(snaps.push(x).drop_last() =~= snaps);
    } else {
        let front = snaps.drop_last();
        assert forall|i: int, j: int| 0 <= i < j < front.len() implies (#[trigger] front[i]).ts <= (
        #[trigger] front[j]).ts by {
            assert(snaps[i].ts <= snaps[j].ts);
        }
        lemma_inserted_at(front, x, t);
        let all = inserted(front, x).push(snaps.last());
        assert(all.drop_last() =~= inserted(front, x));
        if snaps.last().ts == t {
            assert(x.ts != t);
        }
    }
}

/// Snapshots of the same time stay in the order they were in.
pub proof fn snapshots_of_one_time_keep_their_order(snaps: Seq<SnapshotModel>, t: i64)
    ensures
        by_time(snaps).filter(|s: SnapshotModel| s.ts == t) == snaps.filter(
            |s: SnapshotModel| s.ts == t,
        ),
    decreases snaps.len(),
{
    reveal(Seq::filter);
    if snaps.len() > 0 {
        let front = snaps.drop_last();
        snapshots_of_one_time_keep_their_order(front, t);
        sorting_by_time_keeps_every_snapshot(front);
        lemma_inserted_at(by_time(front), snaps.last(), t);
    }
}

proof fn lemma_merged_ids(mine: Seq<SnapshotModel>, theirs: Seq<SnapshotModel>, id: u128)
    ensures
        has_snapshot(merged(mine, theirs), id) <==> has_snapshot(mine, id) || has_snapshot(theirs, id),
    decreases theirs.len(),
{
    if theirs.len() > 0 {
        let front = theirs.drop_last();
        let x = theirs.last();
        lemma_merged_ids(mine, front, id);
        let rest = merged(mine, front);
        assert(has_snapshot(theirs, id) <==> has_snapshot(front, id) || x.id == id) by {
            if has_snapshot(front, id) {
                let i = choose|i: int| 0 <= i < front.len() && (#[trigger] front[i]).id == id;
                assert(theirs[i].id == id);
            }
            assert(theirs[theirs.len() - 1].id == x.id);
            if has_snapshot(theirs, id) && x.id != id {
                let i = choose|i: int| 0 <= i < theirs.len() && (#[trigger] theirs[i]).id == id;
                assert(front[i].id == id);
            }
        }
        if !has_snapshot(rest, x.id) {
            let all = rest.push(x);
            if has_snapshot(rest, id) {
                let i = choose|i: int| 0 <= i < rest.len() && (#[trigger] rest[i]).id == id;
                assert(all[i].id == id);
            }
            assert(all[rest.len() as int].id == x.id);
            if has_snapshot(all, id) && x.id != id {
                let i = choose|i: int| 0 <= i < all.len() && (#[trigger] all[i]).id == id;
                assert(rest[i].id == id);
            }
        }
    }
}

/// The snapshots of an imported configuration are put behind the present ones, but for those that
/// are there already.
pub proof fn imported_snapshots_are_added_once(
    mine: Seq<SnapshotModel>,
    theirs: Seq<SnapshotModel>,
)
    requires
        forall|i: int, j: int|
            0 <= i < theirs.len() && 0 <= j < theirs.len() && (#[trigger] theirs[i]).id == (
            #[trigger] theirs[j]).id ==> i == j,
    ensures
        merged(mine, theirs) == mine + theirs.filter(
            |s: SnapshotModel|
                !exists|i: int| 0 <= i < mine.len() && (#[trigger] mine[i]).id == s.id,
        ),
    decreases theirs.len(),
{
    reveal(Seq::filter);
    if theirs.len() > 0 {
        let front = theirs.drop_last();
        let x = theirs.last();
        assert forall|i: int, j: int|
            0 <= i < front.len() && 0 <= j < front.len() && (#[trigger] front[i]).id == (
            #[trigger] front[j]).id implies i == j by {
            assert(theirs[i].id == theirs[j].id);
        }
        imported_snapshots_are_added_once(mine, front);
        lemma_merged_ids(mine, front, x.id);
        if has_snapshot(front, x.id) {
            let i = choose|i: int| 0 <= i < front.len() && (#[trigger] front[i]).id == x.id;
            assert(theirs[i].id == theirs[theirs.len() - 1].id);
        }
    } else {
        assert(mine =~= mine + Seq::<SnapshotModel>::empty());
    }
}

/// An imported configuration brings its settings, its log and its items; where it has no items the
/// present ones stay. What was walked to in portals is forgotten, and there is something to save.
pub proof fn an_import_replaces_the_configuration(
    a: AppState,
    b: AppState,
    config: Config,
    setup: Setup,
)
    requires
        replaced(a, b, config, setup),
    ensures
        b.config.settings == config.settings,
        b.config.undo_log == config.undo_log,
        (exists|id: ItemId| config.items@.contains_key(id)) ==> b.config.items == config.items,
        (forall|id: ItemId| !config.items@.contains_key(id)) ==> b.config.items == a.config.items,
        b.dirty,
        forall|f: crate::model::FenceId| !b.portal_cwd@.contains_key(f),
        forall|id: ItemId| #[trigger]
            b.config.items@.contains_key(id) ==> b.catalog@.contains_key(
                key_text(b.config.items@[id].key),
            ),
{
    if exists|id: ItemId| config.items@.contains_key(id) {
        let id = choose|id: ItemId| config.items@.contains_key(id);
        assert(config.items@.dom().contains(id));
    } else {
        assert(config.items@.dom() =~= Set::<ItemId>::empty());
    }
}

/// Deleting a snapshot takes that one away, keeps the others in their order, and tells whether it
/// was there.
pub proof fn a_deleted_snapshot_is_gone(s: &mut AppState, id: u128, r: bool, k: int)
    requires
        call_ensures(AppState::delete_snapshot, (s, id), r),
        0 <= k < old(s).config.snapshots.len(),
    ensures
        snapshot_models(final(s).config.snapshots@) == snapshot_models(
            old(s).config.snapshots@,
        ).filter(|x: SnapshotModel| x.id != id),
        old(s).config.snapshots@[k].id == id ==> r && final(s).dirty,
        !r ==> snapshot_models(final(s).config.snapshots@) == snapshot_models(
            old(s).config.snapshots@,
        ),
        final(s).config.layouts == old(s).config.layouts,
{
    let snaps = snapshot_models(old(s).config.snapshots@);
    deleting_keeps_the_other_snapshots(snaps, id);
    assert(snaps[k].id == old(s).config.snapshots@[k].id);
    if !r {
        assert forall|i: int| 0 <= i < snaps.len() implies (#[trigger] snaps[i]).id != id by {}
        lemma_without_nothing(snaps, id);
    }
}

proof fn lemma_without_nothing(snaps: Seq<SnapshotModel>, id: u128)
    requires
        forall|i: int| 0 <= i < snaps.len() ==> (#[trigger] snaps[i]).id != id,
    ensures
        without(snaps, id) == snaps,
    decreases snaps.len(),
{
    if snaps.len() > 0 {
        let n = snaps.len() - 1;
        assert(snaps[n].id != id);
        lemma_without_nothing(snaps.drop_last(), id);
        assert(snaps =~= snaps.drop_last().push(snaps.last()));
    }
}

/// Taking or deleting a snapshot changes nothing but the snapshots.
pub proof fn handling_snapshots_leaves_the_rest(a: AppState, b: AppState)
    requires
        same_but_snapshots(a, b),
    ensures
        a.config.settings == b.config.settings && a.config.items == b.config.items
            && a.config.layouts == b.config.layouts && a.config.rules == b.config.rules
            && a.config.undo_log == b.config.undo_log && a.config.schema_version
            == b.config.schema_version,
        a.layout == b.layout && a.store == b.store && a.work_areas == b.work_areas && a.catalog
            == b.catalog,
        a.portal_items == b.portal_items && a.portal_members == b.portal_members && a.portal_cwd
            == b.portal_cwd,
        a.first_run == b.first_run && a.recovered_from == b.recovered_from,
{
}

/// A snapshot that is restored brings its layouts back: the one for the monitors that are there is
/// shown, or else the fences of the first, and what was shown before is kept as a snapshot.
pub proof fn a_restored_snapshot_is_shown(
    a: AppState,
    b: AppState,
    id: u128,
    backup: u128,
    name: Seq<char>,
    ts: i64,
    setup: Setup,
    k: int,
)
    requires
        restored(a, b, id, backup, name, ts, setup),
        0 <= k < a.config.snapshots.len(),
        a.config.snapshots@[k].id == id,
        forall|j: int| 0 <= j < k ==> (#[trigger] a.config.snapshots@[j]).id != id,
    ensures
        settled(
            b,
            layout_models(a.config.snapshots@[k].layouts@),
            area_paths(a.work_areas@),
            setup,
        ),
        b.dirty,
        b.config.settings == a.config.settings,
        b.config.items == a.config.items,
{
    let snaps = snapshot_models(a.config.snapshots@);
    assert(snaps[k].id == id);
    assert forall|j: int| 0 <= j < k implies (#[trigger] snaps[j]).id != id by {
        assert(a.config.snapshots@[j].id != id);
    }
    assert(is_first_snapshot(snaps, id, k));
    let i = choose|i: int| is_first_snapshot(snaps, id, i);
    assert(is_first_snapshot(snaps, id, i));
    if i < k {
        assert(snaps[i].id != id);
    }
    if k < i {
        assert(snaps[k].id != id);
    }
}

/// A snapshot can be restored where it is there; otherwise nothing changes.
pub proof fn only_a_snapshot_that_is_there_is_restored(
    s: &mut AppState,
    id: u128,
    name: &str,
    fallback: &str,
    setup: Setup,
    r: bool,
    k: int,
)
    requires
        call_ensures(AppState::restore_snapshot_with_backup, (s, id, name, fallback, setup), r),
        0 <= k < old(s).config.snapshots.len(),
    ensures
        old(s).config.snapshots@[k].id == id ==> r,
        (forall|j: int|
            0 <= j < old(s).config.snapshots.len() ==> (#[trigger] old(s).config.snapshots@[j]).id
                != id) ==> !r && *final(s) == *old(s),
{
    let snaps = snapshot_models(old(s).config.snapshots@);
    assert(snaps[k].id == old(s).config.snapshots@[k].id);
    if r {
        let i = choose|i: int| 0 <= i < snaps.len() && (#[trigger] snaps[i]).id == id;
        assert(old(s).config.snapshots@[i].id == id);
    }
}

} // verus!
