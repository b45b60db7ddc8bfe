//! Reconciling the item table with what is on the desktop.

use crate::clock::{is_random_id, new_id, now_unix};
use crate::config::{
    can_file, fence_of, fences_without, filed_item_is_in_one_fence, filing_keeps_other_items,
    refs_without, remove_item,
};
use crate::filing::{
    entry_key, files, route_of, same_but_files, sent, target_of, DesktopEntry, FilesModel,
};
use crate::model::{
    icon_text, key_text, AssignedBy, FenceId, FenceModel, Item, ItemId, ItemKey, ItemRef,
};
use crate::state::{fences, in_use, AppState};
use crate::tables::{ids_of, lists_keys};
use crate::tabs::lemma_first_index;
use crate::text::{chars_of, string_of};
use std::collections::HashSet;
use vstd::prelude::*;

verus! {

/// How long the record of a missing item is kept, in seconds.
pub const ORPHAN_GC_SECS: i64 = 604_800;

/// What one reconciliation did.
#[derive(Clone, Copy, Debug, PartialEq, Eq, Structural)]
pub struct SyncReport {
    pub added: usize,
    pub removed: usize,
    pub updated: usize,
}

impl SyncReport {
    /// Whether anything was added, removed or updated.
    pub fn changed(&self) -> (r: bool)
        ensures
            r == (self.added > 0 || self.removed > 0 || self.updated > 0),
    {
        self.added > 0 || self.removed > 0 || self.updated > 0
    }
}

// ---- names --------------------------------------------------------------------------------

/// A file name without its extension. A name that only begins with a dot has none.
pub open spec fn stem_of(name: Seq<char>) -> Seq<char> {
    if (exists|i: int| crate::paths::last_dot(name, i)) && crate::paths::last_dot_of(name) > 0
        && name != seq!['.', '.'] {
        name.take(crate::paths::last_dot_of(name))
    } else {
        name
    }
}

/// A file name without its extension.
pub fn file_stem(name: &str) -> (r: String)
    ensures
        r@ == stem_of(name@),
{
    let s = chars_of(name);
    if s.len() == 2 && s[0] == '.' && s[1] == '.' {
        assert(name@ =~= seq!['.', '.']);
        return string_of(&s);
    }
    let mut i: usize = s.len();
    while i > 0
        invariant
            i <= s.len(),
            s@ == name@,
            !(s.len() == 2 && s@[0] == '.' && s@[1] == '.'),
            forall|j: int| i <= j < s.len() ==> s@[j] != '.',
        decreases i,
    {
        i = i - 1;
        if s[i] == '.' {
            assert(crate::paths::last_dot(s@, i as int));
            assert(crate::paths::last_dot_of(s@) == i);
            if i == 0 {
                return string_of(&s);
            }
            assert(name@ != seq!['.', '.']) by {
                if name@ == seq!['.', '.'] {
                    assert(s.len() == 2 && s@[0] == '.' && s@[1] == '.');
                }
            }
            let mut head = s;
            head.truncate(i);
            assert(head@ =~= name@.take(i as int));
            return string_of(&head);
        }
    }
    string_of(&s)
}

/// The name that an item is shown under: the shell's, or, where it gives none, the file's, without
/// the extension unless it is a folder.
pub open spec fn shown_name(shell: Option<String>, file_name: Seq<char>, is_folder: bool) -> Seq<char> {
    match shell {
        Some(n) => n@,
        None => if is_folder {
            file_name
        } else {
            stem_of(file_name)
        },
    }
}

/// The name that an item is shown under.
pub fn display_name(shell: &Option<String>, file_name: &str, is_folder: bool) -> (r: String)
    ensures
        r@ == shown_name(*shell, file_name@, is_folder),
{
    match shell {
        Some(n) => n.clone(),
        None => if is_folder {
            file_name.to_owned()
        } else {
            file_stem(file_name)
        },
    }
}

// ---- one entry ----------------------------------------------------------------------------

/// The record of an item that is on the desktop again, or still.
pub open spec fn refreshed(it: Item, e: DesktopEntry) -> Item {
    Item {
        orphaned_since: None,
        mtime: e.mtime,
        icon_key: if icon_text(it.icon_key) != icon_text(e.icon_key) || it.mtime != e.mtime {
            e.icon_key
        } else {
            it.icon_key
        },
        size: e.size,
        ..it
    }
}

/// Refreshing the record changes it.
pub open spec fn is_stale(it: Item, e: DesktopEntry) -> bool {
    it.orphaned_since is Some || it.mtime != e.mtime || icon_text(it.icon_key) != icon_text(
        e.icon_key,
    ) || it.size != e.size
}

/// `it` is the record of a new item for an entry.
pub open spec fn is_record_of(it: Item, e: DesktopEntry, id: ItemId) -> bool {
    &&& it.id == id
    &&& key_text(it.key) == entry_key(e)
    &&& it.origin == e.origin
    &&& it.display_name@ == shown_name(e.shell_name, e.file_name@, e.is_folder)
    &&& it.file_id is None
    &&& it.mtime == e.mtime
    &&& it.is_folder == e.is_folder
    &&& it.attrs == e.attributes
    &&& it.icon_key == e.icon_key
    &&& it.orphaned_since is None
    &&& it.size == e.size
    &&& it.open_count == 0
    &&& it.last_opened is None
}

/// Entry `e` was reconciled. One that the catalog knows has its record refreshed and, where its
/// item is in no fence, is filed. Another one gets a record with a new id and is filed.
pub open spec fn entry_synced(
    a: FilesModel,
    b: FilesModel,
    e: DesktopEntry,
    keep_updated: bool,
    id: ItemId,
    ts: i64,
) -> bool {
    let key = entry_key(e);
    let target = target_of(a.fences, route_of(keep_updated, e));
    if a.catalog.contains_key(key) {
        let stale = a.items.contains_key(id) && is_stale(a.items[id], e);
        let mid = FilesModel {
            items: if a.items.contains_key(id) {
                a.items.insert(id, refreshed(a.items[id], e))
            } else {
                a.items
            },
            dirty: a.dirty || stale || (fence_of(a.fences, id) is None && target is Some),
            ..a
        };
        &&& id == a.catalog[key]
        &&& b == if fence_of(a.fences, id) is None {
            sent(mid, id, target, ts)
        } else {
            mid
        }
    } else {
        &&& is_random_id(id)
        &&& b.items.contains_key(id) && is_record_of(b.items[id], e, id)
        &&& b == sent(
            FilesModel {
                items: a.items.insert(id, b.items[id]),
                catalog: a.catalog.insert(key, id),
                dirty: true,
                ..a
            },
            id,
            target,
            ts,
        )
    }
}

/// What reconciling one entry counted.
#[derive(Clone, Copy, Debug, PartialEq, Eq, Structural)]
pub enum EntryChange {
    Unchanged,
    Updated,
    Added,
}

/// What reconciling an entry counts.
pub open spec fn change_of(a: FilesModel, e: DesktopEntry) -> EntryChange {
    let key = entry_key(e);
    if !a.catalog.contains_key(key) {
        EntryChange::Added
    } else if a.items.contains_key(a.catalog[key]) && is_stale(a.items[a.catalog[key]], e) {
        EntryChange::Updated
    } else {
        EntryChange::Unchanged
    }
}

fn refresh(it: &Item, e: &DesktopEntry) -> (r: (Item, bool))
    ensures
        r.0 == refreshed(*it, *e),
        r.1 == is_stale(*it, *e),
{
    let icon_differs = !it.icon_key.same(&e.icon_key);
    let touched = it.mtime != e.mtime || icon_differs;
    let mut next = it.clone();
    next.orphaned_since = None;
    next.mtime = e.mtime;
    if touched {
        next.icon_key = e.icon_key.clone();
    }
    next.size = e.size;
    (next, it.orphaned_since.is_some() || touched || it.size != e.size)
}

fn new_record(e: &DesktopEntry, key: ItemKey, id: ItemId) -> (r: Item)
    requires
        key_text(key) == entry_key(*e),
    ensures
        is_record_of(r, *e, id),
{
    Item {
        id,
        key,
        origin: e.origin,
        display_name: display_name(&e.shell_name, e.file_name.as_str(), e.is_folder),
        file_id: None,
        mtime: e.mtime,
        is_folder: e.is_folder,
        attrs: e.attributes,
        icon_key: e.icon_key.clone(),
        orphaned_since: None,
        size: e.size,
        open_count: 0,
        last_opened: None,
    }
}

/// Entry `e` was reconciled at some time.
pub open spec fn entry_done(
    a: FilesModel,
    b: FilesModel,
    e: DesktopEntry,
    keep_updated: bool,
    id: ItemId,
) -> bool {
    exists|ts: i64| #[trigger] entry_synced(a, b, e, keep_updated, id, ts)
}

impl AppState {
    /// Reconciles an entry that the catalog knows. Returns whether its record changed.
    fn sync_known(&mut self, e: &DesktopEntry, id: ItemId) -> (r: bool)
        requires
            in_use(*old(self)),
            old(self).catalog@.contains_key(entry_key(*e)),
            old(self).catalog@[entry_key(*e)] == id,
        ensures
            entry_done(
                files(*old(self)),
                files(*final(self)),
                *e,
                old(self).config.rules.keep_updated,
                id,
            ),
            r == (change_of(files(*old(self)), *e) is Updated),
            same_but_files(*final(self), *old(self)),
    {
        let ghost a = files(*self);
        let ghost keep = self.config.rules.keep_updated;
        let decision = self.route_decision(e);
        let target = self.target_fence(decision);
        let next: Option<(Item, bool)> = match self.config.items.get(&id) {
            Some(it) => Some(refresh(it, e)),
            None => None,
        };
        let mut updated = false;
        if let Some((it, stale)) = next {
            self.config.items.insert(id, it);
            if stale {
                updated = true;
                self.dirty = true;
            }
        }
        let layout: usize = self.layout;
        let ghost mut ts: i64 = 0;
        if self.config.fence_of_item(layout, id).is_none() {
            if target.is_some() {
                self.dirty = true;
            }
            let ghost mid = files(*self);
            self.send_item(id, target);
            proof {
                ts = choose|ts: i64| files(*self) == #[trigger] sent(mid, id, target, ts);
            }
        }
        assert(entry_synced(a, files(*self), *e, keep, id, ts));
        updated
    }

    /// Records and files an entry that the catalog does not know.
    fn sync_new(&mut self, e: &DesktopEntry, key: ItemKey) -> (id: ItemId)
        requires
            in_use(*old(self)),
            key_text(key) == entry_key(*e),
            !old(self).catalog@.contains_key(entry_key(*e)),
        ensures
            entry_done(
                files(*old(self)),
                files(*final(self)),
                *e,
                old(self).config.rules.keep_updated,
                id,
            ),
            same_but_files(*final(self), *old(self)),
    {
        let ghost a = files(*self);
        let ghost keep = self.config.rules.keep_updated;
        let decision = self.route_decision(e);
        let target = self.target_fence(decision);
        let id: ItemId = new_id();
        let record = new_record(e, key.clone(), id);
        let ghost it = record;
        self.config.items.insert(id, record);
        self.catalog.insert(key, id);
        self.dirty = true;
        let ghost mid = files(*self);
        self.send_item(id, target);
        let ghost ts = choose|ts: i64| files(*self) == #[trigger] sent(mid, id, target, ts);
        assert(files(*self).items[id] == it);
        assert(entry_synced(a, files(*self), *e, keep, id, ts));
        id
    }

    /// Reconciles one entry of the desktop. Returns its item, and what changed.
    pub fn sync_entry(&mut self, e: &DesktopEntry) -> (r: (ItemId, EntryChange))
        requires
            in_use(*old(self)),
        ensures
            entry_done(
                files(*old(self)),
                files(*final(self)),
                *e,
                old(self).config.rules.keep_updated,
                r.0,
            ),
            r.1 == change_of(files(*old(self)), *e),
            same_but_files(*final(self), *old(self)),
    {
        let key = ItemKey::from_path(e.path.as_str());
        assert(key_text(key) == entry_key(*e));
        match self.catalog.get(&key) {
            Some(id) => if self.sync_known(e, id) {
                (id, EntryChange::Updated)
            } else {
                (id, EntryChange::Unchanged)
            },
            None => {
                let id: ItemId = self.sync_new(e, key);
                (id, EntryChange::Added)
            },
        }
    }
}

// ---- missing items ------------------------------------------------------------------------

/// An item that was not seen and is not known to be missing.
pub open spec fn newly_missing(a: FilesModel, seen: Set<ItemId>, id: ItemId) -> bool {
    a.items.contains_key(id) && !seen.contains(id) && a.items[id].orphaned_since is None
}

/// An item that was not seen and has been missing for too long.
pub open spec fn expired(a: FilesModel, seen: Set<ItemId>, now: int, id: ItemId) -> bool {
    a.items.contains_key(id) && !seen.contains(id) && match a.items[id].orphaned_since {
        Some(since) => now - since > ORPHAN_GC_SECS,
        None => false,
    }
}

/// The items once the missing ones were marked.
pub open spec fn marked(a: FilesModel, seen: Set<ItemId>, now: i64) -> Map<ItemId, Item> {
    Map::new(
        |id: ItemId| a.items.contains_key(id),
        |id: ItemId|
            if newly_missing(a, seen, id) {
                Item { orphaned_since: Some(now), ..a.items[id] }
            } else {
                a.items[id]
            },
    )
}

/// The items that have been missing for too long.
pub open spec fn gone(a: FilesModel, seen: Set<ItemId>, now: i64) -> Set<ItemId> {
    Set::new(|id: ItemId| expired(a, seen, now as int, id))
}

/// The items that are newly missing.
pub open spec fn missing(a: FilesModel, seen: Set<ItemId>) -> Set<ItemId> {
    Set::new(|id: ItemId| newly_missing(a, seen, id))
}

/// The memberships of items outside a set.
pub open spec fn refs_outside(refs: Seq<ItemRef>, out: Set<ItemId>) -> Seq<ItemRef>
    decreases refs.len(),
{
    if refs.len() == 0 {
        Seq::empty()
    } else {
        let rest = refs_outside(refs.drop_last(), out);
        if out.contains(refs.last().item_id) {
            rest
        } else {
            rest.push(refs.last())
        }
    }
}

/// The fences without the items of a set.
pub open spec fn fences_outside(fs: Seq<FenceModel>, out: Set<ItemId>) -> Seq<FenceModel> {
    Seq::new(
        fs.len(),
        |i: int| FenceModel { items: refs_outside(fs[i].items, out), ..fs[i] },
    )
}

/// The keys of the items of a set.
pub open spec fn keys_of(items: Map<ItemId, Item>, ids: Set<ItemId>) -> Set<(bool, Seq<char>)> {
    Set::new(|k: (bool, Seq<char>)| exists|id: ItemId| #[trigger]
        ids.contains(id) && key_text(items[id].key) == k)
}

/// What marking and dropping missing items leaves: those that were not seen are marked, keeping
/// their place, and those that have been missing for too long are forgotten.
pub open spec fn swept(a: FilesModel, seen: Set<ItemId>, now: i64) -> FilesModel {
    let out = gone(a, seen, now);
    FilesModel {
        items: marked(a, seen, now).remove_keys(out),
        catalog: a.catalog.remove_keys(keys_of(a.items, out)),
        fences: fences_outside(a.fences, out),
        dirty: a.dirty || (exists|id: ItemId| #[trigger] newly_missing(a, seen, id)) || (exists|
            id: ItemId,
        | #[trigger] expired(a, seen, now as int, id)),
        ..a
    }
}

proof fn lemma_refs_outside_empty(refs: Seq<ItemRef>)
    ensures
        refs_outside(refs, Set::empty()) == refs,
    decreases refs.len(),
{
    if refs.len() > 0 {
        lemma_refs_outside_empty(refs.drop_last());
        assert(refs == refs.drop_last().push(refs.last()));
    }
}

proof fn lemma_refs_outside_insert(refs: Seq<ItemRef>, out: Set<ItemId>, id: ItemId)
    ensures
        refs_without(refs_outside(refs, out), id) == refs_outside(refs, out.insert(id)),
    decreases refs.len(),
{
    if refs.len() > 0 {
        let t = refs.drop_last();
        lemma_refs_outside_insert(t, out, id);
        let rest = refs_outside(t, out);
        if !out.contains(refs.last().item_id) {
            assert(rest.push(refs.last()).drop_last() == rest);
        }
    }
}

proof fn lemma_fences_outside_insert(fs: Seq<FenceModel>, out: Set<ItemId>, id: ItemId)
    ensures
        fences_without(fences_outside(fs, out), id) == fences_outside(fs, out.insert(id)),
{
    assert forall|i: int| 0 <= i < fs.len() implies #[trigger] fences_without(
        fences_outside(fs, out),
        id,
    )[i] == fences_outside(fs, out.insert(id))[i] by {
        lemma_refs_outside_insert(fs[i].items, out, id);
    }
    assert(fences_without(fences_outside(fs, out), id) =~= fences_outside(fs, out.insert(id)));
}

impl AppState {
    /// Marks the items that were not seen. Returns how many are newly missing, and which have been
    /// missing for too long.
    fn mark_missing(&mut self, seen: &HashSet<ItemId>, now: i64) -> (r: (usize, Vec<ItemId>))
        requires
            in_use(*old(self)),
        ensures
            files(*final(self)) == (FilesModel {
                items: marked(files(*old(self)), seen@, now),
                dirty: old(self).dirty || (exists|id: ItemId| #[trigger]
                    newly_missing(files(*old(self)), seen@, id)),
                ..files(*old(self))
            }),
            same_but_files(*final(self), *old(self)),
            r.0 == missing(files(*old(self)), seen@).len(),
            missing(files(*old(self)), seen@).finite(),
            r.1@.no_duplicates(),
            forall|id: ItemId| #[trigger]
                r.1@.contains(id) <==> expired(files(*old(self)), seen@, now as int, id),
    {
        let ghost a = files(*self);
        let ids = ids_of(&self.config.items);
        let mut count: usize = 0;
        let mut out: Vec<ItemId> = Vec::new();
        let ghost mut found: Set<ItemId> = Set::empty();
        let n: usize = ids.len();
        for k in 0..n
            invariant
                n == ids.len(),
                lists_keys(ids@, a.items),
                in_use(*self),
                same_but_files(*self, *old(self)),
                a == files(*old(self)),
                files(*self).fences == a.fences,
                files(*self).catalog == a.catalog,
                files(*self).undo_log == a.undo_log,
                self.config.items@.dom() == a.items.dom(),
                forall|x: ItemId| #[trigger]
                    self.config.items@.contains_key(x) ==> self.config.items@[x] == if newly_missing(
                        a,
                        seen@,
                        x,
                    ) && ids@.take(k as int).contains(x) {
                        Item { orphaned_since: Some(now), ..a.items[x] }
                    } else {
                        a.items[x]
                    },
                found.finite(),
                found.len() == count,
                count <= k,
                forall|x: ItemId| #[trigger]
                    found.contains(x) <==> newly_missing(a, seen@, x) && ids@.take(
                        k as int,
                    ).contains(x),
                self.dirty == (a.dirty || count > 0),
                out@.no_duplicates(),
                forall|x: ItemId| #[trigger]
                    out@.contains(x) <==> expired(a, seen@, now as int, x) && ids@.take(
                        k as int,
                    ).contains(x),
        {
            let id: ItemId = ids[k];
            let ghost done = ids@.take(k as int);
            let ghost next = ids@.take(k + 1);
            proof {
                assert(next == done.push(id));
                assert(ids@.contains(id)) by {
                    assert(ids@[k as int] == id);
                }
                assert(!done.contains(id)) by {
                    if done.contains(id) {
                        let j = done.index_of(id);
                        assert(ids@[j] == ids@[k as int]);
                    }
                }
                assert forall|x: ItemId| #[trigger] next.contains(x) <==> done.contains(x) || x
                    == id by {
                    if done.contains(x) {
                        assert(next[done.index_of(x)] == x);
                    }
                    if x == id {
                        assert(next[k as int] == x);
                    }
                    if next.contains(x) {
                        let j = next.index_of(x);
                        if j < k {
                            assert(done[j] == x);
                        }
                    }
                }
            }
            if !seen.contains(&id) {
                let it: Option<Item> = match self.config.items.get(&id) {
                    Some(it) => Some(it.clone()),
                    None => None,
                };
                if let Some(it) = it {
                    assert(it == a.items[id]);
                    match it.orphaned_since {
                        None => {
                            let mut next_it = it;
                            next_it.orphaned_since = Some(now);
                            self.config.items.insert(id, next_it);
                            assert(self.config.items@.dom() =~= a.items.dom());
                            count = count + 1;
                            self.dirty = true;
                            proof {
                                found = found.insert(id);
                            }
                        },
                        Some(since) => {
                            if now as i128 - since as i128 > ORPHAN_GC_SECS as i128 {
                                let ghost before = out@;
                                out.push(id);
                                proof {
                                    lemma_push_id(before, id);
                                }
                            }
                        },
                    }
                }
            }
        }
        proof {
            assert(ids@.take(n as int) == ids@);
            assert(self.config.items@ =~= marked(a, seen@, now));
            assert(found =~= missing(a, seen@));
            if count > 0 {
                assert(found.len() > 0);
                let x = found.choose();
                assert(found.contains(x));
                assert(newly_missing(a, seen@, x));
            }
            if exists|id: ItemId| #[trigger] newly_missing(a, seen@, id) {
                let x = choose|id: ItemId| #[trigger] newly_missing(a, seen@, id);
                assert(found.contains(x));
                assert(found.len() > 0);
            }
        }
        (count, out)
    }

    /// Forgets an item: its record, its key and its places in the fences.
    fn forget_item(&mut self, id: ItemId)
        requires
            in_use(*old(self)),
        ensures
            ({
                let a = files(*old(self));
                files(*final(self)) == (FilesModel {
                    items: a.items.remove(id),
                    catalog: if a.items.contains_key(id) {
                        a.catalog.remove(key_text(a.items[id].key))
                    } else {
                        a.catalog
                    },
                    fences: fences_without(a.fences, id),
                    dirty: true,
                    ..a
                })
            }),
            same_but_files(*final(self), *old(self)),
    {
        let removed = self.config.items.remove(&id);
        if let Some(it) = removed {
            self.catalog.remove(&it.key);
        }
        let layout: usize = self.layout;
        remove_item(&mut self.config.layouts[layout].fences, id);
        self.dirty = true;
        assert(files(*self).fences =~= fences_without(fences(*old(self)), id));
    }

    /// Marks the items that were not seen, and forgets those that have been missing for too long.
    /// Returns how many are newly missing.
    pub fn sweep_missing(&mut self, seen: &HashSet<ItemId>, now: i64) -> (r: usize)
        requires
            in_use(*old(self)),
        ensures
            files(*final(self)) == swept(files(*old(self)), seen@, now),
            missing(files(*old(self)), seen@).finite(),
            r == missing(files(*old(self)), seen@).len(),
            same_but_files(*final(self), *old(self)),
    {
        let ghost a = files(*self);
        let (count, out) = self.mark_missing(seen, now);
        let ghost m = files(*self);
        let n: usize = out.len();
        let ghost all = gone(a, seen@, now);
        proof {
            assert(m.fences =~= fences_outside(m.fences, Set::empty())) by {
                assert forall|i: int| 0 <= i < m.fences.len() implies #[trigger] m.fences[i]
                    == fences_outside(m.fences, Set::empty())[i] by {
                    lemma_refs_outside_empty(m.fences[i].items);
                }
            }
            assert(out@.take(0).to_set() =~= Set::<ItemId>::empty());
            assert(m.items =~= m.items.remove_keys(Set::empty()));
            assert(keys_of(a.items, Set::empty()) =~= Set::empty());
            assert(m.catalog =~= m.catalog.remove_keys(Set::empty()));
        }
        for k in 0..n
            invariant
                n == out.len(),
                in_use(*self),
                same_but_files(*self, *old(self)),
                a == files(*old(self)),
                m.items == marked(a, seen@, now),
                m.catalog == a.catalog,
                m.fences == a.fences,
                m.undo_log == a.undo_log,
                out@.no_duplicates(),
                forall|id: ItemId| #[trigger]
                    out@.contains(id) <==> expired(a, seen@, now as int, id),
                files(*self) == (FilesModel {
                    items: m.items.remove_keys(out@.take(k as int).to_set()),
                    catalog: m.catalog.remove_keys(
                        keys_of(a.items, out@.take(k as int).to_set()),
                    ),
                    fences: fences_outside(m.fences, out@.take(k as int).to_set()),
                    dirty: m.dirty || k > 0,
                    ..m
                }),
        {
            let id: ItemId = out[k];
            let ghost done = out@.take(k as int).to_set();
            let ghost next = out@.take(k + 1).to_set();
            proof {
                assert(out@.take(k + 1) == out@.take(k as int).push(id));
                assert(next =~= done.insert(id)) by {
                    assert forall|x: ItemId| next.contains(x) <==> done.insert(id).contains(x) by {
                        lemma_push_id(out@.take(k as int), id);
                    }
                }
                assert(out@.contains(id)) by {
                    assert(out@[k as int] == id);
                }
                assert(!done.contains(id)) by {
                    if out@.take(k as int).contains(id) {
                        let j = out@.take(k as int).index_of(id);
                        assert(out@[j] == out@[k as int]);
                    }
                }
                assert(expired(a, seen@, now as int, id));
                lemma_fences_outside_insert(m.fences, done, id);
            }
            self.forget_item(id);
            proof {
                assert(m.items.remove_keys(done).remove(id) =~= m.items.remove_keys(next));
                let k0 = key_text(a.items[id].key);
                assert(m.items[id].key == a.items[id].key);
                assert(keys_of(a.items, next) =~= keys_of(a.items, done).insert(k0)) by {
                    assert forall|q: (bool, Seq<char>)| keys_of(a.items, next).contains(q)
                        <==> keys_of(a.items, done).insert(k0).contains(q) by {
                        if keys_of(a.items, next).contains(q) {
                            let x = choose|x: ItemId| #[trigger]
                                next.contains(x) && key_text(a.items[x].key) == q;
                            if x != id {
                                assert(done.contains(x));
                            }
                        }
                        if keys_of(a.items, done).contains(q) {
                            let x = choose|x: ItemId| #[trigger]
                                done.contains(x) && key_text(a.items[x].key) == q;
                            assert(next.contains(x));
                        }
                        assert(next.contains(id));
                    }
                }
                assert(m.catalog.remove_keys(keys_of(a.items, done)).remove(k0)
                    =~= m.catalog.remove_keys(keys_of(a.items, next)));
            }
        }
        proof {
            assert(out@.take(n as int) == out@);
            assert(out@.to_set() =~= all);
            if n > 0 {
                assert(out@.contains(out@[0]));
                assert(expired(a, seen@, now as int, out@[0]));
            }
            if exists|id: ItemId| #[trigger] expired(a, seen@, now as int, id) {
                let x = choose|id: ItemId| #[trigger] expired(a, seen@, now as int, id);
                assert(out@.contains(x));
            }
        }
        count
    }
}

proof fn lemma_push_id(s: Seq<ItemId>, id: ItemId)
    ensures
        forall|x: ItemId| #[trigger] s.push(id).contains(x) <==> s.contains(x) || x == id,
        s.no_duplicates() && !s.contains(id) ==> s.push(id).no_duplicates(),
{
    assert forall|x: ItemId| #[trigger] s.push(id).contains(x) <==> s.contains(x) || x == id by {
        if s.contains(x) {
            assert(s.push(id)[s.index_of(x)] == x);
        }
        if x == id {
            assert(s.push(id)[s.len() as int] == x);
        }
        if s.push(id).contains(x) {
            let k = s.push(id).index_of(x);
            if k < s.len() {
                assert(s[k] == x);
            }
        }
    }
}

// ---- the whole desktop --------------------------------------------------------------------

/// `trace` goes from `start` through one reconciled entry after the other; `ids` are their items.
pub open spec fn follows(
    trace: Seq<FilesModel>,
    ids: Seq<ItemId>,
    start: FilesModel,
    entries: Seq<DesktopEntry>,
    keep_updated: bool,
) -> bool {
    &&& trace.len() == entries.len() + 1
    &&& ids.len() == entries.len()
    &&& trace[0] == start
    &&& forall|k: int|
        0 <= k < entries.len() ==> #[trigger] entry_done(
            trace[k],
            trace[k + 1],
            entries[k],
            keep_updated,
            ids[k],
        )
}

/// How many of the entries gave this change.
pub open spec fn count_changes(
    trace: Seq<FilesModel>,
    entries: Seq<DesktopEntry>,
    k: int,
    change: EntryChange,
) -> nat
    decreases k,
{
    if k <= 0 {
        0
    } else {
        count_changes(trace, entries, k - 1, change) + if change_of(trace[k - 1], entries[k - 1])
            == change {
            1nat
        } else {
            0nat
        }
    }
}

/// The desktop was reconciled at `now`: entry by entry, then the items of none of them were
/// marked as missing, or forgotten.
pub open spec fn desktop_synced(
    a: FilesModel,
    b: FilesModel,
    entries: Seq<DesktopEntry>,
    keep_updated: bool,
    now: i64,
    report: SyncReport,
) -> bool {
    exists|trace: Seq<FilesModel>, ids: Seq<ItemId>| #[trigger]
        synced_through(trace, ids, a, b, entries, keep_updated, now, report)
}

/// The desktop was reconciled at `now` through these states; `ids` are the items of the entries.
pub open spec fn synced_through(
    trace: Seq<FilesModel>,
    ids: Seq<ItemId>,
    a: FilesModel,
    b: FilesModel,
    entries: Seq<DesktopEntry>,
    keep_updated: bool,
    now: i64,
    report: SyncReport,
) -> bool {
    let n = entries.len() as int;
    &&& follows(trace, ids, a, entries, keep_updated)
    &&& b == swept(trace.last(), ids.to_set(), now)
    &&& report.added == count_changes(trace, entries, n, EntryChange::Added)
    &&& report.updated == count_changes(trace, entries, n, EntryChange::Updated)
    &&& report.removed == missing(trace.last(), ids.to_set()).len()
}

proof fn lemma_count_prefix(
    t: Seq<FilesModel>,
    u: Seq<FilesModel>,
    entries: Seq<DesktopEntry>,
    k: int,
    change: EntryChange,
)
    requires
        0 <= k <= t.len(),
        k <= u.len(),
        forall|i: int| 0 <= i < k ==> t[i] == u[i],
    ensures
        count_changes(t, entries, k, change) == count_changes(u, entries, k, change),
        count_changes(t, entries, k, change) <= k,
    decreases k,
{
    if k > 0 {
        lemma_count_prefix(t, u, entries, k - 1, change);
    }
}

impl AppState {
    /// Reconciles the item table with the desktop's entries at time `now`. New entries get a
    /// record and are filed. The items of no entry are marked as missing but keep their places,
    /// and are forgotten once they have been missing for seven days.
    pub fn sync_desktop_at(&mut self, entries: &Vec<DesktopEntry>, now: i64) -> (r: SyncReport)
        requires
            in_use(*old(self)),
        ensures
            desktop_synced(
                files(*old(self)),
                files(*final(self)),
                entries@,
                old(self).config.rules.keep_updated,
                now,
                r,
            ),
            same_but_files(*final(self), *old(self)),
    {
        let ghost a = files(*self);
        let ghost keep = self.config.rules.keep_updated;
        let ghost mut trace: Seq<FilesModel> = seq![a];
        let ghost mut ids: Seq<ItemId> = Seq::empty();
        let mut added: usize = 0;
        let mut updated: usize = 0;
        let mut seen: HashSet<ItemId> = HashSet::new();
        let n: usize = entries.len();
        assert(seen@ =~= ids.to_set());
        for k in 0..n
            invariant
                n == entries.len(),
                in_use(*self),
                same_but_files(*self, *old(self)),
                keep == old(self).config.rules.keep_updated,
                trace.len() == k + 1,
                ids.len() == k,
                trace[0] == a,
                trace[k as int] == files(*self),
                forall|j: int|
                    0 <= j < k ==> #[trigger] entry_done(
                        trace[j],
                        trace[j + 1],
                        entries@[j],
                        keep,
                        ids[j],
                    ),
                seen@ == ids.to_set(),
                added == count_changes(trace, entries@, k as int, EntryChange::Added),
                updated == count_changes(trace, entries@, k as int, EntryChange::Updated),
                added <= k,
                updated <= k,
        {
            let (id, change) = self.sync_entry(&entries[k]);
            seen.insert(id);
            let ghost old_trace = trace;
            let ghost old_ids = ids;
            proof {
                trace = trace.push(files(*self));
                ids = ids.push(id);
                lemma_push_id(old_ids, id);
                assert(seen@ =~= ids.to_set());
                assert forall|j: int| 0 <= j < k + 1 implies #[trigger] entry_done(
                    trace[j],
                    trace[j + 1],
                    entries@[j],
                    keep,
                    ids[j],
                ) by {
                    if j < k {
                        assert(entry_done(
                            old_trace[j],
                            old_trace[j + 1],
                            entries@[j],
                            keep,
                            old_ids[j],
                        ));
                    }
                }
                lemma_count_prefix(old_trace, trace, entries@, k as int, EntryChange::Added);
                lemma_count_prefix(old_trace, trace, entries@, k as int, EntryChange::Updated);
                assert(trace[k as int] == old_trace[k as int]);
            }
            match change {
                EntryChange::Added => {
                    added = added + 1;
                },
                EntryChange::Updated => {
                    updated = updated + 1;
                },
                EntryChange::Unchanged => {},
            }
        }
        assert(follows(trace, ids, a, entries@, keep));
        assert(trace.last() == files(*self));
        let removed: usize = self.sweep_missing(&seen, now);
        let report = SyncReport { added, removed, updated };
        assert(synced_through(trace, ids, a, files(*self), entries@, keep, now, report));
        report
    }

    /// Reconciles the item table with the desktop's entries now.
    pub fn sync_desktop(&mut self, entries: &Vec<DesktopEntry>) -> (r: SyncReport)
        requires
            in_use(*old(self)),
        ensures
            exists|now: i64| #[trigger]
                desktop_synced(
                    files(*old(self)),
                    files(*final(self)),
                    entries@,
                    old(self).config.rules.keep_updated,
                    now,
                    r,
                ),
            same_but_files(*final(self), *old(self)),
    {
        let now: i64 = now_unix();
        self.sync_desktop_at(entries, now)
    }
}

// ---- laws ---------------------------------------------------------------------------------

/// A missing item keeps its places in the fences until it is forgotten, and an item that was seen
/// is neither marked nor forgotten.
pub proof fn sweeping_keeps_what_was_seen(
    a: FilesModel,
    seen: Set<ItemId>,
    now: i64,
    id: ItemId,
)
    requires
        a.items.contains_key(id),
        !expired(a, seen, now as int, id),
    ensures
        swept(a, seen, now).items.contains_key(id),
        seen.contains(id) ==> swept(a, seen, now).items[id] == a.items[id],
        !seen.contains(id) ==> swept(a, seen, now).items[id].orphaned_since is Some,
        forall|i: int|
            0 <= i < a.fences.len() ==> (crate::config::holds(
                #[trigger] swept(a, seen, now).fences[i],
                id,
            ) <==> crate::config::holds(a.fences[i], id)),
{
    let out = gone(a, seen, now);
    let b = swept(a, seen, now);
    assert(!out.contains(id));
    assert forall|i: int| 0 <= i < a.fences.len() implies (crate::config::holds(
        #[trigger] b.fences[i],
        id,
    ) <==> crate::config::holds(a.fences[i], id)) by {
        lemma_outside_members(a.fences[i].items, out, id);
        let refs = a.fences[i].items;
        let kept = refs_outside(refs, out);
        assert(b.fences[i].items == kept);
    }
}

proof fn lemma_outside_members(refs: Seq<ItemRef>, out: Set<ItemId>, id: ItemId)
    ensures
        !out.contains(id) ==> ((exists|k: int|
            0 <= k < refs_outside(refs, out).len() && (#[trigger] refs_outside(refs, out)[k]).item_id
                == id) <==> (exists|k: int|
            0 <= k < refs.len() && (#[trigger] refs[k]).item_id == id)),
        out.contains(id) ==> forall|k: int|
            0 <= k < refs_outside(refs, out).len() ==> (#[trigger] refs_outside(
                refs,
                out,
            )[k]).item_id != id,
    decreases refs.len(),
{
    if refs.len() > 0 {
        let t = refs.drop_last();
        let rest = refs_outside(t, out);
        let kept = refs_outside(refs, out);
        lemma_outside_members(t, out, id);
        if !out.contains(id) {
            if exists|k: int| 0 <= k < kept.len() && (#[trigger] kept[k]).item_id == id {
                let k = choose|k: int| 0 <= k < kept.len() && (#[trigger] kept[k]).item_id == id;
                if k < rest.len() {
                    assert(rest[k].item_id == id);
                    let j = choose|j: int| 0 <= j < t.len() && (#[trigger] t[j]).item_id == id;
                    assert(refs[j].item_id == id);
                } else {
                    assert(refs[refs.len() - 1].item_id == id);
                }
            }
            if exists|k: int| 0 <= k < refs.len() && (#[trigger] refs[k]).item_id == id {
                let k = choose|k: int| 0 <= k < refs.len() && (#[trigger] refs[k]).item_id == id;
                if k < t.len() {
                    assert(t[k].item_id == id);
                    let j = choose|j: int| 0 <= j < rest.len() && (#[trigger] rest[j]).item_id == id;
                    assert(kept[j].item_id == id);
                } else {
                    assert(kept[kept.len() - 1].item_id == id);
                }
            }
        } else {
            assert forall|k: int| 0 <= k < kept.len() implies (#[trigger] kept[k]).item_id != id by {
                if k < rest.len() {
                    assert(kept[k] == rest[k]);
                }
            }
        }
    }
}

/// A forgotten item has no record and no place in any fence.
pub proof fn forgotten_items_leave_no_trace(
    a: FilesModel,
    seen: Set<ItemId>,
    now: i64,
    id: ItemId,
)
    requires
        expired(a, seen, now as int, id),
    ensures
        !swept(a, seen, now).items.contains_key(id),
        !swept(a, seen, now).catalog.contains_key(key_text(a.items[id].key)),
        forall|i: int|
            0 <= i < a.fences.len() ==> !crate::config::holds(
                #[trigger] swept(a, seen, now).fences[i],
                id,
            ),
{
    let out = gone(a, seen, now);
    assert(out.contains(id));
    let b = swept(a, seen, now);
    assert forall|i: int| 0 <= i < a.fences.len() implies !crate::config::holds(
        #[trigger] b.fences[i],
        id,
    ) by {
        lemma_outside_members(a.fences[i].items, out, id);
        assert(b.fences[i].items == refs_outside(a.fences[i].items, out));
    }
}

/// After an entry was reconciled its key stands for an item that has a record, is not marked as
/// missing, and has the entry's time and size.
pub proof fn synced_entries_have_records(
    a: FilesModel,
    b: FilesModel,
    e: DesktopEntry,
    keep_updated: bool,
    id: ItemId,
)
    requires
        entry_done(a, b, e, keep_updated, id),
        a.catalog.contains_key(entry_key(e)) ==> a.items.contains_key(a.catalog[entry_key(e)]),
    ensures
        b.catalog.contains_key(entry_key(e)),
        b.catalog[entry_key(e)] == id,
        b.items.contains_key(id),
        b.items[id].orphaned_since is None,
        b.items[id].mtime == e.mtime,
        b.items[id].size == e.size,
{
}

/// The catalog lists the items by their keys, each of them once.
pub open spec fn in_step(m: FilesModel) -> bool {
    &&& forall|id: ItemId| #[trigger]
        m.items.contains_key(id) ==> m.catalog.contains_key(key_text(m.items[id].key))
            && m.catalog[key_text(m.items[id].key)] == id
    &&& forall|k: (bool, Seq<char>)| #[trigger]
        m.catalog.contains_key(k) ==> m.items.contains_key(m.catalog[k]) && key_text(
            m.items[m.catalog[k]].key,
        ) == k
}

/// The entries are different things on the desktop.
pub open spec fn distinct_entries(entries: Seq<DesktopEntry>) -> bool {
    forall|i: int, j: int|
        0 <= i < j < entries.len() ==> entry_key(#[trigger] entries[i]) != entry_key(
            #[trigger] entries[j],
        )
}

/// The items that were added got ids that no item had.
pub open spec fn fresh_ids(
    trace: Seq<FilesModel>,
    ids: Seq<ItemId>,
    entries: Seq<DesktopEntry>,
) -> bool {
    forall|k: int|
        0 <= k < entries.len() && !trace[k].catalog.contains_key(entry_key(#[trigger] entries[k]))
            ==> !trace[k].items.contains_key(ids[k])
}

/// Item `id` is the record of entry `e`, as the desktop has it.
pub open spec fn up_to_date(m: FilesModel, e: DesktopEntry, id: ItemId) -> bool {
    &&& m.catalog.contains_key(entry_key(e))
    &&& m.catalog[entry_key(e)] == id
    &&& m.items.contains_key(id)
    &&& !is_stale(m.items[id], e)
}

proof fn lemma_entry_in_step(
    a: FilesModel,
    b: FilesModel,
    e: DesktopEntry,
    keep_updated: bool,
    id: ItemId,
)
    requires
        entry_done(a, b, e, keep_updated, id),
        in_step(a),
        a.catalog.contains_key(entry_key(e)) || !a.items.contains_key(id),
    ensures
        in_step(b),
        up_to_date(b, e, id),
        forall|o: DesktopEntry, x: ItemId|
            entry_key(o) != entry_key(e) && #[trigger] up_to_date(a, o, x) ==> up_to_date(b, o, x),
        up_to_date(a, e, id) ==> b.items == a.items && b.catalog == a.catalog,
{
    let key = entry_key(e);
    if a.catalog.contains_key(key) {
        assert(a.items.contains_key(a.catalog[key]));
        assert(b.items == a.items.insert(id, refreshed(a.items[id], e)));
        assert(b.catalog == a.catalog);
        if up_to_date(a, e, id) {
            assert(refreshed(a.items[id], e) == a.items[id]);
            assert(b.items =~= a.items);
        }
    } else {
        assert(b.items == a.items.insert(id, b.items[id]));
        assert(b.catalog == a.catalog.insert(key, id));
    }
}

proof fn lemma_trace_in_step(
    trace: Seq<FilesModel>,
    ids: Seq<ItemId>,
    start: FilesModel,
    entries: Seq<DesktopEntry>,
    keep_updated: bool,
    k: int,
)
    requires
        follows(trace, ids, start, entries, keep_updated),
        in_step(start),
        distinct_entries(entries),
        fresh_ids(trace, ids, entries),
        0 <= k <= entries.len(),
    ensures
        in_step(trace[k]),
        forall|j: int| 0 <= j < k ==> up_to_date(trace[k], #[trigger] entries[j], ids[j]),
    decreases k,
{
    if k > 0 {
        lemma_trace_in_step(trace, ids, start, entries, keep_updated, k - 1);
        let e = entries[k - 1];
        assert(entry_done(trace[k - 1], trace[k - 1 + 1], entries[k - 1], keep_updated, ids[k - 1]));
        assert(trace[k - 1].catalog.contains_key(entry_key(e)) || !trace[k - 1].items.contains_key(
            ids[k - 1],
        ));
        lemma_entry_in_step(trace[k - 1], trace[k], e, keep_updated, ids[k - 1]);
        assert forall|j: int| 0 <= j < k implies up_to_date(trace[k], #[trigger] entries[j], ids[j]) by {
            if j < k - 1 {
                assert(entry_key(entries[j]) != entry_key(entries[k - 1]));
                assert(up_to_date(trace[k - 1], entries[j], ids[j]));
            }
        }
    }
}

proof fn lemma_swept_in_step(a: FilesModel, seen: Set<ItemId>, now: i64)
    requires
        in_step(a),
    ensures
        in_step(swept(a, seen, now)),
        forall|e: DesktopEntry, id: ItemId|
            seen.contains(id) && #[trigger] up_to_date(a, e, id) ==> up_to_date(
                swept(a, seen, now),
                e,
                id,
            ),
{
    let b = swept(a, seen, now);
    let out = gone(a, seen, now);
    let cut = keys_of(a.items, out);
    assert forall|id: ItemId| a.items.contains_key(id) implies (#[trigger] cut.contains(
        key_text(a.items[id].key),
    ) == out.contains(id)) by {
        if cut.contains(key_text(a.items[id].key)) {
            let x = choose|x: ItemId| #[trigger]
                out.contains(x) && key_text(a.items[x].key) == key_text(a.items[id].key);
            assert(a.items.contains_key(x));
            assert(a.catalog[key_text(a.items[x].key)] == x);
        }
    }
    assert forall|id: ItemId| #[trigger] b.items.contains_key(id) implies b.catalog.contains_key(
        key_text(b.items[id].key),
    ) && b.catalog[key_text(b.items[id].key)] == id by {
        assert(a.items.contains_key(id) && !out.contains(id));
        assert(b.items[id].key == a.items[id].key);
    }
    assert forall|k: (bool, Seq<char>)| #[trigger] b.catalog.contains_key(
        k,
    ) implies b.items.contains_key(b.catalog[k]) && key_text(b.items[b.catalog[k]].key) == k by {
        assert(a.catalog.contains_key(k));
        let id = a.catalog[k];
        assert(a.items.contains_key(id));
        assert(b.items[id].key == a.items[id].key);
    }
    assert forall|e: DesktopEntry, id: ItemId|
        seen.contains(id) && #[trigger] up_to_date(a, e, id) implies up_to_date(b, e, id) by {
        assert(!out.contains(id));
        assert(key_text(a.items[a.catalog[entry_key(e)]].key) == entry_key(e));
    }
}

/// After the desktop was reconciled each entry has its item, which is not marked as missing and
/// has the entry's time and size; every other item that is left is marked as missing, for no more
/// than seven days; and the catalog lists the items by their keys, where it did before. This asks
/// that the ids of the new items were new.
pub proof fn syncing_matches_the_desktop(
    trace: Seq<FilesModel>,
    ids: Seq<ItemId>,
    a: FilesModel,
    b: FilesModel,
    entries: Seq<DesktopEntry>,
    keep_updated: bool,
    now: i64,
    report: SyncReport,
)
    requires
        synced_through(trace, ids, a, b, entries, keep_updated, now, report),
        in_step(a),
        distinct_entries(entries),
        fresh_ids(trace, ids, entries),
    ensures
        in_step(b),
        forall|k: int| 0 <= k < entries.len() ==> up_to_date(b, #[trigger] entries[k], ids[k]),
        forall|id: ItemId| #[trigger]
            b.items.contains_key(id) && !ids.contains(id) ==> (b.items[id].orphaned_since matches Some(
                since,
            ) && now - since <= ORPHAN_GC_SECS),
{
    let n = entries.len() as int;
    let seen = ids.to_set();
    let end = trace.last();
    lemma_trace_in_step(trace, ids, a, entries, keep_updated, n);
    assert(end == trace[n]);
    lemma_swept_in_step(end, seen, now);
    assert forall|k: int| 0 <= k < entries.len() implies up_to_date(b, #[trigger] entries[k], ids[k]) by {
        assert(ids.contains(ids[k]));
        assert(up_to_date(end, entries[k], ids[k]));
    }
    assert forall|id: ItemId| #[trigger] b.items.contains_key(id) && !ids.contains(id) implies (
    b.items[id].orphaned_since matches Some(since) && now - since <= ORPHAN_GC_SECS) by {
        assert(!seen.contains(id));
        assert(!expired(end, seen, now as int, id));
    }
}

/// Reconciling the same desktop again reports no change; at the same time it also changes no
/// record.
pub proof fn syncing_again_changes_nothing(
    trace: Seq<FilesModel>,
    ids: Seq<ItemId>,
    a: FilesModel,
    b: FilesModel,
    report: SyncReport,
    again: Seq<FilesModel>,
    ids2: Seq<ItemId>,
    c: FilesModel,
    report2: SyncReport,
    entries: Seq<DesktopEntry>,
    keep_updated: bool,
    now: i64,
    later: i64,
)
    requires
        synced_through(trace, ids, a, b, entries, keep_updated, now, report),
        synced_through(again, ids2, b, c, entries, keep_updated, later, report2),
        in_step(a),
        distinct_entries(entries),
        fresh_ids(trace, ids, entries),
    ensures
        report2.added == 0,
        report2.updated == 0,
        report2.removed == 0,
        later == now ==> c.items == b.items && c.catalog == b.catalog,
{
    let n = entries.len() as int;
    syncing_matches_the_desktop(trace, ids, a, b, entries, keep_updated, now, report);
    lemma_nothing_to_sync(again, ids2, b, entries, keep_updated, ids, n);
    let seen = ids2.to_set();
    let end = again.last();
    assert(end == again[n]);
    assert(ids2 =~= ids);
    assert forall|id: ItemId| !newly_missing(end, seen, id) by {
        if end.items.contains_key(id) && !seen.contains(id) {
            assert(b.items.contains_key(id) && !ids.contains(id));
        }
    }
    assert(missing(end, seen) =~= Set::<ItemId>::empty());
    if later == now {
        assert forall|id: ItemId| !expired(end, seen, later as int, id) by {
            if end.items.contains_key(id) && !seen.contains(id) {
                assert(b.items.contains_key(id) && !ids.contains(id));
            }
        }
        assert(gone(end, seen, later) =~= Set::<ItemId>::empty());
        assert(keys_of(end.items, gone(end, seen, later)) =~= Set::<(bool, Seq<char>)>::empty());
        assert(c.items =~= b.items);
        assert(c.catalog =~= b.catalog);
    }
}

proof fn lemma_nothing_to_sync(
    trace: Seq<FilesModel>,
    ids: Seq<ItemId>,
    start: FilesModel,
    entries: Seq<DesktopEntry>,
    keep_updated: bool,
    known: Seq<ItemId>,
    k: int,
)
    requires
        follows(trace, ids, start, entries, keep_updated),
        in_step(start),
        forall|j: int| 0 <= j < entries.len() ==> up_to_date(start, #[trigger] entries[j], known[j]),
        0 <= k <= entries.len(),
    ensures
        trace[k].items == start.items,
        trace[k].catalog == start.catalog,
        forall|j: int| 0 <= j < k ==> #[trigger] ids[j] == known[j],
        count_changes(trace, entries, k, EntryChange::Added) == 0,
        count_changes(trace, entries, k, EntryChange::Updated) == 0,
    decreases k,
{
    if k > 0 {
        lemma_nothing_to_sync(trace, ids, start, entries, keep_updated, known, k - 1);
        let e = entries[k - 1];
        assert(up_to_date(start, e, known[k - 1]));
        assert(entry_done(trace[k - 1], trace[k - 1 + 1], entries[k - 1], keep_updated, ids[k - 1]));
        assert(in_step(trace[k - 1]));
        assert(ids[k - 1] == known[k - 1]);
        assert(up_to_date(trace[k - 1], e, ids[k - 1]));
        lemma_entry_in_step(trace[k - 1], trace[k], e, keep_updated, ids[k - 1]);
        assert(change_of(trace[k - 1], e) == EntryChange::Unchanged);
    }
}

// ---- what one entry changes ---------------------------------------------------------------

proof fn lemma_stem_at(name: Seq<char>, i: int)
    requires
        crate::paths::last_dot(name, i),
    ensures
        crate::paths::last_dot_of(name) == i,
{
    let k = crate::paths::last_dot_of(name);
    assert(crate::paths::last_dot(name, k));
    if k < i {
        assert(name[i] != '.');
    }
    if i < k {
        assert(name[k] != '.');
    }
}

/// The stem of a file name is what stands in front of its last dot, and the whole name where it
/// has no dot or only one in front.
pub proof fn a_stem_is_what_precedes_the_last_dot(base: Seq<char>, ext: Seq<char>)
    requires
        !ext.contains('.'),
        base.push('.') + ext != seq!['.', '.'],
    ensures
        base.len() > 0 ==> stem_of(base.push('.') + ext) == base,
        base.len() == 0 ==> stem_of(base.push('.') + ext) == base.push('.') + ext,
        stem_of(ext) == ext,
{
    let name = base.push('.') + ext;
    let i = base.len() as int;
    assert forall|j: int| i < j < name.len() implies name[j] != '.' by {
        assert(name[j] == ext[j - i - 1]);
        assert(ext.contains(ext[j - i - 1]));
    }
    assert(crate::paths::last_dot(name, i));
    lemma_stem_at(name, i);
    assert(name.take(i) =~= base);
    assert forall|j: int| !crate::paths::last_dot(ext, j) by {
        if crate::paths::last_dot(ext, j) {
            assert(ext.contains(ext[j]));
        }
    }
}

/// A file is shown by the name that the shell gives, else a folder by its whole name and a file
/// without its ending.
pub proof fn files_are_shown_without_their_ending(
    shell: Option<String>,
    file_name: Seq<char>,
    is_folder: bool,
)
    ensures
        shell is Some ==> shown_name(shell, file_name, is_folder) == shell->0@,
        shell is None && is_folder ==> shown_name(shell, file_name, is_folder) == file_name,
        shell is None && !is_folder ==> shown_name(shell, file_name, is_folder) == stem_of(file_name),
{
}

/// A known item takes its date, its size and, with either a new date or a new icon, its icon from
/// the entry, is no longer missing, and keeps everything else; it is stale where any of these
/// differ.
pub proof fn a_known_item_is_brought_up_to_date(it: Item, e: DesktopEntry)
    ensures
        ({
            let r = refreshed(it, e);
            &&& r.orphaned_since is None && r.mtime == e.mtime && r.size == e.size
            &&& icon_text(r.icon_key) == icon_text(e.icon_key)
            &&& r.id == it.id && r.key == it.key && r.origin == it.origin && r.display_name
                == it.display_name && r.is_folder == it.is_folder && r.attrs == it.attrs
                && r.open_count == it.open_count && r.last_opened == it.last_opened && r.file_id
                == it.file_id
            &&& !is_stale(r, e)
        }),
        !is_stale(it, e) <==> it.orphaned_since is None && it.mtime == e.mtime && it.size == e.size
            && icon_text(it.icon_key) == icon_text(e.icon_key),
{
}

/// A known item that is in a fence stays in it, whatever the rules say.
pub proof fn known_items_stay_where_they_are(
    a: FilesModel,
    b: FilesModel,
    e: DesktopEntry,
    keep_updated: bool,
    id: ItemId,
)
    requires
        entry_done(a, b, e, keep_updated, id),
        a.catalog.contains_key(entry_key(e)),
        fence_of(a.fences, a.catalog[entry_key(e)]) is Some,
    ensures
        b.fences == a.fences,
        b.undo_log == a.undo_log,
        b.catalog == a.catalog,
        a.items.contains_key(id) ==> b.items == a.items.insert(id, b.items[id]) && b.items[id].open_count
            == a.items[id].open_count && b.items[id].display_name == a.items[id].display_name,
{
}

/// A new file becomes an item of its own, which goes where the rules send it; so does a known item
/// that is in no fence. Nothing else moves.
pub proof fn new_items_go_where_they_are_routed(
    a: FilesModel,
    b: FilesModel,
    e: DesktopEntry,
    keep_updated: bool,
    id: ItemId,
    to: FenceId,
    by: AssignedBy,
    other: ItemId,
)
    requires
        entry_done(a, b, e, keep_updated, id),
        target_of(a.fences, route_of(keep_updated, e)) == Some((to, by)),
        can_file(a.fences, id, to),
        a.catalog.contains_key(entry_key(e)) ==> fence_of(a.fences, a.catalog[entry_key(e)]) is None,
    ensures
        fence_of(b.fences, id) == Some(to),
        other != id ==> fence_of(b.fences, other) == fence_of(a.fences, other),
        other != id ==> b.items.contains_key(other) == a.items.contains_key(other) && (
        a.items.contains_key(other) ==> b.items[other] == a.items[other]),
        b.dirty,
{
    let ts = choose|ts: i64| #[trigger] entry_synced(a, b, e, keep_updated, id, ts);
    lemma_first_index(a.fences, to);
    filed_item_is_in_one_fence(a.fences, id, to, by);
    if other != id {
        filing_keeps_other_items(a.fences, id, to, by, other);
    }
}

/// An item that is not on the desktop is dated once, when it is first missed, and forgotten when
/// it was missing for more than a week.
pub proof fn missing_items_are_kept_for_a_week(
    a: FilesModel,
    seen: Set<ItemId>,
    now: i64,
    id: ItemId,
)
    requires
        a.items.contains_key(id),
        !seen.contains(id),
    ensures
        a.items[id].orphaned_since is None ==> swept(a, seen, now).items.contains_key(id) && swept(
            a,
            seen,
            now,
        ).items[id] == (Item { orphaned_since: Some(now), ..a.items[id] }),
        a.items[id].orphaned_since matches Some(since) ==> (swept(a, seen, now).items.contains_key(id)
            <==> now - since <= 7 * 24 * 3600),
        a.items[id].orphaned_since is Some && swept(a, seen, now).items.contains_key(id) ==> swept(
            a,
            seen,
            now,
        ).items[id] == a.items[id],
        a.items[id].orphaned_since is None ==> swept(a, seen, now).dirty && missing(a, seen).contains(
            id,
        ),
{
    if a.items[id].orphaned_since is None {
        assert(newly_missing(a, seen, id));
    }
}

/// What was seen is neither missing nor forgotten.
pub proof fn what_is_seen_is_not_missing(a: FilesModel, seen: Set<ItemId>, now: i64, id: ItemId)
    requires
        seen.contains(id),
    ensures
        !missing(a, seen).contains(id),
        a.items.contains_key(id) ==> swept(a, seen, now).items.contains_key(id) && swept(
            a,
            seen,
            now,
        ).items[id] == a.items[id],
{
}

/// Forgetting items takes them out of the fences and leaves the others in their order.
pub proof fn forgotten_items_leave_their_fences(refs: Seq<ItemRef>, out: Set<ItemId>)
    ensures
        refs_outside(refs, out) == refs.filter(|r: ItemRef| !out.contains(r.item_id)),
    decreases refs.len(),
{
    reveal(Seq::filter);
    if refs.len() > 0 {
        forgotten_items_leave_their_fences(refs.drop_last(), out);
    }
}

/// An entry is new where nothing has its path, and changed where its item is out of date.
pub proof fn entries_are_new_or_changed(a: FilesModel, e: DesktopEntry)
    ensures
        change_of(a, e) is Added <==> !a.catalog.contains_key(entry_key(e)),
        change_of(a, e) is Updated <==> a.catalog.contains_key(entry_key(e)) && a.items.contains_key(
            a.catalog[entry_key(e)],
        ) && ({
            let it = a.items[a.catalog[entry_key(e)]];
            it.orphaned_since is Some || it.mtime != e.mtime || it.size != e.size || icon_text(
                it.icon_key,
            ) != icon_text(e.icon_key)
        }),
{
}

/// The report counts, over the entries in their order, those that were new and those whose item
/// was out of date.
pub proof fn the_report_counts_what_changed(
    trace: Seq<FilesModel>,
    entries: Seq<DesktopEntry>,
    n: int,
    change: EntryChange,
)
    requires
        n >= 0,
    ensures
        count_changes(trace, entries, n, change) == Seq::new(n as nat, |k: int| k).filter(
            |k: int| change_of(trace[k], entries[k]) == change,
        ).len(),
    decreases n,
{
    reveal(Seq::filter);
    let f = |k: int| change_of(trace[k], entries[k]) == change;
    if n > 0 {
        the_report_counts_what_changed(trace, entries, n - 1, change);
        let s = Seq::new(n as nat, |k: int| k);
        assert(s.drop_last() =~= Seq::new((n - 1) as nat, |k: int| k));
        assert(s.last() == n - 1);
    }
}

/// The record of a new file is what the entry says, has never been opened and is not missing.
pub proof fn a_new_record_is_what_the_entry_says(it: Item, e: DesktopEntry, id: ItemId)
    requires
        is_record_of(it, e, id),
    ensures
        it.id == id && key_text(it.key) == entry_key(e),
        it.origin == e.origin && it.mtime == e.mtime && it.size == e.size && it.is_folder == e.is_folder
            && it.attrs == e.attributes && it.icon_key == e.icon_key,
        it.display_name@ == shown_name(e.shell_name, e.file_name@, e.is_folder),
        it.open_count == 0 && it.last_opened is None && it.orphaned_since is None,
{
}

/// An item that is up to date and in a fence gives nothing to save; one that is out of date does,
/// and so does a new one.
pub proof fn only_changes_are_saved(
    a: FilesModel,
    b: FilesModel,
    e: DesktopEntry,
    keep_updated: bool,
    id: ItemId,
)
    requires
        entry_done(a, b, e, keep_updated, id),
    ensures
        !a.catalog.contains_key(entry_key(e)) ==> b.dirty,
        a.catalog.contains_key(entry_key(e)) && a.items.contains_key(id) && is_stale(a.items[id], e)
            ==> b.dirty,
        a.catalog.contains_key(entry_key(e)) && fence_of(a.fences, id) is Some && (a.items.contains_key(
            id,
        ) ==> !is_stale(a.items[id], e)) ==> b.dirty == a.dirty,
        a.dirty ==> b.dirty,
{
}

} // verus!
