//! Item records: looking them up, counting them, and following files that were opened, renamed or
//! moved with the whole desktop.

use crate::clock::now_unix;
use crate::config::{fences_without, lemma_refs_filtered, remove_item};
use crate::model::{
    icon_text, key_text, layout_models, FenceModel, IconKey, Item, ItemId, ItemKey, ItemRef, Layout,
    LayoutModel,
};
use crate::paths::{dir_prefix, path_key, prefix_of};
use crate::settings::Settings;
use crate::state::AppState;
use crate::sync::{file_stem, stem_of};
use crate::tables::{ids_of, lists_keys, Catalog};
use crate::text::{begins_with, chars_begin_with, chars_of, string_of};
use std::collections::HashMap;
use vstd::prelude::*;

verus! {

/// The item `id` is in the map and not missing.
pub open spec fn live(items: Map<ItemId, Item>, id: ItemId) -> bool {
    items.contains_key(id) && items[id].orphaned_since is None
}

/// The keys of the items that are not missing.
pub open spec fn live_keys(items: Map<ItemId, Item>) -> Set<(bool, Seq<char>)> {
    Set::new(|k: (bool, Seq<char>)| exists|id: ItemId| #[trigger]
        live(items, id) && key_text(items[id].key) == k)
}

/// Different keys.
struct KeySet {
    keys: Vec<ItemKey>,
}

impl KeySet {
    spec fn inv(self) -> bool {
        forall|i: int, j: int|
            0 <= i < self.keys@.len() && 0 <= j < self.keys@.len() && key_text(
                (#[trigger] self.keys@[i]),
            ) == key_text((#[trigger] self.keys@[j])) ==> i == j
    }

    spec fn texts(self) -> Seq<(bool, Seq<char>)> {
        Seq::new(self.keys@.len(), |i: int| key_text(self.keys@[i]))
    }

    fn add_key(&mut self, key: &ItemKey)
        requires
            old(self).inv(),
        ensures
            final(self).inv(),
            final(self).texts().to_set() == old(self).texts().to_set().insert(key_text(*key)),
    {
        let ghost before = self.texts();
        let ghost k = key_text(*key);
        let n: usize = self.keys.len();
        for i in 0..n
            invariant
                n == self.keys.len(),
                self.inv(),
                before == self.texts(),
                *self == *old(self),
                k == key_text(*key),
                forall|j: int| 0 <= j < i ==> key_text(#[trigger] self.keys@[j]) != k,
        {
            if self.keys[i].same(key) {
                assert(before[i as int] == k);
                assert(before.contains(k));
                assert(before.to_set() =~= before.to_set().insert(k));
                return;
            }
        }
        self.keys.push(key.clone());
        proof {
            assert(self.texts() =~= before.push(k));
            assert(self.texts().to_set() =~= before.to_set().insert(k)) by {
                assert forall|q: (bool, Seq<char>)| self.texts().to_set().contains(q)
                    <==> before.to_set().insert(k).contains(q) by {
                    if before.contains(q) {
                        assert(before.push(k)[before.index_of(q)] == q);
                    }
                    if q == k {
                        assert(before.push(k)[before.len() as int] == q);
                    }
                    if before.push(k).contains(q) {
                        let j = before.push(k).index_of(q);
                        if j < before.len() {
                            assert(before[j] == q);
                        }
                    }
                }
            }
        }
    }

    fn add_live(&mut self, items: &HashMap<ItemId, Item>)
        requires
            old(self).inv(),
        ensures
            final(self).inv(),
            final(self).texts().to_set() == old(self).texts().to_set().union(live_keys(items@)),
    {
        let ghost before = self.texts().to_set();
        let ids = ids_of(items);
        let n: usize = ids.len();
        assert(self.texts().to_set() =~= before.union(keys_among(items@, ids@.take(0))));
        for i in 0..n
            invariant
                n == ids.len(),
                lists_keys(ids@, items@),
                self.inv(),
                self.texts().to_set() == before.union(keys_among(items@, ids@.take(i as int))),
        {
            let id: ItemId = ids[i];
            let ghost done = ids@.take(i as int);
            let ghost next = ids@.take(i + 1);
            proof {
                assert(next == done.push(id));
                assert(ids@.contains(ids@[i as int]));
                assert forall|x: ItemId| #[trigger] next.contains(x) <==> done.contains(x) || x
                    == id by {
                    if done.contains(x) {
                        assert(next[done.index_of(x)] == x);
                    }
                    if x == id {
                        assert(next[i as int] == x);
                    }
                    if next.contains(x) {
                        let j = next.index_of(x);
                        if j < i {
                            assert(done[j] == x);
                        }
                    }
                }
            }
            if let Some(it) = items.get(&id) {
                if it.orphaned_since.is_none() {
                    self.add_key(&it.key);
                    proof {
                        let k = key_text(items@[id].key);
                        assert(keys_among(items@, next) =~= keys_among(items@, done).insert(k)) by {
                            assert forall|q: (bool, Seq<char>)|
                                keys_among(items@, next).contains(q) <==> keys_among(
                                    items@,
                                    done,
                                ).insert(k).contains(q) by {
                                if keys_among(items@, next).contains(q) {
                                    let x = choose|x: ItemId| #[trigger]
                                        next.contains(x) && live(items@, x) && key_text(
                                            items@[x].key,
                                        ) == q;
                                    if x != id {
                                        assert(done.contains(x));
                                    }
                                }
                                if keys_among(items@, done).contains(q) {
                                    let x = choose|x: ItemId| #[trigger]
                                        done.contains(x) && live(items@, x) && key_text(
                                            items@[x].key,
                                        ) == q;
                                    assert(next.contains(x));
                                }
                                if q == k {
                                    assert(next.contains(id));
                                }
                            }
                        }
                        assert(self.texts().to_set() =~= before.union(keys_among(items@, next)));
                    }
                } else {
                    proof {
                        lemma_dead_adds_nothing(items@, done, next, id);
                    }
                }
            }
        }
        proof {
            assert(ids@.take(n as int) == ids@);
            assert(keys_among(items@, ids@) =~= live_keys(items@)) by {
                assert forall|q: (bool, Seq<char>)| keys_among(items@, ids@).contains(q) <==> live_keys(
                    items@,
                ).contains(q) by {
                    if live_keys(items@).contains(q) {
                        let x = choose|x: ItemId| #[trigger]
                            live(items@, x) && key_text(items@[x].key) == q;
                        assert(ids@.contains(x));
                    }
                    if keys_among(items@, ids@).contains(q) {
                        let x = choose|x: ItemId| #[trigger]
                            ids@.contains(x) && live(items@, x) && key_text(items@[x].key) == q;
                        assert(live(items@, x));
                    }
                }
            }
        }
    }
}

/// The keys of those of `s` that are not missing.
spec fn keys_among(items: Map<ItemId, Item>, s: Seq<ItemId>) -> Set<(bool, Seq<char>)> {
    Set::new(|k: (bool, Seq<char>)| exists|id: ItemId| #[trigger]
        s.contains(id) && live(items, id) && key_text(items[id].key) == k)
}

proof fn lemma_dead_adds_nothing(
    items: Map<ItemId, Item>,
    done: Seq<ItemId>,
    next: Seq<ItemId>,
    id: ItemId,
)
    requires
        forall|x: ItemId| #[trigger] next.contains(x) <==> done.contains(x) || x == id,
        !live(items, id),
    ensures
        keys_among(items, next) == keys_among(items, done),
{
    let a = keys_among(items, next);
    let b = keys_among(items, done);
    assert forall|q: (bool, Seq<char>)| a.contains(q) <==> b.contains(q) by {
        if a.contains(q) {
            let x = choose|x: ItemId| #[trigger]
                next.contains(x) && live(items, x) && key_text(items[x].key) == q;
            assert(done.contains(x));
        }
        if b.contains(q) {
            let x = choose|x: ItemId| #[trigger]
                done.contains(x) && live(items, x) && key_text(items[x].key) == q;
            assert(next.contains(x));
        }
    }
    assert(a =~= b);
}

impl AppState {
    /// How many things are in the fences: the items of the desktop and of the portals that are not
    /// missing. A file that several fences show counts once.
    pub fn workspace_item_count(&self) -> (r: usize)
        ensures
            r == live_keys(self.config.items@).union(live_keys(self.portal_items@)).len(),
    {
        let mut set = KeySet { keys: Vec::new() };
        proof {
            assert(set.texts().to_set() =~= Set::<(bool, Seq<char>)>::empty());
        }
        set.add_live(&self.config.items);
        set.add_live(&self.portal_items);
        proof {
            let t = set.texts();
            assert(t.no_duplicates()) by {
                assert forall|i: int, j: int|
                    0 <= i < t.len() && 0 <= j < t.len() && i != j implies t[i] != t[j] by {
                    assert(t[i] == key_text(set.keys@[i]) && t[j] == key_text(set.keys@[j]));
                }
            }
            t.unique_seq_to_set();
            assert(t.to_set() =~= live_keys(self.config.items@).union(
                live_keys(self.portal_items@),
            ));
        }
        set.keys.len()
    }

    /// The item `id`, of the desktop or of a portal.
    pub fn item(&self, id: ItemId) -> (r: Option<&Item>)
        ensures
            r is Some <==> self.config.items@.contains_key(id) || self.portal_items@.contains_key(id),
            r matches Some(it) ==> *it == if self.config.items@.contains_key(id) {
                self.config.items@[id]
            } else {
                self.portal_items@[id]
            },
    {
        match self.config.items.get(&id) {
            Some(it) => Some(it),
            None => self.portal_items.get(&id),
        }
    }

    /// Whether the item lives in a folder that a portal shows.
    pub fn is_portal_item(&self, id: ItemId) -> (r: bool)
        ensures
            r == self.portal_items@.contains_key(id),
    {
        self.portal_items.contains_key(&id)
    }

    /// The item that a desktop path stands for.
    pub fn item_by_path(&self, path: &str) -> (r: Option<ItemId>)
        ensures
            r == if self.catalog@.contains_key((true, path_key(path@))) {
                Some(self.catalog@[(true, path_key(path@))])
            } else {
                None
            },
    {
        let key = ItemKey::from_path(path);
        self.catalog.get(&key)
    }

    /// Counts a launch of a desktop item at time `now`.
    pub fn note_opened_at(&mut self, id: ItemId, now: i64)
        ensures
            ({
                let has = old(self).config.items@.contains_key(id);
                let it = old(self).config.items@[id];
                &&& final(self).config.items@ == if has {
                    old(self).config.items@.insert(
                        id,
                        Item {
                            open_count: if it.open_count < u32::MAX {
                                (it.open_count + 1) as u32
                            } else {
                                u32::MAX
                            },
                            last_opened: Some(now),
                            ..it
                        },
                    )
                } else {
                    old(self).config.items@
                }
                &&& final(self).dirty == (old(self).dirty || has)
            }),
            same_but_records(*final(self), *old(self)),
            final(self).catalog == old(self).catalog,
            final(self).config.layouts == old(self).config.layouts,
            final(self).config.settings == old(self).config.settings,
    {
        let next: Option<Item> = match self.config.items.get(&id) {
            Some(it) => {
                let mut next = it.clone();
                next.open_count = it.open_count.saturating_add(1);
                next.last_opened = Some(now);
                Some(next)
            },
            None => None,
        };
        if let Some(it) = next {
            self.config.items.insert(id, it);
            self.dirty = true;
        }
    }

    /// Counts a launch of a desktop item now.
    pub fn note_opened(&mut self, id: ItemId)
        ensures
            final(self).config.items@.dom() == old(self).config.items@.dom(),
            final(self).dirty == (old(self).dirty || old(self).config.items@.contains_key(id)),
            forall|x: ItemId|
                x != id && old(self).config.items@.contains_key(x) ==> #[trigger]
                    final(self).config.items@[x] == old(self).config.items@[x],
            old(self).config.items@.contains_key(id) ==> {
                let a = old(self).config.items@[id];
                let b = final(self).config.items@[id];
                &&& b == (Item { open_count: b.open_count, last_opened: b.last_opened, ..a })
                &&& b.open_count == if a.open_count < u32::MAX {
                    a.open_count + 1
                } else {
                    u32::MAX as int
                }
                &&& b.last_opened is Some
            },
            same_but_records(*final(self), *old(self)),
            final(self).catalog == old(self).catalog,
            final(self).config.layouts == old(self).config.layouts,
            final(self).config.settings == old(self).config.settings,
    {
        let now: i64 = now_unix();
        self.note_opened_at(id, now);
        assert(self.config.items@.dom() =~= old(self).config.items@.dom());
    }
}

/// The two states differ at most in the items, the catalog, the layouts, the settings and whether
/// there is something to save.
pub open spec fn same_but_records(a: AppState, b: AppState) -> bool {
    &&& a.config.schema_version == b.config.schema_version
    &&& a.config.rules == b.config.rules
    &&& a.config.undo_log == b.config.undo_log
    &&& a.config.snapshots == b.config.snapshots
    &&& a.store == b.store
    &&& a.layout == b.layout
    &&& a.portal_items == b.portal_items
    &&& a.portal_members == b.portal_members
    &&& a.portal_cwd == b.portal_cwd
    &&& a.work_areas == b.work_areas
    &&& a.first_run == b.first_run
    &&& a.recovered_from == b.recovered_from
}

// ---- renaming -----------------------------------------------------------------------------

/// What is known of a file under its new name.
#[derive(Debug, PartialEq, Eq)]
pub struct RenamedFile {
    pub path: String,
    /// The file name at the end of the path; none for a root.
    pub file_name: Option<String>,
    /// The name that the shell shows, where it gives one.
    pub shell_name: Option<String>,
    /// Whether it is a folder, where that could be read.
    pub is_folder: Option<bool>,
    pub icon_key: IconKey,
}

/// The name that a renamed file is shown under.
pub open spec fn renamed_name(f: RenamedFile) -> Seq<char> {
    match f.shell_name {
        Some(n) => n@,
        None => match f.file_name {
            Some(n) => stem_of(n@),
            None => Seq::empty(),
        },
    }
}

/// `b` is the record `a` under the new name.
pub open spec fn is_renamed(a: Item, b: Item, f: RenamedFile) -> bool {
    &&& b == (Item {
        key: b.key,
        is_folder: match f.is_folder {
            Some(x) => x,
            None => a.is_folder,
        },
        display_name: b.display_name,
        icon_key: f.icon_key,
        orphaned_since: None,
        ..a
    })
    &&& key_text(b.key) == (true, path_key(f.path@))
    &&& b.display_name@ == renamed_name(f)
}

/// Every layout without the item.
pub open spec fn layouts_without(ls: Seq<LayoutModel>, id: ItemId) -> Seq<LayoutModel> {
    Seq::new(
        ls.len(),
        |l: int| LayoutModel { fences: fences_without(ls[l].fences, id), ..ls[l] },
    )
}

/// The stale item that another file's new key stood for.
pub open spec fn displaced(
    catalog: Map<(bool, Seq<char>), ItemId>,
    key: (bool, Seq<char>),
    id: ItemId,
) -> Option<ItemId> {
    if catalog.contains_key(key) && catalog[key] != id {
        Some(catalog[key])
    } else {
        None
    }
}

fn drop_from_layouts(layouts: &mut Vec<Layout>, id: ItemId)
    ensures
        layout_models(final(layouts)@) == layouts_without(layout_models(old(layouts)@), id),
        final(layouts).len() == old(layouts).len(),
{
    let ghost ls = layout_models(layouts@);
    let n: usize = layouts.len();
    for l in 0..n
        invariant
            n == layouts.len(),
            n == ls.len(),
            forall|j: int|
                0 <= j < l ==> (#[trigger] layouts@[j])@ == layouts_without(ls, id)[j],
            forall|j: int| l <= j < n ==> (#[trigger] layouts@[j])@ == ls[j],
    {
        assert(layouts@[l as int]@ == ls[l as int]);
        remove_item(&mut layouts[l].fences, id);
    }
    assert(layout_models(layouts@) =~= layouts_without(ls, id));
}

fn renamed_record(it: &Item, f: &RenamedFile, key: ItemKey) -> (r: Item)
    requires
        key_text(key) == (true, path_key(f.path@)),
    ensures
        is_renamed(*it, r, *f),
{
    let mut next = it.clone();
    next.key = key;
    next.is_folder = match f.is_folder {
        Some(x) => x,
        None => it.is_folder,
    };
    next.display_name = match &f.shell_name {
        Some(n) => n.clone(),
        None => match &f.file_name {
            Some(n) => file_stem(n.as_str()),
            None => String::new(),
        },
    };
    next.icon_key = f.icon_key.clone();
    next.orphaned_since = None;
    next
}

impl AppState {
    /// Follows a file that was renamed: its record gets the new key, so that it stays in its
    /// fence. A stale item that the new path stood for is forgotten. Returns false where the old
    /// path stands for no record; the old path then stands for nothing.
    pub fn rename_item(&mut self, old_path: &str, new: &RenamedFile) -> (r: bool)
        ensures
            ({
                let c = old(self).catalog@;
                let ok = (true, path_key(old_path@));
                let nk = (true, path_key(new.path@));
                let id = c[ok];
                let rest = c.remove(ok);
                let items = old(self).config.items@;
                &&& r == (c.contains_key(ok) && items.contains_key(id))
                &&& !r ==> {
                    &&& final(self).catalog@ == rest
                    &&& final(self).config == old(self).config
                    &&& final(self).dirty == old(self).dirty
                }
                &&& r ==> {
                    let out = displaced(rest, nk, id);
                    let next = final(self).config.items@[id];
                    &&& final(self).catalog@ == rest.insert(nk, id)
                    &&& is_renamed(items[id], next, *new)
                    &&& final(self).config.items@ == match out {
                        Some(o) => items.insert(id, next).remove(o),
                        None => items.insert(id, next),
                    }
                    &&& layout_models(final(self).config.layouts@) == match out {
                        Some(o) => layouts_without(layout_models(old(self).config.layouts@), o),
                        None => layout_models(old(self).config.layouts@),
                    }
                    &&& final(self).config.settings == old(self).config.settings
                    &&& final(self).dirty
                }
            }),
            same_but_records(*final(self), *old(self)),
    {
        let old_key = ItemKey::from_path(old_path);
        let id: ItemId = match self.catalog.remove(&old_key) {
            Some(id) => id,
            None => {
                assert(self.catalog@ =~= old(self).catalog@.remove((true, path_key(old_path@))));
                return false;
            },
        };
        let new_key = ItemKey::from_path(new.path.as_str());
        let next: Option<Item> = match self.config.items.get(&id) {
            Some(it) => Some(renamed_record(it, new, new_key.clone())),
            None => None,
        };
        match next {
            None => false,
            Some(it) => {
                self.config.items.insert(id, it);
                if let Some(other) = self.catalog.get(&new_key) {
                    if other != id {
                        self.config.items.remove(&other);
                        drop_from_layouts(&mut self.config.layouts, other);
                    }
                }
                self.catalog.insert(new_key, id);
                self.dirty = true;
                true
            },
        }
    }
}

// ---- a desktop that moved -----------------------------------------------------------------

/// The path of an item under folder `old_prefix`, moved under `new_prefix`.
pub open spec fn moved_path(p: Seq<char>, old_prefix: Seq<char>, new_prefix: Seq<char>) -> Seq<char> {
    new_prefix + p.skip(old_prefix.len() as int)
}

/// The item lies under the folder.
pub open spec fn lies_under(it: Item, prefix: Seq<char>) -> bool {
    match it.key {
        ItemKey::Path(p) => begins_with(p@, prefix),
        ItemKey::Pidl(_) => false,
    }
}

/// `b` is the record `a` once the folder that it lies under moved.
pub open spec fn is_moved(a: Item, b: Item, old_prefix: Seq<char>, new_prefix: Seq<char>) -> bool {
    if lies_under(a, old_prefix) {
        let path = moved_path(key_text(a.key).1, old_prefix, new_prefix);
        &&& b == (Item { key: b.key, icon_key: b.icon_key, ..a })
        &&& key_text(b.key) == (true, path)
        &&& icon_text(b.icon_key) == match a.icon_key {
            IconKey::ByExt(e) => (true, e@, 0),
            IconKey::ByContent { mtime, .. } => (false, path, mtime as int),
        }
    } else {
        b == a
    }
}

/// The items that lie under the folder.
pub open spec fn items_under(items: Map<ItemId, Item>, prefix: Seq<char>) -> Set<ItemId> {
    Set::new(|id: ItemId| items.contains_key(id) && lies_under(items[id], prefix))
}

/// Every key of an item stands for an item with that key, and no other key stands for anything.
pub open spec fn is_catalog_of(
    catalog: Map<(bool, Seq<char>), ItemId>,
    items: Map<ItemId, Item>,
) -> bool {
    &&& forall|id: ItemId| #[trigger]
        items.contains_key(id) ==> catalog.contains_key(key_text(items[id].key))
    &&& forall|k: (bool, Seq<char>)| #[trigger]
        catalog.contains_key(k) ==> items.contains_key(catalog[k]) && key_text(
            items[catalog[k]].key,
        ) == k
}

fn moved_record(it: &Item, old_prefix: &Vec<char>, new_prefix: &Vec<char>) -> (r: Option<Item>)
    ensures
        r is Some <==> lies_under(*it, old_prefix@),
        r matches Some(b) ==> is_moved(*it, b, old_prefix@, new_prefix@),
{
    match &it.key {
        ItemKey::Pidl(_) => None,
        ItemKey::Path(p) => {
            let path = chars_of(p.as_str());
            if !chars_begin_with(&path, old_prefix) {
                return None;
            }
            let mut path = path;
            let mut rest = path.split_off(old_prefix.len());
            let mut out = new_prefix.clone();
            assert(out@ =~= new_prefix@);
            out.append(&mut rest);
            assert(out@ =~= moved_path(p@, old_prefix@, new_prefix@));
            let text = string_of(&out);
            let mut next = it.clone();
            next.icon_key = match &it.icon_key {
                IconKey::ByExt(e) => IconKey::ByExt(e.clone()),
                IconKey::ByContent { path: _, mtime } => IconKey::ByContent {
                    path: text.clone(),
                    mtime: *mtime,
                },
            };
            next.key = ItemKey::Path(text);
            Some(next)
        },
    }
}

impl AppState {
    /// Makes the catalog anew from the items.
    pub fn rebuild_catalog(&mut self)
        ensures
            is_catalog_of(final(self).catalog@, old(self).config.items@),
            final(self).config == old(self).config,
            final(self).dirty == old(self).dirty,
            same_but_records(*final(self), *old(self)),
    {
        let ids = ids_of(&self.config.items);
        let mut catalog = Catalog::new();
        let n: usize = ids.len();
        let ghost items = self.config.items@;
        for i in 0..n
            invariant
                n == ids.len(),
                lists_keys(ids@, items),
                items == self.config.items@,
                forall|j: int|
                    0 <= j < i ==> catalog@.contains_key(key_text(items[#[trigger] ids@[j]].key)),
                forall|k: (bool, Seq<char>)| #[trigger]
                    catalog@.contains_key(k) ==> items.contains_key(catalog@[k]) && key_text(
                        items[catalog@[k]].key,
                    ) == k,
        {
            assert(ids@.contains(ids@[i as int]));
            if let Some(it) = self.config.items.get(&ids[i]) {
                catalog.insert(it.key.clone(), ids[i]);
            }
        }
        proof {
            assert forall|id: ItemId| #[trigger] items.contains_key(id) implies catalog@.contains_key(
                key_text(items[id].key),
            ) by {
                assert(ids@.contains(id));
                let j = ids@.index_of(id);
                assert(ids@[j] == id);
            }
        }
        self.catalog = catalog;
    }

    fn move_records(&mut self, old_prefix: &Vec<char>, new_prefix: &Vec<char>) -> (r: usize)
        ensures
            final(self).config.items@.dom() == old(self).config.items@.dom(),
            forall|id: ItemId| #[trigger]
                old(self).config.items@.contains_key(id) ==> is_moved(
                    old(self).config.items@[id],
                    final(self).config.items@[id],
                    old_prefix@,
                    new_prefix@,
                ),
            items_under(old(self).config.items@, old_prefix@).finite(),
            r == items_under(old(self).config.items@, old_prefix@).len(),
            final(self).config.layouts == old(self).config.layouts,
            final(self).config.settings == old(self).config.settings,
            final(self).dirty == old(self).dirty,
            same_but_records(*final(self), *old(self)),
    {
        let ghost a = self.config.items@;
        let ids = ids_of(&self.config.items);
        let mut count: usize = 0;
        let ghost mut found: Set<ItemId> = Set::empty();
        let n: usize = ids.len();
        for i in 0..n
            invariant
                n == ids.len(),
                lists_keys(ids@, a),
                a == old(self).config.items@,
                self.config.items@.dom() == a.dom(),
                forall|x: ItemId| #[trigger]
                    a.contains_key(x) ==> if ids@.take(i as int).contains(x) {
                        is_moved(a[x], self.config.items@[x], old_prefix@, new_prefix@)
                    } else {
                        self.config.items@[x] == a[x]
                    },
                found.finite(),
                found.len() == count,
                count <= i,
                forall|x: ItemId| #[trigger]
                    found.contains(x) <==> items_under(a, old_prefix@).contains(x) && ids@.take(
                        i as int,
                    ).contains(x),
                self.config.layouts == old(self).config.layouts,
                self.config.settings == old(self).config.settings,
                self.dirty == old(self).dirty,
                same_but_records(*self, *old(self)),
        {
            let id: ItemId = ids[i];
            let ghost done = ids@.take(i as int);
            let ghost next = ids@.take(i + 1);
            proof {
                assert(next == done.push(id));
                assert(ids@.contains(ids@[i as int]));
                assert(a.contains_key(id));
                assert(!done.contains(id)) by {
                    if done.contains(id) {
                        let j = done.index_of(id);
                        assert(ids@[j] == ids@[i as int]);
                    }
                }
                assert forall|x: ItemId| #[trigger] next.contains(x) <==> done.contains(x) || x
                    == id by {
                    if done.contains(x) {
                        assert(next[done.index_of(x)] == x);
                    }
                    if x == id {
                        assert(next[i as int] == x);
                    }
                    if next.contains(x) {
                        let j = next.index_of(x);
                        if j < i {
                            assert(done[j] == x);
                        }
                    }
                }
            }
            let moved: Option<Item> = match self.config.items.get(&id) {
                Some(it) => moved_record(it, old_prefix, new_prefix),
                None => None,
            };
            if let Some(it) = moved {
                self.config.items.insert(id, it);
                count = count + 1;
                proof {
                    found = found.insert(id);
                    assert(self.config.items@.dom() =~= a.dom());
                }
            }
        }
        proof {
            assert(ids@.take(n as int) == ids@);
            assert(found =~= items_under(a, old_prefix@));
        }
        count
    }

    /// Follows a desktop folder that moved: every record under the old path gets the new one, so
    /// that the fences keep their items. Returns how many. The first call only takes note of the
    /// path.
    #[verifier::rlimit(60)]
    #[verifier::spinoff_prover]
    pub fn migrate_desktop_path(&mut self, new_desktop: &str) -> (r: usize)
        ensures
            ({
                let items = old(self).config.items@;
                match old(self).config.settings.desktop_path {
                    None => {
                        &&& r == 0
                        &&& final(self).config.items@ == items
                        &&& final(self).catalog == old(self).catalog
                        &&& final(self).config.settings.desktop_path matches Some(p)
                        &&& p@ == new_desktop@
                        &&& final(self).dirty
                    },
                    Some(o) => if path_key(o@) == path_key(new_desktop@) {
                        &&& r == 0
                        &&& *final(self) == *old(self)
                    } else {
                        let a = prefix_of(path_key(o@));
                        let b = prefix_of(path_key(new_desktop@));
                        &&& r == items_under(items, a).len()
                        &&& final(self).config.items@.dom() == items.dom()
                        &&& forall|id: ItemId| #[trigger]
                            items.contains_key(id) ==> is_moved(
                                items[id],
                                final(self).config.items@[id],
                                a,
                                b,
                            )
                        &&& is_catalog_of(final(self).catalog@, final(self).config.items@)
                        &&& final(self).config.settings.desktop_path matches Some(p)
                        &&& p@ == new_desktop@
                        &&& final(self).dirty
                    },
                }
            }),
            final(self).config.settings == (Settings {
                desktop_path: final(self).config.settings.desktop_path,
                ..old(self).config.settings
            }),
            final(self).config.layouts == old(self).config.layouts,
            same_but_records(*final(self), *old(self)),
    {
        let old_key = match &self.config.settings.desktop_path {
            Some(o) => Some(ItemKey::from_path(o.as_str())),
            None => None,
        };
        match old_key {
            None => {
                self.config.settings.desktop_path = Some(new_desktop.to_owned());
                self.dirty = true;
                0
            },
            Some(old_key) => {
                let new_key = ItemKey::from_path(new_desktop);
                if old_key.same(&new_key) {
                    return 0;
                }
                let old_prefix = match old_key.as_path() {
                    Some(p) => chars_of(dir_prefix(p).as_str()),
                    None => {
                        return 0;
                    },
                };
                let new_prefix = match new_key.as_path() {
                    Some(p) => chars_of(dir_prefix(p).as_str()),
                    None => {
                        return 0;
                    },
                };
                let n: usize = self.move_records(&old_prefix, &new_prefix);
                self.config.settings.desktop_path = Some(new_desktop.to_owned());
                self.rebuild_catalog();
                self.dirty = true;
                n
            },
        }
    }
}

// ---- what the records keep ----------------------------------------------------------------

/// A renamed item is the same item at another path: it keeps what is known of it, is no longer
/// missing, and takes the new name and icon.
pub proof fn a_renamed_item_keeps_its_history(a: Item, b: Item, f: RenamedFile)
    requires
        is_renamed(a, b, f),
    ensures
        b.id == a.id,
        b.origin == a.origin,
        b.mtime == a.mtime,
        b.size == a.size,
        b.open_count == a.open_count,
        b.last_opened == a.last_opened,
        b.orphaned_since is None,
        b.icon_key == f.icon_key,
        f.is_folder == Some(b.is_folder) || (f.is_folder is None && b.is_folder == a.is_folder),
        key_text(b.key) == (true, path_key(f.path@)),
        f.shell_name is Some ==> b.display_name@ == f.shell_name->0@,
        f.shell_name is None && f.file_name is Some ==> b.display_name@ == stem_of(f.file_name->0@),
        f.shell_name is None && f.file_name is None ==> b.display_name@.len() == 0,
{
}

/// An item under the old prefix is found under the new one by the rest of its path, and so is an
/// icon of its own; every other item, and an icon that it shares, stays as it is.
pub proof fn items_move_with_their_folder(
    a: Item,
    b: Item,
    old_prefix: Seq<char>,
    new_prefix: Seq<char>,
    rest: Seq<char>,
)
    requires
        is_moved(a, b, old_prefix, new_prefix),
    ensures
        key_text(a.key) == (true, old_prefix + rest) ==> {
            &&& key_text(b.key) == (true, new_prefix + rest)
            &&& b.id == a.id && b.display_name == a.display_name && b.open_count == a.open_count
                && b.orphaned_since == a.orphaned_since && b.mtime == a.mtime
            &&& a.icon_key is ByExt ==> icon_text(b.icon_key) == icon_text(a.icon_key)
            &&& a.icon_key is ByContent ==> icon_text(b.icon_key) == (
                false,
                new_prefix + rest,
                icon_text(a.icon_key).2,
            )
        },
        a.key is Pidl ==> b == a,
        (forall|r: Seq<char>| key_text(a.key).1 != #[trigger] (old_prefix + r)) ==> b == a,
{
    if key_text(a.key) == (true, old_prefix + rest) {
        assert((old_prefix + rest).take(old_prefix.len() as int) =~= old_prefix);
        assert((old_prefix + rest).skip(old_prefix.len() as int) =~= rest);
        assert(lies_under(a, old_prefix));
    }
    if lies_under(a, old_prefix) {
        let p = key_text(a.key).1;
        let r = p.skip(old_prefix.len() as int);
        assert(p =~= p.take(old_prefix.len() as int) + r);
        assert(p == old_prefix + r);
    }
}

/// A path that another item had is taken over from that item, and from no other.
pub proof fn only_another_item_is_displaced(
    catalog: Map<(bool, Seq<char>), ItemId>,
    key: (bool, Seq<char>),
    id: ItemId,
)
    ensures
        forall|x: ItemId|
            displaced(catalog, key, id) == Some(x) <==> catalog.contains_key(key) && catalog[key] == x
                && x != id,
{
}

/// A record that is taken over leaves every fence of every layout, and no other item does.
pub proof fn a_displaced_item_is_in_no_layout(ls: Seq<LayoutModel>, id: ItemId, l: int, i: int)
    requires
        0 <= l < ls.len(),
        0 <= i < ls[l].fences.len(),
    ensures
        layouts_without(ls, id).len() == ls.len(),
        layouts_without(ls, id)[l].fingerprint == ls[l].fingerprint,
        layouts_without(ls, id)[l].fences.len() == ls[l].fences.len(),
        layouts_without(ls, id)[l].fences[i] == (FenceModel {
            items: ls[l].fences[i].items.filter(|r: ItemRef| r.item_id != id),
            ..ls[l].fences[i]
        }),
{
    lemma_refs_filtered(ls[l].fences[i].items, id);
}

/// The live keys are those of the items that are not missing.
pub proof fn missing_items_have_no_live_key(items: Map<ItemId, Item>, k: (bool, Seq<char>))
    ensures
        live_keys(items).contains(k) <==> exists|id: ItemId| #[trigger]
            items.contains_key(id) && items[id].orphaned_since is None && key_text(items[id].key) == k,
{
    if live_keys(items).contains(k) {
        let id = choose|id: ItemId| #[trigger] live(items, id) && key_text(items[id].key) == k;
        assert(items.contains_key(id));
    }
    if exists|id: ItemId| #[trigger]
        items.contains_key(id) && items[id].orphaned_since is None && key_text(items[id].key) == k {
        let id = choose|id: ItemId| #[trigger]
            items.contains_key(id) && items[id].orphaned_since is None && key_text(items[id].key)
                == k;
        assert(live(items, id));
    }
}

/// Opening an item counts it once more, notes the time, and changes no other item.
pub proof fn opening_an_item_counts_it(s: &mut AppState, id: ItemId, now: i64, other: ItemId)
    requires
        call_ensures(AppState::note_opened_at, (s, id, now), ()),
        old(s).config.items@.contains_key(id),
        other != id,
    ensures
        final(s).config.items@.contains_key(id),
        final(s).config.items@[id].last_opened == Some(now),
        old(s).config.items@[id].open_count < u32::MAX ==> final(s).config.items@[id].open_count
            == old(s).config.items@[id].open_count + 1,
        final(s).config.items@[id].key == old(s).config.items@[id].key,
        final(s).config.items@.contains_key(other) == old(s).config.items@.contains_key(other),
        final(s).config.items@[other] == old(s).config.items@[other],
        final(s).dirty,
{
}

/// Where only records were handled, the rules, the log, the snapshots and the portals are as they
/// were.
pub proof fn handling_records_leaves_the_rest(a: AppState, b: AppState)
    requires
        same_but_records(a, b),
    ensures
        a.config.rules == b.config.rules && a.config.undo_log == b.config.undo_log
            && a.config.snapshots == b.config.snapshots && a.config.schema_version
            == b.config.schema_version,
        a.layout == b.layout && a.store == b.store && a.work_areas == b.work_areas,
        a.portal_items == b.portal_items && a.portal_members == b.portal_members && a.portal_cwd
            == b.portal_cwd,
        a.first_run == b.first_run && a.recovered_from == b.recovered_from,
{
}

/// A catalogue is that of the items where it has the key of every item, and nothing but items
/// under their keys.
pub proof fn a_catalogue_names_its_items(
    catalog: Map<(bool, Seq<char>), ItemId>,
    items: Map<ItemId, Item>,
    id: ItemId,
    k: (bool, Seq<char>),
)
    requires
        is_catalog_of(catalog, items),
    ensures
        items.contains_key(id) ==> catalog.contains_key(key_text(items[id].key)),
        catalog.contains_key(k) ==> items.contains_key(catalog[k]) && key_text(items[catalog[k]].key) == k,
{
}

/// A file that was renamed is found under its new path as the item it was, and under its old path
/// no more; an unknown file changes no record.
pub proof fn a_renamed_file_is_the_same_item(
    s: &mut AppState,
    old_path: &str,
    new: &RenamedFile,
    r: bool,
    id: ItemId,
)
    requires
        call_ensures(AppState::rename_item, (s, old_path, new), r),
        old(s).catalog@.contains_key((true, path_key(old_path@))),
        old(s).catalog@[(true, path_key(old_path@))] == id,
    ensures
        r <==> old(s).config.items@.contains_key(id),
        r ==> final(s).catalog@.contains_key((true, path_key(new.path@))) && final(s).catalog@[(
            true,
            path_key(new.path@),
        )] == id,
        path_key(old_path@) != path_key(new.path@) ==> !final(s).catalog@.contains_key(
            (true, path_key(old_path@)),
        ),
        r ==> final(s).config.items@[id].open_count == old(s).config.items@[id].open_count
            && key_text(final(s).config.items@[id].key) == (true, path_key(new.path@)),
        !r ==> final(s).config == old(s).config,
{
}

} // verus!
