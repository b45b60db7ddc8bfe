//! Folder portals: the folder that each one shows, and the items in it.

use crate::model::{
    icon_text, key_text, Fence, FenceId, FenceKind, FenceModel, IconKey, Item, ItemId, ItemKey,
    ItemSourceSpec, Origin,
};
use crate::paths::{inside, is_inside, path_key, prefix_of};
use crate::state::{at, fences, in_use, AppState};
use crate::sync::{display_name, shown_name};
use crate::tables::{ids_of, lists_keys};
use crate::tabs::{contains_id, has_fence};
use crate::text::{begins_with, chars_begin_with, chars_of};
use std::collections::HashMap;
use vstd::prelude::*;

verus! {

// ---- folders ------------------------------------------------------------------------------

/// The folder that a fence was made for, where it is a portal.
pub open spec fn root_of(f: FenceModel) -> Option<Seq<char>> {
    match (f.kind, f.source) {
        (FenceKind::FolderPortal, ItemSourceSpec::Folder { path, .. }) => Some(path@),
        _ => None,
    }
}

/// The folder that portal `id` was made for.
pub open spec fn portal_root_of(s: AppState, id: FenceId) -> Option<Seq<char>> {
    if has_fence(fences(s), id) {
        root_of(at(s, id))
    } else {
        None
    }
}

/// The folder that portal `id` shows: the one navigated into, else its root.
pub open spec fn portal_path_of(s: AppState, id: FenceId) -> Option<Seq<char>> {
    match portal_root_of(s, id) {
        Some(root) => Some(
            if s.portal_cwd@.contains_key(id) {
                s.portal_cwd@[id]@
            } else {
                root
            },
        ),
        None => None,
    }
}

/// The two states differ at most in the subfolders that portals show.
pub open spec fn same_but_cwd(a: AppState, b: AppState) -> bool {
    &&& a.config == b.config
    &&& a.store == b.store
    &&& a.layout == b.layout
    &&& a.dirty == b.dirty
    &&& a.catalog == b.catalog
    &&& a.portal_items == b.portal_items
    &&& a.portal_members == b.portal_members
    &&& a.work_areas == b.work_areas
    &&& a.first_run == b.first_run
    &&& a.recovered_from == b.recovered_from
}

/// The two states differ at most in what portals show.
pub open spec fn same_but_portals(a: AppState, b: AppState) -> bool {
    &&& a.config == b.config
    &&& a.store == b.store
    &&& a.layout == b.layout
    &&& a.dirty == b.dirty
    &&& a.catalog == b.catalog
    &&& a.work_areas == b.work_areas
    &&& a.first_run == b.first_run
    &&& a.recovered_from == b.recovered_from
}

/// The portal with this root may show this folder.
pub open spec fn may_enter(root: Option<Seq<char>>, dir: Seq<char>, is_dir: bool) -> bool {
    match root {
        Some(r) => is_dir && (path_key(dir) == path_key(r) || inside(path_key(dir), path_key(r))),
        None => false,
    }
}

impl AppState {
    /// The folder that a portal was made for.
    pub fn portal_root(&self, id: FenceId) -> (r: Option<&str>)
        requires
            in_use(*self),
        ensures
            r is Some <==> portal_root_of(*self, id) is Some,
            r matches Some(p) ==> Some(p@) == portal_root_of(*self, id),
    {
        match self.fence(id) {
            Some(f) => match (&f.kind, &f.source) {
                (FenceKind::FolderPortal, ItemSourceSpec::Folder { path, .. }) => Some(
                    path.as_str(),
                ),
                _ => None,
            },
            None => None,
        }
    }

    /// The folder that a portal shows.
    pub fn portal_path(&self, id: FenceId) -> (r: Option<&str>)
        requires
            in_use(*self),
        ensures
            r is Some <==> portal_path_of(*self, id) is Some,
            r matches Some(p) ==> Some(p@) == portal_path_of(*self, id),
    {
        match self.portal_root(id) {
            Some(root) => match self.portal_cwd.get(&id) {
                Some(cwd) => Some(cwd.as_str()),
                None => Some(root),
            },
            None => None,
        }
    }

    /// Whether the portal shows a subfolder of its root.
    pub fn portal_navigated(&self, id: FenceId) -> (r: bool)
        ensures
            r == self.portal_cwd@.contains_key(id),
    {
        self.portal_cwd.contains_key(&id)
    }

    /// Makes a portal show `dir`, its root or a folder inside it. `is_dir` says whether it is a
    /// folder, and `spelled` is its path as the disk spells it. Returns false, and changes
    /// nothing, where it may not.
    pub fn portal_enter(&mut self, id: FenceId, dir: &str, is_dir: bool, spelled: String) -> (r: bool)
        requires
            in_use(*old(self)),
        ensures
            r == may_enter(portal_root_of(*old(self), id), dir@, is_dir),
            final(self).portal_cwd@ == if !r {
                old(self).portal_cwd@
            } else if Some(path_key(dir@)) == (match portal_root_of(*old(self), id) {
                Some(root) => Some(path_key(root)),
                None => None,
            }) {
                old(self).portal_cwd@.remove(id)
            } else {
                old(self).portal_cwd@.insert(id, spelled)
            },
            same_but_cwd(*final(self), *old(self)),
    {
        let root_key = match self.portal_root(id) {
            Some(root) => ItemKey::from_path(root),
            None => {
                return false;
            },
        };
        if !is_dir {
            return false;
        }
        let dir_key = ItemKey::from_path(dir);
        if dir_key.same(&root_key) {
            self.portal_cwd.remove(&id);
            return true;
        }
        match (root_key.as_path(), dir_key.as_path()) {
            (Some(rk), Some(dk)) => if is_inside(dk, rk) {
                self.portal_cwd.insert(id, spelled);
                true
            } else {
                false
            },
            _ => false,
        }
    }

    /// Makes a portal show the folder above, never one above its root. `parent` is the folder
    /// above the one shown, whether it is a folder, and its spelling; none where there is none.
    /// Returns false where the portal shows its root, or where the folder above may not be shown.
    pub fn portal_up(&mut self, id: FenceId, parent: Option<(String, bool, String)>) -> (r: bool)
        requires
            in_use(*old(self)),
        ensures
            r == (old(self).portal_cwd@.contains_key(id) && match parent {
                Some((dir, is_dir, _)) => may_enter(portal_root_of(*old(self), id), dir@, is_dir),
                None => true,
            }),
            final(self).portal_cwd@ == if !r {
                old(self).portal_cwd@
            } else {
                match parent {
                    Some((dir, _, spelled)) => if Some(path_key(dir@)) == (match portal_root_of(
                        *old(self),
                        id,
                    ) {
                        Some(root) => Some(path_key(root)),
                        None => None,
                    }) {
                        old(self).portal_cwd@.remove(id)
                    } else {
                        old(self).portal_cwd@.insert(id, spelled)
                    },
                    None => old(self).portal_cwd@.remove(id),
                }
            },
            same_but_cwd(*final(self), *old(self)),
    {
        if !self.portal_cwd.contains_key(&id) {
            return false;
        }
        match parent {
            Some((dir, is_dir, spelled)) => self.portal_enter(id, dir.as_str(), is_dir, spelled),
            None => {
                self.portal_cwd.remove(&id);
                true
            },
        }
    }

    /// Makes a portal show its root again. Returns whether it showed something else.
    pub fn portal_home(&mut self, id: FenceId) -> (r: bool)
        ensures
            r == old(self).portal_cwd@.contains_key(id),
            final(self).portal_cwd@ == old(self).portal_cwd@.remove(id),
            same_but_cwd(*final(self), *old(self)),
    {
        let r = self.portal_cwd.remove(&id).is_some();
        assert(self.portal_cwd@ =~= old(self).portal_cwd@.remove(id));
        r
    }

    /// Goes back to the root where the subfolder that a portal shows is gone.
    pub fn portal_check(&mut self, id: FenceId, cwd_is_dir: bool)
        ensures
            final(self).portal_cwd@ == if cwd_is_dir {
                old(self).portal_cwd@
            } else {
                old(self).portal_cwd@.remove(id)
            },
            same_but_cwd(*final(self), *old(self)),
    {
        if !cwd_is_dir {
            self.portal_cwd.remove(&id);
        }
    }

    /// The title to show: that of the fence, or, for a portal that shows a subfolder, the name of
    /// that folder where it has one.
    pub fn display_title(&self, f: &Fence, folder_name: Option<&str>) -> (r: String)
        ensures
            r@ == match folder_name {
                Some(n) => if self.portal_cwd@.contains_key(f.id) {
                    n@
                } else {
                    f.title@
                },
                None => f.title@,
            },
    {
        match folder_name {
            Some(n) => if self.portal_cwd.contains_key(&f.id) {
                n.to_owned()
            } else {
                f.title.clone()
            },
            None => f.title.clone(),
        }
    }
}

// ---- members ------------------------------------------------------------------------------

/// Some portal lists the item.
pub open spec fn is_listed(members: Map<FenceId, Vec<ItemId>>, id: ItemId) -> bool {
    exists|f: FenceId| #[trigger] members.contains_key(f) && members[f]@.contains(id)
}

/// The items that are left once those of `ids` that no portal lists were dropped, and the items
/// of `ids` that were there.
pub open spec fn dropped(
    items: Map<ItemId, Item>,
    ids: Seq<ItemId>,
    members: Map<FenceId, Vec<ItemId>>,
) -> (Map<ItemId, Item>, Seq<Item>)
    decreases ids.len(),
{
    if ids.len() == 0 {
        (items, Seq::empty())
    } else {
        let (left, out) = dropped(items, ids.drop_last(), members);
        let id = ids.last();
        if !left.contains_key(id) {
            (left, out)
        } else if is_listed(members, id) {
            (left, out.push(left[id]))
        } else {
            (left.remove(id), out.push(left[id]))
        }
    }
}

fn listed_by(members: &HashMap<FenceId, Vec<ItemId>>, id: ItemId) -> (r: Option<FenceId>)
    ensures
        r is Some <==> is_listed(members@, id),
        r matches Some(f) ==> members@.contains_key(f) && members@[f]@.contains(id),
{
    let keys = ids_of(members);
    let n: usize = keys.len();
    for i in 0..n
        invariant
            n == keys.len(),
            lists_keys(keys@, members@),
            forall|j: int| 0 <= j < i ==> !members@[#[trigger] keys@[j]]@.contains(id),
    {
        assert(keys@.contains(keys@[i as int]));
        if let Some(ids) = members.get(&keys[i]) {
            if contains_id(ids, id) {
                return Some(keys[i]);
            }
        }
    }
    proof {
        assert forall|f: FenceId| #[trigger] members@.contains_key(f) implies !members@[f]@.contains(
            id,
        ) by {
            assert(keys@.contains(f));
            let j = keys@.index_of(f);
            assert(keys@[j] == f);
        }
    }
    None
}

/// The members of a portal; none where it has no list.
pub open spec fn members_of(s: AppState, id: FenceId) -> Seq<ItemId> {
    if s.portal_members@.contains_key(id) {
        s.portal_members@[id]@
    } else {
        Seq::empty()
    }
}

impl AppState {
    /// The portal whose folder holds the item. Where several do, one of them.
    pub fn portal_of_item(&self, item: ItemId) -> (r: Option<FenceId>)
        ensures
            r is Some <==> is_listed(self.portal_members@, item),
            r matches Some(f) ==> self.portal_members@.contains_key(f)
                && self.portal_members@[f]@.contains(item),
    {
        listed_by(&self.portal_members, item)
    }

    /// Forgets the items of a portal. An item that another portal lists stays. Returns those that
    /// were there.
    pub fn evict_portal_members(&mut self, id: FenceId) -> (r: Vec<Item>)
        ensures
            final(self).portal_members@ == old(self).portal_members@.remove(id),
            ({
                let d = dropped(
                    old(self).portal_items@,
                    members_of(*old(self), id),
                    old(self).portal_members@.remove(id),
                );
                final(self).portal_items@ == d.0 && r@ == d.1
            }),
            final(self).portal_cwd == old(self).portal_cwd,
            same_but_portals(*final(self), *old(self)),
    {
        let ids: Vec<ItemId> = match self.portal_members.remove(&id) {
            Some(ids) => ids,
            None => Vec::new(),
        };
        assert(self.portal_members@ =~= old(self).portal_members@.remove(id));
        assert(ids@ =~= members_of(*old(self), id));
        let ghost members = self.portal_members@;
        let mut out: Vec<Item> = Vec::new();
        let n: usize = ids.len();
        for k in 0..n
            invariant
                n == ids.len(),
                members == self.portal_members@,
                self.portal_members@ == old(self).portal_members@.remove(id),
                self.portal_cwd == old(self).portal_cwd,
                same_but_portals(*self, *old(self)),
                (self.portal_items@, out@) == dropped(
                    old(self).portal_items@,
                    ids@.take(k as int),
                    members,
                ),
        {
            assert(ids@.take(k + 1).drop_last() == ids@.take(k as int));
            let i: ItemId = ids[k];
            let shared = listed_by(&self.portal_members, i).is_some();
            let item: Option<Item> = if shared {
                match self.portal_items.get(&i) {
                    Some(it) => Some(it.clone()),
                    None => None,
                }
            } else {
                let ghost before = self.portal_items@;
                let it = self.portal_items.remove(&i);
                proof {
                    if it is None {
                        assert(self.portal_items@ =~= before);
                    }
                }
                it
            };
            if let Some(it) = item {
                out.push(it);
            }
        }
        assert(ids@.take(n as int) == ids@);
        out
    }
}

// ---- contents -----------------------------------------------------------------------------

/// One entry of a folder, with the id that stands for its path.
#[derive(Debug, PartialEq, Eq)]
pub struct FolderEntry {
    pub id: ItemId,
    pub path: String,
    pub file_name: String,
    /// The name that the shell shows, where it gives one.
    pub shell_name: Option<String>,
    pub mtime: i64,
    pub is_folder: bool,
    pub attributes: u32,
    pub size: u64,
    pub icon_key: IconKey,
}

/// The same file at the same time: position `i` of `old_items` is the last such one.
pub open spec fn is_known(old_items: Seq<Item>, key: Seq<char>, mtime: i64, i: int) -> bool {
    &&& 0 <= i < old_items.len()
    &&& key_text(old_items[i].key) == (true, key)
    &&& old_items[i].mtime == mtime
    &&& forall|j: int|
        i < j < old_items.len() ==> !(key_text((#[trigger] old_items[j]).key) == (true, key)
            && old_items[j].mtime == mtime)
}

pub open spec fn known_at(old_items: Seq<Item>, key: Seq<char>, mtime: i64) -> int {
    choose|i: int| is_known(old_items, key, mtime, i)
}

/// The name that an entry is shown under: that of before where the file is unchanged and its name
/// still begins so, with the same case, else a new one.
pub open spec fn entry_name(old_items: Seq<Item>, e: FolderEntry) -> Seq<char> {
    let key = path_key(e.path@);
    if (exists|i: int| is_known(old_items, key, e.mtime, i)) && begins_with(
        e.file_name@,
        old_items[known_at(old_items, key, e.mtime)].display_name@,
    ) {
        old_items[known_at(old_items, key, e.mtime)].display_name@
    } else {
        shown_name(e.shell_name, e.file_name@, e.is_folder)
    }
}

/// `it` is the record of a folder's entry.
pub open spec fn is_entry_record(it: Item, old_items: Seq<Item>, e: FolderEntry) -> bool {
    &&& it.id == e.id
    &&& key_text(it.key) == (true, path_key(e.path@))
    &&& it.origin == Origin::Namespace
    &&& it.display_name@ == entry_name(old_items, e)
    &&& it.file_id is None
    &&& it.mtime == e.mtime
    &&& it.is_folder == e.is_folder
    &&& it.attrs == e.attributes
    &&& it.icon_key == e.icon_key
    &&& it.orphaned_since is None
    &&& it.size == e.size
    &&& it.open_count == 0
    &&& it.last_opened is None
}

/// Two records say the same.
pub open spec fn record_eq(a: Item, b: Item) -> bool {
    &&& a.id == b.id
    &&& key_text(a.key) == key_text(b.key)
    &&& a.origin == b.origin
    &&& a.display_name@ == b.display_name@
    &&& a.file_id == b.file_id
    &&& a.mtime == b.mtime
    &&& a.is_folder == b.is_folder
    &&& a.attrs == b.attrs
    &&& icon_text(a.icon_key) == icon_text(b.icon_key)
    &&& a.orphaned_since == b.orphaned_since
    &&& a.size == b.size
    &&& a.open_count == b.open_count
    &&& a.last_opened == b.last_opened
}

/// Two lists of records say the same.
pub open spec fn records_eq(a: Seq<Item>, b: Seq<Item>) -> bool {
    a.len() == b.len() && forall|i: int| 0 <= i < a.len() ==> record_eq(#[trigger] a[i], b[i])
}

fn same_record(a: &Item, b: &Item) -> (r: bool)
    ensures
        r == record_eq(*a, *b),
{
    a.id == b.id && a.key.same(&b.key) && a.origin == b.origin && a.display_name == b.display_name
        && a.file_id == b.file_id && a.mtime == b.mtime && a.is_folder == b.is_folder && a.attrs
        == b.attrs && a.icon_key.same(&b.icon_key) && a.orphaned_since == b.orphaned_since && a.size
        == b.size && a.open_count == b.open_count && a.last_opened == b.last_opened
}

fn same_records(a: &Vec<Item>, b: &Vec<Item>) -> (r: bool)
    ensures
        r == records_eq(a@, b@),
{
    if a.len() != b.len() {
        return false;
    }
    let n: usize = a.len();
    for i in 0..n
        invariant
            n == a.len(),
            n == b.len(),
            forall|j: int| 0 <= j < i ==> record_eq(#[trigger] a@[j], b@[j]),
    {
        if !same_record(&a[i], &b[i]) {
            assert(!record_eq(a@[i as int], b@[i as int]));
            return false;
        }
    }
    true
}

fn find_known(old_items: &Vec<Item>, key: &ItemKey, mtime: i64) -> (r: Option<usize>)
    requires
        *key is Path,
    ensures
        match r {
            Some(i) => is_known(old_items@, key->Path_0@, mtime, i as int) && known_at(
                old_items@,
                key->Path_0@,
                mtime,
            ) == i,
            None => forall|i: int| !is_known(old_items@, key->Path_0@, mtime, i),
        },
{
    let mut i: usize = old_items.len();
    while i > 0
        invariant
            i <= old_items.len(),
            *key is Path,
            forall|j: int|
                i <= j < old_items.len() ==> !(key_text((#[trigger] old_items@[j]).key) == key_text(
                    *key,
                ) && old_items@[j].mtime == mtime),
        decreases i,
    {
        i = i - 1;
        if old_items[i].mtime == mtime && old_items[i].key.same(key) {
            proof {
                assert(is_known(old_items@, key->Path_0@, mtime, i as int));
                let c = known_at(old_items@, key->Path_0@, mtime);
                assert(is_known(old_items@, key->Path_0@, mtime, c));
                if c < i {
                    assert(key_text(old_items@[i as int].key) == (true, key->Path_0@));
                }
                if i < c {
                    assert(key_text(old_items@[c].key) == (true, key->Path_0@));
                }
            }
            return Some(i);
        }
    }
    None
}

fn entry_record(old_items: &Vec<Item>, e: &FolderEntry) -> (r: Item)
    ensures
        is_entry_record(r, old_items@, *e),
{
    let key = ItemKey::from_path(e.path.as_str());
    let known: Option<String> = match find_known(old_items, &key, e.mtime) {
        Some(i) => {
            let name = &old_items[i].display_name;
            if chars_begin_with(&chars_of(e.file_name.as_str()), &chars_of(name.as_str())) {
                Some(name.clone())
            } else {
                None
            }
        },
        None => None,
    };
    let name = match known {
        Some(n) => n,
        None => display_name(&e.shell_name, e.file_name.as_str(), e.is_folder),
    };
    Item {
        id: e.id,
        key,
        origin: Origin::Namespace,
        display_name: name,
        file_id: None,
        mtime: e.mtime,
        is_folder: e.is_folder,
        attrs: e.attributes,
        icon_key: e.icon_key.clone(),
        orphaned_since: None,
        size: e.size,
        open_count: 0,
        last_opened: None,
    }
}

/// `items` with each of `new_items` put in, one after the other.
pub open spec fn with_records(items: Map<ItemId, Item>, new_items: Seq<Item>) -> Map<ItemId, Item>
    decreases new_items.len(),
{
    if new_items.len() == 0 {
        items
    } else {
        with_records(items, new_items.drop_last()).insert(new_items.last().id, new_items.last())
    }
}

/// The portal `id` was read again: its members are the folder's entries, in their order, and the
/// items of before that no other portal lists are gone.
pub open spec fn portal_read(
    a: AppState,
    b: AppState,
    id: FenceId,
    entries: Seq<FolderEntry>,
    new_items: Seq<Item>,
) -> bool {
    let d = dropped(a.portal_items@, members_of(a, id), a.portal_members@.remove(id));
    &&& new_items.len() == entries.len()
    &&& forall|k: int|
        0 <= k < entries.len() ==> is_entry_record(#[trigger] new_items[k], d.1, entries[k])
    &&& b.portal_items@ == with_records(d.0, new_items)
    &&& b.portal_members@.dom() == a.portal_members@.dom().insert(id)
    &&& forall|f: FenceId|
        f != id && a.portal_members@.contains_key(f) ==> #[trigger] b.portal_members@[f]
            == a.portal_members@[f]
    &&& b.portal_members@[id]@ == Seq::new(entries.len(), |k: int| entries[k].id)
}

impl AppState {
    /// Takes over what a portal's folder holds. Returns whether the items changed: which they are,
    /// their order or what is known of them. Nothing happens where `id` is no portal.
    pub fn refresh_portal(&mut self, id: FenceId, entries: &Vec<FolderEntry>) -> (r: bool)
        requires
            in_use(*old(self)),
        ensures
            portal_path_of(*old(self), id) is None ==> !r && *final(self) == *old(self),
            portal_path_of(*old(self), id) is Some ==> exists|new_items: Seq<Item>|
                #[trigger] portal_read(*old(self), *final(self), id, entries@, new_items) && r
                    == !records_eq(
                    dropped(
                        old(self).portal_items@,
                        members_of(*old(self), id),
                        old(self).portal_members@.remove(id),
                    ).1,
                    new_items,
                ),
            final(self).portal_cwd == old(self).portal_cwd,
            same_but_portals(*final(self), *old(self)),
    {
        if self.portal_path(id).is_none() {
            return false;
        }
        let old_items = self.evict_portal_members(id);
        let ghost base = self.portal_items@;
        let mut ids: Vec<ItemId> = Vec::new();
        let mut new_items: Vec<Item> = Vec::new();
        let n: usize = entries.len();
        for k in 0..n
            invariant
                n == entries.len(),
                new_items.len() == k,
                ids.len() == k,
                self.portal_members@ == old(self).portal_members@.remove(id),
                self.portal_cwd == old(self).portal_cwd,
                same_but_portals(*self, *old(self)),
                self.portal_items@ == with_records(base, new_items@),
                forall|j: int|
                    0 <= j < k ==> is_entry_record(
                        #[trigger] new_items@[j],
                        old_items@,
                        entries@[j],
                    ),
                forall|j: int| 0 <= j < k ==> #[trigger] ids@[j] == entries@[j].id,
        {
            let it = entry_record(&old_items, &entries[k]);
            let copy = it.clone();
            let ghost before = new_items@;
            new_items.push(copy);
            self.portal_items.insert(it.id, it);
            ids.push(entries[k].id);
            assert(new_items@.drop_last() == before);
        }
        let changed = !same_records(&old_items, &new_items);
        assert(ids@ =~= Seq::new(entries@.len(), |k: int| entries@[k].id));
        self.portal_members.insert(id, ids);
        proof {
            assert(self.portal_members@.dom() =~= old(self).portal_members@.dom().insert(id));
            assert(portal_read(*old(self), *self, id, entries@, new_items@));
        }
        changed
    }
}

// ---- what the portals show ------------------------------------------------------------------

/// A portal shows the folder that it was walked to, else the folder it was made for; a fence that
/// is no portal of a folder shows none.
pub proof fn a_portal_shows_the_folder_walked_to(s: AppState, id: FenceId)
    ensures
        portal_path_of(s, id) is Some <==> has_fence(fences(s), id) && at(s, id).kind is FolderPortal
            && at(s, id).source is Folder,
        portal_path_of(s, id) is Some && s.portal_cwd@.contains_key(id) ==> portal_path_of(s, id)
            == Some(s.portal_cwd@[id]@),
        portal_path_of(s, id) is Some && !s.portal_cwd@.contains_key(id) ==> portal_path_of(s, id)
            == portal_root_of(s, id),
{
}

/// A portal can be walked to folders in the one it was made for, and back to that one.
pub proof fn a_portal_stays_below_its_root(root: Seq<char>, dir: Seq<char>, is_dir: bool)
    ensures
        !may_enter(None, dir, is_dir),
        !is_dir ==> !may_enter(Some(root), dir, is_dir),
        is_dir && path_key(dir) == path_key(root) ==> may_enter(Some(root), dir, is_dir),
        ({
            let d = path_key(dir);
            let r = path_key(root);
            is_dir && d != r ==> (may_enter(Some(root), dir, is_dir) <==> d.len() >= r.len() && (
            forall|i: int| 0 <= i < r.len() ==> #[trigger] d[i] == r[i]) && ((r.len() > 0
                && r.last() == '\\') || (d.len() > r.len() && d[r.len() as int] == '\\')))
        }),
{
    let d = path_key(dir);
    let r = path_key(root);
    let p = prefix_of(r);
    if inside(d, r) {
        assert forall|i: int| 0 <= i < r.len() implies #[trigger] d[i] == r[i] by {
            assert(d.take(p.len() as int)[i] == p[i]);
        }
        assert(d.take(p.len() as int)[p.len() - 1] == p[p.len() - 1]);
    } else if p.len() <= d.len() && d.take(p.len() as int) != p {
        let i = choose|i: int| 0 <= i < p.len() && #[trigger] d.take(p.len() as int)[i] != p[i];
        assert(!(d.take(p.len() as int) =~= p));
        assert(0 <= i < p.len() && d[i] != p[i]);
    }
}

/// What a portal had is forgotten where no other portal lists it; everything else is kept.
pub proof fn items_of_other_portals_are_kept(
    items: Map<ItemId, Item>,
    ids: Seq<ItemId>,
    members: Map<FenceId, Vec<ItemId>>,
    x: ItemId,
)
    ensures
        ({
            let left = dropped(items, ids, members).0;
            &&& left.contains_key(x) <==> items.contains_key(x) && (!ids.contains(x) || exists|
                f: FenceId,
            | #[trigger] members.contains_key(f) && members[f]@.contains(x))
            &&& left.contains_key(x) ==> left[x] == items[x]
        }),
    decreases ids.len(),
{
    if ids.len() > 0 {
        let front = ids.drop_last();
        items_of_other_portals_are_kept(items, front, members, x);
        assert(ids.contains(x) <==> front.contains(x) || x == ids.last()) by {
            if front.contains(x) {
                assert(ids[front.index_of(x)] == x);
            }
            if x == ids.last() {
                assert(ids[ids.len() - 1] == x);
            }
            if ids.contains(x) && x != ids.last() {
                assert(front[ids.index_of(x)] == x);
            }
        }
    }
}

/// The records that a portal had are handed back in its order.
pub proof fn dropped_records_keep_their_order(
    items: Map<ItemId, Item>,
    ids: Seq<ItemId>,
    members: Map<FenceId, Vec<ItemId>>,
)
    requires
        ids.no_duplicates(),
    ensures
        dropped(items, ids, members).1 == ids.filter(
            |id: ItemId| items.contains_key(id),
        ).map_values(|id: ItemId| items[id]),
    decreases ids.len(),
{
    reveal(Seq::filter);
    let f = |id: ItemId| items.contains_key(id);
    let g = |id: ItemId| items[id];
    if ids.len() > 0 {
        let front = ids.drop_last();
        dropped_records_keep_their_order(items, front, members);
        let x = ids.last();
        items_of_other_portals_are_kept(items, front, members, x);
        if front.contains(x) {
            let k = front.index_of(x);
            assert(ids[k] == ids[ids.len() - 1]);
        }
        let kept = front.filter(f);
        assert(kept.push(x).map_values(g) =~= kept.map_values(g).push(g(x)));
    }
}

proof fn lemma_other_records(items: Map<ItemId, Item>, new_items: Seq<Item>, x: ItemId)
    requires
        forall|k: int| 0 <= k < new_items.len() ==> (#[trigger] new_items[k]).id != x,
    ensures
        with_records(items, new_items).contains_key(x) == items.contains_key(x),
        with_records(items, new_items)[x] == items[x],
    decreases new_items.len(),
{
    if new_items.len() > 0 {
        let n = new_items.len() - 1;
        assert(new_items[n].id != x);
        lemma_other_records(items, new_items.drop_last(), x);
    }
}

proof fn lemma_new_record(items: Map<ItemId, Item>, new_items: Seq<Item>, k: int)
    requires
        0 <= k < new_items.len(),
        forall|j: int| k < j < new_items.len() ==> (#[trigger] new_items[j]).id != new_items[k].id,
    ensures
        with_records(items, new_items).contains_key(new_items[k].id),
        with_records(items, new_items)[new_items[k].id] == new_items[k],
    decreases new_items.len(),
{
    let n = new_items.len() - 1;
    if k < n {
        assert(new_items[n].id != new_items[k].id);
        lemma_new_record(items, new_items.drop_last(), k);
    }
}

/// Once a portal was read it lists the entries of its folder in their order, each with a record of
/// it; the lists of the other portals, and the items that they show, stay.
pub proof fn a_portal_lists_its_folder(
    a: AppState,
    b: AppState,
    id: FenceId,
    entries: Seq<FolderEntry>,
    new_items: Seq<Item>,
    k: int,
    f: FenceId,
    x: ItemId,
)
    requires
        portal_read(a, b, id, entries, new_items),
        0 <= k < entries.len(),
        forall|i: int, j: int|
            0 <= i < entries.len() && 0 <= j < entries.len() && (#[trigger] entries[i]).id == (
            #[trigger] entries[j]).id ==> i == j,
        f != id,
        a.portal_members@.contains_key(f),
        a.portal_members@[f]@.contains(x),
        a.portal_items@.contains_key(x),
        forall|i: int| 0 <= i < entries.len() ==> (#[trigger] entries[i]).id != x,
    ensures
        b.portal_members@.contains_key(id),
        b.portal_members@[id]@.len() == entries.len(),
        b.portal_members@[id]@[k] == entries[k].id,
        b.portal_items@.contains_key(entries[k].id),
        ({
            let it = b.portal_items@[entries[k].id];
            &&& key_text(it.key) == (true, path_key(entries[k].path@))
            &&& it.mtime == entries[k].mtime && it.size == entries[k].size && it.is_folder
                == entries[k].is_folder && it.icon_key == entries[k].icon_key && it.attrs
                == entries[k].attributes
        }),
        b.portal_members@.contains_key(f),
        b.portal_members@[f] == a.portal_members@[f],
        b.portal_items@.contains_key(x),
        b.portal_items@[x] == a.portal_items@[x],
{
    let d = dropped(a.portal_items@, members_of(a, id), a.portal_members@.remove(id));
    assert forall|j: int| 0 <= j < new_items.len() implies (#[trigger] new_items[j]).id
        == entries[j].id by {
        assert(is_entry_record(new_items[j], d.1, entries[j]));
    }
    assert(new_items[k].id == entries[k].id);
    assert forall|j: int| k < j < new_items.len() implies (#[trigger] new_items[j]).id
        != entries[k].id by {
        assert(entries[j].id != entries[k].id);
    }
    lemma_new_record(d.0, new_items, k);
    assert(is_entry_record(new_items[k], d.1, entries[k]));
    items_of_other_portals_are_kept(
        a.portal_items@,
        members_of(a, id),
        a.portal_members@.remove(id),
        x,
    );
    assert(a.portal_members@.remove(id).contains_key(f));
    assert(is_listed(a.portal_members@.remove(id), x));
    assert forall|j: int| 0 <= j < new_items.len() implies (#[trigger] new_items[j]).id != x by {
        assert(entries[j].id != x);
    }
    lemma_other_records(d.0, new_items, x);
}

/// An entry that no record of the portal knows is named after its file.
pub proof fn new_entries_are_named_after_their_file(old_items: Seq<Item>, e: FolderEntry)
    requires
        forall|i: int|
            0 <= i < old_items.len() ==> key_text((#[trigger] old_items[i]).key) != (
                true,
                path_key(e.path@),
            ) || old_items[i].mtime != e.mtime,
    ensures
        entry_name(old_items, e) == shown_name(e.shell_name, e.file_name@, e.is_folder),
{
}

/// An entry with the path and the date of a record keeps that record's name, where the file name
/// begins with it.
pub proof fn known_entries_keep_their_name(old_items: Seq<Item>, e: FolderEntry, i: int)
    requires
        0 <= i < old_items.len(),
        key_text(old_items[i].key) == (true, path_key(e.path@)),
        old_items[i].mtime == e.mtime,
        forall|j: int|
            i < j < old_items.len() ==> key_text((#[trigger] old_items[j]).key) != (
                true,
                path_key(e.path@),
            ) || old_items[j].mtime != e.mtime,
    ensures
        begins_with(e.file_name@, old_items[i].display_name@) ==> entry_name(old_items, e)
            == old_items[i].display_name@,
        !begins_with(e.file_name@, old_items[i].display_name@) ==> entry_name(old_items, e)
            == shown_name(e.shell_name, e.file_name@, e.is_folder),
{
    let key = path_key(e.path@);
    assert(is_known(old_items, key, e.mtime, i));
    let k = known_at(old_items, key, e.mtime);
    assert(is_known(old_items, key, e.mtime, k));
    if k < i {
        assert(!(key_text(old_items[i].key) == (true, key) && old_items[i].mtime == e.mtime));
    }
    if i < k {
        assert(key_text(old_items[k].key) != (true, key) || old_items[k].mtime != e.mtime);
    }
}

/// Walking into a folder shows it, walking to the root shows the root again, and a folder outside
/// of the root changes nothing.
pub proof fn walking_shows_the_folder(
    s: &mut AppState,
    id: FenceId,
    dir: &str,
    is_dir: bool,
    spelled: String,
    r: bool,
    root: Seq<char>,
)
    requires
        call_ensures(AppState::portal_enter, (s, id, dir, is_dir, spelled), r),
        portal_root_of(*old(s), id) == Some(root),
    ensures
        fences(*final(s)) == fences(*old(s)),
        !r ==> portal_path_of(*final(s), id) == portal_path_of(*old(s), id),
        !is_dir ==> !r,
        r && path_key(dir@) == path_key(root) ==> portal_path_of(*final(s), id) == Some(root),
        r && path_key(dir@) != path_key(root) ==> portal_path_of(*final(s), id) == Some(spelled@),
{
}

/// Walking up from a folder shows the one above, and from the topmost the root; at the root there
/// is nothing to walk up to.
pub proof fn walking_up_ends_at_the_root(
    s: &mut AppState,
    id: FenceId,
    parent: Option<(String, bool, String)>,
    r: bool,
    root: Seq<char>,
)
    requires
        call_ensures(AppState::portal_up, (s, id, parent), r),
        portal_root_of(*old(s), id) == Some(root),
    ensures
        !old(s).portal_cwd@.contains_key(id) ==> !r,
        !r ==> portal_path_of(*final(s), id) == portal_path_of(*old(s), id),
        r && parent is None ==> portal_path_of(*final(s), id) == Some(root),
        r && parent is Some && path_key((parent->0).0@) == path_key(root) ==> portal_path_of(
            *final(s),
            id,
        ) == Some(root),
        r && parent is Some && path_key((parent->0).0@) != path_key(root) ==> portal_path_of(
            *final(s),
            id,
        ) == Some((parent->0).2@),
{
}

/// Walking in portals changes nothing but where they are, and reading them nothing but what they
/// show.
pub proof fn portals_leave_the_rest(a: AppState, b: AppState)
    ensures
        same_but_cwd(a, b) ==> a.config == b.config && a.dirty == b.dirty && a.catalog == b.catalog
            && a.portal_items == b.portal_items && a.portal_members == b.portal_members && a.layout
            == b.layout && a.store == b.store && a.work_areas == b.work_areas && a.first_run
            == b.first_run && a.recovered_from == b.recovered_from,
        same_but_portals(a, b) ==> a.config == b.config && a.dirty == b.dirty && a.catalog == b.catalog
            && a.layout == b.layout && a.store == b.store && a.work_areas == b.work_areas
            && a.first_run == b.first_run && a.recovered_from == b.recovered_from,
{
}

/// Two lists of records are the same where they are as long and agree record by record in all that
/// is shown and stored of an item.
pub proof fn lists_of_records_compare_one_by_one(a: Seq<Item>, b: Seq<Item>, i: int)
    ensures
        records_eq(a, b) ==> a.len() == b.len(),
        records_eq(a, b) && 0 <= i < a.len() ==> a[i].id == b[i].id && key_text(a[i].key) == key_text(
            b[i].key,
        ) && a[i].display_name@ == b[i].display_name@ && a[i].mtime == b[i].mtime && a[i].size
            == b[i].size && a[i].is_folder == b[i].is_folder && a[i].attrs == b[i].attrs && icon_text(
            a[i].icon_key,
        ) == icon_text(b[i].icon_key) && a[i].open_count == b[i].open_count,
        records_eq(a, a),
{
    if records_eq(a, b) && 0 <= i < a.len() {
        assert(record_eq(a[i], b[i]));
    }
}

} // verus!
