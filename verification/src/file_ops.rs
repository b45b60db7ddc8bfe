//! What is done with the files of items: bringing them to the desktop, and naming new ones.

use crate::item_ops::{item_of, paths_of, portal_part, text_views, PendingRoute};
use crate::listing::is_listing;
use crate::model::{key_text, FenceId, Item, ItemId, ItemKey};
use crate::paths::{key_is_namespace, path_key};
use crate::state::{at, fences, in_use, AppState};
use crate::tabs::{has_fence, host_of};
use crate::text::{chars_of, lowercase, lowercase_of};
use vstd::prelude::*;

verus! {

// ---- to the desktop -----------------------------------------------------------------------

/// The route is that of a file which is about to appear.
pub open spec fn is_route(
    p: PendingRoute,
    path: Seq<char>,
    fence: FenceId,
    since: u64,
    rename: bool,
) -> bool {
    p.path@ == path && p.fence == fence && p.since == since && p.rename == rename
}

/// The routes for files that are about to appear on the desktop, one for each path.
pub fn new_routes(paths: &Vec<String>, fence: FenceId, since: u64, rename: bool) -> (r: Vec<PendingRoute>)
    ensures
        r.len() == paths.len(),
        forall|i: int|
            0 <= i < r.len() ==> is_route(#[trigger] r@[i], paths@[i]@, fence, since, rename),
{
    let mut out: Vec<PendingRoute> = Vec::new();
    let n: usize = paths.len();
    for i in 0..n
        invariant
            n == paths.len(),
            out.len() == i,
            forall|j: int|
                0 <= j < i ==> is_route(#[trigger] out@[j], paths@[j]@, fence, since, rename),
    {
        out.push(PendingRoute { fence, path: paths[i].clone(), since, rename });
    }
    out
}

impl AppState {
    /// The files of those items that portals show. They are moved to the desktop where they go
    /// into a fence.
    pub fn portal_paths(&self, items: &Vec<ItemId>) -> (r: Vec<String>)
        ensures
            text_views(r@) == paths_of(*self, portal_part(*self, items@, true), false),
    {
        let mut out: Vec<String> = Vec::new();
        let n: usize = items.len();
        assert(items@.take(0) =~= Seq::<ItemId>::empty());
        assert(text_views(out@) =~= Seq::<Seq<char>>::empty());
        for i in 0..n
            invariant
                n == items.len(),
                text_views(out@) == paths_of(
                    *self,
                    portal_part(*self, items@.take(i as int), true),
                    false,
                ),
        {
            let ghost before = out@;
            let ghost part = portal_part(*self, items@.take(i as int), true);
            let id: ItemId = items[i];
            assert(items@.take(i + 1).drop_last() =~= items@.take(i as int));
            if self.is_portal_item(id) {
                proof {
                    assert(part.push(id).drop_last() =~= part);
                }
                if let Some(it) = self.item(id) {
                    if let Some(p) = it.key.as_path() {
                        out.push(p.to_owned());
                        assert(text_views(out@) =~= text_views(before).push(p@));
                    }
                }
            }
        }
        assert(items@.take(n as int) =~= items@);
        out
    }
}

// ---- new files ----------------------------------------------------------------------------

/// The first of the items with the key of a path.
pub open spec fn first_at(items: Seq<Item>, path: Seq<char>, from: int) -> Option<ItemId>
    decreases items.len() - from,
{
    if from < 0 || from >= items.len() {
        None
    } else if key_text(items[from].key) == (true, path_key(path)) {
        Some(items[from].id)
    } else {
        first_at(items, path, from + 1)
    }
}

impl AppState {
    /// The item that a fence shows for a path: the one whose name is edited once its file was made.
    pub fn shown_item(&self, fence: FenceId, path: &str) -> (r: Option<ItemId>)
        requires
            in_use(*self),
        ensures
            if has_fence(fences(*self), fence) {
                exists|shown: Seq<Item>| #[trigger]
                    is_listing(*self, at(*self, fence), shown) && r == first_at(shown, path@, 0)
            } else {
                r is None
            },
    {
        let key = ItemKey::from_path(path);
        match self.fence(fence) {
            Some(f) => {
                let items = self.items_of(f);
                let ghost shown = items@.unref();
                let n: usize = items.len();
                for i in 0..n
                    invariant
                        n == items.len(),
                        shown == items@.unref(),
                        key is Path && key->Path_0@ == path_key(path@),
                        first_at(shown, path@, 0) == first_at(shown, path@, i as int),
                        in_use(*self),
                        has_fence(fences(*self), fence),
                        is_listing(*self, at(*self, fence), shown),
                {
                    assert(shown[i as int] == *items@[i as int]);
                    if items[i].key.same(&key) {
                        return Some(items[i].id);
                    }
                }
                None
            },
            None => None,
        }
    }
}

// ---- names that are edited ----------------------------------------------------------------

/// What comes before the name of an item is edited.
#[derive(Debug, PartialEq, Eq)]
pub struct RenameStart {
    /// The window whose tab is switched to the fence first.
    pub switch: Option<FenceId>,
    /// The name to edit, where the item has a file.
    pub name: Option<String>,
}

impl AppState {
    /// What comes before the name of an item of a fence is edited. `shown` is the fence that its
    /// window shows. Items that are not files have no name to edit.
    pub fn rename_start(&self, fence: FenceId, shown: FenceId, item: ItemId) -> (r: RenameStart)
        requires
            in_use(*self),
        ensures
            r.switch == if shown != fence {
                Some(host_of(fences(*self), fence))
            } else {
                None
            },
            match r.name {
                Some(n) => item_of(*self, item) is Some && !key_is_namespace(
                    item_of(*self, item)->0.key,
                ) && n@ == item_of(*self, item)->0.display_name@,
                None => item_of(*self, item) is None || key_is_namespace(
                    item_of(*self, item)->0.key,
                ),
            },
    {
        let switch: Option<FenceId> = if shown != fence {
            Some(self.host_of(fence))
        } else {
            None
        };
        let name: Option<String> = match self.item(item) {
            Some(it) => if it.is_namespace() {
                None
            } else {
                Some(it.display_name.clone())
            },
            None => None,
        };
        RenameStart { switch, name }
    }
}

// ---- shortcuts ----------------------------------------------------------------------------

/// What a file leads to.
#[derive(Clone, Copy, Debug, PartialEq, Eq, Structural)]
pub enum Shortcut {
    /// Nothing but itself.
    Plain,
    /// Another file.
    Link,
    /// A web address.
    Url,
}

/// The text has this end.
pub open spec fn ends_in(s: Seq<char>, end: Seq<char>) -> bool {
    s.len() >= end.len() && s.skip(s.len() - end.len()) == end
}

fn has_end(s: &Vec<char>, end: &Vec<char>) -> (r: bool)
    ensures
        r == ends_in(s@, end@),
{
    if s.len() < end.len() {
        return false;
    }
    let from: usize = s.len() - end.len();
    let n: usize = end.len();
    for i in 0..n
        invariant
            n == end.len(),
            from + n == s.len(),
            forall|j: int| 0 <= j < i ==> s@[from + j] == end@[j],
    {
        if s[from + i] != end[i] {
            assert(s@.skip(from as int)[i as int] != end@[i as int]);
            return false;
        }
    }
    assert(s@.skip(from as int) =~= end@);
    true
}

/// What a file leads to, by its name.
pub open spec fn shortcut_of(name: Seq<char>) -> Shortcut {
    if ends_in(lowercase_of(name), ".lnk"@) {
        Shortcut::Link
    } else if ends_in(lowercase_of(name), ".url"@) {
        Shortcut::Url
    } else {
        Shortcut::Plain
    }
}

/// What a file leads to, by its name.
pub fn shortcut_kind(name: &str) -> (r: Shortcut)
    ensures
        r == shortcut_of(name@),
{
    let low = lowercase(name);
    let chars = chars_of(low.as_str());
    if has_end(&chars, &chars_of(".lnk")) {
        Shortcut::Link
    } else if has_end(&chars, &chars_of(".url")) {
        Shortcut::Url
    } else {
        Shortcut::Plain
    }
}

// ---- what is found --------------------------------------------------------------------------

/// The item at a path is the first one in the list whose key is that of the path.
pub proof fn the_first_item_at_a_path_is_found(items: Seq<Item>, path: Seq<char>, from: int, k: int)
    requires
        0 <= from <= k < items.len(),
        key_text(items[k].key) == (true, path_key(path)),
        forall|j: int| from <= j < k ==> key_text((#[trigger] items[j]).key) != (true, path_key(path)),
    ensures
        first_at(items, path, from) == Some(items[k].id),
    decreases k - from,
{
    if from < k {
        the_first_item_at_a_path_is_found(items, path, from + 1, k);
    }
}

/// Where no item of the list has the path, none is found.
pub proof fn no_item_at_a_path_is_none(items: Seq<Item>, path: Seq<char>, from: int)
    requires
        0 <= from,
        forall|j: int|
            from <= j < items.len() ==> key_text((#[trigger] items[j]).key) != (
                true,
                path_key(path),
            ),
    ensures
        first_at(items, path, from) is None,
    decreases items.len() - from,
{
    if from < items.len() {
        no_item_at_a_path_is_none(items, path, from + 1);
    }
}

/// A shortcut is told by the ending of its name in small letters.
pub proof fn shortcuts_are_told_by_their_ending(name: Seq<char>, stem: Seq<char>)
    ensures
        lowercase_of(name) == stem + ".lnk"@ ==> shortcut_of(name) is Link,
        lowercase_of(name) == stem + ".url"@ ==> shortcut_of(name) is Url,
        shortcut_of(name) is Link ==> exists|s: Seq<char>| lowercase_of(name) == #[trigger] (s
            + ".lnk"@),
        shortcut_of(name) is Url ==> exists|s: Seq<char>| lowercase_of(name) == #[trigger] (s
            + ".url"@),
{
    reveal_strlit(".lnk");
    reveal_strlit(".url");
    let n = lowercase_of(name);
    if n == stem + ".lnk"@ {
        assert(n.skip(n.len() - 4) =~= ".lnk"@);
    }
    if n == stem + ".url"@ {
        assert(n.skip(n.len() - 4) =~= ".url"@);
        assert(n.skip(n.len() - 4)[1] == 'u');
        assert(".lnk"@[1] == 'l');
    }
    if n.len() >= 4 {
        assert(n =~= n.take(n.len() - 4) + n.skip(n.len() - 4));
    }
}

} // verus!
