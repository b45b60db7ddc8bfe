//! What commands on items do: naming, routing, moving, launching, cutting and pasting.

use crate::config::holds;
use crate::model::{
    fence_models, key_text, Fence, FenceId, FenceModel, Item, ItemId, ItemKey, SortMode,
};
use crate::paths::{key_is_namespace, path_key};
use crate::portals::portal_path_of;
use crate::snapshots::{trim_text, trimmed};
use crate::state::{at, fences, in_use, AppState};
use crate::tabs::has_fence;
use crate::text::{chars_of, decimal, number_text, push_all, push_number, string_of};
use vstd::prelude::*;

verus! {

/// The item `id`, of the desktop or of a portal.
pub open spec fn item_of(s: AppState, id: ItemId) -> Option<Item> {
    if s.config.items@.contains_key(id) {
        Some(s.config.items@[id])
    } else if s.portal_items@.contains_key(id) {
        Some(s.portal_items@[id])
    } else {
        None
    }
}

/// The path of an item, where it has one.
pub open spec fn path_of(s: AppState, id: ItemId) -> Option<Seq<char>> {
    match item_of(s, id) {
        Some(it) => match it.key {
            ItemKey::Path(p) => Some(p@),
            ItemKey::Pidl(_) => None,
        },
        None => None,
    }
}

// ---- names of new files -------------------------------------------------------------------

/// The name to try at step `k` for a new file: first the plain one, then with a number from 2 on.
pub open spec fn candidate_name(base: Seq<char>, ext: Seq<char>, k: nat) -> Seq<char> {
    if k == 0 {
        base + ext
    } else {
        base + seq![' ', '('] + number_text(k + 1) + seq![')'] + ext
    }
}

/// The name to try at step `k` for a new file.
pub fn name_to_try(base: &str, ext: &str, k: u64) -> (r: String)
    requires
        k < u64::MAX,
    ensures
        r@ == candidate_name(base@, ext@, k as nat),
{
    let mut out: Vec<char> = Vec::new();
    push_all(&mut out, base);
    if k > 0 {
        out.push(' ');
        out.push('(');
        push_number(&mut out, k + 1);
        out.push(')');
    }
    push_all(&mut out, ext);
    assert(out@ =~= candidate_name(base@, ext@, k as nat));
    string_of(&out)
}

proof fn lemma_number_text(n: nat)
    ensures
        decimal(number_text(n)) == n,
        number_text(n).len() > 0,
    decreases n,
{
    if n >= 10 {
        lemma_number_text(n / 10);
        let s = number_text(n);
        assert(s.drop_last() =~= number_text(n / 10));
        assert(s.last() == (48 + n % 10) as char);
        assert((48 + n % 10) as char as int == 48 + n % 10);
    } else {
        let s = number_text(n);
        assert(s.drop_last() =~= Seq::<char>::empty());
        assert(s.last() == (48 + n) as char);
        assert((48 + n) as char as int == 48 + n);
        assert(decimal(s.drop_last()) == 0);
    }
}

/// Every step tries another name, so the search for a free one ends.
pub proof fn every_step_tries_another_name(base: Seq<char>, ext: Seq<char>, j: nat, k: nat)
    requires
        j != k,
    ensures
        candidate_name(base, ext, j) != candidate_name(base, ext, k),
{
    let a = candidate_name(base, ext, j);
    let b = candidate_name(base, ext, k);
    lemma_number_text(j + 1);
    lemma_number_text(k + 1);
    if a == b {
        if j == 0 || k == 0 {
            assert(a.len() != b.len());
        } else {
            let m = number_text(j + 1);
            let n = number_text(k + 1);
            assert(a.len() == base.len() + 2 + m.len() + 1 + ext.len());
            assert(b.len() == base.len() + 2 + n.len() + 1 + ext.len());
            assert(m.len() == n.len());
            let at = base.len() + 2;
            assert forall|i: int| 0 <= i < m.len() implies m[i] == n[i] by {
                assert(a[at + i] == m[i]);
                assert(b[at + i] == n[i]);
            }
            assert(m =~= n);
        }
    }
}

// ---- expected items -----------------------------------------------------------------------

/// How long an expected item may take to appear, in seconds.
pub const PENDING_CREATION_SECS: u64 = 15;

/// A desktop path that should appear shortly and then goes into a fence, whatever the rules say.
#[derive(Debug, PartialEq, Eq)]
pub struct PendingRoute {
    pub fence: FenceId,
    pub path: String,
    /// When it was expected first, in seconds.
    pub since: u64,
    /// Its name is edited once it is there.
    pub rename: bool,
}

/// An expected item that appeared.
#[derive(Clone, Copy, Debug, PartialEq, Eq, Structural)]
pub struct Landed {
    pub item: ItemId,
    pub fence: FenceId,
    pub rename: bool,
}

/// The item is still waited for.
pub open spec fn awaited(p: PendingRoute, now: u64) -> bool {
    now - p.since <= PENDING_CREATION_SECS
}

/// The item that a desktop path stands for.
pub open spec fn item_at(s: AppState, path: Seq<char>) -> Option<ItemId> {
    if s.catalog@.contains_key((true, path_key(path))) {
        Some(s.catalog@[(true, path_key(path))])
    } else {
        None
    }
}

/// The items of `routes` that appeared in time, in order.
pub open spec fn landed(s: AppState, routes: Seq<PendingRoute>, now: u64) -> Seq<Landed>
    decreases routes.len(),
{
    if routes.len() == 0 {
        Seq::empty()
    } else {
        let p = routes.last();
        let front = landed(s, routes.drop_last(), now);
        match item_at(s, p.path@) {
            Some(item) if awaited(p, now) => front.push(
                Landed { item, fence: p.fence, rename: p.rename },
            ),
            _ => front,
        }
    }
}

/// The routes that are still waited for, in order.
pub open spec fn waiting(s: AppState, routes: Seq<PendingRoute>, now: u64) -> Seq<PendingRoute>
    decreases routes.len(),
{
    if routes.len() == 0 {
        Seq::empty()
    } else {
        let p = routes.last();
        let front = waiting(s, routes.drop_last(), now);
        if awaited(p, now) && item_at(s, p.path@) is None {
            front.push(p)
        } else {
            front
        }
    }
}

impl AppState {
    /// The item that a desktop path stands for.
    pub fn item_id_for_path(&self, path: &str) -> (r: Option<ItemId>)
        ensures
            r == item_at(*self, path@),
    {
        self.item_by_path(path)
    }

    /// Takes the expected items that appeared out of the list, and drops those that took too
    /// long. Returns the former, with the fence that each one goes into.
    pub fn take_landed(&self, routes: &mut Vec<PendingRoute>, now: u64) -> (r: Vec<Landed>)
        ensures
            r@ == landed(*self, old(routes)@, now),
            final(routes)@ == waiting(*self, old(routes)@, now),
    {
        let ghost all = routes@;
        let mut out: Vec<Landed> = Vec::new();
        let mut i: usize = 0;
        let ghost mut seen: int = 0;
        assert(all.skip(0) == all);
        assert(all.take(0) =~= Seq::<PendingRoute>::empty());
        while i < routes.len()
            invariant
                0 <= seen <= all.len(),
                i <= routes.len(),
                routes@ == waiting(*self, all.take(seen), now) + all.skip(seen),
                i == waiting(*self, all.take(seen), now).len(),
                out@ == landed(*self, all.take(seen), now),
            decreases all.len() - seen,
        {
            let ghost kept = waiting(*self, all.take(seen), now);
            proof {
                assert(all.skip(seen).len() > 0);
                assert(routes@[i as int] == all.skip(seen)[0]);
                assert(all.take(seen + 1).drop_last() =~= all.take(seen));
                assert(all.take(seen + 1).last() == all[seen]);
            }
            let in_time: bool = now <= routes[i].since || now - routes[i].since
                <= PENDING_CREATION_SECS;
            let found: Option<ItemId> = self.item_by_path(routes[i].path.as_str());
            let mut keep = false;
            if in_time {
                match found {
                    Some(item) => {
                        let fence: FenceId = routes[i].fence;
                        let rename: bool = routes[i].rename;
                        out.push(Landed { item, fence, rename });
                    },
                    None => {
                        keep = true;
                    },
                }
            }
            if keep {
                i = i + 1;
                assert(routes@ =~= kept.push(all[seen]) + all.skip(seen + 1));
            } else {
                routes.remove(i);
                assert(routes@ =~= kept + all.skip(seen + 1));
            }
            proof {
                seen = seen + 1;
            }
        }
        assert(all.take(seen) =~= all);
        assert(routes@ =~= waiting(*self, all, now));
        out
    }
}

// ---- renaming a file ----------------------------------------------------------------------

/// A character that a file name cannot have.
pub open spec fn is_forbidden(c: char) -> bool {
    c == '\\' || c == '/' || c == ':' || c == '*' || c == '?' || c == '"' || c == '<' || c == '>'
        || c == '|'
}

/// The text can be a file name: it is not blank and has no forbidden character.
pub open spec fn is_file_name(name: Seq<char>) -> bool {
    &&& trimmed(name).len() > 0
    &&& forall|i: int| 0 <= i < trimmed(name).len() ==> !is_forbidden(#[trigger] trimmed(name)[i])
}

fn has_forbidden(chars: &Vec<char>) -> (r: bool)
    ensures
        r == exists|i: int| 0 <= i < chars.len() && is_forbidden(#[trigger] chars@[i]),
{
    let n: usize = chars.len();
    for i in 0..n
        invariant
            n == chars.len(),
            forall|j: int| 0 <= j < i ==> !is_forbidden(#[trigger] chars@[j]),
    {
        let c: char = chars[i];
        if c == '\\' || c == '/' || c == ':' || c == '*' || c == '?' || c == '"' || c == '<' || c
            == '>' || c == '|' {
            return true;
        }
    }
    false
}

/// What a request to rename an item's file comes to.
#[derive(Debug, PartialEq, Eq)]
pub enum RenameRequest {
    /// There is nothing to rename: the item is unknown, has no file, or has that name.
    Ignored,
    /// The name is blank or has a forbidden character: tell the user.
    BadName,
    /// Rename the file at this path to this name, behind which its hidden ending goes.
    Rename { path: String, name: String },
}

/// The model of a [`RenameRequest`].
pub enum RenameModel {
    Ignored,
    BadName,
    Rename { path: Seq<char>, name: Seq<char> },
}

impl View for RenameRequest {
    type V = RenameModel;

    open spec fn view(&self) -> RenameModel {
        match self {
            RenameRequest::Ignored => RenameModel::Ignored,
            RenameRequest::BadName => RenameModel::BadName,
            RenameRequest::Rename { path, name } => RenameModel::Rename {
                path: path@,
                name: name@,
            },
        }
    }
}

/// The answer to a request to rename an item's file to `name`.
pub open spec fn rename_request(s: AppState, item: ItemId, name: Seq<char>) -> RenameModel {
    if item_of(s, item) matches Some(it) && key_is_namespace(it.key) {
        RenameModel::Ignored
    } else if !is_file_name(name) {
        RenameModel::BadName
    } else {
        match path_of(s, item) {
            Some(p) if trimmed(name) != item_of(s, item)->0.display_name@ => RenameModel::Rename {
                path: p,
                name: trimmed(name),
            },
            _ => RenameModel::Ignored,
        }
    }
}

/// Whether a new path is taken by another file than the one to rename: something is there, and it
/// is not the same path in another spelling.
pub fn name_taken(old_path: &str, new_path: &str, exists: bool) -> (r: bool)
    ensures
        r == (exists && path_key(new_path@) != path_key(old_path@)),
{
    let a = ItemKey::from_path(new_path);
    let b = ItemKey::from_path(old_path);
    exists && !a.same(&b)
}

/// Whether a shell verb leaves namespace items alone: it would take their icons off the desktop.
#[derive(Clone, Copy, Debug, PartialEq, Eq, Structural)]
pub enum Verb {
    Delete,
    Cut,
    Copy,
    Properties,
}

/// The paths of the items that are known and have one, without those of namespace items where
/// `files_only` holds.
pub open spec fn paths_of(s: AppState, items: Seq<ItemId>, files_only: bool) -> Seq<Seq<char>>
    decreases items.len(),
{
    if items.len() == 0 {
        Seq::empty()
    } else {
        let front = paths_of(s, items.drop_last(), files_only);
        match path_of(s, items.last()) {
            Some(p) if !(files_only && key_is_namespace(item_of(s, items.last())->0.key)) =>
                front.push(p),
            _ => front,
        }
    }
}

pub open spec fn text_views(ts: Seq<String>) -> Seq<Seq<char>> {
    Seq::new(ts.len(), |i: int| ts[i]@)
}

/// The items of a list that portals show, or those that they do not.
pub open spec fn portal_part(s: AppState, items: Seq<ItemId>, portal: bool) -> Seq<ItemId>
    decreases items.len(),
{
    if items.len() == 0 {
        Seq::empty()
    } else if s.portal_items@.contains_key(items.last()) == portal {
        portal_part(s, items.drop_last(), portal).push(items.last())
    } else {
        portal_part(s, items.drop_last(), portal)
    }
}

/// A fence holds one of the items.
pub open spec fn holds_some(f: FenceModel, items: Seq<ItemId>) -> bool {
    exists|i: int| 0 <= i < items.len() && holds(f, #[trigger] items[i])
}

/// The fences that change when the items go to `to`: that one, and those that hold one of them.
pub open spec fn affected(fs: Seq<FenceModel>, items: Seq<ItemId>, to: FenceId) -> Seq<FenceId>
    decreases fs.len(),
{
    if fs.len() == 0 {
        Seq::empty()
    } else if fs.last().id == to || holds_some(fs.last(), items) {
        affected(fs.drop_last(), items, to).push(fs.last().id)
    } else {
        affected(fs.drop_last(), items, to)
    }
}

/// What moving items into a fence comes to.
pub enum MoveItems {
    /// The fence shows a folder: move these files into it.
    IntoFolder(Vec<String>),
    /// Move these items of portals to the desktop first, and file these ones now; then the fences
    /// of the third list have changed.
    Among { portal: Vec<ItemId>, desktop: Vec<ItemId>, affected: Vec<FenceId> },
}

/// What launching an item comes to.
#[derive(Debug, PartialEq, Eq)]
pub enum Launch {
    /// Show the folder in the portal it is in.
    Enter { fence: FenceId, path: String },
    /// Hand the path to the shell.
    Execute(String),
    Nothing,
}

/// The portal opens folders in place.
pub open spec fn opens_in_place(s: AppState, fence: FenceId, item: ItemId) -> bool {
    &&& has_fence(fences(s), fence)
    &&& at(s, fence).portal_navigate
    &&& item_of(s, item) matches Some(it) && it.is_folder
    &&& path_of(s, item) is Some
}

/// What launching the item comes to, given the portal that shows it, if any.
pub open spec fn launches(s: AppState, item: ItemId, portal: Option<FenceId>, r: Launch) -> bool {
    match path_of(s, item) {
        None => r is Nothing,
        Some(p) => if portal matches Some(f) && opens_in_place(s, f, item) {
            r matches Launch::Enter { fence, path } && Some(fence) == portal && path@ == p
        } else {
            r matches Launch::Execute(path) && path@ == p
        },
    }
}

/// The fences that are sorted by how often items were opened and hold the item, in order.
pub open spec fn counted_in(fs: Seq<FenceModel>, item: ItemId) -> Seq<FenceId>
    decreases fs.len(),
{
    if fs.len() == 0 {
        Seq::empty()
    } else if fs.last().view.sort == SortMode::OpenCount && holds(fs.last(), item) {
        counted_in(fs.drop_last(), item).push(fs.last().id)
    } else {
        counted_in(fs.drop_last(), item)
    }
}

/// `portal` is a portal that lists the item; none where none does.
pub open spec fn shows_item(s: AppState, item: ItemId, portal: Option<FenceId>) -> bool {
    match portal {
        Some(f) => s.portal_members@.contains_key(f) && s.portal_members@[f]@.contains(item),
        None => !crate::portals::is_listed(s.portal_members@, item),
    }
}

impl AppState {
    /// What a request to rename the file of an item to `name` comes to. The name is taken without
    /// white space around it.
    pub fn check_rename(&self, item: ItemId, name: &str) -> (r: RenameRequest)
        ensures
            r@ == rename_request(*self, item, name@),
    {
        let found = self.item(item);
        if let Some(it) = found {
            if it.is_namespace() {
                return RenameRequest::Ignored;
            }
        }
        let short = trim_text(name);
        let chars = chars_of(short.as_str());
        if chars.len() == 0 || has_forbidden(&chars) {
            return RenameRequest::BadName;
        }
        let it = match found {
            Some(it) => it,
            None => {
                return RenameRequest::Ignored;
            },
        };
        let path = match it.key.as_path() {
            Some(p) => p.to_owned(),
            None => {
                return RenameRequest::Ignored;
            },
        };
        if short == it.display_name {
            return RenameRequest::Ignored;
        }
        RenameRequest::Rename { path, name: short }
    }

    /// The paths to hand to the shell for a verb.
    pub fn paths_for(&self, items: &Vec<ItemId>, verb: Verb) -> (r: Vec<String>)
        ensures
            text_views(r@) == paths_of(*self, items@, verb != Verb::Properties),
    {
        let files_only = verb != Verb::Properties;
        self.item_paths(items, files_only)
    }

    fn item_paths(&self, items: &Vec<ItemId>, files_only: bool) -> (r: Vec<String>)
        ensures
            text_views(r@) == paths_of(*self, items@, files_only),
    {
        let mut out: Vec<String> = Vec::new();
        let n: usize = items.len();
        assert(text_views(out@) =~= Seq::<Seq<char>>::empty());
        for i in 0..n
            invariant
                n == items.len(),
                text_views(out@) == paths_of(*self, items@.take(i as int), files_only),
        {
            assert(items@.take(i + 1).drop_last() == items@.take(i as int));
            let ghost before = out@;
            if let Some(it) = self.item(items[i]) {
                if !(files_only && it.is_namespace()) {
                    if let Some(p) = it.key.as_path() {
                        out.push(p.to_owned());
                        assert(text_views(out@) =~= text_views(before).push(p@));
                    }
                }
            }
        }
        assert(items@.take(n as int) == items@);
        out
    }

    fn portal_split(&self, items: &Vec<ItemId>, portal: bool) -> (r: Vec<ItemId>)
        ensures
            r@ == portal_part(*self, items@, portal),
    {
        let mut out: Vec<ItemId> = Vec::new();
        let n: usize = items.len();
        for i in 0..n
            invariant
                n == items.len(),
                out@ == portal_part(*self, items@.take(i as int), portal),
        {
            assert(items@.take(i + 1).drop_last() == items@.take(i as int));
            if self.is_portal_item(items[i]) == portal {
                out.push(items[i]);
            }
        }
        assert(items@.take(n as int) == items@);
        out
    }

    fn fences_affected(&self, items: &Vec<ItemId>, to: FenceId) -> (r: Vec<FenceId>)
        requires
            in_use(*self),
        ensures
            r@ == affected(fences(*self), items@, to),
    {
        let fs = self.fences();
        let ghost ms = fence_models(fs@);
        let mut out: Vec<FenceId> = Vec::new();
        let n: usize = fs.len();
        for i in 0..n
            invariant
                n == fs.len(),
                ms == fence_models(fs@),
                out@ == affected(ms.take(i as int), items@, to),
        {
            assert(ms.take(i + 1).drop_last() == ms.take(i as int));
            assert(ms.take(i + 1).last() == fs@[i as int]@);
            if fs[i].id == to || fence_holds_some(&fs[i], items) {
                out.push(fs[i].id);
            }
        }
        assert(ms.take(n as int) == ms);
        out
    }

    /// What moving items into a fence comes to. Namespace items cannot go into a folder.
    pub fn plan_move(&self, items: &Vec<ItemId>, to: FenceId) -> (r: MoveItems)
        requires
            in_use(*self),
        ensures
            match r {
                MoveItems::IntoFolder(paths) => portal_path_of(*self, to) is Some && text_views(
                    paths@,
                ) == paths_of(*self, items@, true),
                MoveItems::Among { portal, desktop, affected: changed } => {
                    &&& portal_path_of(*self, to) is None
                    &&& portal@ == portal_part(*self, items@, true)
                    &&& desktop@ == portal_part(*self, items@, false)
                    &&& changed@ == affected(fences(*self), desktop@, to)
                },
            },
    {
        if self.portal_path(to).is_some() {
            return MoveItems::IntoFolder(self.item_paths(items, true));
        }
        let portal = self.portal_split(items, true);
        let desktop = self.portal_split(items, false);
        let changed = self.fences_affected(&desktop, to);
        MoveItems::Among { portal, desktop, affected: changed }
    }

    /// What launching an item comes to: a folder in a portal that navigates is shown there, any
    /// other path goes to the shell.
    pub fn plan_launch(&self, item: ItemId) -> (r: Launch)
        requires
            in_use(*self),
        ensures
            exists|portal: Option<FenceId>|
                shows_item(*self, item, portal) && #[trigger] launches(*self, item, portal, r),
    {
        let portal: Option<FenceId> = self.portal_of_item(item);
        let r = self.launch_from(item, portal);
        assert(launches(*self, item, portal, r));
        r
    }

    /// What launching an item comes to that `portal` shows, or none does.
    pub fn launch_from(&self, item: ItemId, portal: Option<FenceId>) -> (r: Launch)
        requires
            in_use(*self),
        ensures
            launches(*self, item, portal, r),
    {
        let it = match self.item(item) {
            Some(it) => it,
            None => {
                return Launch::Nothing;
            },
        };
        let path = match it.key.as_path() {
            Some(p) => p.to_owned(),
            None => {
                return Launch::Nothing;
            },
        };
        if let Some(f) = portal {
            if let Some(fence) = self.fence(f) {
                if fence.portal_navigate && it.is_folder {
                    return Launch::Enter { fence: f, path };
                }
            }
        }
        Launch::Execute(path)
    }

    /// The fences to draw anew once an item was launched: those that list it by how often that
    /// happened.
    pub fn fences_counting(&self, item: ItemId) -> (r: Vec<FenceId>)
        requires
            in_use(*self),
        ensures
            r@ == counted_in(fences(*self), item),
    {
        let fs = self.fences();
        let ghost ms = fence_models(fs@);
        let mut out: Vec<FenceId> = Vec::new();
        let n: usize = fs.len();
        for i in 0..n
            invariant
                n == fs.len(),
                ms == fence_models(fs@),
                out@ == counted_in(ms.take(i as int), item),
        {
            assert(ms.take(i + 1).drop_last() == ms.take(i as int));
            assert(ms.take(i + 1).last() == fs@[i as int]@);
            if fs[i].view.sort == SortMode::OpenCount && fs[i].contains_item(item) {
                out.push(fs[i].id);
            }
        }
        assert(ms.take(n as int) == ms);
        out
    }
}

fn fence_holds_some(f: &Fence, items: &Vec<ItemId>) -> (r: bool)
    ensures
        r == holds_some(f@, items@),
{
    let n: usize = items.len();
    for i in 0..n
        invariant
            n == items.len(),
            forall|j: int| 0 <= j < i ==> !holds(f@, #[trigger] items@[j]),
    {
        if f.contains_item(items[i]) {
            return true;
        }
    }
    false
}

// ---- cutting and pasting ------------------------------------------------------------------

/// The items that were cut and are drawn dimmed, and the state of the clipboard at that time.
pub struct CutMarks {
    pub items: Vec<ItemId>,
    pub sequence: u32,
}

impl CutMarks {
    /// The marks once items were put on the clipboard: a copy marks none.
    pub fn put(items: &Vec<ItemId>, cut: bool, sequence: u32) -> (r: Self)
        ensures
            r.items@ == if cut {
                items@
            } else {
                Seq::<ItemId>::empty()
            },
            r.sequence == sequence,
    {
        if !cut {
            return CutMarks { items: Vec::new(), sequence };
        }
        let mut copy: Vec<ItemId> = Vec::new();
        let n: usize = items.len();
        for i in 0..n
            invariant
                n == items.len(),
                copy@ == items@.take(i as int),
        {
            copy.push(items[i]);
        }
        assert(items@.take(n as int) == items@);
        CutMarks { items: copy, sequence }
    }

    /// Drops the marks where the clipboard changed since. Returns whether there is something to
    /// draw anew.
    pub fn check(&mut self, sequence: u32) -> (r: bool)
        ensures
            r == (old(self).items.len() > 0 && sequence != old(self).sequence),
            final(self).items@ == if r {
                Seq::<ItemId>::empty()
            } else {
                old(self).items@
            },
            final(self).sequence == old(self).sequence,
    {
        if self.items.len() > 0 && sequence != self.sequence {
            self.items.clear();
            true
        } else {
            false
        }
    }

    /// Drops the marks of items that are gone. Returns whether there were such.
    pub fn forget_missing(&mut self, state: &AppState) -> (r: bool)
        ensures
            final(self).items@ == known_items(*state, old(self).items@),
            r == (final(self).items.len() != old(self).items.len()),
            final(self).sequence == old(self).sequence,
    {
        let ghost all = self.items@;
        let mut out: Vec<ItemId> = Vec::new();
        let n: usize = self.items.len();
        for i in 0..n
            invariant
                n == self.items.len(),
                all == self.items@,
                self.sequence == old(self).sequence,
                out@ == known_items(*state, all.take(i as int)),
        {
            assert(all.take(i + 1).drop_last() == all.take(i as int));
            if state.item(self.items[i]).is_some() {
                out.push(self.items[i]);
            }
        }
        assert(all.take(n as int) == all);
        self.items = out;
        self.items.len() != n
    }
}

/// Those of the items that are known.
pub open spec fn known_items(s: AppState, items: Seq<ItemId>) -> Seq<ItemId>
    decreases items.len(),
{
    if items.len() == 0 {
        Seq::empty()
    } else if item_of(s, items.last()) is Some {
        known_items(s, items.drop_last()).push(items.last())
    } else {
        known_items(s, items.drop_last())
    }
}

/// What pasting files comes to.
#[derive(Clone, Copy, Debug, PartialEq, Eq, Structural)]
pub enum Paste {
    /// Copies of files into the folder they are in: duplicate them.
    Duplicate,
    /// Move the files as if they had been dropped, and empty the clipboard.
    Move,
    /// Copy the files as if they had been dropped.
    Copy,
}

/// The file lies directly in the folder.
pub open spec fn lies_in(parent: Option<String>, dest: Seq<char>) -> bool {
    parent matches Some(p) && path_key(p@) == path_key(dest)
}

/// What pasting files comes to, given the folder that each one is in, whether they were cut, and
/// the folder that they go to.
pub fn plan_paste(parents: &Vec<Option<String>>, cut: bool, dest: Option<&str>) -> (r: Paste)
    ensures
        r == if cut {
            Paste::Move
        } else if dest matches Some(d) && (forall|i: int|
            0 <= i < parents.len() ==> lies_in(#[trigger] parents@[i], d@)) {
            Paste::Duplicate
        } else {
            Paste::Copy
        },
{
    if cut {
        return Paste::Move;
    }
    let d = match dest {
        Some(d) => d,
        None => {
            return Paste::Copy;
        },
    };
    let to = ItemKey::from_path(d);
    let n: usize = parents.len();
    for i in 0..n
        invariant
            n == parents.len(),
            !cut,
            dest == Some(d),
            to is Path,
            to->Path_0@ == path_key(d@),
            forall|j: int| 0 <= j < i ==> lies_in(#[trigger] parents@[j], d@),
    {
        let here = match &parents[i] {
            Some(p) => ItemKey::from_path(p.as_str()).same(&to),
            None => false,
        };
        if !here {
            assert(!lies_in(parents@[i as int], d@));
            return Paste::Copy;
        }
    }
    Paste::Duplicate
}

// ---- which items and files are meant --------------------------------------------------------

/// An id is first looked up among the items of the desktop, then among those of the portals.
pub proof fn items_are_found_on_the_desktop_first(s: AppState, id: ItemId)
    ensures
        s.config.items@.contains_key(id) ==> item_of(s, id) == Some(s.config.items@[id]),
        !s.config.items@.contains_key(id) && s.portal_items@.contains_key(id) ==> item_of(s, id)
            == Some(s.portal_items@[id]),
        item_of(s, id) is None <==> !s.config.items@.contains_key(id)
            && !s.portal_items@.contains_key(id),
        forall|p: Seq<char>| #[trigger]
            path_of(s, id) == Some(p) <==> item_of(s, id) is Some && key_text(item_of(s, id)->0.key)
                == (true, p),
{
}

/// The first name that is tried is the one that is wanted; each later one has a number from two on
/// between the name and its ending.
pub proof fn tried_names_are_numbered_from_two(base: Seq<char>, ext: Seq<char>, k: nat)
    ensures
        candidate_name(base, ext, 0) == base + ext,
        k > 0 ==> candidate_name(base, ext, k) == base + " ("@ + number_text(k + 1) + ")"@ + ext,
{
    reveal_strlit(" (");
    reveal_strlit(")");
    assert(seq![' ', '('] =~= " ("@);
    assert(seq![')'] =~= ")"@);
}

/// A file that is awaited for no more than fifteen seconds and is there now is reported with the
/// fence it is for, in the order the files were expected.
pub proof fn files_that_came_are_reported(s: AppState, routes: Seq<PendingRoute>, now: u64)
    ensures
        landed(s, routes, now) == routes.filter(
            |p: PendingRoute| now - p.since <= 15 && item_at(s, p.path@) is Some,
        ).map_values(
            |p: PendingRoute|
                Landed { item: item_at(s, p.path@)->0, fence: p.fence, rename: p.rename },
        ),
    decreases routes.len(),
{
    reveal(Seq::filter);
    let f = |p: PendingRoute| now - p.since <= 15 && item_at(s, p.path@) is Some;
    let g = |p: PendingRoute|
        Landed { item: item_at(s, p.path@)->0, fence: p.fence, rename: p.rename };
    if routes.len() > 0 {
        files_that_came_are_reported(s, routes.drop_last(), now);
        let front = routes.drop_last().filter(f);
        assert(front.push(routes.last()).map_values(g) =~= front.map_values(g).push(
            g(routes.last()),
        ));
    }
}

/// A file that is not there yet is waited for, for fifteen seconds.
pub proof fn files_are_awaited_for_fifteen_seconds(
    s: AppState,
    routes: Seq<PendingRoute>,
    now: u64,
)
    ensures
        waiting(s, routes, now) == routes.filter(
            |p: PendingRoute| now - p.since <= 15 && item_at(s, p.path@) is None,
        ),
    decreases routes.len(),
{
    reveal(Seq::filter);
    if routes.len() > 0 {
        files_are_awaited_for_fifteen_seconds(s, routes.drop_last(), now);
    }
}

/// The characters that a file name cannot hold.
pub proof fn nine_characters_are_forbidden(c: char)
    ensures
        is_forbidden(c) <==> "\\/:*?\"<>|"@.contains(c),
{
    reveal_strlit("\\/:*?\"<>|");
    let s = "\\/:*?\"<>|"@;
    assert(s[0] == '\\' && s[1] == '/' && s[2] == ':' && s[3] == '*' && s[4] == '?' && s[5] == '"'
        && s[6] == '<' && s[7] == '>' && s[8] == '|');
}

/// A name is good where something is left of it without the space around it, and none of that is
/// forbidden.
pub proof fn blank_names_are_refused(name: Seq<char>)
    ensures
        trimmed(name).len() == 0 ==> !is_file_name(name),
        (exists|i: int| 0 <= i < trimmed(name).len() && is_forbidden(#[trigger] trimmed(name)[i]))
            ==> !is_file_name(name),
        trimmed(name).len() > 0 && (forall|i: int|
            0 <= i < trimmed(name).len() ==> !is_forbidden(#[trigger] trimmed(name)[i]))
            ==> is_file_name(name),
{
}

/// A rename is asked of a file whose name would change, with a good name and without the space
/// around it; a bad name is told of, except where the item can have no other name.
pub proof fn only_files_with_a_new_name_are_renamed(s: AppState, item: ItemId, name: Seq<char>)
    ensures
        forall|path: Seq<char>, to: Seq<char>| #[trigger]
            rename_request(s, item, name) == (RenameModel::Rename { path, name: to })
                <==> item_of(s, item) is Some && !key_is_namespace(item_of(s, item)->0.key) && key_text(
                item_of(s, item)->0.key,
            ) == (true, path) && is_file_name(name) && to == trimmed(name) && to != item_of(
                s,
                item,
            )->0.display_name@,
        rename_request(s, item, name) is BadName <==> !is_file_name(name) && !(item_of(s, item) is Some
            && key_is_namespace(item_of(s, item)->0.key)),
{
}

/// The paths of items are those of the ones that have a path, in their order; where only files are
/// wanted, without the ones that are no files.
pub proof fn paths_keep_the_order_of_items(s: AppState, items: Seq<ItemId>, files_only: bool)
    ensures
        paths_of(s, items, files_only) == items.filter(
            |id: ItemId|
                path_of(s, id) is Some && (files_only ==> !key_is_namespace(item_of(s, id)->0.key)),
        ).map_values(|id: ItemId| path_of(s, id)->0),
    decreases items.len(),
{
    reveal(Seq::filter);
    let f = |id: ItemId|
        path_of(s, id) is Some && (files_only ==> !key_is_namespace(item_of(s, id)->0.key));
    let g = |id: ItemId| path_of(s, id)->0;
    if items.len() > 0 {
        paths_keep_the_order_of_items(s, items.drop_last(), files_only);
        let front = items.drop_last().filter(f);
        assert(front.push(items.last()).map_values(g) =~= front.map_values(g).push(g(items.last())));
    }
}

/// Items are told apart by whether a portal has them.
pub proof fn items_are_of_portals_or_not(s: AppState, items: Seq<ItemId>)
    ensures
        portal_part(s, items, true) == items.filter(|id: ItemId| s.portal_items@.contains_key(id)),
        portal_part(s, items, false) == items.filter(|id: ItemId| !s.portal_items@.contains_key(id)),
    decreases items.len(),
{
    reveal(Seq::filter);
    if items.len() > 0 {
        items_are_of_portals_or_not(s, items.drop_last());
    }
}

/// Moving items changes the fence they go to and those that have one of them.
pub proof fn moving_changes_both_ends(fs: Seq<FenceModel>, items: Seq<ItemId>, to: FenceId)
    ensures
        affected(fs, items, to) == fs.filter(
            |f: FenceModel|
                f.id == to || exists|i: int| 0 <= i < items.len() && holds(f, #[trigger] items[i]),
        ).map_values(|f: FenceModel| f.id),
    decreases fs.len(),
{
    reveal(Seq::filter);
    let p = |f: FenceModel|
        f.id == to || exists|i: int| 0 <= i < items.len() && holds(f, #[trigger] items[i]);
    let g = |f: FenceModel| f.id;
    if fs.len() > 0 {
        moving_changes_both_ends(fs.drop_last(), items, to);
        let front = fs.drop_last().filter(p);
        assert(front.push(fs.last()).map_values(g) =~= front.map_values(g).push(g(fs.last())));
    }
}

/// A folder is opened in the portal it is in where that portal is one to walk in; everything else
/// that has a path goes to the shell, and what has none does nothing.
pub proof fn folders_open_in_their_portal(
    s: AppState,
    item: ItemId,
    portal: Option<FenceId>,
    r: Launch,
)
    requires
        launches(s, item, portal, r),
    ensures
        r is Enter <==> item_of(s, item) is Some && item_of(s, item)->0.is_folder && path_of(s, item)
            is Some && portal is Some && has_fence(fences(s), portal->0) && at(
            s,
            portal->0,
        ).portal_navigate,
        r is Nothing <==> path_of(s, item) is None,
        r matches Launch::Enter { fence, path } ==> portal == Some(fence) && path_of(s, item) == Some(
            path@,
        ),
        r matches Launch::Execute(path) ==> path_of(s, item) == Some(path@),
{
}

/// Opening an item changes the order of the fences that have it and sort by how often items are
/// opened.
pub proof fn opening_reorders_by_count(fs: Seq<FenceModel>, item: ItemId)
    ensures
        counted_in(fs, item) == fs.filter(
            |f: FenceModel| f.view.sort is OpenCount && holds(f, item),
        ).map_values(|f: FenceModel| f.id),
    decreases fs.len(),
{
    reveal(Seq::filter);
    let p = |f: FenceModel| f.view.sort is OpenCount && holds(f, item);
    let g = |f: FenceModel| f.id;
    if fs.len() > 0 {
        opening_reorders_by_count(fs.drop_last(), item);
        let front = fs.drop_last().filter(p);
        assert(front.push(fs.last()).map_values(g) =~= front.map_values(g).push(g(fs.last())));
    }
}

/// Only items that there are can be cut.
pub proof fn known_items_keep_their_order(s: AppState, items: Seq<ItemId>)
    ensures
        known_items(s, items) == items.filter(
            |id: ItemId| s.config.items@.contains_key(id) || s.portal_items@.contains_key(id),
        ),
    decreases items.len(),
{
    reveal(Seq::filter);
    if items.len() > 0 {
        known_items_keep_their_order(s, items.drop_last());
    }
}

/// Items that are moved to a portal go into its folder as files; to any other fence those of the
/// desktop are filed, and those of portals come to the desktop first.
pub proof fn moving_depends_on_the_goal(s: &AppState, items: &Vec<ItemId>, to: FenceId, r: MoveItems)
    requires
        call_ensures(AppState::plan_move, (s, items, to), r),
    ensures
        r is IntoFolder <==> portal_path_of(*s, to) is Some,
        r matches MoveItems::Among { portal, desktop, .. } ==> portal@ == items@.filter(
            |id: ItemId| s.portal_items@.contains_key(id),
        ) && desktop@ == items@.filter(|id: ItemId| !s.portal_items@.contains_key(id)),
{
    items_are_of_portals_or_not(*s, items@);
}

/// What was cut is moved, and what was copied is not; without a folder to paste into it is copied.
pub proof fn pasting_moves_what_was_cut(
    parents: &Vec<Option<String>>,
    cut: bool,
    dest: Option<&str>,
    r: Paste,
)
    requires
        call_ensures(plan_paste, (parents, cut, dest), r),
    ensures
        cut <==> r is Move,
        !cut && dest is None ==> r is Copy,
{
}

/// An item is shown in a portal that lists it, and elsewhere where no portal does.
pub proof fn portals_show_what_they_list(s: AppState, item: ItemId, f: FenceId)
    ensures
        shows_item(s, item, Some(f)) <==> s.portal_members@.contains_key(f)
            && s.portal_members@[f]@.contains(item),
        s.portal_members@.contains_key(f) && s.portal_members@[f]@.contains(item) ==> !shows_item(
            s,
            item,
            None,
        ),
        (forall|g: FenceId| #[trigger]
            s.portal_members@.contains_key(g) ==> !s.portal_members@[g]@.contains(item))
            ==> shows_item(s, item, None),
{
}

} // verus!
