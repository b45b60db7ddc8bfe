//! Small rules at the edge of the system: who is called for an event, what the clipboard asks for,
//! and the ids of files that have none of their own.

use crate::model::ItemId;
use crate::paths::backslashed;
use crate::text::{chars_of, lowercase, lowercase_of, string_of};
use std::collections::hash_map::DefaultHasher;
use std::collections::{HashMap, HashSet};
use std::hash::Hasher;
use vstd::prelude::*;
use vstd::std_specs::hash::DefaultHasherAdditionalSpecFns;
use vstd::utf8::encode_utf8;

verus! {

broadcast use vstd::std_specs::hash::group_hash_axioms;

// ---- event hooks --------------------------------------------------------------------------

/// An installed hook: the handle that the system gave it, and its own number. The system may give
/// a handle again, a number is not given again.
#[derive(Clone, Copy, Debug, PartialEq, Eq, Structural)]
pub struct WinEventHook {
    pub raw: u64,
    pub generation: u64,
}

/// What is called for the events of a hook.
pub struct HookSlot<C> {
    pub generation: u64,
    pub callback: C,
}

/// The hooks of a thread. A callback is taken out while it runs, so that an event that comes in
/// meanwhile does not call it a second time.
pub struct HookTable<C> {
    pub slots: HashMap<u64, HookSlot<C>>,
    /// The numbers of the hooks that are installed.
    pub live: HashSet<u64>,
    pub next: u64,
}

/// The number after a number; 0 is none.
pub open spec fn following(n: u64) -> u64 {
    if n == u64::MAX {
        1
    } else {
        (n + 1) as u64
    }
}

/// The callback of a hook may be put back: the hook is installed still, and its handle was not
/// given to another one meanwhile.
pub open spec fn may_put_back<C>(t: HookTable<C>, h: WinEventHook) -> bool {
    t.live@.contains(h.generation) && (t.slots@.contains_key(h.raw) ==> t.slots@[h.raw].generation
        == h.generation)
}

impl<C> HookTable<C> {
    pub fn new() -> (r: Self)
        ensures
            r.slots@ == Map::<u64, HookSlot<C>>::empty(),
            r.live@ == Set::<u64>::empty(),
            r.next == 1,
    {
        HookTable { slots: HashMap::new(), live: HashSet::new(), next: 1 }
    }

    /// A hook was installed under a handle.
    pub fn install(&mut self, raw: u64, callback: C) -> (r: WinEventHook)
        ensures
            r == (WinEventHook { raw, generation: old(self).next }),
            final(self).slots@ == old(self).slots@.insert(
                raw,
                HookSlot { generation: old(self).next, callback },
            ),
            final(self).live@ == old(self).live@.insert(old(self).next),
            final(self).next == following(old(self).next),
    {
        let generation: u64 = self.next;
        self.next = if generation == u64::MAX {
            1
        } else {
            generation + 1
        };
        self.slots.insert(raw, HookSlot { generation, callback });
        self.live.insert(generation);
        WinEventHook { raw, generation }
    }

    /// A hook is taken out. What another hook has under the same handle stays.
    pub fn uninstall(&mut self, hook: &WinEventHook)
        ensures
            final(self).live@ == old(self).live@.remove(hook.generation),
            final(self).slots@ == if old(self).slots@.contains_key(hook.raw) && old(
                self,
            ).slots@[hook.raw].generation == hook.generation {
                old(self).slots@.remove(hook.raw)
            } else {
                old(self).slots@
            },
            final(self).next == old(self).next,
    {
        self.live.remove(&hook.generation);
        let own: bool = match self.slots.get(&hook.raw) {
            Some(s) => s.generation == hook.generation,
            None => false,
        };
        if own {
            self.slots.remove(&hook.raw);
        }
    }

    /// An event came in. Takes the callback out that it is for: none for an event of a part of a
    /// window, and none of a hook that is no longer installed.
    pub fn take(&mut self, raw: u64, id_object: i32) -> (r: Option<HookSlot<C>>)
        ensures
            final(self).live@ == old(self).live@,
            final(self).next == old(self).next,
            if id_object != 0 || !old(self).slots@.contains_key(raw) {
                r is None && final(self).slots@ == old(self).slots@
            } else {
                &&& final(self).slots@ == old(self).slots@.remove(raw)
                &&& r == if old(self).live@.contains(old(self).slots@[raw].generation) {
                    Some(old(self).slots@[raw])
                } else {
                    None
                }
            },
    {
        if id_object != 0 {
            return None;
        }
        match self.slots.remove(&raw) {
            Some(s) => if self.live.contains(&s.generation) {
                Some(s)
            } else {
                None
            },
            None => {
                assert(self.slots@ =~= old(self).slots@);
                None
            },
        }
    }

    /// The callback has run. Puts it back, unless its hook was taken out meanwhile.
    pub fn put_back(&mut self, raw: u64, slot: HookSlot<C>)
        ensures
            final(self).live@ == old(self).live@,
            final(self).next == old(self).next,
            final(self).slots@ == if may_put_back(
                *old(self),
                WinEventHook { raw, generation: slot.generation },
            ) && !old(self).slots@.contains_key(raw) {
                old(self).slots@.insert(raw, slot)
            } else {
                old(self).slots@
            },
    {
        if !self.live.contains(&slot.generation) {
            return;
        }
        if !self.slots.contains_key(&raw) {
            self.slots.insert(raw, slot);
        }
    }
}

/// A hook that is taken out while its callback runs does not come back with it, and a hook that
/// got its handle meanwhile is not replaced.
pub proof fn a_hook_taken_out_stays_out<C>(t: HookTable<C>, h: WinEventHook)
    ensures
        !t.live@.contains(h.generation) ==> !may_put_back(t, h),
        t.slots@.contains_key(h.raw) && t.slots@[h.raw].generation != h.generation
            ==> !may_put_back(t, h),
{
}

// ---- the clipboard ------------------------------------------------------------------------

/// The files on the clipboard were cut: their preferred effect is to be moved and not to be copied.
pub open spec fn is_cut(effect: Option<Seq<u8>>) -> bool {
    effect matches Some(b) && b.len() >= 4 && b[0] & 2 != 0 && b[0] & 1 == 0
}

/// Whether the files on the clipboard were cut. `effect` is the word that says so, lowest byte
/// first; where there is none, or it is too short, they were copied.
pub fn was_cut(effect: &Option<Vec<u8>>) -> (r: bool)
    ensures
        r == is_cut(
            match *effect {
                Some(b) => Some(b@),
                None => None,
            },
        ),
{
    match effect {
        Some(b) => b.len() >= 4 && b[0] & 2 != 0 && b[0] & 1 == 0,
        None => false,
    }
}

// ---- ids of files -------------------------------------------------------------------------

/// The form of a path in which two spellings of it are the same.
pub open spec fn folded_path(path: Seq<char>) -> Seq<char> {
    backslashed(lowercase_of(path))
}

/// What is hashed of a text, piece by piece: its bytes, and one that no text holds.
pub open spec fn hashed_text(bytes: Seq<u8>) -> Seq<Seq<u8>> {
    seq![bytes, seq![0xffu8]]
}

/// The id that stands for a file, from its folded path: two hashes of it, side by side.
pub open spec fn file_id(key: Seq<char>) -> ItemId {
    let bytes = encode_utf8(key);
    let high = DefaultHasher::spec_finish(hashed_text(bytes));
    let low = DefaultHasher::spec_finish(hashed_text(bytes).push(seq![0xedu8, 0x5eu8]));
    ((high as u128) << 64) | (low as u128)
}

/// The path in lower case, with backslashes only.
pub fn fold_path(path: &str) -> (r: String)
    ensures
        r@ == folded_path(path@),
{
    let low = lowercase(path);
    let chars = chars_of(low.as_str());
    let mut out: Vec<char> = Vec::new();
    let n: usize = chars.len();
    let ghost all = backslashed(chars@);
    for i in 0..n
        invariant
            n == chars.len(),
            all == backslashed(chars@),
            out@ == all.take(i as int),
    {
        assert(all.take(i + 1) =~= all.take(i as int).push(all[i as int]));
        if chars[i] == '/' {
            out.push('\\');
        } else {
            out.push(chars[i]);
        }
    }
    assert(all.take(n as int) =~= all);
    string_of(&out)
}

/// The id that stands for a file of a folder, by its path: a file keeps it whenever the folder is
/// read.
pub fn portal_item_id(path: &str) -> (r: ItemId)
    ensures
        r == file_id(folded_path(path@)),
{
    let key = fold_path(path);
    let text: &str = key.as_str();
    let end: [u8; 1] = [0xffu8];
    let mark: [u8; 2] = [0xedu8, 0x5eu8];
    let mut high = DefaultHasher::new();
    high.write(text.as_bytes());
    high.write(&end);
    let mut low = DefaultHasher::new();
    low.write(text.as_bytes());
    low.write(&end);
    low.write(&mark);
    assert(end@ =~= seq![0xffu8]);
    assert(mark@ =~= seq![0xedu8, 0x5eu8]);
    assert(high@ =~= hashed_text(encode_utf8(text@)));
    assert(low@ =~= hashed_text(encode_utf8(text@)).push(seq![0xedu8, 0x5eu8]));
    let h: u64 = high.finish();
    let l: u64 = low.finish();
    ((h as u128) << 64) | (l as u128)
}

/// Files on the clipboard are cut where the effect that comes with them is to move and not to copy.
pub proof fn files_are_cut_to_be_moved(b: Seq<u8>)
    ensures
        !is_cut(None),
        b.len() < 4 ==> !is_cut(Some(b)),
        b.len() >= 4 ==> (is_cut(Some(b)) <==> b[0] % 4 == 2),
{
    if b.len() >= 4 {
        let x = b[0];
        assert((x & 2 != 0 && x & 1 == 0) == (x % 4 == 2)) by (bit_vector);
    }
}

/// The numbers of hooks go up by one, and start again at one behind the last.
pub proof fn numbers_of_hooks_are_never_zero(n: u64)
    ensures
        following(n) > 0,
        n < u64::MAX ==> following(n) == n + 1,
        n == u64::MAX ==> following(n) == 1,
{
}

/// A hook that is installed is called by its number and no other until it is taken out, also where
/// the system gives its number away again.
pub proof fn a_hook_is_called_while_it_is_in<C>(
    t: &mut HookTable<C>,
    raw: u64,
    callback: C,
    h: WinEventHook,
    other: u64,
)
    requires
        call_ensures(HookTable::<C>::install, (t, raw, callback), h),
        other != raw,
    ensures
        h.raw == raw,
        h.generation == old(t).next,
        final(t).slots@.contains_key(raw) && final(t).slots@[raw].generation == h.generation
            && final(t).slots@[raw].callback == callback,
        final(t).live@.contains(h.generation),
        final(t).slots@.contains_key(other) == old(t).slots@.contains_key(other),
        final(t).next != h.generation,
{
}

/// A hook that is taken out is not called again, and a newer one with the same number of the
/// system's stays in.
pub proof fn a_hook_is_taken_out_for_good<C>(t: &mut HookTable<C>, hook: &WinEventHook)
    requires
        call_ensures(HookTable::<C>::uninstall, (t, hook), ()),
    ensures
        !final(t).live@.contains(hook.generation),
        !may_put_back(*final(t), *hook),
        old(t).slots@.contains_key(hook.raw) && old(t).slots@[hook.raw].generation != hook.generation
            ==> final(t).slots@ == old(t).slots@,
        final(t).slots@.contains_key(hook.raw) ==> final(t).slots@[hook.raw].generation
            != hook.generation,
{
}

/// Paths are told apart in small letters and with backslashes only.
pub proof fn folded_paths_have_no_slashes(path: Seq<char>, i: int)
    requires
        0 <= i < folded_path(path).len(),
    ensures
        folded_path(path)[i] != '/',
        folded_path(path).len() == lowercase_of(path).len(),
        lowercase_of(path)[i] != '/' ==> folded_path(path)[i] == lowercase_of(path)[i],
{
}

} // verus!
