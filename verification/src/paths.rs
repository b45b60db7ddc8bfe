//! Paths in the form that identifies items: lower case, backslashes, no trailing separator.

use crate::model::{Item, ItemKey};
use crate::text::{
    begins_with, chars_begin_with, chars_of, lowercase, lowercase_of, string_of,
};
use vstd::prelude::*;

verus! {

/// The bytes of a character in UTF-8.
pub open spec fn char_width(c: char) -> nat {
    if (c as int) < 0x80 {
        1
    } else if (c as int) < 0x800 {
        2
    } else if (c as int) < 0x1_0000 {
        3
    } else {
        4
    }
}

/// The bytes of a text in UTF-8.
pub open spec fn text_width(s: Seq<char>) -> nat
    decreases s.len(),
{
    if s.len() == 0 {
        0
    } else {
        text_width(s.drop_last()) + char_width(s.last())
    }
}

/// `s` with every slash turned into a backslash.
pub open spec fn backslashed(s: Seq<char>) -> Seq<char> {
    Seq::new(
        s.len(),
        |i: int|
            if s[i] == '/' {
                '\\'
            } else {
                s[i]
            },
    )
}

/// `s` without trailing backslashes, as long as more than three bytes are left: the root of a
/// drive keeps its own.
pub open spec fn without_trailing(s: Seq<char>) -> Seq<char>
    decreases s.len(),
{
    if s.len() > 0 && s.last() == '\\' && text_width(s) > 3 {
        without_trailing(s.drop_last())
    } else {
        s
    }
}

/// The canonical form of a path.
pub open spec fn path_key(path: Seq<char>) -> Seq<char> {
    without_trailing(lowercase_of(backslashed(path)))
}

proof fn lemma_without_trailing(s: Seq<char>)
    ensures
        ({
            let t = without_trailing(s);
            &&& begins_with(s, t)
            &&& t.len() > 0 && t.last() == '\\' ==> text_width(t) <= 3
            &&& forall|i: int| t.len() <= i < s.len() ==> s[i] == '\\'
        }),
    decreases s.len(),
{
    if s.len() > 0 && s.last() == '\\' && text_width(s) > 3 {
        let t = without_trailing(s);
        lemma_without_trailing(s.drop_last());
        assert(s.take(t.len() as int) =~= s.drop_last().take(t.len() as int));
        assert forall|i: int| t.len() <= i < s.len() implies s[i] == '\\' by {
            if i < s.len() - 1 {
                assert(s.drop_last()[i] == s[i]);
            }
        }
    } else {
        assert(s.take(s.len() as int) =~= s);
    }
}

/// A key ends with a separator only where it has at most three bytes, as the root of a drive has;
/// what the path has behind it are separators only. Slashes and backslashes give the same key.
pub proof fn keys_have_one_form(path: Seq<char>)
    ensures
        path_key(backslashed(path)) == path_key(path),
        begins_with(lowercase_of(backslashed(path)), path_key(path)),
        forall|i: int|
            path_key(path).len() <= i < lowercase_of(backslashed(path)).len() ==> lowercase_of(
                backslashed(path),
            )[i] == '\\',
        path_key(path).len() > 0 && path_key(path).last() == '\\' ==> text_width(path_key(path)) <= 3,
{
    assert(backslashed(backslashed(path)) =~= backslashed(path));
    lemma_without_trailing(lowercase_of(backslashed(path)));
}

fn width_of(c: char) -> (r: usize)
    ensures
        r == char_width(c),
{
    let n: u32 = c as u32;
    if n < 0x80 {
        1
    } else if n < 0x800 {
        2
    } else if n < 0x1_0000 {
        3
    } else {
        4
    }
}

proof fn lemma_width_at_least(s: Seq<char>)
    ensures
        text_width(s) >= s.len(),
    decreases s.len(),
{
    if s.len() > 0 {
        lemma_width_at_least(s.drop_last());
    }
}

/// Whether a text has more than three bytes.
fn wider_than_three(s: &Vec<char>) -> (r: bool)
    ensures
        r == (text_width(s@) > 3),
{
    proof {
        lemma_width_at_least(s@);
    }
    if s.len() > 3 {
        return true;
    }
    let mut w: usize = 0;
    let n: usize = s.len();
    for i in 0..n
        invariant
            n == s.len(),
            n <= 3,
            w == text_width(s@.take(i as int)),
            w <= 4 * i,
    {
        assert(s@.take(i + 1).drop_last() == s@.take(i as int));
        w = w + width_of(s[i]);
    }
    assert(s@.take(n as int) == s@);
    w > 3
}

impl ItemKey {
    /// The key of a path: case-folded, with backslashes only and no trailing one.
    pub fn from_path(path: &str) -> (r: Self)
        ensures
            r is Path,
            r->Path_0@ == path_key(path@),
    {
        let chars = chars_of(path);
        let mut slashed: Vec<char> = Vec::new();
        let n: usize = chars.len();
        for i in 0..n
            invariant
                n == chars.len(),
                chars@ == path@,
                slashed@ == backslashed(path@).take(i as int),
        {
            assert(backslashed(path@).take(i + 1) == backslashed(path@).take(i as int).push(
                backslashed(path@)[i as int],
            ));
            if chars[i] == '/' {
                slashed.push('\\');
            } else {
                slashed.push(chars[i]);
            }
        }
        assert(backslashed(path@).take(n as int) == backslashed(path@));
        let low = lowercase(string_of(&slashed).as_str());
        let mut key = chars_of(low.as_str());
        while key.len() > 0 && key[key.len() - 1] == '\\' && wider_than_three(&key)
            invariant
                without_trailing(key@) == path_key(path@),
            decreases key.len(),
        {
            let ghost before = key@;
            key.pop();
            assert(key@ == before.drop_last());
        }
        ItemKey::Path(string_of(&key))
    }

    /// The path of a key, where it has one.
    pub fn as_path(&self) -> (r: Option<&str>)
        ensures
            r is Some <==> *self is Path,
            r matches Some(p) ==> p@ == self->Path_0@,
    {
        match self {
            ItemKey::Path(p) => Some(p.as_str()),
            ItemKey::Pidl(_) => None,
        }
    }

    /// Whether the key names a shell namespace item, such as the Recycle Bin, by its class id.
    /// There is no file behind such an item.
    pub fn is_namespace(&self) -> (r: bool)
        ensures
            r == key_is_namespace(*self),
    {
        match self {
            ItemKey::Path(p) => {
                let chars = chars_of(p.as_str());
                chars.len() >= 3 && chars[0] == ':' && chars[1] == ':' && chars[2] == '{'
            },
            ItemKey::Pidl(_) => false,
        }
    }
}

/// The key is a path that begins with `::{`.
pub open spec fn key_is_namespace(k: ItemKey) -> bool {
    match k {
        ItemKey::Path(p) => p@.len() >= 3 && p@[0] == ':' && p@[1] == ':' && p@[2] == '{',
        ItemKey::Pidl(_) => false,
    }
}

impl Item {
    /// Whether the item is a shell namespace item.
    pub fn is_namespace(&self) -> (r: bool)
        ensures
            r == key_is_namespace(self.key),
    {
        self.key.is_namespace()
    }
}

// ---- folders ------------------------------------------------------------------------------

/// A folder's key with exactly one trailing separator.
pub open spec fn prefix_of(key: Seq<char>) -> Seq<char> {
    if key.len() > 0 && key.last() == '\\' {
        key
    } else {
        key.push('\\')
    }
}

/// The key of a folder with exactly one trailing separator, for tests of what is inside it. The
/// root of a drive has one already.
pub fn dir_prefix(key: &str) -> (r: String)
    ensures
        r@ == prefix_of(key@),
{
    let mut chars = chars_of(key);
    if !(chars.len() > 0 && chars[chars.len() - 1] == '\\') {
        chars.push('\\');
    }
    string_of(&chars)
}

/// `inner` lies inside the folder `outer`, both by their keys.
pub open spec fn inside(inner: Seq<char>, outer: Seq<char>) -> bool {
    begins_with(inner, prefix_of(outer))
}

/// Whether `inner` lies inside the folder `outer`, both by their keys.
pub fn is_inside(inner: &str, outer: &str) -> (r: bool)
    ensures
        r == inside(inner@, outer@),
{
    chars_begin_with(&chars_of(inner), &chars_of(dir_prefix(outer).as_str()))
}

/// What lies inside a folder inside another lies inside that one too.
pub proof fn inside_is_transitive(a: Seq<char>, b: Seq<char>, c: Seq<char>)
    requires
        inside(a, b),
        inside(b, c),
    ensures
        inside(a, c),
{
    let pb = prefix_of(b);
    let pc = prefix_of(c);
    assert(pb.len() >= b.len());
    assert forall|i: int| 0 <= i < pc.len() implies a[i] == pc[i] by {
        assert(a.take(pb.len() as int)[i] == pb[i]);
        assert(b.take(pc.len() as int)[i] == pc[i]);
        assert(pb[i] == b[i]);
    }
    assert(a.take(pc.len() as int) =~= pc);
}

/// Position `i` holds the last dot of `s`.
pub open spec fn last_dot(s: Seq<char>, i: int) -> bool {
    &&& 0 <= i < s.len()
    &&& s[i] == '.'
    &&& forall|j: int| i < j < s.len() ==> s[j] != '.'
}

/// The position of the last dot of `s`, where it has one.
pub open spec fn last_dot_of(s: Seq<char>) -> int {
    choose|i: int| last_dot(s, i)
}

/// What follows the last dot of a path; nothing where it has none.
pub open spec fn extension_of(s: Seq<char>) -> Seq<char> {
    if exists|i: int| last_dot(s, i) {
        s.skip(last_dot_of(s) + 1)
    } else {
        Seq::empty()
    }
}

/// The extension of a key: that of its path, nothing for other keys.
pub open spec fn key_extension(k: ItemKey) -> Seq<char> {
    match k {
        ItemKey::Path(p) => extension_of(p@),
        ItemKey::Pidl(_) => Seq::empty(),
    }
}

/// What follows the last dot of a key's path.
pub fn ext_of_key(key: &ItemKey) -> (r: String)
    ensures
        r@ == key_extension(*key),
{
    match key {
        ItemKey::Path(p) => {
            let s = chars_of(p.as_str());
            let mut i: usize = s.len();
            while i > 0
                invariant
                    i <= s.len(),
                    s@ == p@,
                    *key == ItemKey::Path(*p),
                    forall|j: int| i <= j < s.len() ==> s@[j] != '.',
                decreases i,
            {
                i = i - 1;
                if s[i] == '.' {
                    assert(last_dot(s@, i as int));
                    assert(last_dot_of(s@) == i);
                    let mut rest: Vec<char> = Vec::new();
                    let n: usize = s.len();
                    for k in i + 1..n
                        invariant
                            n == s.len(),
                            i < n,
                            rest@ == s@.subrange(i + 1, k as int),
                    {
                        assert(s@.subrange(i + 1, k + 1) == s@.subrange(i + 1, k as int).push(
                            s@[k as int],
                        ));
                        rest.push(s[k]);
                    }
                    assert(rest@ =~= s@.skip(i + 1));
                    return string_of(&rest);
                }
            }
            String::new()
        },
        ItemKey::Pidl(_) => String::new(),
    }
}

// ---- dropping into folders ----------------------------------------------------------------

/// A dropped file or folder: its path, the path of the folder that holds it where there is one,
/// and whether it is a shell namespace item.
#[derive(Debug, PartialEq, Eq)]
pub struct DroppedPath {
    pub path: String,
    pub parent: Option<String>,
    pub namespace: bool,
}

impl Clone for DroppedPath {
    fn clone(&self) -> (r: Self)
        ensures
            r == *self,
    {
        DroppedPath {
            path: self.path.clone(),
            parent: match &self.parent {
                Some(p) => Some(p.clone()),
                None => None,
            },
            namespace: self.namespace,
        }
    }
}

/// A dropped path can go into `folder`: it is a file or folder, not the folder itself nor one
/// around it, and not in the folder already.
pub open spec fn can_go_into(p: DroppedPath, folder: Seq<char>) -> bool {
    &&& !p.namespace
    &&& path_key(p.path@) != path_key(folder)
    &&& !inside(path_key(folder), path_key(p.path@))
    &&& p.parent matches Some(d) ==> path_key(d@) != path_key(folder)
}

/// The dropped paths that can go into `folder`, in their order.
pub open spec fn going_into(paths: Seq<DroppedPath>, folder: Seq<char>) -> Seq<DroppedPath>
    decreases paths.len(),
{
    if paths.len() == 0 {
        Seq::empty()
    } else {
        let rest = going_into(paths.drop_last(), folder);
        if can_go_into(paths.last(), folder) {
            rest.push(paths.last())
        } else {
            rest
        }
    }
}

fn key_chars(path: &str) -> (r: Vec<char>)
    ensures
        r@ == path_key(path@),
{
    match ItemKey::from_path(path) {
        ItemKey::Path(s) => chars_of(s.as_str()),
        ItemKey::Pidl(s) => chars_of(s.as_str()),
    }
}

fn same_chars(a: &Vec<char>, b: &Vec<char>) -> (r: bool)
    ensures
        r == (a@ == b@),
{
    if a.len() != b.len() {
        return false;
    }
    let r = chars_begin_with(a, b);
    assert(a@.take(b.len() as int) =~= a@);
    r
}

fn may_go_into(p: &DroppedPath, folder: &Vec<char>, Ghost(path): Ghost<Seq<char>>) -> (r: bool)
    requires
        folder@ == path_key(path),
    ensures
        r == can_go_into(*p, path),
{
    if p.namespace {
        return false;
    }
    let mut key = key_chars(p.path.as_str());
    if same_chars(&key, folder) {
        return false;
    }
    if !(key.len() > 0 && key[key.len() - 1] == '\\') {
        key.push('\\');
    }
    if chars_begin_with(folder, &key) {
        return false;
    }
    match &p.parent {
        Some(d) => !same_chars(&key_chars(d.as_str()), folder),
        None => true,
    }
}

/// Drops from `paths` what cannot go into `folder`: what is there already, the folder itself, a
/// folder around it, and shell namespace items.
pub fn filter_folder_paths(paths: &Vec<DroppedPath>, folder: &str) -> (r: Vec<DroppedPath>)
    ensures
        r@ == going_into(paths@, folder@),
{
    let key = key_chars(folder);
    let mut out: Vec<DroppedPath> = Vec::new();
    let n: usize = paths.len();
    for i in 0..n
        invariant
            n == paths.len(),
            key@ == path_key(folder@),
            out@ == going_into(paths@.take(i as int), folder@),
    {
        assert(paths@.take(i + 1).drop_last() == paths@.take(i as int));
        if may_go_into(&paths[i], &key, Ghost(folder@)) {
            out.push(paths[i].clone());
        }
    }
    assert(paths@.take(n as int) == paths@);
    out
}

/// Of dropped paths exactly those stay that can go into the folder, in their order.
pub proof fn paths_that_can_go_are_kept(paths: Seq<DroppedPath>, folder: Seq<char>)
    ensures
        going_into(paths, folder) == paths.filter(|p: DroppedPath| can_go_into(p, folder)),
    decreases paths.len(),
{
    reveal(Seq::filter);
    if paths.len() > 0 {
        paths_that_can_go_are_kept(paths.drop_last(), folder);
    }
}

/// A path cannot go into a folder where it is a shell item, the folder itself, a folder around it,
/// or in it already; any other can.
pub proof fn only_other_files_go_into_a_folder(p: DroppedPath, folder: Seq<char>)
    ensures
        ({
            let key = path_key(p.path@);
            let to = path_key(folder);
            let front = if key.len() > 0 && key.last() == '\\' {
                key
            } else {
                key.push('\\')
            };
            let around = front.len() <= to.len() && forall|i: int|
                0 <= i < front.len() ==> #[trigger] to[i] == front[i];
            let in_it = p.parent is Some && path_key(p.parent->0@) == to;
            can_go_into(p, folder) <==> !p.namespace && key != to && !around && !in_it
        }),
{
    let key = path_key(p.path@);
    let to = path_key(folder);
    let front = if key.len() > 0 && key.last() == '\\' {
        key
    } else {
        key.push('\\')
    };
    if front.len() <= to.len() {
        if inside(to, key) {
            assert forall|i: int| 0 <= i < front.len() implies #[trigger] to[i] == front[i] by {
                assert(to.take(front.len() as int)[i] == to[i]);
            }
        }
        if forall|i: int| 0 <= i < front.len() ==> #[trigger] to[i] == front[i] {
            assert(to.take(front.len() as int) =~= front);
        }
    }
}

/// The ending of a path is what follows its last dot, and nothing where it has no dot.
pub proof fn an_ending_follows_the_last_dot(base: Seq<char>, ext: Seq<char>)
    requires
        !ext.contains('.'),
    ensures
        extension_of(base.push('.') + ext) == ext,
        extension_of(ext).len() == 0,
{
    let s = base.push('.') + ext;
    let i = base.len() as int;
    assert forall|j: int| i < j < s.len() implies s[j] != '.' by {
        assert(s[j] == ext[j - i - 1]);
        assert(ext.contains(ext[j - i - 1]));
    }
    assert(last_dot(s, i));
    let k = last_dot_of(s);
    assert(last_dot(s, k));
    if k < i {
        assert(s[i] != '.');
    }
    if i < k {
        assert(s[k] != '.');
    }
    assert(s.skip(i + 1) =~= ext);
    assert forall|j: int| !last_dot(ext, j) by {
        if last_dot(ext, j) {
            assert(ext.contains(ext[j]));
        }
    }
}

/// A shell namespace item is a path that begins with two colons and a brace.
pub proof fn namespace_paths_begin_with_a_brace(k: ItemKey)
    ensures
        key_is_namespace(k) <==> k is Path && begins_with(k->Path_0@, "::{"@),
        key_extension(k) == if k is Path {
            extension_of(k->Path_0@)
        } else {
            Seq::empty()
        },
{
    reveal_strlit("::{");
    if let ItemKey::Path(p) = k {
        if key_is_namespace(k) {
            assert(p@.take(3) =~= "::{"@);
        }
        if begins_with(p@, "::{"@) {
            assert(p@.take(3)[0] == ':' && p@.take(3)[1] == ':' && p@.take(3)[2] == '{');
        }
    }
}

/// A path lies in a folder where it begins with the folder and a separator.
pub proof fn what_lies_in_a_folder_begins_with_it(inner: Seq<char>, outer: Seq<char>)
    requires
        outer.len() > 0,
        outer.last() != '\\',
    ensures
        inside(inner, outer) <==> inner.len() > outer.len() && inner[outer.len() as int] == '\\'
            && forall|i: int| 0 <= i < outer.len() ==> #[trigger] inner[i] == outer[i],
        !inside(outer, outer),
{
    let p = outer.push('\\');
    if inside(inner, outer) {
        assert forall|i: int| 0 <= i < outer.len() implies #[trigger] inner[i] == outer[i] by {
            assert(inner.take(p.len() as int)[i] == p[i]);
        }
        assert(inner.take(p.len() as int)[outer.len() as int] == p[outer.len() as int]);
    }
    if inner.len() > outer.len() && inner[outer.len() as int] == '\\' && (forall|i: int|
        0 <= i < outer.len() ==> #[trigger] inner[i] == outer[i]) {
        assert(inner.take(p.len() as int) =~= p);
    }
}

/// In a key every separator is a backslash before the letters are made small, and nothing else
/// changes.
pub proof fn only_slashes_are_turned(s: Seq<char>, i: int)
    requires
        0 <= i < s.len(),
    ensures
        backslashed(s).len() == s.len(),
        s[i] == '/' ==> backslashed(s)[i] == '\\',
        s[i] != '/' ==> backslashed(s)[i] == s[i],
{
}

} // verus!
