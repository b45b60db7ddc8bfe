//! Lookup tables: the ids of a map, and the catalog of items by key.

use crate::model::{key_text, ItemId, ItemKey};
use std::collections::HashMap;
use vstd::prelude::*;

verus! {

/// `ids` lists the keys of `m` once each.
pub open spec fn lists_keys<V>(ids: Seq<u128>, m: Map<u128, V>) -> bool {
    &&& ids.no_duplicates()
    &&& forall|x: u128| #[trigger] ids.contains(x) <==> m.contains_key(x)
}

/// The keys of a map, once each, in no particular order.
pub fn ids_of<V>(m: &HashMap<u128, V>) -> (r: Vec<u128>)
    ensures
        lists_keys(r@, m@),
{
    let mut out: Vec<u128> = Vec::new();
    for k in it: m.keys()
        invariant
            it.seq().unref().to_set() == m@.dom(),
            it.seq().no_duplicates(),
            out.len() == it.index(),
            forall|i: int| 0 <= i < out.len() ==> out@[i] == *#[trigger] it.seq()[i],
    {
        out.push(*k);
    }
    proof {
        let keys = vstd::std_specs::hash::spec_keys_iter(m);
        let s = vstd::std_specs::iter::IteratorSpec::remaining(&keys);
        assert(out@ =~= s.unref());
        assert forall|x: u128| #[trigger] out@.contains(x) <==> m@.contains_key(x) by {
            assert(s.unref().to_set().contains(x) <==> m@.dom().contains(x));
        }
        assert forall|i: int, j: int|
            0 <= i < out.len() && 0 <= j < out.len() && i != j implies out@[i] != out@[j] by {
            assert(s[i] != s[j]);
        }
    }
    out
}

/// An entry of the catalog.
struct CatalogEntry {
    key: ItemKey,
    id: ItemId,
}

/// Which item a key stands for.
pub struct Catalog {
    entries: Vec<CatalogEntry>,
}

impl View for Catalog {
    type V = Map<(bool, Seq<char>), ItemId>;

    closed spec fn view(&self) -> Map<(bool, Seq<char>), ItemId> {
        Map::new(
            |k: (bool, Seq<char>)| entry_for(self.entries@, k),
            |k: (bool, Seq<char>)| self.entries@[entry_at(self.entries@, k)].id,
        )
    }
}

spec fn is_entry(entries: Seq<CatalogEntry>, k: (bool, Seq<char>), i: int) -> bool {
    0 <= i < entries.len() && key_text(entries[i].key) == k
}

spec fn entry_for(entries: Seq<CatalogEntry>, k: (bool, Seq<char>)) -> bool {
    exists|i: int| is_entry(entries, k, i)
}

spec fn entry_at(entries: Seq<CatalogEntry>, k: (bool, Seq<char>)) -> int {
    choose|i: int| is_entry(entries, k, i)
}

impl Catalog {
    #[verifier::type_invariant]
    spec fn keys_differ(self) -> bool {
        forall|i: int, j: int|
            0 <= i < self.entries@.len() && 0 <= j < self.entries@.len() && key_text(
                (#[trigger] self.entries@[i]).key,
            ) == key_text((#[trigger] self.entries@[j]).key) ==> i == j
    }

    /// An empty catalog.
    pub fn new() -> (r: Self)
        ensures
            r@ == Map::<(bool, Seq<char>), ItemId>::empty(),
    {
        let r = Catalog { entries: Vec::new() };
        proof {
            assert forall|k: (bool, Seq<char>)| !r@.contains_key(k) by {
                assert(!entry_for(r.entries@, k));
            }
            assert(r@ =~= Map::empty());
        }
        r
    }

    fn find(&self, key: &ItemKey) -> (r: Option<usize>)
        ensures
            match r {
                Some(i) => is_entry(self.entries@, key_text(*key), i as int) && entry_at(
                    self.entries@,
                    key_text(*key),
                ) == i,
                None => !entry_for(self.entries@, key_text(*key)),
            },
    {
        proof {
            use_type_invariant(self);
        }
        let n: usize = self.entries.len();
        for i in 0..n
            invariant
                n == self.entries.len(),
                self.keys_differ(),
                forall|j: int| 0 <= j < i ==> !is_entry(self.entries@, key_text(*key), j),
        {
            if self.entries[i].key.same(key) {
                assert(is_entry(self.entries@, key_text(*key), i as int));
                proof {
                    let c = entry_at(self.entries@, key_text(*key));
                    assert(is_entry(self.entries@, key_text(*key), c));
                    assert(key_text(self.entries@[c].key) == key_text(self.entries@[i as int].key));
                }
                return Some(i);
            }
        }
        None
    }

    /// The item that a key stands for.
    pub fn get(&self, key: &ItemKey) -> (r: Option<ItemId>)
        ensures
            r == if self@.contains_key(key_text(*key)) {
                Some(self@[key_text(*key)])
            } else {
                None
            },
    {
        match self.find(key) {
            Some(i) => Some(self.entries[i].id),
            None => None,
        }
    }

    /// Forgets a key. Returns the item that it stood for.
    pub fn remove(&mut self, key: &ItemKey) -> (r: Option<ItemId>)
        ensures
            r == if old(self)@.contains_key(key_text(*key)) {
                Some(old(self)@[key_text(*key)])
            } else {
                None
            },
            final(self)@ == old(self)@.remove(key_text(*key)),
    {
        let found = self.find(key);
        let ghost before = *self;
        proof {
            use_type_invariant(&*self);
        }
        match found {
            None => {
                assert(self@ =~= before@.remove(key_text(*key)));
                None
            },
            Some(i) => {
                let mut entries: Vec<CatalogEntry> = Vec::new();
                let n: usize = self.entries.len();
                let id: ItemId = self.entries[i].id;
                for j in 0..n
                    invariant
                        n == self.entries.len(),
                        i < n,
                        entries.len() == if j <= i {
                            j as int
                        } else {
                            j - 1
                        },
                        forall|x: int|
                            0 <= x < entries.len() ==> #[trigger] entries@[x] == self.entries@[if x < i {
                                x
                            } else {
                                x + 1
                            }],
                {
                    if j != i {
                        entries.push(
                            CatalogEntry { key: self.entries[j].key.clone(), id: self.entries[j].id },
                        );
                    }
                }
                let ghost now = entries@;
                proof {
                    assert forall|a: int, b: int|
                        0 <= a < now.len() && 0 <= b < now.len() && key_text(
                            (#[trigger] now[a]).key,
                        ) == key_text((#[trigger] now[b]).key) implies a == b by {
                        let a2 = if a < i {
                            a
                        } else {
                            a + 1
                        };
                        let b2 = if b < i {
                            b
                        } else {
                            b + 1
                        };
                        assert(now[a] == before.entries@[a2] && now[b] == before.entries@[b2]);
                    }
                }
                *self = Catalog { entries };
                proof {
                    lemma_removed(before.entries@, now, i as int, key_text(*key));
                    assert(self@ =~= before@.remove(key_text(*key)));
                }
                Some(id)
            },
        }
    }

    /// Makes a key stand for an item.
    pub fn insert(&mut self, key: ItemKey, id: ItemId)
        ensures
            final(self)@ == old(self)@.insert(key_text(key), id),
    {
        let ghost before = *self;
        let ghost k = key_text(key);
        self.remove(&key);
        let ghost mid = *self;
        proof {
            use_type_invariant(&*self);
            assert(!mid@.contains_key(k));
            assert(!entry_for(mid.entries@, k));
        }
        let mut entries: Vec<CatalogEntry> = Vec::new();
        let n: usize = self.entries.len();
        for j in 0..n
            invariant
                n == self.entries.len(),
                entries.len() == j,
                forall|x: int| 0 <= x < j ==> #[trigger] entries@[x] == self.entries@[x],
        {
            entries.push(CatalogEntry { key: self.entries[j].key.clone(), id: self.entries[j].id });
        }
        entries.push(CatalogEntry { key, id });
        let ghost now = entries@;
        proof {
            assert forall|a: int, b: int|
                0 <= a < now.len() && 0 <= b < now.len() && key_text((#[trigger] now[a]).key)
                    == key_text((#[trigger] now[b]).key) implies a == b by {
                if a < n && b < n {
                    assert(now[a] == mid.entries@[a] && now[b] == mid.entries@[b]);
                } else if a < n {
                    assert(now[a] == mid.entries@[a]);
                    assert(is_entry(mid.entries@, k, a));
                } else if b < n {
                    assert(now[b] == mid.entries@[b]);
                    assert(is_entry(mid.entries@, k, b));
                }
            }
        }
        *self = Catalog { entries };
        proof {
            lemma_pushed(mid.entries@, now, k);
            assert(self@ =~= mid@.insert(k, id));
            assert(mid@.insert(k, id) =~= before@.insert(k, id));
        }
    }
}

spec fn differ(entries: Seq<CatalogEntry>) -> bool {
    forall|i: int, j: int|
        0 <= i < entries.len() && 0 <= j < entries.len() && key_text((#[trigger] entries[i]).key)
            == key_text((#[trigger] entries[j]).key) ==> i == j
}

proof fn lemma_removed(a: Seq<CatalogEntry>, b: Seq<CatalogEntry>, i: int, k: (bool, Seq<char>))
    requires
        differ(a),
        differ(b),
        is_entry(a, k, i),
        b.len() == a.len() - 1,
        forall|x: int|
            0 <= x < b.len() ==> #[trigger] b[x] == a[if x < i {
                x
            } else {
                x + 1
            }],
    ensures
        forall|q: (bool, Seq<char>)| #[trigger] entry_for(b, q) <==> entry_for(a, q) && q != k,
        forall|q: (bool, Seq<char>)| #[trigger]
            entry_for(b, q) ==> b[entry_at(b, q)].id == a[entry_at(a, q)].id,
{
    assert forall|q: (bool, Seq<char>)| true implies (#[trigger] entry_for(b, q) <==> entry_for(a, q)
        && q != k) && (entry_for(b, q) ==> b[entry_at(b, q)].id == a[entry_at(a, q)].id) by {
        if entry_for(b, q) {
            let x = entry_at(b, q);
            assert(is_entry(b, q, x));
            let y = if x < i {
                x
            } else {
                x + 1
            };
            assert(b[x] == a[y]);
            assert(is_entry(a, q, y));
            assert(is_entry(a, q, entry_at(a, q)));
            assert(entry_at(a, q) == y);
            if q == k {
                assert(a[y].key == a[y].key && key_text(a[i].key) == key_text(a[y].key));
            }
        }
        if entry_for(a, q) && q != k {
            let y = entry_at(a, q);
            assert(is_entry(a, q, y));
            let x = if y < i {
                y
            } else {
                y - 1
            };
            assert(b[x] == a[y]);
            assert(is_entry(b, q, x));
        }
    }
}

proof fn lemma_pushed(a: Seq<CatalogEntry>, b: Seq<CatalogEntry>, k: (bool, Seq<char>))
    requires
        differ(a),
        differ(b),
        !entry_for(a, k),
        b.len() == a.len() + 1,
        forall|x: int| 0 <= x < a.len() ==> #[trigger] b[x] == a[x],
        key_text(b.last().key) == k,
    ensures
        forall|q: (bool, Seq<char>)| #[trigger] entry_for(b, q) <==> entry_for(a, q) || q == k,
        forall|q: (bool, Seq<char>)| #[trigger]
            entry_for(b, q) ==> b[entry_at(b, q)].id == if q == k {
                b.last().id
            } else {
                a[entry_at(a, q)].id
            },
{
    assert(is_entry(b, k, a.len() as int));
    assert forall|q: (bool, Seq<char>)| true implies (#[trigger] entry_for(b, q) <==> entry_for(a, q)
        || q == k) && (entry_for(b, q) ==> b[entry_at(b, q)].id == if q == k {
        b.last().id
    } else {
        a[entry_at(a, q)].id
    }) by {
        if entry_for(b, q) {
            let x = entry_at(b, q);
            assert(is_entry(b, q, x));
            if q == k {
                assert(key_text(b[x].key) == key_text(b[a.len() as int].key));
            } else {
                assert(x < a.len());
                assert(b[x] == a[x]);
                assert(is_entry(a, q, x));
                let y = entry_at(a, q);
                assert(is_entry(a, q, y));
                assert(key_text(a[x].key) == key_text(a[y].key));
            }
        }
        if entry_for(a, q) {
            let y = entry_at(a, q);
            assert(is_entry(a, q, y));
            assert(b[y] == a[y]);
            assert(is_entry(b, q, y));
        }
    }
}

} // verus!
