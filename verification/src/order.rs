//! Stable sorting by keys.

use vstd::prelude::*;

verus! {

/// A key by which things are listed.
pub trait Keyed: Sized {
    /// This key comes strictly before the other.
    spec fn before(self, other: Self) -> bool;

    /// Whether this key comes strictly before the other.
    fn comes_before(&self, other: &Self) -> (r: bool)
        ensures
            r == self.before(*other),
    ;

    /// `before` is transitive, and so is its opposite.
    proof fn ordered(x: Self, y: Self, z: Self)
        ensures
            x.before(y) && y.before(z) ==> x.before(z),
            x.before(z) ==> x.before(y) || y.before(z),
    ;
}

/// The thing at `i` is listed ahead of the thing at `j`: by its key, or, where neither key comes
/// first, by its position.
pub open spec fn ahead<K: Keyed>(keys: Seq<K>, i: int, j: int) -> bool {
    keys[i].before(keys[j]) || (!keys[j].before(keys[i]) && i < j)
}

/// `perm` lists every position once, in the order of the keys, ties in their old order.
pub open spec fn stable_order<K: Keyed>(keys: Seq<K>, perm: Seq<usize>) -> bool {
    &&& perm.len() == keys.len()
    &&& forall|a: int| 0 <= a < perm.len() ==> 0 <= #[trigger] perm[a] < keys.len()
    &&& perm.no_duplicates()
    &&& forall|a: int, b: int|
        0 <= a < b < perm.len() ==> ahead(keys, #[trigger] perm[a] as int, #[trigger] perm[b] as int)
}

/// The order in which things with these keys are listed.
pub fn sort_order<K: Keyed>(keys: &Vec<K>) -> (r: Vec<usize>)
    ensures
        stable_order(keys@, r@),
{
    let mut perm: Vec<usize> = Vec::new();
    let n: usize = keys.len();
    for i in 0..n
        invariant
            n == keys.len(),
            perm.len() == i,
            forall|a: int| 0 <= a < i ==> 0 <= #[trigger] perm@[a] < i,
            perm@.no_duplicates(),
            forall|a: int, b: int|
                0 <= a < b < i ==> ahead(
                    keys@,
                    #[trigger] perm@[a] as int,
                    #[trigger] perm@[b] as int,
                ),
    {
        let mut p: usize = 0;
        while p < i && !keys[i].comes_before(&keys[perm[p]])
            invariant
                n == keys.len(),
                i < n,
                p <= i,
                perm.len() == i,
                forall|a: int| 0 <= a < i ==> 0 <= #[trigger] perm@[a] < i,
                forall|a: int|
                    0 <= a < p ==> !keys@[i as int].before(keys@[#[trigger] perm@[a] as int]),
            decreases i - p,
        {
            p = p + 1;
        }
        let ghost old_perm = perm@;
        perm.insert(p, i);
        proof {
            let now = perm@;
            assert(now == old_perm.insert(p as int, i));
            if p < i {
                assert forall|b: int| p <= b < i implies keys@[i as int].before(
                    keys@[#[trigger] old_perm[b] as int],
                ) by {
                    let (x, y, z) = (
                        keys@[i as int],
                        keys@[old_perm[p as int] as int],
                        keys@[old_perm[b] as int],
                    );
                    if b > p {
                        assert(ahead(keys@, old_perm[p as int] as int, old_perm[b] as int));
                        K::ordered(x, y, z);
                        K::ordered(x, z, y);
                    }
                }
            }
            assert forall|a: int, b: int| 0 <= a < b < i + 1 implies ahead(
                keys@,
                #[trigger] now[a] as int,
                #[trigger] now[b] as int,
            ) by {
                let a2 = if a < p {
                    a
                } else {
                    a - 1
                };
                let b2 = if b < p {
                    b
                } else {
                    b - 1
                };
                if a == p {
                    assert(now[b] == old_perm[b2]);
                } else if b == p {
                    assert(now[a] == old_perm[a2]);
                    assert(0 <= old_perm[a2] < i);
                } else {
                    assert(now[a] == old_perm[a2] && now[b] == old_perm[b2]);
                }
            }
            assert forall|a: int| 0 <= a < i + 1 implies 0 <= #[trigger] now[a] < i + 1 by {
                if a < p {
                    assert(now[a] == old_perm[a]);
                } else if a > p {
                    assert(now[a] == old_perm[a - 1]);
                }
            }
            assert forall|a: int, b: int| 0 <= a < now.len() && 0 <= b < now.len() && a != b implies
                now[a] != now[b] by {
                let a2 = if a < p {
                    a
                } else {
                    a - 1
                };
                let b2 = if b < p {
                    b
                } else {
                    b - 1
                };
                if a != p {
                    assert(now[a] == old_perm[a2]);
                }
                if b != p {
                    assert(now[b] == old_perm[b2]);
                }
            }
        }
    }
    perm
}

/// Every position is listed.
pub proof fn every_position_is_listed<K: Keyed>(keys: Seq<K>, perm: Seq<usize>, i: usize)
    requires
        stable_order(keys, perm),
        i < keys.len(),
    ensures
        perm.contains(i),
{
    lemma_all_covered(perm, keys.len() as int, i);
}

/// A list of `n` different numbers below `n` has all of them.
pub(crate) proof fn lemma_all_covered(perm: Seq<usize>, n: int, i: usize)
    requires
        perm.len() == n,
        perm.no_duplicates(),
        forall|a: int| 0 <= a < n ==> 0 <= #[trigger] perm[a] < n,
        0 <= i < n,
    ensures
        perm.contains(i),
{
    let all = Set::new(|x: usize| x < n);
    let have = perm.to_set();
    vstd::seq_lib::seq_to_set_is_finite(perm);
    perm.unique_seq_to_set();
    lemma_below((usize::MAX + 1) as nat);
    vstd::set_lib::lemma_len_subset(have, Set::new(|x: usize| x < (usize::MAX + 1) as nat));
    lemma_below(n as nat);
    assert(have.subset_of(all)) by {
        assert forall|x: usize| have.contains(x) implies all.contains(x) by {
            let a = perm.index_of(x);
            assert(0 <= perm[a] < n);
        }
    }
    vstd::set_lib::lemma_subset_equality(have, all);
    assert(all.contains(i));
}

pub(crate) proof fn lemma_below(n: nat)
    requires
        n <= usize::MAX + 1,
    ensures
        Set::new(|x: usize| x < n).finite(),
        Set::new(|x: usize| x < n).len() == n,
    decreases n,
{
    let all = Set::new(|x: usize| x < n);
    if n == 0 {
        assert(all =~= Set::empty());
    } else {
        let m = (n - 1) as nat;
        lemma_below(m);
        let less = Set::new(|x: usize| x < m);
        assert(all =~= less.insert(m as usize));
    }
}

} // verus!
