//! Stable sorting by integer keys.
use vstd::prelude::*;
use vstd::relations::{sorted_by, total_ordering};

verus! {

/// A key of three components, the first of which weighs most.
#[derive(Debug, Clone, Copy)]
pub struct SortKey {
    pub major: i128,
    pub middle: i128,
    pub minor: i128,
}

/// `a` comes strictly before `b`.
pub open spec fn key_lt(a: SortKey, b: SortKey) -> bool {
    ||| a.major < b.major
    ||| a.major == b.major && a.middle < b.middle
    ||| a.major == b.major && a.middle == b.middle && a.minor < b.minor
}

/// The key at index `i`.
pub open spec fn key_at(keys: Seq<SortKey>, i: int) -> SortKey {
    if 0 <= i < keys.len() {
        keys[i]
    } else {
        SortKey { major: 0, middle: 0, minor: 0 }
    }
}

/// The order of indices by their keys; equal keys keep the order they have.
pub open spec fn by_key(keys: Seq<SortKey>) -> spec_fn(int, int) -> bool {
    |i: int, j: int|
        key_lt(key_at(keys, i), key_at(keys, j)) || (key_at(keys, i) == key_at(keys, j) && i <= j)
}

/// The indices `0..n`.
pub open spec fn indices(n: nat) -> Seq<int> {
    Seq::new(n, |i: int| i)
}

/// The indices of `keys` in the order of their keys, equal keys in the order
/// they have.
pub open spec fn sorted_indices(keys: Seq<SortKey>) -> Seq<int> {
    indices(keys.len()).sort_by(by_key(keys))
}

/// The order of indices is total.
proof fn lemma_by_key_total(keys: Seq<SortKey>)
    ensures
        total_ordering(by_key(keys)),
{
}

/// Sorting rearranges the indices and puts them in order.
pub proof fn lemma_sorted_indices(keys: Seq<SortKey>)
    ensures
        sorted_indices(keys).to_multiset() == indices(keys.len()).to_multiset(),
        sorted_by(sorted_indices(keys), by_key(keys)),
        sorted_indices(keys).len() == keys.len(),
        forall|p: int|
            0 <= p < keys.len() ==> 0 <= #[trigger] sorted_indices(keys)[p] < keys.len(),
        forall|i: int| 0 <= i < keys.len() ==> #[trigger] sorted_indices(keys).contains(i),
{
    let all = indices(keys.len());
    let s = sorted_indices(keys);
    lemma_by_key_total(keys);
    all.lemma_sort_by_ensures(by_key(keys));
    all.to_multiset_ensures();
    s.to_multiset_ensures();
    assert forall|p: int| 0 <= p < keys.len() implies 0 <= #[trigger] s[p] < keys.len() by {
        assert(s.contains(s[p]));
        assert(all.contains(s[p]));
    }
    assert forall|i: int| 0 <= i < keys.len() implies #[trigger] s.contains(i) by {
        assert(all[i] == i);
        assert(all.contains(i));
        assert(all.to_multiset().count(i) > 0);
    }
}

/// Sorting keeps every index once.
pub proof fn lemma_sorted_indices_distinct(keys: Seq<SortKey>)
    ensures
        forall|a: int, b: int|
            0 <= a < b < keys.len() ==> #[trigger] sorted_indices(keys)[a]
                != #[trigger] sorted_indices(keys)[b],
{
    lemma_sorted_indices(keys);
    let all = indices(keys.len());
    let s = sorted_indices(keys);
    assert forall|a: int, b: int| 0 <= a < b < all.len() implies all[a] != all[b] by {}
    assert(all.no_duplicates());
    all.lemma_multiset_has_no_duplicates();
    s.lemma_multiset_has_no_duplicates_conv();
}

/// The view of a list of indices.
pub open spec fn as_ints(v: Seq<usize>) -> Seq<int> {
    Seq::new(v.len(), |i: int| v[i] as int)
}

/// Whether `a` comes strictly before `b`.
fn is_less(a: &SortKey, b: &SortKey) -> (r: bool)
    ensures
        r == key_lt(*a, *b),
{
    a.major < b.major || (a.major == b.major && (a.middle < b.middle || (a.middle == b.middle
        && a.minor < b.minor)))
}

/// The indices of `keys` in stable order of their keys.
pub fn sort_indices(keys: &Vec<SortKey>) -> (v: Vec<usize>)
    ensures
        as_ints(v@) == sorted_indices(keys@),
        v@.len() == keys@.len(),
        forall|p: int| 0 <= p < v@.len() ==> (#[trigger] v@[p]) < keys@.len(),
{
    let mut v: Vec<usize> = Vec::new();
    let ghost leq = by_key(keys@);
    let mut i: usize = 0;
    assert(as_ints(v@) =~= indices(0));
    while i < keys.len()
        invariant
            i <= keys@.len(),
            leq == by_key(keys@),
            v@.len() == i,
            forall|p: int| 0 <= p < v@.len() ==> (#[trigger] v@[p]) < i,
            sorted_by(as_ints(v@), leq),
            as_ints(v@).to_multiset() == indices(i as nat).to_multiset(),
        decreases keys.len() - i,
    {
        let ghost before = as_ints(v@);
        let mut p: usize = v.len();
        while p > 0 && is_less(&keys[i], &keys[v[p - 1]])
            invariant
                p <= v@.len() == i,
                i < keys@.len(),
                leq == by_key(keys@),
                before == as_ints(v@),
                forall|q: int| 0 <= q < v@.len() ==> (#[trigger] v@[q]) < i,
                forall|q: int| p <= q < before.len() ==> leq(i as int, #[trigger] before[q]),
                sorted_by(before, leq),
            decreases p,
        {
            p = p - 1;
            assert(before[p as int] == v@[p as int]);
            assert(leq(i as int, before[p as int]));
        }
        assert forall|q: int| 0 <= q < p implies leq(#[trigger] before[q], i as int) by {
            assert(before[p - 1] == v@[p - 1]);
            assert(before[q] == v@[q]);
            if q < p - 1 {
                assert(leq(before[q], before[p - 1]));
            }
        }
        v.insert(p, i);
        proof {
            let after = as_ints(v@);
            assert(after =~= before.insert(p as int, i as int));
            assert forall|a: int, b: int| 0 <= a < b < after.len() implies #[trigger] leq(
                after[a],
                after[b],
            ) by {
                if a < p {
                    assert(after[a] == before[a]);
                } else if a > p {
                    assert(after[a] == before[a - 1]);
                }
                if b < p {
                    assert(after[b] == before[b]);
                } else if b > p {
                    assert(after[b] == before[b - 1]);
                }
                if a != p && b != p {
                    let pa = if a < p {
                        a
                    } else {
                        a - 1
                    };
                    let pb = if b < p {
                        b
                    } else {
                        b - 1
                    };
                    assert(leq(before[pa], before[pb]));
                }
            }
            broadcast use vstd::seq_lib::group_to_multiset_ensures;

            vstd::seq_lib::to_multiset_insert(before, p as int, i as int);
            assert(indices((i + 1) as nat) =~= indices(i as nat).push(i as int));
            vstd::seq_lib::to_multiset_build(indices(i as nat), i as int);
            assert(after.to_multiset() =~= indices((i + 1) as nat).to_multiset());
            assert forall|q: int| 0 <= q < v@.len() implies (#[trigger] v@[q]) < i + 1 by {
                assert(after[q] == v@[q]);
                if q < p {
                    assert(after[q] == before[q]);
                } else if q > p {
                    assert(after[q] == before[q - 1]);
                }
            }
        }
        i = i + 1;
    }
    proof {
        lemma_by_key_total(keys@);
        lemma_sorted_indices(keys@);
        vstd::seq_lib::lemma_sorted_unique(as_ints(v@), sorted_indices(keys@), leq);
    }
    v
}

/// Sorting is ascending and stable: of two places, the first holds the smaller
/// key, compared by its first component, then the second, then the third; equal
/// keys stay in the order they have.
pub proof fn law_sorting_is_stable(keys: Seq<SortKey>, a: int, b: int)
    requires
        0 <= a < b < keys.len(),
    ensures
        ({
            let i = sorted_indices(keys)[a];
            let j = sorted_indices(keys)[b];
            &&& 0 <= i < keys.len() && 0 <= j < keys.len() && i != j
            &&& keys[i].major <= keys[j].major
            &&& keys[i].major == keys[j].major ==> keys[i].middle <= keys[j].middle
            &&& keys[i].major == keys[j].major && keys[i].middle == keys[j].middle ==> keys[i].minor
                <= keys[j].minor
            &&& keys[i] == keys[j] ==> i < j
        }),
{
    lemma_sorted_indices(keys);
    lemma_sorted_indices_distinct(keys);
    assert(by_key(keys)(sorted_indices(keys)[a], sorted_indices(keys)[b]));
}

} // verus!
