//! Stable ordering of indices by an integer key.

use vstd::prelude::*;

verus! {

/// Index `a` comes before index `b` when its key is smaller, or the keys are
/// equal and `a` is the smaller index (a stable order).
pub open spec fn key_before(keys: Seq<int>, a: int, b: int) -> bool {
    keys[a] < keys[b] || (keys[a] == keys[b] && a < b)
}

/// `o` lists the indices `0..keys.len()` in stable key order.
pub open spec fn is_stable_order(keys: Seq<int>, o: Seq<usize>) -> bool {
    &&& o.len() == keys.len()
    &&& forall|k: int| 0 <= k < o.len() ==> #[trigger] o[k] < keys.len()
    &&& forall|i: int, j: int|
        0 <= i < j < o.len() ==> key_before(keys, #[trigger] o[i] as int, #[trigger] o[j] as int)
}

/// The keys of an `i64` vector, as integers.
pub open spec fn int_keys(keys: Seq<i64>) -> Seq<int> {
    keys.map_values(|k: i64| k as int)
}

/// The stable key order of `keys`; unique by `lemma_stable_order_unique`.
pub open spec fn stable_order_of(keys: Seq<int>) -> Seq<usize> {
    choose|o: Seq<usize>| is_stable_order(keys, o)
}

/// A stable order holds every index exactly once.
pub proof fn lemma_stable_order_covers(keys: Seq<int>, o: Seq<usize>, v: int)
    requires
        is_stable_order(keys, o),
        0 <= v < keys.len(),
    ensures
        o.contains(v as usize),
{
    let m = o.map_values(|u: usize| u as int);
    assert(m.no_duplicates()) by {
        assert forall|i: int, j: int| 0 <= i < m.len() && 0 <= j < m.len() && i != j implies m[i]
            != m[j] by {
            if i < j {
                assert(key_before(keys, o[i] as int, o[j] as int));
            } else {
                assert(key_before(keys, o[j] as int, o[i] as int));
            }
        }
    }
    m.unique_seq_to_set();
    vstd::set_lib::lemma_int_range(0, keys.len() as int);
    let r = vstd::set_lib::set_int_range(0, keys.len() as int);
    assert(m.to_set().subset_of(r)) by {
        assert forall|x: int| m.to_set().contains(x) implies r.contains(x) by {
            let k = choose|k: int| 0 <= k < m.len() && m[k] == x;
            assert(o[k] < keys.len());
        }
    }
    vstd::seq_lib::seq_to_set_is_finite(m);
    vstd::set_lib::lemma_subset_equality(m.to_set(), r);
    assert(r.contains(v));
    assert(m.to_set().contains(v));
    let k = choose|k: int| 0 <= k < m.len() && m[k] == v;
    assert(o[k] == v as usize);
}

/// Two stable orders of the same keys are equal.
pub proof fn lemma_stable_order_unique(keys: Seq<int>, o1: Seq<usize>, o2: Seq<usize>)
    requires
        is_stable_order(keys, o1),
        is_stable_order(keys, o2),
    ensures
        o1 == o2,
{
    assert forall|k: int| 0 <= k < o1.len() implies o1[k] == o2[k] by {
        lemma_same_at(keys, o1, o2, k);
    }
    assert(o1 =~= o2);
}

proof fn lemma_same_at(keys: Seq<int>, o1: Seq<usize>, o2: Seq<usize>, k0: int)
    requires
        is_stable_order(keys, o1),
        is_stable_order(keys, o2),
        0 <= k0 < o1.len(),
    ensures
        o1[k0] == o2[k0],
    decreases k0,
{
    assert forall|k: int| 0 <= k < k0 implies o1[k] == o2[k] by {
        lemma_same_at(keys, o1, o2, k);
    }
    let a = o1[k0];
    let b = o2[k0];
    if a != b {
        lemma_stable_order_covers(keys, o2, a as int);
        lemma_stable_order_covers(keys, o1, b as int);
        let j2 = choose|j: int| 0 <= j < o2.len() && o2[j] == a;
        let j1 = choose|j: int| 0 <= j < o1.len() && o1[j] == b;
        if j2 < k0 {
            assert(o1[j2] == a);
            assert(key_before(keys, o1[j2] as int, o1[k0] as int));
        } else if j1 < k0 {
            assert(o2[j1] == b);
            assert(key_before(keys, o2[j1] as int, o2[k0] as int));
        } else {
            assert(key_before(keys, o2[k0] as int, o2[j2] as int));
            assert(key_before(keys, o1[k0] as int, o1[j1] as int));
        }
    }
}

/// A stable order of `keys` exists and is `stable_order_of(keys)`.
pub proof fn lemma_stable_order_is_chosen(keys: Seq<int>, o: Seq<usize>)
    requires
        is_stable_order(keys, o),
    ensures
        stable_order_of(keys) == o,
{
    let c = stable_order_of(keys);
    assert(is_stable_order(keys, c));
    lemma_stable_order_unique(keys, c, o);
}

/// The indices of `keys` in stable order of their keys (insertion sort).
pub fn stable_order(keys: &Vec<i64>) -> (o: Vec<usize>)
    ensures
        is_stable_order(int_keys(keys@), o@),
        o@ == stable_order_of(int_keys(keys@)),
{
    let ghost ks = int_keys(keys@);
    let mut o: Vec<usize> = Vec::new();
    let n = keys.len();
    let mut i: usize = 0;
    while i < n
        invariant
            n == keys.len(),
            ks == int_keys(keys@),
            i <= n,
            o.len() == i,
            forall|k: int| 0 <= k < o.len() ==> #[trigger] o@[k] < i,
            forall|a: int, b: int|
                0 <= a < b < o.len() ==> key_before(ks, #[trigger] o@[a] as int, #[trigger] o@[b] as int),
        decreases n - i,
    {
        let ki = keys[i];
        let mut p = o.len();
        while p > 0 && keys[o[p - 1]] > ki
            invariant
                n == keys.len(),
                ks == int_keys(keys@),
                i < n,
                ki == keys@[i as int],
                o.len() == i,
                p <= o.len(),
                forall|k: int| 0 <= k < o.len() ==> #[trigger] o@[k] < i,
                forall|k: int| p <= k < o.len() ==> keys@[#[trigger] o@[k] as int] > ki,
            decreases p,
        {
            p = p - 1;
        }
        let ghost old_o = o@;
        proof {
            assert forall|k: int| 0 <= k < p implies keys@[#[trigger] old_o[k] as int] <= ki by {
                if k < p - 1 {
                    assert(key_before(ks, old_o[k] as int, old_o[p - 1] as int));
                }
            }
        }
        o.insert(p, i);
        proof {
            assert forall|k: int| 0 <= k < o.len() implies #[trigger] o@[k] < i + 1 by {
                if k < p {
                    assert(o@[k] == old_o[k]);
                } else if k > p {
                    assert(o@[k] == old_o[k - 1]);
                }
            }
            assert forall|a: int, b: int| 0 <= a < b < o.len() implies key_before(
                ks,
                #[trigger] o@[a] as int,
                #[trigger] o@[b] as int,
            ) by {
                if a < p && b < p {
                    assert(o@[a] == old_o[a] && o@[b] == old_o[b]);
                } else if a < p && b == p {
                    assert(o@[a] == old_o[a]);
                    assert(keys@[old_o[a] as int] <= ki);
                } else if a < p && b > p {
                    assert(o@[a] == old_o[a] && o@[b] == old_o[b - 1]);
                } else if a == p {
                    assert(o@[b] == old_o[b - 1]);
                    assert(keys@[old_o[b - 1] as int] > ki);
                } else {
                    assert(o@[a] == old_o[a - 1] && o@[b] == old_o[b - 1]);
                }
            }
        }
        i = i + 1;
    }
    proof {
        lemma_stable_order_is_chosen(ks, o@);
    }
    o
}

} // verus!
