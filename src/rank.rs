//! Stable ordering of positions by descending key.
use vstd::prelude::*;

verus! {

/// Position `a` comes before position `b`: a larger key first, and between
/// equal keys the earlier position first.
pub open spec fn ranks_before(keys: Seq<u64>, a: int, b: int) -> bool {
    keys[a] > keys[b] || (keys[a] == keys[b] && a < b)
}

/// `o` lists every position of `keys` by descending key, equal keys in their
/// order of position (there is exactly one such `o`: see
/// `lemma_stable_desc_order_unique`).
pub open spec fn is_stable_desc_order(keys: Seq<u64>, o: Seq<usize>) -> bool {
    &&& o.len() == keys.len()
    &&& forall|i: int| 0 <= i < o.len() ==> #[trigger] o[i] < keys.len()
    &&& forall|x: usize| x < keys.len() ==> #[trigger] o.contains(x)
    &&& forall|i: int, j: int|
        0 <= i < j < o.len() ==> ranks_before(keys, #[trigger] o[i] as int, #[trigger] o[j] as int)
}

/// The order of positions by descending key is unique.
pub proof fn lemma_stable_desc_order_unique(keys: Seq<u64>, o1: Seq<usize>, o2: Seq<usize>)
    requires
        is_stable_desc_order(keys, o1),
        is_stable_desc_order(keys, o2),
    ensures
        o1 == o2,
{
    assert forall|i: int| 0 <= i < o1.len() implies o1[i] == o2[i] by {
        lemma_same_at(keys, o1, o2, i);
    }
    assert(o1 =~= o2);
}

proof fn lemma_same_at(keys: Seq<u64>, o1: Seq<usize>, o2: Seq<usize>, i: int)
    requires
        is_stable_desc_order(keys, o1),
        is_stable_desc_order(keys, o2),
        0 <= i < o1.len(),
    ensures
        o1[i] == o2[i],
    decreases i,
{
    let x = o1[i];
    let y = o2[i];
    if x != y {
        assert(o1.contains(y));
        assert(o2.contains(x));
        let m1 = choose|m: int| 0 <= m < o1.len() && o1[m] == y;
        let m2 = choose|m: int| 0 <= m < o2.len() && o2[m] == x;
        if m1 < i {
            lemma_same_at(keys, o1, o2, m1);
            assert(ranks_before(keys, o2[m1] as int, o2[i] as int));
        }
        if m2 < i {
            lemma_same_at(keys, o1, o2, m2);
            assert(ranks_before(keys, o1[m2] as int, o1[i] as int));
        }
        assert(ranks_before(keys, o1[i] as int, o1[m1] as int));
        assert(ranks_before(keys, o2[i] as int, o2[m2] as int));
    }
}

/// Returns the positions of `keys` ordered by descending key; equal keys
/// keep their order of position.
pub fn order_desc(keys: &Vec<u64>) -> (r: Vec<usize>)
    ensures
        is_stable_desc_order(keys@, r@),
        forall|i: int, j: int| 0 <= i < j < r@.len() ==> keys@[#[trigger] r@[i] as int] >= keys@[#[trigger] r@[j] as int],
{
    let n = keys.len();
    let mut o: Vec<usize> = Vec::new();
    let mut k: usize = 0;
    while k < n
        invariant
            n == keys@.len(),
            k <= n,
            o@.len() == k,
            forall|i: int| 0 <= i < o@.len() ==> #[trigger] o@[i] < k,
            forall|x: usize| x < k ==> #[trigger] o@.contains(x),
            forall|i: int, j: int|
                0 <= i < j < o@.len() ==> ranks_before(keys@, #[trigger] o@[i] as int, #[trigger] o@[j] as int),
        decreases n - k,
    {
        let v = keys[k];
        let mut p: usize = 0;
        while p < o.len()
            invariant
                p <= o@.len(),
                o@.len() == k,
                k < n,
                n == keys@.len(),
                forall|i: int| 0 <= i < o@.len() ==> #[trigger] o@[i] < k,
                forall|q: int| 0 <= q < p ==> keys@[#[trigger] o@[q] as int] >= v,
            ensures
                p <= o@.len(),
                forall|q: int| 0 <= q < p ==> keys@[#[trigger] o@[q] as int] >= v,
                p < o@.len() ==> keys@[o@[p as int] as int] < v,
            decreases o@.len() - p,
        {
            if keys[o[p]] < v {
                break;
            }
            p += 1;
        }
        let ghost old_o = o@;
        o.insert(p, k);
        assert(o@ == old_o.insert(p as int, k));
        assert forall|i: int, j: int| 0 <= i < j < o@.len() implies ranks_before(
            keys@,
            #[trigger] o@[i] as int,
            #[trigger] o@[j] as int,
        ) by {
            if j < p {
                assert(o@[i] == old_o[i] && o@[j] == old_o[j]);
            } else if j == p {
                assert(o@[i] == old_o[i]);
            } else if i == p {
                assert(o@[j] == old_o[j - 1]);
                if p < j - 1 {
                    assert(ranks_before(keys@, old_o[p as int] as int, old_o[j - 1] as int));
                }
            } else if i < p {
                assert(o@[i] == old_o[i] && o@[j] == old_o[j - 1]);
            } else {
                assert(o@[i] == old_o[i - 1] && o@[j] == old_o[j - 1]);
            }
        }
        assert forall|x: usize| x < k + 1 implies #[trigger] o@.contains(x) by {
            if x < k {
                assert(old_o.contains(x));
                let m = choose|m: int| 0 <= m < old_o.len() && old_o[m] == x;
                if m < p {
                    assert(o@[m] == x);
                } else {
                    assert(o@[m + 1] == x);
                }
            } else {
                assert(o@[p as int] == x);
            }
        }
        assert forall|i: int| 0 <= i < o@.len() implies #[trigger] o@[i] < k + 1 by {
            if i < p {
                assert(o@[i] == old_o[i]);
            } else if i > p {
                assert(o@[i] == old_o[i - 1]);
            }
        }
        k += 1;
    }
    o
}

} // verus!
