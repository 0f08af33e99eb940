//! Stable ordering by a numeric key: the order `sort_by` gives when it
//! compares keys, largest first, keeping equal keys in their original order.

use vstd::prelude::*;

verus! {

/// Item `a` comes before item `b`: a larger key, or an equal key and an
/// earlier position.
pub open spec fn ranks_before(keys: Seq<i128>, a: int, b: int) -> bool {
    keys[a] > keys[b] || (keys[a] == keys[b] && a < b)
}

/// `order` lists every position of `keys` once, largest key first, equal
/// keys in their original order.
pub open spec fn is_ranking(keys: Seq<i128>, order: Seq<usize>) -> bool {
    &&& order.len() == keys.len()
    &&& forall|i: int| 0 <= i < order.len() ==> (#[trigger] order[i]) < keys.len()
    &&& forall|i: int, j: int|
        0 <= i < j < order.len() ==> ranks_before(keys, #[trigger] order[i] as int, #[trigger] order[j] as int)
    &&& forall|k: usize| k < keys.len() ==> #[trigger] order.contains(k)
}

/// The positions of `keys`, largest key first; ties keep their order.
pub fn stable_rank_desc(keys: &Vec<i128>) -> (r: Vec<usize>)
    ensures
        is_ranking(keys@, r@),
{
    let mut r: Vec<usize> = Vec::new();
    let mut i: usize = 0;
    while i < keys.len()
        invariant
            i <= keys.len(),
            r@.len() == i,
            forall|q: int| 0 <= q < r@.len() ==> (#[trigger] r@[q]) < i,
            forall|a: int, b: int|
                0 <= a < b < r@.len() ==> ranks_before(keys@, #[trigger] r@[a] as int, #[trigger] r@[b] as int),
            forall|k: usize| k < i ==> #[trigger] r@.contains(k),
        decreases keys.len() - i,
    {
        let mut p: usize = 0;
        while p < r.len() && keys[r[p]] >= keys[i]
            invariant
                p <= r@.len(),
                i < keys.len(),
                forall|q: int| 0 <= q < r@.len() ==> (#[trigger] r@[q]) < i,
                forall|q: int| 0 <= q < p ==> keys@[#[trigger] r@[q] as int] >= keys@[i as int],
            decreases r@.len() - p,
        {
            p += 1;
        }
        let ghost old_r = r@;
        r.insert(p, i);
        proof {
            assert(r@ == old_r.insert(p as int, i));
            assert forall|a: int, b: int| 0 <= a < b < r@.len() implies ranks_before(
                keys@,
                #[trigger] r@[a] as int,
                #[trigger] r@[b] as int,
            ) by {
                if b < p {
                    assert(r@[a] == old_r[a] && r@[b] == old_r[b]);
                } else if b == p {
                    assert(r@[a] == old_r[a]);
                    assert(keys@[old_r[a] as int] >= keys@[i as int]);
                } else if a < p {
                    assert(r@[a] == old_r[a] && r@[b] == old_r[b - 1]);
                } else if a == p {
                    assert(r@[b] == old_r[b - 1]);
                    assert(keys@[old_r[p as int] as int] < keys@[i as int]);
                    if b - 1 > p {
                        assert(ranks_before(keys@, old_r[p as int] as int, old_r[b - 1] as int));
                    }
                } else {
                    assert(r@[a] == old_r[a - 1] && r@[b] == old_r[b - 1]);
                }
            }
            assert forall|k: usize| k < i + 1 implies #[trigger] r@.contains(k) by {
                if k == i {
                    assert(r@[p as int] == i);
                } else {
                    assert(old_r.contains(k));
                    let q = choose|q: int| 0 <= q < old_r.len() && old_r[q] == k;
                    if q < p {
                        assert(r@[q] == k);
                    } else {
                        assert(r@[q + 1] == k);
                    }
                }
            }
            assert forall|q: int| 0 <= q < r@.len() implies (#[trigger] r@[q]) < i + 1 by {
                if q < p {
                    assert(r@[q] == old_r[q]);
                } else if q > p {
                    assert(r@[q] == old_r[q - 1]);
                }
            }
        }
        i += 1;
    }
    r
}

} // verus!
