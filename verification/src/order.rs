use vstd::prelude::*;

verus! {

/// File `a` of a set comes before file `b`: it is older, or as old and
/// earlier in the set.
pub open spec fn comes_before(mtimes: Seq<u64>, a: usize, b: usize) -> bool {
    mtimes[a as int] < mtimes[b as int] || (mtimes[a as int] == mtimes[b as int] && a < b)
}

/// `order` lists every position of `mtimes` once, oldest first, and files of
/// equal age in their original order: what a stable sort by modification
/// time yields.
pub open spec fn is_oldest_first(mtimes: Seq<u64>, order: Seq<usize>) -> bool {
    &&& order.len() == mtimes.len()
    &&& forall|i: int| 0 <= i < order.len() ==> #[trigger] order[i] < mtimes.len()
    &&& forall|i: int, j: int|
        0 <= i < j < order.len() ==> comes_before(mtimes, #[trigger] order[i], #[trigger] order[j])
    &&& forall|p: usize| p < mtimes.len() ==> #[trigger] order.contains(p)
}

/// The positions of a set's files, oldest first (a stable sort by
/// modification time). The first one is the file that is kept; the others
/// are moved away, in this order.
pub fn oldest_first(mtimes: &Vec<u64>) -> (order: Vec<usize>)
    ensures
        is_oldest_first(mtimes@, order@),
{
    let n = mtimes.len();
    let mut order: Vec<usize> = Vec::new();
    let mut i: usize = 0;
    while i < n
        invariant
            n == mtimes@.len(),
            i <= n,
            order@.len() == i,
            forall|k: int| 0 <= k < order@.len() ==> #[trigger] order@[k] < i,
            forall|a: int, b: int|
                0 <= a < b < order@.len() ==> comes_before(
                    mtimes@,
                    #[trigger] order@[a],
                    #[trigger] order@[b],
                ),
            forall|p: usize| p < i ==> #[trigger] order@.contains(p),
        decreases n - i,
    {
        let mi = mtimes[i];
        let mut j: usize = 0;
        while j < order.len() && mtimes[order[j]] <= mi
            invariant
                n == mtimes@.len(),
                i < n,
                mi == mtimes@[i as int],
                j <= order@.len(),
                forall|k: int| 0 <= k < order@.len() ==> #[trigger] order@[k] < i,
                forall|k: int| 0 <= k < j ==> mtimes@[#[trigger] order@[k] as int] <= mi,
            decreases order@.len() - j,
        {
            j = j + 1;
        }
        let ghost old_order = order@;
        proof {
            assert forall|k: int| j <= k < old_order.len() implies mtimes@[#[trigger] old_order[k] as int] > mi by {
                if k > j {
                    assert(comes_before(mtimes@, old_order[j as int], old_order[k]));
                }
            }
        }
        order.insert(j, i);
        proof {
            assert(order@ == old_order.insert(j as int, i));
            assert forall|k: int| 0 <= k < order@.len() implies #[trigger] order@[k] < i + 1 by {
                if k < j {
                    assert(order@[k] == old_order[k]);
                } else if k > j {
                    assert(order@[k] == old_order[k - 1]);
                }
            }
            assert forall|a: int, b: int| 0 <= a < b < order@.len() implies comes_before(
                mtimes@,
                #[trigger] order@[a],
                #[trigger] order@[b],
            ) by {
                if b < j {
                    assert(order@[a] == old_order[a] && order@[b] == old_order[b]);
                } else if b == j {
                    assert(order@[a] == old_order[a]);
                } else if a < j {
                    assert(order@[a] == old_order[a] && order@[b] == old_order[b - 1]);
                } else if a == j {
                    assert(order@[b] == old_order[b - 1]);
                } else {
                    assert(order@[a] == old_order[a - 1] && order@[b] == old_order[b - 1]);
                }
            }
            assert forall|p: usize| p < i + 1 implies #[trigger] order@.contains(p) by {
                if p == i {
                    assert(order@[j as int] == i);
                } else {
                    assert(old_order.contains(p));
                    let w = choose|w: int| 0 <= w < old_order.len() && old_order[w] == p;
                    if w < j {
                        assert(order@[w] == p);
                    } else {
                        assert(order@[w + 1] == p);
                    }
                }
            }
        }
        i = i + 1;
    }
    order
}

/// The file kept of a set is its oldest one; of several equally old ones, the
/// one that comes first in the set.
pub proof fn lemma_kept_file_is_oldest(mtimes: Seq<u64>, order: Seq<usize>, p: usize)
    requires
        is_oldest_first(mtimes, order),
        p < mtimes.len(),
    ensures
        mtimes[order[0] as int] <= mtimes[p as int],
        mtimes[order[0] as int] == mtimes[p as int] ==> order[0] <= p,
{
    assert(order.contains(p));
    let w = choose|w: int| 0 <= w < order.len() && order[w] == p;
    if w > 0 {
        assert(comes_before(mtimes, order[0], order[w]));
    }
}

} // verus!
