use vstd::prelude::*;

verus! {

/// `order` lists every index of `sizes` once, largest size first; indices of equal sizes keep
/// the order in which they are given.
pub open spec fn is_size_order(sizes: Seq<u64>, order: Seq<usize>) -> bool {
    &&& order.len() == sizes.len()
    &&& forall|a: int| 0 <= a < order.len() ==> #[trigger] order[a] < sizes.len()
    &&& forall|a: int, b: int| 0 <= a < b < order.len() ==> order[a] != order[b]
    &&& forall|a: int, b: int|
        0 <= a < b < order.len() ==> sizes[order[a] as int] > sizes[order[b] as int] || (
        sizes[order[a] as int] == sizes[order[b] as int] && order[a] < order[b])
}

/// The order in which to show the groups whose first files have sizes `sizes`: largest first,
/// ties in the order in which they are given.
pub fn size_order(sizes: &Vec<u64>) -> (order: Vec<usize>)
    ensures
        is_size_order(sizes@, order@),
{
    let n = sizes.len();
    let mut order: Vec<usize> = Vec::new();
    let mut i: usize = 0;
    while i < n
        invariant
            n == sizes.len(),
            i <= n,
            order.len() == i,
            forall|a: int| 0 <= a < order.len() ==> #[trigger] order@[a] < i,
            forall|a: int, b: int| 0 <= a < b < order.len() ==> order@[a] != order@[b],
            forall|a: int, b: int|
                0 <= a < b < order.len() ==> sizes@[order@[a] as int] > sizes@[order@[b] as int] || (
                sizes@[order@[a] as int] == sizes@[order@[b] as int] && order@[a] < order@[b]),
        decreases n - i,
    {
        let s = sizes[i];
        let mut pos: usize = 0;
        while pos < order.len() && sizes[order[pos]] >= s
            invariant
                n == sizes.len(),
                i < n,
                s == sizes@[i as int],
                pos <= order.len(),
                forall|a: int| 0 <= a < order.len() ==> #[trigger] order@[a] < i,
                forall|a: int| 0 <= a < pos ==> sizes@[#[trigger] order@[a] as int] >= s,
            decreases order.len() - pos,
        {
            pos = pos + 1;
        }
        let ghost prev = order@;
        proof {
            assert forall|a: int| pos <= a < prev.len() implies sizes@[#[trigger] prev[a] as int] < s by {
                if a > pos {
                    assert(sizes@[prev[pos as int] as int] >= sizes@[prev[a] as int]);
                }
            }
        }
        order.insert(pos, i);
        proof {
            assert(order@ =~= prev.take(pos as int).push(i).add(prev.skip(pos as int)));
            assert forall|a: int| 0 <= a < order.len() implies #[trigger] order@[a] < i + 1 by {
                if a < pos {
                    assert(order@[a] == prev[a]);
                } else if a > pos {
                    assert(order@[a] == prev[a - 1]);
                }
            }
            assert forall|a: int, b: int| 0 <= a < b < order.len() implies order@[a] != order@[b] by {
                if a < pos && b > pos {
                    assert(order@[b] == prev[b - 1]);
                } else if a > pos {
                    assert(order@[a] == prev[a - 1]);
                    assert(order@[b] == prev[b - 1]);
                } else if b == pos {
                    assert(order@[a] == prev[a]);
                }
            }
            assert forall|a: int, b: int| 0 <= a < b < order.len() implies sizes@[order@[a] as int]
                > sizes@[order@[b] as int] || (sizes@[order@[a] as int] == sizes@[order@[b] as int]
                && order@[a] < order@[b]) by {
                if b < pos {
                    assert(order@[a] == prev[a] && order@[b] == prev[b]);
                } else if b == pos {
                    assert(order@[a] == prev[a]);
                } else if a < pos {
                    assert(order@[a] == prev[a] && order@[b] == prev[b - 1]);
                } else if a == pos {
                    assert(order@[b] == prev[b - 1]);
                } else {
                    assert(order@[a] == prev[a - 1] && order@[b] == prev[b - 1]);
                }
            }
        }
        i = i + 1;
    }
    order
}

/// The duplicate groups, reordered so that the groups whose first file is largest come first;
/// groups with first files of equal size keep their order. `first_file_sizes[i]` is the size
/// of the first file of `groups[i]`.
pub fn sort_duplicates_by_size<T>(groups: Vec<T>, first_file_sizes: &Vec<u64>) -> (sorted: Vec<T>)
    requires
        groups.len() == first_file_sizes.len(),
    ensures
        exists|order: Seq<usize>| #[trigger] is_size_order(first_file_sizes@, order)
            && sorted@.len() == groups@.len()
            && forall|a: int| 0 <= a < order.len() ==> sorted@[a] == groups@[#[trigger] order[a] as int],
{
    let order = size_order(first_file_sizes);
    let ghost g = groups@;
    let mut slots: Vec<Option<T>> = Vec::new();
    let mut n: usize = 0;
    assert(g.len() == groups.len());
    for x in it: groups.into_iter()
        invariant
            it.seq() == g,
            n == it.index(),
            n <= g.len(),
            g.len() <= usize::MAX,
            slots.len() == n,
            forall|j: int| 0 <= j < n ==> #[trigger] slots@[j] == Some(g[j]),
    {
        slots.push(Some(x));
        n = n + 1;
    }
    let mut sorted: Vec<T> = Vec::new();
    let mut k: usize = 0;
    while k < order.len()
        invariant
            is_size_order(first_file_sizes@, order@),
            g.len() == first_file_sizes@.len(),
            slots.len() == g.len(),
            k <= order.len(),
            sorted.len() == k,
            forall|a: int| 0 <= a < k ==> sorted@[a] == g[#[trigger] order@[a] as int],
            forall|j: int| 0 <= j < g.len() ==> (#[trigger] slots@[j] == Some(g[j])) || exists|a: int|
                0 <= a < k && order@[a] == j,
            forall|a: int| k <= a < order.len() ==> slots@[#[trigger] order@[a] as int] == Some(g[order@[a] as int]),
        decreases order.len() - k,
    {
        let idx = order[k];
        let ghost prev = slots@;
        let taken = slots[idx].take();
        assert(slots@ =~= prev.update(idx as int, None));
        match taken {
            Some(x) => {
                sorted.push(x);
            },
            None => {
                assert(false);
            },
        }
        proof {
            assert forall|a: int| k + 1 <= a < order.len() implies slots@[#[trigger] order@[a] as int]
                == Some(g[order@[a] as int]) by {
                assert(order@[a] != order@[k as int]);
            }
            assert forall|j: int| 0 <= j < g.len() implies (#[trigger] slots@[j] == Some(g[j])) || exists|a: int|
                0 <= a < k + 1 && order@[a] == j by {
                if j == idx as int {
                    assert(order@[k as int] == j);
                } else {
                    assert(slots@[j] == prev[j]);
                }
            }
        }
        k = k + 1;
    }
    sorted
}

} // verus!
