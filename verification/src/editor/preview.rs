use vstd::prelude::*;

verus! {

broadcast use vstd::seq_lib::group_to_multiset_ensures;

/// The lists as sequences.
pub open spec fn lists(order: Seq<Vec<usize>>) -> Seq<Seq<usize>> {
    order.map_values(|v: Vec<usize>| v@)
}

/// `p` leads from `s` to `g`, each node followed by one of its successors in `order`.
pub open spec fn steps_along(order: Seq<Seq<usize>>, p: Seq<usize>, s: usize, g: usize) -> bool {
    &&& p.len() >= 1
    &&& p[0] == s
    &&& p.last() == g
    &&& forall|k: int| 0 <= k < p.len() ==> (#[trigger] p[k]) < order.len()
    &&& forall|k: int| 0 <= k < p.len() - 1 ==> #[trigger] order[p[k] as int].contains(p[k + 1])
}

pub open spec fn reachable(order: Seq<Seq<usize>>, s: usize, g: usize) -> bool {
    exists|p: Seq<usize>| #[trigger] steps_along(order, p, s, g)
}

/// The path that a depth-first search from `start` finds to `goal`, trying the successors
/// of each node in the order `order` lists them.
pub uninterp spec fn spec_dfs_path(order: Seq<Seq<usize>>, start: usize, goal: usize) -> Option<Seq<usize>>;

/// The successors of node `i`, as the search asks for them.
pub fn successors_of(order: &Vec<Vec<usize>>, i: usize) -> (r: Vec<usize>)
    ensures
        i < order@.len() ==> r@ == order@[i as int]@,
        i >= order@.len() ==> r@.len() == 0,
{
    if i < order.len() {
        order[i].clone()
    } else {
        Vec::new()
    }
}

/// Whether the search reached its goal.
pub fn is_node(node: &usize, goal: usize) -> (r: bool)
    ensures
        r == (*node == goal),
{
    *node == goal
}

/// Calls `pathfinding::directed::dfs::dfs` from `start`, trying the successors of node `i`
/// in the order `order[i]` lists them, until it reaches `goal`.
///
/// Claimed, as the crate documents: the result is a path from `start` to `goal` along
/// successors, with no node twice, and `None` only when no such path exists. Which path
/// it is depends on the order of the successors alone and is named `spec_dfs_path`.
#[verifier::external_body]
fn depth_first_path(order: &Vec<Vec<usize>>, start: usize, goal: usize) -> (r: Option<Vec<usize>>)
    requires
        start < order@.len(),
        forall|i: int, k: int|
            0 <= i < order@.len() && 0 <= k < order@[i]@.len() ==> #[trigger] order@[i]@[k]
                < order@.len(),
    ensures
        match r {
            Some(p) => {
                &&& spec_dfs_path(lists(order@), start, goal) == Some(p@)
                &&& steps_along(lists(order@), p@, start, goal)
                &&& p@.no_duplicates()
            },
            None => spec_dfs_path(lists(order@), start, goal) is None && !reachable(
                lists(order@),
                start,
                goal,
            ),
        },
{
    pathfinding::directed::dfs::dfs(start, |i: &usize| successors_of(order, *i), |i: &usize| is_node(i, goal))
}

/// Calls `slice::sort_unstable_by_key` with the first component as the key. Claimed, as
/// std documents: the same pairs come out, ordered by key; pairs with equal keys may come
/// out in any order.
#[verifier::external_body]
fn sort_by_distance(pairs: &mut Vec<(u32, usize)>)
    ensures
        final(pairs)@.to_multiset() == old(pairs)@.to_multiset(),
        forall|a: int, b: int| 0 <= a < b < final(pairs)@.len() ==> final(pairs)@[a].0 <= final(pairs)@[b].0,
{
    pairs.sort_unstable_by_key(|p| p.0)
}

/// `o` lists the nodes `1..n` nearest first by `key`: every one of them, nothing else.
pub open spec fn nearest_first(key: Seq<u32>, o: Seq<usize>, n: int) -> bool {
    &&& o.len() == n - 1
    &&& forall|k: int| 0 <= k < o.len() ==> 1 <= #[trigger] o[k] < n
    &&& forall|j: usize| 1 <= j < n ==> #[trigger] o.contains(j)
    &&& forall|a: int, b: int| 0 <= a < b < o.len() ==> key[o[a] as int] <= key[o[b] as int]
}

/// The nodes a preview path may step to from node `i`: every connection point and the
/// end (all nodes but the start, node 0), nearest first by the squared distances
/// `keys[i]` (in whole units).
pub fn successors_by_distance(keys: &Vec<Vec<u32>>, i: usize) -> (r: Vec<usize>)
    requires
        i < keys@.len(),
        keys@[i as int]@.len() == keys@.len(),
    ensures
        nearest_first(keys@[i as int]@, r@, keys@.len() as int),
{
    let n = keys.len();
    let row = &keys[i];
    let mut pairs: Vec<(u32, usize)> = Vec::new();
    let mut j: usize = 1;
    while j < n
        invariant
            n == keys@.len(),
            row@ == keys@[i as int]@,
            row@.len() == n,
            1 <= j <= n || n == 0,
            pairs@.len() == if n == 0 { 0 } else { j - 1 },
            forall|k: int| 0 <= k < pairs@.len() ==> #[trigger] pairs@[k] == (row@[k + 1], (k + 1) as usize),
        decreases n - j,
    {
        pairs.push((row[j], j));
        j = j + 1;
    }
    let ghost before = pairs@;
    sort_by_distance(&mut pairs);
    let ghost after = pairs@;
    proof {
        assert(after.len() == before.len()) by {
            assert(after.to_multiset().len() == before.to_multiset().len());
        }
        assert forall|k: int| 0 <= k < after.len() implies 1 <= (#[trigger] after[k]).1 < n && after[k].0
            == row@[after[k].1 as int] by {
            assert(after.contains(after[k]));
            assert(before.to_multiset().count(after[k]) > 0);
            assert(before.contains(after[k]));
            let q = choose|q: int| 0 <= q < before.len() && before[q] == after[k];
            assert(before[q] == (row@[q + 1], (q + 1) as usize));
        }
    }
    let mut r: Vec<usize> = Vec::new();
    let mut k: usize = 0;
    while k < pairs.len()
        invariant
            pairs@ == after,
            k <= after.len(),
            r@.len() == k,
            forall|q: int| 0 <= q < k ==> #[trigger] r@[q] == after[q].1,
        decreases after.len() - k,
    {
        r.push(pairs[k].1);
        k = k + 1;
    }
    proof {
        assert forall|j: usize| 1 <= j < n implies #[trigger] r@.contains(j) by {
            let p = (row@[j as int], j);
            assert(before[j - 1] == p);
            assert(before.contains(p));
            assert(after.to_multiset().count(p) > 0);
            assert(after.contains(p));
            let q = choose|q: int| 0 <= q < after.len() && after[q] == p;
            assert(r@[q] == j);
        }
        assert forall|a: int, b: int| 0 <= a < b < r@.len() implies keys@[i as int]@[r@[a] as int]
            <= keys@[i as int]@[r@[b] as int] by {
            assert(after[a].0 <= after[b].0);
            assert(after[a].0 == row@[after[a].1 as int]);
            assert(after[b].0 == row@[after[b].1 as int]);
        }
    }
    r
}

/// Orders of successors that list, for each node, every other node but the start nearest first.
pub open spec fn nearest_orders(keys: Seq<Vec<u32>>, o: Seq<Seq<usize>>) -> bool {
    &&& o.len() == keys.len()
    &&& forall|i: int| 0 <= i < o.len() ==> nearest_first(keys[i]@, #[trigger] o[i], keys.len() as int)
}

/// The path previewed between the first and the last portal of a tunnel: a depth-first
/// search from the start (node 0) to the end (the last node) that always tries the nearest
/// node first, over the connection points between them. `keys[i][j]` is the squared
/// distance from node `i` to node `j`, in whole units.
pub fn preview_path(keys: &Vec<Vec<u32>>) -> (r: Vec<usize>)
    requires
        keys@.len() >= 2,
        forall|i: int| 0 <= i < keys@.len() ==> (#[trigger] keys@[i])@.len() == keys@.len(),
    ensures
        exists|o: Seq<Seq<usize>>|
            #![trigger nearest_orders(keys@, o)]
            nearest_orders(keys@, o) && spec_dfs_path(o, 0, (keys@.len() - 1) as usize) == Some(r@)
                && steps_along(o, r@, 0, (keys@.len() - 1) as usize),
        r@.no_duplicates(),
{
    let n = keys.len();
    let mut order: Vec<Vec<usize>> = Vec::new();
    let mut i: usize = 0;
    while i < n
        invariant
            n == keys@.len(),
            n >= 2,
            forall|q: int| 0 <= q < n ==> (#[trigger] keys@[q])@.len() == n,
            i <= n,
            order@.len() == i,
            forall|q: int| 0 <= q < i ==> nearest_first(keys@[q]@, #[trigger] order@[q]@, n as int),
        decreases n - i,
    {
        let s = successors_by_distance(keys, i);
        order.push(s);
        i = i + 1;
    }
    let ghost o = lists(order@);
    proof {
        assert forall|i: int, k: int|
            0 <= i < order@.len() && 0 <= k < order@[i]@.len() implies #[trigger] order@[i]@[k] < order@.len() by {
            assert(nearest_first(keys@[i]@, order@[i]@, n as int));
        }
        assert(nearest_orders(keys@, o)) by {
            assert forall|i: int| 0 <= i < o.len() implies nearest_first(keys@[i]@, #[trigger] o[i], keys@.len() as int) by {
                assert(o[i] == order@[i]@);
            }
        }
        let direct = seq![0usize, (n - 1) as usize];
        assert(o[0].contains((n - 1) as usize));
        assert(steps_along(o, direct, 0, (n - 1) as usize));
    }
    match depth_first_path(&order, 0, n - 1) {
        Some(p) => p,
        None => {
            proof {
                let direct = seq![0usize, (n - 1) as usize];
                assert(steps_along(o, direct, 0, (n - 1) as usize));
            }
            Vec::new()
        },
    }
}

} // verus!
