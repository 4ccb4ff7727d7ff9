use vstd::prelude::*;

verus! {

/// A point of the navigation cloud, in whole units.
pub type Point = (i32, i32, i32);

/// The added cost of a hop that passes through an obstacle, when such hops are allowed.
pub const UNNAVIGABLE_PENALTY: u32 = 80960;

/// The measured parts of the cost of one hop between two navigation nodes. The caller
/// measures them from the geometry; the rules below combine them.
#[derive(Clone, Copy, Debug, PartialEq, Eq, Structural)]
pub struct HopTerms {
    /// Squared distance between the two nodes.
    pub distance_squared: u32,
    /// Penalty for hops shorter than a short hop.
    pub short_hop_penalty: u32,
    /// Penalty for steep hops.
    pub steep_penalty: u32,
    /// Whether the straight line between the nodes misses every placed obstacle.
    pub navigable: bool,
    /// Penalty for the bend at the start node when the hop leaves it.
    pub sharp_from_start: u32,
    /// Penalty for the bend at the end node when the hop reaches it.
    pub sharp_to_end: u32,
}

/// The cost of a hop, or `None` when it is ruled out: through an obstacle while
/// `fail_on_intersection` is set.
pub open spec fn hop_cost(t: HopTerms, from_start: bool, to_end: bool, fail_on_intersection: bool) -> Option<
    int,
> {
    if !t.navigable && fail_on_intersection {
        None
    } else {
        Some(
            t.distance_squared + t.short_hop_penalty + t.steep_penalty + (if !t.navigable {
                UNNAVIGABLE_PENALTY as int
            } else {
                0
            }) + (if from_start {
                t.sharp_from_start as int
            } else if to_end {
                t.sharp_to_end as int
            } else {
                0
            }),
        )
    }
}

/// The costs as a matrix of sequences.
pub open spec fn matrix(costs: Seq<Vec<Option<u128>>>) -> Seq<Seq<Option<u128>>> {
    costs.map_values(|row: Vec<Option<u128>>| row@)
}

pub open spec fn is_square(m: Seq<Seq<Option<u128>>>) -> bool {
    forall|i: int| 0 <= i < m.len() ==> (#[trigger] m[i]).len() == m.len()
}

/// Every hop cost, taken as many times as there are nodes, fits in a `u128`; so does
/// then the cost of any path without repeated nodes, and one hop more.
pub open spec fn costs_bounded(m: Seq<Seq<Option<u128>>>) -> bool {
    forall|i: int, j: int|
        0 <= i < m.len() && 0 <= j < m.len() && (#[trigger] m[i][j]) is Some ==> m.len() * (m[i][j]->0 as int)
            <= u128::MAX
}

/// The hop from the `k`-th node of `p` to the next one.
pub open spec fn hop(m: Seq<Seq<Option<u128>>>, p: Seq<usize>, k: int) -> Option<u128> {
    m[p[k] as int][p[k + 1] as int]
}

/// `p` is a path from `s` to `g` along hops that `m` allows.
pub open spec fn is_route(m: Seq<Seq<Option<u128>>>, p: Seq<usize>, s: usize, g: usize) -> bool {
    &&& p.len() >= 1
    &&& p[0] == s
    &&& p.last() == g
    &&& forall|k: int| 0 <= k < p.len() ==> (#[trigger] p[k]) < m.len()
    &&& forall|k: int| 0 <= k < p.len() - 1 ==> (#[trigger] hop(m, p, k)) is Some
}

/// The summed hop costs along `p`.
pub open spec fn route_cost(m: Seq<Seq<Option<u128>>>, p: Seq<usize>) -> int
    decreases p.len(),
{
    if p.len() <= 1 {
        0
    } else {
        route_cost(m, p.drop_last()) + (hop(m, p, p.len() - 2)->0 as int)
    }
}

/// `p` is a cheapest path from `s` to `g` that visits no node twice.
pub open spec fn is_shortest_route(m: Seq<Seq<Option<u128>>>, p: Seq<usize>, s: usize, g: usize) -> bool {
    &&& is_route(m, p, s, g)
    &&& p.no_duplicates()
    &&& forall|q: Seq<usize>| #[trigger] is_route(m, q, s, g) ==> route_cost(m, p) <= route_cost(m, q)
}

pub open spec fn has_route(m: Seq<Seq<Option<u128>>>, s: usize, g: usize) -> bool {
    exists|q: Seq<usize>| #[trigger] is_route(m, q, s, g)
}

/// The nodes reachable in one hop from node `i`, in index order, with their costs.
pub open spec fn successors_upto(row: Seq<Option<u128>>, n: int) -> Seq<(usize, u128)>
    decreases n,
{
    if n <= 0 {
        seq![]
    } else {
        successors_upto(row, n - 1) + match row[n - 1] {
            Some(c) => seq![((n - 1) as usize, c)],
            None => seq![],
        }
    }
}

/// The hops out of node `i`, as the search asks for them.
pub fn successors(costs: &Vec<Vec<Option<u128>>>, i: usize) -> (r: Vec<(usize, u128)>)
    ensures
        i < costs@.len() ==> r@ == successors_upto(costs@[i as int]@, costs@[i as int]@.len() as int),
        i >= costs@.len() ==> r@.len() == 0,
{
    let mut r: Vec<(usize, u128)> = Vec::new();
    if i >= costs.len() {
        return r;
    }
    let row = &costs[i];
    let mut j: usize = 0;
    while j < row.len()
        invariant
            j <= row@.len(),
            r@ == successors_upto(row@, j as int),
        decreases row@.len() - j,
    {
        match row[j] {
            Some(c) => {
                r.push((j, c));
            },
            None => {},
        }
        j = j + 1;
    }
    r
}

/// Whether the search reached its goal.
pub fn is_goal(node: &usize, goal: usize) -> (r: bool)
    ensures
        r == (*node == goal),
{
    *node == goal
}

/// Calls `pathfinding::directed::dijkstra::dijkstra` from `start` over the hops of `costs`
/// (the successors of node `i` are the `j` with `costs[i][j]` set, at that cost) until it
/// reaches `goal`.
///
/// Claimed, as the crate documents: when `goal` can be reached, the result is a path from
/// `start` to `goal` with no node twice, together with its cost, and no path is cheaper;
/// otherwise the result is `None`. Which of several cheapest paths comes back is not stated.
/// The bound in `requires` keeps the crate's cost sums from overflowing.
#[verifier::external_body]
fn shortest_route(costs: &Vec<Vec<Option<u128>>>, start: usize, goal: usize) -> (r: Option<(Vec<usize>, u128)>)
    requires
        is_square(matrix(costs@)),
        costs_bounded(matrix(costs@)),
        start < costs@.len(),
        goal < costs@.len(),
    ensures
        match r {
            Some((p, c)) => is_shortest_route(matrix(costs@), p@, start, goal) && c == route_cost(
                matrix(costs@),
                p@,
            ),
            None => !has_route(matrix(costs@), start, goal),
        },
{
    pathfinding::directed::dijkstra::dijkstra(
        &start,
        |i: &usize| successors(costs, *i),
        |i: &usize| is_goal(i, goal),
    )
}

/// The cost of the hop from node `i` to node `j` by the measured terms; node 0 is the start.
pub open spec fn cost_at(terms: Seq<Vec<HopTerms>>, goal: usize, fail: bool, i: int, j: int) -> Option<int> {
    hop_cost(terms[i]@[j], i == 0, j == goal, fail)
}

/// The cost of the hop from node `i` to node `j`: only nodes of the point cloud (the
/// `targets`) are hopped to; node 0 is the start.
pub open spec fn entry(terms: Seq<Vec<HopTerms>>, targets: Seq<bool>, goal: usize, fail: bool, i: int, j: int) -> Option<
    u128,
> {
    if !targets[j] {
        None
    } else {
        match cost_at(terms, goal, fail, i, j) {
            Some(c) => Some(c as u128),
            None => None,
        }
    }
}

pub open spec fn hop_matrix(terms: Seq<Vec<HopTerms>>, targets: Seq<bool>, goal: usize, fail: bool) -> Seq<
    Seq<Option<u128>>,
> {
    Seq::new(
        terms.len(),
        |i: int| Seq::new(terms.len(), |j: int| entry(terms, targets, goal, fail, i, j)),
    )
}

/// The measured terms form an `n` by `n` table over `n` nodes, and the cost of every
/// allowed hop fits in a `u32`, as the costs are summed up hop by hop in one.
pub open spec fn terms_valid(terms: Seq<Vec<HopTerms>>, targets: Seq<bool>, goal: usize, fail: bool) -> bool {
    &&& targets.len() == terms.len()
    &&& forall|i: int| 0 <= i < terms.len() ==> (#[trigger] terms[i])@.len() == terms.len()
    &&& forall|i: int, j: int|
        0 <= i < terms.len() && 0 <= j < terms.len() ==> match #[trigger] cost_at(
            terms,
            goal,
            fail,
            i,
            j,
        ) {
            Some(c) => c <= u32::MAX,
            None => true,
        }
}

fn hop_cost_of(t: HopTerms, from_start: bool, to_end: bool, fail: bool) -> (r: Option<u32>)
    requires
        match hop_cost(t, from_start, to_end, fail) {
            Some(c) => c <= u32::MAX,
            None => true,
        },
    ensures
        match hop_cost(t, from_start, to_end, fail) {
            Some(c) => r == Some(c as u32),
            None => r is None,
        },
{
    if !t.navigable && fail {
        return None;
    }
    let mut cost: u32 = t.distance_squared;
    cost = cost + t.short_hop_penalty;
    cost = cost + t.steep_penalty;
    if !t.navigable {
        cost = cost + UNNAVIGABLE_PENALTY;
    }
    if from_start {
        cost = cost + t.sharp_from_start;
    } else if to_end {
        cost = cost + t.sharp_to_end;
    }
    Some(cost)
}

/// The hop costs between all pairs of nodes.
pub fn hop_costs(terms: &Vec<Vec<HopTerms>>, targets: &Vec<bool>, goal: usize, fail: bool) -> (r: Vec<
    Vec<Option<u128>>,
>)
    requires
        terms_valid(terms@, targets@, goal, fail),
    ensures
        matrix(r@) == hop_matrix(terms@, targets@, goal, fail),
{
    let n = terms.len();
    let mut r: Vec<Vec<Option<u128>>> = Vec::new();
    let mut i: usize = 0;
    while i < n
        invariant
            n == terms@.len(),
            terms_valid(terms@, targets@, goal, fail),
            i <= n,
            r@.len() == i,
            forall|a: int|
                0 <= a < i ==> (#[trigger] r@[a])@ == hop_matrix(terms@, targets@, goal, fail)[a],
        decreases n - i,
    {
        let mut row: Vec<Option<u128>> = Vec::new();
        let mut j: usize = 0;
        while j < n
            invariant
                n == terms@.len(),
                terms_valid(terms@, targets@, goal, fail),
                i < n,
                j <= n,
                row@.len() == j,
                forall|b: int|
                    0 <= b < j ==> #[trigger] row@[b] == entry(
                        terms@,
                        targets@,
                        goal,
                        fail,
                        i as int,
                        b,
                    ),
            decreases n - j,
        {
            assert(terms@[i as int]@.len() == n);
            let e = if !targets[j] {
                None
            } else {
                proof {
                    let h = cost_at(terms@, goal, fail, i as int, j as int);
                    assert(match h {
                        Some(c) => c <= u32::MAX,
                        None => true,
                    });
                }
                match hop_cost_of(terms[i][j], i == 0, j == goal, fail) {
                    Some(c) => Some(c as u128),
                    None => None,
                }
            };
            row.push(e);
            j = j + 1;
        }
        proof {
            assert(row@ =~= hop_matrix(terms@, targets@, goal, fail)[i as int]);
        }
        r.push(row);
        i = i + 1;
    }
    proof {
        assert(matrix(r@) =~= hop_matrix(terms@, targets@, goal, fail));
    }
    r
}

/// How often a route between two portals is searched for, each time over a denser cloud.
pub const MAX_ROUTE_ATTEMPTS: u8 = 8;

/// What the `attempt`-th search for a route (counting from 1) does.
#[derive(Clone, Copy, Debug, PartialEq, Eq, Structural)]
pub enum RouteAttempt {
    /// Search a point cloud of this many shells around the two rooms.
    Search { shells: u8 },
    /// Every attempt failed: no viable path exists.
    GiveUp,
}

/// Attempts 1 to `MAX_ROUTE_ATTEMPTS` search clouds of twice as many shells as their
/// number; the search stops at the first route found, and gives up after the last attempt.
pub fn route_attempt(attempt: u8) -> (r: RouteAttempt)
    ensures
        1 <= attempt <= MAX_ROUTE_ATTEMPTS ==> r == (RouteAttempt::Search { shells: (2 * attempt) as u8 }),
        !(1 <= attempt <= MAX_ROUTE_ATTEMPTS) ==> r == RouteAttempt::GiveUp,
{
    if 1 <= attempt && attempt <= MAX_ROUTE_ATTEMPTS {
        RouteAttempt::Search { shells: attempt * 2 }
    } else {
        RouteAttempt::GiveUp
    }
}

/// Finds the cheapest chain of hops from the start (node 0) through the point cloud to
/// the goal node, or `None` when no chain of allowed hops reaches it. Each hop's cost fits
/// in a `u32`; routes are summed in a `u128`, so no route is too long to compare.
pub fn find_path_between_portals(
    terms: &Vec<Vec<HopTerms>>,
    targets: &Vec<bool>,
    goal: usize,
    fail_on_intersection: bool,
) -> (r: Option<Vec<usize>>)
    requires
        terms_valid(terms@, targets@, goal, fail_on_intersection),
        terms@.len() > 0,
        goal < terms@.len(),
    ensures
        r is None <==> !has_route(hop_matrix(terms@, targets@, goal, fail_on_intersection), 0, goal),
        r matches Some(p) ==> is_shortest_route(
            hop_matrix(terms@, targets@, goal, fail_on_intersection),
            p@,
            0,
            goal,
        ),
{
    let costs = hop_costs(terms, targets, goal, fail_on_intersection);
    let ghost m = hop_matrix(terms@, targets@, goal, fail_on_intersection);
    proof {
        assert forall|i: int| 0 <= i < m.len() implies (#[trigger] m[i]).len() == m.len() by {}
        assert forall|i: int, j: int|
            0 <= i < m.len() && 0 <= j < m.len() && (#[trigger] m[i][j]) is Some implies m.len() * (
            m[i][j]->0 as int) <= u128::MAX by {
            let h = cost_at(terms@, goal, fail_on_intersection, i, j);
            assert(match h {
                Some(c) => c <= u32::MAX,
                None => true,
            });
            let c = m[i][j]->0 as int;
            let len = m.len() as int;
            assert(c <= u32::MAX);
            assert(len <= usize::MAX);
            assert(len * c <= u128::MAX) by (nonlinear_arith)
                requires
                    0 <= len <= 0xffff_ffff_ffff_ffff,
                    0 <= c <= 0xffff_ffff,
            ;
        }
    }
    match shortest_route(&costs, 0, goal) {
        Some((path, _cost)) => Some(path),
        None => None,
    }
}

/// Whether two points are the same.
pub fn same_point(a: Point, b: Point) -> (r: bool)
    ensures
        r == (a == b),
{
    a.0 == b.0 && a.1 == b.1 && a.2 == b.2
}

pub fn contains_point(points: &Vec<Point>, p: Point) -> (r: bool)
    ensures
        r == points@.contains(p),
{
    let mut i: usize = 0;
    while i < points.len()
        invariant
            i <= points@.len(),
            forall|k: int| 0 <= k < i ==> points@[k] != p,
        decreases points@.len() - i,
    {
        if same_point(points[i], p) {
            return true;
        }
        i = i + 1;
    }
    false
}

proof fn lemma_push_contains(s: Seq<Point>, p: Point)
    ensures
        forall|x: Point| #[trigger] s.push(p).contains(x) <==> (s.contains(x) || x == p),
{
    assert forall|x: Point| #[trigger] s.push(p).contains(x) <==> (s.contains(x) || x == p) by {
        if s.contains(x) {
            let k = choose|k: int| 0 <= k < s.len() && s[k] == x;
            assert(s.push(p)[k] == x);
        }
        if x == p {
            assert(s.push(p)[s.len() as int] == x);
        }
        if s.push(p).contains(x) {
            let k = choose|k: int| 0 <= k < s.push(p).len() && s.push(p)[k] == x;
            if k < s.len() {
                assert(s[k] == x);
            }
        }
    }
}

/// The nodes to search: the start first, then every distinct point of the cloud and the
/// end, each once; with, for each node, whether it may be hopped to (it is a point of the
/// cloud or the end), and the index of the end.
pub fn navigation_nodes(start: Point, cloud: &Vec<Point>, end: Point) -> (r: (Vec<Point>, Vec<bool>, usize))
    ensures
        r.0@.len() > 0,
        r.0@[0] == start,
        r.0@.no_duplicates(),
        forall|x: Point| r.0@.contains(x) <==> (x == start || cloud@.contains(x) || x == end),
        r.1@.len() == r.0@.len(),
        forall|j: int|
            0 <= j < r.1@.len() ==> (#[trigger] r.1@[j] <==> (cloud@.contains(r.0@[j]) || r.0@[j] == end)),
        r.2 < r.0@.len(),
        r.0@[r.2 as int] == end,
{
    let mut nodes: Vec<Point> = Vec::new();
    nodes.push(start);
    proof {
        assert forall|x: Point| nodes@.contains(x) <==> (x == start || cloud@.subrange(0, 0).contains(x)) by {
            if x == start {
                assert(nodes@[0] == x);
            }
        }
    }
    let mut i: usize = 0;
    while i < cloud.len()
        invariant
            i <= cloud@.len(),
            nodes@.len() > 0,
            nodes@[0] == start,
            nodes@.no_duplicates(),
            forall|x: Point| nodes@.contains(x) <==> (x == start || cloud@.subrange(0, i as int).contains(x)),
        decreases cloud@.len() - i,
    {
        let p = cloud[i];
        proof {
            assert(cloud@.subrange(0, i + 1) =~= cloud@.subrange(0, i as int).push(p));
        }
        let ghost before = nodes@;
        if !contains_point(&nodes, p) {
            nodes.push(p);
            proof {
                lemma_push_contains(before, p);
                assert forall|a: int, b: int| 0 <= a < b < nodes@.len() implies nodes@[a] != nodes@[b] by {
                    if b == before.len() {
                        assert(before.contains(nodes@[a]));
                    }
                }
            }
        }
        proof {
            lemma_push_contains(cloud@.subrange(0, i as int), p);
        }
        i = i + 1;
    }
    proof {
        assert(cloud@.subrange(0, cloud@.len() as int) =~= cloud@);
    }
    let ghost before = nodes@;
    if !contains_point(&nodes, end) {
        nodes.push(end);
        proof {
            lemma_push_contains(before, end);
            assert forall|a: int, b: int| 0 <= a < b < nodes@.len() implies nodes@[a] != nodes@[b] by {
                if b == before.len() {
                    assert(before.contains(nodes@[a]));
                }
            }
        }
    }
    proof {
        lemma_push_contains(before, end);
    }
    let mut targets: Vec<bool> = Vec::new();
    let mut goal: usize = 0;
    let mut j: usize = 0;
    while j < nodes.len()
        invariant
            j <= nodes@.len(),
            nodes@.contains(end),
            targets@.len() == j,
            forall|k: int|
                0 <= k < j ==> (#[trigger] targets@[k] <==> (cloud@.contains(nodes@[k]) || nodes@[k]
                    == end)),
            goal < nodes@.len(),
            (exists|k: int| 0 <= k < j && nodes@[k] == end) ==> nodes@[goal as int] == end,
        decreases nodes@.len() - j,
    {
        let q = nodes[j];
        let t = contains_point(cloud, q) || same_point(q, end);
        targets.push(t);
        if same_point(q, end) {
            goal = j;
        }
        j = j + 1;
    }
    proof {
        let k = choose|k: int| 0 <= k < nodes@.len() && nodes@[k] == end;
        assert(0 <= k < nodes@.len() && nodes@[k] == end);
    }
    (nodes, targets, goal)
}

} // verus!
