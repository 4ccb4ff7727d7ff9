use mines::layout::route::{
    route_attempt, RouteAttempt, MAX_ROUTE_ATTEMPTS,
    find_path_between_portals, hop_costs, navigation_nodes, successors, HopTerms,
    UNNAVIGABLE_PENALTY,
};

fn terms(distance_squared: u32, navigable: bool) -> HopTerms {
    HopTerms {
        distance_squared,
        short_hop_penalty: 0,
        steep_penalty: 0,
        navigable,
        sharp_from_start: 0,
        sharp_to_end: 0,
    }
}

fn table(n: usize, f: impl Fn(usize, usize) -> HopTerms) -> Vec<Vec<HopTerms>> {
    (0..n).map(|i| (0..n).map(|j| f(i, j)).collect()).collect()
}

#[test]
fn nodes_start_first_and_unique() {
    let (nodes, targets, goal) =
        navigation_nodes((0, 0, 0), &vec![(1, 0, 0), (2, 0, 0), (1, 0, 0)], (3, 0, 0));
    assert_eq!(nodes, vec![(0, 0, 0), (1, 0, 0), (2, 0, 0), (3, 0, 0)]);
    assert_eq!(targets, vec![false, true, true, true]);
    assert_eq!(goal, 3);
}

#[test]
fn nodes_when_end_is_in_the_cloud() {
    let (nodes, targets, goal) =
        navigation_nodes((0, 0, 0), &vec![(5, 5, 5), (0, 0, 0)], (5, 5, 5));
    assert_eq!(nodes, vec![(0, 0, 0), (5, 5, 5)]);
    assert_eq!(targets, vec![true, true]);
    assert_eq!(goal, 1);
}

#[test]
fn hop_cost_adds_the_terms() {
    let t = HopTerms {
        distance_squared: 100,
        short_hop_penalty: 10,
        steep_penalty: 1,
        navigable: false,
        sharp_from_start: 1000,
        sharp_to_end: 5000,
    };
    let all = table(3, |_, _| t);
    let targets = vec![false, true, true];
    let costs = hop_costs(&all, &targets, 2, false);
    assert_eq!(costs[0][0], None);
    assert_eq!(costs[0][1], Some((111 + UNNAVIGABLE_PENALTY + 1000) as u128));
    assert_eq!(costs[0][2], Some((111 + UNNAVIGABLE_PENALTY + 1000) as u128));
    assert_eq!(costs[1][2], Some((111 + UNNAVIGABLE_PENALTY + 5000) as u128));
    assert_eq!(costs[1][1], Some((111 + UNNAVIGABLE_PENALTY) as u128));
    let strict = hop_costs(&all, &targets, 2, true);
    assert_eq!(strict[0][1], None);
    assert_eq!(strict[1][2], None);
}

#[test]
fn successors_list_the_allowed_hops() {
    let costs = vec![vec![None, Some(4), Some(9)], vec![None, None, Some(2)], vec![None; 3]];
    assert_eq!(successors(&costs, 0), vec![(1, 4), (2, 9)]);
    assert_eq!(successors(&costs, 2), vec![]);
    assert_eq!(successors(&costs, 7), vec![]);
}

#[test]
fn cheapest_path_is_found() {
    // 0 -> 1 -> 2 costs 4 + 4; 0 -> 2 directly costs 100.
    let dist = [[0, 4, 100], [4, 0, 4], [100, 4, 0]];
    let all = table(3, |i, j| terms(dist[i][j], true));
    let path = find_path_between_portals(&all, &vec![false, true, true], 2, true);
    assert_eq!(path, Some(vec![0, 1, 2]));
}

#[test]
fn blocked_hops_can_fail_or_cost_more() {
    // The only hop into the goal passes through an obstacle.
    let all = table(2, |_, _| terms(1, false));
    assert_eq!(find_path_between_portals(&all, &vec![false, true], 1, true), None);
    assert_eq!(find_path_between_portals(&all, &vec![false, true], 1, false), Some(vec![0, 1]));
}

#[test]
fn start_at_goal() {
    let all = table(1, |_, _| terms(0, true));
    assert_eq!(find_path_between_portals(&all, &vec![true], 0, true), Some(vec![0]));
}

#[test]
fn long_routes_do_not_overflow() {
    // Every hop costs three billion; the only route takes two hops.
    let all = table(3, |i, j| terms(3_000_000_000, !(i == 0 && j == 2)));
    let path = find_path_between_portals(&all, &vec![false, true, true], 2, true);
    assert_eq!(path, Some(vec![0, 1, 2]));
}

#[test]
fn route_attempts_grow_denser() {
    assert_eq!(route_attempt(1), RouteAttempt::Search { shells: 2 });
    assert_eq!(route_attempt(5), RouteAttempt::Search { shells: 10 });
    assert_eq!(route_attempt(MAX_ROUTE_ATTEMPTS), RouteAttempt::Search { shells: 16 });
    assert_eq!(route_attempt(MAX_ROUTE_ATTEMPTS + 1), RouteAttempt::GiveUp);
    assert_eq!(route_attempt(0), RouteAttempt::GiveUp);
}
