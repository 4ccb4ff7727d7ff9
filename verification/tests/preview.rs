use mines::editor::preview::{preview_path, successors_by_distance};

fn keys(positions: &[i64]) -> Vec<Vec<u32>> {
    positions
        .iter()
        .map(|a| positions.iter().map(|b| ((a - b) * (a - b)) as u32).collect())
        .collect()
}

#[test]
fn successors_nearest_first() {
    let k = keys(&[0, 10, 3, 7]);
    assert_eq!(successors_by_distance(&k, 0), vec![2, 3, 1]);
    assert_eq!(successors_by_distance(&k, 1), vec![1, 3, 2]);
}

#[test]
fn path_follows_nearest_points() {
    // Start at 0, connection points at 3, 1 and 2, end at 4.
    let k = keys(&[0, 3, 1, 2, 4]);
    assert_eq!(preview_path(&k), vec![0, 2, 3, 1, 4]);
}

#[test]
fn path_without_connection_points() {
    let k = keys(&[0, 5]);
    assert_eq!(preview_path(&k), vec![0, 1]);
}

#[test]
fn path_matches_the_search_crate() {
    let k = keys(&[0, 9, -4, 6, 2, 12]);
    let mut order: Vec<Vec<usize>> = Vec::new();
    for i in 0..k.len() {
        let mut js: Vec<usize> = (1..k.len()).collect();
        js.sort_by_key(|&j| k[i][j]);
        order.push(js);
    }
    let expected =
        pathfinding::directed::dfs::dfs(0usize, |&i| order[i].clone(), |&i| i == k.len() - 1)
            .unwrap();
    assert_eq!(preview_path(&k), expected);
}
