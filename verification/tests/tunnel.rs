use mines::tunnel::{
    is_axis_point, mirror_index, pick_profile_point, TunnelsModeState, TUNNEL_POINTS,
};

#[test]
fn axis_points() {
    assert!(is_axis_point(8, 0));
    assert!(is_axis_point(8, 4));
    assert!(!is_axis_point(8, 3));
    assert!(is_axis_point(7, 3));
}

#[test]
fn mirrored_points() {
    assert_eq!(mirror_index(8, 1, true), Some(7));
    assert_eq!(mirror_index(8, 3, true), Some(5));
    assert_eq!(mirror_index(8, 3, false), None);
    assert_eq!(mirror_index(8, 0, true), None);
    assert_eq!(mirror_index(8, 4, true), None);
}

#[test]
fn mirroring_twice_returns_the_point() {
    for i in [1usize, 2, 3, 5, 6, 7] {
        let m = mirror_index(8, i, true).unwrap();
        assert_eq!(mirror_index(8, m, true), Some(i));
    }
}

#[test]
fn profile_points_pair_up() {
    for i in 1..TUNNEL_POINTS {
        match mirror_index(TUNNEL_POINTS, i, true) {
            Some(m) => {
                assert_ne!(m, i);
                assert_eq!(mirror_index(TUNNEL_POINTS, m, true), Some(i));
            }
            None => assert_eq!(i, TUNNEL_POINTS / 2),
        }
    }
}

#[test]
fn odd_profiles_do_not_mirror_back() {
    // With three points, point 2 mirrors onto point 1, which lies on the axis.
    assert_eq!(mirror_index(3, 2, true), Some(1));
    assert_eq!(mirror_index(3, 1, true), None);
}

#[test]
fn picks_first_hit() {
    assert_eq!(pick_profile_point(&vec![false, true, true], false, true), Some(1));
    assert_eq!(pick_profile_point(&vec![false, false], false, true), None);
    assert_eq!(pick_profile_point(&vec![true], true, true), None);
    assert_eq!(pick_profile_point(&vec![true], false, false), None);
}

#[test]
fn click_selects_and_drags() {
    let mut state: TunnelsModeState<(i32, i32)> = TunnelsModeState::new();
    assert!(state.mirror && !state.dragging());
    state.handle_click(Some(2), Some((5, 6)), true, false, false);
    assert_eq!(state.selected_point, Some(2));
    assert!(state.dragging());
    state.handle_click(None, None, false, true, false);
    assert!(!state.dragging());
    assert_eq!(state.selected_point, Some(2));
}

#[test]
fn click_elsewhere_clears_selection_unless_ui() {
    let mut state: TunnelsModeState<u8> = TunnelsModeState::new();
    state.handle_click(Some(1), Some(0), true, false, false);
    state.handle_click(None, None, false, true, false);
    state.handle_click(None, None, true, false, true);
    assert_eq!(state.selected_point, Some(1));
    state.handle_click(None, None, true, false, false);
    assert_eq!(state.selected_point, None);
}
