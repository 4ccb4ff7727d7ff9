use mines::door::{door_mesh_indices, DoorTick, Doorway, MeshIndices};

#[test]
fn new_doorway_is_closed_and_unlocked() {
    let d = Doorway::new();
    assert!(!d.locked && !d.open && !d.open_inward && !d.animating);
}

#[test]
fn opening_requires_a_finished_animation() {
    let mut d = Doorway::new();
    assert!(!d.open(true, false));
    assert_eq!(d, Doorway::new());
    assert!(d.open(true, true));
    assert!(d.open && d.open_inward && d.animating);
}

#[test]
fn opening_an_open_door_does_nothing() {
    let mut d = Doorway::new();
    assert!(d.open(false, true));
    let before = d;
    assert!(!d.open(true, true));
    assert_eq!(d, before);
}

#[test]
fn closing_keeps_the_swing_direction() {
    let mut d = Doorway::new();
    assert!(d.open(true, true));
    assert!(d.close(true));
    assert!(!d.open && d.open_inward && d.animating);
}

#[test]
fn locked_doors_ignore_touch() {
    let mut d = Doorway { locked: true, open: false, open_inward: false, animating: false };
    assert!(!d.touch(true, true));
    assert_eq!(d, Doorway { locked: true, open: false, open_inward: false, animating: false });
    let mut u = Doorway::new();
    assert!(u.touch(false, true));
    assert!(u.open && !u.open_inward);
}

#[test]
fn idle_doorway_does_not_tick() {
    let mut d = Doorway::new();
    let t = d.tick(true, true, true);
    assert_eq!(t, DoorTick { close_started: false, pose: false, close_finished: false });
    assert_eq!(d, Doorway::new());
}

#[test]
fn open_doors_close_by_themselves() {
    let mut d = Doorway::new();
    d.open(true, true);
    let t = d.tick(false, true, true);
    assert_eq!(t, DoorTick { close_started: false, pose: true, close_finished: false });
    let t = d.tick(true, true, true);
    assert_eq!(t, DoorTick { close_started: true, pose: true, close_finished: false });
    assert!(!d.open && d.animating);
    let t = d.tick(false, false, true);
    assert_eq!(t, DoorTick { close_started: false, pose: true, close_finished: false });
    let t = d.tick(false, true, true);
    assert_eq!(t, DoorTick { close_started: false, pose: true, close_finished: true });
    assert!(!d.animating);
}

#[test]
fn missing_doors_are_not_posed() {
    let mut d = Doorway::new();
    d.close(true);
    d.open(false, true);
    d.close(true);
    let t = d.tick(false, true, false);
    assert_eq!(t, DoorTick { close_started: false, pose: false, close_finished: false });
    assert!(d.animating);
}

#[test]
fn quad_triangles() {
    let mut m = MeshIndices::new();
    m.fill_rect(false);
    m.fill_rect(true);
    assert_eq!(m.next, 8);
    assert_eq!(m.indices, vec![1, 3, 0, 3, 2, 0, 4, 6, 5, 6, 7, 5]);
    let done = m.finish();
    assert_eq!(done.len(), 12);
    assert_eq!(m.next, 0);
    assert!(m.indices.is_empty());
}

#[test]
fn extrusion_edges() {
    let mut m = MeshIndices::new();
    let v = m.rect_verts();
    assert_eq!(v, [0, 1, 2, 3]);
    m.fill_rect_extrusion_edge(v, false);
    m.fill_rect_extrusion_edge(v, true);
    assert_eq!(m.indices, vec![1, 0, 2, 2, 3, 1, 0, 1, 3, 3, 2, 0]);
}

#[test]
fn difference_covers_the_ring() {
    let mut m = MeshIndices::new();
    m.fill_rect_difference(false);
    assert_eq!(m.next, 8);
    assert_eq!(
        m.indices,
        vec![
            0, 5, 4, 0, 1, 5, 6, 3, 2, 7, 3, 6, 4, 6, 2, 4, 2, 0, 1, 7, 5, 1, 3, 7
        ]
    );
}

#[test]
fn door_meshes() {
    let (frame, left, right) = door_mesh_indices();
    assert_eq!(frame.len(), 72);
    assert_eq!(left.len(), 36);
    assert_eq!(left, right);
    assert!(frame.iter().all(|&i| i < 32));
    assert!(left.iter().all(|&i| i < 24));
    assert_eq!(&left[0..6], &[1, 0, 2, 2, 3, 1]);
    assert_eq!(&frame[48..54], &[0 + 16, 1 + 16, 3 + 16, 3 + 16, 2 + 16, 0 + 16]);
}
