use mines::editor::gizmos::{portal_gizmo, PortalGizmo};
use mines::editor::rooms::{room_flags_for, room_part_spawn, PartSpawn, RoomPartKind};
use mines::layout::assets::RoomFlags;
use mines::editor::modes::{EditorMode, ModePathError};
use mines::editor::picking::{
    first_selectable_hit, pick_action, placement_step, selection_indication, PickAction, PickingMode, PickingTargets,
    PlacementStep, SelectionIndication, SpawnPickerMode, SpawnPickerState,
};
use mines::editor::switching::{
    blocks_orbit, should_remove_mode_specific, EditorViewMode, ModeSwitcher, ModeSystems,
};

#[test]
fn modes_from_paths() {
    assert_eq!(EditorMode::from_path("a/b/cave.room.ron"), Ok(EditorMode::Rooms));
    assert_eq!(EditorMode::from_path("pipe.tunnel.ron"), Ok(EditorMode::Tunnels));
    assert_eq!(EditorMode::from_path("x.y.room.ron"), Ok(EditorMode::Rooms));
    assert_eq!(EditorMode::from_path("cave.ron"), Err(ModePathError::NotEnoughParts));
    assert_eq!(EditorMode::from_path("cave.room.json"), Err(ModePathError::NotRon));
    assert_eq!(EditorMode::from_path("cave.rooms.ron"), Err(ModePathError::UnrecognizedExtension));
    assert_eq!(EditorMode::default(), EditorMode::Tunnels);
    assert_eq!(EditorMode::Rooms.file_ext(), "room");
    assert_eq!(EditorMode::Tunnels.file_ext(), "tunnel");
}

fn switcher() -> ModeSwitcher<u32> {
    ModeSwitcher {
        prev_file: None,
        prev_mode: None,
        prev_view: None,
        mode_systems: vec![
            (
                EditorMode::Tunnels,
                ModeSystems {
                    exit: Some(10),
                    enter: Some(11),
                    enter_view: vec![(EditorViewMode::Preview, 12)],
                    update: vec![13, 14],
                },
            ),
            (
                EditorMode::Rooms,
                ModeSystems { exit: Some(20), enter: None, enter_view: vec![], update: vec![23] },
            ),
        ],
        cleanup_mode_specific_entities: 1,
        cleanup_terrain: 2,
        cancel_placement_and_playtest: 3,
        camera_on_change_mode: 4,
        update_files_changed_status: 5,
        playtest: 6,
    }
}

#[test]
fn first_switch_runs_everything() {
    let mut s = switcher();
    let systems = s.switch_modes(Some(0), Some(EditorMode::Tunnels), EditorViewMode::Preview);
    assert_eq!(systems, vec![2, 11, 12, 4, 1, 3, 5, 6]);
    assert_eq!(s.prev_file, Some(0));
    assert_eq!(s.prev_mode, Some(EditorMode::Tunnels));
    assert_eq!(s.prev_view, Some(EditorViewMode::Preview));
}

#[test]
fn repeated_switch_settles() {
    let mut s = switcher();
    s.switch_modes(Some(0), Some(EditorMode::Tunnels), EditorViewMode::Editor);
    let systems = s.switch_modes(Some(0), Some(EditorMode::Tunnels), EditorViewMode::Editor);
    assert_eq!(systems, vec![5, 6]);
}

#[test]
fn changing_mode_exits_the_old_one() {
    let mut s = switcher();
    s.switch_modes(Some(0), Some(EditorMode::Tunnels), EditorViewMode::Editor);
    let systems = s.switch_modes(Some(1), Some(EditorMode::Rooms), EditorViewMode::Editor);
    assert_eq!(systems, vec![2, 10, 4, 1, 3, 5, 6]);
}

#[test]
fn changing_view_only() {
    let mut s = switcher();
    s.switch_modes(Some(0), Some(EditorMode::Tunnels), EditorViewMode::Editor);
    let systems = s.switch_modes(Some(0), Some(EditorMode::Tunnels), EditorViewMode::Preview);
    assert_eq!(systems, vec![12, 4, 1, 3, 5, 6]);
}

#[test]
fn update_and_revert_systems() {
    let s = switcher();
    assert_eq!(s.update_curr_mode(Some(EditorMode::Tunnels)), vec![13, 14]);
    assert_eq!(s.update_curr_mode(None), Vec::<u32>::new());
    assert_eq!(
        s.revert_systems(Some(EditorMode::Tunnels), EditorViewMode::Preview),
        vec![10, 11, 12]
    );
    assert_eq!(s.revert_systems(Some(EditorMode::Rooms), EditorViewMode::Preview), vec![20]);
    assert_eq!(s.mode_entry_exit(Some(EditorMode::Rooms)), Some(20));
    assert_eq!(s.mode_entry_enter(Some(EditorMode::Rooms)), None);
    assert_eq!(s.mode_entry_enter_view(Some(EditorMode::Tunnels), EditorViewMode::Editor), None);
}

#[test]
fn mode_specific_cleanup() {
    assert!(should_remove_mode_specific(
        EditorMode::Rooms,
        None,
        Some(EditorMode::Tunnels),
        EditorViewMode::Editor
    ));
    assert!(!should_remove_mode_specific(
        EditorMode::Rooms,
        None,
        Some(EditorMode::Rooms),
        EditorViewMode::Preview
    ));
    assert!(should_remove_mode_specific(
        EditorMode::Rooms,
        Some(EditorViewMode::Editor),
        Some(EditorMode::Rooms),
        EditorViewMode::Preview
    ));
    assert!(should_remove_mode_specific(EditorMode::Rooms, None, None, EditorViewMode::Editor));
    assert!(blocks_orbit(EditorMode::Tunnels, EditorViewMode::Editor));
    assert!(!blocks_orbit(EditorMode::Tunnels, EditorViewMode::Preview));
    assert!(!blocks_orbit(EditorMode::Rooms, EditorViewMode::Editor));
    assert_eq!(EditorViewMode::default(), EditorViewMode::Editor);
}

#[test]
fn picking_targets_in_order() {
    let mut t: PickingTargets<u32> = PickingTargets::new();
    assert_eq!(t.targets(&[PickingMode::Selectable, PickingMode::GroundPlane]), None);
    t.set(PickingMode::GroundPlane, Some(3));
    t.set(PickingMode::Terrain, Some(2));
    assert_eq!(*t.target(&PickingMode::Terrain), Some(2));
    assert_eq!(t.targets(&[PickingMode::Selectable, PickingMode::GroundPlane]), Some(&3));
    assert_eq!(t.targets(&[PickingMode::Terrain, PickingMode::GroundPlane]), Some(&2));
    t.clear();
    assert_eq!(t.targets(&[PickingMode::Terrain, PickingMode::GroundPlane]), None);
}

#[test]
fn clicking_selects() {
    let none = PickAction { clear_selection: false, select: None };
    assert_eq!(pick_action(true, false, true, false, false, Some(1)), none);
    assert_eq!(pick_action(false, true, true, false, false, Some(1)), none);
    assert_eq!(pick_action(false, false, false, false, false, Some(1)), none);
    assert_eq!(pick_action(false, false, true, true, false, Some(1)), none);
    assert_eq!(
        pick_action(false, false, true, false, false, Some(1)),
        PickAction { clear_selection: true, select: Some(1) }
    );
    assert_eq!(
        pick_action(false, false, true, false, true, None),
        PickAction { clear_selection: false, select: None }
    );
}

#[test]
fn indications_and_placement() {
    assert_eq!(selection_indication(false, true), SelectionIndication::Unselected);
    assert_eq!(selection_indication(true, true), SelectionIndication::Selected);
    assert_eq!(selection_indication(true, false), SelectionIndication::Multiselected);
    assert_eq!(placement_step(true, false), PlacementStep::Follow);
    assert_eq!(placement_step(true, true), PlacementStep::FollowAndFinish);
    assert_eq!(placement_step(false, true), PlacementStep::Cancel);
    assert_eq!(placement_step(false, false), PlacementStep::Wait);
}

#[test]
fn playtest_cycle() {
    let mut s: SpawnPickerState<(i32, i32)> = SpawnPickerState::new();
    s.pick_spawn_position(false, Some((1, 2)), true);
    assert_eq!(s.mode, SpawnPickerMode::Inactive);
    s.mode = SpawnPickerMode::Picking;
    s.pick_spawn_position(true, Some((1, 2)), true);
    assert_eq!(s.mode, SpawnPickerMode::Picking);
    assert_eq!(s.position, None);
    s.pick_spawn_position(false, Some((1, 2)), false);
    assert_eq!(s.position, Some((1, 2)));
    s.pick_spawn_position(false, Some((3, 4)), true);
    assert_eq!(s.mode, SpawnPickerMode::Spawning);
    assert_eq!(s.playtest(false), None);
    assert_eq!(s.playtest(true), Some(SpawnPickerMode::Playing));
    assert_eq!(s.playtest(true), None);
    s.mode = SpawnPickerMode::Despawning;
    assert_eq!(s.playtest(true), Some(SpawnPickerMode::Inactive));
    assert_eq!(s.position, None);
}

#[test]
fn releasing_without_target_gives_up() {
    let mut s: SpawnPickerState<u8> = SpawnPickerState::new();
    s.mode = SpawnPickerMode::Picking;
    s.pick_spawn_position(false, None, true);
    assert_eq!(s.mode, SpawnPickerMode::Inactive);
    s.mode = SpawnPickerMode::Playing;
    s.position = Some(1);
    s.cancel(false);
    assert_eq!(s.mode, SpawnPickerMode::Playing);
    s.cancel(true);
    assert_eq!(s.mode, SpawnPickerMode::Inactive);
    assert_eq!(s.position, None);
}

#[test]
fn room_parts_spawn_by_kind() {
    assert_eq!(
        room_part_spawn(RoomPartKind::Stl, true),
        PartSpawn {
            place: true,
            align_to_hit_normal: false,
            lift_to_player_center: false,
            wireframe_selection: true,
            tracks_geometry: true,
        }
    );
    assert_eq!(
        room_part_spawn(RoomPartKind::Portal, true),
        PartSpawn {
            place: true,
            align_to_hit_normal: true,
            lift_to_player_center: false,
            wireframe_selection: false,
            tracks_geometry: false,
        }
    );
    assert_eq!(
        room_part_spawn(RoomPartKind::Spawnpoint, false),
        PartSpawn {
            place: false,
            align_to_hit_normal: false,
            lift_to_player_center: false,
            wireframe_selection: false,
            tracks_geometry: false,
        }
    );
    assert!(room_part_spawn(RoomPartKind::Spawnpoint, true).lift_to_player_center);
}

#[test]
fn nearest_hit_of_lowest_order() {
    assert_eq!(first_selectable_hit(&vec![]), None);
    assert_eq!(first_selectable_hit(&vec![2, 1, 1, 3]), Some(1));
    assert_eq!(first_selectable_hit(&vec![0, 0]), Some(0));
    assert_eq!(first_selectable_hit(&vec![5, 4, 3]), Some(2));
}

#[test]
fn rooms_with_spawnpoints_are_spawnable() {
    assert_eq!(room_flags_for(&vec![]), RoomFlags::empty());
    assert_eq!(room_flags_for(&vec![RoomPartKind::Stl, RoomPartKind::Portal]), RoomFlags::empty());
    let flags = room_flags_for(&vec![
        RoomPartKind::Spawnpoint,
        RoomPartKind::Stl,
        RoomPartKind::Spawnpoint,
    ]);
    assert_eq!(flags, RoomFlags::spawnable());
    assert!(flags.contains(RoomFlags::spawnable()));
}

#[test]
fn portal_gizmos() {
    assert_eq!(portal_gizmo(true, true, true, false, true), None);
    assert_eq!(
        portal_gizmo(false, false, false, false, false),
        Some(PortalGizmo {
            indication: SelectionIndication::Unselected,
            arrows: true,
            back_arrow: false,
        })
    );
    assert_eq!(
        portal_gizmo(false, true, true, false, true),
        Some(PortalGizmo {
            indication: SelectionIndication::Selected,
            arrows: true,
            back_arrow: true,
        })
    );
    assert_eq!(
        portal_gizmo(false, true, false, true, true),
        Some(PortalGizmo {
            indication: SelectionIndication::Multiselected,
            arrows: false,
            back_arrow: false,
        })
    );
}

#[test]
fn each_mode_and_view_registered_once() {
    let mut s = switcher();
    assert!(s.entries_distinct());
    s.mode_systems[1].1.enter_view =
        vec![(EditorViewMode::Editor, 30), (EditorViewMode::Editor, 31)];
    assert!(!s.entries_distinct());
    let mut t = switcher();
    t.mode_systems[1].0 = EditorMode::Tunnels;
    assert!(!t.entries_distinct());
}
