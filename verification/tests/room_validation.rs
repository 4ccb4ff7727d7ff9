use mines::editor::validate::{report_problems, validate_room, PortalProbe, RoomProblem};
use mines::layout::assets::PortalDirection;

fn probe(direction: PortalDirection, inward_inside: bool, outward_inside: bool) -> PortalProbe {
    PortalProbe { direction, inward_inside, outward_inside }
}

#[test]
fn valid_room_has_no_problems() {
    let portals = vec![
        probe(PortalDirection::Entrance, true, false),
        probe(PortalDirection::Exit, false, true),
    ];
    assert_eq!(validate_room(1, &portals, false), vec![]);
}

#[test]
fn two_bidirectional_portals_suffice() {
    let portals = vec![
        probe(PortalDirection::Bidirectional, true, false),
        probe(PortalDirection::Bidirectional, false, true),
    ];
    assert_eq!(validate_room(2, &portals, false), vec![]);
}

#[test]
fn room_without_cavities_or_portals() {
    assert_eq!(
        validate_room(0, &vec![], false),
        vec![RoomProblem::NoCavities, RoomProblem::NoValidEntranceOrExit]
    );
}

#[test]
fn portal_problems_are_reported_in_order() {
    let portals = vec![
        probe(PortalDirection::Entrance, true, true),
        probe(PortalDirection::Exit, false, false),
        probe(PortalDirection::Entrance, false, true),
        probe(PortalDirection::Exit, true, false),
        probe(PortalDirection::Bidirectional, false, true),
    ];
    assert_eq!(
        validate_room(1, &portals, true),
        vec![
            RoomProblem::BothFacesInternal { index: 0, direction: PortalDirection::Entrance },
            RoomProblem::BothFacesExternal { index: 1, direction: PortalDirection::Exit },
            RoomProblem::PointsOutward { index: 2 },
            RoomProblem::PointsInward { index: 3 },
            RoomProblem::NoValidEntranceOrExit,
            RoomProblem::OutOfBoundsSpawnpoints,
        ]
    );
}

#[test]
fn missing_entrance_or_exit() {
    let only_exit = vec![probe(PortalDirection::Exit, false, true)];
    assert_eq!(validate_room(1, &only_exit, false), vec![RoomProblem::NoValidEntrance]);
    let only_entrance = vec![probe(PortalDirection::Entrance, true, false)];
    assert_eq!(validate_room(1, &only_entrance, false), vec![RoomProblem::NoValidExit]);
    let one_bidirectional = vec![probe(PortalDirection::Bidirectional, true, false)];
    assert_eq!(
        validate_room(1, &one_bidirectional, false),
        vec![RoomProblem::NoValidEntranceOrExit]
    );
}

#[test]
fn problem_messages() {
    assert_eq!(RoomProblem::NoCavities.message(), "no cavities");
    assert_eq!(
        RoomProblem::BothFacesInternal { index: 12, direction: PortalDirection::Bidirectional }
            .message(),
        "portal [12] direction is Bidirectional but both faces are internal"
    );
    assert_eq!(
        RoomProblem::BothFacesExternal { index: 0, direction: PortalDirection::Exit }.message(),
        "portal [0] direction is Exit but both faces are external"
    );
    assert_eq!(
        RoomProblem::PointsOutward { index: 3 }.message(),
        "portal [3] direction is Entrance but it points outward"
    );
    assert_eq!(
        RoomProblem::PointsInward { index: 7 }.message(),
        "portal [7] direction is Exit but it points inward"
    );
    assert_eq!(RoomProblem::NoValidEntrance.message(), "no valid entrance");
    assert_eq!(RoomProblem::NoValidExit.message(), "no valid exit");
    assert_eq!(RoomProblem::NoValidEntranceOrExit.message(), "no valid entrance or exit");
    assert_eq!(RoomProblem::OutOfBoundsSpawnpoints.message(), "out-of-bounds spawnpoint(s)");
}

#[test]
fn problem_report_lists_each_problem() {
    let report = report_problems(&vec![RoomProblem::NoCavities, RoomProblem::NoValidExit]);
    assert_eq!(report, "- no cavities\n- no valid exit");
    assert_eq!(report_problems(&vec![]), "");
}

#[test]
fn direction_names() {
    assert_eq!(PortalDirection::Entrance.name(), "Entrance");
    assert_eq!(PortalDirection::Exit.name(), "Exit");
    assert_eq!(PortalDirection::Bidirectional.name(), "Bidirectional");
}
