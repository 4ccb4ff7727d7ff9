use mines::layout::assets::{rooms_with_flags, PortalDirection, RoomFlags};
use mines::layout::graph::{all_distinct, ConnectionNode, LayoutGraph, PortalNode, RoomNode};
use mines::layout::step::{
    draw_portals, entrance_portals, take_at, next_room_count, pass_trigger, pending_connections,
    LayoutState, LayoutTrigger, TriggerAction,
};
use mines::rng::choose_index;
use rand::Rng;
use wyrand::WyRand;

fn portal(entity: u64, parent: u64, direction: PortalDirection, connection: Option<u64>) -> PortalNode {
    PortalNode { entity, parent, direction, connection }
}

/// Three rooms in a row: 1 (sequence 0) -> 2 (sequence 1) -> 3 (sequence 2).
fn graph() -> LayoutGraph {
    LayoutGraph::new(
        vec![
            RoomNode { entity: 1, sequence: 0, portals: vec![10, 11, 12] },
            RoomNode { entity: 2, sequence: 1, portals: vec![20, 21] },
            RoomNode { entity: 3, sequence: 2, portals: vec![30, 31] },
        ],
        vec![
            portal(10, 1, PortalDirection::Entrance, None),
            portal(11, 1, PortalDirection::Exit, Some(100)),
            portal(12, 1, PortalDirection::Exit, None),
            portal(20, 2, PortalDirection::Entrance, Some(100)),
            portal(21, 2, PortalDirection::Exit, Some(200)),
            portal(30, 3, PortalDirection::Entrance, Some(200)),
            portal(31, 3, PortalDirection::Bidirectional, None),
        ],
        vec![
            ConnectionNode { entity: 100, sequence: 1, from_portal: 11, to_portal: 20 },
            ConnectionNode { entity: 200, sequence: 2, from_portal: 21, to_portal: 30 },
        ],
    )
    .unwrap()
}

#[test]
fn duplicate_entities_are_refused() {
    let g = LayoutGraph::new(
        vec![
            RoomNode { entity: 1, sequence: 0, portals: vec![] },
            RoomNode { entity: 1, sequence: 1, portals: vec![] },
        ],
        vec![],
        vec![],
    );
    assert!(g.is_none());
    assert!(all_distinct(&vec![1, 2, 3]));
    assert!(!all_distinct(&vec![1, 2, 1]));
}

#[test]
fn lookups() {
    let g = graph();
    assert_eq!(g.find_room(2), Some(1));
    assert_eq!(g.find_room(9), None);
    assert_eq!(g.find_portal(21), Some(4));
    assert_eq!(g.find_connection(200), Some(1));
    assert_eq!(g.find_connection(100), Some(0));
}

#[test]
fn open_exits_by_sequence() {
    let g = graph();
    assert_eq!(g.available_exits(0), vec![12]);
    assert_eq!(g.available_exits(1), Vec::<u64>::new());
    assert_eq!(g.available_exits(2), vec![31]);
    assert_eq!(g.available_exits(7), Vec::<u64>::new());
}

#[test]
fn unloading_walks_back_from_the_trigger() {
    let g = graph();
    assert_eq!(g.unload_previous_sequence(200), Some(vec![2, 100, 1]));
    assert_eq!(g.unload_previous_sequence(100), Some(vec![1]));
    assert_eq!(g.unload_previous_sequence(999), None);
}

#[test]
fn walking_from_a_room_records_depths() {
    let g = graph();
    let mut d = vec![(100u64, 0isize)];
    g.walk_room(&mut d, 1, 1);
    assert_eq!(d, vec![(100, 0), (2, 1), (200, 2), (3, 3)]);
}

#[test]
fn unloading_needs_both_rooms() {
    let g = LayoutGraph::new(
        vec![RoomNode { entity: 1, sequence: 0, portals: vec![11] }],
        vec![
            portal(11, 1, PortalDirection::Exit, Some(100)),
            portal(20, 2, PortalDirection::Entrance, Some(100)),
        ],
        vec![ConnectionNode { entity: 100, sequence: 1, from_portal: 11, to_portal: 20 }],
    )
    .unwrap();
    assert_eq!(g.unload_previous_sequence(100), None);
}

#[test]
fn room_flags() {
    let mut f = RoomFlags::empty();
    assert!(!f.contains(RoomFlags::spawnable()));
    assert!(f.contains(RoomFlags::empty()));
    f.insert(RoomFlags::spawnable());
    assert!(f.contains(RoomFlags::spawnable()));
    assert_eq!(RoomFlags::default(), RoomFlags::empty());
    let rooms = vec![RoomFlags::spawnable(), RoomFlags::empty(), RoomFlags { bits: 3 }];
    assert_eq!(rooms_with_flags(&rooms, RoomFlags::spawnable()), vec![0, 2]);
    assert_eq!(rooms_with_flags(&rooms, RoomFlags::empty()), vec![0, 1, 2]);
}

#[test]
fn portal_directions() {
    assert!(PortalDirection::Entrance.is_entrance() && !PortalDirection::Entrance.is_exit());
    assert!(!PortalDirection::Exit.is_entrance() && PortalDirection::Exit.is_exit());
    assert!(PortalDirection::Bidirectional.is_entrance());
    assert!(PortalDirection::Bidirectional.is_exit());
    assert_eq!(PortalDirection::default(), PortalDirection::Entrance);
    assert!(PortalDirection::Entrance.inward_is_up());
    assert!(!PortalDirection::Exit.inward_is_up());
    assert!(!PortalDirection::Bidirectional.inward_is_up());
}

#[test]
fn room_count_draws_from_the_generator() {
    let mut rng = WyRand::new(1);
    assert_eq!(next_room_count(&mut rng, 1), 1);
    for seed in 0..20u64 {
        let mut a = WyRand::new(seed);
        let mut b = WyRand::new(seed);
        let n = next_room_count(&mut a, 5);
        assert_eq!(n, b.gen_range(1..=5));
        assert!((1..=5).contains(&n));
    }
}

#[test]
fn indices_draw_from_the_generator() {
    let mut rng = WyRand::new(3);
    assert_eq!(choose_index(&mut rng, 1), 0);
    for seed in 0..20u64 {
        let mut a = WyRand::new(seed);
        let mut b = WyRand::new(seed);
        assert_eq!(choose_index(&mut a, 9), b.gen_range(0..9));
    }
}

#[test]
fn drawing_portals_keeps_every_portal() {
    let mut rng = WyRand::new(42);
    let (mut drawn, mut rest) = draw_portals(vec![1, 2, 3, 4, 5], 3, &mut rng);
    assert_eq!(drawn.len(), 3);
    assert_eq!(rest.len(), 2);
    drawn.append(&mut rest);
    drawn.sort();
    assert_eq!(drawn, vec![1, 2, 3, 4, 5]);
    let (none, all) = draw_portals(vec![7, 8], 0, &mut rng);
    assert!(none.is_empty());
    assert_eq!(all, vec![7, 8]);
}

#[test]
fn entrances_of_a_room() {
    let dirs = vec![PortalDirection::Entrance, PortalDirection::Exit, PortalDirection::Bidirectional];
    assert_eq!(entrance_portals(&vec![10, 11, 12], &dirs), vec![10, 12]);
    assert_eq!(entrance_portals(&vec![10, 11], &dirs), vec![10]);
    assert_eq!(entrance_portals(&vec![10, 11, 12, 13], &dirs[..1].to_vec()), vec![10]);
}

#[test]
fn pending_connections_pair_each_exit() {
    let mut rng = WyRand::new(9);
    let c = pending_connections(4, &vec![7, 8], vec![20, 21, 22], &mut rng);
    assert_eq!(c.len(), 2);
    assert!(c.iter().all(|p| p.sequence == 4));
    assert_eq!(c[0].from_portal, 7);
    assert_eq!(c[1].from_portal, 8);
    assert_ne!(c[0].to_portal, c[1].to_portal);
    assert!(c.iter().all(|p| [20, 21, 22].contains(&p.to_portal)));
}

#[test]
fn layout_steps_advance_the_sequence() {
    let g = graph();
    let mut state = LayoutState::new(WyRand::new(5));
    assert!(state.can_initialize());
    let (count, exits) = state.begin_step(&g);
    assert_eq!(state.sequence, 1);
    assert_eq!(exits, vec![12]);
    assert_eq!(count, 1);
    assert!(!state.can_initialize());
}

#[test]
fn triggers_on_connections() {
    let g = graph();
    assert!(matches!(pass_trigger(&g, LayoutTrigger::GenerateNextSequence, 999), TriggerAction::Keep));
    assert!(matches!(pass_trigger(&g, LayoutTrigger::GenerateNextSequence, 100), TriggerAction::Consume));
    match pass_trigger(&g, LayoutTrigger::UnloadPreviousSequence, 200) {
        TriggerAction::Unload(v) => assert_eq!(v, vec![2, 100, 1]),
        _ => panic!("expected an unload"),
    }
    assert!(matches!(pass_trigger(&g, LayoutTrigger::UnloadPreviousSequence, 999), TriggerAction::Keep));
}

#[test]
fn portals_listed_by_two_rooms_are_refused() {
    let g = LayoutGraph::new(
        vec![
            RoomNode { entity: 1, sequence: 0, portals: vec![10] },
            RoomNode { entity: 2, sequence: 0, portals: vec![10] },
        ],
        vec![portal(10, 1, PortalDirection::Exit, None)],
        vec![],
    );
    assert!(g.is_none());
    let h = LayoutGraph::new(
        vec![RoomNode { entity: 1, sequence: 0, portals: vec![10, 10] }],
        vec![portal(10, 1, PortalDirection::Exit, None)],
        vec![],
    );
    assert!(h.is_none());
}

#[test]
fn drawn_exits_are_distinct() {
    let mut rng = WyRand::new(11);
    let (drawn, rest) = draw_portals(vec![4, 5, 6, 7], 3, &mut rng);
    let mut all = drawn.clone();
    all.extend(rest);
    all.sort();
    all.dedup();
    assert_eq!(all.len(), 4);
}

#[test]
fn taking_at_indices() {
    let (drawn, rest) = take_at(vec![10, 20, 30, 40], &vec![1, 0, 1]);
    assert_eq!(drawn, vec![20, 10, 40]);
    assert_eq!(rest, vec![30]);
    let (none, all) = take_at(vec![1, 2], &vec![]);
    assert!(none.is_empty());
    assert_eq!(all, vec![1, 2]);
}

#[test]
fn drawing_follows_the_generator() {
    for seed in 0..10u64 {
        let mut a = WyRand::new(seed);
        let mut b = WyRand::new(seed);
        let (drawn, rest) = draw_portals(vec![1, 2, 3, 4, 5, 6], 4, &mut a);
        let mut pool = vec![1u64, 2, 3, 4, 5, 6];
        let mut expected = Vec::new();
        for _ in 0..4 {
            let i = b.gen_range(0..pool.len());
            expected.push(pool.remove(i));
        }
        assert_eq!(drawn, expected);
        assert_eq!(rest, pool);
    }
}
