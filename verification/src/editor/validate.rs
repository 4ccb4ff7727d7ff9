use vstd::prelude::*;

use crate::layout::assets::PortalDirection;
use crate::text::{decimal, push_decimal};

verus! {

/// Where the two test points of a portal lie: half a unit along the portal's normal
/// (its inward face) and half a unit against it (its outward face), each tested
/// against every cavity of the room.
#[derive(Clone, Copy, Debug, PartialEq, Eq, Structural)]
pub struct PortalProbe {
    pub direction: PortalDirection,
    pub inward_inside: bool,
    pub outward_inside: bool,
}

/// A reason a room cannot be built.
#[derive(Clone, Copy, Debug, PartialEq, Eq, Structural)]
pub enum RoomProblem {
    NoCavities,
    BothFacesInternal { index: usize, direction: PortalDirection },
    BothFacesExternal { index: usize, direction: PortalDirection },
    PointsOutward { index: usize },
    PointsInward { index: usize },
    NoValidEntranceOrExit,
    NoValidEntrance,
    NoValidExit,
    OutOfBoundsSpawnpoints,
}

/// What is wrong with the portal at `index`, if anything.
pub open spec fn probe_problem(p: PortalProbe, index: usize) -> Option<RoomProblem> {
    if p.inward_inside && p.outward_inside {
        Some(RoomProblem::BothFacesInternal { index, direction: p.direction })
    } else if !p.inward_inside && !p.outward_inside {
        Some(RoomProblem::BothFacesExternal { index, direction: p.direction })
    } else if p.direction == PortalDirection::Entrance && p.outward_inside {
        Some(RoomProblem::PointsOutward { index })
    } else if p.direction == PortalDirection::Exit && p.inward_inside {
        Some(RoomProblem::PointsInward { index })
    } else {
        None
    }
}

/// The number of portals in `ps` with direction `d` and no problem.
pub open spec fn count_valid(ps: Seq<PortalProbe>, d: PortalDirection) -> nat
    decreases ps.len(),
{
    if ps.len() == 0 {
        0
    } else {
        let last = ps.len() - 1;
        count_valid(ps.drop_last(), d) + if ps[last].direction == d && probe_problem(
            ps[last],
            last as usize,
        ) is None {
            1nat
        } else {
            0nat
        }
    }
}

/// The problems of the portals in `ps`, in order.
pub open spec fn portal_problems(ps: Seq<PortalProbe>) -> Seq<RoomProblem>
    decreases ps.len(),
{
    if ps.len() == 0 {
        seq![]
    } else {
        let last = ps.len() - 1;
        portal_problems(ps.drop_last()) + match probe_problem(ps[last], last as usize) {
            Some(x) => seq![x],
            None => seq![],
        }
    }
}

/// Whether the valid portals let the room be both entered and left.
pub open spec fn connectivity_problem(entrances: nat, exits: nat, bidirectionals: nat) -> Option<
    RoomProblem,
> {
    if entrances == 0 && exits == 0 && bidirectionals < 2 {
        Some(RoomProblem::NoValidEntranceOrExit)
    } else if entrances == 0 && exits == 1 && bidirectionals == 0 {
        Some(RoomProblem::NoValidEntrance)
    } else if entrances == 1 && exits == 0 && bidirectionals == 0 {
        Some(RoomProblem::NoValidExit)
    } else {
        None
    }
}

/// A room whose valid portals offer a way in and a different way out has no connectivity
/// problem: an entrance or bidirectional portal, an exit or bidirectional portal, and at
/// least two valid portals in all.
pub proof fn law_entry_and_exit_suffice(entrances: nat, exits: nat, bidirectionals: nat)
    requires
        entrances + bidirectionals >= 1,
        exits + bidirectionals >= 1,
        entrances + exits + bidirectionals >= 2,
    ensures
        connectivity_problem(entrances, exits, bidirectionals) is None,
{
}

pub open spec fn opt_problem(p: Option<RoomProblem>) -> Seq<RoomProblem> {
    match p {
        Some(x) => seq![x],
        None => seq![],
    }
}

/// All problems of a room with `cavities` cavities, the portal probes `ps` and
/// `spawnpoints_outside` telling whether some spawnpoint lies in no cavity.
pub open spec fn room_problems(cavities: nat, ps: Seq<PortalProbe>, spawnpoints_outside: bool) -> Seq<
    RoomProblem,
> {
    (if cavities == 0 { seq![RoomProblem::NoCavities] } else { seq![] }) + portal_problems(ps)
        + opt_problem(
        connectivity_problem(
            count_valid(ps, PortalDirection::Entrance),
            count_valid(ps, PortalDirection::Exit),
            count_valid(ps, PortalDirection::Bidirectional),
        ),
    ) + (if spawnpoints_outside { seq![RoomProblem::OutOfBoundsSpawnpoints] } else { seq![] })
}

/// Lists what keeps a room from being built, in the order the checks run: no cavity,
/// then each portal whose faces do not straddle a cavity wall the way its direction
/// asks, then a room that cannot be both entered and left through its valid portals,
/// then spawnpoints outside every cavity.
pub fn validate_room(cavities: usize, portals: &Vec<PortalProbe>, spawnpoints_outside: bool) -> (r:
    Vec<RoomProblem>)
    requires
        count_valid(portals@, PortalDirection::Entrance) <= u8::MAX,
        count_valid(portals@, PortalDirection::Exit) <= u8::MAX,
        count_valid(portals@, PortalDirection::Bidirectional) <= u8::MAX,
    ensures
        r@ == room_problems(cavities as nat, portals@, spawnpoints_outside),
{
    let mut problems: Vec<RoomProblem> = Vec::new();
    if cavities == 0 {
        problems.push(RoomProblem::NoCavities);
    }
    let ghost start = problems@;
    let mut entrances: u8 = 0;
    let mut exits: u8 = 0;
    let mut bidirectionals: u8 = 0;
    let mut i: usize = 0;
    while i < portals.len()
        invariant
            i <= portals.len(),
            problems@ == start + portal_problems(portals@.subrange(0, i as int)),
            entrances == count_valid(portals@.subrange(0, i as int), PortalDirection::Entrance),
            exits == count_valid(portals@.subrange(0, i as int), PortalDirection::Exit),
            bidirectionals == count_valid(
                portals@.subrange(0, i as int),
                PortalDirection::Bidirectional,
            ),
            count_valid(portals@, PortalDirection::Entrance) <= u8::MAX,
            count_valid(portals@, PortalDirection::Exit) <= u8::MAX,
            count_valid(portals@, PortalDirection::Bidirectional) <= u8::MAX,
        decreases portals.len() - i,
    {
        let p = portals[i];
        let ghost before = portals@.subrange(0, i as int);
        let ghost after = portals@.subrange(0, i + 1);
        proof {
            assert(after.drop_last() =~= before);
            assert(after[i as int] == p);
            lemma_count_valid_prefix(portals@, (i + 1) as int, PortalDirection::Entrance);
            lemma_count_valid_prefix(portals@, (i + 1) as int, PortalDirection::Exit);
            lemma_count_valid_prefix(portals@, (i + 1) as int, PortalDirection::Bidirectional);
        }
        if p.inward_inside && p.outward_inside {
            problems.push(RoomProblem::BothFacesInternal { index: i, direction: p.direction });
        } else if !p.inward_inside && !p.outward_inside {
            problems.push(RoomProblem::BothFacesExternal { index: i, direction: p.direction });
        } else if p.direction == PortalDirection::Entrance && p.outward_inside {
            problems.push(RoomProblem::PointsOutward { index: i });
        } else if p.direction == PortalDirection::Exit && p.inward_inside {
            problems.push(RoomProblem::PointsInward { index: i });
        } else {
            match p.direction {
                PortalDirection::Entrance => {
                    entrances = entrances + 1;
                },
                PortalDirection::Exit => {
                    exits = exits + 1;
                },
                PortalDirection::Bidirectional => {
                    bidirectionals = bidirectionals + 1;
                },
            }
        }
        i = i + 1;
    }
    proof {
        assert(portals@.subrange(0, portals@.len() as int) =~= portals@);
    }
    if entrances == 0 && exits == 0 && bidirectionals < 2 {
        problems.push(RoomProblem::NoValidEntranceOrExit);
    } else if entrances == 0 && exits == 1 && bidirectionals == 0 {
        problems.push(RoomProblem::NoValidEntrance);
    } else if entrances == 1 && exits == 0 && bidirectionals == 0 {
        problems.push(RoomProblem::NoValidExit);
    }
    if spawnpoints_outside {
        problems.push(RoomProblem::OutOfBoundsSpawnpoints);
    }
    problems
}

/// Counting over a prefix never exceeds counting over the whole sequence.
proof fn lemma_count_valid_prefix(ps: Seq<PortalProbe>, n: int, d: PortalDirection)
    requires
        0 <= n <= ps.len(),
    ensures
        count_valid(ps.subrange(0, n), d) <= count_valid(ps, d),
    decreases ps.len() - n,
{
    if n < ps.len() {
        lemma_count_valid_prefix(ps, n + 1, d);
        assert(ps.subrange(0, n + 1).drop_last() =~= ps.subrange(0, n));
    } else {
        assert(ps.subrange(0, n) =~= ps);
    }
}

impl RoomProblem {
    pub open spec fn spec_message(self) -> Seq<char> {
        match self {
            RoomProblem::NoCavities => "no cavities"@,
            RoomProblem::BothFacesInternal { index, direction } => "portal ["@ + decimal(
                index as nat,
            ) + "] direction is "@ + direction.spec_name() + " but both faces are internal"@,
            RoomProblem::BothFacesExternal { index, direction } => "portal ["@ + decimal(
                index as nat,
            ) + "] direction is "@ + direction.spec_name() + " but both faces are external"@,
            RoomProblem::PointsOutward { index } => "portal ["@ + decimal(index as nat)
                + "] direction is "@ + PortalDirection::Entrance.spec_name()
                + " but it points outward"@,
            RoomProblem::PointsInward { index } => "portal ["@ + decimal(index as nat)
                + "] direction is "@ + PortalDirection::Exit.spec_name()
                + " but it points inward"@,
            RoomProblem::NoValidEntranceOrExit => "no valid entrance or exit"@,
            RoomProblem::NoValidEntrance => "no valid entrance"@,
            RoomProblem::NoValidExit => "no valid exit"@,
            RoomProblem::OutOfBoundsSpawnpoints => "out-of-bounds spawnpoint(s)"@,
        }
    }

    /// The problem as it is reported to the user.
    pub fn message(&self) -> (r: String)
        ensures
            r@ == self.spec_message(),
    {
        match self {
            RoomProblem::NoCavities => String::from_str("no cavities"),
            RoomProblem::BothFacesInternal { index, direction } => {
                portal_message(*index, direction.name(), " but both faces are internal")
            },
            RoomProblem::BothFacesExternal { index, direction } => {
                portal_message(*index, direction.name(), " but both faces are external")
            },
            RoomProblem::PointsOutward { index } => {
                portal_message(*index, PortalDirection::Entrance.name(), " but it points outward")
            },
            RoomProblem::PointsInward { index } => {
                portal_message(*index, PortalDirection::Exit.name(), " but it points inward")
            },
            RoomProblem::NoValidEntranceOrExit => String::from_str("no valid entrance or exit"),
            RoomProblem::NoValidEntrance => String::from_str("no valid entrance"),
            RoomProblem::NoValidExit => String::from_str("no valid exit"),
            RoomProblem::OutOfBoundsSpawnpoints => String::from_str("out-of-bounds spawnpoint(s)"),
        }
    }
}

fn portal_message(index: usize, direction: &str, tail: &str) -> (r: String)
    ensures
        r@ == "portal ["@ + decimal(index as nat) + "] direction is "@ + direction@ + tail@,
{
    let mut s = String::from_str("portal [");
    push_decimal(&mut s, index);
    s.append("] direction is ");
    s.append(direction);
    s.append(tail);
    s
}

/// The report of a failed room build: one line `- <message>` per problem.
pub open spec fn problems_report(ps: Seq<RoomProblem>) -> Seq<char>
    decreases ps.len(),
{
    if ps.len() == 0 {
        seq![]
    } else if ps.len() == 1 {
        "- "@ + ps[0].spec_message()
    } else {
        problems_report(ps.drop_last()) + "\n- "@ + ps.last().spec_message()
    }
}

pub fn report_problems(problems: &Vec<RoomProblem>) -> (r: String)
    ensures
        r@ == problems_report(problems@),
{
    let mut s = String::new();
    let mut i: usize = 0;
    while i < problems.len()
        invariant
            i <= problems.len(),
            s@ == problems_report(problems@.subrange(0, i as int)),
        decreases problems.len() - i,
    {
        let ghost next = problems@.subrange(0, i + 1);
        proof {
            assert(next.drop_last() =~= problems@.subrange(0, i as int));
        }
        if i > 0 {
            s.append("\n- ");
        } else {
            s.append("- ");
        }
        let m = problems[i].message();
        s.append(m.as_str());
        i = i + 1;
    }
    proof {
        assert(problems@.subrange(0, problems@.len() as int) =~= problems@);
    }
    s
}

} // verus!
