use vstd::prelude::*;

use crate::layout::assets::RoomFlags;

verus! {

/// The kinds of part a room is built from.
#[derive(Clone, Copy, Debug, PartialEq, Eq, Structural)]
pub enum RoomPartKind {
    /// Imported geometry, carved out of the rock.
    Stl,
    Portal,
    Spawnpoint,
}

/// How an editor entity for a room part is set up.
#[derive(Clone, Copy, Debug, PartialEq, Eq, Structural)]
pub struct PartSpawn {
    /// The entity follows the cursor until placed, rather than appearing where it is.
    pub place: bool,
    /// While placed, the entity turns to face along the surface it is put on.
    pub align_to_hit_normal: bool,
    /// While placed, the entity is lifted by half a player's height.
    pub lift_to_player_center: bool,
    /// Selection shows as a wireframe colour rather than as a material.
    pub wireframe_selection: bool,
    /// The entity remembers the hash of its geometry, to notice when it changes.
    pub tracks_geometry: bool,
}

/// The editor entity spawned for a room part of `kind`, placed by the user first when
/// `place_after_spawn` is set: geometry keeps its hash and shows selection as a wireframe;
/// portals and spawnpoints show it as a material; portals align to the surface they are
/// placed on, spawnpoints stand on it.
pub fn room_part_spawn(kind: RoomPartKind, place_after_spawn: bool) -> (r: PartSpawn)
    ensures
        r.place == place_after_spawn,
        r.align_to_hit_normal == (place_after_spawn && kind == RoomPartKind::Portal),
        r.lift_to_player_center == (place_after_spawn && kind == RoomPartKind::Spawnpoint),
        r.wireframe_selection == (kind == RoomPartKind::Stl),
        r.tracks_geometry == (kind == RoomPartKind::Stl),
{
    match kind {
        RoomPartKind::Stl => PartSpawn {
            place: place_after_spawn,
            align_to_hit_normal: false,
            lift_to_player_center: false,
            wireframe_selection: true,
            tracks_geometry: true,
        },
        RoomPartKind::Portal => PartSpawn {
            place: place_after_spawn,
            align_to_hit_normal: place_after_spawn,
            lift_to_player_center: false,
            wireframe_selection: false,
            tracks_geometry: false,
        },
        RoomPartKind::Spawnpoint => PartSpawn {
            place: place_after_spawn,
            align_to_hit_normal: false,
            lift_to_player_center: place_after_spawn,
            wireframe_selection: false,
            tracks_geometry: false,
        },
    }
}

/// The flags of a room built from parts of the kinds `kinds`: spawnable exactly when
/// one of the parts is a spawnpoint.
pub fn room_flags_for(kinds: &Vec<RoomPartKind>) -> (r: RoomFlags)
    ensures
        r.bits == if kinds@.contains(RoomPartKind::Spawnpoint) {
            1u8
        } else {
            0u8
        },
{
    let mut flags = RoomFlags::empty();
    let mut i: usize = 0;
    while i < kinds.len()
        invariant
            i <= kinds@.len(),
            flags.bits == if kinds@.take(i as int).contains(RoomPartKind::Spawnpoint) {
                1u8
            } else {
                0u8
            },
        decreases kinds@.len() - i,
    {
        proof {
            let t0 = kinds@.take(i as int);
            let t1 = kinds@.take(i + 1);
            assert(t1 =~= t0.push(kinds@[i as int]));
            assert(t1[i as int] == kinds@[i as int]);
            if t0.contains(RoomPartKind::Spawnpoint) {
                let k = choose|k: int| 0 <= k < t0.len() && #[trigger] t0[k] == RoomPartKind::Spawnpoint;
                assert(t1[k] == RoomPartKind::Spawnpoint);
            }
            if t1.contains(RoomPartKind::Spawnpoint) && kinds@[i as int] != RoomPartKind::Spawnpoint {
                let k = choose|k: int| 0 <= k < t1.len() && #[trigger] t1[k] == RoomPartKind::Spawnpoint;
                assert(t0[k] == RoomPartKind::Spawnpoint);
            }
        }
        if kinds[i] == RoomPartKind::Spawnpoint {
            let before = flags.bits;
            flags.insert(RoomFlags::spawnable());
            assert(before == 0 || before == 1);
            assert((0u8 | 1u8) == 1u8) by (bit_vector);
            assert((1u8 | 1u8) == 1u8) by (bit_vector);
        }
        i = i + 1;
    }
    proof {
        assert(kinds@.take(kinds@.len() as int) =~= kinds@);
    }
    flags
}

} // verus!
