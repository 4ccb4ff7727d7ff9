use vstd::prelude::*;

verus! {

/// Which way a room portal may be traversed.
#[derive(Clone, Copy, Debug, PartialEq, Eq, Structural, Hash)]
pub enum PortalDirection {
    Entrance,
    Exit,
    Bidirectional,
}

impl PortalDirection {
    pub open spec fn spec_is_entrance(self) -> bool {
        self != PortalDirection::Exit
    }

    pub open spec fn spec_is_exit(self) -> bool {
        self != PortalDirection::Entrance
    }

    /// Entrances and bidirectional portals can be entered.
    pub fn is_entrance(&self) -> (r: bool)
        ensures
            r == self.spec_is_entrance(),
    {
        match self {
            PortalDirection::Entrance => true,
            PortalDirection::Exit => false,
            PortalDirection::Bidirectional => true,
        }
    }

    /// Exits and bidirectional portals can be left through.
    pub fn is_exit(&self) -> (r: bool)
        ensures
            r == self.spec_is_exit(),
    {
        match self {
            PortalDirection::Entrance => false,
            PortalDirection::Exit => true,
            PortalDirection::Bidirectional => true,
        }
    }
}

impl PortalDirection {
    pub open spec fn spec_name(self) -> Seq<char> {
        match self {
            PortalDirection::Entrance => "Entrance"@,
            PortalDirection::Exit => "Exit"@,
            PortalDirection::Bidirectional => "Bidirectional"@,
        }
    }

    /// Whether a portal's inward side is along its up axis: so for entrances, while exits
    /// and bidirectional portals face the other way.
    pub fn inward_is_up(&self) -> (r: bool)
        ensures
            r == (*self == PortalDirection::Entrance),
    {
        match self {
            PortalDirection::Entrance => true,
            PortalDirection::Exit => false,
            PortalDirection::Bidirectional => false,
        }
    }

    /// The direction's name as it is displayed.
    pub fn name(&self) -> (r: &'static str)
        ensures
            r@ == self.spec_name(),
    {
        match self {
            PortalDirection::Entrance => "Entrance",
            PortalDirection::Exit => "Exit",
            PortalDirection::Bidirectional => "Bidirectional",
        }
    }
}

impl Default for PortalDirection {
    fn default() -> (r: PortalDirection)
        ensures
            r == PortalDirection::Entrance,
    {
        PortalDirection::Entrance
    }
}

/// Flags describing what a room may be used for, as bits.
#[derive(Clone, Copy, Debug, PartialEq, Eq, Structural)]
pub struct RoomFlags {
    pub bits: u8,
}

impl RoomFlags {
    pub open spec fn spec_contains(self, other: RoomFlags) -> bool {
        self.bits & other.bits == other.bits
    }

    /// No flags set.
    pub fn empty() -> (r: RoomFlags)
        ensures
            r.bits == 0,
    {
        RoomFlags { bits: 0 }
    }

    /// The room has spawnpoints and can start a layout.
    pub fn spawnable() -> (r: RoomFlags)
        ensures
            r.bits == 1,
    {
        RoomFlags { bits: 1 }
    }

    /// Whether every flag of `other` is set in `self`.
    pub fn contains(&self, other: RoomFlags) -> (r: bool)
        ensures
            r == self.spec_contains(other),
    {
        self.bits & other.bits == other.bits
    }

    /// Sets every flag of `other`.
    pub fn insert(&mut self, other: RoomFlags)
        ensures
            final(self).bits == old(self).bits | other.bits,
            final(self).spec_contains(other),
            final(self).spec_contains(*old(self)),
    {
        let a = self.bits;
        let b = other.bits;
        self.bits = a | b;
        assert((a | b) & b == b) by (bit_vector);
        assert((a | b) & a == a) by (bit_vector);
    }
}

impl Default for RoomFlags {
    fn default() -> (r: RoomFlags)
        ensures
            r.bits == 0,
    {
        RoomFlags { bits: 0 }
    }
}

/// Indices `i < n` of the rooms whose flags contain `flags`, in order.
pub open spec fn rooms_with_flags_upto(room_flags: Seq<RoomFlags>, flags: RoomFlags, n: int) -> Seq<usize>
    decreases n,
{
    if n <= 0 {
        seq![]
    } else {
        rooms_with_flags_upto(room_flags, flags, n - 1) + if room_flags[n - 1].spec_contains(flags) {
            seq![(n - 1) as usize]
        } else {
            seq![]
        }
    }
}

/// The rooms (by index) that a room with `flags` may be chosen from.
pub fn rooms_with_flags(room_flags: &Vec<RoomFlags>, flags: RoomFlags) -> (r: Vec<usize>)
    ensures
        r@ == rooms_with_flags_upto(room_flags@, flags, room_flags@.len() as int),
        forall|k: int| 0 <= k < r@.len() ==> r@[k] < room_flags@.len() && room_flags@[r@[k] as int].spec_contains(flags),
{
    let mut r: Vec<usize> = Vec::new();
    let mut i: usize = 0;
    while i < room_flags.len()
        invariant
            i <= room_flags@.len(),
            r@ == rooms_with_flags_upto(room_flags@, flags, i as int),
            forall|k: int| 0 <= k < r@.len() ==> r@[k] < i && room_flags@[r@[k] as int].spec_contains(flags),
        decreases room_flags@.len() - i,
    {
        if room_flags[i].contains(flags) {
            r.push(i);
        }
        proof {
            assert(r@ =~= rooms_with_flags_upto(room_flags@, flags, i + 1));
        }
        i = i + 1;
    }
    r
}

} // verus!
