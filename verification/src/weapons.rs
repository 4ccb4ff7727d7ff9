use vstd::prelude::*;

verus! {

/// The weapons a shooter carries, by slot, and the slot in hand.
pub struct WeaponSlots<W> {
    pub weapons: Vec<Option<W>>,
    pub current: usize,
    pub capacity: usize,
}

impl<W: Copy> WeaponSlots<W> {
    /// `capacity` empty slots, the first in hand.
    pub fn new(capacity: usize) -> (r: Self)
        ensures
            r.capacity == capacity,
            r.current == 0,
            r.weapons@.len() == capacity,
            forall|i: int| 0 <= i < capacity ==> r.weapons@[i] is None,
    {
        let mut weapons: Vec<Option<W>> = Vec::new();
        let mut i: usize = 0;
        while i < capacity
            invariant
                i <= capacity,
                weapons@.len() == i,
                forall|k: int| 0 <= k < i ==> weapons@[k] is None,
            decreases capacity - i,
        {
            weapons.push(None);
            i = i + 1;
        }
        WeaponSlots { weapons, current: 0, capacity }
    }

    /// The search for an empty slot stays inside the slot list: it ends at an empty slot
    /// or at `capacity`, before running past the last slot.
    pub open spec fn search_in_bounds(&self) -> bool {
        self.capacity <= self.weapons@.len() || exists|i: int|
            0 <= i < self.weapons@.len() && self.weapons@[i] is None
    }

    /// Slot `i` is the lowest empty slot below `capacity`.
    pub open spec fn is_first_empty(&self, i: int) -> bool {
        &&& 0 <= i < self.capacity
        &&& i < self.weapons@.len()
        &&& self.weapons@[i] is None
        &&& forall|k: int| 0 <= k < i ==> self.weapons@[k] is Some
    }

    /// There is an empty slot below `capacity`.
    pub open spec fn has_empty(&self) -> bool {
        exists|i: int| 0 <= i < self.capacity && i < self.weapons@.len() && self.weapons@[i] is None
    }

    /// The lowest empty slot below `capacity`.
    pub fn first_empty_slot(&self) -> (r: Option<usize>)
        requires
            self.search_in_bounds(),
        ensures
            match r {
                Some(i) => self.is_first_empty(i as int),
                None => !self.has_empty(),
            },
    {
        let mut i: usize = 0;
        while i < self.capacity
            invariant
                i <= self.capacity,
                self.search_in_bounds(),
                forall|k: int| 0 <= k < i ==> k < self.weapons@.len() && self.weapons@[k] is Some,
            decreases self.capacity - i,
        {
            if i >= self.weapons.len() {
                proof {
                    let w = choose|w: int| 0 <= w < self.weapons@.len() && self.weapons@[w] is None;
                    assert(self.weapons@[w] is Some);
                }
            }
            if self.weapons[i].is_none() {
                return Some(i);
            }
            i = i + 1;
        }
        None
    }

    /// Puts `weapon` into `slot`, or into the lowest empty slot when no slot is given.
    /// Returns the slot used, or `None` (changing nothing) when no slot is given and
    /// every slot is taken.
    pub fn equip(&mut self, weapon: W, slot: Option<usize>) -> (r: Option<usize>)
        requires
            match slot {
                Some(s) => s < old(self).weapons@.len(),
                None => old(self).search_in_bounds(),
            },
        ensures
            final(self).current == old(self).current,
            final(self).capacity == old(self).capacity,
            match slot {
                Some(s) => r == Some(s),
                None => match r {
                    Some(i) => old(self).is_first_empty(i as int),
                    None => !old(self).has_empty(),
                },
            },
            match r {
                Some(i) => final(self).weapons@ == old(self).weapons@.update(i as int, Some(weapon)),
                None => final(self).weapons@ == old(self).weapons@,
            },
    {
        let slot = match slot {
            Some(s) => s,
            None => match self.first_empty_slot() {
                Some(i) => i,
                None => {
                    return None;
                },
            },
        };
        self.weapons.set(slot, Some(weapon));
        Some(slot)
    }

    /// Takes slot `slot` in hand and returns its weapon; `None` with nothing changed when
    /// there is no such slot, `None` with the slot in hand when the slot is empty.
    pub fn switch(&mut self, slot: usize) -> (r: Option<W>)
        ensures
            final(self).weapons@ == old(self).weapons@,
            final(self).capacity == old(self).capacity,
            slot < old(self).weapons@.len() ==> final(self).current == slot && r == old(self).weapons@[slot as int],
            slot >= old(self).weapons@.len() ==> final(self).current == old(self).current && r
                is None,
    {
        if slot >= self.weapons.len() {
            return None;
        }
        self.current = slot;
        self.weapons[slot]
    }
}

/// Switching to the slot a weapon was just equipped into hands that weapon back.
pub proof fn law_equip_then_switch<W>(weapons: Seq<Option<W>>, slot: int, weapon: W)
    requires
        0 <= slot < weapons.len(),
    ensures
        weapons.update(slot, Some(weapon))[slot] == Some(weapon),
        weapons.update(slot, Some(weapon)).len() == weapons.len(),
{
}

/// A weapon lying in the world, and whether it can still be picked up.
pub struct WeaponPickup<W> {
    pub weapon: W,
    pub active: bool,
}

impl<W: Copy> WeaponPickup<W> {
    pub fn new(weapon: W) -> (r: Self)
        ensures
            r.weapon == weapon,
            r.active,
    {
        WeaponPickup { weapon, active: true }
    }

    /// A shooter touches the pickup: an active pickup is equipped into the shooter's lowest
    /// empty slot and deactivated. Returns the slot to switch to, or `None` when the pickup
    /// is inactive or every slot is taken (nothing changes then).
    pub fn pick_up(&mut self, slots: &mut WeaponSlots<W>) -> (r: Option<usize>)
        requires
            old(slots).search_in_bounds(),
        ensures
            !old(self).active ==> r is None && *final(slots) == *old(slots),
            old(self).active ==> match r {
                Some(i) => old(slots).is_first_empty(i as int) && final(slots).weapons@ == old(slots).weapons@.update(i as int, Some(old(self).weapon)),
                None => !old(slots).has_empty() && final(slots).weapons@ == old(slots).weapons@,
            },
            final(slots).current == old(slots).current,
            final(slots).capacity == old(slots).capacity,
            final(self).weapon == old(self).weapon,
            final(self).active == (old(self).active && r is None),
    {
        if !self.active {
            return None;
        }
        let slot = slots.equip(self.weapon, None);
        if slot.is_some() {
            self.active = false;
        }
        slot
    }
}

} // verus!
