use mines::weapons::{WeaponPickup, WeaponSlots};

#[test]
fn new_slots_are_empty() {
    let slots: WeaponSlots<u32> = WeaponSlots::new(3);
    assert_eq!(slots.weapons, vec![None, None, None]);
    assert_eq!(slots.current, 0);
    assert_eq!(slots.capacity, 3);
}

#[test]
fn first_empty_slot_is_the_lowest() {
    let mut slots: WeaponSlots<u32> = WeaponSlots::new(3);
    assert_eq!(slots.first_empty_slot(), Some(0));
    slots.weapons[0] = Some(7);
    slots.weapons[2] = Some(9);
    assert_eq!(slots.first_empty_slot(), Some(1));
    slots.weapons[1] = Some(8);
    assert_eq!(slots.first_empty_slot(), None);
}

#[test]
fn zero_capacity_has_no_empty_slot() {
    let slots: WeaponSlots<u32> = WeaponSlots::new(0);
    assert_eq!(slots.first_empty_slot(), None);
}

#[test]
fn equip_fills_slots_in_order() {
    let mut slots: WeaponSlots<&'static str> = WeaponSlots::new(2);
    assert_eq!(slots.equip("pistol", None), Some(0));
    assert_eq!(slots.equip("shotgun", None), Some(1));
    assert_eq!(slots.equip("rifle", None), None);
    assert_eq!(slots.weapons, vec![Some("pistol"), Some("shotgun")]);
}

#[test]
fn equip_into_a_given_slot_replaces() {
    let mut slots: WeaponSlots<&'static str> = WeaponSlots::new(2);
    slots.equip("pistol", None);
    assert_eq!(slots.equip("rifle", Some(0)), Some(0));
    assert_eq!(slots.weapons, vec![Some("rifle"), None]);
}

#[test]
fn equip_then_switch_gives_the_weapon() {
    let mut slots: WeaponSlots<&'static str> = WeaponSlots::new(4);
    let slot = slots.equip("shotgun", Some(2)).unwrap();
    assert_eq!(slots.switch(slot), Some("shotgun"));
    assert_eq!(slots.current, 2);
}

#[test]
fn switch_to_empty_or_missing_slot() {
    let mut slots: WeaponSlots<u32> = WeaponSlots::new(2);
    assert_eq!(slots.switch(1), None);
    assert_eq!(slots.current, 1);
    assert_eq!(slots.switch(5), None);
    assert_eq!(slots.current, 1);
}

#[test]
fn pickup_equips_once() {
    let mut slots: WeaponSlots<u32> = WeaponSlots::new(1);
    let mut pickup = WeaponPickup::new(42);
    assert!(pickup.active);
    assert_eq!(pickup.pick_up(&mut slots), Some(0));
    assert!(!pickup.active);
    assert_eq!(slots.weapons, vec![Some(42)]);
    assert_eq!(pickup.pick_up(&mut slots), None);
}

#[test]
fn pickup_stays_when_slots_are_full() {
    let mut slots: WeaponSlots<u32> = WeaponSlots::new(1);
    slots.equip(1, None);
    let mut pickup = WeaponPickup::new(2);
    assert_eq!(pickup.pick_up(&mut slots), None);
    assert!(pickup.active);
    assert_eq!(slots.weapons, vec![Some(1)]);
}
