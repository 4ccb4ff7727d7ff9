use vstd::prelude::*;

verus! {

/// What the cursor can pick.
#[derive(Clone, Copy, Debug, PartialEq, Eq, Structural, Hash)]
pub enum PickingMode {
    Selectable,
    Terrain,
    GroundPlane,
}

/// What the cursor points at in each picking mode this frame (`T` holds the hit).
pub struct PickingTargets<T> {
    pub selectable: Option<T>,
    pub terrain: Option<T>,
    pub ground_plane: Option<T>,
}

impl<T> PickingTargets<T> {
    pub open spec fn spec_target(&self, mode: PickingMode) -> Option<T> {
        match mode {
            PickingMode::Selectable => self.selectable,
            PickingMode::Terrain => self.terrain,
            PickingMode::GroundPlane => self.ground_plane,
        }
    }

    /// The first target among `modes`, in their order.
    pub open spec fn spec_targets(&self, modes: Seq<PickingMode>) -> Option<T>
        decreases modes.len(),
    {
        if modes.len() == 0 {
            None
        } else if self.spec_target(modes[0]) is Some {
            self.spec_target(modes[0])
        } else {
            self.spec_targets(modes.skip(1))
        }
    }

    /// No targets in any mode.
    pub fn new() -> (r: Self)
        ensures
            r.selectable is None,
            r.terrain is None,
            r.ground_plane is None,
    {
        PickingTargets { selectable: None, terrain: None, ground_plane: None }
    }

    pub fn target(&self, mode: &PickingMode) -> (r: &Option<T>)
        ensures
            *r == self.spec_target(*mode),
    {
        match mode {
            PickingMode::Selectable => &self.selectable,
            PickingMode::Terrain => &self.terrain,
            PickingMode::GroundPlane => &self.ground_plane,
        }
    }

    /// The target of the first mode in `modes` that has one.
    pub fn targets(&self, modes: &[PickingMode]) -> (r: Option<&T>)
        ensures
            r == match self.spec_targets(modes@) {
                Some(t) => Some(&t),
                None => None,
            },
    {
        let mut i: usize = 0;
        proof {
            assert(modes@.skip(0) =~= modes@);
        }
        while i < modes.len()
            invariant
                i <= modes@.len(),
                self.spec_targets(modes@) == self.spec_targets(modes@.skip(i as int)),
            decreases modes@.len() - i,
        {
            proof {
                assert(modes@.skip(i as int).skip(1) =~= modes@.skip(i + 1));
                assert(modes@.skip(i as int)[0] == modes@[i as int]);
            }
            match self.target(&modes[i]) {
                Some(t) => {
                    return Some(t);
                },
                None => {},
            }
            i = i + 1;
        }
        None
    }

    /// Sets the target of `mode`.
    pub fn set(&mut self, mode: PickingMode, target: Option<T>)
        ensures
            final(self).spec_target(mode) == target,
            forall|m: PickingMode| m != mode ==> final(self).spec_target(m) == old(self).spec_target(m),
    {
        match mode {
            PickingMode::Selectable => {
                self.selectable = target;
            },
            PickingMode::Terrain => {
                self.terrain = target;
            },
            PickingMode::GroundPlane => {
                self.ground_plane = target;
            },
        }
    }

    /// Forgets every target (the pointer is over the UI).
    pub fn clear(&mut self)
        ensures
            forall|m: PickingMode| final(self).spec_target(m) is None,
    {
        self.selectable = None;
        self.terrain = None;
        self.ground_plane = None;
    }
}

/// Which of the selectable entities hit by the cursor ray (in order along the ray, each
/// with its selection order) is picked: the nearest among those of the lowest order.
pub fn first_selectable_hit(orders: &Vec<u8>) -> (r: Option<usize>)
    ensures
        match r {
            None => orders@.len() == 0,
            Some(i) => {
                &&& i < orders@.len()
                &&& forall|k: int| 0 <= k < orders@.len() ==> orders@[i as int] <= #[trigger] orders@[k]
                &&& forall|k: int| 0 <= k < i ==> orders@[i as int] < #[trigger] orders@[k]
            },
        },
{
    if orders.len() == 0 {
        return None;
    }
    let mut best: usize = 0;
    let mut k: usize = 1;
    while k < orders.len()
        invariant
            1 <= k <= orders@.len(),
            best < k,
            forall|q: int| 0 <= q < k ==> orders@[best as int] <= #[trigger] orders@[q],
            forall|q: int| 0 <= q < best ==> orders@[best as int] < #[trigger] orders@[q],
        decreases orders@.len() - k,
    {
        if orders[k] < orders[best] {
            best = k;
        }
        k = k + 1;
    }
    Some(best)
}

/// What a click does to the selection.
#[derive(Clone, Copy, Debug, PartialEq, Eq, Structural)]
pub struct PickAction {
    /// Drop every current selection first.
    pub clear_selection: bool,
    /// The entity that becomes the primary selection.
    pub select: Option<u64>,
}

/// Selection by clicking: nothing happens while an entity is being placed, while the spawn
/// picker is active, unless the left button was just released, or while a gizmo is
/// focused. Otherwise a click without shift drops the selection, and the entity under the
/// cursor (if any) becomes the primary selection.
pub fn pick_action(
    placing: bool,
    spawn_picker_active: bool,
    just_released: bool,
    gizmo_focused: bool,
    multiselect: bool,
    hovered: Option<u64>,
) -> (r: PickAction)
    ensures
        (placing || spawn_picker_active || !just_released || gizmo_focused) ==> r == (PickAction {
            clear_selection: false,
            select: None,
        }),
        !(placing || spawn_picker_active || !just_released || gizmo_focused) ==> r == (PickAction {
            clear_selection: !multiselect,
            select: hovered,
        }),
{
    if placing || spawn_picker_active || !just_released || gizmo_focused {
        return PickAction { clear_selection: false, select: None };
    }
    PickAction { clear_selection: !multiselect, select: hovered }
}

/// How a selectable entity is drawn.
#[derive(Clone, Copy, Debug, PartialEq, Eq, Structural)]
pub enum SelectionIndication {
    Unselected,
    Selected,
    Multiselected,
}

/// Selected entities are drawn as selected when they are the primary selection and as
/// multiselected otherwise.
pub fn selection_indication(selected: bool, primary: bool) -> (r: SelectionIndication)
    ensures
        r == if !selected {
            SelectionIndication::Unselected
        } else if primary {
            SelectionIndication::Selected
        } else {
            SelectionIndication::Multiselected
        },
{
    if selected {
        if primary {
            SelectionIndication::Selected
        } else {
            SelectionIndication::Multiselected
        }
    } else {
        SelectionIndication::Unselected
    }
}

/// What happens this frame to an entity being placed.
#[derive(Clone, Copy, Debug, PartialEq, Eq, Structural)]
pub enum PlacementStep {
    /// Nothing under the cursor and no click: wait.
    Wait,
    /// Follow the cursor.
    Follow,
    /// Follow the cursor and finish placing.
    FollowAndFinish,
    /// The click landed on nothing: cancel placing.
    Cancel,
}

/// The placed entity follows the target under the cursor; a finishing click places it
/// there, or cancels the placement when nothing is under the cursor.
pub fn placement_step(has_target: bool, finish: bool) -> (r: PlacementStep)
    ensures
        r == if has_target {
            if finish {
                PlacementStep::FollowAndFinish
            } else {
                PlacementStep::Follow
            }
        } else if finish {
            PlacementStep::Cancel
        } else {
            PlacementStep::Wait
        },
{
    if has_target {
        if finish {
            PlacementStep::FollowAndFinish
        } else {
            PlacementStep::Follow
        }
    } else if finish {
        PlacementStep::Cancel
    } else {
        PlacementStep::Wait
    }
}

/// Where the play-test spawn picker is.
#[derive(Clone, Copy, Debug, PartialEq, Eq, Structural)]
pub enum SpawnPickerMode {
    Inactive,
    Picking,
    Spawning,
    Playing,
    Despawning,
}

/// The play-test spawn picker and the position picked (`P` holds a world position).
pub struct SpawnPickerState<P> {
    pub mode: SpawnPickerMode,
    pub position: Option<P>,
}

impl<P: Copy> SpawnPickerState<P> {
    pub fn new() -> (r: Self)
        ensures
            r.mode == SpawnPickerMode::Inactive,
            r.position is None,
    {
        SpawnPickerState { mode: SpawnPickerMode::Inactive, position: None }
    }

    /// While picking (and the pointer is not over the UI) the position follows the terrain
    /// target; releasing the button spawns there, or gives up when there is no target.
    pub fn pick_spawn_position(&mut self, ui_has_pointer: bool, target: Option<P>, just_released: bool)
        ensures
            (ui_has_pointer || old(self).mode != SpawnPickerMode::Picking) ==> *final(self) == *old(self),
            !(ui_has_pointer || old(self).mode != SpawnPickerMode::Picking) ==> final(self).position
                == target && final(self).mode == if !just_released {
                SpawnPickerMode::Picking
            } else if target is Some {
                SpawnPickerMode::Spawning
            } else {
                SpawnPickerMode::Inactive
            },
    {
        if ui_has_pointer {
            return;
        }
        if self.mode != SpawnPickerMode::Picking {
            return;
        }
        self.position = target;
        if just_released {
            self.mode = if self.position.is_some() {
                SpawnPickerMode::Spawning
            } else {
                SpawnPickerMode::Inactive
            };
        }
    }

    /// Advances a play test that is spawning (to playing) or despawning (to inactive, the
    /// position forgotten), when a position is picked and there is a camera. Returns the new
    /// mode; the caller hides the editor camera and spawns the player at the position for
    /// `Playing`, and shows the camera and despawns the player for `Inactive`.
    pub fn playtest(&mut self, has_camera: bool) -> (r: Option<SpawnPickerMode>)
        ensures
            r == if old(self).position is None || !has_camera {
                None
            } else {
                match old(self).mode {
                    SpawnPickerMode::Spawning => Some(SpawnPickerMode::Playing),
                    SpawnPickerMode::Despawning => Some(SpawnPickerMode::Inactive),
                    _ => None,
                }
            },
            r is None ==> *final(self) == *old(self),
            r == Some(SpawnPickerMode::Playing) ==> final(self).mode == SpawnPickerMode::Playing
                && final(self).position == old(self).position,
            r == Some(SpawnPickerMode::Inactive) ==> final(self).mode == SpawnPickerMode::Inactive
                && final(self).position is None,
    {
        if self.position.is_none() {
            return None;
        }
        let next = match self.mode {
            SpawnPickerMode::Spawning => SpawnPickerMode::Playing,
            SpawnPickerMode::Despawning => SpawnPickerMode::Inactive,
            _ => {
                return None;
            },
        };
        if !has_camera {
            return None;
        }
        if next == SpawnPickerMode::Inactive {
            self.position = None;
        }
        self.mode = next;
        Some(next)
    }

    /// Ends any play test (when there is a camera): the picker is inactive with no position.
    pub fn cancel(&mut self, has_camera: bool)
        ensures
            !has_camera ==> *final(self) == *old(self),
            has_camera ==> final(self).mode == SpawnPickerMode::Inactive && final(self).position is None,
    {
        if !has_camera {
            return;
        }
        self.mode = SpawnPickerMode::Inactive;
        self.position = None;
    }
}

} // verus!
