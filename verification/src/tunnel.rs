use vstd::prelude::*;

verus! {

/// Every tunnel profile has this many points, so mirroring pairs them up (see
/// `law_mirror_involution`).
pub const TUNNEL_POINTS: usize = 16;

/// Whether profile point `i` of `len` lies on the mirror axis (the first point and the
/// one halfway round); these points are drawn with an extra ring and never mirrored.
pub open spec fn spec_is_axis_point(len: int, i: int) -> bool {
    i == 0 || i == len / 2
}

pub fn is_axis_point(len: usize, i: usize) -> (r: bool)
    ensures
        r == spec_is_axis_point(len as int, i as int),
{
    i == 0 || i == len / 2
}

/// The point that mirrors point `i` of a closed profile of `len` points.
pub open spec fn spec_mirror_index(len: int, i: int) -> int {
    (len - i) % len
}

/// Which point follows a dragged point when mirroring: `None` when mirroring is off or the
/// dragged point lies on the mirror axis, otherwise `(len - drag) % len`.
pub fn mirror_index(len: usize, drag: usize, mirror: bool) -> (r: Option<usize>)
    requires
        drag < len,
    ensures
        r == if !mirror || spec_is_axis_point(len as int, drag as int) {
            None
        } else {
            Some(spec_mirror_index(len as int, drag as int) as usize)
        },
        r matches Some(m) ==> m < len,
{
    if !mirror || drag == 0 || drag == len / 2 {
        None
    } else {
        Some((len - drag) % len)
    }
}

/// The first profile point under the cursor, unless a point is being dragged or there is
/// no cursor on the ground plane.
pub fn pick_profile_point(hits: &Vec<bool>, dragging: bool, has_cursor: bool) -> (r: Option<usize>)
    ensures
        (dragging || !has_cursor) ==> r is None,
        (!dragging && has_cursor) ==> match r {
            Some(i) => i < hits@.len() && hits@[i as int] && forall|k: int| 0 <= k < i ==> !hits@[k],
            None => forall|k: int| 0 <= k < hits@.len() ==> !hits@[k],
        },
{
    if dragging || !has_cursor {
        return None;
    }
    let mut i: usize = 0;
    while i < hits.len()
        invariant
            i <= hits@.len(),
            !dragging && has_cursor,
            forall|k: int| 0 <= k < i ==> !hits@[k],
        decreases hits@.len() - i,
    {
        if hits[i] {
            return Some(i);
        }
        i = i + 1;
    }
    None
}

/// Profile editing state: whether edits are mirrored, the selected point and, while
/// dragging, where the drag started (`D` holds the point and cursor positions).
pub struct TunnelsModeState<D> {
    pub mirror: bool,
    pub selected_point: Option<usize>,
    pub drag_start: Option<D>,
}

impl<D> TunnelsModeState<D> {
    /// Mirroring on, nothing selected, no drag.
    pub fn new() -> (r: Self)
        ensures
            r.mirror,
            r.selected_point is None,
            r.drag_start is None,
    {
        TunnelsModeState { mirror: true, selected_point: None, drag_start: None }
    }

    pub fn dragging(&self) -> (r: bool)
        ensures
            r == self.drag_start is Some,
    {
        self.drag_start.is_some()
    }

    /// Mouse handling after picking: a press on a picked point (with a cursor, whose start
    /// position is `start`) selects it and starts a drag; a press elsewhere that the UI does
    /// not take clears the selection; a release ends the drag.
    pub fn handle_click(
        &mut self,
        picked: Option<usize>,
        start: Option<D>,
        just_pressed: bool,
        just_released: bool,
        ui_has_pointer: bool,
    )
        ensures
            final(self).mirror == old(self).mirror,
            just_pressed ==> match (picked, start) {
                (Some(p), Some(s)) => final(self).selected_point == Some(p) && final(self).drag_start
                    == Some(s),
                (Some(_), None) => final(self).selected_point == old(self).selected_point
                    && final(self).drag_start == old(self).drag_start,
                (None, _) => final(self).drag_start == old(self).drag_start && final(self).selected_point == if ui_has_pointer {
                    old(self).selected_point
                } else {
                    None
                },
            },
            !just_pressed && just_released ==> final(self).drag_start is None && final(self).selected_point == old(self).selected_point,
            !just_pressed && !just_released ==> final(self).drag_start == old(self).drag_start
                && final(self).selected_point == old(self).selected_point,
    {
        if just_pressed {
            match picked {
                Some(p) => {
                    match start {
                        Some(s) => {
                            self.drag_start = Some(s);
                            self.selected_point = Some(p);
                        },
                        None => {},
                    }
                },
                None => {
                    if !ui_has_pointer {
                        self.selected_point = None;
                    }
                },
            }
        } else if just_released {
            self.drag_start = None;
        }
    }
}

/// Mirroring a point twice gives the point back, and a mirrored point is never on the
/// mirror axis nor the point itself, for profiles with an even number of points.
pub proof fn law_mirror_involution(len: int, i: int)
    requires
        len > 0,
        len % 2 == 0,
        0 <= i < len,
        !spec_is_axis_point(len, i),
    ensures
        0 <= spec_mirror_index(len, i) < len,
        !spec_is_axis_point(len, spec_mirror_index(len, i)),
        spec_mirror_index(len, i) != i,
        spec_mirror_index(len, spec_mirror_index(len, i)) == i,
{
    assert(spec_mirror_index(len, i) == len - i) by {
        assert(0 < len - i < len);
        vstd::arithmetic::div_mod::lemma_small_mod((len - i) as nat, len as nat);
    }
    assert(spec_mirror_index(len, len - i) == i) by {
        vstd::arithmetic::div_mod::lemma_small_mod(i as nat, len as nat);
    }
}

} // verus!
