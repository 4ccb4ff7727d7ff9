use vstd::prelude::*;

verus! {

/// The open/closed state of a doorway with two swinging doors.
///
/// The time since the last animation started is kept by the caller; the decisions
/// below take whether that animation (or the auto-close delay) has run out.
#[derive(Clone, Copy, Debug, PartialEq, Eq, Structural)]
pub struct Doorway {
    pub locked: bool,
    pub open: bool,
    pub open_inward: bool,
    pub animating: bool,
}

/// What one animation frame of a doorway asks the caller to do.
#[derive(Clone, Copy, Debug, PartialEq, Eq, Structural)]
pub struct DoorTick {
    /// The doors closed on their own: restart the animation clock and play the closing sound.
    pub close_started: bool,
    /// Rotate the doors according to the (possibly restarted) animation clock.
    pub pose: bool,
    /// The closing animation ended: play the closed sound.
    pub close_finished: bool,
}

impl Doorway {
    /// An unlocked, closed doorway whose last animation has long finished.
    pub fn new() -> (r: Doorway)
        ensures
            r == (Doorway { locked: false, open: false, open_inward: false, animating: false }),
    {
        Doorway { locked: false, open: false, open_inward: false, animating: false }
    }

    /// The state after asking the doorway to become `open`.
    pub open spec fn after_set_open(self, open: bool, inward: Option<bool>, animation_finished: bool) -> (
        bool,
        Doorway,
    ) {
        if self.open == open || !animation_finished {
            (false, self)
        } else {
            (
                true,
                Doorway {
                    open,
                    animating: true,
                    open_inward: match inward {
                        Some(i) => i,
                        None => self.open_inward,
                    },
                    ..self
                },
            )
        }
    }

    /// Opens or closes the doorway unless it already is so or is still animating. Returns
    /// whether it changed, in which case the caller restarts the animation clock.
    pub fn set_open(&mut self, open: bool, inward: Option<bool>, animation_finished: bool) -> (r: bool)
        ensures
            (r, *final(self)) == old(self).after_set_open(open, inward, animation_finished),
            !animation_finished ==> !r && *final(self) == *old(self),
            old(self).open == open ==> !r && *final(self) == *old(self),
            animation_finished && old(self).open != open ==> r && final(self).open == open
                && final(self).animating && final(self).locked == old(self).locked,
    {
        if self.open == open {
            return false;
        }
        if !animation_finished {
            return false;
        }
        self.open = open;
        self.animating = true;
        if let Some(inward) = inward {
            self.open_inward = inward;
        }
        true
    }

    /// Opens the doors, swinging inward or outward.
    pub fn open(&mut self, inward: bool, animation_finished: bool) -> (r: bool)
        ensures
            (r, *final(self)) == old(self).after_set_open(true, Some(inward), animation_finished),
    {
        self.set_open(true, Some(inward), animation_finished)
    }

    /// Closes the doors, back the way they opened.
    pub fn close(&mut self, animation_finished: bool) -> (r: bool)
        ensures
            (r, *final(self)) == old(self).after_set_open(false, None, animation_finished),
    {
        self.set_open(false, None, animation_finished)
    }

    /// The player touched the sensor on one side: an unlocked doorway opens away from it.
    /// Returns whether the doors started opening.
    pub fn touch(&mut self, inward: bool, animation_finished: bool) -> (r: bool)
        ensures
            old(self).locked ==> !r && *final(self) == *old(self),
            !old(self).locked ==> (r, *final(self)) == old(self).after_set_open(
                true,
                Some(inward),
                animation_finished,
            ),
    {
        if self.locked {
            return false;
        }
        self.open(inward, animation_finished)
    }

    /// One animation frame. `autoclose_due` tells whether the doors have stood open long
    /// enough to close by themselves, `animation_finished` whether the current animation
    /// has run its course, `doors_present` whether both door leaves still exist.
    pub fn tick(&mut self, autoclose_due: bool, animation_finished: bool, doors_present: bool) -> (r:
        DoorTick)
        requires
            autoclose_due ==> animation_finished,
        ensures
            !old(self).animating ==> *final(self) == *old(self) && r == (DoorTick {
                close_started: false,
                pose: false,
                close_finished: false,
            }),
            old(self).animating ==> {
                let closing = old(self).open && autoclose_due;
                let mid = if closing {
                    Doorway { open: false, ..*old(self) }
                } else {
                    *old(self)
                };
                let finishing = doors_present && !closing && animation_finished && !old(self).open;
                &&& r.close_started == closing
                &&& r.pose == doors_present
                &&& r.close_finished == finishing
                &&& *final(self) == if finishing {
                    Doorway { animating: false, ..mid }
                } else {
                    mid
                }
            },
    {
        if !self.animating {
            return DoorTick { close_started: false, pose: false, close_finished: false };
        }
        let mut finished = animation_finished;
        let mut close_started = false;
        if self.open && autoclose_due {
            self.close(true);
            finished = false;
            close_started = true;
        }
        if !doors_present {
            return DoorTick { close_started, pose: false, close_finished: false };
        }
        let mut close_finished = false;
        if finished && !self.open {
            self.animating = false;
            close_finished = true;
        }
        DoorTick { close_started, pose: true, close_finished }
    }
}

/// Once a request to open or close was granted (or found the doorway so already),
/// repeating it is refused and changes nothing.
pub proof fn law_set_open_settles(d: Doorway, open: bool, inward: Option<bool>, f1: bool, f2: bool)
    requires
        d.open == open || f1,
    ensures
        ({
            let first = d.after_set_open(open, inward, f1).1;
            first.after_set_open(open, inward, f2) == (false, first)
        }),
{
}

/// Doors opened and then closed (each once the previous animation finished) are closed
/// again, still animating the close, and keep the side they swung to.
pub proof fn law_open_then_close(d: Doorway, inward: bool)
    requires
        !d.open,
    ensures
        ({
            let (opened, o) = d.after_set_open(true, Some(inward), true);
            let (closed, c) = o.after_set_open(false, None, true);
            &&& opened && closed
            &&& !c.open && c.animating && c.open_inward == inward && c.locked == d.locked
        }),
{
}

/// While the current animation runs, every request (to open or to close) is refused and
/// leaves the doorway as it is; once it has finished, a request for the other state is
/// granted and starts a new animation.
pub proof fn law_requests_wait_for_animation(d: Doorway, open: bool, inward: Option<bool>)
    ensures
        d.after_set_open(open, inward, false) == (false, d),
        d.open != open ==> ({
            let (granted, e) = d.after_set_open(open, inward, true);
            granted && e.open == open && e.animating && e.locked == d.locked
        }),
{
}

/// The corner of a rectangle's vertex `v` on the other side (bottom left and bottom right
/// swap, as do top left and top right).
pub open spec fn other_side(v: int) -> int {
    if v % 2 == 0 {
        v + 1
    } else {
        v - 1
    }
}

/// The back of a doorway frame faces away from its front: each of its triangles is the
/// front's triangle over the back's own vertices (eight further on) with left and right
/// corners swapped, which reverses the winding. Likewise for the back of a door leaf.
pub proof fn law_backs_mirror_fronts()
    ensures
        frame_triangles().len() == 72,
        forall|k: int| 0 <= k < 24 ==> #[trigger] frame_triangles()[24 + k] == other_side(frame_triangles()[k]) + 8,
        leaf_triangles().len() == 36,
        forall|k: int| 0 <= k < 6 ==> #[trigger] leaf_triangles()[30 + k] == other_side(leaf_triangles()[24 + k]) + 4,
{
    assert(frame_triangles() =~= seq![
        0int, 5, 4, 0, 1, 5, 6, 3, 2, 7, 3, 6, 4, 6, 2, 4, 2, 0, 1, 7, 5, 1, 3, 7,
        9, 12, 13, 9, 8, 12, 15, 10, 11, 14, 10, 15, 13, 15, 11, 13, 11, 9, 8, 14, 12, 8, 10, 14,
    ] + extrusion_triangles(16, true));
    assert(leaf_triangles() =~= extrusion_triangles(0, false) + seq![17int, 19, 16, 19, 18, 16, 20, 22, 21, 22, 23, 21]);
}

/// The vertex indices of triangle meshes being built, and the next vertex to hand out.
pub struct MeshIndices {
    pub indices: Vec<u16>,
    pub next: u16,
}

pub open spec fn ints(s: Seq<u16>) -> Seq<int> {
    s.map_values(|x: u16| x as int)
}

/// The four corners of a rectangle whose vertices start at `b` (bottom left, bottom right,
/// top left, top right), mirrored left to right when `invert`.
pub open spec fn quad(b: int, invert: bool) -> Seq<int> {
    if invert {
        seq![b + 1, b, b + 3, b + 2]
    } else {
        seq![b, b + 1, b + 2, b + 3]
    }
}

/// The two triangles that cover a rectangle with corners `v`.
pub open spec fn rect_triangles(v: Seq<int>) -> Seq<int> {
    seq![v[1], v[3], v[0], v[3], v[2], v[0]]
}

/// The two triangles of one side of an extruded rectangle with corners `v`.
pub open spec fn edge_triangles(v: Seq<int>) -> Seq<int> {
    seq![v[1], v[0], v[2], v[2], v[3], v[1]]
}

/// The eight triangles covering the space between an outer rectangle `o` and an inner one `i`.
pub open spec fn difference_triangles(o: Seq<int>, i: Seq<int>) -> Seq<int> {
    seq![
        o[0], i[1], i[0], o[0], o[1], i[1],
        i[2], o[3], o[2], i[3], o[3], i[2],
        i[0], i[2], o[2], i[0], o[2], o[0],
        o[1], i[3], i[1], o[1], o[3], i[3],
    ]
}

/// The triangles of the four sides of an extruded rectangle whose sixteen vertices start at `b`.
pub open spec fn extrusion_triangles(b: int, invert: bool) -> Seq<int> {
    edge_triangles(quad(b, invert)) + edge_triangles(quad(b + 4, !invert)) + edge_triangles(
        quad(b + 8, !invert),
    ) + edge_triangles(quad(b + 12, invert))
}

/// The triangles of a doorway frame: the wall's front and back around the door
/// opening, then the opening's extruded sides.
pub open spec fn frame_triangles() -> Seq<int> {
    difference_triangles(quad(0, false), quad(4, false)) + difference_triangles(
        quad(8, true),
        quad(12, true),
    ) + extrusion_triangles(16, true)
}

/// The triangles of one door leaf: its extruded sides, then its front and back.
pub open spec fn leaf_triangles() -> Seq<int> {
    extrusion_triangles(0, false) + rect_triangles(quad(16, false)) + rect_triangles(quad(20, true))
}

impl MeshIndices {
    pub open spec fn wf(&self) -> bool {
        forall|k: int| 0 <= k < self.indices@.len() ==> #[trigger] self.indices@[k] < self.next
    }

    pub fn new() -> (r: Self)
        ensures
            r.wf(),
            r.indices@.len() == 0,
            r.next == 0,
    {
        MeshIndices { indices: Vec::new(), next: 0 }
    }

    /// Hands out the next vertex index.
    pub fn vert(&mut self) -> (r: u16)
        requires
            old(self).next < u16::MAX,
            old(self).wf(),
        ensures
            r == old(self).next,
            final(self).next == old(self).next + 1,
            final(self).indices@ == old(self).indices@,
            final(self).wf(),
    {
        let idx = self.next;
        self.next = self.next + 1;
        idx
    }

    /// Hands out the four corner vertices of a rectangle.
    pub fn rect_verts(&mut self) -> (r: [u16; 4])
        requires
            old(self).next + 4 <= u16::MAX,
            old(self).wf(),
        ensures
            ints(r@) == quad(old(self).next as int, false),
            final(self).next == old(self).next + 4,
            final(self).indices@ == old(self).indices@,
            final(self).wf(),
    {
        let a = self.vert();
        let b = self.vert();
        let c = self.vert();
        let d = self.vert();
        let r = [a, b, c, d];
        proof {
            assert(ints(r@) =~= quad(old(self).next as int, false));
        }
        r
    }

    fn push_all(&mut self, tris: &[u16])
        requires
            old(self).wf(),
            forall|k: int| 0 <= k < tris@.len() ==> #[trigger] tris@[k] < old(self).next,
        ensures
            final(self).indices@ == old(self).indices@ + tris@,
            final(self).next == old(self).next,
            final(self).wf(),
    {
        let mut i: usize = 0;
        while i < tris.len()
            invariant
                i <= tris@.len(),
                self.indices@ == old(self).indices@ + tris@.subrange(0, i as int),
                self.next == old(self).next,
                self.wf(),
                forall|k: int| 0 <= k < tris@.len() ==> #[trigger] tris@[k] < old(self).next,
            decreases tris@.len() - i,
        {
            self.indices.push(tris[i]);
            proof {
                assert(tris@.subrange(0, i + 1) =~= tris@.subrange(0, i as int).push(tris@[i as int]));
            }
            i = i + 1;
        }
        proof {
            assert(tris@.subrange(0, tris@.len() as int) =~= tris@);
        }
    }

    /// Covers a new rectangle with two triangles, facing the other way when `invert`.
    pub fn fill_rect(&mut self, invert: bool)
        requires
            old(self).next + 4 <= u16::MAX,
            old(self).wf(),
        ensures
            ints(final(self).indices@) == ints(old(self).indices@) + rect_triangles(
                quad(old(self).next as int, invert),
            ),
            final(self).next == old(self).next + 4,
            final(self).wf(),
    {
        let v = self.rect_verts();
        let v = if invert {
            [v[1], v[0], v[3], v[2]]
        } else {
            v
        };
        let tris = [v[1], v[3], v[0], v[3], v[2], v[0]];
        self.push_all(&tris);
        proof {
            assert(ints(self.indices@) =~= ints(old(self).indices@) + rect_triangles(
                quad(old(self).next as int, invert),
            ));
        }
    }

    /// Covers one side of an extruded rectangle whose corners are `verts`.
    pub fn fill_rect_extrusion_edge(&mut self, verts: [u16; 4], invert: bool)
        requires
            old(self).wf(),
            forall|k: int| 0 <= k < 4 ==> #[trigger] verts@[k] < old(self).next,
        ensures
            ints(final(self).indices@) == ints(old(self).indices@) + edge_triangles(
                if invert {
                    seq![verts@[1] as int, verts@[0] as int, verts@[3] as int, verts@[2] as int]
                } else {
                    ints(verts@)
                },
            ),
            final(self).next == old(self).next,
            final(self).wf(),
    {
        let v = if invert {
            [verts[1], verts[0], verts[3], verts[2]]
        } else {
            verts
        };
        let tris = [v[1], v[0], v[2], v[2], v[3], v[1]];
        proof {
            assert(forall|k: int| 0 <= k < 4 ==> #[trigger] v@[k] < old(self).next);
        }
        self.push_all(&tris);
        proof {
            let w = if invert {
                seq![verts@[1] as int, verts@[0] as int, verts@[3] as int, verts@[2] as int]
            } else {
                ints(verts@)
            };
            assert(ints(v@) =~= w);
            assert(ints(self.indices@) =~= ints(old(self).indices@) + edge_triangles(w));
        }
    }

    /// Covers the space between two new rectangles, an outer one and an inner one.
    pub fn fill_rect_difference(&mut self, invert: bool)
        requires
            old(self).next + 8 <= u16::MAX,
            old(self).wf(),
        ensures
            ints(final(self).indices@) == ints(old(self).indices@) + difference_triangles(
                quad(old(self).next as int, invert),
                quad(old(self).next + 4, invert),
            ),
            final(self).next == old(self).next + 8,
            final(self).wf(),
    {
        let o = self.rect_verts();
        let i = self.rect_verts();
        let o = if invert {
            [o[1], o[0], o[3], o[2]]
        } else {
            o
        };
        let i = if invert {
            [i[1], i[0], i[3], i[2]]
        } else {
            i
        };
        let tris = [
            o[0], i[1], i[0], o[0], o[1], i[1],
            i[2], o[3], o[2], i[3], o[3], i[2],
            i[0], i[2], o[2], i[0], o[2], o[0],
            o[1], i[3], i[1], o[1], o[3], i[3],
        ];
        self.push_all(&tris);
        proof {
            assert(ints(self.indices@) =~= ints(old(self).indices@) + difference_triangles(
                quad(old(self).next as int, invert),
                quad(old(self).next + 4, invert),
            ));
        }
    }

    /// Covers the four sides (bottom, top, left, right) of a new extruded rectangle.
    pub fn fill_rect_extrusion(&mut self, invert: bool)
        requires
            old(self).next + 16 <= u16::MAX,
            old(self).wf(),
        ensures
            ints(final(self).indices@) == ints(old(self).indices@) + extrusion_triangles(
                old(self).next as int,
                invert,
            ),
            final(self).next == old(self).next + 16,
            final(self).wf(),
    {
        let ghost b = old(self).next as int;
        let ghost start = ints(old(self).indices@);
        let v = self.rect_verts();
        self.fill_rect_extrusion_edge(v, invert);
        let v = self.rect_verts();
        self.fill_rect_extrusion_edge(v, !invert);
        let v = self.rect_verts();
        self.fill_rect_extrusion_edge(v, !invert);
        let v = self.rect_verts();
        self.fill_rect_extrusion_edge(v, invert);
        proof {
            assert(ints(self.indices@) =~= start + extrusion_triangles(b, invert));
        }
    }

    /// Hands out the finished index list and starts the next mesh at vertex 0.
    pub fn finish(&mut self) -> (r: Vec<u16>)
        ensures
            r@ == old(self).indices@,
            final(self).indices@.len() == 0,
            final(self).next == 0,
            final(self).wf(),
    {
        let mut taken: Vec<u16> = Vec::new();
        std::mem::swap(&mut taken, &mut self.indices);
        self.next = 0;
        taken
    }
}

/// The triangle index lists of a doorway's meshes: the frame, the left door and the
/// right door, each over its own vertices in the order they are generated.
pub fn door_mesh_indices() -> (r: (Vec<u16>, Vec<u16>, Vec<u16>))
    ensures
        ints(r.0@) == frame_triangles(),
        ints(r.1@) == leaf_triangles(),
        ints(r.2@) == leaf_triangles(),
        r.0@.len() == 72,
        forall|k: int| 0 <= k < 24 ==> #[trigger] r.0@[24 + k] == other_side(r.0@[k] as int) + 8,
{
    proof {
        law_backs_mirror_fronts();
    }
    let mut parts = MeshIndices::new();
    parts.fill_rect_difference(false);
    parts.fill_rect_difference(true);
    parts.fill_rect_extrusion(true);
    let frame = parts.finish();
    proof {
        assert(ints(frame@) =~= frame_triangles());
        assert forall|k: int| 0 <= k < 24 implies #[trigger] frame@[24 + k] == other_side(frame@[k] as int) + 8 by {
            assert(ints(frame@)[24 + k] == frame@[24 + k] as int);
            assert(ints(frame@)[k] == frame@[k] as int);
        }
    }
    parts.fill_rect_extrusion(false);
    parts.fill_rect(false);
    parts.fill_rect(true);
    let left = parts.finish();
    proof {
        assert(ints(left@) =~= leaf_triangles());
    }
    parts.fill_rect_extrusion(false);
    parts.fill_rect(false);
    parts.fill_rect(true);
    let right = parts.finish();
    proof {
        assert(ints(right@) =~= leaf_triangles());
    }
    (frame, left, right)
}

} // verus!
