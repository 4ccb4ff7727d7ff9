use vstd::prelude::*;

use crate::layout::assets::PortalDirection;

verus! {

/// A room placed in the world: its entity, the sequence it belongs to and its portal entities.
pub struct RoomNode {
    pub entity: u64,
    pub sequence: usize,
    pub portals: Vec<u64>,
}

/// A portal of a placed room: its entity, the room entity that owns it,
/// its direction and the connection entity attached to it, if any.
pub struct PortalNode {
    pub entity: u64,
    pub parent: u64,
    pub direction: PortalDirection,
    pub connection: Option<u64>,
}

/// A tunnel connecting two portals.
pub struct ConnectionNode {
    pub entity: u64,
    pub sequence: usize,
    pub from_portal: u64,
    pub to_portal: u64,
}

/// The rooms, portals and connections of the generated layout, each looked up by entity.
pub struct LayoutGraph {
    pub rooms: Vec<RoomNode>,
    pub portals: Vec<PortalNode>,
    pub connections: Vec<ConnectionNode>,
}

/// Whether entity `e` already has an entry in a list of (entity, distance) pairs.
pub open spec fn listed(d: Seq<(u64, isize)>, e: u64) -> bool {
    exists|i: int| 0 <= i < d.len() && (#[trigger] d[i]).0 == e
}

pub open spec fn abs(x: int) -> int {
    if x < 0 {
        -x
    } else {
        x
    }
}

/// The depth given to the next room or connection of a walk.
pub open spec fn spec_step(depth: int) -> int {
    if depth > 0 {
        depth + 1
    } else {
        depth - 1
    }
}

/// Number of positions of `u` whose entity is neither listed in `d` nor `x`.
pub open spec fn count_unlisted(u: Seq<u64>, d: Seq<(u64, isize)>, x: u64) -> nat
    decreases u.len(),
{
    if u.len() == 0 {
        0
    } else {
        count_unlisted(u.drop_last(), d, x) + if !listed(d, u.last()) && u.last() != x {
            1nat
        } else {
            0nat
        }
    }
}

proof fn lemma_count_unlisted_le_len(u: Seq<u64>, d: Seq<(u64, isize)>, x: u64)
    ensures
        count_unlisted(u, d, x) <= u.len(),
    decreases u.len(),
{
    if u.len() > 0 {
        lemma_count_unlisted_le_len(u.drop_last(), d, x);
    }
}

/// Counting fewer candidates never gives more; one candidate less gives strictly fewer.
proof fn lemma_count_unlisted_mono(
    u: Seq<u64>,
    d1: Seq<(u64, isize)>,
    x1: u64,
    d2: Seq<(u64, isize)>,
    x2: u64,
    k: int,
)
    requires
        forall|e: u64| !listed(d2, e) && e != x2 ==> !listed(d1, e) && e != x1,
        -1 <= k < u.len(),
        k >= 0 ==> !listed(d1, u[k]) && u[k] != x1 && !(!listed(d2, u[k]) && u[k] != x2),
    ensures
        k < 0 ==> count_unlisted(u, d2, x2) <= count_unlisted(u, d1, x1),
        k >= 0 ==> count_unlisted(u, d2, x2) < count_unlisted(u, d1, x1),
    decreases u.len(),
{
    if u.len() > 0 {
        let e = u.last();
        if k == u.len() - 1 {
            lemma_count_unlisted_mono(u.drop_last(), d1, x1, d2, x2, -1);
        } else {
            if k >= 0 {
                assert(u.drop_last()[k] == u[k]);
            }
            lemma_count_unlisted_mono(u.drop_last(), d1, x1, d2, x2, k);
        }
    }
}

/// The portal entities of `rooms`, room after room.
pub open spec fn room_portals(rooms: Seq<RoomNode>) -> Seq<u64>
    decreases rooms.len(),
{
    if rooms.len() == 0 {
        seq![]
    } else {
        room_portals(rooms.drop_last()) + rooms.last().portals@
    }
}

/// Two sequences without repeats and without a common entry join into one without repeats,
/// and conversely.
pub proof fn lemma_concat_no_duplicates(a: Seq<u64>, b: Seq<u64>)
    ensures
        (a + b).no_duplicates() <==> (a.no_duplicates() && b.no_duplicates() && forall|x: u64|
            a.contains(x) ==> !b.contains(x)),
{
    let c = a + b;
    if c.no_duplicates() {
        assert forall|i: int, j: int| 0 <= i < a.len() && 0 <= j < a.len() && i != j implies a[i] != a[j] by {
            assert(c[i] == a[i] && c[j] == a[j]);
        }
        assert forall|i: int, j: int| 0 <= i < b.len() && 0 <= j < b.len() && i != j implies b[i] != b[j] by {
            assert(c[a.len() + i] == b[i] && c[a.len() + j] == b[j]);
        }
        assert forall|x: u64| a.contains(x) implies !b.contains(x) by {
            if b.contains(x) {
                let i = choose|i: int| 0 <= i < a.len() && a[i] == x;
                let j = choose|j: int| 0 <= j < b.len() && b[j] == x;
                assert(c[i] == x && c[a.len() + j] == x);
            }
        }
    }
    if a.no_duplicates() && b.no_duplicates() && forall|x: u64| a.contains(x) ==> !b.contains(x) {
        assert forall|i: int, j: int| 0 <= i < c.len() && 0 <= j < c.len() && i != j implies c[i] != c[j] by {
            if i < a.len() && j >= a.len() {
                assert(a.contains(c[i]));
                assert(b[j - a.len()] == c[j]);
            } else if j < a.len() && i >= a.len() {
                assert(a.contains(c[j]));
                assert(b[i - a.len()] == c[i]);
            } else if i >= a.len() && j >= a.len() {
                assert(b[i - a.len()] == c[i] && b[j - a.len()] == c[j]);
            }
        }
    }
}

impl LayoutGraph {
    /// No portal entity is listed twice among the rooms' portals, as each portal is spawned
    /// for one room.
    #[verifier::opaque]
    pub open spec fn portals_distinct(&self) -> bool {
        room_portals(self.rooms@).no_duplicates()
    }

    /// Entities are unique within each list, as in the ECS queries the graph is read from,
    /// and each portal belongs to one room.
    pub open spec fn wf(&self) -> bool {
        &&& self.portals_distinct()
        &&& forall|i: int, j: int|
            0 <= i < j < self.rooms@.len() ==> (#[trigger] self.rooms@[i]).entity != (
            #[trigger] self.rooms@[j]).entity
        &&& forall|i: int, j: int|
            0 <= i < j < self.portals@.len() ==> (#[trigger] self.portals@[i]).entity != (
            #[trigger] self.portals@[j]).entity
        &&& forall|i: int, j: int|
            0 <= i < j < self.connections@.len() ==> (#[trigger] self.connections@[i]).entity != (
            #[trigger] self.connections@[j]).entity
    }

    pub open spec fn has_room(&self, e: u64) -> bool {
        exists|i: int| 0 <= i < self.rooms@.len() && (#[trigger] self.rooms@[i]).entity == e
    }

    pub open spec fn room_at(&self, e: u64) -> int {
        choose|i: int| 0 <= i < self.rooms@.len() && (#[trigger] self.rooms@[i]).entity == e
    }

    pub open spec fn has_portal(&self, e: u64) -> bool {
        exists|i: int| 0 <= i < self.portals@.len() && (#[trigger] self.portals@[i]).entity == e
    }

    pub open spec fn portal_at(&self, e: u64) -> int {
        choose|i: int| 0 <= i < self.portals@.len() && (#[trigger] self.portals@[i]).entity == e
    }

    pub open spec fn has_connection(&self, e: u64) -> bool {
        exists|i: int|
            0 <= i < self.connections@.len() && (#[trigger] self.connections@[i]).entity == e
    }

    pub open spec fn connection_at(&self, e: u64) -> int {
        choose|i: int|
            0 <= i < self.connections@.len() && (#[trigger] self.connections@[i]).entity == e
    }

    /// The connection reached from a room through portal `pe`, if the portal exists,
    /// is connected and the connection exists.
    pub open spec fn connection_through(&self, pe: u64) -> Option<u64> {
        if self.has_portal(pe) {
            match self.portals@[self.portal_at(pe)].connection {
                Some(c) => if self.has_connection(c) {
                    Some(c)
                } else {
                    None
                },
                None => None,
            }
        } else {
            None
        }
    }

    /// The room reached from a connection through portal `pe`, if the portal and its room exist.
    pub open spec fn room_through(&self, pe: u64) -> Option<u64> {
        if self.has_portal(pe) && self.has_room(self.portals@[self.portal_at(pe)].parent) {
            Some(self.portals@[self.portal_at(pe)].parent)
        } else {
            None
        }
    }

    /// Every connection reachable through a portal of room `ri` is listed in `d`.
    pub open spec fn room_closed(&self, ri: int, d: Seq<(u64, isize)>) -> bool {
        forall|j: int|
            0 <= j < self.rooms@[ri].portals@.len() ==> match self.connection_through(
                #[trigger] self.rooms@[ri].portals@[j],
            ) {
                Some(c) => listed(d, c),
                None => true,
            }
    }

    /// Both rooms reachable through the portals of connection `ci` are listed in `d`.
    pub open spec fn connection_closed(&self, ci: int, d: Seq<(u64, isize)>) -> bool {
        &&& match self.room_through(self.connections@[ci].from_portal) {
            Some(r) => listed(d, r),
            None => true,
        }
        &&& match self.room_through(self.connections@[ci].to_portal) {
            Some(r) => listed(d, r),
            None => true,
        }
    }

    /// All neighbours of entity `e` (as a room or as a connection) are listed in `d`.
    pub open spec fn entry_closed(&self, e: u64, d: Seq<(u64, isize)>) -> bool {
        ||| self.has_room(e) && self.room_closed(self.room_at(e), d)
        ||| self.has_connection(e) && self.connection_closed(self.connection_at(e), d)
    }

    /// `b` is a neighbour of `a`: a connection of room `a`, or a room of connection `a`.
    pub open spec fn adjacent(&self, a: u64, b: u64) -> bool {
        ||| self.has_room(a) && exists|j: int|
            0 <= j < self.rooms@[self.room_at(a)].portals@.len() && self.connection_through(
                #[trigger] self.rooms@[self.room_at(a)].portals@[j],
            ) == Some(b)
        ||| self.has_connection(a) && (self.room_through(
            self.connections@[self.connection_at(a)].from_portal,
        ) == Some(b) || self.room_through(self.connections@[self.connection_at(a)].to_portal)
            == Some(b))
    }

    /// Room entities followed by connection entities.
    pub open spec fn universe(&self) -> Seq<u64> {
        self.rooms@.map_values(|r: RoomNode| r.entity) + self.connections@.map_values(
            |c: ConnectionNode| c.entity,
        )
    }

    /// How many more rooms and connections a walk entering at entity `x` may still list.
    pub open spec fn measure(&self, d: Seq<(u64, isize)>, x: u64) -> nat {
        count_unlisted(self.universe(), d, x)
    }

    /// What a walk that starts at `first` with `depth` appends to `old` to give `new`.
    pub open spec fn walk_post(
        &self,
        old: Seq<(u64, isize)>,
        new: Seq<(u64, isize)>,
        first: u64,
        depth: isize,
    ) -> bool {
        &&& new.len() > old.len()
        &&& new.subrange(0, old.len() as int) == old
        &&& new[old.len() as int] == (first, depth)
        // Entries after the first are new entities, each listed once.
        &&& forall|k: int|
            old.len() < k < new.len() ==> !listed(new.subrange(0, k), (#[trigger] new[k]).0)
        // Depths grow away from zero in the direction of `depth`.
        &&& forall|k: int|
            old.len() <= k < new.len() ==> (depth > 0 ==> (#[trigger] new[k]).1 >= depth) && (
            depth <= 0 ==> new[k].1 <= depth)
        // Each entry after the first neighbours an earlier new entry, one step further out.
        &&& forall|k: int|
            old.len() < k < new.len() ==> exists|j: int|
                old.len() <= j < k && self.adjacent(new[j].0, (#[trigger] new[k]).0) && new[k].1
                    == spec_step(new[j].1 as int)
        // Every new entry has all its neighbours listed.
        &&& forall|k: int| old.len() <= k < new.len() ==> self.entry_closed((#[trigger] new[k]).0, new)
    }

    pub fn find_room(&self, e: u64) -> (r: Option<usize>)
        requires
            self.wf(),
        ensures
            match r {
                Some(i) => i < self.rooms@.len() && self.rooms@[i as int].entity == e && self.has_room(e)
                    && self.room_at(e) == i,
                None => !self.has_room(e),
            },
    {
        let mut i: usize = 0;
        while i < self.rooms.len()
            invariant
                i <= self.rooms@.len(),
                self.wf(),
                forall|k: int| 0 <= k < i ==> (#[trigger] self.rooms@[k]).entity != e,
            decreases self.rooms@.len() - i,
        {
            if self.rooms[i].entity == e {
                proof {
                    assert(self.rooms@[i as int].entity == e);
                    assert(self.has_room(e));
                    let j = self.room_at(e);
                    if j < i {
                        assert(self.rooms@[j].entity != self.rooms@[i as int].entity);
                    } else if j > i {
                        assert(self.rooms@[i as int].entity != self.rooms@[j].entity);
                    }
                }
                return Some(i);
            }
            i = i + 1;
        }
        None
    }

    pub fn find_portal(&self, e: u64) -> (r: Option<usize>)
        requires
            self.wf(),
        ensures
            match r {
                Some(i) => i < self.portals@.len() && self.portals@[i as int].entity == e
                    && self.has_portal(e) && self.portal_at(e) == i,
                None => !self.has_portal(e),
            },
    {
        let mut i: usize = 0;
        while i < self.portals.len()
            invariant
                i <= self.portals@.len(),
                self.wf(),
                forall|k: int| 0 <= k < i ==> (#[trigger] self.portals@[k]).entity != e,
            decreases self.portals@.len() - i,
        {
            if self.portals[i].entity == e {
                proof {
                    assert(self.portals@[i as int].entity == e);
                    assert(self.has_portal(e));
                    let j = self.portal_at(e);
                    if j < i {
                        assert(self.portals@[j].entity != self.portals@[i as int].entity);
                    } else if j > i {
                        assert(self.portals@[i as int].entity != self.portals@[j].entity);
                    }
                }
                return Some(i);
            }
            i = i + 1;
        }
        None
    }

    pub fn find_connection(&self, e: u64) -> (r: Option<usize>)
        requires
            self.wf(),
        ensures
            match r {
                Some(i) => i < self.connections@.len() && self.connections@[i as int].entity == e
                    && self.has_connection(e) && self.connection_at(e) == i,
                None => !self.has_connection(e),
            },
    {
        let mut i: usize = 0;
        while i < self.connections.len()
            invariant
                i <= self.connections@.len(),
                self.wf(),
                forall|k: int| 0 <= k < i ==> (#[trigger] self.connections@[k]).entity != e,
            decreases self.connections@.len() - i,
        {
            if self.connections[i].entity == e {
                proof {
                    assert(self.connections@[i as int].entity == e);
                    assert(self.has_connection(e));
                    let j = self.connection_at(e);
                    if j < i {
                        assert(self.connections@[j].entity != self.connections@[i as int].entity);
                    } else if j > i {
                        assert(self.connections@[i as int].entity != self.connections@[j].entity);
                    }
                }
                return Some(i);
            }
            i = i + 1;
        }
        None
    }
}


/// Everything listed in a list is listed in any extension of it.
proof fn lemma_listed_prefix(a: Seq<(u64, isize)>, b: Seq<(u64, isize)>)
    requires
        a.len() <= b.len(),
        b.subrange(0, a.len() as int) == a,
    ensures
        forall|e: u64| listed(a, e) ==> listed(b, e),
{
    assert forall|e: u64| listed(a, e) implies listed(b, e) by {
        let i = choose|i: int| 0 <= i < a.len() && (#[trigger] a[i]).0 == e;
        assert(b.subrange(0, a.len() as int)[i] == b[i]);
    }
}

impl LayoutGraph {
    proof fn lemma_closed_mono(&self, e: u64, d1: Seq<(u64, isize)>, d2: Seq<(u64, isize)>)
        requires
            forall|x: u64| listed(d1, x) ==> listed(d2, x),
            self.entry_closed(e, d1),
        ensures
            self.entry_closed(e, d2),
    {
        if self.has_room(e) && self.room_closed(self.room_at(e), d1) {
            let ri = self.room_at(e);
            assert forall|j: int| 0 <= j < self.rooms@[ri].portals@.len() implies match self.connection_through(
                #[trigger] self.rooms@[ri].portals@[j],
            ) {
                Some(c) => listed(d2, c),
                None => true,
            } by {
                match self.connection_through(self.rooms@[ri].portals@[j]) {
                    Some(c) => {
                        assert(listed(d1, c));
                    },
                    None => {},
                }
            }
        } else {
            let ci = self.connection_at(e);
            match self.room_through(self.connections@[ci].from_portal) {
                Some(r) => {
                    assert(listed(d1, r));
                },
                None => {},
            }
            match self.room_through(self.connections@[ci].to_portal) {
                Some(r) => {
                    assert(listed(d1, r));
                },
                None => {},
            }
        }
    }

    proof fn lemma_universe_room(&self, ri: int)
        requires
            0 <= ri < self.rooms@.len(),
        ensures
            self.universe()[ri] == self.rooms@[ri].entity,
            ri < self.universe().len(),
    {
    }

    proof fn lemma_universe_connection(&self, ci: int)
        requires
            0 <= ci < self.connections@.len(),
        ensures
            self.universe()[self.rooms@.len() + ci] == self.connections@[ci].entity,
            self.rooms@.len() + ci < self.universe().len(),
    {
    }

    /// Records `room` at `depth`, then walks every connection reachable through its portals
    /// that is not listed yet, one step further from zero.
    #[verifier::rlimit(60)]
    pub fn walk_room(&self, entity_distances: &mut Vec<(u64, isize)>, room: usize, depth: isize)
        requires
            self.wf(),
            room < self.rooms@.len(),
            abs(depth as int) + self.measure(old(entity_distances)@, self.rooms@[room as int].entity)
                < isize::MAX,
        ensures
            self.walk_post(
                old(entity_distances)@,
                final(entity_distances)@,
                self.rooms@[room as int].entity,
                depth,
            ),
        decreases self.measure(old(entity_distances)@, self.rooms@[room as int].entity),
    {
        let ghost d0 = entity_distances@;
        let ghost r = self.rooms@[room as int].entity;
        let ghost m0 = self.measure(d0, r);
        entity_distances.push((self.rooms[room].entity, depth));
        proof {
            assert(entity_distances@.subrange(0, d0.len() as int) =~= d0);
            lemma_listed_prefix(d0, entity_distances@);
            assert(entity_distances@[d0.len() as int] == (r, depth));
            assert(listed(entity_distances@, r));
        }
        let n = self.rooms[room].portals.len();
        let mut i: usize = 0;
        while i < n
            invariant
                self.wf(),
                room < self.rooms@.len(),
                r == self.rooms@[room as int].entity,
                n == self.rooms@[room as int].portals@.len(),
                i <= n,
                m0 == self.measure(d0, r),
                d0 == old(entity_distances)@,
                abs(depth as int) + m0 < isize::MAX,
                entity_distances@.len() > d0.len(),
                entity_distances@.subrange(0, d0.len() as int) == d0,
                entity_distances@[d0.len() as int] == (r, depth),
                listed(entity_distances@, r),
                forall|e: u64| listed(d0, e) ==> listed(entity_distances@, e),
                forall|k: int|
                    d0.len() < k < entity_distances@.len() ==> !listed(
                        entity_distances@.subrange(0, k),
                        (#[trigger] entity_distances@[k]).0,
                    ),
                forall|k: int|
                    d0.len() <= k < entity_distances@.len() ==> (depth > 0 ==> (
                    #[trigger] entity_distances@[k]).1 >= depth) && (depth <= 0
                        ==> entity_distances@[k].1 <= depth),
                forall|k: int|
                    d0.len() < k < entity_distances@.len() ==> exists|j: int|
                        d0.len() <= j < k && self.adjacent(
                            entity_distances@[j].0,
                            (#[trigger] entity_distances@[k]).0,
                        ) && entity_distances@[k].1 == spec_step(entity_distances@[j].1 as int),
                forall|k: int|
                    d0.len() < k < entity_distances@.len() ==> self.entry_closed(
                        (#[trigger] entity_distances@[k]).0,
                        entity_distances@,
                    ),
                forall|j: int|
                    0 <= j < i ==> match self.connection_through(
                        #[trigger] self.rooms@[room as int].portals@[j],
                    ) {
                        Some(c) => listed(entity_distances@, c),
                        None => true,
                    },
            decreases n - i,
        {
            let portal_entity = self.rooms[room].portals[i];
            let ghost before = entity_distances@;
            match self.find_portal(portal_entity) {
                None => {},
                Some(pi) => match self.portals[pi].connection {
                    None => {},
                    Some(c) => {
                        if !is_listed(entity_distances, c) {
                            match self.find_connection(c) {
                                None => {},
                                Some(ci) => {
                                    let next = if depth > 0 {
                                        depth + 1
                                    } else {
                                        depth - 1
                                    };
                                    proof {
                                        self.lemma_universe_connection(ci as int);
                                        assert(!listed(d0, c));
                                        lemma_count_unlisted_mono(
                                            self.universe(),
                                            d0,
                                            r,
                                            before,
                                            c,
                                            self.rooms@.len() + ci,
                                        );
                                        assert(self.measure(entity_distances@, self.connections@[ci as int].entity) < self.measure(old(entity_distances)@, r));
                                    }
                                    self.walk_connection(entity_distances, ci, next);
                                    proof {
                                        let after = entity_distances@;
                                        let bl = before.len() as int;
                                        assert(after.subrange(0, bl) == before);
                                        lemma_listed_prefix(before, after);
                                        assert(after.subrange(0, d0.len() as int) =~= d0) by {
                                            assert(before.subrange(0, d0.len() as int) == d0);
                                            assert forall|q: int| 0 <= q < d0.len() implies after[q]
                                                == d0[q] by {
                                                assert(after.subrange(0, bl)[q] == after[q]);
                                                assert(before.subrange(0, d0.len() as int)[q]
                                                    == before[q]);
                                            }
                                        }
                                        assert(after[d0.len() as int] == (r, depth)) by {
                                            assert(after.subrange(0, bl)[d0.len() as int]
                                                == after[d0.len() as int]);
                                        }
                                        assert forall|k: int|
                                            d0.len() < k < after.len() implies !listed(
                                            after.subrange(0, k),
                                            (#[trigger] after[k]).0,
                                        ) by {
                                            if k < bl {
                                                assert(after.subrange(0, k) =~= before.subrange(0, k));
                                                assert(after.subrange(0, bl)[k] == after[k]);
                                            } else if k == bl {
                                                assert(after.subrange(0, k) =~= before);
                                            }
                                        }
                                        assert forall|k: int|
                                            d0.len() <= k < after.len() implies (depth > 0 ==> (
                                        #[trigger] after[k]).1 >= depth) && (depth <= 0
                                            ==> after[k].1 <= depth) by {
                                            if k < bl {
                                                assert(after.subrange(0, bl)[k] == after[k]);
                                            }
                                        }
                                        assert(self.connection_through(portal_entity) == Some(c));
                                        assert(self.adjacent(r, c)) by {
                                            assert(self.room_at(r) == room as int) by {
                                                let q = self.room_at(r);
                                                assert(self.rooms@[room as int].entity == r);
                                                if q < room {
                                                    assert(self.rooms@[q].entity
                                                        != self.rooms@[room as int].entity);
                                                } else if q > room {
                                                    assert(self.rooms@[room as int].entity
                                                        != self.rooms@[q].entity);
                                                }
                                            }
                                            assert(self.rooms@[room as int].portals@[i as int]
                                                == portal_entity);
                                        }
                                        assert forall|k: int|
                                            d0.len() < k < after.len() implies exists|j: int|
                                            d0.len() <= j < k && self.adjacent(
                                                after[j].0,
                                                (#[trigger] after[k]).0,
                                            ) && after[k].1 == spec_step(after[j].1 as int) by {
                                            if k < bl {
                                                assert(after.subrange(0, bl)[k] == after[k]);
                                                let j = choose|j: int|
                                                    d0.len() <= j < k && self.adjacent(
                                                        before[j].0,
                                                        (#[trigger] before[k]).0,
                                                    ) && before[k].1 == spec_step(
                                                        before[j].1 as int,
                                                    );
                                                assert(after.subrange(0, bl)[j] == after[j]);
                                            } else if k == bl {
                                                assert(after[k] == (c, next));
                                                assert(after[d0.len() as int] == (r, depth));
                                            }
                                        }
                                        assert forall|k: int|
                                            d0.len() < k < after.len() implies self.entry_closed(
                                            (#[trigger] after[k]).0,
                                            after,
                                        ) by {
                                            if k < bl {
                                                assert(after.subrange(0, bl)[k] == after[k]);
                                                self.lemma_closed_mono(after[k].0, before, after);
                                            }
                                        }
                                        assert(listed(after, c)) by {
                                            assert(after[bl].0 == c);
                                        }
                                    }
                                },
                            }
                        }
                    },
                },
            }
            proof {
                let cur = entity_distances@;
                assert forall|j: int|
                    0 <= j < i + 1 implies match self.connection_through(
                    #[trigger] self.rooms@[room as int].portals@[j],
                ) {
                    Some(c) => listed(cur, c),
                    None => true,
                } by {
                    if j < i {
                        match self.connection_through(self.rooms@[room as int].portals@[j]) {
                            Some(c) => {
                                assert(listed(before, c));
                            },
                            None => {},
                        }
                    }
                }
            }
            i = i + 1;
        }
        proof {
            let fin = entity_distances@;
            assert(self.room_at(r) == room as int) by {
                let q = self.room_at(r);
                assert(self.rooms@[room as int].entity == r);
                if q < room {
                    assert(self.rooms@[q].entity != self.rooms@[room as int].entity);
                } else if q > room {
                    assert(self.rooms@[room as int].entity != self.rooms@[q].entity);
                }
            }
            assert(self.entry_closed(r, fin));
            assert forall|k: int| d0.len() <= k < fin.len() implies self.entry_closed(
                (#[trigger] fin[k]).0,
                fin,
            ) by {
                if k == d0.len() {
                    assert(fin[k].0 == r);
                }
            }
        }
    }

    /// Records `connection` at `depth`, then walks the rooms on both of its ends
    /// that are not listed yet, one step further from zero.
    #[verifier::rlimit(100)]
    #[verifier::spinoff_prover]
    pub fn walk_connection(
        &self,
        entity_distances: &mut Vec<(u64, isize)>,
        connection: usize,
        depth: isize,
    )
        requires
            self.wf(),
            connection < self.connections@.len(),
            abs(depth as int) + self.measure(
                old(entity_distances)@,
                self.connections@[connection as int].entity,
            ) < isize::MAX,
        ensures
            self.walk_post(
                old(entity_distances)@,
                final(entity_distances)@,
                self.connections@[connection as int].entity,
                depth,
            ),
        decreases self.measure(old(entity_distances)@, self.connections@[connection as int].entity),
    {
        let ghost d0 = entity_distances@;
        let ghost r = self.connections@[connection as int].entity;
        let ghost m0 = self.measure(d0, r);
        entity_distances.push((self.connections[connection].entity, depth));
        proof {
            assert(entity_distances@.subrange(0, d0.len() as int) =~= d0);
            lemma_listed_prefix(d0, entity_distances@);
            assert(entity_distances@[d0.len() as int] == (r, depth));
            assert(listed(entity_distances@, r));
        }
        let sides: [u64; 2] = [
            self.connections[connection].from_portal,
            self.connections[connection].to_portal,
        ];
        let mut i: usize = 0;
        while i < 2
            invariant
                self.wf(),
                connection < self.connections@.len(),
                r == self.connections@[connection as int].entity,
                sides@ == seq![
                    self.connections@[connection as int].from_portal,
                    self.connections@[connection as int].to_portal,
                ],
                i <= 2,
                m0 == self.measure(d0, r),
                d0 == old(entity_distances)@,
                abs(depth as int) + m0 < isize::MAX,
                entity_distances@.len() > d0.len(),
                entity_distances@.subrange(0, d0.len() as int) == d0,
                entity_distances@[d0.len() as int] == (r, depth),
                listed(entity_distances@, r),
                forall|e: u64| listed(d0, e) ==> listed(entity_distances@, e),
                forall|k: int|
                    d0.len() < k < entity_distances@.len() ==> !listed(
                        entity_distances@.subrange(0, k),
                        (#[trigger] entity_distances@[k]).0,
                    ),
                forall|k: int|
                    d0.len() <= k < entity_distances@.len() ==> (depth > 0 ==> (
                    #[trigger] entity_distances@[k]).1 >= depth) && (depth <= 0
                        ==> entity_distances@[k].1 <= depth),
                forall|k: int|
                    d0.len() < k < entity_distances@.len() ==> exists|j: int|
                        d0.len() <= j < k && self.adjacent(
                            entity_distances@[j].0,
                            (#[trigger] entity_distances@[k]).0,
                        ) && entity_distances@[k].1 == spec_step(entity_distances@[j].1 as int),
                forall|k: int|
                    d0.len() < k < entity_distances@.len() ==> self.entry_closed(
                        (#[trigger] entity_distances@[k]).0,
                        entity_distances@,
                    ),
                forall|j: int|
                    0 <= j < i ==> match self.room_through(#[trigger] sides@[j]) {
                        Some(rm) => listed(entity_distances@, rm),
                        None => true,
                    },
            decreases 2 - i,
        {
            let portal_entity = sides[i];
            let ghost before = entity_distances@;
            match self.find_portal(portal_entity) {
                None => {},
                Some(pi) => {
                    let parent = self.portals[pi].parent;
                    if !is_listed(entity_distances, parent) {
                        match self.find_room(parent) {
                            None => {},
                            Some(ri) => {
                                let next = if depth > 0 {
                                    depth + 1
                                } else {
                                    depth - 1
                                };
                                proof {
                                    self.lemma_universe_room(ri as int);
                                    assert(!listed(d0, parent));
                                    lemma_count_unlisted_mono(
                                        self.universe(),
                                        d0,
                                        r,
                                        before,
                                        parent,
                                        ri as int,
                                    );
                                    assert(self.measure(entity_distances@, self.rooms@[ri as int].entity) < self.measure(old(entity_distances)@, r));
                                }
                                self.walk_room(entity_distances, ri, next);
                                proof {
                                    let after = entity_distances@;
                                    let bl = before.len() as int;
                                    assert(after.subrange(0, bl) == before);
                                    lemma_listed_prefix(before, after);
                                    assert(after.subrange(0, d0.len() as int) =~= d0) by {
                                        assert(before.subrange(0, d0.len() as int) == d0);
                                        assert forall|q: int| 0 <= q < d0.len() implies after[q]
                                            == d0[q] by {
                                            assert(after.subrange(0, bl)[q] == after[q]);
                                            assert(before.subrange(0, d0.len() as int)[q]
                                                == before[q]);
                                        }
                                    }
                                    assert(after[d0.len() as int] == (r, depth)) by {
                                        assert(after.subrange(0, bl)[d0.len() as int]
                                            == after[d0.len() as int]);
                                    }
                                    assert forall|k: int|
                                        d0.len() < k < after.len() implies !listed(
                                        after.subrange(0, k),
                                        (#[trigger] after[k]).0,
                                    ) by {
                                        if k < bl {
                                            assert(after.subrange(0, k) =~= before.subrange(0, k));
                                            assert(after.subrange(0, bl)[k] == after[k]);
                                        } else if k == bl {
                                            assert(after.subrange(0, k) =~= before);
                                        }
                                    }
                                    assert forall|k: int|
                                        d0.len() <= k < after.len() implies (depth > 0 ==> (
                                    #[trigger] after[k]).1 >= depth) && (depth <= 0 ==> after[k].1
                                        <= depth) by {
                                        if k < bl {
                                            assert(after.subrange(0, bl)[k] == after[k]);
                                        }
                                    }
                                    assert(self.room_through(portal_entity) == Some(parent));
                                    assert(self.adjacent(r, parent)) by {
                                        assert(self.connection_at(r) == connection as int) by {
                                            let q = self.connection_at(r);
                                            assert(self.connections@[connection as int].entity
                                                == r);
                                            if q < connection {
                                                assert(self.connections@[q].entity
                                                    != self.connections@[connection as int].entity);
                                            } else if q > connection {
                                                assert(self.connections@[connection as int].entity
                                                    != self.connections@[q].entity);
                                            }
                                        }
                                    }
                                    assert forall|k: int|
                                        d0.len() < k < after.len() implies exists|j: int|
                                        d0.len() <= j < k && self.adjacent(
                                            after[j].0,
                                            (#[trigger] after[k]).0,
                                        ) && after[k].1 == spec_step(after[j].1 as int) by {
                                        if k < bl {
                                            assert(after.subrange(0, bl)[k] == after[k]);
                                            let j = choose|j: int|
                                                d0.len() <= j < k && self.adjacent(
                                                    before[j].0,
                                                    (#[trigger] before[k]).0,
                                                ) && before[k].1 == spec_step(before[j].1 as int);
                                            assert(after.subrange(0, bl)[j] == after[j]);
                                        } else if k == bl {
                                            assert(after[k] == (parent, next));
                                            assert(after[d0.len() as int] == (r, depth));
                                        }
                                    }
                                    assert forall|k: int|
                                        d0.len() < k < after.len() implies self.entry_closed(
                                        (#[trigger] after[k]).0,
                                        after,
                                    ) by {
                                        if k < bl {
                                            assert(after.subrange(0, bl)[k] == after[k]);
                                            self.lemma_closed_mono(after[k].0, before, after);
                                        }
                                    }
                                    assert(listed(after, parent)) by {
                                        assert(after[bl].0 == parent);
                                    }
                                }
                            },
                        }
                    }
                },
            }
            proof {
                let cur = entity_distances@;
                assert forall|j: int| 0 <= j < i + 1 implies match self.room_through(
                    #[trigger] sides@[j],
                ) {
                    Some(rm) => listed(cur, rm),
                    None => true,
                } by {
                    if j < i {
                        match self.room_through(sides@[j]) {
                            Some(rm) => {
                                assert(listed(before, rm));
                            },
                            None => {},
                        }
                    }
                }
            }
            i = i + 1;
        }
        proof {
            let fin = entity_distances@;
            assert(self.connection_at(r) == connection as int) by {
                let q = self.connection_at(r);
                assert(self.connections@[connection as int].entity == r);
                if q < connection {
                    assert(self.connections@[q].entity
                        != self.connections@[connection as int].entity);
                } else if q > connection {
                    assert(self.connections@[connection as int].entity
                        != self.connections@[q].entity);
                }
            }
            assert(self.room_through(sides@[0]) == self.room_through(
                self.connections@[connection as int].from_portal,
            ));
            assert(self.room_through(sides@[1]) == self.room_through(
                self.connections@[connection as int].to_portal,
            ));
            assert(self.entry_closed(r, fin));
            assert forall|k: int| d0.len() <= k < fin.len() implies self.entry_closed(
                (#[trigger] fin[k]).0,
                fin,
            ) by {
                if k == d0.len() {
                    assert(fin[k].0 == r);
                }
            }
        }
    }
}


impl LayoutGraph {
    /// A portal that exists, has no connection yet and can be left through.
    pub open spec fn is_open_exit(&self, pe: u64) -> bool {
        &&& self.has_portal(pe)
        &&& self.portals@[self.portal_at(pe)].connection is None
        &&& self.portals@[self.portal_at(pe)].direction.spec_is_exit()
    }

    /// The open exits among `ps`, in order.
    pub open spec fn open_exits_of(&self, ps: Seq<u64>) -> Seq<u64>
        decreases ps.len(),
    {
        if ps.len() == 0 {
            seq![]
        } else {
            self.open_exits_of(ps.drop_last()) + if self.is_open_exit(ps.last()) {
                seq![ps.last()]
            } else {
                seq![]
            }
        }
    }

    /// The open exits of the rooms of sequence `s` among `rooms`, room by room, in order.
    pub open spec fn sequence_exits(&self, rooms: Seq<RoomNode>, s: usize) -> Seq<u64>
        decreases rooms.len(),
    {
        if rooms.len() == 0 {
            seq![]
        } else {
            self.sequence_exits(rooms.drop_last(), s) + if rooms.last().sequence == s {
                self.open_exits_of(rooms.last().portals@)
            } else {
                seq![]
            }
        }
    }

    /// The open exits among `ps` are entries of `ps`, and none repeats when none of `ps` does.
    pub proof fn lemma_open_exits_of(&self, ps: Seq<u64>)
        ensures
            forall|x: u64| #[trigger] self.open_exits_of(ps).contains(x) ==> ps.contains(x),
            ps.no_duplicates() ==> self.open_exits_of(ps).no_duplicates(),
        decreases ps.len(),
    {
        if ps.len() > 0 {
            let init = ps.drop_last();
            self.lemma_open_exits_of(init);
            let tail = if self.is_open_exit(ps.last()) { seq![ps.last()] } else { Seq::<u64>::empty() };
            assert(ps =~= init + seq![ps.last()]);
            assert forall|x: u64| #[trigger] self.open_exits_of(ps).contains(x) implies ps.contains(x) by {
                let q = self.open_exits_of(ps);
                assert(q == self.open_exits_of(init) + tail);
                let k = choose|k: int| 0 <= k < q.len() && q[k] == x;
                if k < self.open_exits_of(init).len() {
                    assert(self.open_exits_of(init)[k] == x);
                    assert(self.open_exits_of(init).contains(x));
                    let m = choose|m: int| 0 <= m < init.len() && init[m] == x;
                    assert(ps[m] == x);
                } else {
                    assert(tail[k - self.open_exits_of(init).len()] == x);
                    assert(ps[ps.len() - 1] == x);
                }
            }
            if ps.no_duplicates() {
                lemma_concat_no_duplicates(init, seq![ps.last()]);
                lemma_concat_no_duplicates(self.open_exits_of(init), tail);
                assert forall|x: u64| self.open_exits_of(init).contains(x) implies !tail.contains(x) by {
                    if tail.contains(x) {
                        assert(tail[0] == x);
                        assert(seq![ps.last()].contains(x));
                    }
                }
            }
        }
    }

    /// The exits of sequence `s` are portals of `rooms`, and none repeats when no portal
    /// is listed twice.
    pub proof fn lemma_sequence_exits(&self, rooms: Seq<RoomNode>, s: usize)
        ensures
            forall|x: u64| #[trigger] self.sequence_exits(rooms, s).contains(x) ==> room_portals(rooms).contains(x),
            room_portals(rooms).no_duplicates() ==> self.sequence_exits(rooms, s).no_duplicates(),
        decreases rooms.len(),
    {
        if rooms.len() > 0 {
            let init = rooms.drop_last();
            let ps = rooms.last().portals@;
            self.lemma_sequence_exits(init, s);
            self.lemma_open_exits_of(ps);
            let head = self.sequence_exits(init, s);
            let tail = if rooms.last().sequence == s { self.open_exits_of(ps) } else { Seq::<u64>::empty() };
            let all = room_portals(rooms);
            assert(all == room_portals(init) + ps);
            assert(self.sequence_exits(rooms, s) == head + tail);
            assert forall|x: u64| #[trigger] self.sequence_exits(rooms, s).contains(x) implies all.contains(x) by {
                let q = head + tail;
                let k = choose|k: int| 0 <= k < q.len() && q[k] == x;
                if k < head.len() {
                    assert(head[k] == x);
                    assert(head.contains(x));
                    let m = choose|m: int| 0 <= m < room_portals(init).len() && room_portals(init)[m] == x;
                    assert(all[m] == x);
                } else {
                    assert(tail[k - head.len()] == x);
                    assert(tail.contains(x));
                    assert(ps.contains(x));
                    let m = choose|m: int| 0 <= m < ps.len() && ps[m] == x;
                    assert(all[room_portals(init).len() + m] == x);
                }
            }
            if all.no_duplicates() {
                lemma_concat_no_duplicates(room_portals(init), ps);
                lemma_concat_no_duplicates(head, tail);
                assert forall|x: u64| head.contains(x) implies !tail.contains(x) by {
                    if tail.contains(x) {
                        assert(ps.contains(x));
                        assert(room_portals(init).contains(x));
                    }
                }
            }
        }
    }

    /// A portal of the graph that has no connection and can be left through, spelled out.
    pub open spec fn unconnected_exit(&self, p: u64) -> bool {
        exists|k: int|
            0 <= k < self.portals@.len() && (#[trigger] self.portals@[k]).entity == p
                && self.portals@[k].connection is None && self.portals@[k].direction != PortalDirection::Entrance
    }

    proof fn lemma_open_exit_spelled(&self, p: u64)
        requires
            self.wf(),
        ensures
            self.is_open_exit(p) <==> self.unconnected_exit(p),
    {
        if self.unconnected_exit(p) {
            let k = choose|k: int|
                0 <= k < self.portals@.len() && (#[trigger] self.portals@[k]).entity == p
                    && self.portals@[k].connection is None && self.portals@[k].direction != PortalDirection::Entrance;
            assert(self.has_portal(p));
            let q = self.portal_at(p);
            if q != k {
                if q < k {
                    assert(self.portals@[q].entity != self.portals@[k].entity);
                } else {
                    assert(self.portals@[k].entity != self.portals@[q].entity);
                }
            }
        }
        if self.is_open_exit(p) {
            let q = self.portal_at(p);
            assert(self.portals@[q].entity == p);
        }
    }

    /// The open exits among `ps` are exactly the entries of `ps` that are open exits.
    proof fn lemma_open_exits_of_exact(&self, ps: Seq<u64>)
        ensures
            forall|x: u64| #[trigger] self.open_exits_of(ps).contains(x) <==> (ps.contains(x) && self.is_open_exit(x)),
        decreases ps.len(),
    {
        if ps.len() > 0 {
            let init = ps.drop_last();
            self.lemma_open_exits_of_exact(init);
            let head = self.open_exits_of(init);
            let tail = if self.is_open_exit(ps.last()) { seq![ps.last()] } else { Seq::<u64>::empty() };
            let q = self.open_exits_of(ps);
            assert(q == head + tail);
            assert forall|x: u64| #[trigger] q.contains(x) <==> (ps.contains(x) && self.is_open_exit(x)) by {
                if q.contains(x) {
                    let k = choose|k: int| 0 <= k < q.len() && q[k] == x;
                    if k < head.len() {
                        assert(head[k] == x);
                        assert(head.contains(x));
                        let m = choose|m: int| 0 <= m < init.len() && init[m] == x;
                        assert(ps[m] == init[m]);
                    } else {
                        assert(tail[k - head.len()] == x);
                        assert(ps[ps.len() - 1] == x);
                    }
                }
                if ps.contains(x) && self.is_open_exit(x) {
                    let m = choose|m: int| 0 <= m < ps.len() && ps[m] == x;
                    if m < init.len() {
                        assert(init[m] == x);
                        assert(init.contains(x));
                        assert(head.contains(x));
                        let k = choose|k: int| 0 <= k < head.len() && head[k] == x;
                        assert(q[k] == head[k]);
                    } else {
                        assert(q[head.len() as int] == x);
                    }
                }
            }
        }
    }

    /// The exits offered for the next step after sequence `s` are exactly the unconnected
    /// exits of all rooms of sequence `s`: every such exit of every such room, and nothing else.
    pub proof fn law_sequence_exits_exact(&self, rooms: Seq<RoomNode>, s: usize)
        requires
            self.wf(),
        ensures
            forall|x: u64|
                #[trigger] self.sequence_exits(rooms, s).contains(x) <==> (self.unconnected_exit(x) && exists|i: int|
                    0 <= i < rooms.len() && (#[trigger] rooms[i]).sequence == s && rooms[i].portals@.contains(x)),
        decreases rooms.len(),
    {
        if rooms.len() > 0 {
            let init = rooms.drop_last();
            let last = rooms.last();
            self.law_sequence_exits_exact(init, s);
            self.lemma_open_exits_of_exact(last.portals@);
            let head = self.sequence_exits(init, s);
            let tail = if last.sequence == s { self.open_exits_of(last.portals@) } else { Seq::<u64>::empty() };
            let q = self.sequence_exits(rooms, s);
            assert(q == head + tail);
            assert forall|x: u64| #[trigger] q.contains(x) <==> (self.unconnected_exit(x) && exists|i: int|
                0 <= i < rooms.len() && (#[trigger] rooms[i]).sequence == s && rooms[i].portals@.contains(x)) by {
                self.lemma_open_exit_spelled(x);
                if q.contains(x) {
                    let k = choose|k: int| 0 <= k < q.len() && q[k] == x;
                    if k < head.len() {
                        assert(head[k] == x);
                        assert(head.contains(x));
                        let i = choose|i: int| 0 <= i < init.len() && (#[trigger] init[i]).sequence == s && init[i].portals@.contains(x);
                        assert(rooms[i] == init[i]);
                    } else {
                        assert(tail[k - head.len()] == x);
                        assert(tail.contains(x));
                        assert(rooms[rooms.len() - 1] == last);
                    }
                }
                if self.unconnected_exit(x) && exists|i: int|
                    0 <= i < rooms.len() && (#[trigger] rooms[i]).sequence == s && rooms[i].portals@.contains(x) {
                    let i = choose|i: int| 0 <= i < rooms.len() && (#[trigger] rooms[i]).sequence == s && rooms[i].portals@.contains(x);
                    if i < init.len() {
                        assert(init[i] == rooms[i]);
                        assert(head.contains(x));
                        let k = choose|k: int| 0 <= k < head.len() && head[k] == x;
                        assert(q[k] == head[k]);
                    } else {
                        assert(rooms[i] == last);
                        assert(tail.contains(x));
                        let k = choose|k: int| 0 <= k < tail.len() && tail[k] == x;
                        assert(q[head.len() + k] == tail[k]);
                    }
                }
            }
        }
    }

    /// The unconnected exit portals of the rooms placed in sequence `sequence`.
    pub fn available_exits(&self, sequence: usize) -> (r: Vec<u64>)
        requires
            self.wf(),
        ensures
            r@ == self.sequence_exits(self.rooms@, sequence),
            r@.no_duplicates(),
            forall|x: u64|
                #[trigger] r@.contains(x) <==> (self.unconnected_exit(x) && exists|i: int|
                    0 <= i < self.rooms@.len() && (#[trigger] self.rooms@[i]).sequence == sequence
                        && self.rooms@[i].portals@.contains(x)),
    {
        proof {
            self.law_sequence_exits_exact(self.rooms@, sequence);
            reveal(LayoutGraph::portals_distinct);
            self.lemma_sequence_exits(self.rooms@, sequence);
        }
        let mut r: Vec<u64> = Vec::new();
        let mut i: usize = 0;
        while i < self.rooms.len()
            invariant
                self.wf(),
                i <= self.rooms@.len(),
                r@ == self.sequence_exits(self.rooms@.take(i as int), sequence),
            decreases self.rooms@.len() - i,
        {
            proof {
                assert(self.rooms@.take(i + 1).drop_last() =~= self.rooms@.take(i as int));
            }
            if self.rooms[i].sequence == sequence {
                let ghost base = r@;
                let n = self.rooms[i].portals.len();
                let mut j: usize = 0;
                while j < n
                    invariant
                        self.wf(),
                        i < self.rooms@.len(),
                        n == self.rooms@[i as int].portals@.len(),
                        j <= n,
                        r@ == base + self.open_exits_of(self.rooms@[i as int].portals@.take(j as int)),
                    decreases n - j,
                {
                    let pe = self.rooms[i].portals[j];
                    let ghost ps = self.rooms@[i as int].portals@;
                    proof {
                        assert(ps.take(j + 1).drop_last() =~= ps.take(j as int));
                        assert(ps.take(j + 1).last() == pe);
                    }
                    match self.find_portal(pe) {
                        Some(pi) => {
                            if self.portals[pi].connection.is_none() && self.portals[pi].direction.is_exit() {
                                r.push(pe);
                                proof {
                                    assert(r@ =~= base + self.open_exits_of(ps.take(j + 1)));
                                }
                            } else {
                                proof {
                                    assert(r@ =~= base + self.open_exits_of(ps.take(j + 1)));
                                }
                            }
                        },
                        None => {
                            proof {
                                assert(r@ =~= base + self.open_exits_of(ps.take(j + 1)));
                            }
                        },
                    }
                    j = j + 1;
                }
                proof {
                    assert(self.rooms@[i as int].portals@.take(n as int) =~= self.rooms@[i as int].portals@);
                    assert(self.rooms@.take(i + 1).last() == self.rooms@[i as int]);
                }
            } else {
                proof {
                    assert(self.rooms@.take(i + 1).last() == self.rooms@[i as int]);
                    assert(r@ =~= self.sequence_exits(self.rooms@.take(i + 1), sequence));
                }
            }
            i = i + 1;
        }
        proof {
            assert(self.rooms@.take(i as int) =~= self.rooms@);
        }
        r
    }

    /// Whether the trigger on `connection` can unload: the connection, both of its portals
    /// and both of their rooms exist.
    pub open spec fn can_unload(&self, connection: u64) -> bool {
        &&& self.has_connection(connection)
        &&& self.has_portal(self.connections@[self.connection_at(connection)].to_portal)
        &&& self.has_room(
            self.portals@[self.portal_at(self.connections@[self.connection_at(connection)].to_portal)].parent,
        )
        &&& self.has_portal(self.connections@[self.connection_at(connection)].from_portal)
        &&& self.has_room(self.unload_start(connection))
    }

    /// The room on the `from` side of `connection`, where unloading starts.
    pub open spec fn unload_start(&self, connection: u64) -> u64 {
        self.portals@[self.portal_at(self.connections@[self.connection_at(connection)].from_portal)].parent
    }

    proof fn lemma_universe_len(&self)
        ensures
            self.universe().len() == self.rooms@.len() + self.connections@.len(),
    {
    }

    /// When the player passes the unload trigger of `connection`: walks everything reachable
    /// from the room on the connection's `from` side without crossing the connection, and
    /// returns the entities found (all at negative distance), to be despawned.
    /// `None` when the connection, one of its portals or one of their rooms is missing.
    pub fn unload_previous_sequence(&self, connection: u64) -> (r: Option<Vec<u64>>)
        requires
            self.wf(),
            self.rooms@.len() + self.connections@.len() + 1 < isize::MAX,
        ensures
            r is Some <==> self.can_unload(connection),
            r matches Some(v) ==> exists|d: Seq<(u64, isize)>|
                self.walk_post(seq![(connection, 0isize)], d, self.unload_start(connection), -1isize)
                    && v@ == d.subrange(1, d.len() as int).map_values(|p: (u64, isize)| p.0),
    {
        let ci = match self.find_connection(connection) {
            Some(ci) => ci,
            None => {
                return None;
            },
        };
        let to_pi = match self.find_portal(self.connections[ci].to_portal) {
            Some(p) => p,
            None => {
                return None;
            },
        };
        if self.find_room(self.portals[to_pi].parent).is_none() {
            return None;
        }
        let from_pi = match self.find_portal(self.connections[ci].from_portal) {
            Some(p) => p,
            None => {
                return None;
            },
        };
        let from_room = match self.find_room(self.portals[from_pi].parent) {
            Some(ri) => ri,
            None => {
                return None;
            },
        };
        let mut entity_distances: Vec<(u64, isize)> = Vec::new();
        entity_distances.push((connection, 0));
        proof {
            assert(entity_distances@ =~= seq![(connection, 0isize)]);
            lemma_count_unlisted_le_len(self.universe(), entity_distances@, self.rooms@[from_room as int].entity);
            self.lemma_universe_len();
        }
        self.walk_room(&mut entity_distances, from_room, -1);
        let ghost d = entity_distances@;
        proof {
            assert(d.subrange(0, 1)[0] == d[0]);
        }
        let mut v: Vec<u64> = Vec::new();
        let mut k: usize = 0;
        while k < entity_distances.len()
            invariant
                d == entity_distances@,
                d.len() >= 1,
                d[0] == (connection, 0isize),
                forall|q: int| 1 <= q < d.len() ==> (#[trigger] d[q]).1 <= -1,
                k <= d.len(),
                v@ == d.subrange(1, if k == 0 { 1 } else { k as int }).map_values(|p: (u64, isize)| p.0),
            decreases d.len() - k,
        {
            if entity_distances[k].1 < 0 {
                v.push(entity_distances[k].0);
            }
            proof {
                if k >= 1 {
                    assert(d.subrange(1, k + 1).map_values(|p: (u64, isize)| p.0) =~= d.subrange(1, k as int).map_values(|p: (u64, isize)| p.0).push(d[k as int].0));
                } else {
                    assert(d.subrange(1, 1).map_values(|p: (u64, isize)| p.0) =~= Seq::<u64>::empty());
                }
            }
            k = k + 1;
        }
        proof {
            assert(d.subrange(0, 1) == seq![(connection, 0isize)]);
        }
        Some(v)
    }
}


/// Whether no entity occurs twice in `v`.
pub fn all_distinct(v: &Vec<u64>) -> (r: bool)
    ensures
        r == (forall|i: int, j: int| 0 <= i < j < v@.len() ==> v@[i] != v@[j]),
{
    let mut j: usize = 0;
    while j < v.len()
        invariant
            j <= v@.len(),
            forall|a: int, b: int| 0 <= a < b < j ==> v@[a] != v@[b],
        decreases v@.len() - j,
    {
        let mut i: usize = 0;
        while i < j
            invariant
                i <= j < v@.len(),
                forall|a: int, b: int| 0 <= a < b < j ==> v@[a] != v@[b],
                forall|a: int| 0 <= a < i ==> v@[a] != v@[j as int],
            decreases j - i,
        {
            if v[i] == v[j] {
                return false;
            }
            i = i + 1;
        }
        j = j + 1;
    }
    true
}

impl LayoutGraph {
    /// Builds a graph, or `None` when an entity occurs twice in one of the lists.
    pub fn new(rooms: Vec<RoomNode>, portals: Vec<PortalNode>, connections: Vec<ConnectionNode>) -> (r:
        Option<LayoutGraph>)
        ensures
            match r {
                Some(g) => g.wf() && g.rooms@ == rooms@ && g.portals@ == portals@ && g.connections@
                    == connections@,
                None => !(LayoutGraph { rooms, portals, connections }).wf(),
            },
    {
        let mut re: Vec<u64> = Vec::new();
        let mut i: usize = 0;
        while i < rooms.len()
            invariant
                i <= rooms@.len(),
                re@.len() == i,
                forall|k: int| 0 <= k < i ==> re@[k] == (#[trigger] rooms@[k]).entity,
            decreases rooms@.len() - i,
        {
            re.push(rooms[i].entity);
            i = i + 1;
        }
        let mut pe: Vec<u64> = Vec::new();
        let mut i: usize = 0;
        while i < portals.len()
            invariant
                i <= portals@.len(),
                pe@.len() == i,
                forall|k: int| 0 <= k < i ==> pe@[k] == (#[trigger] portals@[k]).entity,
            decreases portals@.len() - i,
        {
            pe.push(portals[i].entity);
            i = i + 1;
        }
        let mut ce: Vec<u64> = Vec::new();
        let mut i: usize = 0;
        while i < connections.len()
            invariant
                i <= connections@.len(),
                ce@.len() == i,
                forall|k: int| 0 <= k < i ==> ce@[k] == (#[trigger] connections@[k]).entity,
            decreases connections@.len() - i,
        {
            ce.push(connections[i].entity);
            i = i + 1;
        }
        let mut rp: Vec<u64> = Vec::new();
        let mut i: usize = 0;
        while i < rooms.len()
            invariant
                i <= rooms@.len(),
                rp@ == room_portals(rooms@.take(i as int)),
            decreases rooms@.len() - i,
        {
            let ps = &rooms[i].portals;
            let ghost base = rp@;
            let mut j: usize = 0;
            while j < ps.len()
                invariant
                    i < rooms@.len(),
                    *ps == rooms@[i as int].portals,
                    j <= ps@.len(),
                    rp@ == base + ps@.take(j as int),
                decreases ps@.len() - j,
            {
                rp.push(ps[j]);
                proof {
                    assert(ps@.take(j + 1) =~= ps@.take(j as int).push(ps@[j as int]));
                    assert(rp@ =~= base + ps@.take(j + 1));
                }
                j = j + 1;
            }
            proof {
                assert(ps@.take(ps@.len() as int) =~= ps@);
                assert(rooms@.take(i + 1).drop_last() =~= rooms@.take(i as int));
                assert(rooms@.take(i + 1).last() == rooms@[i as int]);
            }
            i = i + 1;
        }
        proof {
            assert(rooms@.take(rooms@.len() as int) =~= rooms@);
        }
        let ok_rp = all_distinct(&rp);
        let ok_r = all_distinct(&re) && ok_rp;
        let ok_p = all_distinct(&pe);
        let ok_c = all_distinct(&ce);
        let g = LayoutGraph { rooms, portals, connections };
        proof {
            reveal(LayoutGraph::portals_distinct);
            assert(ok_rp == g.portals_distinct());
            if !ok_r && ok_rp {
                let (a, b) = choose|a: int, b: int| 0 <= a < b < re@.len() && re@[a] == re@[b];
                assert(g.rooms@[a].entity == g.rooms@[b].entity);
            }
            if !ok_p {
                let (a, b) = choose|a: int, b: int| 0 <= a < b < pe@.len() && pe@[a] == pe@[b];
                assert(g.portals@[a].entity == g.portals@[b].entity);
            }
            if !ok_c {
                let (a, b) = choose|a: int, b: int| 0 <= a < b < ce@.len() && ce@[a] == ce@[b];
                assert(g.connections@[a].entity == g.connections@[b].entity);
            }
            if ok_r && ok_p && ok_c {
                assert forall|i: int, j: int| 0 <= i < j < g.rooms@.len() implies (#[trigger] g.rooms@[i]).entity != (#[trigger] g.rooms@[j]).entity by {
                    assert(re@[i] != re@[j]);
                }
                assert forall|i: int, j: int| 0 <= i < j < g.portals@.len() implies (#[trigger] g.portals@[i]).entity != (#[trigger] g.portals@[j]).entity by {
                    assert(pe@[i] != pe@[j]);
                }
                assert forall|i: int, j: int| 0 <= i < j < g.connections@.len() implies (#[trigger] g.connections@[i]).entity != (#[trigger] g.connections@[j]).entity by {
                    assert(ce@[i] != ce@[j]);
                }
            }
        }
        if ok_r && ok_p && ok_c {
            Some(g)
        } else {
            None
        }
    }
}

/// Whether `e` has an entry in `d`.
pub fn is_listed(d: &Vec<(u64, isize)>, e: u64) -> (r: bool)
    ensures
        r == listed(d@, e),
{
    let mut i: usize = 0;
    while i < d.len()
        invariant
            i <= d@.len(),
            forall|k: int| 0 <= k < i ==> (#[trigger] d@[k]).0 != e,
        decreases d@.len() - i,
    {
        if d[i].0 == e {
            return true;
        }
        i = i + 1;
    }
    false
}

} // verus!
