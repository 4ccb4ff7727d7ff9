use vstd::prelude::*;

use crate::layout::assets::PortalDirection;
use crate::layout::graph::LayoutGraph;
use crate::rng::{choose_index, gen_range_inclusive};

verus! {

broadcast use vstd::seq_lib::group_to_multiset_ensures, vstd::multiset::group_multiset_axioms;

/// How many rooms the next sequence gets, given the number of unconnected exits:
/// one for a single exit, otherwise between one and the number of exits.
pub fn next_room_count(rng: &mut wyrand::WyRand, exits: usize) -> (r: usize)
    requires
        exits > 0,
    ensures
        1 <= r <= exits,
        exits == 1 ==> r == 1,
{
    if exits == 1 {
        1
    } else {
        gen_range_inclusive(rng, 1, exits)
    }
}

/// The portals taken from `pool` at `indices`, one after another, each index counting in
/// what is left of the pool; and what is left at the end, in its original order.
pub open spec fn spec_take_at(pool: Seq<u64>, indices: Seq<usize>) -> (Seq<u64>, Seq<u64>)
    decreases indices.len(),
{
    if indices.len() == 0 {
        (seq![], pool)
    } else {
        let (drawn, rest) = spec_take_at(pool, indices.drop_last());
        let i = indices.last() as int;
        (drawn.push(rest[i]), rest.remove(i))
    }
}

/// Each index points into what is left of a pool of `n` items when it is taken.
pub open spec fn valid_draws(n: nat, indices: Seq<usize>) -> bool {
    forall|k: int| 0 <= k < indices.len() ==> #[trigger] indices[k] < n - k
}

proof fn lemma_take_at_len(pool: Seq<u64>, indices: Seq<usize>)
    requires
        indices.len() <= pool.len(),
        valid_draws(pool.len(), indices),
    ensures
        spec_take_at(pool, indices).0.len() == indices.len(),
        spec_take_at(pool, indices).1.len() == pool.len() - indices.len(),
    decreases indices.len(),
{
    if indices.len() > 0 {
        let init = indices.drop_last();
        assert(valid_draws(pool.len(), init)) by {
            assert forall|k: int| 0 <= k < init.len() implies #[trigger] init[k] < pool.len() - k by {
                assert(init[k] == indices[k]);
            }
        }
        lemma_take_at_len(pool, init);
        assert(indices[indices.len() - 1] < pool.len() - (indices.len() - 1));
    }
}

/// Takes the portals at `indices` out of `pool`, one after another (see `spec_take_at`).
pub fn take_at(pool: Vec<u64>, indices: &Vec<usize>) -> (r: (Vec<u64>, Vec<u64>))
    requires
        indices@.len() <= pool@.len(),
        valid_draws(pool@.len(), indices@),
    ensures
        (r.0@, r.1@) == spec_take_at(pool@, indices@),
        r.0@.len() == indices@.len(),
        r.1@.len() == pool@.len() - indices@.len(),
        r.0@.to_multiset().add(r.1@.to_multiset()) == pool@.to_multiset(),
        pool@.no_duplicates() ==> r.0@.no_duplicates() && r.1@.no_duplicates(),
{
    let ghost orig = pool@;
    let mut rest = pool;
    let mut drawn: Vec<u64> = Vec::new();
    let mut k: usize = 0;
    while k < indices.len()
        invariant
            k <= indices@.len(),
            indices@.len() <= orig.len(),
            valid_draws(orig.len(), indices@),
            (drawn@, rest@) == spec_take_at(orig, indices@.take(k as int)),
            drawn@.len() == k,
            rest@.len() == orig.len() - k,
            drawn@.to_multiset().add(rest@.to_multiset()) == orig.to_multiset(),
        decreases indices@.len() - k,
    {
        let i = indices[k];
        assert(indices@[k as int] < orig.len() - k);
        let ghost before_rest = rest@;
        let ghost before_drawn = drawn@;
        let x = rest.remove(i);
        drawn.push(x);
        proof {
            assert(indices@.take(k + 1).drop_last() =~= indices@.take(k as int));
            assert(indices@.take(k + 1).last() == i);
            assert(before_rest[i as int] == x);
            assert(rest@.to_multiset() == before_rest.to_multiset().remove(x));
            assert(drawn@.to_multiset() == before_drawn.to_multiset().insert(x));
            assert(before_rest.to_multiset().count(x) > 0);
            assert(drawn@.to_multiset().add(rest@.to_multiset()) =~= before_drawn.to_multiset().add(
                before_rest.to_multiset(),
            ));
        }
        k = k + 1;
    }
    proof {
        assert(indices@.take(indices@.len() as int) =~= indices@);
        if orig.no_duplicates() {
            orig.lemma_multiset_has_no_duplicates();
            let md = drawn@.to_multiset();
            let mr = rest@.to_multiset();
            assert forall|x: u64| md.contains(x) implies md.count(x) == 1 by {
                assert(md.add(mr).count(x) == md.count(x) + mr.count(x));
                assert(orig.to_multiset().contains(x));
            }
            assert forall|x: u64| mr.contains(x) implies mr.count(x) == 1 by {
                assert(md.add(mr).count(x) == md.count(x) + mr.count(x));
                assert(orig.to_multiset().contains(x));
            }
            drawn@.lemma_multiset_has_no_duplicates_conv();
            rest@.lemma_multiset_has_no_duplicates_conv();
        }
    }
    (drawn, rest)
}

/// Draws `count` portals from `pool` without putting them back, one random index at a time
/// into what is left. Returns the drawn portals in draw order and what is left of the pool,
/// in its order.
pub fn draw_portals(pool: Vec<u64>, count: usize, rng: &mut wyrand::WyRand) -> (r: (Vec<u64>, Vec<u64>))
    requires
        count <= pool@.len(),
    ensures
        exists|indices: Seq<usize>|
            #![trigger spec_take_at(pool@, indices)]
            indices.len() == count && valid_draws(pool@.len(), indices) && (r.0@, r.1@)
                == spec_take_at(pool@, indices),
        r.0@.len() == count,
        r.1@.len() == pool@.len() - count,
        r.0@.to_multiset().add(r.1@.to_multiset()) == pool@.to_multiset(),
        pool@.no_duplicates() ==> r.0@.no_duplicates() && r.1@.no_duplicates(),
{
    let n = pool.len();
    let mut indices: Vec<usize> = Vec::new();
    let mut k: usize = 0;
    while k < count
        invariant
            n == pool@.len(),
            count <= n,
            k <= count,
            indices@.len() == k,
            valid_draws(n as nat, indices@),
        decreases count - k,
    {
        let i = choose_index(rng, n - k);
        let ghost before = indices@;
        indices.push(i);
        proof {
            assert forall|q: int| 0 <= q < indices@.len() implies #[trigger] indices@[q] < n - q by {
                if q < k {
                    assert(indices@[q] == before[q]);
                }
            }
        }
        k = k + 1;
    }
    take_at(pool, &indices)
}

/// A connection to be routed between an exit of the previous sequence and an entrance
/// of a newly placed room.
#[derive(Clone, Copy, Debug, PartialEq, Eq, Structural)]
pub struct PendingPortalConnection {
    pub sequence: usize,
    pub from_portal: u64,
    pub to_portal: u64,
}

/// Entities of the first `n` portals whose direction can be entered, in order.
pub open spec fn entrances_upto(entities: Seq<u64>, directions: Seq<PortalDirection>, n: int) -> Seq<u64>
    decreases n,
{
    if n <= 0 {
        seq![]
    } else {
        entrances_upto(entities, directions, n - 1) + if directions[n - 1].spec_is_entrance() {
            seq![entities[n - 1]]
        } else {
            seq![]
        }
    }
}

/// The spawned portal entities of a room (paired with the directions of the room asset's
/// portals, as far as both lists go) that can be entered.
pub fn entrance_portals(entities: &Vec<u64>, directions: &Vec<PortalDirection>) -> (r: Vec<u64>)
    ensures
        r@ == entrances_upto(
            entities@,
            directions@,
            if entities@.len() < directions@.len() {
                entities@.len() as int
            } else {
                directions@.len() as int
            },
        ),
{
    let n = if entities.len() < directions.len() {
        entities.len()
    } else {
        directions.len()
    };
    let mut r: Vec<u64> = Vec::new();
    let mut i: usize = 0;
    while i < n
        invariant
            n <= entities@.len(),
            n <= directions@.len(),
            i <= n,
            r@ == entrances_upto(entities@, directions@, i as int),
        decreases n - i,
    {
        if directions[i].is_entrance() {
            r.push(entities[i]);
        }
        proof {
            assert(r@ =~= entrances_upto(entities@, directions@, i + 1));
        }
        i = i + 1;
    }
    r
}

/// Pairs each portal of `connect_to` (in order) with an entrance drawn at random, without
/// putting it back, from `entrances`.
pub fn pending_connections(
    sequence: usize,
    connect_to: &Vec<u64>,
    entrances: Vec<u64>,
    rng: &mut wyrand::WyRand,
) -> (r: Vec<PendingPortalConnection>)
    requires
        connect_to@.len() <= entrances@.len(),
    ensures
        r@.len() == connect_to@.len(),
        forall|k: int|
            0 <= k < r@.len() ==> (#[trigger] r@[k]).sequence == sequence && r@[k].from_portal
                == connect_to@[k],
        r@.map_values(|c: PendingPortalConnection| c.to_portal).to_multiset().subset_of(
            entrances@.to_multiset(),
        ),
        entrances@.no_duplicates() ==> r@.map_values(|c: PendingPortalConnection| c.to_portal).no_duplicates(),
{
    let ghost pool = entrances@;
    let (drawn, _rest) = draw_portals(entrances, connect_to.len(), rng);
    let mut r: Vec<PendingPortalConnection> = Vec::new();
    let mut k: usize = 0;
    while k < connect_to.len()
        invariant
            drawn@.len() == connect_to@.len(),
            k <= connect_to@.len(),
            r@.len() == k,
            forall|q: int|
                0 <= q < k ==> (#[trigger] r@[q]).sequence == sequence && r@[q].from_portal
                    == connect_to@[q] && r@[q].to_portal == drawn@[q],
        decreases connect_to@.len() - k,
    {
        r.push(PendingPortalConnection { sequence, from_portal: connect_to[k], to_portal: drawn[k] });
        k = k + 1;
    }
    proof {
        assert(r@.map_values(|c: PendingPortalConnection| c.to_portal) =~= drawn@);
        assert(drawn@.to_multiset().add(_rest@.to_multiset()) == pool.to_multiset());
        assert forall|v: u64| drawn@.to_multiset().count(v) <= pool.to_multiset().count(v) by {
            assert(drawn@.to_multiset().add(_rest@.to_multiset()).count(v) == drawn@.to_multiset().count(v) + _rest@.to_multiset().count(v));
        }
    }
    r
}

/// What a trigger placed along a connection does when the player passes it.
#[derive(Clone, Copy, Debug, PartialEq, Eq, Structural)]
pub enum LayoutTrigger {
    GenerateNextSequence,
    UnloadPreviousSequence,
}

/// What passing a trigger leads to.
pub enum TriggerAction {
    /// The trigger stays (its connection, or what unloading needs, is missing).
    Keep,
    /// The trigger is removed and nothing else happens.
    Consume,
    /// These entities are despawned, the next layout step is taken and the trigger is removed.
    Unload(Vec<u64>),
}

/// The player passed a trigger of `kind` placed on `connection`.
pub fn pass_trigger(graph: &LayoutGraph, kind: LayoutTrigger, connection: u64) -> (r: TriggerAction)
    requires
        graph.wf(),
        graph.rooms@.len() + graph.connections@.len() + 1 < isize::MAX,
    ensures
        !graph.has_connection(connection) ==> r is Keep,
        graph.has_connection(connection) && kind == LayoutTrigger::GenerateNextSequence ==> r is Consume,
        graph.has_connection(connection) && kind == LayoutTrigger::UnloadPreviousSequence ==> {
            &&& (r is Keep <==> !graph.can_unload(connection))
            &&& r matches TriggerAction::Unload(v) ==> exists|d: Seq<(u64, isize)>|
                graph.walk_post(seq![(connection, 0isize)], d, graph.unload_start(connection), -1isize)
                    && v@ == d.subrange(1, d.len() as int).map_values(|p: (u64, isize)| p.0)
            &&& !(r is Consume)
        },
{
    if graph.find_connection(connection).is_none() {
        return TriggerAction::Keep;
    }
    match kind {
        LayoutTrigger::GenerateNextSequence => TriggerAction::Consume,
        LayoutTrigger::UnloadPreviousSequence => match graph.unload_previous_sequence(connection) {
            Some(v) => TriggerAction::Unload(v),
            None => TriggerAction::Keep,
        },
    }
}

/// The layout's progress: its generator and the sequence most recently placed.
pub struct LayoutState {
    pub rng: wyrand::WyRand,
    pub sequence: usize,
}

impl LayoutState {
    pub fn new(rng: wyrand::WyRand) -> (r: Self)
        ensures
            r.rng == rng,
            r.sequence == 0,
    {
        LayoutState { rng, sequence: 0 }
    }

    /// Whether the first room may still be placed: only before any step was taken.
    pub fn can_initialize(&self) -> (r: bool)
        ensures
            r == (self.sequence == 0),
    {
        self.sequence == 0
    }

    /// Starts the next layout step: collects the unconnected exits of the rooms of the
    /// current sequence, advances to the next sequence and draws how many rooms it gets.
    /// Each new room is later connected to one of the returned exits (see `draw_portals`).
    pub fn begin_step(&mut self, graph: &LayoutGraph) -> (r: (usize, Vec<u64>))
        requires
            graph.wf(),
            old(self).sequence < usize::MAX,
            graph.sequence_exits(graph.rooms@, old(self).sequence).len() > 0,
        ensures
            final(self).sequence == old(self).sequence + 1,
            r.1@ == graph.sequence_exits(graph.rooms@, old(self).sequence),
            r.1@.no_duplicates(),
            forall|x: u64|
                #[trigger] r.1@.contains(x) <==> (graph.unconnected_exit(x) && exists|i: int|
                    0 <= i < graph.rooms@.len() && (#[trigger] graph.rooms@[i]).sequence == old(self).sequence
                        && graph.rooms@[i].portals@.contains(x)),
            1 <= r.0 <= r.1@.len(),
            r.1@.len() == 1 ==> r.0 == 1,
    {
        let exits = graph.available_exits(self.sequence);
        self.sequence = self.sequence + 1;
        let count = next_room_count(&mut self.rng, exits.len());
        (count, exits)
    }
}

} // verus!
