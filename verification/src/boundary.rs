use vstd::prelude::*;

verus! {

/// The entries of `s` that do not occur in `other`, in order.
pub open spec fn absent_from(s: Seq<u64>, other: Seq<u64>) -> Seq<u64>
    decreases s.len(),
{
    if s.len() == 0 {
        seq![]
    } else {
        absent_from(s.drop_last(), other) + if other.contains(s.last()) {
            seq![]
        } else {
            seq![s.last()]
        }
    }
}

pub proof fn lemma_absent_from_members(s: Seq<u64>, other: Seq<u64>)
    ensures
        forall|e: u64| absent_from(s, other).contains(e) <==> (s.contains(e) && !other.contains(e)),
    decreases s.len(),
{
    if s.len() > 0 {
        lemma_absent_from_members(s.drop_last(), other);
        let rest = absent_from(s.drop_last(), other);
        let tail = if other.contains(s.last()) { Seq::<u64>::empty() } else { seq![s.last()] };
        let full = absent_from(s, other);
        assert(full == rest + tail);
        assert forall|e: u64| full.contains(e) <==> (s.contains(e) && !other.contains(e)) by {
            if full.contains(e) {
                let k = choose|k: int| 0 <= k < full.len() && full[k] == e;
                if k < rest.len() {
                    assert(rest[k] == e);
                    assert(rest.contains(e));
                    let sd = s.drop_last();
                    assert(sd.contains(e));
                    let j = choose|j: int| 0 <= j < sd.len() && sd[j] == e;
                    assert(sd[j] == s[j]);
                    assert(s.contains(e));
                } else {
                    assert(tail[k - rest.len()] == e);
                    assert(s[s.len() - 1] == e);
                }
            }
            if s.contains(e) && !other.contains(e) {
                let j = choose|j: int| 0 <= j < s.len() && s[j] == e;
                if j < s.len() - 1 {
                    assert(s.drop_last()[j] == e);
                    assert(s.drop_last().contains(e));
                    let k = choose|k: int| 0 <= k < rest.len() && rest[k] == e;
                    assert(full[k] == e);
                } else {
                    assert(full[rest.len() as int] == e);
                }
            }
        }
    }
}

/// Whether `e` occurs in `v`.
pub fn vec_contains(v: &Vec<u64>, e: u64) -> (r: bool)
    ensures
        r == v@.contains(e),
{
    let mut i: usize = 0;
    while i < v.len()
        invariant
            i <= v@.len(),
            forall|k: int| 0 <= k < i ==> v@[k] != e,
        decreases v@.len() - i,
    {
        if v[i] == e {
            return true;
        }
        i = i + 1;
    }
    false
}

/// The entries of `s` that do not occur in `other`, in order.
pub fn keep_absent(s: &Vec<u64>, other: &Vec<u64>) -> (r: Vec<u64>)
    ensures
        r@ == absent_from(s@, other@),
{
    let mut r: Vec<u64> = Vec::new();
    let mut i: usize = 0;
    while i < s.len()
        invariant
            i <= s@.len(),
            r@ == absent_from(s@.take(i as int), other@),
        decreases s@.len() - i,
    {
        proof {
            assert(s@.take(i + 1).drop_last() =~= s@.take(i as int));
            assert(s@.take(i + 1).last() == s@[i as int]);
        }
        if !vec_contains(other, s[i]) {
            r.push(s[i]);
        }
        proof {
            assert(r@ =~= absent_from(s@.take(i + 1), other@));
        }
        i = i + 1;
    }
    proof {
        assert(s@.take(i as int) =~= s@);
    }
    r
}

/// What changes at the loading-chunk boundaries this frame, given the entities that were
/// held at a boundary (`held`) and the entities found intersecting a boundary now (`hits`,
/// boundary by boundary): the hits not held yet are frozen (in order, once per hit), and
/// the held entities no longer hit are released.
pub fn boundary_changes(held: &Vec<u64>, hits: &Vec<u64>) -> (r: (Vec<u64>, Vec<u64>))
    ensures
        r.0@ == absent_from(hits@, held@),
        r.1@ == absent_from(held@, hits@),
{
    (keep_absent(hits, held), keep_absent(held, hits))
}

/// After a frame, the entities held at a boundary are exactly those hit: every hit is
/// already held or newly frozen, and every held entity is hit or released.
pub proof fn law_boundary_partition(held: Seq<u64>, hits: Seq<u64>)
    ensures
        forall|e: u64| hits.contains(e) ==> (held.contains(e) || absent_from(hits, held).contains(e)),
        forall|e: u64| absent_from(hits, held).contains(e) ==> !held.contains(e),
        forall|e: u64| held.contains(e) ==> (hits.contains(e) || absent_from(held, hits).contains(e)),
        forall|e: u64| absent_from(held, hits).contains(e) ==> !hits.contains(e),
{
    lemma_absent_from_members(hits, held);
    lemma_absent_from_members(held, hits);
}

} // verus!
