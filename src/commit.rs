use vstd::prelude::*;

use std::collections::HashSet;

verus! {

broadcast use vstd::std_specs::hash::group_hash_axioms;

/// Records the entities found seen this frame: each gets its view-visibility flag set (flags
/// are only ever set here) and leaves the set of entities seen in earlier frames.
pub fn commit_visible(
    view_visibility: &mut HashSet<u64>,
    previous_visible: &mut HashSet<u64>,
    found: &Vec<u64>,
)
    ensures
        final(view_visibility)@ == old(view_visibility)@.union(found@.to_set()),
        final(previous_visible)@ == old(previous_visible)@.difference(found@.to_set()),
{
    let mut i: usize = 0;
    while i < found.len()
        invariant
            i <= found@.len(),
            view_visibility@ == old(view_visibility)@.union(found@.subrange(0, i as int).to_set()),
            previous_visible@ == old(previous_visible)@.difference(
                found@.subrange(0, i as int).to_set(),
            ),
        decreases found@.len() - i,
    {
        let e = found[i];
        view_visibility.insert(e);
        previous_visible.remove(&e);
        proof {
            let before = found@.subrange(0, i as int);
            let after = found@.subrange(0, i as int + 1);
            assert(after == before.push(e));
            assert forall|x: u64| #[trigger]
                after.to_set().contains(x) <==> before.to_set().contains(x) || x == e by {
                vstd::seq_lib::lemma_seq_contains_after_push(before, e, x);
            }
            assert(view_visibility@ =~= old(view_visibility)@.union(after.to_set()));
            assert(previous_visible@ =~= old(previous_visible)@.difference(after.to_set()));
        }
        i = i + 1;
    }
    assert(found@.subrange(0, found@.len() as int) == found@);
}

/// Committing the same entities a second time changes nothing: setting a flag that is set
/// and removing an entity that is gone are both without effect.
pub proof fn lemma_commit_idempotent(
    view_visibility: Set<u64>,
    previous_visible: Set<u64>,
    found: Set<u64>,
)
    ensures
        view_visibility.union(found).union(found) == view_visibility.union(found),
        previous_visible.difference(found).difference(found) == previous_visible.difference(found),
{
    assert(view_visibility.union(found).union(found) =~= view_visibility.union(found));
    assert(previous_visible.difference(found).difference(found) =~= previous_visible.difference(
        found,
    ));
}

/// The capacity to shrink a buffer of `len` entries and `capacity` slots to: none when empty,
/// else the capacity divided by half its ratio to the length once that ratio exceeds 2.
pub open spec fn shrink_target(capacity: int, len: int) -> int {
    if len == 0 {
        0
    } else {
        let ratio = capacity / len;
        if ratio > 2 {
            capacity / (ratio / 2)
        } else {
            capacity
        }
    }
}

/// The capacity that a buffer of `len` entries and `capacity` slots is shrunk to.
pub fn shrink_capacity(capacity: usize, len: usize) -> (r: usize)
    ensures
        r == shrink_target(capacity as int, len as int),
        len <= capacity ==> len <= r <= capacity,
{
    if len == 0 {
        return 0;
    }
    let ratio = capacity / len;
    if ratio > 2 {
        let half = ratio / 2;
        proof {
            let c = capacity as int;
            let l = len as int;
            let q = ratio as int;
            let h = half as int;
            assert(q * l <= c) by (nonlinear_arith)
                requires
                    q == c / l,
                    l > 0,
                    c >= 0,
            ;
            assert(h * l <= q * l) by (nonlinear_arith)
                requires
                    h <= q,
                    l > 0,
            ;
            assert(l <= c / h) by (nonlinear_arith)
                requires
                    h * l <= c,
                    h > 0,
                    l > 0,
            ;
            assert(c / h <= c) by (nonlinear_arith)
                requires
                    h >= 1,
                    c >= 0,
            ;
        }
        capacity / half
    } else {
        capacity
    }
}

/// Relies on Vec::capacity: how many elements the vector can hold without reallocating, which
/// is never less than its length.
#[verifier::external_body]
fn vec_capacity(v: &Vec<u64>) -> (r: usize)
    ensures
        r >= v@.len(),
{
    v.capacity()
}

/// Relies on Vec::shrink_to: it only lowers the capacity, and leaves the contents as they are.
#[verifier::external_body]
fn vec_shrink_to(v: &mut Vec<u64>, min_capacity: usize)
    ensures
        final(v)@ == old(v)@,
{
    v.shrink_to(min_capacity)
}

/// Gives back reserved room of a buffer of seen entities when its capacity has grown well past
/// its length; the entities stay as they are.
pub fn shrink_entities(visible_entities: &mut Vec<u64>)
    ensures
        final(visible_entities)@ == old(visible_entities)@,
{
    let capacity = vec_capacity(visible_entities);
    let reserved = shrink_capacity(capacity, visible_entities.len());
    vec_shrink_to(visible_entities, reserved);
}

} // verus!
