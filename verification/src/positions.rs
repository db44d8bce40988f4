//! Sets of row positions, held in Roaring treemaps.

use std::sync::Arc;

use vstd::prelude::*;

use roaring::RoaringTreemap;

verus! {

/// A set of 64-bit integers of the `roaring` crate.
#[verifier::external_type_specification]
#[verifier::external_body]
pub struct ExRoaringTreemap(RoaringTreemap);

/// The positions that a treemap holds.
pub uninterp spec fn positions_of(map: RoaringTreemap) -> Set<u64>;

/// `RoaringTreemap::new`: a treemap without a position.
#[verifier::external_body]
pub(crate) fn no_positions() -> (map: RoaringTreemap)
    ensures
        positions_of(map) == Set::<u64>::empty(),
{
    RoaringTreemap::new()
}

/// `RoaringTreemap::contains`: whether the treemap holds a position.
#[verifier::external_body]
pub(crate) fn contains_position(map: &RoaringTreemap, position: u64) -> (contains: bool)
    ensures
        contains == positions_of(*map).contains(position),
{
    map.contains(position)
}

/// `RoaringTreemap::is_empty`: whether the treemap holds no position.
#[verifier::external_body]
pub(crate) fn has_no_position(map: &RoaringTreemap) -> (empty: bool)
    ensures
        empty == (positions_of(*map) == Set::<u64>::empty()),
{
    map.is_empty()
}

/// `|=` of a treemap with another one: the union of the two.
#[verifier::external_body]
pub(crate) fn add_positions(map: &mut RoaringTreemap, other: &RoaringTreemap)
    ensures
        positions_of(*final(map)) == positions_of(*old(map)).union(positions_of(*other)),
{
    *map |= other;
}

/// Whether a list holds exactly the positions of a set, in ascending order.
pub open spec fn lists(list: Seq<u64>, positions: Set<u64>) -> bool {
    &&& forall|i: int, j: int| 0 <= i < j < list.len() ==> list[i] < list[j]
    &&& forall|position: u64| #[trigger] positions.contains(position) <==> list.contains(position)
}

/// `RoaringTreemap::iter`: every position once, in ascending order.
#[verifier::external_body]
pub(crate) fn ascending_positions(map: &RoaringTreemap) -> (list: Vec<u64>)
    ensures
        lists(list@, positions_of(*map)),
{
    map.iter().collect()
}

/// The union of a list of position sets.
pub open spec fn union_of(parts: Seq<Set<u64>>) -> Set<u64>
    decreases parts.len(),
{
    if parts.len() == 0 {
        Set::empty()
    } else {
        union_of(parts.drop_last()).union(parts.last())
    }
}

/// The positions of a list of treemaps.
pub open spec fn parts_of(maps: Seq<Arc<RoaringTreemap>>) -> Seq<Set<u64>> {
    maps.map_values(|map: Arc<RoaringTreemap>| positions_of(*map))
}

/// The union of loaded position deletes. One artifact is by far the common case: it is shared
/// rather than copied.
pub fn merged_positions(parts: Vec<Arc<RoaringTreemap>>) -> (merged: Arc<RoaringTreemap>)
    ensures
        positions_of(*merged) =~= union_of(parts_of(parts@)),
{
    let ghost sets = parts_of(parts@);
    let mut parts = parts;
    if parts.len() == 1 {
        proof {
            assert(sets.drop_last() =~= Seq::<Set<u64>>::empty());
            assert(union_of(sets.drop_last()) =~= Set::<u64>::empty());
        }
        return parts.swap_remove(0);
    }
    let mut merged = no_positions();
    let mut i: usize = 0;
    assert(sets.take(0) =~= Seq::<Set<u64>>::empty());
    while i < parts.len()
        invariant
            i <= parts.len(),
            sets == parts_of(parts@),
            positions_of(merged) == union_of(sets.take(i as int)),
        decreases parts.len() - i,
    {
        add_positions(&mut merged, &parts[i]);
        proof {
            assert(sets.take(i + 1).drop_last() =~= sets.take(i as int));
            assert(sets.take(i + 1).last() == positions_of(*parts@[i as int]));
        }
        i += 1;
    }
    assert(sets.take(i as int) =~= sets);
    Arc::new(merged)
}

/// A position is in a union exactly where it is in one of the parts.
pub proof fn law_union_holds_every_part(parts: Seq<Set<u64>>, position: u64)
    ensures
        union_of(parts).contains(position) <==> exists|i: int|
            0 <= i < parts.len() && (#[trigger] parts[i]).contains(position),
    decreases parts.len(),
{
    if parts.len() > 0 {
        let shorter = parts.drop_last();
        law_union_holds_every_part(shorter, position);
        if shorter.len() > 0 && union_of(shorter).contains(position) {
            let i = choose|i: int| 0 <= i < shorter.len() && (#[trigger] shorter[i]).contains(position);
            assert(parts[i].contains(position));
        }
        if parts.last().contains(position) {
            assert(parts[parts.len() - 1].contains(position));
        }
        if exists|i: int| 0 <= i < parts.len() && (#[trigger] parts[i]).contains(position) {
            let i = choose|i: int| 0 <= i < parts.len() && (#[trigger] parts[i]).contains(position);
            if i < shorter.len() {
                assert(shorter[i].contains(position));
            }
        }
    }
}

} // verus!
