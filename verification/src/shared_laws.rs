//! What the deletes of a split share with those of another, from their keys to the rows that they
//! remove.

use vstd::prelude::*;

use crate::delete_closure::{GroupModel, VerdictShape};
use crate::delete_filter::{FilterVerdict, LoadedEqualityDelete, ResolvedDeletes, SelectedRows};
use crate::delete_manager::{
    all_artifacts, equality_artifact, equality_keys, keyed_place, published_indexes, side_keys, verdict_of,
    ArtifactKeyModel, ArtifactModel, KeyedIndex, LoadModel, LoadedSide,
};
use crate::positions::{parts_of, positions_of, union_of};
use crate::shared_deletes::{has_artifact, has_group, holds_side, opened_keys, resolved_from, resolves};
use crate::split::{IcebergDeleteFile, IcebergSplit};
use crate::types::Schema;

verus! {

// ---------------------------------------------------------------------------
// Keys
// ---------------------------------------------------------------------------

/// The key of a position delete: what it is read from, and the data file that it is read for.
pub open spec fn is_position_key(key: ArtifactKeyModel, split: IcebergSplit, delete: IcebergDeleteFile) -> bool {
    &&& key is Position
    &&& key->Position_delete_path == delete.path@
    &&& key->content_offset == delete.content_offset
    &&& key->content_size_in_bytes == delete.content_size_in_bytes
    &&& key->data_file_path == split.path@
}

/// The key of an equality delete: its file, the fields that it is read by, and the partition that it
/// is read in. It names no data file.
pub open spec fn is_equality_key(
    key: ArtifactKeyModel,
    scope: (i32, Seq<char>),
    ids: Seq<i32>,
    delete: IcebergDeleteFile,
) -> bool {
    &&& key is Equality
    &&& key->scope == scope
    &&& key->equality_field_ids == ids
    &&& key->Equality_delete_path == delete.path@
}

/// Whether some key of a list is that of an equality delete.
pub open spec fn has_equality_key(
    keys: Seq<ArtifactKeyModel>,
    scope: (i32, Seq<char>),
    ids: Seq<i32>,
    delete: IcebergDeleteFile,
) -> bool {
    exists|k: int| 0 <= k < keys.len() && is_equality_key(#[trigger] keys[k], scope, ids, delete)
}

/// Whether a key is that of a delete of one of the groups.
pub open spec fn is_key_of_a_group(key: ArtifactKeyModel, scope: (i32, Seq<char>), groups: Seq<GroupModel>, n: nat) -> bool {
    exists|g: int, d: int|
        0 <= g < n && 0 <= d < groups[g].deletes.len() && is_equality_key(
            key,
            scope,
            groups[g].key,
            #[trigger] groups[g].deletes[d],
        )
}

proof fn lemma_equality_keys(scope: (i32, Seq<char>), groups: Seq<GroupModel>, n: nat, g: int, d: int, k: int)
    requires
        n <= groups.len(),
    ensures
        0 <= g < n && 0 <= d < groups[g].deletes.len() ==> has_equality_key(
            equality_keys(scope, groups, n),
            scope,
            groups[g].key,
            groups[g].deletes[d],
        ),
        0 <= k < equality_keys(scope, groups, n).len() ==> is_key_of_a_group(
            equality_keys(scope, groups, n)[k],
            scope,
            groups,
            n,
        ),
    decreases n,
{
    if n > 0 {
        let m = (n - 1) as nat;
        let before = equality_keys(scope, groups, m);
        let keys = equality_keys(scope, groups, n);
        lemma_equality_keys(scope, groups, m, g, d, k);
        if 0 <= g < m && 0 <= d < groups[g].deletes.len() {
            let at = choose|at: int|
                0 <= at < before.len() && is_equality_key(#[trigger] before[at], scope, groups[g].key, groups[g].deletes[d]);
            assert(keys[at] == before[at]);
        } else if g == m && 0 <= d < groups[g].deletes.len() {
            assert(is_equality_key(keys[before.len() + d], scope, groups[g].key, groups[g].deletes[d]));
        }
        if 0 <= k < keys.len() {
            if k < before.len() {
                assert(keys[k] == before[k]);
                let (a, b) = choose|a: int, b: int|
                    0 <= a < m && 0 <= b < groups[a].deletes.len() && is_equality_key(
                        before[k],
                        scope,
                        groups[a].key,
                        #[trigger] groups[a].deletes[b],
                    );
                assert(is_equality_key(keys[k], scope, groups[a].key, groups[a].deletes[b]));
            } else {
                let b = k - before.len();
                assert(is_equality_key(keys[k], scope, groups[n - 1].key, groups[n - 1].deletes[b]));
            }
        }
    }
}

/// Every delete of a side is loaded under a key of its own kind: the position deletes in order, then
/// those of each group. There is no other key.
pub proof fn law_every_delete_of_a_side_has_its_key(
    split: IcebergSplit,
    scope: (i32, Seq<char>),
    side: (Seq<IcebergDeleteFile>, Seq<GroupModel>),
    i: int,
    g: int,
    d: int,
    k: int,
)
    ensures
        ({
            let keys = side_keys(split, scope, side);
            &&& 0 <= i < side.0.len() ==> is_position_key(keys[i], split, side.0[i])
            &&& keys.len() >= side.0.len()
            &&& 0 <= g < side.1.len() && 0 <= d < side.1[g].deletes.len() ==> has_equality_key(
                keys,
                scope,
                side.1[g].key,
                side.1[g].deletes[d],
            )
            &&& side.0.len() <= k < keys.len() ==> is_key_of_a_group(keys[k], scope, side.1, side.1.len())
        }),
{
    let keys = side_keys(split, scope, side);
    let equality = equality_keys(scope, side.1, side.1.len());
    lemma_equality_keys(scope, side.1, side.1.len(), g, d, k - side.0.len());
    if 0 <= g < side.1.len() && 0 <= d < side.1[g].deletes.len() {
        let at = choose|at: int|
            0 <= at < equality.len() && is_equality_key(#[trigger] equality[at], scope, side.1[g].key, side.1[g].deletes[d]);
        assert(keys[side.0.len() + at] == equality[at]);
    }
    if side.0.len() <= k < keys.len() {
        assert(keys[k] == equality[k - side.0.len()]);
    }
}

/// Opening a split loads what both of its sides need, in the partition of the split.
pub proof fn law_opening_loads_both_sides(
    split: IcebergSplit,
    sides: ((Seq<IcebergDeleteFile>, Seq<GroupModel>), (Seq<IcebergDeleteFile>, Seq<GroupModel>)),
)
    ensures
        opened_keys(split, sides) == side_keys(split, (split.partition_spec_id, split.partition_data_json@), sides.0)
            + side_keys(split, (split.partition_spec_id, split.partition_data_json@), sides.1),
{
}

// ---------------------------------------------------------------------------
// What was loaded
// ---------------------------------------------------------------------------

/// A position is in a union where it is in one of its parts.
pub proof fn law_unions_hold_what_their_parts_hold(parts: Seq<Set<u64>>, position: u64)
    ensures
        union_of(parts).contains(position) <==> exists|i: int|
            0 <= i < parts.len() && (#[trigger] parts[i]).contains(position),
    decreases parts.len(),
{
    if parts.len() > 0 {
        let shorter = parts.drop_last();
        law_unions_hold_what_their_parts_hold(shorter, position);
        if union_of(shorter).contains(position) {
            let i = choose|i: int| 0 <= i < shorter.len() && (#[trigger] shorter[i]).contains(position);
            assert(parts[i].contains(position));
        }
        if parts.last().contains(position) {
            assert(parts[parts.len() - 1].contains(position));
        }
        if exists|i: int| 0 <= i < parts.len() && (#[trigger] parts[i]).contains(position) {
            let i = choose|i: int| 0 <= i < parts.len() && (#[trigger] parts[i]).contains(position);
            if i < shorter.len() {
                assert(shorter[i].contains(position));
            }
        }
    }
}

proof fn lemma_all_artifacts(groups: Seq<Vec<LoadedEqualityDelete>>, g: int, d: int)
    requires
        0 <= g < groups.len(),
        0 <= d < groups[g]@.len(),
    ensures
        exists|k: int| 0 <= k < all_artifacts(groups).len() && #[trigger] all_artifacts(groups)[k] == groups[g]@[d],
    decreases groups.len(),
{
    let shorter = groups.drop_last();
    let before = all_artifacts(shorter);
    let all = all_artifacts(groups);
    if g == groups.len() - 1 {
        assert(all[before.len() + d] == groups[g]@[d]);
    } else {
        lemma_all_artifacts(shorter, g, d);
        let k = choose|k: int| 0 <= k < before.len() && #[trigger] before[k] == shorter[g]@[d];
        assert(all[k] == groups[g]@[d]);
    }
}

/// Whether some load of a position delete holds a position.
pub open spec fn is_loaded_position(
    loads: Seq<LoadModel>,
    split: IcebergSplit,
    deletes: Seq<IcebergDeleteFile>,
    position: u64,
) -> bool {
    exists|i: int, positions: Set<u64>|
        0 <= i < deletes.len() && #[trigger] has_artifact(
            loads,
            position_key_of(split, #[trigger] deletes[i]),
            ArtifactModel::Positions(positions),
        ) && positions.contains(position)
}

/// The key of a position delete.
pub open spec fn position_key_of(split: IcebergSplit, delete: IcebergDeleteFile) -> ArtifactKeyModel {
    ArtifactKeyModel::Position {
        delete_path: delete.path@,
        content_offset: delete.content_offset,
        content_size_in_bytes: delete.content_size_in_bytes,
        data_file_path: split.path@,
    }
}

/// Every position that a side of a split removes was loaded from one of its position deletes, and
/// every one of these has its positions among them.
pub proof fn law_a_side_removes_every_loaded_position(
    loads: Seq<LoadModel>,
    split: IcebergSplit,
    side: (Seq<IcebergDeleteFile>, Seq<GroupModel>),
    resolved: ResolvedDeletes,
    position: u64,
    i: int,
)
    requires
        resolved_from(loads, split, side, resolved),
    ensures
        resolved.positions().contains(position) ==> is_loaded_position(loads, split, side.0, position),
        0 <= i < side.0.len() ==> exists|positions: Set<u64>|
            #[trigger] has_artifact(
                loads,
                position_key_of(split, side.0[i]),
                ArtifactModel::Positions(positions),
            ) && positions.subset_of(resolved.positions()),
{
    let loaded = choose|loaded: LoadedSide|
        #[trigger] holds_side(loads, split, side, loaded) && resolves(loaded, resolved);
    let parts = parts_of(loaded.positions@);
    if resolved.positions().contains(position) {
        law_unions_hold_what_their_parts_hold(parts, position);
        let k = choose|k: int| 0 <= k < parts.len() && (#[trigger] parts[k]).contains(position);
        assert(has_artifact(
            loads,
            position_key_of(split, side.0[k]),
            ArtifactModel::Positions(positions_of(*loaded.positions@[k])),
        ));
    }
    if 0 <= i < side.0.len() {
        let positions = parts[i];
        assert(positions == positions_of(*loaded.positions@[i]));
        assert(has_artifact(loads, position_key_of(split, side.0[i]), ArtifactModel::Positions(positions)));
        assert forall|held: u64| positions.contains(held) implies resolved.positions().contains(held) by {
            law_unions_hold_what_their_parts_hold(parts, held);
            assert(parts[i].contains(held));
        }
    }
}

/// Every equality delete of a side was loaded under its own key and is among those that the side
/// removes rows by.
pub proof fn law_a_side_removes_by_every_equality_delete(
    loads: Seq<LoadModel>,
    split: IcebergSplit,
    side: (Seq<IcebergDeleteFile>, Seq<GroupModel>),
    resolved: ResolvedDeletes,
    g: int,
    d: int,
)
    requires
        resolved_from(loads, split, side, resolved),
        0 <= g < side.1.len(),
        0 <= d < side.1[g].deletes.len(),
    ensures
        exists|k: int|
            0 <= k < resolved.equality@.len() && has_artifact(
                loads,
                ArtifactKeyModel::Equality {
                    scope: (split.partition_spec_id, split.partition_data_json@),
                    equality_field_ids: side.1[g].key,
                    delete_path: side.1[g].deletes[d].path@,
                },
                equality_artifact(#[trigger] resolved.equality@[k]),
            ),
{
    let loaded = choose|loaded: LoadedSide|
        #[trigger] holds_side(loads, split, side, loaded) && resolves(loaded, resolved);
    let scope = (split.partition_spec_id, split.partition_data_json@);
    assert(has_group(loads, scope, side.1[g], loaded.equality@[g]@));
    let artifact = loaded.equality@[g]@[d];
    lemma_all_artifacts(loaded.equality@, g, d);
    let all = all_artifacts(loaded.equality@);
    let k = choose|k: int| 0 <= k < all.len() && #[trigger] all[k] == artifact;
    assert(equality_artifact(resolved.equality@[k]) == equality_artifact(all[k]));
}

/// A verdict holds the deletes of its side, and of both sides where rows are selected.
pub proof fn law_verdicts_hold_the_deletes_of_their_sides(
    shape: VerdictShape,
    applied: ResolvedDeletes,
    previously: ResolvedDeletes,
)
    ensures
        shape is ExcludeDeleted ==> verdict_of(shape, applied, previously) == FilterVerdict::ExcludeDeleted(applied),
        shape is EqualityMatchOnly ==> verdict_of(shape, applied, previously) == FilterVerdict::EqualityMatchOnly(applied),
        shape is SelectNamedRows ==> verdict_of(shape, applied, previously) == (FilterVerdict::SelectRemovedRows {
            selected: SelectedRows::NamedBy(applied),
            previously_applied: previously,
        }),
        shape is SelectWholeFile ==> verdict_of(shape, applied, previously) == (FilterVerdict::SelectRemovedRows {
            selected: SelectedRows::WholeFile,
            previously_applied: previously,
        }),
{
}

// ---------------------------------------------------------------------------
// Published indexes
// ---------------------------------------------------------------------------

proof fn lemma_keyed_place(indexes: Seq<KeyedIndex>, scope: (i32, Seq<char>), ids: Seq<i32>, from: nat)
    ensures
        match keyed_place(indexes, scope, ids, from) {
            Some(at) => from <= at < indexes.len() && indexes[at as int].scope == scope
                && indexes[at as int].equality_field_ids == ids && forall|k: int|
                from <= k < at ==> !((#[trigger] indexes[k]).scope == scope && indexes[k].equality_field_ids == ids),
            None => forall|k: int|
                from <= k < indexes.len() ==> !((#[trigger] indexes[k]).scope == scope && indexes[k].equality_field_ids
                    == ids),
        },
    decreases indexes.len() - from,
{
    if from < indexes.len() && !(indexes[from as int].scope == scope && indexes[from as int].equality_field_ids == ids) {
        lemma_keyed_place(indexes, scope, ids, from + 1);
    }
}

/// Publishing changes the index of one partition and key alone, and makes one where there is none.
pub proof fn law_publishing_touches_one_index(
    indexes: Seq<KeyedIndex>,
    scope: (i32, Seq<char>),
    ids: Seq<i32>,
    artifacts: Seq<LoadedEqualityDelete>,
    schema: Schema,
    k: int,
)
    ensures
        ({
            let after = published_indexes(indexes, scope, ids, artifacts, schema);
            &&& after.len() == indexes.len() || after.len() == indexes.len() + 1
            &&& 0 <= k < indexes.len() ==> after[k].scope == indexes[k].scope && after[k].equality_field_ids
                == indexes[k].equality_field_ids && after[k].columns == indexes[k].columns
            &&& 0 <= k < indexes.len() && !(indexes[k].scope == scope && indexes[k].equality_field_ids == ids) ==> after[k]
                == indexes[k]
            &&& after.len() == indexes.len() <==> exists|at: int|
                0 <= at < indexes.len() && (#[trigger] indexes[at]).scope == scope && indexes[at].equality_field_ids == ids
            &&& after.len() == indexes.len() + 1 ==> after.last().scope == scope && after.last().equality_field_ids == ids
        }),
{
    lemma_keyed_place(indexes, scope, ids, 0);
}

} // verus!
