//! What the splits of one data file share of their deletes.
//!
//! The ranges of a file open the same artifacts and get the same verdict, and an artifact that one
//! of them has read is not read again.

use std::sync::Arc;

use vstd::prelude::*;

use roaring::RoaringTreemap;

use crate::column_handle::handle_models;
use crate::delete_closure::{
    applicable_position, closure_fault, cost_fault, delete_sizes, equality_key, first_delete_fault,
    gated, grouped, inputs_of, is_deletion_vector, is_equality_file, is_position_file, key_before,
    openable, outranking, outranks, shape_of, top_level_place, with_delete, DeleteEvaluationMode,
    EqualityGroup, GatedClosure, GroupModel, VerdictShape,
};
use crate::delete_filter::{
    equality_removes, keeps_row, page_fault, FilterVerdict, LoadedEqualityDelete, PageMasks,
    ResolvedDeletes, SelectedRows, SplitDeleteFilter,
};
use crate::delete_manager::{
    all_artifacts, are_claims_of, claimed, closure_model, duplicate_artifact, equality_artifact,
    equality_keys, equality_load_key, group_ids, group_keys, has_slot, hidden_columns_of, index_models,
    is_claim_of, law_group_keys_are_top_level, load_models, opening, position_key, position_keys,
    published_groups, same_artifacts, side_keys, ArtifactKeyModel, ArtifactModel, DeleteManager,
    DeleteScope, KeyedIndex, LoadModel, LoadSlot, LoadState, LoadStateModel, LoadedArtifact, LoadedSide,
    SideClaims, SplitOpen,
};
use crate::positions::{parts_of, positions_of, union_of};
use crate::split::{delete_models, IcebergDeleteFile, IcebergSplit};
use crate::types::Schema;

verus! {

/// Whether two splits are of one data file, as far as its deletes go: they may cover different
/// ranges of it.
pub open spec fn same_data_file(left: IcebergSplit, right: IcebergSplit) -> bool {
    &&& left.path@ == right.path@
    &&& left.file_record_count == right.file_record_count
    &&& left.partition_spec_id == right.partition_spec_id
    &&& left.partition_data_json@ == right.partition_data_json@
    &&& left.data_sequence_number == right.data_sequence_number
    &&& delete_models(left.deletes@) == delete_models(right.deletes@)
}

/// The scope that the deletes of a split are kept under.
pub open spec fn scope_of(split: IcebergSplit) -> (i32, Seq<char>) {
    (split.partition_spec_id, split.partition_data_json@)
}

/// The artifacts that a split takes of both sides, in the order in which they are claimed.
pub open spec fn opened_keys(
    split: IcebergSplit,
    sides: ((Seq<IcebergDeleteFile>, Seq<GroupModel>), (Seq<IcebergDeleteFile>, Seq<GroupModel>)),
) -> Seq<ArtifactKeyModel> {
    side_keys(split, scope_of(split), sides.0) + side_keys(split, scope_of(split), sides.1)
}

/// Whether groups have the same keys and, delete by delete, equal deletes.
pub open spec fn groups_alike(left: Seq<GroupModel>, right: Seq<GroupModel>) -> bool {
    &&& left.len() == right.len()
    &&& forall|g: int|
        0 <= g < left.len() ==> (#[trigger] left[g]).key == right[g].key && delete_models(
            left[g].deletes,
        ) == delete_models(right[g].deletes)
}

/// Whether what applies of two closures is equal, delete by delete.
pub open spec fn sides_alike(
    left: (Seq<IcebergDeleteFile>, Seq<GroupModel>),
    right: (Seq<IcebergDeleteFile>, Seq<GroupModel>),
) -> bool {
    delete_models(left.0) == delete_models(right.0) && groups_alike(left.1, right.1)
}

proof fn lemma_alike_length(left: Seq<IcebergDeleteFile>, right: Seq<IcebergDeleteFile>)
    requires
        delete_models(left) == delete_models(right),
    ensures
        left.len() == right.len(),
{
    assert(delete_models(left).len() == left.len());
    assert(delete_models(right).len() == right.len());
}

proof fn lemma_alike_at(left: Seq<IcebergDeleteFile>, right: Seq<IcebergDeleteFile>, i: int)
    requires
        delete_models(left) == delete_models(right),
        0 <= i < left.len(),
    ensures
        left.len() == right.len(),
        left[i].model() == right[i].model(),
{
    lemma_alike_length(left, right);
    assert(delete_models(left)[i] == left[i].model());
    assert(delete_models(right)[i] == right[i].model());
}

proof fn lemma_take_alike(left: Seq<IcebergDeleteFile>, right: Seq<IcebergDeleteFile>, n: int)
    requires
        delete_models(left) == delete_models(right),
        0 <= n <= left.len(),
    ensures
        left.len() == right.len(),
        delete_models(left.take(n)) == delete_models(right.take(n)),
{
    lemma_alike_length(left, right);
    assert(delete_models(left.take(n)) =~= delete_models(left).take(n));
    assert(delete_models(right.take(n)) =~= delete_models(right).take(n));
}

proof fn lemma_filter_alike(left: Seq<IcebergDeleteFile>, right: Seq<IcebergDeleteFile>, keep: spec_fn(IcebergDeleteFile) -> bool)
    requires
        delete_models(left) == delete_models(right),
        forall|a: IcebergDeleteFile, b: IcebergDeleteFile|
            a.model() == b.model() ==> #[trigger] keep(a) == #[trigger] keep(b),
    ensures
        delete_models(left.filter(keep)) == delete_models(right.filter(keep)),
        left.filter(keep).len() == right.filter(keep).len(),
    decreases left.len(),
{
    reveal(Seq::filter);
    lemma_alike_length(left, right);
    if left.len() > 0 {
        let n = left.len() - 1;
        lemma_take_alike(left, right, n);
        lemma_alike_at(left, right, n);
        assert(left.drop_last() =~= left.take(n));
        assert(right.drop_last() =~= right.take(n));
        lemma_filter_alike(left.drop_last(), right.drop_last(), keep);
        assert(delete_models(seq![left[n]]) =~= delete_models(seq![right[n]]));
        lemma_join_alike(
            left.drop_last().filter(keep),
            right.drop_last().filter(keep),
            seq![left[n]],
            seq![right[n]],
        );
        assert(left.drop_last().filter(keep).push(left[n]) =~= left.drop_last().filter(keep) + seq![left[n]]);
        assert(right.drop_last().filter(keep).push(right[n]) =~= right.drop_last().filter(keep) + seq![right[n]]);
        lemma_alike_length(left.filter(keep), right.filter(keep));
    }
}

proof fn lemma_join_alike(
    a: Seq<IcebergDeleteFile>,
    b: Seq<IcebergDeleteFile>,
    c: Seq<IcebergDeleteFile>,
    d: Seq<IcebergDeleteFile>,
)
    requires
        delete_models(a) == delete_models(b),
        delete_models(c) == delete_models(d),
    ensures
        delete_models(a + c) == delete_models(b + d),
{
    assert(delete_models(a + c) =~= delete_models(a) + delete_models(c));
    assert(delete_models(b + d) =~= delete_models(b) + delete_models(d));
}

proof fn lemma_fault_alike(left: Seq<IcebergDeleteFile>, right: Seq<IcebergDeleteFile>, n: nat)
    requires
        delete_models(left) == delete_models(right),
        n <= left.len(),
    ensures
        first_delete_fault(left, n) == first_delete_fault(right, n),
    decreases n,
{
    lemma_alike_length(left, right);
    if n > 0 {
        lemma_fault_alike(left, right, (n - 1) as nat);
        lemma_alike_at(left, right, n - 1);
        lemma_take_alike(left, right, n - 1);
        lemma_filter_alike(left.take(n - 1), right.take(n - 1), is_deletion_vector());
    }
}

proof fn lemma_cost_alike(left: Seq<IcebergDeleteFile>, right: Seq<IcebergDeleteFile>)
    requires
        delete_models(left) == delete_models(right),
    ensures
        cost_fault(left) == cost_fault(right),
{
    lemma_alike_length(left, right);
    assert forall|i: int| 0 <= i < left.len() implies (#[trigger] left[i]).model()
        == right[i].model() by {
        lemma_alike_at(left, right, i);
    }
    assert(delete_sizes(left) =~= delete_sizes(right));
    if exists|i: int| 0 <= i < left.len() && !openable(#[trigger] left[i]) {
        let i = choose|i: int| 0 <= i < left.len() && !openable(#[trigger] left[i]);
        assert(!openable(right[i]));
    }
    if exists|i: int| 0 <= i < right.len() && !openable(#[trigger] right[i]) {
        let i = choose|i: int| 0 <= i < right.len() && !openable(#[trigger] right[i]);
        assert(!openable(left[i]));
    }
}

proof fn lemma_with_delete_alike(
    left: Seq<GroupModel>,
    right: Seq<GroupModel>,
    key: Seq<i32>,
    first: IcebergDeleteFile,
    second: IcebergDeleteFile,
)
    requires
        groups_alike(left, right),
        first.model() == second.model(),
    ensures
        groups_alike(with_delete(left, key, first), with_delete(right, key, second)),
    decreases left.len(),
{
    if left.len() == 0 || key_before(left.last().key, key) {
        assert(delete_models(seq![first]) =~= delete_models(seq![second]));
    } else if left.last().key == key {
        assert(delete_models(seq![first]) =~= delete_models(seq![second]));
        assert(left.last().deletes.push(first) =~= left.last().deletes + seq![first]);
        assert(right.last().deletes.push(second) =~= right.last().deletes + seq![second]);
        lemma_join_alike(
            left.last().deletes,
            right.last().deletes,
            seq![first],
            seq![second],
        );
    } else {
        assert(groups_alike(left.drop_last(), right.drop_last()));
        lemma_with_delete_alike(left.drop_last(), right.drop_last(), key, first, second);
    }
}

proof fn lemma_grouped_alike(schema: Schema, left: Seq<IcebergDeleteFile>, right: Seq<IcebergDeleteFile>, n: nat)
    requires
        delete_models(left) == delete_models(right),
        n <= left.len(),
    ensures
        match (grouped(schema, left, n), grouped(schema, right, n)) {
            (Ok(first), Ok(second)) => groups_alike(first, second),
            (Err(first), Err(second)) => first == second,
            _ => false,
        },
    decreases n,
{
    lemma_alike_length(left, right);
    if n > 0 {
        lemma_grouped_alike(schema, left, right, (n - 1) as nat);
        lemma_alike_at(left, right, n - 1);
        match (grouped(schema, left, (n - 1) as nat), grouped(schema, right, (n - 1) as nat)) {
            (Ok(first), Ok(second)) => {
                let ids = left[n - 1].equality_field_ids@;
                assert(right[n - 1].equality_field_ids@ == ids);
                lemma_with_delete_alike(
                    first,
                    second,
                    equality_key(schema, ids),
                    left[n - 1],
                    right[n - 1],
                );
            },
            _ => {},
        }
    }
}

proof fn lemma_gated_alike(
    left: IcebergSplit,
    right: IcebergSplit,
    first: Seq<IcebergDeleteFile>,
    second: Seq<IcebergDeleteFile>,
    schema: Schema,
)
    requires
        same_data_file(left, right),
        delete_models(first) == delete_models(second),
    ensures
        match (gated(left, first, schema), gated(right, second, schema)) {
            (Ok(a), Ok(b)) => sides_alike(a, b) && side_keys(left, scope_of(left), a) == side_keys(
                right,
                scope_of(right),
                b,
            ),
            (Err(a), Err(b)) => a == b,
            _ => false,
        },
{
    lemma_alike_length(first, second);
    lemma_fault_alike(first, second, first.len());
    lemma_filter_alike(first, second, is_deletion_vector());
    lemma_filter_alike(first, second, is_position_file());
    lemma_filter_alike(first, second, is_equality_file());
    assert(closure_fault(first) == closure_fault(second));
    let a = first.filter(is_position_file()) + first.filter(is_deletion_vector());
    let b = second.filter(is_position_file()) + second.filter(is_deletion_vector());
    lemma_join_alike(
        first.filter(is_position_file()),
        second.filter(is_position_file()),
        first.filter(is_deletion_vector()),
        second.filter(is_deletion_vector()),
    );
    let applicable = applicable_position(left.file_record_count, left.data_sequence_number);
    lemma_filter_alike(a, b, applicable);
    let c = first.filter(is_equality_file());
    let d = second.filter(is_equality_file());
    let younger = outranking(left.data_sequence_number);
    lemma_filter_alike(c, d, younger);
    lemma_grouped_alike(schema, c.filter(younger), d.filter(younger), c.filter(younger).len());
    lemma_position_keys_alike(left, right, a.filter(applicable), b.filter(applicable));
    match (
        grouped(schema, c.filter(younger), c.filter(younger).len()),
        grouped(schema, d.filter(younger), d.filter(younger).len()),
    ) {
        (Ok(e), Ok(f)) => {
            lemma_equality_keys_alike(scope_of(left), e, f, e.len());
        },
        _ => {},
    }
}

proof fn lemma_position_keys_alike(left: IcebergSplit, right: IcebergSplit, first: Seq<IcebergDeleteFile>, second: Seq<IcebergDeleteFile>)
    requires
        same_data_file(left, right),
        delete_models(first) == delete_models(second),
    ensures
        position_keys(left, first) == position_keys(right, second),
{
    lemma_alike_length(first, second);
    assert forall|i: int| 0 <= i < first.len() implies position_key(left, #[trigger] first[i])
        == position_key(right, second[i]) by {
        lemma_alike_at(first, second, i);
    }
    assert(position_keys(left, first) =~= position_keys(right, second));
}

proof fn lemma_equality_keys_alike(scope: (i32, Seq<char>), left: Seq<GroupModel>, right: Seq<GroupModel>, n: nat)
    requires
        groups_alike(left, right),
        n <= left.len(),
    ensures
        equality_keys(scope, left, n) == equality_keys(scope, right, n),
    decreases n,
{
    if n > 0 {
        lemma_equality_keys_alike(scope, left, right, (n - 1) as nat);
        let first = left[n - 1];
        let second = right[n - 1];
        lemma_alike_length(first.deletes, second.deletes);
        assert forall|i: int| 0 <= i < first.deletes.len() implies equality_load_key(
            scope,
            first.key,
            #[trigger] first.deletes[i],
        ) == equality_load_key(scope, second.key, second.deletes[i]) by {
            lemma_alike_at(first.deletes, second.deletes, i);
        }
        assert(group_keys(scope, first) =~= group_keys(scope, second));
    }
}

/// The ranges of one data file open alike: both fail for the same reason, or both take the same
/// artifacts.
pub proof fn law_ranges_of_one_file_open_alike(left: IcebergSplit, right: IcebergSplit, schema: Schema, mode: DeleteEvaluationMode)
    requires
        same_data_file(left, right),
    ensures
        match (opening(left, schema, mode), opening(right, schema, mode)) {
            (Ok(first), Ok(second)) => {
                &&& opened_keys(left, first) == opened_keys(right, second)
                &&& sides_alike(first.0, second.0)
                &&& sides_alike(first.1, second.1)
            },
            (Err(first), Err(second)) => first == second,
            _ => false,
        },
{
    lemma_alike_length(left.deletes@, right.deletes@);
    let (a, b) = inputs_of(left, mode);
    let (c, d) = inputs_of(right, mode);
    lemma_join_alike(a, c, b, d);
    lemma_cost_alike(a + b, c + d);
    lemma_gated_alike(left, right, a, c, schema);
    lemma_gated_alike(left, right, b, d, schema);
}

proof fn lemma_claims_of_known(loads: Seq<LoadModel>, keys: Seq<ArtifactKeyModel>, n: nat)
    requires
        n <= keys.len(),
        forall|i: int| 0 <= i < keys.len() ==> has_slot(loads, #[trigger] keys[i]),
    ensures
        claimed(loads, keys, n) == loads,
    decreases n,
{
    if n > 0 {
        lemma_claims_of_known(loads, keys, (n - 1) as nat);
        assert(has_slot(loads, keys[n - 1]));
    }
}

/// Whether an artifact was read.
pub open spec fn is_loaded(loads: Seq<LoadModel>, key: ArtifactKeyModel) -> bool {
    exists|k: int| 0 <= k < loads.len() && (#[trigger] loads[k]).key == key && loads[k].state is Loaded
}

/// Whether every artifact of a list was read.
pub open spec fn all_loaded(loads: Seq<LoadModel>, keys: Seq<ArtifactKeyModel>) -> bool {
    forall|i: int| 0 <= i < keys.len() ==> is_loaded(loads, #[trigger] keys[i])
}

/// Claiming gives every artifact a slot and changes none that was there.
pub proof fn law_claims_have_slots(loads: Seq<LoadModel>, keys: Seq<ArtifactKeyModel>, n: nat)
    requires
        n <= keys.len(),
    ensures
        claimed(loads, keys, n).len() >= loads.len(),
        claimed(loads, keys, n).take(loads.len() as int) == loads,
        forall|i: int| 0 <= i < n ==> has_slot(claimed(loads, keys, n), #[trigger] keys[i]),
    decreases n,
{
    if n > 0 {
        law_claims_have_slots(loads, keys, (n - 1) as nat);
        let before = claimed(loads, keys, (n - 1) as nat);
        let after = claimed(loads, keys, n);
        assert(after.take(loads.len() as int) =~= before.take(loads.len() as int));
        assert forall|i: int| 0 <= i < n implies has_slot(after, #[trigger] keys[i]) by {
            if has_slot(before, keys[i]) {
                let k = choose|k: int| 0 <= k < before.len() && (#[trigger] before[k]).key == keys[i];
                assert(after[k].key == keys[i]);
            } else {
                assert(i == n - 1);
                assert(after[before.len() as int].key == keys[i]);
            }
        }
    } else {
        assert(loads.take(loads.len() as int) =~= loads);
    }
}

/// Once the artifacts that one range of a data file takes were read, opening another range of it
/// claims no slot that is not there, and every slot that it claims is loaded: nothing is read.
pub proof fn law_a_second_open_reads_nothing(
    left: IcebergSplit,
    right: IcebergSplit,
    schema: Schema,
    mode: DeleteEvaluationMode,
    loads: Seq<LoadModel>,
)
    requires
        same_data_file(left, right),
        opening(left, schema, mode) is Ok,
        all_loaded(loads, opened_keys(left, opening(left, schema, mode)->Ok_0)),
        forall|i: int, j: int|
            0 <= i < j < loads.len() ==> (#[trigger] loads[i]).key != (#[trigger] loads[j]).key,
    ensures
        opening(right, schema, mode) is Ok,
        ({
            let (applied, previously) = opening(right, schema, mode)->Ok_0;
            let first = side_keys(right, scope_of(right), applied);
            let second = side_keys(right, scope_of(right), previously);
            &&& claimed(loads, first, first.len()) == loads
            &&& claimed(loads, second, second.len()) == loads
            &&& forall|k: int|
                0 <= k < loads.len() && (first.contains((#[trigger] loads[k]).key) || second.contains(
                    loads[k].key,
                )) ==> loads[k].state is Loaded
        }),
{
    law_ranges_of_one_file_open_alike(left, right, schema, mode);
    let (applied, previously) = opening(right, schema, mode)->Ok_0;
    let first = side_keys(right, scope_of(right), applied);
    let second = side_keys(right, scope_of(right), previously);
    let keys = opened_keys(left, opening(left, schema, mode)->Ok_0);
    assert(keys == first + second);
    assert forall|i: int| 0 <= i < first.len() implies has_slot(loads, #[trigger] first[i]) by {
        assert(keys[i] == first[i]);
    }
    assert forall|i: int| 0 <= i < second.len() implies has_slot(loads, #[trigger] second[i]) by {
        assert(keys[first.len() + i] == second[i]);
    }
    lemma_claims_of_known(loads, first, first.len());
    lemma_claims_of_known(loads, second, second.len());
    assert forall|k: int| 0 <= k < loads.len() && (first.contains((#[trigger] loads[k]).key)
        || second.contains(loads[k].key)) implies loads[k].state is Loaded by {
        let i = if first.contains(loads[k].key) {
            choose|i: int| 0 <= i < first.len() && first[i] == loads[k].key
        } else {
            first.len() + choose|i: int| 0 <= i < second.len() && second[i] == loads[k].key
        };
        assert(keys[i] == loads[k].key);
        let m = choose|m: int|
            0 <= m < loads.len() && (#[trigger] loads[m]).key == keys[i] && loads[m].state is Loaded;
        if m < k {
            assert(loads[m].key != loads[k].key);
        } else if k < m {
            assert(loads[k].key != loads[m].key);
        }
    }
}

/// Whether two sides delete the same: the same positions, and the same equality artifacts.
pub open spec fn same_deletes(left: ResolvedDeletes, right: ResolvedDeletes) -> bool {
    left.positions() == right.positions() && same_artifacts(left.equality@, right.equality@)
}

/// What two splits are handed of the same loaded artifacts resolves to the same deletes.
pub proof fn law_one_load_resolves_alike(
    first: LoadedSide,
    second: LoadedSide,
    left: ResolvedDeletes,
    right: ResolvedDeletes,
)
    requires
        parts_of(first.positions@) == parts_of(second.positions@),
        same_artifacts(all_artifacts(first.equality@), all_artifacts(second.equality@)),
        resolves(first, left),
        resolves(second, right),
    ensures
        same_deletes(left, right),
{
    let a = all_artifacts(first.equality@);
    let b = all_artifacts(second.equality@);
    assert forall|i: int| 0 <= i < left.equality@.len() implies (#[trigger] left.equality@[i]).path@
        == right.equality@[i].path@ && left.equality@[i].data_sequence_number
        == right.equality@[i].data_sequence_number && left.equality@[i].key_set
        == right.equality@[i].key_set by {
        assert(a[i].path@ == b[i].path@);
        assert(right.equality@[i].path@ == b[i].path@);
    }
}

/// Whether two verdicts are of one shape over the same deletes.
pub open spec fn same_verdict(left: FilterVerdict, right: FilterVerdict) -> bool {
    match (left, right) {
        (FilterVerdict::ExcludeDeleted(a), FilterVerdict::ExcludeDeleted(b)) => same_deletes(a, b),
        (FilterVerdict::EqualityMatchOnly(a), FilterVerdict::EqualityMatchOnly(b)) => same_deletes(
            a,
            b,
        ),
        (
            FilterVerdict::SelectRemovedRows { selected: a, previously_applied: c },
            FilterVerdict::SelectRemovedRows { selected: b, previously_applied: d },
        ) => same_deletes(c, d) && match (a, b) {
            (SelectedRows::WholeFile, SelectedRows::WholeFile) => true,
            (SelectedRows::NamedBy(e), SelectedRows::NamedBy(f)) => same_deletes(e, f),
            _ => false,
        },
        _ => false,
    }
}

/// Filters over the same artifacts judge every page the same: the same fault, or the same rows.
pub proof fn law_shared_artifacts_give_one_mask(
    left: FilterVerdict,
    right: FilterVerdict,
    rows: nat,
    positions: Seq<Option<u64>>,
    masks: PageMasks,
)
    requires
        same_verdict(left, right),
    ensures
        page_fault(left, rows, positions, masks) == page_fault(right, rows, positions, masks),
        forall|row: int|
            keeps_row(
                left,
                #[trigger] positions[row]->0,
                equality_removes(masks.applied@, row),
                equality_removes(masks.previously@, row),
            ) == keeps_row(
                right,
                positions[row]->0,
                equality_removes(masks.applied@, row),
                equality_removes(masks.previously@, row),
            ),
{
}

// ---------------------------------------------------------------------------
// What a split is handed
// ---------------------------------------------------------------------------

/// Whether the slot of a key holds an artifact.
pub open spec fn has_artifact(loads: Seq<LoadModel>, key: ArtifactKeyModel, artifact: ArtifactModel) -> bool {
    exists|k: int|
        0 <= k < loads.len() && (#[trigger] loads[k]).key == key && loads[k].state
            == LoadStateModel::Loaded(artifact)
}

/// Whether artifacts are what the slots of an equality group hold, delete by delete.
pub open spec fn has_group(
    loads: Seq<LoadModel>,
    scope: (i32, Seq<char>),
    group: GroupModel,
    artifacts: Seq<LoadedEqualityDelete>,
) -> bool {
    &&& artifacts.len() == group.deletes.len()
    &&& forall|d: int|
        0 <= d < artifacts.len() ==> has_artifact(
            loads,
            equality_load_key(scope, group.key, group.deletes[d]),
            equality_artifact(#[trigger] artifacts[d]),
        )
}

/// Whether a loaded side is what the slots of a split's deletes hold.
pub open spec fn holds_side(
    loads: Seq<LoadModel>,
    split: IcebergSplit,
    side: (Seq<IcebergDeleteFile>, Seq<GroupModel>),
    loaded: LoadedSide,
) -> bool {
    &&& loaded.positions@.len() == side.0.len()
    &&& forall|i: int|
        0 <= i < loaded.positions@.len() ==> has_artifact(
            loads,
            position_key(split, side.0[i]),
            ArtifactModel::Positions(positions_of(*(#[trigger] loaded.positions@[i]))),
        )
    &&& loaded.equality@.len() == side.1.len()
    &&& forall|g: int|
        0 <= g < loaded.equality@.len() ==> has_group(
            loads,
            scope_of(split),
            side.1[g],
            (#[trigger] loaded.equality@[g])@,
        )
}

/// Whether deletes are what a loaded side comes to.
pub open spec fn resolves(loaded: LoadedSide, resolved: ResolvedDeletes) -> bool {
    &&& resolved.positions() == union_of(parts_of(loaded.positions@))
    &&& same_artifacts(resolved.equality@, all_artifacts(loaded.equality@))
}

/// Whether deletes are what the slots of one side of a split come to.
pub open spec fn resolved_from(
    loads: Seq<LoadModel>,
    split: IcebergSplit,
    side: (Seq<IcebergDeleteFile>, Seq<GroupModel>),
    resolved: ResolvedDeletes,
) -> bool {
    exists|loaded: LoadedSide|
        #[trigger] holds_side(loads, split, side, loaded) && resolves(loaded, resolved)
}

/// Whether a verdict has a shape and judges by what the slots of a split hold.
pub open spec fn verdict_from(
    loads: Seq<LoadModel>,
    split: IcebergSplit,
    sides: ((Seq<IcebergDeleteFile>, Seq<GroupModel>), (Seq<IcebergDeleteFile>, Seq<GroupModel>)),
    shape: VerdictShape,
    verdict: FilterVerdict,
) -> bool {
    match (shape, verdict) {
        (VerdictShape::ExcludeDeleted, FilterVerdict::ExcludeDeleted(applied)) => resolved_from(
            loads,
            split,
            sides.0,
            applied,
        ),
        (VerdictShape::EqualityMatchOnly, FilterVerdict::EqualityMatchOnly(applied)) => resolved_from(
            loads,
            split,
            sides.0,
            applied,
        ),
        (
            VerdictShape::SelectNamedRows,
            FilterVerdict::SelectRemovedRows { selected: SelectedRows::NamedBy(applied), previously_applied },
        ) => resolved_from(loads, split, sides.0, applied) && resolved_from(
            loads,
            split,
            sides.1,
            previously_applied,
        ),
        (
            VerdictShape::SelectWholeFile,
            FilterVerdict::SelectRemovedRows { selected: SelectedRows::WholeFile, previously_applied },
        ) => resolved_from(loads, split, sides.1, previously_applied),
        _ => false,
    }
}

proof fn lemma_unloaded_slot(loads: Seq<LoadSlot>, keys: Seq<ArtifactKeyModel>, slot: int)
    requires
        forall|i: int, j: int|
            0 <= i < j < loads.len() ==> (#[trigger] loads[i]).key.model() != (
            #[trigger] loads[j]).key.model(),
        0 <= slot < loads.len(),
        !(loads[slot].state is Loaded),
        keys.contains(loads[slot].key.model()),
    ensures
        !all_loaded(load_models(loads), keys),
{
    let models = load_models(loads);
    if all_loaded(models, keys) {
        let i = choose|i: int| 0 <= i < keys.len() && keys[i] == loads[slot].key.model();
        let k = choose|k: int|
            0 <= k < models.len() && (#[trigger] models[k]).key == keys[i] && models[k].state is Loaded;
        assert(models[k] == (LoadModel { key: loads[k].key.model(), state: loads[k].state.model() }));
        assert(loads[k].state is Loaded);
        if k < slot {
            assert(loads[k].key.model() != loads[slot].key.model());
        } else if slot < k {
            assert(loads[slot].key.model() != loads[k].key.model());
        }
    }
}

proof fn lemma_equality_keys_contain(scope: (i32, Seq<char>), groups: Seq<GroupModel>, n: nat, g: int, d: int)
    requires
        0 <= g < n <= groups.len(),
        0 <= d < groups[g].deletes.len(),
    ensures
        equality_keys(scope, groups, n).contains(
            equality_load_key(scope, groups[g].key, groups[g].deletes[d]),
        ),
    decreases n,
{
    let key = equality_load_key(scope, groups[g].key, groups[g].deletes[d]);
    let before = equality_keys(scope, groups, (n - 1) as nat);
    let own = group_keys(scope, groups[n - 1]);
    let all = equality_keys(scope, groups, n);
    assert(all == before + own);
    if g < n - 1 {
        lemma_equality_keys_contain(scope, groups, (n - 1) as nat, g, d);
        let i = choose|i: int| 0 <= i < before.len() && before[i] == key;
        assert(all[i] == key);
    } else {
        assert(own[d] == key);
        assert(all[before.len() + d] == key);
    }
}

impl DeleteManager {
    fn loaded_group(&self, scope: &DeleteScope, group: &EqualityGroup<'_>, slots: &Vec<usize>) -> (artifacts: Option<Vec<LoadedEqualityDelete>>)
        requires
            self.wf(),
            is_claim_of(self.loads@, slots@, scope.model(), *group),
        ensures
            match artifacts {
                Some(list) => has_group(
                    load_models(self.loads@),
                    scope.model(),
                    group.model(),
                    list@,
                ),
                None => exists|d: int|
                    0 <= d < slots@.len() && !(self.loads@[(#[trigger] slots@[d]) as int].state is Loaded),
            },
    {
        let ghost models = load_models(self.loads@);
        let mut list: Vec<LoadedEqualityDelete> = Vec::new();
        let mut d: usize = 0;
        while d < slots.len()
            invariant
                d <= slots.len(),
                self.wf(),
                models == load_models(self.loads@),
                is_claim_of(self.loads@, slots@, scope.model(), *group),
                list@.len() == d,
                forall|k: int|
                    0 <= k < d ==> has_artifact(
                        models,
                        equality_load_key(scope.model(), group.key@, *group.deletes@[k]),
                        equality_artifact(#[trigger] list@[k]),
                    ),
            decreases slots.len() - d,
        {
            let slot: usize = slots[d];
            assert(slots@[d as int] < self.loads@.len());
            match &self.loads[slot].state {
                LoadState::Loaded(LoadedArtifact::Equality(artifact)) => {
                    let copy = duplicate_artifact(artifact);
                    proof {
                        assert(models[slot as int] == (LoadModel {
                            key: self.loads@[slot as int].key.model(),
                            state: self.loads@[slot as int].state.model(),
                        }));
                        assert(has_artifact(
                            models,
                            equality_load_key(scope.model(), group.key@, *group.deletes@[d as int]),
                            equality_artifact(copy),
                        ));
                    }
                    list.push(copy);
                },
                _ => {
                    assert(!(self.loads@[slots@[d as int] as int].state is Loaded));
                    return None;
                },
            }
            d += 1;
        }
        Some(list)
    }

    /// What one side of a split was loaded into, once all of it is there.
    pub fn loaded_side(&self, split: &IcebergSplit, scope: &DeleteScope, closure: &GatedClosure<'_>, claims: &SideClaims) -> (side: Option<LoadedSide>)
        requires
            self.wf(),
            scope.model() == scope_of(*split),
            are_claims_of(self.loads@, *claims, *split, scope.model(), *closure),
        ensures
            match side {
                Some(side) => holds_side(
                    load_models(self.loads@),
                    *split,
                    closure_model(*closure),
                    side,
                ),
                None => !all_loaded(
                    load_models(self.loads@),
                    side_keys(*split, scope.model(), closure_model(*closure)),
                ),
            },
    {
        let ghost models = load_models(self.loads@);
        let ghost side = closure_model(*closure);
        let ghost keys = side_keys(*split, scope.model(), side);
        let mut positions: Vec<Arc<RoaringTreemap>> = Vec::new();
        let mut i: usize = 0;
        while i < claims.positions.len()
            invariant
                i <= claims.positions.len(),
                self.wf(),
                models == load_models(self.loads@),
                side == closure_model(*closure),
                keys == side_keys(*split, scope.model(), side),
                are_claims_of(self.loads@, *claims, *split, scope.model(), *closure),
                positions@.len() == i,
                forall|k: int|
                    0 <= k < i ==> has_artifact(
                        models,
                        position_key(*split, side.0[k]),
                        ArtifactModel::Positions(positions_of(*(#[trigger] positions@[k]))),
                    ),
            decreases claims.positions.len() - i,
        {
            let slot: usize = claims.positions[i];
            proof {
                assert(claims.positions@[i as int] < self.loads@.len());
                assert(side.0[i as int] == *closure.position_files@[i as int]);
                assert(models[slot as int] == (LoadModel {
                    key: self.loads@[slot as int].key.model(),
                    state: self.loads@[slot as int].state.model(),
                }));
            }
            match &self.loads[slot].state {
                LoadState::Loaded(LoadedArtifact::Positions(map)) => {
                    let shared = map.clone();
                    assert(has_artifact(
                        models,
                        position_key(*split, side.0[i as int]),
                        ArtifactModel::Positions(positions_of(*shared)),
                    ));
                    positions.push(shared);
                },
                _ => {
                    proof {
                        assert(position_keys(*split, side.0)[i as int] == position_key(
                            *split,
                            side.0[i as int],
                        ));
                        assert(keys[i as int] == self.loads@[slot as int].key.model());
                        lemma_unloaded_slot(self.loads@, keys, slot as int);
                    }
                    return None;
                },
            }
            i += 1;
        }
        let mut equality: Vec<Vec<LoadedEqualityDelete>> = Vec::new();
        let mut g: usize = 0;
        while g < claims.equality.len()
            invariant
                g <= claims.equality.len(),
                self.wf(),
                models == load_models(self.loads@),
                side == closure_model(*closure),
                keys == side_keys(*split, scope.model(), side),
                are_claims_of(self.loads@, *claims, *split, scope.model(), *closure),
                equality@.len() == g,
                forall|k: int|
                    0 <= k < g ==> has_group(
                        models,
                        scope.model(),
                        side.1[k],
                        (#[trigger] equality@[k])@,
                    ),
            decreases claims.equality.len() - g,
        {
            assert(side.1[g as int] == closure.equality_groups@[g as int].model());
            assert(is_claim_of(
                self.loads@,
                claims.equality@[g as int]@,
                scope.model(),
                closure.equality_groups@[g as int],
            ));
            match self.loaded_group(scope, &closure.equality_groups[g], &claims.equality[g]) {
                Some(list) => equality.push(list),
                None => {
                    proof {
                        let slots = claims.equality@[g as int]@;
                        let d = choose|d: int|
                            0 <= d < slots.len() && !(
                            self.loads@[(#[trigger] slots[d]) as int].state is Loaded);
                        assert(slots[d] < self.loads@.len());
                        lemma_equality_keys_contain(
                            scope.model(),
                            side.1,
                            side.1.len(),
                            g as int,
                            d,
                        );
                        let tail = equality_keys(scope.model(), side.1, side.1.len());
                        let key = self.loads@[slots[d] as int].key.model();
                        assert(side.1[g as int].deletes[d]
                            == *closure.equality_groups@[g as int].deletes@[d]);
                        let at = choose|at: int| 0 <= at < tail.len() && tail[at] == key;
                        assert(keys[position_keys(*split, side.0).len() + at] == key);
                        lemma_unloaded_slot(self.loads@, keys, slots[d] as int);
                    }
                    return None;
                },
            }
            g += 1;
        }
        Some(LoadedSide { positions, equality })
    }
}

/// Whether an opening is that of a split.
pub open spec fn is_open_of(open: SplitOpen, split: IcebergSplit, schema: Schema, mode: DeleteEvaluationMode) -> bool {
    &&& opening(split, schema, mode) is Ok
    &&& opening(split, schema, mode)->Ok_0 == (
        closure_model(open.applied),
        closure_model(open.previously),
    )
    &&& open.shape == shape_of(mode)
    &&& open.scope.model() == scope_of(split)
}

/// The published indexes after both sides of a split were published.
pub open spec fn both_published(
    before: Seq<KeyedIndex>,
    open: SplitOpen,
    first: LoadedSide,
    second: LoadedSide,
    schema: Schema,
) -> Seq<KeyedIndex> {
    published_groups(
        published_groups(
            before,
            open.scope.model(),
            open.applied.equality_groups@,
            first.equality@,
            schema,
            first.equality@.len(),
        ),
        open.scope.model(),
        open.previously.equality_groups@,
        second.equality@,
        schema,
        second.equality@.len(),
    )
}

/// Whether two loaded sides are what the slots of a split hold.
pub open spec fn holds_sides(
    loads: Seq<LoadModel>,
    split: IcebergSplit,
    sides: ((Seq<IcebergDeleteFile>, Seq<GroupModel>), (Seq<IcebergDeleteFile>, Seq<GroupModel>)),
    first: LoadedSide,
    second: LoadedSide,
) -> bool {
    holds_side(loads, split, sides.0, first) && holds_side(loads, split, sides.1, second)
}

proof fn lemma_gated_keys_are_top_level(split: IcebergSplit, deletes: Seq<IcebergDeleteFile>, schema: Schema, g: int, i: int)
    requires
        gated(split, deletes, schema) is Ok,
        0 <= g < gated(split, deletes, schema)->Ok_0.1.len(),
        0 <= i < gated(split, deletes, schema)->Ok_0.1[g].key.len(),
    ensures
        top_level_place(schema, gated(split, deletes, schema)->Ok_0.1[g].key[i], 0) is Some,
{
    let equality = deletes.filter(is_equality_file()).filter(
        outranking(split.data_sequence_number),
    );
    law_group_keys_are_top_level(schema, equality, equality.len(), g, i);
}

proof fn lemma_held_is_loaded(
    loads: Seq<LoadModel>,
    split: IcebergSplit,
    side: (Seq<IcebergDeleteFile>, Seq<GroupModel>),
    loaded: LoadedSide,
)
    requires
        holds_side(loads, split, side, loaded),
    ensures
        all_loaded(loads, side_keys(split, scope_of(split), side)),
{
    let first = position_keys(split, side.0);
    let second = equality_keys(scope_of(split), side.1, side.1.len());
    let keys = side_keys(split, scope_of(split), side);
    assert forall|i: int| 0 <= i < keys.len() implies is_loaded(
            loads,
            #[trigger] keys[i],
        ) by {
        if i < first.len() {
            let map = loaded.positions@[i];
            assert(has_artifact(
                loads,
                position_key(split, side.0[i]),
                ArtifactModel::Positions(positions_of(*map)),
            ));
            assert(keys[i] == position_key(split, side.0[i]));
        } else {
            lemma_group_keys_loaded(loads, split, side, loaded, side.1.len(), i - first.len());
            assert(keys[i] == second[i - first.len()]);
        }
    }
}

proof fn lemma_group_keys_loaded(
    loads: Seq<LoadModel>,
    split: IcebergSplit,
    side: (Seq<IcebergDeleteFile>, Seq<GroupModel>),
    loaded: LoadedSide,
    n: nat,
    i: int,
)
    requires
        holds_side(loads, split, side, loaded),
        n <= side.1.len(),
        0 <= i < equality_keys(scope_of(split), side.1, n).len(),
    ensures
        is_loaded(loads, equality_keys(scope_of(split), side.1, n)[i]),
    decreases n,
{
    let scope = scope_of(split);
    let before = equality_keys(scope, side.1, (n - 1) as nat);
    let group = side.1[n - 1];
    let own = group_keys(scope, group);
    assert(equality_keys(scope, side.1, n) == before + own);
    if i < before.len() {
        lemma_group_keys_loaded(loads, split, side, loaded, (n - 1) as nat, i);
    } else {
        let d = i - before.len();
        let artifacts = loaded.equality@[n - 1]@;
        assert(has_group(loads, scope, group, artifacts));
        let artifact = artifacts[d];
        assert(has_artifact(
            loads,
            equality_load_key(scope, group.key, group.deletes[d]),
            equality_artifact(artifact),
        ));
        assert(own[d] == equality_load_key(scope, group.key, group.deletes[d]));
    }
}

proof fn lemma_all_loaded_join(loads: Seq<LoadModel>, first: Seq<ArtifactKeyModel>, second: Seq<ArtifactKeyModel>)
    ensures
        all_loaded(loads, first + second) <==> all_loaded(loads, first) && all_loaded(loads, second),
{
    let keys = first + second;
    if all_loaded(loads, first) && all_loaded(loads, second) {
        assert forall|i: int| 0 <= i < keys.len() implies is_loaded(
            loads,
            #[trigger] keys[i],
        ) by {
            if i < first.len() {
                assert(keys[i] == first[i]);
            } else {
                assert(keys[i] == second[i - first.len()]);
            }
        }
    }
    if all_loaded(loads, keys) {
        assert forall|i: int| 0 <= i < first.len() implies is_loaded(
            loads,
            #[trigger] first[i],
        ) by {
            assert(keys[i] == first[i]);
        }
        assert forall|i: int| 0 <= i < second.len() implies is_loaded(
            loads,
            #[trigger] second[i],
        ) by {
            assert(keys[first.len() + i] == second[i]);
        }
    }
}

impl DeleteManager {
    /// Finish the opening of a split: publish what its slots hold, and build its filter. Nothing
    /// happens while an artifact that it takes is not there.
    pub fn finish_split(
        &mut self,
        split: &IcebergSplit,
        table_schema: &Schema,
        mode: &DeleteEvaluationMode,
        open: SplitOpen<'_>,
        applied: &SideClaims,
        previously: &SideClaims,
    ) -> (filter: Option<SplitDeleteFilter>)
        requires
            old(self).wf(),
            is_open_of(open, *split, *table_schema, *mode),
            are_claims_of(old(self).loads@, *applied, *split, open.scope.model(), open.applied),
            are_claims_of(old(self).loads@, *previously, *split, open.scope.model(), open.previously),
        ensures
            final(self).wf(),
            final(self).loads == old(self).loads,
            final(self).loaded_artifacts == old(self).loaded_artifacts,
            ({
                let loads = load_models(old(self).loads@);
                let sides = opening(*split, *table_schema, *mode)->Ok_0;
                match filter {
                    Some(filter) => {
                        &&& all_loaded(loads, opened_keys(*split, sides))
                        &&& verdict_from(loads, *split, sides, shape_of(*mode), filter.verdict)
                        &&& filter.data_file_path@ == split.path@
                        &&& handle_models(filter.hidden_columns@) == hidden_columns_of(
                            *table_schema,
                            group_ids(sides.0.1) + group_ids(sides.1.1),
                        )
                        &&& exists|first: LoadedSide, second: LoadedSide|
                            #[trigger] holds_sides(loads, *split, sides, first, second)
                                && index_models(final(self).equality@) == both_published(
                                index_models(old(self).equality@),
                                open,
                                first,
                                second,
                                *table_schema,
                            )
                    },
                    None => {
                        &&& !all_loaded(loads, opened_keys(*split, sides))
                        &&& *final(self) == *old(self)
                    },
                }
            }),
    {
        let ghost loads = load_models(self.loads@);
        let ghost sides = opening(*split, *table_schema, *mode)->Ok_0;
        let ghost inputs = inputs_of(*split, *mode);
        proof {
            lemma_all_loaded_join(
                loads,
                side_keys(*split, scope_of(*split), sides.0),
                side_keys(*split, scope_of(*split), sides.1),
            );
        }
        let first = match self.loaded_side(split, &open.scope, &open.applied, applied) {
            Some(side) => side,
            None => return None,
        };
        let second = match self.loaded_side(split, &open.scope, &open.previously, previously) {
            Some(side) => side,
            None => return None,
        };
        proof {
            lemma_held_is_loaded(loads, *split, sides.0, first);
            lemma_held_is_loaded(loads, *split, sides.1, second);
            assert forall|g: int, i: int|
                0 <= g < open.applied.equality_groups@.len() && 0 <= i < open.applied.equality_groups@[g].key@.len() implies top_level_place(
                *table_schema,
                #[trigger] open.applied.equality_groups@[g].key@[i],
                0,
            ) is Some by {
                assert(sides.0.1[g] == open.applied.equality_groups@[g].model());
                lemma_gated_keys_are_top_level(*split, inputs.0, *table_schema, g, i);
            }
            assert forall|g: int, i: int|
                0 <= g < open.previously.equality_groups@.len() && 0 <= i < open.previously.equality_groups@[g].key@.len() implies top_level_place(
                *table_schema,
                #[trigger] open.previously.equality_groups@[g].key@[i],
                0,
            ) is Some by {
                assert(sides.1.1[g] == open.previously.equality_groups@[g].model());
                lemma_gated_keys_are_top_level(*split, inputs.1, *table_schema, g, i);
            }
        }
        let ghost one = first;
        let ghost two = second;
        let applied = match self.publish_side(&open.scope, &open.applied, first, table_schema) {
            Ok(resolved) => resolved,
            Err(_) => return None,
        };
        let previously = match self.publish_side(&open.scope, &open.previously, second, table_schema) {
            Ok(resolved) => resolved,
            Err(_) => return None,
        };
        proof {
            assert(resolves(one, applied));
            assert(resolves(two, previously));
            assert(holds_sides(loads, *split, sides, one, two));
        }
        Some(open.filter(split, applied, previously, table_schema))
    }
}

proof fn lemma_one_artifact(loads: Seq<LoadModel>, key: ArtifactKeyModel, left: ArtifactModel, right: ArtifactModel)
    requires
        forall|i: int, j: int|
            0 <= i < j < loads.len() ==> (#[trigger] loads[i]).key != (#[trigger] loads[j]).key,
        has_artifact(loads, key, left),
        has_artifact(loads, key, right),
    ensures
        left == right,
{
    let i = choose|k: int|
        0 <= k < loads.len() && (#[trigger] loads[k]).key == key && loads[k].state
            == LoadStateModel::Loaded(left);
    let j = choose|k: int|
        0 <= k < loads.len() && (#[trigger] loads[k]).key == key && loads[k].state
            == LoadStateModel::Loaded(right);
    if i < j {
        assert(loads[i].key != loads[j].key);
    } else if j < i {
        assert(loads[j].key != loads[i].key);
    }
}

proof fn lemma_same_groups(left: Seq<Vec<LoadedEqualityDelete>>, right: Seq<Vec<LoadedEqualityDelete>>)
    requires
        left.len() == right.len(),
        forall|g: int| 0 <= g < left.len() ==> same_artifacts((#[trigger] left[g])@, right[g]@),
    ensures
        same_artifacts(all_artifacts(left), all_artifacts(right)),
    decreases left.len(),
{
    if left.len() > 0 {
        let n = left.len() - 1;
        assert(same_artifacts(left[n]@, right[n]@));
        assert forall|g: int| 0 <= g < n implies same_artifacts(
            (#[trigger] left.drop_last()[g])@,
            right.drop_last()[g]@,
        ) by {
            assert(same_artifacts(left[g]@, right[g]@));
        }
        lemma_same_groups(left.drop_last(), right.drop_last());
        let a = all_artifacts(left.drop_last());
        let b = all_artifacts(right.drop_last());
        let c = all_artifacts(left);
        let d = all_artifacts(right);
        assert forall|i: int| 0 <= i < c.len() implies (#[trigger] c[i]).path@ == d[i].path@
            && c[i].data_sequence_number == d[i].data_sequence_number && c[i].key_set
            == d[i].key_set by {
            if i < a.len() {
                assert(c[i] == a[i] && d[i] == b[i]);
            } else {
                assert(c[i] == left[n]@[i - a.len()] && d[i] == right[n]@[i - a.len()]);
            }
        }
    }
}

proof fn lemma_sides_hold_the_same(
    loads: Seq<LoadModel>,
    left: IcebergSplit,
    right: IcebergSplit,
    one: (Seq<IcebergDeleteFile>, Seq<GroupModel>),
    two: (Seq<IcebergDeleteFile>, Seq<GroupModel>),
    first: LoadedSide,
    second: LoadedSide,
)
    requires
        forall|i: int, j: int|
            0 <= i < j < loads.len() ==> (#[trigger] loads[i]).key != (#[trigger] loads[j]).key,
        same_data_file(left, right),
        sides_alike(one, two),
        holds_side(loads, left, one, first),
        holds_side(loads, right, two, second),
    ensures
        parts_of(first.positions@) == parts_of(second.positions@),
        same_artifacts(all_artifacts(first.equality@), all_artifacts(second.equality@)),
{
    lemma_alike_length(one.0, two.0);
    assert forall|i: int| 0 <= i < first.positions@.len() implies positions_of(
        *(#[trigger] first.positions@[i]),
    ) == positions_of(*second.positions@[i]) by {
        lemma_alike_at(one.0, two.0, i);
        let a = ArtifactModel::Positions(positions_of(*first.positions@[i]));
        let b = ArtifactModel::Positions(positions_of(*second.positions@[i]));
        assert(has_artifact(loads, position_key(left, one.0[i]), a));
        assert(has_artifact(loads, position_key(right, two.0[i]), b));
        lemma_one_artifact(loads, position_key(left, one.0[i]), a, b);
    }
    assert(parts_of(first.positions@) =~= parts_of(second.positions@));
    let scope = scope_of(left);
    assert forall|g: int| 0 <= g < first.equality@.len() implies same_artifacts(
        (#[trigger] first.equality@[g])@,
        second.equality@[g]@,
    ) by {
        let a = first.equality@[g]@;
        let b = second.equality@[g]@;
        assert(has_group(loads, scope, one.1[g], a));
        assert(has_group(loads, scope, two.1[g], b));
        assert(one.1[g].key == two.1[g].key);
        lemma_alike_length(one.1[g].deletes, two.1[g].deletes);
        assert forall|d: int| 0 <= d < a.len() implies (#[trigger] a[d]).path@ == b[d].path@
            && a[d].data_sequence_number == b[d].data_sequence_number && a[d].key_set
            == b[d].key_set by {
            lemma_alike_at(one.1[g].deletes, two.1[g].deletes, d);
            let key = equality_load_key(scope, one.1[g].key, one.1[g].deletes[d]);
            assert(has_artifact(loads, key, equality_artifact(a[d])));
            assert(key == equality_load_key(scope, two.1[g].key, two.1[g].deletes[d]));
            assert(has_artifact(loads, key, equality_artifact(b[d])));
            lemma_one_artifact(loads, key, equality_artifact(a[d]), equality_artifact(b[d]));
        }
    }
    lemma_same_groups(first.equality@, second.equality@);
}

proof fn lemma_resolved_alike(
    loads: Seq<LoadModel>,
    left: IcebergSplit,
    right: IcebergSplit,
    one: (Seq<IcebergDeleteFile>, Seq<GroupModel>),
    two: (Seq<IcebergDeleteFile>, Seq<GroupModel>),
    first: ResolvedDeletes,
    second: ResolvedDeletes,
)
    requires
        forall|i: int, j: int|
            0 <= i < j < loads.len() ==> (#[trigger] loads[i]).key != (#[trigger] loads[j]).key,
        same_data_file(left, right),
        sides_alike(one, two),
        resolved_from(loads, left, one, first),
        resolved_from(loads, right, two, second),
    ensures
        same_deletes(first, second),
{
    let a = choose|loaded: LoadedSide|
        #[trigger] holds_side(loads, left, one, loaded) && resolves(loaded, first);
    let b = choose|loaded: LoadedSide|
        #[trigger] holds_side(loads, right, two, loaded) && resolves(loaded, second);
    lemma_sides_hold_the_same(loads, left, right, one, two, a, b);
    law_one_load_resolves_alike(a, b, first, second);
}

proof fn lemma_with_delete_members(groups: Seq<GroupModel>, key: Seq<i32>, delete: IcebergDeleteFile, g: int, d: int)
    requires
        0 <= g < with_delete(groups, key, delete).len(),
        0 <= d < with_delete(groups, key, delete)[g].deletes.len(),
    ensures
        ({
            let held = with_delete(groups, key, delete)[g].deletes[d];
            held == delete || exists|h: int, e: int|
                0 <= h < groups.len() && 0 <= e < groups[h].deletes.len()
                    && #[trigger] groups[h].deletes[e] == held
        }),
    decreases groups.len(),
{
    let after = with_delete(groups, key, delete);
    let held = after[g].deletes[d];
    if groups.len() == 0 || key_before(groups.last().key, key) {
        if g < groups.len() {
            assert(groups[g].deletes[d] == held);
        }
    } else if groups.last().key == key {
        if g < groups.len() - 1 {
            assert(groups[g].deletes[d] == held);
        } else if d < groups.last().deletes.len() {
            assert(groups[g].deletes[d] == held);
        }
    } else {
        let rest = groups.drop_last();
        if g < after.len() - 1 {
            assert(after[g] == with_delete(rest, key, delete)[g]);
            lemma_with_delete_members(rest, key, delete, g, d);
            if held != delete {
                let (h, e) = choose|h: int, e: int|
                    0 <= h < rest.len() && 0 <= e < rest[h].deletes.len()
                        && #[trigger] rest[h].deletes[e] == held;
                assert(groups[h].deletes[e] == held);
            }
        } else {
            assert(groups[groups.len() - 1].deletes[d] == held);
        }
    }
}

proof fn lemma_grouped_members(schema: Schema, deletes: Seq<IcebergDeleteFile>, n: nat, g: int, d: int)
    requires
        n <= deletes.len(),
        grouped(schema, deletes, n) is Ok,
        0 <= g < grouped(schema, deletes, n)->Ok_0.len(),
        0 <= d < grouped(schema, deletes, n)->Ok_0[g].deletes.len(),
    ensures
        deletes.contains(grouped(schema, deletes, n)->Ok_0[g].deletes[d]),
    decreases n,
{
    let held = grouped(schema, deletes, n)->Ok_0[g].deletes[d];
    let before = grouped(schema, deletes, (n - 1) as nat)->Ok_0;
    let key = equality_key(schema, deletes[n - 1].equality_field_ids@);
    lemma_with_delete_members(before, key, deletes[n - 1], g, d);
    if held == deletes[n - 1] {
        assert(deletes.contains(deletes[n - 1]));
    } else {
        let (h, e) = choose|h: int, e: int|
            0 <= h < before.len() && 0 <= e < before[h].deletes.len()
                && #[trigger] before[h].deletes[e] == held;
        lemma_grouped_members(schema, deletes, (n - 1) as nat, h, e);
    }
}

/// Every delete that is loaded for a split is one of those it was given, and outranks its data
/// file: one that does not is never read.
pub proof fn law_only_outranking_deletes_are_read(split: IcebergSplit, deletes: Seq<IcebergDeleteFile>, schema: Schema)
    requires
        gated(split, deletes, schema) is Ok,
    ensures
        ({
            let (positions, groups) = gated(split, deletes, schema)->Ok_0;
            &&& forall|i: int|
                0 <= i < positions.len() ==> deletes.contains(#[trigger] positions[i]) && outranks(
                    positions[i],
                    split.data_sequence_number,
                )
            &&& forall|g: int, d: int|
                0 <= g < groups.len() && 0 <= d < groups[g].deletes.len() ==> deletes.contains(
                    #[trigger] groups[g].deletes[d],
                ) && outranks(groups[g].deletes[d], split.data_sequence_number)
        }),
{
    let (positions, groups) = gated(split, deletes, schema)->Ok_0;
    let files = deletes.filter(is_position_file());
    let vectors = deletes.filter(is_deletion_vector());
    let applicable = applicable_position(split.file_record_count, split.data_sequence_number);
    assert forall|i: int| 0 <= i < positions.len() implies deletes.contains(
        #[trigger] positions[i],
    ) && outranks(positions[i], split.data_sequence_number) by {
        (files + vectors).lemma_filter_contains_rev(applicable, positions[i]);
        (files + vectors).lemma_filter_pred(applicable, i);
        let held = positions[i];
        let k = choose|k: int| 0 <= k < (files + vectors).len() && (files + vectors)[k] == held;
        if k < files.len() {
            assert(files.contains(held)) by {
                assert(files[k] == held);
            }
            deletes.lemma_filter_contains_rev(is_position_file(), held);
        } else {
            assert(vectors.contains(held)) by {
                assert(vectors[k - files.len()] == held);
            }
            deletes.lemma_filter_contains_rev(is_deletion_vector(), held);
        }
    }
    let younger = outranking(split.data_sequence_number);
    let candidates = deletes.filter(is_equality_file());
    let equality = candidates.filter(younger);
    assert forall|g: int, d: int| 0 <= g < groups.len() && 0 <= d < groups[g].deletes.len() implies deletes.contains(
        #[trigger] groups[g].deletes[d],
    ) && outranks(groups[g].deletes[d], split.data_sequence_number) by {
        let held = groups[g].deletes[d];
        lemma_grouped_members(schema, equality, equality.len(), g, d);
        let k = choose|k: int| 0 <= k < equality.len() && equality[k] == held;
        candidates.lemma_filter_pred(younger, k);
        candidates.lemma_filter_contains_rev(younger, held);
        deletes.lemma_filter_contains_rev(is_equality_file(), held);
    }
}

/// Whether everything that one side reads was given to the split and outranks its data file.
pub open spec fn only_outranking(
    split: IcebergSplit,
    deletes: Seq<IcebergDeleteFile>,
    side: (Seq<IcebergDeleteFile>, Seq<GroupModel>),
) -> bool {
    &&& forall|i: int|
        0 <= i < side.0.len() ==> deletes.contains(#[trigger] side.0[i]) && outranks(
            side.0[i],
            split.data_sequence_number,
        )
    &&& forall|g: int, d: int|
        0 <= g < side.1.len() && 0 <= d < side.1[g].deletes.len() ==> deletes.contains(
            #[trigger] side.1[g].deletes[d],
        ) && outranks(side.1[g].deletes[d], split.data_sequence_number)
}

/// Once one range of a data file was opened, every other range of it opens and reads nothing: each
/// slot that it claims is there and loaded, and claiming changes none. The filters of the two
/// judge every page alike. Neither of them reads a delete that does not outrank the data file.
pub proof fn law_two_opens_of_one_file_agree(
    left: IcebergSplit,
    right: IcebergSplit,
    schema: Schema,
    mode: DeleteEvaluationMode,
    loads: Seq<LoadModel>,
    first: FilterVerdict,
    second: FilterVerdict,
)
    requires
        same_data_file(left, right),
        forall|i: int, j: int|
            0 <= i < j < loads.len() ==> (#[trigger] loads[i]).key != (#[trigger] loads[j]).key,
        opening(left, schema, mode) is Ok,
        all_loaded(loads, opened_keys(left, opening(left, schema, mode)->Ok_0)),
        verdict_from(loads, left, opening(left, schema, mode)->Ok_0, shape_of(mode), first),
        opening(right, schema, mode) is Ok ==> verdict_from(
            loads,
            right,
            opening(right, schema, mode)->Ok_0,
            shape_of(mode),
            second,
        ),
    ensures
        opening(right, schema, mode) is Ok,
        ({
            let sides = opening(right, schema, mode)->Ok_0;
            let keys = opened_keys(right, sides);
            &&& claimed(loads, keys, keys.len()) == loads
            &&& all_loaded(loads, keys)
            &&& forall|k: int|
                0 <= k < loads.len() && keys.contains((#[trigger] loads[k]).key)
                    ==> loads[k].state is Loaded
            &&& only_outranking(right, inputs_of(right, mode).0, sides.0)
            &&& only_outranking(right, inputs_of(right, mode).1, sides.1)
        }),
        ({
            let sides = opening(left, schema, mode)->Ok_0;
            &&& only_outranking(left, inputs_of(left, mode).0, sides.0)
            &&& only_outranking(left, inputs_of(left, mode).1, sides.1)
        }),
        forall|rows: nat, positions: Seq<Option<u64>>, masks: PageMasks| #[trigger]
            page_fault(first, rows, positions, masks) == page_fault(second, rows, positions, masks),
        forall|position: u64, applied: bool, previously: bool| #[trigger]
            keeps_row(first, position, applied, previously) == keeps_row(
                second,
                position,
                applied,
                previously,
            ),
{
    law_ranges_of_one_file_open_alike(left, right, schema, mode);
    law_a_second_open_reads_nothing(left, right, schema, mode, loads);
    let one = opening(left, schema, mode)->Ok_0;
    let two = opening(right, schema, mode)->Ok_0;
    let keys = opened_keys(right, two);
    assert forall|i: int| 0 <= i < keys.len() implies has_slot(loads, #[trigger] keys[i]) by {
        let k = choose|k: int|
            0 <= k < loads.len() && (#[trigger] loads[k]).key == keys[i] && loads[k].state is Loaded;
        assert(loads[k].key == keys[i]);
    }
    lemma_claims_of_known(loads, keys, keys.len());
    let a = side_keys(right, scope_of(right), two.0);
    let b = side_keys(right, scope_of(right), two.1);
    assert forall|k: int| 0 <= k < loads.len() && keys.contains((#[trigger] loads[k]).key) implies loads[k].state is Loaded by {
        let i = choose|i: int| 0 <= i < keys.len() && keys[i] == loads[k].key;
        if i < a.len() {
            assert(a[i] == loads[k].key);
        } else {
            assert(b[i - a.len()] == loads[k].key);
        }
    }
    law_only_outranking_deletes_are_read(left, inputs_of(left, mode).0, schema);
    law_only_outranking_deletes_are_read(left, inputs_of(left, mode).1, schema);
    law_only_outranking_deletes_are_read(right, inputs_of(right, mode).0, schema);
    law_only_outranking_deletes_are_read(right, inputs_of(right, mode).1, schema);
    match (first, second) {
        (FilterVerdict::ExcludeDeleted(a), FilterVerdict::ExcludeDeleted(b)) => {
            lemma_resolved_alike(loads, left, right, one.0, two.0, a, b);
        },
        (FilterVerdict::EqualityMatchOnly(a), FilterVerdict::EqualityMatchOnly(b)) => {
            lemma_resolved_alike(loads, left, right, one.0, two.0, a, b);
        },
        (
            FilterVerdict::SelectRemovedRows { selected: a, previously_applied: c },
            FilterVerdict::SelectRemovedRows { selected: b, previously_applied: d },
        ) => {
            lemma_resolved_alike(loads, left, right, one.1, two.1, c, d);
            match (a, b) {
                (SelectedRows::NamedBy(e), SelectedRows::NamedBy(f)) => {
                    lemma_resolved_alike(loads, left, right, one.0, two.0, e, f);
                },
                _ => {},
            }
        },
        _ => {},
    }
    assert(same_verdict(first, second));
}

} // verus!
