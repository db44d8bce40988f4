//! What the deletes of a split do to the rows of its data file.

use vstd::prelude::*;

use crate::column_handle::base_handle;
use crate::delete_closure::{
    closure_fault, cost_fault, equality_key, first_delete_fault, gated, grouped, inputs_of, is_deletion_vector,
    is_equality_file, is_position_file, key_before, key_fault, outranking, schema_ordered, shape_of,
    top_level_ids, top_level_place, with_delete, DeleteEvaluationMode, GroupModel, RemovedRowSelection,
    VerdictShape,
};
use crate::delete_filter::LoadedEqualityDelete;
use crate::delete_manager::{claimed, equality_load_key, group_ids, has_slot, hidden_columns_of, merged_index, opening, position_key, ArtifactKeyModel, DeleteManager, IndexModel, LoadModel, LoadState, LoadStateModel, LoadedArtifact};
use crate::error::ConnectorError;
use crate::seqs::total;
use crate::split::{IcebergDeleteFile, IcebergDeleteFileContent, IcebergFileFormat, IcebergSplit};
use crate::types::Schema;

verus! {

// ---------------------------------------------------------------------------
// Which deletes apply
// ---------------------------------------------------------------------------

proof fn lemma_filter_contains_iff(list: Seq<IcebergDeleteFile>, keep: spec_fn(IcebergDeleteFile) -> bool, delete: IcebergDeleteFile)
    ensures
        list.filter(keep).contains(delete) <==> list.contains(delete) && keep(delete),
{
    if list.filter(keep).contains(delete) {
        list.lemma_filter_contains_rev(keep, delete);
        let i = choose|i: int| 0 <= i < list.filter(keep).len() && list.filter(keep)[i] == delete;
        list.lemma_filter_pred(keep, i);
    }
    if list.contains(delete) && keep(delete) {
        let i = choose|i: int| 0 <= i < list.len() && list[i] == delete;
        list.lemma_filter_contains(keep, i);
    }
}

/// The position deletes that apply to a data file are those of its closure that are younger than
/// it and that do not begin behind its last row. A delete that can name one of its rows is never
/// left out, whatever other bounds it has.
pub proof fn law_position_deletes_that_can_match_are_kept(
    split: IcebergSplit,
    deletes: Seq<IcebergDeleteFile>,
    schema: Schema,
    delete: IcebergDeleteFile,
)
    requires
        gated(split, deletes, schema) is Ok,
    ensures
        gated(split, deletes, schema)->Ok_0.0.contains(delete) <==> {
            &&& deletes.contains(delete)
            &&& delete.content == IcebergDeleteFileContent::PositionDeletes
            &&& split.data_sequence_number is None || delete.data_sequence_number
                > split.data_sequence_number->0
            &&& delete.row_position_lower_bound is None || delete.row_position_lower_bound->0
                < split.file_record_count || split.file_record_count <= 0
        },
{
    let files = deletes.filter(is_position_file());
    let vectors = deletes.filter(is_deletion_vector());
    let applicable = crate::delete_closure::applicable_position(
        split.file_record_count,
        split.data_sequence_number,
    );
    lemma_filter_contains_iff(deletes, is_position_file(), delete);
    lemma_filter_contains_iff(deletes, is_deletion_vector(), delete);
    lemma_filter_contains_iff(files + vectors, applicable, delete);
    assert((files + vectors).contains(delete) <==> files.contains(delete) || vectors.contains(delete)) by {
        if files.contains(delete) {
            let k = choose|k: int| 0 <= k < files.len() && files[k] == delete;
            assert((files + vectors)[k] == delete);
        }
        if vectors.contains(delete) {
            let k = choose|k: int| 0 <= k < vectors.len() && vectors[k] == delete;
            assert((files + vectors)[files.len() + k] == delete);
        }
    }
    if deletes.contains(delete) && delete.content == IcebergDeleteFileContent::PositionDeletes {
        assert(deletes.take(deletes.len() as int) =~= deletes);
        lemma_formats(deletes, deletes.len(), delete);
    }
}

proof fn lemma_formats(deletes: Seq<IcebergDeleteFile>, n: nat, delete: IcebergDeleteFile)
    requires
        n <= deletes.len(),
        first_delete_fault(deletes, n) is None,
        deletes.take(n as int).contains(delete),
    ensures
        delete.format == IcebergFileFormat::Parquet || (delete.format == IcebergFileFormat::Puffin
            && delete.content == IcebergDeleteFileContent::PositionDeletes),
    decreases n,
{
    let k = choose|k: int| 0 <= k < n && deletes.take(n as int)[k] == delete;
    if k < n - 1 {
        assert(deletes.take(n - 1)[k] == delete);
        lemma_formats(deletes, (n - 1) as nat, delete);
    }
}

/// A delete with a format that has no meaning for its content, a second deletion vector, and a
/// vector beside position-delete files make a closure corrupt; anything else does not.
pub proof fn law_closures_have_at_most_one_kind_of_positions(deletes: Seq<IcebergDeleteFile>)
    ensures
        closure_fault(deletes) is None <==> {
            &&& forall|i: int|
                0 <= i < deletes.len() ==> ((#[trigger] deletes[i]).format == IcebergFileFormat::Parquet || (
                deletes[i].format == IcebergFileFormat::Puffin && deletes[i].content
                    == IcebergDeleteFileContent::PositionDeletes))
            &&& forall|i: int, j: int|
                0 <= i < deletes.len() && 0 <= j < deletes.len() && i != j && (
                #[trigger] deletes[i]).format == IcebergFileFormat::Puffin ==> (
                #[trigger] deletes[j]).content == IcebergDeleteFileContent::EqualityDeletes
        },
{
    lemma_first_fault(deletes, deletes.len());
    assert(deletes.take(deletes.len() as int) =~= deletes);
    lemma_vector_at(deletes);
    let files = deletes.filter(is_position_file());
    let vectors = deletes.filter(is_deletion_vector());
    if closure_fault(deletes) is None {
        assert forall|i: int, j: int|
            0 <= i < deletes.len() && 0 <= j < deletes.len() && i != j && (#[trigger] deletes[i]).format
                == IcebergFileFormat::Puffin implies (#[trigger] deletes[j]).content
            == IcebergDeleteFileContent::EqualityDeletes by {
            deletes.lemma_filter_contains(is_deletion_vector(), i);
            assert(vectors.len() > 0);
            if deletes[j].content == IcebergDeleteFileContent::PositionDeletes {
                if deletes[j].format == IcebergFileFormat::Parquet {
                    deletes.lemma_filter_contains(is_position_file(), j);
                    assert(files.len() > 0);
                }
            }
        }
    } else {
        if first_delete_fault(deletes, deletes.len()) is None {
            assert(vectors.len() > 0 && files.len() > 0);
            deletes.lemma_filter_contains_rev(is_deletion_vector(), vectors[0]);
            deletes.lemma_filter_pred(is_deletion_vector(), 0);
            deletes.lemma_filter_contains_rev(is_position_file(), files[0]);
            deletes.lemma_filter_pred(is_position_file(), 0);
            let i = choose|i: int| 0 <= i < deletes.len() && deletes[i] == vectors[0];
            let j = choose|j: int| 0 <= j < deletes.len() && deletes[j] == files[0];
            assert(i != j);
            assert(deletes[i].format == IcebergFileFormat::Puffin);
            assert(deletes[j].content == IcebergDeleteFileContent::PositionDeletes);
        }
    }
}

proof fn lemma_vector_at(deletes: Seq<IcebergDeleteFile>)
    ensures
        deletes.filter(is_deletion_vector()).len() == 0 <==> forall|i: int|
            0 <= i < deletes.len() ==> !((#[trigger] deletes[i]).content
                == IcebergDeleteFileContent::PositionDeletes && deletes[i].format
                == IcebergFileFormat::Puffin),
{
    let vectors = deletes.filter(is_deletion_vector());
    if vectors.len() > 0 {
        deletes.lemma_filter_contains_rev(is_deletion_vector(), vectors[0]);
        deletes.lemma_filter_pred(is_deletion_vector(), 0);
        let i = choose|i: int| 0 <= i < deletes.len() && deletes[i] == vectors[0];
        assert(deletes[i].format == IcebergFileFormat::Puffin);
    }
    if exists|i: int|
        0 <= i < deletes.len() && (#[trigger] deletes[i]).content
            == IcebergDeleteFileContent::PositionDeletes && deletes[i].format
            == IcebergFileFormat::Puffin {
        let i = choose|i: int|
            0 <= i < deletes.len() && (#[trigger] deletes[i]).content
                == IcebergDeleteFileContent::PositionDeletes && deletes[i].format
                == IcebergFileFormat::Puffin;
        deletes.lemma_filter_contains(is_deletion_vector(), i);
        assert(vectors.len() > 0);
    }
}

proof fn lemma_first_fault(deletes: Seq<IcebergDeleteFile>, n: nat)
    requires
        n <= deletes.len(),
    ensures
        first_delete_fault(deletes, n) is None <==> {
            &&& forall|i: int|
                0 <= i < n ==> ((#[trigger] deletes[i]).format == IcebergFileFormat::Parquet || (
                deletes[i].format == IcebergFileFormat::Puffin && deletes[i].content
                    == IcebergDeleteFileContent::PositionDeletes))
            &&& forall|i: int, j: int|
                0 <= i < j < n && (#[trigger] deletes[i]).format == IcebergFileFormat::Puffin ==> (
                #[trigger] deletes[j]).format != IcebergFileFormat::Puffin
        },
    decreases n,
{
    if n > 0 {
        lemma_first_fault(deletes, (n - 1) as nat);
        let before = deletes.take(n - 1);
        lemma_vector_at(before);
        let own = deletes[n - 1];
        if first_delete_fault(deletes, (n - 1) as nat) is None {
            if own.format == IcebergFileFormat::Puffin && own.content
                == IcebergDeleteFileContent::PositionDeletes {
                if before.filter(is_deletion_vector()).len() > 0 {
                    let i = choose|i: int|
                        0 <= i < before.len() && (#[trigger] before[i]).content
                            == IcebergDeleteFileContent::PositionDeletes && before[i].format
                            == IcebergFileFormat::Puffin;
                    assert(deletes[i].format == IcebergFileFormat::Puffin);
                    assert(deletes[n - 1].format == IcebergFileFormat::Puffin);
                } else {
                    assert forall|i: int, j: int|
                        0 <= i < j < n && (#[trigger] deletes[i]).format == IcebergFileFormat::Puffin implies (
                    #[trigger] deletes[j]).format != IcebergFileFormat::Puffin by {
                        assert(before[i] == deletes[i]);
                    }
                }
            }
        }
    }
}

/// A closure that is sound applies: with a data sequence number, and with equality deletes whose
/// ids are top-level fields named once.
pub proof fn law_sound_closures_apply(split: IcebergSplit, deletes: Seq<IcebergDeleteFile>, schema: Schema)
    requires
        split.data_sequence_number is Some,
        forall|i: int|
            0 <= i < deletes.len() ==> (#[trigger] deletes[i]).format == IcebergFileFormat::Parquet,
        forall|i: int|
            0 <= i < deletes.len() ==> (#[trigger] deletes[i]).equality_field_ids@.no_duplicates(),
        forall|i: int, j: int|
            0 <= i < deletes.len() && 0 <= j < deletes[i].equality_field_ids@.len()
                ==> top_level_ids(schema).contains(#[trigger] deletes[i].equality_field_ids@[j]),
    ensures
        gated(split, deletes, schema) is Ok,
{
    law_closures_have_at_most_one_kind_of_positions(deletes);
    let candidates = deletes.filter(is_equality_file());
    let equality = candidates.filter(outranking(split.data_sequence_number));
    assert forall|i: int| 0 <= i < equality.len() implies deletes.contains(#[trigger] equality[i]) by {
        candidates.lemma_filter_contains_rev(
            outranking(split.data_sequence_number),
            equality[i],
        );
        deletes.lemma_filter_contains_rev(is_equality_file(), equality[i]);
    }
    lemma_grouped_ok(schema, deletes, equality, equality.len());
}

proof fn lemma_grouped_ok(schema: Schema, deletes: Seq<IcebergDeleteFile>, equality: Seq<IcebergDeleteFile>, n: nat)
    requires
        n <= equality.len(),
        forall|i: int| 0 <= i < equality.len() ==> deletes.contains(#[trigger] equality[i]),
        forall|i: int|
            0 <= i < deletes.len() ==> (#[trigger] deletes[i]).equality_field_ids@.no_duplicates(),
        forall|i: int, j: int|
            0 <= i < deletes.len() && 0 <= j < deletes[i].equality_field_ids@.len()
                ==> top_level_ids(schema).contains(#[trigger] deletes[i].equality_field_ids@[j]),
    ensures
        grouped(schema, equality, n) is Ok,
    decreases n,
{
    if n > 0 {
        lemma_grouped_ok(schema, deletes, equality, (n - 1) as nat);
        let i = choose|i: int| 0 <= i < deletes.len() && deletes[i] == equality[n - 1];
        let ids = deletes[i].equality_field_ids@;
        assert forall|j: int| 0 <= j < ids.len() implies top_level_ids(schema).contains(#[trigger] ids[j]) by {
            assert(top_level_ids(schema).contains(deletes[i].equality_field_ids@[j]));
        }
        law_equality_keys_name_top_level_fields_once(schema, ids);
    }
}

proof fn lemma_place(schema: Schema, id: i32, from: nat)
    ensures
        top_level_place(schema, id, from) is Some <==> exists|k: int|
            from <= k < schema.fields@.len() && (#[trigger] schema.fields@[k]).id == id,
        top_level_place(schema, id, from) is Some ==> from <= top_level_place(schema, id, from)->0
            < schema.fields@.len() && schema.fields@[top_level_place(schema, id, from)->0 as int].id == id,
    decreases schema.fields@.len() - from,
{
    if from < schema.fields@.len() {
        if schema.fields@[from as int].id != id {
            lemma_place(schema, id, from + 1);
            if top_level_place(schema, id, from) is None {
                assert forall|k: int| from <= k < schema.fields@.len() implies (
                #[trigger] schema.fields@[k]).id != id by {}
            }
        } else {
            assert(schema.fields@[from as int].id == id);
        }
    }
}

proof fn lemma_top_level(schema: Schema, id: i32)
    ensures
        top_level_place(schema, id, 0) is Some <==> top_level_ids(schema).contains(id),
{
    lemma_place(schema, id, 0);
    let top = top_level_ids(schema);
    if top_level_place(schema, id, 0) is Some {
        assert(top[top_level_place(schema, id, 0)->0 as int] == id);
    }
    if top.contains(id) {
        let k = choose|k: int| 0 <= k < top.len() && top[k] == id;
        assert(schema.fields@[k].id == id);
    }
}

/// The ids of an equality delete are refused exactly where one comes twice or is no top-level
/// field.
pub proof fn law_equality_keys_name_top_level_fields_once(schema: Schema, ids: Seq<i32>)
    ensures
        key_fault(schema, ids, ids.len()) is None <==> ids.no_duplicates() && forall|j: int|
            0 <= j < ids.len() ==> top_level_ids(schema).contains(#[trigger] ids[j]),
{
    lemma_key_fault(schema, ids, ids.len());
    assert(ids.take(ids.len() as int) =~= ids);
}

proof fn lemma_key_fault(schema: Schema, ids: Seq<i32>, n: nat)
    requires
        n <= ids.len(),
    ensures
        key_fault(schema, ids, n) is None <==> ids.take(n as int).no_duplicates() && forall|j: int|
            0 <= j < n ==> top_level_ids(schema).contains(#[trigger] ids[j]),
    decreases n,
{
    if n > 0 {
        lemma_key_fault(schema, ids, (n - 1) as nat);
        let before = ids.take(n - 1);
        let all = ids.take(n as int);
        let id = ids[n - 1];
        lemma_top_level(schema, id);
        if before.no_duplicates() && !before.contains(id) {
            assert forall|a: int, b: int| 0 <= a < all.len() && 0 <= b < all.len() && a != b implies all[a]
                != all[b] by {
                if a < n - 1 && b < n - 1 {
                    assert(before[a] != before[b]);
                } else if a < n - 1 {
                    assert(before[a] == all[a]);
                } else if b < n - 1 {
                    assert(before[b] == all[b]);
                }
            }
        }
        if all.no_duplicates() {
            assert forall|a: int, b: int|
                0 <= a < before.len() && 0 <= b < before.len() && a != b implies before[a] != before[b] by {
                assert(all[a] != all[b]);
            }
            if before.contains(id) {
                let k = choose|k: int| 0 <= k < before.len() && before[k] == id;
                assert(all[k] == all[n - 1]);
            }
        }
        if !before.no_duplicates() {
            let (a, b) = choose|a: int, b: int|
                0 <= a < before.len() && 0 <= b < before.len() && a != b && before[a] == before[b];
            assert(all[a] == all[b]);
        }
    }
}

/// Whether a schema has a field of one id before a field of another.
pub open spec fn comes_before(schema: Schema, first: i32, second: i32) -> bool {
    exists|i: int, j: int|
        0 <= i < j < schema.fields@.len() && (#[trigger] schema.fields@[i]).id == first && (
        #[trigger] schema.fields@[j]).id == second
}

/// The key of an equality delete holds each of its ids once, in the order of the schema, and no
/// other.
pub proof fn law_equality_keys_hold_every_id(schema: Schema, ids: Seq<i32>)
    ensures
        forall|id: i32|
            #[trigger] equality_key(schema, ids).contains(id) <==> ids.contains(id) && top_level_ids(
                schema,
            ).contains(id),
        equality_key(schema, ids).no_duplicates(),
        forall|a: int, b: int|
            0 <= a < b < equality_key(schema, ids).len() ==> comes_before(
                schema,
                #[trigger] equality_key(schema, ids)[a],
                #[trigger] equality_key(schema, ids)[b],
            ),
{
    let top = top_level_ids(schema);
    lemma_schema_ordered(top, ids, top.len());
    assert(top.take(top.len() as int) =~= top);
    let key = equality_key(schema, ids);
    assert forall|a: int, b: int| 0 <= a < b < key.len() implies comes_before(
        schema,
        #[trigger] key[a],
        #[trigger] key[b],
    ) by {
        let (i, j) = choose|i: int, j: int| 0 <= i < j < top.len() && top[i] == key[a] && top[j] == key[b];
        assert(schema.fields@[i].id == key[a] && schema.fields@[j].id == key[b]);
    }
}

proof fn lemma_schema_ordered(top: Seq<i32>, ids: Seq<i32>, n: nat)
    requires
        n <= top.len(),
    ensures
        ({
            let key = schema_ordered(top, ids, n);
            &&& forall|id: i32|
                #[trigger] key.contains(id) <==> ids.contains(id) && top.take(n as int).contains(id)
            &&& key.no_duplicates()
            &&& forall|a: int| 0 <= a < key.len() ==> exists|i: int| 0 <= i < n && top[i] == #[trigger] key[a]
            &&& forall|a: int, b: int|
                0 <= a < b < key.len() ==> exists|i: int, j: int|
                    0 <= i < j < n && top[i] == #[trigger] key[a] && top[j] == #[trigger] key[b]
        }),
    decreases n,
{
    if n > 0 {
        lemma_schema_ordered(top, ids, (n - 1) as nat);
        let before = schema_ordered(top, ids, (n - 1) as nat);
        let key = schema_ordered(top, ids, n);
        let own = top[n - 1];
        let all = top.take(n as int);
        let shorter = top.take(n - 1);
        assert forall|id: i32| #[trigger] all.contains(id) <==> shorter.contains(id) || id == own by {
            if all.contains(id) {
                let k = choose|k: int| 0 <= k < all.len() && all[k] == id;
                if k < n - 1 {
                    assert(shorter[k] == id);
                }
            }
            if shorter.contains(id) {
                let k = choose|k: int| 0 <= k < shorter.len() && shorter[k] == id;
                assert(all[k] == id);
            }
            assert(all[n - 1] == own);
        }
        if ids.contains(own) && !before.contains(own) {
            assert(key == before.push(own));
            assert forall|id: i32| #[trigger] key.contains(id) <==> ids.contains(id) && all.contains(id) by {
                if key.contains(id) {
                    let k = choose|k: int| 0 <= k < key.len() && key[k] == id;
                    if k < before.len() {
                        assert(before[k] == id);
                        assert(before.contains(id));
                    }
                }
                if ids.contains(id) && all.contains(id) {
                    if id == own {
                        assert(key[before.len() as int] == id);
                    } else {
                        assert(before.contains(id));
                        let k = choose|k: int| 0 <= k < before.len() && before[k] == id;
                        assert(key[k] == id);
                    }
                }
            }
            assert forall|a: int, b: int| 0 <= a < key.len() && 0 <= b < key.len() && a != b implies key[a]
                != key[b] by {
                if a < before.len() && b < before.len() {
                    assert(before[a] != before[b]);
                } else if a < before.len() {
                    assert(before.contains(before[a]));
                } else if b < before.len() {
                    assert(before.contains(before[b]));
                }
            }
            assert forall|a: int| 0 <= a < key.len() implies exists|i: int|
                0 <= i < n && top[i] == #[trigger] key[a] by {
                if a < before.len() {
                    let i = choose|i: int| 0 <= i < n - 1 && top[i] == before[a];
                    assert(top[i] == key[a]);
                } else {
                    assert(top[n - 1] == key[a]);
                }
            }
            assert forall|a: int, b: int| 0 <= a < b < key.len() implies exists|i: int, j: int|
                0 <= i < j < n && top[i] == #[trigger] key[a] && top[j] == #[trigger] key[b] by {
                if b < before.len() {
                    let (i, j) = choose|i: int, j: int|
                        0 <= i < j < n - 1 && top[i] == before[a] && top[j] == before[b];
                    assert(top[i] == key[a] && top[j] == key[b]);
                } else {
                    let i = choose|i: int| 0 <= i < n - 1 && top[i] == before[a];
                    assert(top[i] == key[a] && top[n - 1] == key[b]);
                }
            }
        } else {
            assert(key == before);
            assert forall|id: i32| #[trigger] key.contains(id) <==> ids.contains(id) && all.contains(id) by {
                assert(all.contains(id) <==> shorter.contains(id) || id == own);
            }
            assert forall|a: int| 0 <= a < key.len() implies exists|i: int|
                0 <= i < n && top[i] == #[trigger] key[a] by {
                let i = choose|i: int| 0 <= i < n - 1 && top[i] == before[a];
                assert(top[i] == key[a]);
            }
            assert forall|a: int, b: int| 0 <= a < b < key.len() implies exists|i: int, j: int|
                0 <= i < j < n && top[i] == #[trigger] key[a] && top[j] == #[trigger] key[b] by {
                let (i, j) = choose|i: int, j: int|
                    0 <= i < j < n - 1 && top[i] == before[a] && top[j] == before[b];
                assert(top[i] == key[a] && top[j] == key[b]);
            }
        }
    }
}

// ---------------------------------------------------------------------------
// Groups
// ---------------------------------------------------------------------------

proof fn lemma_key_before_order(a: Seq<i32>, b: Seq<i32>, c: Seq<i32>)
    ensures
        !key_before(a, a),
        key_before(a, b) && key_before(b, c) ==> key_before(a, c),
        key_before(a, b) || key_before(b, a) || a == b,
    decreases a.len(),
{
    if a.len() > 0 {
        lemma_key_before_order(
            a.drop_first(),
            if b.len() > 0 {
                b.drop_first()
            } else {
                b
            },
            if c.len() > 0 {
                c.drop_first()
            } else {
                c
            },
        );
        if b.len() > 0 && a[0] == b[0] && a.drop_first() == b.drop_first() {
            assert(a =~= seq![a[0]] + a.drop_first());
            assert(b =~= seq![b[0]] + b.drop_first());
        }
    } else if b.len() == 0 {
        assert(a =~= b);
    }
}

/// Whether a delete stands in one of a list of groups.
pub open spec fn is_member(groups: Seq<GroupModel>, delete: IcebergDeleteFile) -> bool {
    exists|g: int| 0 <= g < groups.len() && (#[trigger] groups[g]).deletes.contains(delete)
}

spec fn keys_ascend(groups: Seq<GroupModel>) -> bool {
    forall|i: int, j: int|
        0 <= i < j < groups.len() ==> key_before((#[trigger] groups[i]).key, (#[trigger] groups[j]).key)
}

spec fn keys_fit(schema: Schema, groups: Seq<GroupModel>) -> bool {
    forall|g: int, d: int|
        0 <= g < groups.len() && 0 <= d < groups[g].deletes.len() ==> groups[g].key == equality_key(
            schema,
            (#[trigger] groups[g].deletes[d]).equality_field_ids@,
        )
}

proof fn lemma_with_delete(schema: Schema, groups: Seq<GroupModel>, key: Seq<i32>, delete: IcebergDeleteFile)
    requires
        keys_ascend(groups),
        keys_fit(schema, groups),
        key == equality_key(schema, delete.equality_field_ids@),
    ensures
        keys_ascend(with_delete(groups, key, delete)),
        keys_fit(schema, with_delete(groups, key, delete)),
        forall|other: IcebergDeleteFile|
            #[trigger] is_member(with_delete(groups, key, delete), other) <==> is_member(groups, other)
                || other == delete,
        forall|g: int|
            0 <= g < with_delete(groups, key, delete).len() ==> (#[trigger] with_delete(
                groups,
                key,
                delete,
            )[g]).key == key || exists|h: int|
                0 <= h < groups.len() && (#[trigger] groups[h]).key == with_delete(groups, key, delete)[g].key,
    decreases groups.len(),
{
    let after = with_delete(groups, key, delete);
    let n = groups.len() - 1;
    if groups.len() == 0 || key_before(groups.last().key, key) {
        let own = GroupModel { key, deletes: seq![delete] };
        assert(after == groups.push(own));
        assert(own.deletes[0] == delete);
        assert forall|i: int, j: int| 0 <= i < j < after.len() implies key_before(
            (#[trigger] after[i]).key,
            (#[trigger] after[j]).key,
        ) by {
            if j == groups.len() {
                if i < n {
                    assert(key_before(groups[i].key, groups[n].key));
                    lemma_key_before_order(groups[i].key, groups[n].key, key);
                }
            }
        }
        assert forall|g: int, d: int|
            0 <= g < after.len() && 0 <= d < after[g].deletes.len() implies after[g].key == equality_key(
            schema,
            (#[trigger] after[g].deletes[d]).equality_field_ids@,
        ) by {
            if g < groups.len() {
                assert(after[g] == groups[g]);
                assert(groups[g].deletes[d] == after[g].deletes[d]);
            }
        }
        assert forall|other: IcebergDeleteFile| #[trigger] is_member(after, other) <==> is_member(groups, other)
            || other == delete by {
            if is_member(after, other) {
                let g = choose|g: int| 0 <= g < after.len() && (#[trigger] after[g]).deletes.contains(other);
                if g < groups.len() {
                    assert(groups[g].deletes.contains(other));
                }
            }
            if is_member(groups, other) {
                let g = choose|g: int| 0 <= g < groups.len() && (#[trigger] groups[g]).deletes.contains(other);
                assert(after[g].deletes.contains(other));
            }
            if other == delete {
                assert(after[groups.len() as int].deletes.contains(other));
            }
        }
        assert forall|g: int| 0 <= g < after.len() implies (#[trigger] after[g]).key == key || exists|h: int|
            0 <= h < groups.len() && (#[trigger] groups[h]).key == after[g].key by {
            if g < groups.len() {
                assert(groups[g].key == after[g].key);
            }
        }
    } else if groups.last().key == key {
        let own = GroupModel { key, deletes: groups.last().deletes.push(delete) };
        assert(after == groups.drop_last().push(own));
        assert forall|i: int, j: int| 0 <= i < j < after.len() implies key_before(
            (#[trigger] after[i]).key,
            (#[trigger] after[j]).key,
        ) by {
            assert(after[i].key == groups[i].key && after[j].key == groups[j].key);
        }
        assert forall|g: int, d: int|
            0 <= g < after.len() && 0 <= d < after[g].deletes.len() implies after[g].key == equality_key(
            schema,
            (#[trigger] after[g].deletes[d]).equality_field_ids@,
        ) by {
            if g < n || d < groups[n].deletes.len() {
                assert(groups[g].deletes[d] == after[g].deletes[d]);
            }
        }
        assert forall|other: IcebergDeleteFile| #[trigger] is_member(after, other) <==> is_member(groups, other)
            || other == delete by {
            if is_member(after, other) {
                let g = choose|g: int| 0 <= g < after.len() && (#[trigger] after[g]).deletes.contains(other);
                if g < n {
                    assert(groups[g].deletes.contains(other));
                } else if other != delete {
                    let d = choose|d: int| 0 <= d < own.deletes.len() && own.deletes[d] == other;
                    assert(groups[n].deletes[d] == other);
                    assert(groups[n].deletes.contains(other));
                }
            }
            if is_member(groups, other) {
                let g = choose|g: int| 0 <= g < groups.len() && (#[trigger] groups[g]).deletes.contains(other);
                if g == n {
                    let d = choose|d: int| 0 <= d < groups[n].deletes.len() && groups[n].deletes[d] == other;
                    assert(own.deletes[d] == other);
                }
                assert(after[g].deletes.contains(other));
            }
            if other == delete {
                assert(own.deletes[own.deletes.len() - 1] == delete);
                assert(after[n].deletes.contains(other));
            }
        }
        assert forall|g: int| 0 <= g < after.len() implies (#[trigger] after[g]).key == key || exists|h: int|
            0 <= h < groups.len() && (#[trigger] groups[h]).key == after[g].key by {
            assert(groups[g].key == after[g].key);
        }
    } else {
        let rest = groups.drop_last();
        assert(keys_ascend(rest)) by {
            assert forall|i: int, j: int| 0 <= i < j < rest.len() implies key_before(
                (#[trigger] rest[i]).key,
                (#[trigger] rest[j]).key,
            ) by {
                assert(key_before(groups[i].key, groups[j].key));
            }
        }
        assert(keys_fit(schema, rest)) by {
            assert forall|g: int, d: int|
                0 <= g < rest.len() && 0 <= d < rest[g].deletes.len() implies rest[g].key == equality_key(
                schema,
                (#[trigger] rest[g].deletes[d]).equality_field_ids@,
            ) by {
                assert(groups[g].deletes[d] == rest[g].deletes[d]);
            }
        }
        lemma_with_delete(schema, rest, key, delete);
        let inner = with_delete(rest, key, delete);
        let last = groups.last();
        assert(after == inner.push(last));
        lemma_key_before_order(last.key, key, last.key);
        assert forall|i: int, j: int| 0 <= i < j < after.len() implies key_before(
            (#[trigger] after[i]).key,
            (#[trigger] after[j]).key,
        ) by {
            if j < inner.len() {
                assert(key_before(inner[i].key, inner[j].key));
            } else {
                assert(after[i] == inner[i]);
                if inner[i].key != key {
                    let h = choose|h: int| 0 <= h < rest.len() && (#[trigger] rest[h]).key == inner[i].key;
                    assert(key_before(groups[h].key, groups[n].key));
                }
            }
        }
        assert forall|g: int, d: int|
            0 <= g < after.len() && 0 <= d < after[g].deletes.len() implies after[g].key == equality_key(
            schema,
            (#[trigger] after[g].deletes[d]).equality_field_ids@,
        ) by {
            if g < inner.len() {
                assert(inner[g].deletes[d] == after[g].deletes[d]);
            } else {
                assert(groups[n].deletes[d] == after[g].deletes[d]);
            }
        }
        assert forall|other: IcebergDeleteFile| #[trigger] is_member(after, other) <==> is_member(groups, other)
            || other == delete by {
            assert(is_member(inner, other) <==> is_member(rest, other) || other == delete);
            if is_member(after, other) {
                let g = choose|g: int| 0 <= g < after.len() && (#[trigger] after[g]).deletes.contains(other);
                if g < inner.len() {
                    assert(inner[g].deletes.contains(other));
                    if other != delete {
                        let h = choose|h: int| 0 <= h < rest.len() && (#[trigger] rest[h]).deletes.contains(other);
                        assert(groups[h].deletes.contains(other));
                    }
                } else {
                    assert(groups[n].deletes.contains(other));
                }
            }
            if is_member(groups, other) {
                let g = choose|g: int| 0 <= g < groups.len() && (#[trigger] groups[g]).deletes.contains(other);
                if g < n {
                    assert(rest[g].deletes.contains(other));
                } else {
                    assert(after[inner.len() as int].deletes.contains(other));
                }
            }
            if is_member(inner, other) {
                let g = choose|g: int| 0 <= g < inner.len() && (#[trigger] inner[g]).deletes.contains(other);
                assert(after[g].deletes.contains(other));
            }
        }
        assert forall|g: int| 0 <= g < after.len() implies (#[trigger] after[g]).key == key || exists|h: int|
            0 <= h < groups.len() && (#[trigger] groups[h]).key == after[g].key by {
            if g < inner.len() {
                assert(after[g] == inner[g]);
                if inner[g].key != key {
                    let h = choose|h: int| 0 <= h < rest.len() && (#[trigger] rest[h]).key == inner[g].key;
                    assert(groups[h].key == after[g].key);
                }
            } else {
                assert(groups[n].key == after[g].key);
            }
        }
    }
}

proof fn lemma_grouped(schema: Schema, deletes: Seq<IcebergDeleteFile>, n: nat)
    requires
        n <= deletes.len(),
        grouped(schema, deletes, n) is Ok,
    ensures
        keys_ascend(grouped(schema, deletes, n)->Ok_0),
        keys_fit(schema, grouped(schema, deletes, n)->Ok_0),
        forall|other: IcebergDeleteFile|
            #[trigger] is_member(grouped(schema, deletes, n)->Ok_0, other) <==> deletes.take(
                n as int,
            ).contains(other),
        forall|i: int|
            0 <= i < n ==> key_fault(
                schema,
                (#[trigger] deletes[i]).equality_field_ids@,
                deletes[i].equality_field_ids@.len(),
            ) is None,
    decreases n,
{
    if n > 0 {
        lemma_grouped(schema, deletes, (n - 1) as nat);
        let before = grouped(schema, deletes, (n - 1) as nat)->Ok_0;
        let own = deletes[n - 1];
        lemma_with_delete(schema, before, equality_key(schema, own.equality_field_ids@), own);
        let all = deletes.take(n as int);
        let shorter = deletes.take(n - 1);
        assert forall|other: IcebergDeleteFile|
            #[trigger] is_member(grouped(schema, deletes, n)->Ok_0, other) <==> all.contains(other) by {
            if all.contains(other) {
                let k = choose|k: int| 0 <= k < all.len() && all[k] == other;
                if k < n - 1 {
                    assert(shorter[k] == other);
                    assert(is_member(before, other));
                }
            }
            if is_member(before, other) {
                let k = choose|k: int| 0 <= k < shorter.len() && shorter[k] == other;
                assert(all[k] == other);
            }
            assert(all[n - 1] == own);
        }
    } else {
        assert(grouped(schema, deletes, 0)->Ok_0 == Seq::<GroupModel>::empty());
        assert(deletes.take(0) =~= Seq::<IcebergDeleteFile>::empty());
    }
}

/// The equality deletes that apply to a data file are those of its closure that are younger than
/// it. Each stands in a group whose key names exactly the fields that the delete names, and no two
/// groups have one key.
pub proof fn law_equality_deletes_are_grouped_by_their_fields(
    split: IcebergSplit,
    deletes: Seq<IcebergDeleteFile>,
    schema: Schema,
)
    requires
        gated(split, deletes, schema) is Ok,
    ensures
        ({
            let groups = gated(split, deletes, schema)->Ok_0.1;
            &&& forall|delete: IcebergDeleteFile|
                #[trigger] is_member(groups, delete) <==> deletes.contains(delete) && delete.content
                    == IcebergDeleteFileContent::EqualityDeletes && split.data_sequence_number is Some
                    && delete.data_sequence_number > split.data_sequence_number->0
            &&& forall|g: int, d: int, id: i32|
                0 <= g < groups.len() && 0 <= d < groups[g].deletes.len() ==> (
                #[trigger] groups[g].key.contains(id) <==> (
                #[trigger] groups[g].deletes[d]).equality_field_ids@.contains(id))
            &&& forall|g: int, h: int|
                0 <= g < h < groups.len() ==> (#[trigger] groups[g]).key != (#[trigger] groups[h]).key
        }),
{
    let groups = gated(split, deletes, schema)->Ok_0.1;
    let candidates = deletes.filter(is_equality_file());
    let younger = outranking(split.data_sequence_number);
    let equality = candidates.filter(younger);
    lemma_grouped(schema, equality, equality.len());
    assert(equality.take(equality.len() as int) =~= equality);
    assert forall|delete: IcebergDeleteFile|
        #[trigger] is_member(groups, delete) <==> deletes.contains(delete) && delete.content
            == IcebergDeleteFileContent::EqualityDeletes && split.data_sequence_number is Some
            && delete.data_sequence_number > split.data_sequence_number->0 by {
        assert(is_member(groups, delete) <==> equality.contains(delete));
        lemma_filter_contains_iff(candidates, younger, delete);
        lemma_filter_contains_iff(deletes, is_equality_file(), delete);
        if candidates.contains(delete) {
            assert(candidates.len() > 0);
        }
        if deletes.contains(delete) && delete.content == IcebergDeleteFileContent::EqualityDeletes {
            assert(deletes.take(deletes.len() as int) =~= deletes);
            lemma_formats(deletes, deletes.len(), delete);
        }
    }
    assert forall|g: int, d: int, id: i32|
        0 <= g < groups.len() && 0 <= d < groups[g].deletes.len() implies (
    #[trigger] groups[g].key.contains(id) <==> (#[trigger] groups[g].deletes[d]).equality_field_ids@.contains(
        id,
    )) by {
        let delete = groups[g].deletes[d];
        let ids = delete.equality_field_ids@;
        law_equality_keys_hold_every_id(schema, ids);
        assert(equality_key(schema, ids).contains(id) <==> ids.contains(id) && top_level_ids(schema).contains(
            id,
        ));
        assert(groups[g].deletes.contains(delete));
        assert(is_member(groups, delete));
        let k = choose|k: int| 0 <= k < equality.len() && equality[k] == delete;
        law_equality_keys_name_top_level_fields_once(schema, ids);
        assert(key_fault(
            schema,
            equality[k].equality_field_ids@,
            equality[k].equality_field_ids@.len(),
        ) is None);
        if ids.contains(id) {
            let j = choose|j: int| 0 <= j < ids.len() && ids[j] == id;
            assert(top_level_ids(schema).contains(ids[j]));
        }
    }
    assert forall|g: int, h: int| 0 <= g < h < groups.len() implies (#[trigger] groups[g]).key != (
    #[trigger] groups[h]).key by {
        lemma_key_before_order(groups[g].key, groups[h].key, groups[g].key);
    }
}

// ---------------------------------------------------------------------------
// Cost, modes and hidden columns
// ---------------------------------------------------------------------------

/// Opening is refused where a delete has no format that can be opened, where there are more than
/// 1024 of them, or where they take more than 512 MiB together.
pub proof fn law_the_cost_of_deletes_is_bounded(deletes: Seq<IcebergDeleteFile>)
    ensures
        cost_fault(deletes) is None <==> {
            &&& forall|i: int|
                0 <= i < deletes.len() ==> ((#[trigger] deletes[i]).format == IcebergFileFormat::Parquet
                    || deletes[i].format == IcebergFileFormat::Puffin)
            &&& deletes.len() <= 1024
            &&& total(
                deletes.map_values(
                    |delete: IcebergDeleteFile|
                        if delete.file_size_in_bytes > 0 {
                            delete.file_size_in_bytes as int
                        } else {
                            0
                        },
                ),
            ) <= 536870912
        },
{
    assert(deletes.map_values(
        |delete: IcebergDeleteFile|
            if delete.file_size_in_bytes > 0 {
                delete.file_size_in_bytes as int
            } else {
                0
            },
    ) =~= crate::delete_closure::delete_sizes(deletes));
}

/// A sum is what its parts add up to.
pub proof fn law_sums_add_up(values: Seq<int>, value: int)
    ensures
        total(Seq::<int>::empty()) == 0,
        total(values.push(value)) == total(values) + value,
{
    crate::seqs::lemma_total_push(values, value);
}

/// An ordinary read and an equality match judge by the deletes of their split. A read of removed
/// rows judges by the deletes that its mode names, and its split has none.
pub proof fn law_modes_decide_which_deletes_judge(split: IcebergSplit, schema: Schema, newly: Vec<IcebergDeleteFile>, before: Vec<IcebergDeleteFile>)
    ensures
        inputs_of(split, DeleteEvaluationMode::ExcludeDeleted) == (split.deletes@, Seq::<IcebergDeleteFile>::empty()),
        inputs_of(split, DeleteEvaluationMode::EqualityMatchOnly) == (
            split.deletes@,
            Seq::<IcebergDeleteFile>::empty(),
        ),
        inputs_of(
            split,
            DeleteEvaluationMode::SelectRemovedRows {
                selected: RemovedRowSelection::NamedBy(newly),
                previously_applied: before,
            },
        ) == (newly@, before@),
        inputs_of(
            split,
            DeleteEvaluationMode::SelectRemovedRows {
                selected: RemovedRowSelection::WholeFile,
                previously_applied: before,
            },
        ) == (Seq::<IcebergDeleteFile>::empty(), before@),
        split.deletes@.len() > 0 ==> opening(
            split,
            schema,
            DeleteEvaluationMode::SelectRemovedRows {
                selected: RemovedRowSelection::WholeFile,
                previously_applied: before,
            },
        ) is Err,
        shape_of(DeleteEvaluationMode::ExcludeDeleted) == VerdictShape::ExcludeDeleted,
        shape_of(DeleteEvaluationMode::EqualityMatchOnly) == VerdictShape::EqualityMatchOnly,
        shape_of(
            DeleteEvaluationMode::SelectRemovedRows {
                selected: RemovedRowSelection::NamedBy(newly),
                previously_applied: before,
            },
        ) == VerdictShape::SelectNamedRows,
        shape_of(
            DeleteEvaluationMode::SelectRemovedRows {
                selected: RemovedRowSelection::WholeFile,
                previously_applied: before,
            },
        ) == VerdictShape::SelectWholeFile,
{
}

/// An opened split has what applies of both of its delete sets.
pub proof fn law_opening_gates_both_sides(split: IcebergSplit, schema: Schema, mode: DeleteEvaluationMode)
    requires
        opening(split, schema, mode) is Ok,
    ensures
        gated(split, inputs_of(split, mode).0, schema) == Ok::<
            (Seq<IcebergDeleteFile>, Seq<GroupModel>),
            ConnectorError,
        >(opening(split, schema, mode)->Ok_0.0),
        gated(split, inputs_of(split, mode).1, schema) == Ok::<
            (Seq<IcebergDeleteFile>, Seq<GroupModel>),
            ConnectorError,
        >(opening(split, schema, mode)->Ok_0.1),
{
}

proof fn lemma_group_ids(groups: Seq<GroupModel>, id: i32)
    ensures
        group_ids(groups).contains(id) <==> exists|g: int|
            0 <= g < groups.len() && (#[trigger] groups[g]).key.contains(id),
    decreases groups.len(),
{
    if groups.len() > 0 {
        let n = groups.len() - 1;
        let rest = groups.drop_last();
        lemma_group_ids(rest, id);
        let before = group_ids(rest);
        let own = groups.last().key;
        let all = group_ids(groups);
        assert(all == before + own);
        if all.contains(id) {
            let k = choose|k: int| 0 <= k < all.len() && all[k] == id;
            if k < before.len() {
                assert(before[k] == id);
                assert(before.contains(id));
                let g = choose|g: int| 0 <= g < rest.len() && (#[trigger] rest[g]).key.contains(id);
                assert(groups[g].key.contains(id));
            } else {
                assert(own[k - before.len()] == id);
                assert(groups[n].key.contains(id));
            }
        }
        if exists|g: int| 0 <= g < groups.len() && (#[trigger] groups[g]).key.contains(id) {
            let g = choose|g: int| 0 <= g < groups.len() && (#[trigger] groups[g]).key.contains(id);
            if g < n {
                assert(rest[g].key.contains(id));
                let k = choose|k: int| 0 <= k < before.len() && before[k] == id;
                assert(all[k] == id);
            } else {
                let k = choose|k: int| 0 <= k < own.len() && own[k] == id;
                assert(all[before.len() + k] == id);
            }
        }
    }
}

/// The hidden columns of a verdict are the top-level columns that some equality key names, each
/// once, and no others.
pub proof fn law_hidden_columns_are_those_of_the_keys(schema: Schema, groups: Seq<GroupModel>, id: i32)
    ensures
        ({
            let columns = hidden_columns_of(schema, group_ids(groups));
            (exists|c: int| 0 <= c < columns.len() && (#[trigger] columns[c]).base_field_id == id) <==> (
            top_level_ids(schema).contains(id) && exists|g: int|
                0 <= g < groups.len() && (#[trigger] groups[g]).key.contains(id))
        }),
        forall|a: int, b: int|
            0 <= a < b < hidden_columns_of(schema, group_ids(groups)).len() ==> (
            #[trigger] hidden_columns_of(schema, group_ids(groups))[a]).base_field_id != (
            #[trigger] hidden_columns_of(schema, group_ids(groups))[b]).base_field_id,
        forall|c: int|
            0 <= c < hidden_columns_of(schema, group_ids(groups)).len() ==> exists|k: int|
                0 <= k < schema.fields@.len() && #[trigger] hidden_columns_of(schema, group_ids(groups))[c]
                    == base_handle((#[trigger] schema.fields@[k]).model()),
{
    let ids = group_ids(groups);
    let key = equality_key(schema, ids);
    let columns = hidden_columns_of(schema, ids);
    lemma_group_ids(groups, id);
    law_equality_keys_hold_every_id(schema, ids);
    assert forall|c: int| 0 <= c < columns.len() implies (#[trigger] columns[c]).base_field_id == key[c]
        && exists|k: int|
        0 <= k < schema.fields@.len() && columns[c] == base_handle((#[trigger] schema.fields@[k]).model()) by {
        assert(key.contains(key[c]));
        lemma_top_level(schema, key[c]);
        lemma_place(schema, key[c], 0);
        let k = top_level_place(schema, key[c], 0)->0 as int;
        assert(columns[c] == base_handle(schema.fields@[k].model()));
    }
    assert(key.contains(id) <==> ids.contains(id) && top_level_ids(schema).contains(id));
    if key.contains(id) {
        let c = choose|c: int| 0 <= c < key.len() && key[c] == id;
        assert(columns[c].base_field_id == id);
    }
    if exists|c: int| 0 <= c < columns.len() && (#[trigger] columns[c]).base_field_id == id {
        let c = choose|c: int| 0 <= c < columns.len() && (#[trigger] columns[c]).base_field_id == id;
        assert(key[c] == id);
        assert(key.contains(id));
    }
    assert forall|a: int, b: int| 0 <= a < b < columns.len() implies (#[trigger] columns[a]).base_field_id != (
    #[trigger] columns[b]).base_field_id by {
        assert(key[a] != key[b]);
    }
}

// ---------------------------------------------------------------------------
// Shared loads
// ---------------------------------------------------------------------------

/// Two position deletes share a load exactly where they are the same range of one file for one data
/// file, and two equality deletes where they are one file under one scope and key. A position
/// delete never shares with an equality delete.
pub proof fn law_loads_are_shared_by_what_was_loaded(
    left: IcebergSplit,
    right: IcebergSplit,
    one: IcebergDeleteFile,
    two: IcebergDeleteFile,
    scope: (i32, Seq<char>),
    other: (i32, Seq<char>),
    ids: Seq<i32>,
    others: Seq<i32>,
)
    ensures
        position_key(left, one) == position_key(right, two) <==> one.path@ == two.path@
            && one.content_offset == two.content_offset && one.content_size_in_bytes
            == two.content_size_in_bytes && left.path@ == right.path@,
        equality_load_key(scope, ids, one) == equality_load_key(other, others, two) <==> scope == other
            && ids == others && one.path@ == two.path@,
        position_key(left, one) != equality_load_key(scope, ids, two),
{
}

/// Claiming adds a slot only for a key of the list that had none, only one for each, and nobody has
/// loaded it.
pub proof fn law_new_slots_are_pending(loads: Seq<LoadModel>, keys: Seq<ArtifactKeyModel>, n: nat)
    requires
        n <= keys.len(),
        forall|i: int, j: int|
            0 <= i < j < loads.len() ==> (#[trigger] loads[i]).key != (#[trigger] loads[j]).key,
    ensures
        ({
            let after = claimed(loads, keys, n);
            &&& after.len() >= loads.len()
            &&& forall|k: int| 0 <= k < loads.len() ==> #[trigger] after[k] == loads[k]
            &&& forall|k: int|
                loads.len() <= k < after.len() ==> (#[trigger] after[k]).state == LoadStateModel::Pending
                    && keys.contains(after[k].key)
            &&& forall|i: int, j: int|
                0 <= i < j < after.len() ==> (#[trigger] after[i]).key != (#[trigger] after[j]).key
            &&& forall|i: int|
                0 <= i < n ==> exists|k: int| 0 <= k < after.len() && (#[trigger] after[k]).key == #[trigger] keys[i]
        }),
    decreases n,
{
    if n > 0 {
        law_new_slots_are_pending(loads, keys, (n - 1) as nat);
        let before = claimed(loads, keys, (n - 1) as nat);
        let after = claimed(loads, keys, n);
        let key = keys[n - 1];
        assert(keys.contains(key));
        if !has_slot(before, key) {
            assert forall|i: int, j: int| 0 <= i < j < after.len() implies (#[trigger] after[i]).key != (
            #[trigger] after[j]).key by {
                if j == before.len() {
                    assert(before[i] == after[i]);
                }
            }
            assert(after[before.len() as int].key == key);
        }
        assert forall|i: int| 0 <= i < n implies exists|k: int|
            0 <= k < after.len() && (#[trigger] after[k]).key == #[trigger] keys[i] by {
            if i < n - 1 {
                let k = choose|k: int| 0 <= k < before.len() && (#[trigger] before[k]).key == keys[i];
                assert(after[k].key == keys[i]);
            } else if has_slot(before, key) {
                let k = choose|k: int| 0 <= k < before.len() && (#[trigger] before[k]).key == key;
                assert(after[k].key == keys[i]);
            } else {
                assert(after[before.len() as int].key == keys[i]);
            }
        }
    }
}

/// A load that ends well is there, one whose artifact is at fault has failed for good, and one that
/// was stopped is open again.
pub proof fn law_loads_end_as_they_were_reported(artifact: LoadedArtifact, error: ConnectorError, stop: ConnectorError)
    ensures
        DeleteManager::settled(LoadState::Pending, Ok(artifact), None) == LoadState::Loaded(artifact),
        DeleteManager::settled(LoadState::Pending, Err(error), None) == LoadState::Failed(error),
        DeleteManager::settled(LoadState::Pending, Err(error), Some(stop)) == LoadState::Pending,
        DeleteManager::settled(LoadState::Failed(error), Ok(artifact), None) == LoadState::Failed(error),
{
}

proof fn lemma_merged(index: IndexModel, artifacts: Seq<LoadedEqualityDelete>, n: nat)
    requires
        n <= artifacts.len(),
    ensures
        ({
            let merged = merged_index(index, index.artifacts, artifacts, n);
            &&& forall|path: Seq<char>|
                #[trigger] merged.artifacts.contains_key(path) <==> index.artifacts.contains_key(path)
                    || exists|i: int| 0 <= i < n && (#[trigger] artifacts[i]).path@ == path
            &&& forall|path: Seq<char>|
                #[trigger] merged.artifacts.contains_key(path) && !index.artifacts.contains_key(path)
                    ==> exists|i: int|
                    0 <= i < n && (#[trigger] artifacts[i]).path@ == path && merged.artifacts[path] == (
                        artifacts[i].data_sequence_number,
                        artifacts[i].key_set,
                    )
            &&& forall|i: int|
                0 <= i < n && !index.artifacts.contains_key((#[trigger] artifacts[i]).path@)
                    ==> merged.highest is Some && merged.highest->0 >= artifacts[i].data_sequence_number
            &&& merged.highest == index.highest || exists|i: int|
                0 <= i < n && merged.highest == Some((#[trigger] artifacts[i]).data_sequence_number)
            &&& index.highest is Some ==> merged.highest is Some && merged.highest->0 >= index.highest->0
        }),
    decreases n,
{
    if n > 0 {
        lemma_merged(index, artifacts, (n - 1) as nat);
        let before = merged_index(index, index.artifacts, artifacts, (n - 1) as nat);
        let merged = merged_index(index, index.artifacts, artifacts, n);
        let own = artifacts[n - 1];
        assert forall|path: Seq<char>|
            #[trigger] merged.artifacts.contains_key(path) <==> index.artifacts.contains_key(path)
                || exists|i: int| 0 <= i < n && (#[trigger] artifacts[i]).path@ == path by {
            assert(before.artifacts.contains_key(path) <==> index.artifacts.contains_key(path)
                || exists|i: int| 0 <= i < n - 1 && (#[trigger] artifacts[i]).path@ == path);
            if own.path@ == path {
                assert(artifacts[n - 1].path@ == path);
            }
        }
        assert forall|path: Seq<char>|
            #[trigger] merged.artifacts.contains_key(path) && !index.artifacts.contains_key(path) implies exists|i: int|
            0 <= i < n && (#[trigger] artifacts[i]).path@ == path && merged.artifacts[path] == (
                artifacts[i].data_sequence_number,
                artifacts[i].key_set,
            ) by {
            if own.path@ == path {
                assert(artifacts[n - 1].path@ == path);
            } else {
                assert(before.artifacts.contains_key(path));
                let i = choose|i: int|
                    0 <= i < n - 1 && (#[trigger] artifacts[i]).path@ == path && before.artifacts[path] == (
                        artifacts[i].data_sequence_number,
                        artifacts[i].key_set,
                    );
                assert(artifacts[i].path@ == path);
            }
        }
        if merged.highest != index.highest {
            if merged.highest == before.highest {
                let i = choose|i: int|
                    0 <= i < n - 1 && before.highest == Some((#[trigger] artifacts[i]).data_sequence_number);
                assert(merged.highest == Some(artifacts[i].data_sequence_number));
            } else {
                assert(merged.highest == Some(artifacts[n - 1].data_sequence_number));
            }
        }
    }
}

/// Publishing artifacts makes each of them known under its path, with its own sequence number and
/// keys unless its path was known before; it makes nothing else known. The highest sequence number
/// is one that was loaded, and no artifact that came in has a higher one.
pub proof fn law_published_artifacts_are_known(index: IndexModel, artifacts: Seq<LoadedEqualityDelete>)
    ensures
        ({
            let merged = merged_index(index, index.artifacts, artifacts, artifacts.len());
            &&& forall|path: Seq<char>|
                #[trigger] merged.artifacts.contains_key(path) <==> index.artifacts.contains_key(path)
                    || exists|i: int| 0 <= i < artifacts.len() && (#[trigger] artifacts[i]).path@ == path
            &&& forall|path: Seq<char>|
                #[trigger] merged.artifacts.contains_key(path) && !index.artifacts.contains_key(path)
                    ==> exists|i: int|
                    0 <= i < artifacts.len() && (#[trigger] artifacts[i]).path@ == path
                        && merged.artifacts[path] == (
                        artifacts[i].data_sequence_number,
                        artifacts[i].key_set,
                    )
            &&& forall|i: int|
                0 <= i < artifacts.len() && !index.artifacts.contains_key((#[trigger] artifacts[i]).path@)
                    ==> merged.highest is Some && merged.highest->0 >= artifacts[i].data_sequence_number
            &&& merged.highest == index.highest || exists|i: int|
                0 <= i < artifacts.len() && merged.highest == Some(
                    (#[trigger] artifacts[i]).data_sequence_number,
                )
            &&& index.highest is Some ==> merged.highest is Some && merged.highest->0 >= index.highest->0
        }),
{
    lemma_merged(index, artifacts, artifacts.len());
}

} // verus!
