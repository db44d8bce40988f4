//! What the splits of a scan keep of the files that they are cut from.

use vstd::prelude::*;

use crate::error::{ConnectorError, CorruptData, UnsupportedFeature};
use crate::partition::PartitionField;
use crate::split::{
    decryption_model, DeleteFileModel, IcebergDeleteFileContent, IcebergFileFormat, SplitModel,
};
use crate::split_source::{cut_ranges, delete_descriptor_of, delete_descriptors, equality_ids_fault, facts_of, file_ranges, file_splits, file_stream, identity_sources, in_schema_order, law_ranges_tile_the_file, legal_offsets, lemma_offsets_ascend, merged_ranges, offset_ranges, partition_only, planned_ranges, spec_facts, target_size, tiles, IcebergDeleteFileFacts, IcebergPlannedDataFile, IcebergReadDeleteFormat, IcebergReadDeleteKind, PruneVerdict, SpecFacts, SplitPolicy};
use crate::text::{lemma_natural_value_of_text, natural_text};

verus! {

// ---------------------------------------------------------------------------
// Deletes of a split
// ---------------------------------------------------------------------------

proof fn lemma_facts_of(facts: Seq<(String, IcebergDeleteFileFacts)>, path: Seq<char>)
    ensures
        match facts_of(facts, path) {
            Some(held) => exists|k: int|
                0 <= k < facts.len() && (#[trigger] facts[k]).0@ == path && facts[k].1 == held
                    && forall|later: int| k < later < facts.len() ==> (#[trigger] facts[later]).0@ != path,
            None => forall|k: int| 0 <= k < facts.len() ==> (#[trigger] facts[k]).0@ != path,
        },
    decreases facts.len(),
{
    if facts.len() > 0 {
        let n = facts.len() - 1;
        if facts.last().0@ == path {
            assert(facts[n].0@ == path);
        } else {
            let shorter = facts.drop_last();
            lemma_facts_of(shorter, path);
            match facts_of(shorter, path) {
                Some(held) => {
                    let k = choose|k: int|
                        0 <= k < shorter.len() && (#[trigger] shorter[k]).0@ == path && shorter[k].1
                            == held && forall|later: int|
                            k < later < shorter.len() ==> (#[trigger] shorter[later]).0@ != path;
                    assert(facts[k].0@ == path && facts[k].1 == held);
                    assert forall|later: int| k < later < facts.len() implies (
                    #[trigger] facts[later]).0@ != path by {
                        if later < n {
                            assert(shorter[later] == facts[later]);
                        }
                    }
                },
                None => {
                    assert forall|k: int| 0 <= k < facts.len() implies (#[trigger] facts[k]).0@
                        != path by {
                        if k < n {
                            assert(shorter[k] == facts[k]);
                        }
                    }
                },
            }
        }
    }
}

/// The ids of an equality delete are refused exactly where one comes twice or is no field of the
/// schema.
pub proof fn law_equality_ids_are_fields_named_once(order: Seq<i32>, ids: Seq<i32>)
    ensures
        equality_ids_fault(order, ids, ids.len()) is None <==> (ids.no_duplicates() && forall|i: int|
            0 <= i < ids.len() ==> order.contains(#[trigger] ids[i])),
        equality_ids_fault(order, ids, ids.len()) is Some ==> {
            let fault = equality_ids_fault(order, ids, ids.len())->0;
            ||| fault == ConnectorError::Corrupt(CorruptData::DuplicateEqualityFieldId)
                && !ids.no_duplicates()
            ||| fault == ConnectorError::Corrupt(CorruptData::UnknownEqualityFieldId) && exists|i: int|
                0 <= i < ids.len() && !order.contains(#[trigger] ids[i])
        },
{
    lemma_equality_ids(order, ids, ids.len());
    assert(ids.take(ids.len() as int) =~= ids);
}

proof fn lemma_equality_ids(order: Seq<i32>, ids: Seq<i32>, n: nat)
    requires
        n <= ids.len(),
    ensures
        equality_ids_fault(order, ids, n) is None <==> (ids.take(n as int).no_duplicates()
            && forall|i: int| 0 <= i < n ==> order.contains(#[trigger] ids[i])),
        equality_ids_fault(order, ids, n) is Some ==> {
            let fault = equality_ids_fault(order, ids, n)->0;
            ||| fault == ConnectorError::Corrupt(CorruptData::DuplicateEqualityFieldId)
                && !ids.take(n as int).no_duplicates()
            ||| fault == ConnectorError::Corrupt(CorruptData::UnknownEqualityFieldId) && exists|i: int|
                0 <= i < n && !order.contains(#[trigger] ids[i])
        },
    decreases n,
{
    if n > 0 {
        lemma_equality_ids(order, ids, (n - 1) as nat);
        let before = ids.take(n - 1);
        let all = ids.take(n as int);
        let id = ids[n - 1];
        if before.no_duplicates() && !before.contains(id) {
            assert forall|a: int, b: int| 0 <= a < all.len() && 0 <= b < all.len() && a != b implies all[a]
                != all[b] by {
                if a < n - 1 && b < n - 1 {
                    assert(before[a] != before[b]);
                } else if a < n - 1 {
                    assert(before[a] == all[a]);
                } else if b < n - 1 {
                    assert(before[b] == all[b]);
                }
            }
        }
        if all.no_duplicates() {
            assert forall|a: int, b: int|
                0 <= a < before.len() && 0 <= b < before.len() && a != b implies before[a] != before[b] by {
                assert(all[a] != all[b]);
            }
            if before.contains(id) {
                let k = choose|k: int| 0 <= k < before.len() && before[k] == id;
                assert(all[k] == all[n - 1]);
            }
        }
        if before.contains(id) {
            let k = choose|k: int| 0 <= k < before.len() && before[k] == id;
            assert(all[k] == id && all[n - 1] == id);
        }
        if !before.no_duplicates() {
            let (a, b) = choose|a: int, b: int|
                0 <= a < before.len() && 0 <= b < before.len() && a != b && before[a] == before[b];
            assert(all[a] == all[b]);
        }
    }
}

/// Ids in schema order are exactly those that are named and known, and they come in the order of
/// the schema.
pub proof fn law_schema_order_keeps_every_named_id(order: Seq<i32>, ids: Seq<i32>)
    ensures
        forall|id: i32|
            #[trigger] in_schema_order(order, ids).contains(id) <==> order.contains(id) && ids.contains(id),
        order.no_duplicates() ==> in_schema_order(order, ids).no_duplicates(),
        order.no_duplicates() ==> forall|a: int, b: int|
            0 <= a < b < in_schema_order(order, ids).len() ==> order.index_of(
                #[trigger] in_schema_order(order, ids)[a],
            ) < order.index_of(#[trigger] in_schema_order(order, ids)[b]),
{
    lemma_in_schema_order(order, ids, order.len());
    assert(order.take(order.len() as int) =~= order);
    let kept = in_schema_order(order, ids);
    if order.no_duplicates() {
        assert forall|a: int, b: int| 0 <= a < b < kept.len() implies order.index_of(
            #[trigger] kept[a],
        ) < order.index_of(#[trigger] kept[b]) by {
            let (i, j) = choose|i: int, j: int|
                0 <= i < j < order.len() && order[i] == kept[a] && order[j] == kept[b];
            assert(order.contains(kept[a])) by {
                assert(order[i] == kept[a]);
            }
            assert(order.contains(kept[b])) by {
                assert(order[j] == kept[b]);
            }
            assert(order.index_of(kept[a]) == i);
            assert(order.index_of(kept[b]) == j);
        }
        assert forall|a: int, b: int| 0 <= a < kept.len() && 0 <= b < kept.len() && a != b implies kept[a]
            != kept[b] by {
            if a < b {
                let (i, j) = choose|i: int, j: int|
                    0 <= i < j < order.len() && order[i] == kept[a] && order[j] == kept[b];
                assert(order[i] != order[j]);
            } else {
                let (i, j) = choose|i: int, j: int|
                    0 <= i < j < order.len() && order[i] == kept[b] && order[j] == kept[a];
                assert(order[i] != order[j]);
            }
        }
    }
}

proof fn lemma_in_schema_order(order: Seq<i32>, ids: Seq<i32>, n: nat)
    requires
        n <= order.len(),
    ensures
        ({
            let kept = in_schema_order(order.take(n as int), ids);
            &&& forall|id: i32|
                #[trigger] kept.contains(id) <==> order.take(n as int).contains(id) && ids.contains(id)
            &&& forall|a: int|
                0 <= a < kept.len() ==> exists|i: int| 0 <= i < n && order[i] == #[trigger] kept[a]
            &&& forall|a: int, b: int|
                0 <= a < b < kept.len() ==> exists|i: int, j: int|
                    0 <= i < j < n && order[i] == #[trigger] kept[a] && order[j] == #[trigger] kept[b]
        }),
    decreases n,
{
    let keep = |id: i32| ids.contains(id);
    let kept = in_schema_order(order.take(n as int), ids);
    reveal(Seq::filter);
    if n > 0 {
        lemma_in_schema_order(order, ids, (n - 1) as nat);
        let shorter = order.take(n - 1);
        let before = in_schema_order(shorter, ids);
        assert(order.take(n as int).drop_last() =~= shorter);
        let last = order[n - 1];
        assert(order.take(n as int).last() == last);
        let all = order.take(n as int);
        assert forall|id: i32| #[trigger] all.contains(id) <==> shorter.contains(id) || id == last by {
            if all.contains(id) {
                let k = choose|k: int| 0 <= k < all.len() && all[k] == id;
                if k < n - 1 {
                    assert(shorter[k] == id);
                }
            }
            if shorter.contains(id) {
                let k = choose|k: int| 0 <= k < shorter.len() && shorter[k] == id;
                assert(all[k] == id);
            }
            assert(all[n - 1] == last);
        }
        if keep(last) {
            assert(kept == before.push(last));
            assert forall|id: i32| #[trigger] kept.contains(id) <==> all.contains(id) && ids.contains(id) by {
                if kept.contains(id) {
                    let k = choose|k: int| 0 <= k < kept.len() && kept[k] == id;
                    if k < before.len() {
                        assert(before[k] == id);
                        assert(before.contains(id));
                    }
                }
                if all.contains(id) && ids.contains(id) {
                    if id == last {
                        assert(kept[before.len() as int] == id);
                    } else {
                        assert(before.contains(id));
                        let k = choose|k: int| 0 <= k < before.len() && before[k] == id;
                        assert(kept[k] == id);
                    }
                }
            }
            assert forall|a: int| 0 <= a < kept.len() implies exists|i: int|
                0 <= i < n && order[i] == #[trigger] kept[a] by {
                if a < before.len() {
                    let i = choose|i: int| 0 <= i < n - 1 && order[i] == before[a];
                    assert(order[i] == kept[a]);
                } else {
                    assert(order[n - 1] == kept[a]);
                }
            }
            assert forall|a: int, b: int| 0 <= a < b < kept.len() implies exists|i: int, j: int|
                0 <= i < j < n && order[i] == #[trigger] kept[a] && order[j] == #[trigger] kept[b] by {
                if b < before.len() {
                    let (i, j) = choose|i: int, j: int|
                        0 <= i < j < n - 1 && order[i] == before[a] && order[j] == before[b];
                    assert(order[i] == kept[a] && order[j] == kept[b]);
                } else {
                    let i = choose|i: int| 0 <= i < n - 1 && order[i] == before[a];
                    assert(order[i] == kept[a] && order[n - 1] == kept[b]);
                }
            }
        } else {
            assert(kept == before);
            assert forall|id: i32| #[trigger] kept.contains(id) <==> all.contains(id) && ids.contains(id) by {
                assert(all.contains(id) <==> shorter.contains(id) || id == last);
            }
            assert forall|a: int| 0 <= a < kept.len() implies exists|i: int|
                0 <= i < n && order[i] == #[trigger] kept[a] by {
                let i = choose|i: int| 0 <= i < n - 1 && order[i] == before[a];
                assert(order[i] == kept[a]);
            }
            assert forall|a: int, b: int| 0 <= a < b < kept.len() implies exists|i: int, j: int|
                0 <= i < j < n && order[i] == #[trigger] kept[a] && order[j] == #[trigger] kept[b] by {
                let (i, j) = choose|i: int, j: int|
                    0 <= i < j < n - 1 && order[i] == before[a] && order[j] == before[b];
                assert(order[i] == kept[a] && order[j] == kept[b]);
            }
        }
    } else {
        assert(order.take(0).filter(keep) =~= Seq::<i32>::empty());
    }
}

proof fn lemma_descriptors(policy: SplitPolicy, file: IcebergPlannedDataFile, n: nat)
    requires
        n <= file.read_file.deletes@.len(),
        delete_descriptors(policy, file, n) is Ok,
    ensures
        delete_descriptors(policy, file, n)->Ok_0.len() == n,
        forall|i: int|
            0 <= i < n ==> (#[trigger] file.read_file.deletes@[i]).applies && delete_descriptor_of(
                policy,
                file.read_file.deletes@[i],
                file,
            ) == Ok::<DeleteFileModel, ConnectorError>(delete_descriptors(policy, file, n)->Ok_0[i]),
    decreases n,
{
    if n > 0 {
        lemma_descriptors(policy, file, (n - 1) as nat);
        let before = delete_descriptors(policy, file, (n - 1) as nat)->Ok_0;
        let all = delete_descriptors(policy, file, n)->Ok_0;
        assert forall|i: int| 0 <= i < n implies (#[trigger] file.read_file.deletes@[i]).applies
            && delete_descriptor_of(policy, file.read_file.deletes@[i], file) == Ok::<
            DeleteFileModel,
            ConnectorError,
        >(all[i]) by {
            if i < n - 1 {
                assert(all[i] == before[i]);
            }
        }
    }
}

/// Whether a delete of a split describes a delete of its file: what it is, where it is and how
/// young, as the read view states it.
pub open spec fn describes_delete(described: DeleteFileModel, file: IcebergPlannedDataFile, i: int) -> bool {
    let delete = file.read_file.deletes@[i];
    &&& described.path == delete.path@
    &&& described.content == (match delete.kind {
        IcebergReadDeleteKind::Position => IcebergDeleteFileContent::PositionDeletes,
        IcebergReadDeleteKind::Equality { .. } => IcebergDeleteFileContent::EqualityDeletes,
    })
    &&& described.format == (match delete.file_format {
        IcebergReadDeleteFormat::Parquet => IcebergFileFormat::Parquet,
        IcebergReadDeleteFormat::Puffin => IcebergFileFormat::Puffin,
    })
    &&& delete.length == Some(described.file_size_in_bytes)
    &&& delete.sequence_number == Some(described.data_sequence_number)
    &&& described.content_offset == delete.content_offset
    &&& described.content_size_in_bytes == delete.content_size_in_bytes
}

/// Whether the manifest facts of a delete are the last ones that are stated for its path.
pub open spec fn has_last_facts(described: DeleteFileModel, facts: Seq<(String, IcebergDeleteFileFacts)>) -> bool {
    exists|k: int|
        {
            &&& 0 <= k < facts.len()
            &&& (#[trigger] facts[k]).0@ == described.path
            &&& described.record_count == facts[k].1.record_count
            &&& described.row_position_lower_bound == facts[k].1.row_position_lower_bound
            &&& described.row_position_upper_bound == facts[k].1.row_position_upper_bound
            &&& described.decryption_data == decryption_model(facts[k].1.decryption_data)
            &&& forall|later: int|
                k < later < facts.len() ==> (#[trigger] facts[later]).0@ != described.path
        }
}

/// Every split of a file carries exactly the deletes that the read view of the file attaches, each
/// once and in order. A delete keeps its path, content, format, size, sequence number and content
/// range; an equality delete keeps the ids that it lists, a position delete has none; and the
/// manifest facts are the last ones stated for its path. A delete that does not apply is never
/// carried.
pub proof fn law_splits_carry_every_delete(policy: SplitPolicy, file: IcebergPlannedDataFile, s: int)
    requires
        file_splits(policy, file) is Ok,
        0 <= s < file_splits(policy, file)->Ok_0.len(),
    ensures
        ({
            let carried = file_splits(policy, file)->Ok_0[s].deletes;
            let deletes = file.read_file.deletes@;
            &&& carried.len() == deletes.len()
            &&& forall|i: int| 0 <= i < deletes.len() ==> (#[trigger] deletes[i]).applies
            &&& forall|i: int| 0 <= i < carried.len() ==> describes_delete(#[trigger] carried[i], file, i)
            &&& forall|i: int, id: i32|
                0 <= i < carried.len() ==> (#[trigger] carried[i].equality_field_ids.contains(id)
                    <==> deletes[i].kind is Equality && (
                deletes[i].kind->equality_field_ids)@.contains(id))
            &&& forall|i: int|
                0 <= i < carried.len() ==> has_last_facts(#[trigger] carried[i], file.delete_facts@)
        }),
{
    let deletes = file.read_file.deletes@;
    lemma_descriptors(policy, file, deletes.len());
    let carried = file_splits(policy, file)->Ok_0[s].deletes;
    let order = policy.schema_field_ids@;
    let facts = file.delete_facts@;
    assert forall|i: int| 0 <= i < carried.len() implies describes_delete(#[trigger] carried[i], file, i) by {
        assert(deletes[i].applies);
    }
    assert forall|i: int, id: i32| 0 <= i < carried.len() implies (
    #[trigger] carried[i].equality_field_ids.contains(id) <==> deletes[i].kind is Equality && (
    deletes[i].kind->equality_field_ids)@.contains(id)) by {
        assert(deletes[i].applies);
        match deletes[i].kind {
            IcebergReadDeleteKind::Position => {},
            IcebergReadDeleteKind::Equality { equality_field_ids } => {
                let ids = equality_field_ids@;
                law_equality_ids_are_fields_named_once(order, ids);
                law_schema_order_keeps_every_named_id(order, ids);
                assert(in_schema_order(order, ids).contains(id) <==> order.contains(id) && ids.contains(id));
                if ids.contains(id) {
                    let k = choose|k: int| 0 <= k < ids.len() && ids[k] == id;
                    assert(order.contains(ids[k]));
                }
            },
        }
    }
    assert forall|i: int| 0 <= i < carried.len() implies has_last_facts(#[trigger] carried[i], facts) by {
        assert(deletes[i].applies);
        lemma_facts_of(facts, deletes[i].path@);
        let held = facts_of(facts, deletes[i].path@)->0;
        let k = choose|k: int|
            0 <= k < facts.len() && (#[trigger] facts[k]).0@ == deletes[i].path@ && facts[k].1 == held
                && forall|later: int|
                k < later < facts.len() ==> (#[trigger] facts[later]).0@ != deletes[i].path@;
        assert(facts[k].0@ == carried[i].path);
    }
}

// ---------------------------------------------------------------------------
// Facts of a split
// ---------------------------------------------------------------------------

proof fn lemma_spec_facts(specs: Seq<SpecFacts>, spec_id: i32)
    ensures
        match spec_facts(specs, spec_id) {
            Some(facts) => exists|k: int|
                0 <= k < specs.len() && #[trigger] specs[k] == facts && specs[k].spec_id == spec_id
                    && forall|later: int|
                    k < later < specs.len() ==> (#[trigger] specs[later]).spec_id != spec_id,
            None => forall|k: int| 0 <= k < specs.len() ==> (#[trigger] specs[k]).spec_id != spec_id,
        },
    decreases specs.len(),
{
    if specs.len() > 0 {
        let n = specs.len() - 1;
        if specs.last().spec_id == spec_id {
            assert(specs[n].spec_id == spec_id);
        } else {
            let shorter = specs.drop_last();
            lemma_spec_facts(shorter, spec_id);
            match spec_facts(shorter, spec_id) {
                Some(facts) => {
                    let k = choose|k: int|
                        0 <= k < shorter.len() && #[trigger] shorter[k] == facts && shorter[k].spec_id
                            == spec_id && forall|later: int|
                            k < later < shorter.len() ==> (#[trigger] shorter[later]).spec_id != spec_id;
                    assert(specs[k] == facts);
                    assert forall|later: int| k < later < specs.len() implies (
                    #[trigger] specs[later]).spec_id != spec_id by {
                        if later < n {
                            assert(shorter[later] == specs[later]);
                        }
                    }
                },
                None => {
                    assert forall|k: int| 0 <= k < specs.len() implies (#[trigger] specs[k]).spec_id
                        != spec_id by {
                        if k < n {
                            assert(shorter[k] == specs[k]);
                        }
                    }
                },
            }
        }
    }
}

/// A split states of its file what the manifest states: its path, size, record count, format,
/// spec, partition text, sequence number and first row id. It is no encrypted file, and it goes
/// where the other splits of its file go.
pub proof fn law_splits_keep_the_facts_of_their_file(policy: SplitPolicy, file: IcebergPlannedDataFile, s: int)
    requires
        file_splits(policy, file) is Ok,
        0 <= s < file_splits(policy, file)->Ok_0.len(),
    ensures
        ({
            let split = file_splits(policy, file)->Ok_0[s];
            let read = file.read_file;
            &&& split.path == read.path@
            &&& split.file_size == read.size
            &&& read.record_count == Some(split.file_record_count)
            &&& split.file_format == IcebergFileFormat::Parquet
            &&& read.partition_spec_id == Some(split.partition_spec_id)
            &&& read.partition_values is Some
            &&& (read.partition_values->0).json is Some
            &&& split.partition_data_json == ((read.partition_values->0).json->0)@
            &&& split.data_sequence_number == read.data_sequence_number
            &&& split.file_first_row_id == read.first_row_id
            &&& split.decryption_data is None
            &&& split.affinity_key == Some(read.path@)
        }),
{
}

/// A file has splits only where it is a Parquet file that nothing encrypts, its spec is known and
/// has as many fields as the file has partition values, and its size is not negative.
pub proof fn law_only_readable_files_have_splits(policy: SplitPolicy, file: IcebergPlannedDataFile)
    requires
        file_splits(policy, file) is Ok,
    ensures
        file.file_format == IcebergFileFormat::Parquet,
        file.key_metadata@.len() == 0,
        file.decryption_data is None,
        file.read_file.size >= 0,
        exists|k: int|
            0 <= k < policy.specs@.len() && Some((#[trigger] policy.specs@[k]).spec_id)
                == file.read_file.partition_spec_id && policy.specs@[k].field_count == (
            file.read_file.partition_values->0).arity,
{
    lemma_spec_facts(policy.specs@, file.read_file.partition_spec_id->0);
}

/// A file that has every fact has splits: a plain Parquet file of a known spec, with its count, its
/// size and its partition values, and with position deletes that apply and have their own facts.
pub proof fn law_a_complete_file_has_splits(policy: SplitPolicy, file: IcebergPlannedDataFile, k: int)
    requires
        policy.target_split_size > 0,
        file.file_format == IcebergFileFormat::Parquet,
        file.key_metadata@.len() == 0,
        file.decryption_data is None,
        file.read_file.size >= 0,
        file.read_file.record_count is Some,
        0 <= k < policy.specs@.len(),
        file.read_file.partition_spec_id == Some(policy.specs@[k].spec_id),
        forall|other: int|
            0 <= other < policy.specs@.len() && (#[trigger] policy.specs@[other]).spec_id
                == policy.specs@[k].spec_id ==> other == k,
        file.read_file.partition_values is Some,
        (file.read_file.partition_values->0).arity == policy.specs@[k].field_count,
        (file.read_file.partition_values->0).json is Some,
        forall|i: int|
            0 <= i < file.read_file.deletes@.len() ==> {
                let delete = #[trigger] file.read_file.deletes@[i];
                &&& delete.applies
                &&& delete.length is Some
                &&& delete.sequence_number is Some
                &&& exists|f: int|
                    0 <= f < file.delete_facts@.len() && (#[trigger] file.delete_facts@[f]).0@
                        == delete.path@
                &&& delete.kind matches IcebergReadDeleteKind::Equality { equality_field_ids } ==> {
                    &&& equality_field_ids@.no_duplicates()
                    &&& forall|j: int|
                        0 <= j < equality_field_ids@.len() ==> policy.schema_field_ids@.contains(
                            #[trigger] equality_field_ids@[j],
                        )
                }
            },
    ensures
        file_splits(policy, file) is Ok,
        file_splits(policy, file)->Ok_0.len() > 0,
{
    let deletes = file.read_file.deletes@;
    lemma_spec_facts(policy.specs@, policy.specs@[k].spec_id);
    assert(policy.specs@[k].spec_id == policy.specs@[k].spec_id);
    lemma_all_described(policy, file, deletes.len());
    law_ranges_tile_the_file(
        file.split_offsets@,
        file.read_file.size,
        policy.target_split_size,
        policy.merge_adjacent_split_offsets,
    );
    lemma_ranges_exist(file.split_offsets@, file.read_file.size, policy.target_split_size, policy.merge_adjacent_split_offsets);
}

proof fn lemma_all_described(policy: SplitPolicy, file: IcebergPlannedDataFile, n: nat)
    requires
        n <= file.read_file.deletes@.len(),
        forall|i: int|
            0 <= i < file.read_file.deletes@.len() ==> {
                let delete = #[trigger] file.read_file.deletes@[i];
                &&& delete.applies
                &&& delete.length is Some
                &&& delete.sequence_number is Some
                &&& exists|f: int|
                    0 <= f < file.delete_facts@.len() && (#[trigger] file.delete_facts@[f]).0@
                        == delete.path@
                &&& delete.kind matches IcebergReadDeleteKind::Equality { equality_field_ids } ==> {
                    &&& equality_field_ids@.no_duplicates()
                    &&& forall|j: int|
                        0 <= j < equality_field_ids@.len() ==> policy.schema_field_ids@.contains(
                            #[trigger] equality_field_ids@[j],
                        )
                }
            },
    ensures
        delete_descriptors(policy, file, n) is Ok,
    decreases n,
{
    if n > 0 {
        lemma_all_described(policy, file, (n - 1) as nat);
        let delete = file.read_file.deletes@[n - 1];
        lemma_facts_of(file.delete_facts@, delete.path@);
        match delete.kind {
            IcebergReadDeleteKind::Equality { equality_field_ids } => {
                law_equality_ids_are_fields_named_once(policy.schema_field_ids@, equality_field_ids@);
            },
            IcebergReadDeleteKind::Position => {},
        }
    }
}

/// Files that cannot be read are refused, each for its own reason.
pub proof fn law_unreadable_files_are_refused(policy: SplitPolicy, file: IcebergPlannedDataFile)
    ensures
        file.file_format == IcebergFileFormat::Orc ==> file_splits(policy, file) == Err::<
            Seq<SplitModel>,
            ConnectorError,
        >(ConnectorError::Unsupported(UnsupportedFeature::OrcDataFile)),
        file.file_format == IcebergFileFormat::Avro ==> file_splits(policy, file) == Err::<
            Seq<SplitModel>,
            ConnectorError,
        >(ConnectorError::Unsupported(UnsupportedFeature::AvroDataFile)),
        file.file_format == IcebergFileFormat::Puffin ==> file_splits(policy, file) == Err::<
            Seq<SplitModel>,
            ConnectorError,
        >(ConnectorError::Corrupt(CorruptData::PuffinDataFile)),
        file.key_metadata@.len() > 0 || file.decryption_data is Some ==> file_splits(policy, file) is Err,
        (exists|i: int|
            0 <= i < file.read_file.deletes@.len() && !(
            #[trigger] file.read_file.deletes@[i]).applies) ==> file_splits(policy, file) is Err,
{
    if file_splits(policy, file) is Ok {
        lemma_descriptors(policy, file, file.read_file.deletes@.len());
    }
}

// ---------------------------------------------------------------------------
// Ranges
// ---------------------------------------------------------------------------

proof fn lemma_ranges_exist(offsets: Seq<i64>, file_size: i64, target: i64, merge: bool)
    requires
        target > 0,
        file_size >= 0,
    ensures
        file_ranges(offsets, file_size, target, merge).len() > 0,
{
    if legal_offsets(offsets, file_size) {
        let ranges = offset_ranges(offsets, file_size);
        lemma_merged_not_empty(ranges, target, ranges.len());
    }
}

proof fn lemma_merged_not_empty(ranges: Seq<(i64, i64)>, target: i64, n: nat)
    requires
        n <= ranges.len(),
    ensures
        n > 0 ==> merged_ranges(ranges, target, n).len() > 0,
{
}

/// The splits of a file follow each other: each ends where the next begins, the last ends with the
/// file, and none is negative. A split begins at byte zero, or at the first of the file's own
/// offsets where those ascend inside the file.
#[verifier::rlimit(30)]
pub proof fn law_splits_leave_no_byte_out(policy: SplitPolicy, file: IcebergPlannedDataFile)
    requires
        policy.target_split_size > 0,
        file_splits(policy, file) is Ok,
    ensures
        ({
            let splits = file_splits(policy, file)->Ok_0;
            let offsets = file.split_offsets@;
            &&& splits.len() > 0
            &&& splits[0].start == 0 || (offsets.len() > 0 && splits[0].start == offsets[0])
            &&& offsets.len() == 0 ==> splits[0].start == 0
            &&& forall|i: int|
                0 <= i < splits.len() - 1 ==> (#[trigger] splits[i]).start + splits[i].length == splits[i
                    + 1].start
            &&& splits.last().start + splits.last().length == file.read_file.size
        }),
{
    let read = file.read_file;
    let spec_id = read.partition_spec_id->0;
    let deletes = delete_descriptors(policy, file, read.deletes@.len())->Ok_0;
    let ranges = planned_ranges(policy, file, spec_id, deletes.len());
    let splits = file_splits(policy, file)->Ok_0;
    law_ranges_tile_the_file(
        file.split_offsets@,
        read.size,
        policy.target_split_size,
        policy.merge_adjacent_split_offsets,
    );
    lemma_ranges_exist(
        file.split_offsets@,
        read.size,
        policy.target_split_size,
        policy.merge_adjacent_split_offsets,
    );
    assert(splits.len() == ranges.len());
    assert forall|i: int| 0 <= i < splits.len() implies (#[trigger] splits[i]).start == ranges[i].0
        && splits[i].length == ranges[i].1 by {}
    assert forall|i: int| 0 <= i < splits.len() - 1 implies (#[trigger] splits[i]).start
        + splits[i].length == splits[i + 1].start by {
        assert(splits[i + 1].start == ranges[i + 1].0);
        assert(ranges[i].0 + ranges[i].1 == ranges[i + 1].0);
    }
    assert(splits.last().start == ranges.last().0);
}

proof fn lemma_cut(start: int, file_size: int, target: int, i: int)
    requires
        0 <= start < file_size <= i64::MAX,
        target > 0,
        0 <= i < cut_ranges(start, file_size, target).len(),
    ensures
        ({
            let ranges = cut_ranges(start, file_size, target);
            &&& ranges[i].0 == start + i * target
            &&& i < ranges.len() - 1 ==> ranges[i].1 == target
            &&& 0 < ranges[i].1 <= target
        }),
    decreases file_size - start,
{
    let left = file_size - start;
    let length = if target < left {
        target
    } else {
        left
    };
    let all = cut_ranges(start, file_size, target);
    let rest = cut_ranges(start + length, file_size, target);
    assert(all == seq![(start as i64, length as i64)] + rest);
    if i > 0 {
        assert(all[i] == rest[i - 1]);
        assert(start + length < file_size);
        lemma_cut(start + length, file_size, target, i - 1);
        assert(start + target + (i - 1) * target == start + i * target) by (nonlinear_arith);
    } else {
        assert(0 * target == 0) by (nonlinear_arith);
        if all.len() > 1 {
            assert(start + length < file_size);
        }
    }
}

/// A file without usable offsets is cut at every multiple of the target size.
pub proof fn law_cuts_fall_on_multiples_of_the_target(offsets: Seq<i64>, file_size: i64, target: i64, merge: bool, i: int)
    requires
        file_size > 0,
        target > 0,
        offsets.len() == 0 || offsets[0] < 0 || offsets.last() >= file_size || exists|k: int|
            0 <= k < offsets.len() - 1 && (#[trigger] offsets[k]) >= offsets[k + 1],
        0 <= i < file_ranges(offsets, file_size, target, merge).len(),
    ensures
        ({
            let ranges = file_ranges(offsets, file_size, target, merge);
            &&& ranges[i].0 == i * target
            &&& i < ranges.len() - 1 ==> ranges[i].1 == target
            &&& 0 < ranges[i].1 <= target
        }),
{
    assert(!legal_offsets(offsets, file_size));
    lemma_cut(0, file_size as int, target as int, i);
}

/// Offsets that ascend inside the file bound its ranges: one range begins at each of them, unless
/// adjacent ones may be merged.
pub proof fn law_offsets_bound_the_ranges(offsets: Seq<i64>, file_size: i64, target: i64, i: int)
    requires
        offsets.len() > 0,
        offsets[0] >= 0,
        forall|k: int| 0 <= k < offsets.len() - 1 ==> (#[trigger] offsets[k]) < offsets[k + 1],
        offsets.last() < file_size,
        0 <= i < offsets.len(),
    ensures
        file_ranges(offsets, file_size, target, false).len() == offsets.len(),
        file_ranges(offsets, file_size, target, false)[i].0 == offsets[i],
{
    assert(legal_offsets(offsets, file_size));
}

proof fn lemma_merged_shape(ranges: Seq<(i64, i64)>, target: i64, n: nat)
    requires
        n <= ranges.len(),
        forall|k: int| 0 <= k < ranges.len() ==> (#[trigger] ranges[k]).1 >= 0,
    ensures
        ({
            let merged = merged_ranges(ranges, target, n);
            &&& forall|m: int|
                0 <= m < merged.len() ==> ((#[trigger] merged[m]).1 <= target || exists|k: int|
                    0 <= k < n && #[trigger] ranges[k] == merged[m])
            &&& forall|m: int|
                0 <= m < merged.len() ==> exists|k: int|
                    0 <= k < n && (#[trigger] ranges[k]).0 == (#[trigger] merged[m]).0
            &&& forall|m: int|
                0 <= m < merged.len() - 1 ==> exists|k: int|
                    0 <= k < n && (#[trigger] ranges[k]).0 == merged[m + 1].0 && ((
                    #[trigger] merged[m]).0 + merged[m].1 != ranges[k].0 || merged[m].1 + ranges[k].1
                        > target)
        }),
    decreases n,
{
    if n > 0 {
        lemma_merged_shape(ranges, target, (n - 1) as nat);
        let before = merged_ranges(ranges, target, (n - 1) as nat);
        let merged = merged_ranges(ranges, target, n);
        let own = ranges[n - 1];
        let joins = before.len() > 0 && before.last().0 + before.last().1 == own.0 && before.last().1
            + own.1 <= target;
        let last = merged.len() - 1;
        assert forall|m: int| 0 <= m < merged.len() implies ((#[trigger] merged[m]).1 <= target
            || exists|k: int| 0 <= k < n && #[trigger] ranges[k] == merged[m]) by {
            if m < last {
                assert(merged[m] == before[m]);
                if before[m].1 > target {
                    let k = choose|k: int| 0 <= k < n - 1 && #[trigger] ranges[k] == before[m];
                    assert(ranges[k] == merged[m]);
                }
            } else if !joins {
                assert(ranges[n - 1] == merged[m]);
            }
        }
        assert forall|m: int| 0 <= m < merged.len() implies exists|k: int|
            0 <= k < n && (#[trigger] ranges[k]).0 == (#[trigger] merged[m]).0 by {
            if m < last || joins {
                assert(merged[m].0 == before[m].0);
                let k = choose|k: int| 0 <= k < n - 1 && (#[trigger] ranges[k]).0 == before[m].0;
                assert(ranges[k].0 == merged[m].0);
            } else {
                assert(ranges[n - 1].0 == merged[m].0);
            }
        }
        assert forall|m: int| 0 <= m < merged.len() - 1 implies exists|k: int|
            0 <= k < n && (#[trigger] ranges[k]).0 == merged[m + 1].0 && ((#[trigger] merged[m]).0
                + merged[m].1 != ranges[k].0 || merged[m].1 + ranges[k].1 > target) by {
            if m + 1 < last || joins {
                assert(merged[m] == before[m]);
                assert(merged[m + 1].0 == before[m + 1].0);
                let k = choose|k: int|
                    0 <= k < n - 1 && (#[trigger] ranges[k]).0 == before[m + 1].0 && (before[m].0
                        + before[m].1 != ranges[k].0 || before[m].1 + ranges[k].1 > target);
                assert(ranges[k].0 == merged[m + 1].0);
            } else {
                assert(merged[m] == before[m]);
                assert(merged[m] == before.last());
                assert(ranges[n - 1].0 == merged[m + 1].0);
            }
        }
    }
}

proof fn lemma_merged_fills(whole: Seq<(i64, i64)>, target: i64, from: int, to: int)
    requires
        forall|k: int| 0 <= k < whole.len() ==> (#[trigger] whole[k]).1 >= 0,
        tiles(merged_ranges(whole, target, whole.len()), from, to),
    ensures
        ({
            let merged = merged_ranges(whole, target, whole.len());
            &&& forall|m: int|
                0 <= m < merged.len() ==> ((#[trigger] merged[m]).1 <= target || exists|k: int|
                    0 <= k < whole.len() && #[trigger] whole[k] == merged[m])
            &&& forall|m: int|
                0 <= m < merged.len() ==> exists|k: int|
                    0 <= k < whole.len() && (#[trigger] whole[k]).0 == (#[trigger] merged[m]).0
            &&& forall|m: int|
                0 <= m < merged.len() - 1 ==> exists|k: int|
                    0 <= k < whole.len() && (#[trigger] whole[k]).0 == merged[m + 1].0 && (
                    #[trigger] merged[m]).1 + whole[k].1 > target
        }),
{
    let merged = merged_ranges(whole, target, whole.len());
    lemma_merged_shape(whole, target, whole.len());
    assert forall|m: int| 0 <= m < merged.len() - 1 implies exists|k: int|
        0 <= k < whole.len() && (#[trigger] whole[k]).0 == merged[m + 1].0 && (#[trigger] merged[m]).1
            + whole[k].1 > target by {
        assert(merged[m].0 + merged[m].1 == merged[m + 1].0);
        let k = choose|k: int|
            0 <= k < whole.len() && (#[trigger] whole[k]).0 == merged[m + 1].0 && (merged[m].0
                + merged[m].1 != whole[k].0 || merged[m].1 + whole[k].1 > target);
        assert(whole[k].0 == merged[m + 1].0);
    }
}

proof fn lemma_offset_ranges(offsets: Seq<i64>, file_size: i64, k: int)
    requires
        legal_offsets(offsets, file_size),
        0 <= k < offsets.len(),
    ensures
        offset_ranges(offsets, file_size)[k].0 == offsets[k],
        offset_ranges(offsets, file_size)[k].1 >= 0,
        file_size >= 0,
{
    lemma_offsets_ascend(offsets, file_size, k);
    if k + 1 < offsets.len() {
        assert(offsets[k] < offsets[k + 1]);
        lemma_offsets_ascend(offsets, file_size, k + 1);
    }
}

/// Merged ranges begin at offsets of the file. Only a range that was that long before is longer
/// than the target, and two neighbours are apart only because the range that the second begins
/// with did not fit any more.
pub proof fn law_merging_fills_up_to_the_target(offsets: Seq<i64>, file_size: i64, target: i64)
    requires
        target > 0,
        offsets.len() > 0,
        offsets[0] >= 0,
        forall|k: int| 0 <= k < offsets.len() - 1 ==> (#[trigger] offsets[k]) < offsets[k + 1],
        offsets.last() < file_size,
    ensures
        ({
            let whole = file_ranges(offsets, file_size, target, false);
            let merged = file_ranges(offsets, file_size, target, true);
            &&& forall|m: int|
                0 <= m < merged.len() ==> ((#[trigger] merged[m]).1 <= target || exists|k: int|
                    0 <= k < whole.len() && #[trigger] whole[k] == merged[m])
            &&& forall|m: int|
                0 <= m < merged.len() ==> exists|k: int|
                    0 <= k < whole.len() && (#[trigger] whole[k]).0 == (#[trigger] merged[m]).0
            &&& forall|m: int|
                0 <= m < merged.len() - 1 ==> exists|k: int|
                    0 <= k < whole.len() && (#[trigger] whole[k]).0 == merged[m + 1].0 && (
                    #[trigger] merged[m]).1 + whole[k].1 > target
        }),
{
    assert(legal_offsets(offsets, file_size));
    let whole = offset_ranges(offsets, file_size);
    assert forall|k: int| 0 <= k < whole.len() implies (#[trigger] whole[k]).1 >= 0 by {
        lemma_offset_ranges(offsets, file_size, k);
    }
    lemma_offset_ranges(offsets, file_size, 0);
    law_ranges_tile_the_file(offsets, file_size, target, true);
    lemma_merged_fills(whole, target, offsets[0] as int, file_size as int);
    assert(file_ranges(offsets, file_size, target, false) == whole);
    assert(file_ranges(offsets, file_size, target, true) == merged_ranges(whole, target, whole.len()));
}

/// A scan of identity partition values alone reads a file without deletes in one split, from the
/// first byte to the last.
pub proof fn law_a_partition_only_read_is_one_split(policy: SplitPolicy, file: IcebergPlannedDataFile, k: int)
    requires
        file_splits(policy, file) is Ok,
        file.read_file.deletes@.len() == 0,
        policy.projected_base_field_ids is Some,
        0 <= k < policy.specs@.len(),
        file.read_file.partition_spec_id == Some(policy.specs@[k].spec_id),
        forall|other: int|
            0 <= other < policy.specs@.len() && (#[trigger] policy.specs@[other]).spec_id
                == policy.specs@[k].spec_id ==> other == k,
        forall|i: int|
            0 <= i < (policy.projected_base_field_ids->0)@.len()
                ==> policy.specs@[k].identity_source_ids@.contains(
                #[trigger] (policy.projected_base_field_ids->0)@[i],
            ),
    ensures
        file_splits(policy, file)->Ok_0.len() == 1,
        file_splits(policy, file)->Ok_0[0].start == 0,
        file_splits(policy, file)->Ok_0[0].length == file.read_file.size,
{
    lemma_spec_facts(policy.specs@, policy.specs@[k].spec_id);
    assert(policy.specs@[k].spec_id == policy.specs@[k].spec_id);
    lemma_descriptors(policy, file, 0);
    assert(partition_only(policy, policy.specs@[k].spec_id));
}

/// A scan that needs more than partition values, or of a file with deletes, cuts the file as its
/// offsets and the target say.
pub proof fn law_other_reads_are_cut(policy: SplitPolicy, file: IcebergPlannedDataFile, id: i32, s: int)
    requires
        file_splits(policy, file) is Ok,
        file.read_file.deletes@.len() > 0 || policy.projected_base_field_ids is None || ((
        policy.projected_base_field_ids->0)@.contains(id) && forall|k: int|
            0 <= k < policy.specs@.len() && Some((#[trigger] policy.specs@[k]).spec_id)
                == file.read_file.partition_spec_id
                ==> !policy.specs@[k].identity_source_ids@.contains(id)),
        0 <= s < file_splits(policy, file)->Ok_0.len(),
    ensures
        ({
            let ranges = file_ranges(
                file.split_offsets@,
                file.read_file.size,
                policy.target_split_size,
                policy.merge_adjacent_split_offsets,
            );
            let splits = file_splits(policy, file)->Ok_0;
            &&& splits.len() == ranges.len()
            &&& splits[s].start == ranges[s].0
            &&& splits[s].length == ranges[s].1
        }),
{
    let spec_id = file.read_file.partition_spec_id->0;
    lemma_spec_facts(policy.specs@, spec_id);
    lemma_descriptors(policy, file, file.read_file.deletes@.len());
    if file.read_file.deletes@.len() == 0 && policy.projected_base_field_ids is Some {
        let ids = (policy.projected_base_field_ids->0)@;
        let i = choose|i: int| 0 <= i < ids.len() && ids[i] == id;
        if partition_only(policy, spec_id) {
            let facts = spec_facts(policy.specs@, spec_id)->0;
            let k = choose|k: int|
                0 <= k < policy.specs@.len() && #[trigger] policy.specs@[k] == facts
                    && policy.specs@[k].spec_id == spec_id;
            assert(facts.identity_source_ids@.contains(ids[i]));
            assert(policy.specs@[k] == facts);
        }
    }
}

// ---------------------------------------------------------------------------
// The stream of all splits
// ---------------------------------------------------------------------------

/// The splits of one file are the splits of a scan of that file alone; a file that its statistics
/// rule out has none.
pub proof fn law_a_scan_of_one_file_has_its_splits(policy: SplitPolicy, file: IcebergPlannedDataFile)
    ensures
        file.pruning == PruneVerdict::Overlapping && file_splits(policy, file) is Ok ==> file_stream(
            policy,
            seq![file],
            0,
        ) == (file_splits(policy, file)->Ok_0, None::<ConnectorError>),
        file.pruning == PruneVerdict::Disjoint ==> file_stream(policy, seq![file], 0) == (
            Seq::<SplitModel>::empty(),
            None::<ConnectorError>,
        ),
        file.pruning is Failed ==> file_stream(policy, seq![file], 0) == (
            Seq::<SplitModel>::empty(),
            Some(file.pruning->Failed_0),
        ),
        file.pruning == PruneVerdict::Overlapping && file_splits(policy, file) is Err ==> file_stream(
            policy,
            seq![file],
            0,
        ) == (Seq::<SplitModel>::empty(), Some(file_splits(policy, file)->Err_0)),
{
    let files = seq![file];
    assert(file_stream(policy, files, 1) == (Seq::<SplitModel>::empty(), None::<ConnectorError>));
    if file.pruning == PruneVerdict::Overlapping && file_splits(policy, file) is Ok {
        let splits = file_splits(policy, file)->Ok_0;
        assert(splits + Seq::<SplitModel>::empty() =~= splits);
    }
}

proof fn lemma_stream_joins(policy: SplitPolicy, first: Seq<IcebergPlannedDataFile>, second: Seq<IcebergPlannedDataFile>, from: nat)
    requires
        from <= first.len(),
    ensures
        ({
            let (splits, fault) = file_stream(policy, first, from);
            let (rest, last) = file_stream(policy, second, 0);
            file_stream(policy, first + second, from) == if fault is Some {
                (splits, fault)
            } else {
                (splits + rest, last)
            }
        }),
    decreases first.len() - from,
{
    let (rest, last) = file_stream(policy, second, 0);
    let files = first + second;
    if from == first.len() {
        lemma_stream_shift(policy, first, second, 0);
        assert(Seq::<SplitModel>::empty() + rest =~= rest);
    } else {
        assert(files[from as int] == first[from as int]);
        lemma_stream_joins(policy, first, second, from + 1);
        match first[from as int].pruning {
            PruneVerdict::Overlapping => match file_splits(policy, first[from as int]) {
                Ok(splits) => {
                    let (later, fault) = file_stream(policy, first, from + 1);
                    assert(splits + (later + rest) =~= (splits + later) + rest);
                },
                Err(_) => {},
            },
            _ => {},
        }
    }
}

proof fn lemma_stream_shift(policy: SplitPolicy, first: Seq<IcebergPlannedDataFile>, second: Seq<IcebergPlannedDataFile>, from: nat)
    requires
        from <= second.len(),
    ensures
        file_stream(policy, first + second, first.len() + from) == file_stream(policy, second, from),
    decreases second.len() - from,
{
    if from < second.len() {
        assert((first + second)[(first.len() + from) as int] == second[from as int]);
        lemma_stream_shift(policy, first, second, from + 1);
    }
}

/// The splits of two lists of files, one behind the other, are the splits of the first and then
/// those of the second; a fault of the first ends them.
pub proof fn law_scans_join(policy: SplitPolicy, first: Seq<IcebergPlannedDataFile>, second: Seq<IcebergPlannedDataFile>)
    ensures
        ({
            let (splits, fault) = file_stream(policy, first, 0);
            let (rest, last) = file_stream(policy, second, 0);
            file_stream(policy, first + second, 0) == if fault is Some {
                (splits, fault)
            } else {
                (splits + rest, last)
            }
        }),
        file_stream(policy, Seq::empty(), 0) == (Seq::<SplitModel>::empty(), None::<ConnectorError>),
{
    lemma_stream_joins(policy, first, second, 0);
}

// ---------------------------------------------------------------------------
// Policy
// ---------------------------------------------------------------------------

/// The session decides the target size, whatever the table says; without either it is 128 MiB.
pub proof fn law_the_session_decides_the_target_size(size: u64, property: Option<Seq<char>>)
    ensures
        target_size(Some(size), property) == Ok::<u64, ConnectorError>(size),
        target_size(None, None) == Ok::<u64, ConnectorError>(134217728),
        target_size(None, Some(natural_text(size as nat))) == Ok::<u64, ConnectorError>(size),
{
    let text = natural_text(size as nat);
    lemma_natural_value_of_text(size as nat);
}

/// The identity sources of a spec are the sources of its identity fields, and no others.
pub proof fn law_identity_sources_are_those_of_identity_fields(fields: Seq<PartitionField>, id: i32)
    ensures
        identity_sources(fields, fields.len()).contains(id) <==> exists|i: int|
            0 <= i < fields.len() && (#[trigger] fields[i]).identity && fields[i].source_id == id,
{
    lemma_identity_sources(fields, id, fields.len());
}

proof fn lemma_identity_sources(fields: Seq<PartitionField>, id: i32, n: nat)
    requires
        n <= fields.len(),
    ensures
        identity_sources(fields, n).contains(id) <==> exists|i: int|
            0 <= i < n && (#[trigger] fields[i]).identity && fields[i].source_id == id,
    decreases n,
{
    if n > 0 {
        lemma_identity_sources(fields, id, (n - 1) as nat);
        let before = identity_sources(fields, (n - 1) as nat);
        let all = identity_sources(fields, n);
        if all.contains(id) {
            let k = choose|k: int| 0 <= k < all.len() && all[k] == id;
            if k < before.len() {
                assert(before[k] == id);
                assert(before.contains(id));
                let i = choose|i: int|
                    0 <= i < n - 1 && (#[trigger] fields[i]).identity && fields[i].source_id == id;
                assert(fields[i].identity);
            } else {
                assert(fields[n - 1].identity);
            }
        }
        if exists|i: int| 0 <= i < n && (#[trigger] fields[i]).identity && fields[i].source_id == id {
            let i = choose|i: int|
                0 <= i < n && (#[trigger] fields[i]).identity && fields[i].source_id == id;
            if i < n - 1 {
                assert(before.contains(id));
                let k = choose|k: int| 0 <= k < before.len() && before[k] == id;
                assert(all[k] == id);
            } else {
                assert(all[all.len() - 1] == id);
            }
        }
    }
}

} // verus!
