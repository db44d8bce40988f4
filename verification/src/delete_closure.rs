//! The delete closure of a split: what it holds, what of it can still remove a row, and how its
//! equality deletes group. Everything here is decided before any file is opened.

use vstd::prelude::*;
use vstd::slice::slice_subrange;

use crate::carrier::{duplicate_text, text_model};
use crate::column_handle::{base_handle, IcebergColumnHandle};
use crate::error::{ConnectorError, CorruptData, InvalidRequest, ResourceLimit, UnsupportedFeature};
use crate::seqs::{lemma_filter_step, total};
use crate::split::{IcebergDeleteFile, IcebergDeleteFileContent, IcebergFileFormat, IcebergSplit};
use crate::split_source::contains_id;
use crate::types::{NestedField, Schema};

verus! {

/// The most delete files that one split may open.
pub const MAX_DELETE_FILES: usize = 1024;

/// The most bytes of delete files that one split may open.
pub const MAX_DELETE_BYTES: u64 = 536870912;

/// How the delete verdict is spent.
pub enum DeleteEvaluationMode {
    /// Ordinary reads leave deleted rows out.
    ExcludeDeleted,
    /// Only the rows that an equality delete removes; a position-deleted row is gone from both
    /// answers.
    EqualityMatchOnly,
    /// Exactly the rows that one change window removed.
    SelectRemovedRows {
        selected: RemovedRowSelection,
        /// What already applied at the window's lower endpoint: those rows were not visible
        /// there, so the window did not remove them.
        previously_applied: Vec<IcebergDeleteFile>,
    },
}

/// Which rows of one data file a change window removed.
pub enum RemovedRowSelection {
    /// The data file is gone at the upper endpoint.
    WholeFile,
    /// The rows that these newly applied deletes name.
    NamedBy(Vec<IcebergDeleteFile>),
}

/// The shape of the verdict that a mode asks for.
#[derive(Clone, Copy, Debug, PartialEq, Eq, Structural)]
pub enum VerdictShape {
    ExcludeDeleted,
    EqualityMatchOnly,
    SelectNamedRows,
    SelectWholeFile,
}

pub open spec fn shape_of(mode: DeleteEvaluationMode) -> VerdictShape {
    match mode {
        DeleteEvaluationMode::ExcludeDeleted => VerdictShape::ExcludeDeleted,
        DeleteEvaluationMode::EqualityMatchOnly => VerdictShape::EqualityMatchOnly,
        DeleteEvaluationMode::SelectRemovedRows { selected, .. } => match selected {
            RemovedRowSelection::WholeFile => VerdictShape::SelectWholeFile,
            RemovedRowSelection::NamedBy(_) => VerdictShape::SelectNamedRows,
        },
    }
}

pub fn verdict_shape(mode: &DeleteEvaluationMode) -> (shape: VerdictShape)
    ensures
        shape == shape_of(*mode),
{
    match mode {
        DeleteEvaluationMode::ExcludeDeleted => VerdictShape::ExcludeDeleted,
        DeleteEvaluationMode::EqualityMatchOnly => VerdictShape::EqualityMatchOnly,
        DeleteEvaluationMode::SelectRemovedRows { selected, previously_applied: _ } => match selected {
            RemovedRowSelection::WholeFile => VerdictShape::SelectWholeFile,
            RemovedRowSelection::NamedBy(_) => VerdictShape::SelectNamedRows,
        },
    }
}

/// The deletes that a mode applies, and those it takes as applied before.
pub open spec fn inputs_of(split: IcebergSplit, mode: DeleteEvaluationMode) -> (Seq<IcebergDeleteFile>, Seq<IcebergDeleteFile>) {
    match mode {
        DeleteEvaluationMode::ExcludeDeleted | DeleteEvaluationMode::EqualityMatchOnly => (
            split.deletes@,
            Seq::empty(),
        ),
        DeleteEvaluationMode::SelectRemovedRows { selected, previously_applied } => (
            match selected {
                RemovedRowSelection::WholeFile => Seq::empty(),
                RemovedRowSelection::NamedBy(newly) => newly@,
            },
            previously_applied@,
        ),
    }
}

/// The two delete sets that a mode asks for. A split of a change window's reverse side names both
/// in its mode, and must carry no closure of its own: that would be a second meaning for the same
/// rows.
pub fn evaluation_inputs<'a>(split: &'a IcebergSplit, mode: &'a DeleteEvaluationMode) -> (inputs: Result<(&'a [IcebergDeleteFile], &'a [IcebergDeleteFile]), ConnectorError>)
    ensures
        match inputs {
            Ok((applied, previously)) => (applied@, previously@) == inputs_of(*split, *mode) && (
            *mode is SelectRemovedRows ==> split.deletes@.len() == 0),
            Err(error) => *mode is SelectRemovedRows && split.deletes@.len() > 0 && error
                == ConnectorError::Invalid(InvalidRequest::ReverseSplitCarriesDeletes),
        },
{
    let none: &'a [IcebergDeleteFile] = slice_subrange(split.deletes.as_slice(), 0, 0);
    assert(none@ =~= Seq::<IcebergDeleteFile>::empty());
    match mode {
        DeleteEvaluationMode::ExcludeDeleted | DeleteEvaluationMode::EqualityMatchOnly => Ok(
            (split.deletes.as_slice(), none),
        ),
        DeleteEvaluationMode::SelectRemovedRows { selected, previously_applied } => {
            if split.deletes.len() > 0 {
                return Err(ConnectorError::Invalid(InvalidRequest::ReverseSplitCarriesDeletes));
            }
            let selected: &'a [IcebergDeleteFile] = match selected {
                RemovedRowSelection::WholeFile => none,
                RemovedRowSelection::NamedBy(newly) => newly.as_slice(),
            };
            Ok((selected, previously_applied.as_slice()))
        },
    }
}

// ---------------------------------------------------------------------------
// Classification
// ---------------------------------------------------------------------------

/// Whether a delete is a position-delete file.
pub open spec fn is_position_file() -> spec_fn(IcebergDeleteFile) -> bool {
    |delete: IcebergDeleteFile|
        delete.content == IcebergDeleteFileContent::PositionDeletes && delete.format
            == IcebergFileFormat::Parquet
}

/// Whether a delete is a deletion vector.
pub open spec fn is_deletion_vector() -> spec_fn(IcebergDeleteFile) -> bool {
    |delete: IcebergDeleteFile|
        delete.content == IcebergDeleteFileContent::PositionDeletes && delete.format
            == IcebergFileFormat::Puffin
}

/// Whether a delete is an equality-delete file.
pub open spec fn is_equality_file() -> spec_fn(IcebergDeleteFile) -> bool {
    |delete: IcebergDeleteFile|
        delete.content == IcebergDeleteFileContent::EqualityDeletes && delete.format
            == IcebergFileFormat::Parquet
}

/// Why one delete cannot be part of a closure, given the vectors before it.
pub open spec fn delete_fault(delete: IcebergDeleteFile, vectors_before: nat) -> Option<ConnectorError> {
    match (delete.content, delete.format) {
        (IcebergDeleteFileContent::PositionDeletes, IcebergFileFormat::Puffin) => if vectors_before
            > 0 {
            Some(ConnectorError::Corrupt(CorruptData::SecondDeletionVector))
        } else {
            None
        },
        (IcebergDeleteFileContent::PositionDeletes, IcebergFileFormat::Parquet) => None,
        (IcebergDeleteFileContent::PositionDeletes, _) => Some(
            ConnectorError::Unsupported(UnsupportedFeature::PositionDeleteFormat),
        ),
        (IcebergDeleteFileContent::EqualityDeletes, IcebergFileFormat::Parquet) => None,
        (IcebergDeleteFileContent::EqualityDeletes, IcebergFileFormat::Puffin) => Some(
            ConnectorError::Corrupt(CorruptData::PuffinEqualityDelete),
        ),
        (IcebergDeleteFileContent::EqualityDeletes, _) => Some(
            ConnectorError::Unsupported(UnsupportedFeature::EqualityDeleteFormat),
        ),
    }
}

/// The first fault among the first `n` deletes.
pub open spec fn first_delete_fault(deletes: Seq<IcebergDeleteFile>, n: nat) -> Option<ConnectorError>
    decreases n,
{
    if n == 0 || n > deletes.len() {
        None
    } else {
        let before = first_delete_fault(deletes, (n - 1) as nat);
        if before is Some {
            before
        } else {
            delete_fault(deletes[n - 1], deletes.take(n - 1).filter(is_deletion_vector()).len())
        }
    }
}

/// Why a list of deletes is no closure. A deletion vector is the complete position-delete state of
/// a data file: a second one, or a position-delete file beside it, contradicts it.
pub open spec fn closure_fault(deletes: Seq<IcebergDeleteFile>) -> Option<ConnectorError> {
    let fault = first_delete_fault(deletes, deletes.len());
    if fault is Some {
        fault
    } else if deletes.filter(is_deletion_vector()).len() > 0 && deletes.filter(
        is_position_file(),
    ).len() > 0 {
        Some(ConnectorError::Corrupt(CorruptData::VectorBesidePositionFiles))
    } else {
        None
    }
}

/// The delete closure of a split, by kind.
pub struct DeleteClosure<'a> {
    pub position_files: Vec<&'a IcebergDeleteFile>,
    pub deletion_vector: Option<&'a IcebergDeleteFile>,
    pub equality_files: Vec<&'a IcebergDeleteFile>,
}

/// What a list of references refers to.
pub open spec fn referred(deletes: Seq<&IcebergDeleteFile>) -> Seq<IcebergDeleteFile> {
    deletes.map_values(|delete: &IcebergDeleteFile| *delete)
}

fn push_delete<'a>(list: &mut Vec<&'a IcebergDeleteFile>, delete: &'a IcebergDeleteFile)
    ensures
        referred(final(list)@) == referred(old(list)@).push(*delete),
{
    let ghost before = list@;
    list.push(delete);
    assert(referred(list@) =~= referred(before).push(*delete));
}

fn new_deletes<'a>() -> (list: Vec<&'a IcebergDeleteFile>)
    ensures
        referred(list@) == Seq::<IcebergDeleteFile>::empty(),
{
    let list: Vec<&'a IcebergDeleteFile> = Vec::new();
    assert(referred(list@) =~= Seq::<IcebergDeleteFile>::empty());
    list
}

/// An optional reference as a list.
pub open spec fn vector_list(vector: Option<&IcebergDeleteFile>) -> Seq<IcebergDeleteFile> {
    match vector {
        Some(delete) => seq![*delete],
        None => seq![],
    }
}

proof fn lemma_first_delete_fault_stays(deletes: Seq<IcebergDeleteFile>, n: nat)
    requires
        n <= deletes.len(),
        first_delete_fault(deletes, n) is Some,
    ensures
        first_delete_fault(deletes, deletes.len()) == first_delete_fault(deletes, n),
    decreases deletes.len() - n,
{
    if n < deletes.len() {
        lemma_first_delete_fault_stays(deletes, n + 1);
    }
}

impl<'a> DeleteClosure<'a> {
    /// Sort the deletes of a split by kind.
    pub fn classify(deletes: &'a [IcebergDeleteFile]) -> (closure: Result<DeleteClosure<'a>, ConnectorError>)
        ensures
            match closure {
                Ok(closure) => {
                    &&& closure_fault(deletes@) is None
                    &&& referred(closure.position_files@) == deletes@.filter(is_position_file())
                    &&& vector_list(closure.deletion_vector) == deletes@.filter(is_deletion_vector())
                    &&& referred(closure.equality_files@) == deletes@.filter(is_equality_file())
                },
                Err(error) => closure_fault(deletes@) == Some(error),
            },
    {
        let mut position_files = new_deletes();
        let mut deletion_vector: Option<&'a IcebergDeleteFile> = None;
        let mut equality_files = new_deletes();
        let mut i: usize = 0;
        proof {
            reveal(Seq::filter);
            assert(deletes@.take(0).filter(is_position_file()) =~= Seq::<IcebergDeleteFile>::empty());
            assert(deletes@.take(0).filter(is_deletion_vector()) =~= Seq::<IcebergDeleteFile>::empty());
            assert(deletes@.take(0).filter(is_equality_file()) =~= Seq::<IcebergDeleteFile>::empty());
        }
        while i < deletes.len()
            invariant
                i <= deletes.len(),
                first_delete_fault(deletes@, i as nat) is None,
                referred(position_files@) == deletes@.take(i as int).filter(is_position_file()),
                vector_list(deletion_vector) == deletes@.take(i as int).filter(is_deletion_vector()),
                referred(equality_files@) == deletes@.take(i as int).filter(is_equality_file()),
            decreases deletes.len() - i,
        {
            let delete = &deletes[i];
            proof {
                lemma_filter_step(deletes@, is_position_file(), i as int);
                lemma_filter_step(deletes@, is_deletion_vector(), i as int);
                lemma_filter_step(deletes@, is_equality_file(), i as int);
            }
            let fault: Option<ConnectorError> = match delete.content {
                IcebergDeleteFileContent::PositionDeletes => match delete.format {
                    IcebergFileFormat::Puffin => {
                        if deletion_vector.is_some() {
                            Some(ConnectorError::Corrupt(CorruptData::SecondDeletionVector))
                        } else {
                            deletion_vector = Some(delete);
                            assert(vector_list(deletion_vector) =~= deletes@.take(i as int).filter(
                                is_deletion_vector(),
                            ).push(*delete));
                            None
                        }
                    },
                    IcebergFileFormat::Parquet => {
                        push_delete(&mut position_files, delete);
                        None
                    },
                    IcebergFileFormat::Orc | IcebergFileFormat::Avro => Some(
                        ConnectorError::Unsupported(UnsupportedFeature::PositionDeleteFormat),
                    ),
                },
                IcebergDeleteFileContent::EqualityDeletes => match delete.format {
                    IcebergFileFormat::Parquet => {
                        push_delete(&mut equality_files, delete);
                        None
                    },
                    IcebergFileFormat::Puffin => Some(
                        ConnectorError::Corrupt(CorruptData::PuffinEqualityDelete),
                    ),
                    IcebergFileFormat::Orc | IcebergFileFormat::Avro => Some(
                        ConnectorError::Unsupported(UnsupportedFeature::EqualityDeleteFormat),
                    ),
                },
            };
            if let Some(error) = fault {
                proof {
                    assert(first_delete_fault(deletes@, (i + 1) as nat) == Some(error));
                    lemma_first_delete_fault_stays(deletes@, (i + 1) as nat);
                }
                return Err(error);
            }
            i += 1;
        }
        assert(deletes@.take(i as int) =~= deletes@);
        if deletion_vector.is_some() && position_files.len() > 0 {
            return Err(ConnectorError::Corrupt(CorruptData::VectorBesidePositionFiles));
        }
        Ok(DeleteClosure { position_files, deletion_vector, equality_files })
    }

    /// The position deletes that can still remove a row of a data file.
    pub fn applicable_position_deletes(&self, file_record_count: i64, data_sequence_number: Option<i64>) -> (applicable: Vec<&'a IcebergDeleteFile>)
        ensures
            referred(applicable@) == (referred(self.position_files@) + vector_list(
                self.deletion_vector,
            )).filter(applicable_position(file_record_count, data_sequence_number)),
    {
        let ghost keep = applicable_position(file_record_count, data_sequence_number);
        let ghost files = referred(self.position_files@);
        let ghost all = files + vector_list(self.deletion_vector);
        let mut applicable = new_deletes();
        let mut i: usize = 0;
        proof {
            reveal(Seq::filter);
            assert(all.take(0).filter(keep) =~= Seq::<IcebergDeleteFile>::empty());
        }
        while i < self.position_files.len()
            invariant
                i <= self.position_files.len(),
                keep == applicable_position(file_record_count, data_sequence_number),
                files == referred(self.position_files@),
                all == files + vector_list(self.deletion_vector),
                referred(applicable@) == all.take(i as int).filter(keep),
            decreases self.position_files.len() - i,
        {
            let delete: &'a IcebergDeleteFile = self.position_files[i];
            assert(all[i as int] == *delete);
            proof {
                lemma_filter_step(all, keep, i as int);
            }
            if delete_outranks_data(delete, data_sequence_number)
                && !row_position_bounds_exclude_file(delete, file_record_count) {
                push_delete(&mut applicable, delete);
            }
            i += 1;
        }
        match self.deletion_vector {
            Some(delete) => {
                proof {
                    assert(all[i as int] == *delete);
                    lemma_filter_step(all, keep, i as int);
                    assert(all.take(i + 1) =~= all);
                }
                if delete_outranks_data(delete, data_sequence_number)
                    && !row_position_bounds_exclude_file(delete, file_record_count) {
                    push_delete(&mut applicable, delete);
                }
            },
            None => {
                assert(all.take(i as int) =~= all);
            },
        }
        applicable
    }

    /// The equality deletes that can still remove a row of a data file.
    pub fn applicable_equality_deletes(&self, data_sequence_number: Option<i64>) -> (applicable: Vec<&'a IcebergDeleteFile>)
        ensures
            referred(applicable@) == referred(self.equality_files@).filter(
                outranking(data_sequence_number),
            ),
    {
        let ghost keep = outranking(data_sequence_number);
        let ghost all = referred(self.equality_files@);
        let mut applicable = new_deletes();
        let mut i: usize = 0;
        proof {
            reveal(Seq::filter);
            assert(all.take(0).filter(keep) =~= Seq::<IcebergDeleteFile>::empty());
        }
        while i < self.equality_files.len()
            invariant
                i <= self.equality_files.len(),
                keep == outranking(data_sequence_number),
                all == referred(self.equality_files@),
                referred(applicable@) == all.take(i as int).filter(keep),
            decreases self.equality_files.len() - i,
        {
            let delete: &'a IcebergDeleteFile = self.equality_files[i];
            assert(all[i as int] == *delete);
            proof {
                lemma_filter_step(all, keep, i as int);
            }
            if delete_outranks_data(delete, data_sequence_number) {
                push_delete(&mut applicable, delete);
            }
            i += 1;
        }
        assert(all.take(i as int) =~= all);
        applicable
    }
}

/// Whether a delete is younger than the data. Without a data sequence number nothing shows that
/// it is not.
pub open spec fn outranks(delete: IcebergDeleteFile, data_sequence_number: Option<i64>) -> bool {
    match data_sequence_number {
        Some(sequence) => delete.data_sequence_number > sequence,
        None => true,
    }
}

pub open spec fn outranking(data_sequence_number: Option<i64>) -> spec_fn(IcebergDeleteFile) -> bool {
    |delete: IcebergDeleteFile| outranks(delete, data_sequence_number)
}

/// Whether a delete can remove a row of a data file at all: only where its sequence number is
/// strictly greater.
pub fn delete_outranks_data(delete: &IcebergDeleteFile, data_sequence_number: Option<i64>) -> (outranks_: bool)
    ensures
        outranks_ == outranks(*delete, data_sequence_number),
{
    match data_sequence_number {
        Some(sequence) => delete.data_sequence_number > sequence,
        None => true,
    }
}

/// Whether the positions that a delete names all lie beyond a data file. A file without a counted
/// row gives the bounds nothing to be compared against.
pub open spec fn beyond_file(delete: IcebergDeleteFile, file_record_count: i64) -> bool {
    &&& file_record_count > 0
    &&& delete.row_position_lower_bound is Some
    &&& delete.row_position_lower_bound->0 >= file_record_count
}

/// Whether the row-position bounds of a delete prove that it names no row of a data file. Bounds
/// remove work only; they never delete a row.
pub fn row_position_bounds_exclude_file(delete: &IcebergDeleteFile, file_record_count: i64) -> (excluded: bool)
    ensures
        excluded == beyond_file(*delete, file_record_count),
{
    if file_record_count <= 0 {
        return false;
    }
    match delete.row_position_lower_bound {
        Some(lower) => lower >= file_record_count,
        None => false,
    }
}

pub open spec fn applicable_position(file_record_count: i64, data_sequence_number: Option<i64>) -> spec_fn(IcebergDeleteFile) -> bool {
    |delete: IcebergDeleteFile|
        outranks(delete, data_sequence_number) && !beyond_file(delete, file_record_count)
}

/// A delete of the same sequence number as the data, or of a lower one, never applies.
pub proof fn law_only_younger_deletes_apply(delete: IcebergDeleteFile, sequence: i64, file_record_count: i64)
    requires
        delete.data_sequence_number <= sequence,
    ensures
        !outranks(delete, Some(sequence)),
        !applicable_position(file_record_count, Some(sequence))(delete),
{
}

// ---------------------------------------------------------------------------
// Equality keys
// ---------------------------------------------------------------------------

/// The ids of the top-level fields of a schema.
pub open spec fn top_level_ids(schema: Schema) -> Seq<i32> {
    schema.fields@.map_values(|field: NestedField| field.id)
}

/// The first place of a top-level field at or after `from`.
pub open spec fn top_level_place(schema: Schema, id: i32, from: nat) -> Option<nat>
    decreases schema.fields@.len() - from,
{
    if from >= schema.fields@.len() {
        None
    } else if schema.fields@[from as int].id == id {
        Some(from)
    } else {
        top_level_place(schema, id, from + 1)
    }
}

proof fn lemma_top_level_place(schema: Schema, id: i32, from: nat)
    ensures
        match top_level_place(schema, id, from) {
            Some(at) => from <= at < schema.fields@.len() && schema.fields@[at as int].id == id
                && forall|k: int| from <= k < at ==> (#[trigger] schema.fields@[k]).id != id,
            None => forall|k: int| from <= k < schema.fields@.len() ==> (#[trigger] schema.fields@[k]).id != id,
        },
    decreases schema.fields@.len() - from,
{
    if from < schema.fields@.len() && schema.fields@[from as int].id != id {
        lemma_top_level_place(schema, id, from + 1);
    }
}

/// The place of a top-level field.
pub fn top_level_schema_position(table_schema: &Schema, field_id: i32) -> (position: Result<usize, ConnectorError>)
    ensures
        match top_level_place(*table_schema, field_id, 0) {
            Some(at) => position is Ok && position->Ok_0 == at && at < table_schema.fields@.len() && table_schema.fields@[at as int].id == field_id,
            None => position == Err::<usize, ConnectorError>(
                ConnectorError::Corrupt(CorruptData::FieldNotTopLevel),
            ),
        },
{
    let mut i: usize = 0;
    while i < table_schema.fields.len()
        invariant
            i <= table_schema.fields.len(),
            top_level_place(*table_schema, field_id, 0) == top_level_place(
                *table_schema,
                field_id,
                i as nat,
            ),
        decreases table_schema.fields.len() - i,
    {
        if table_schema.fields[i].id == field_id {
            return Ok(i);
        }
        i += 1;
    }
    Err(ConnectorError::Corrupt(CorruptData::FieldNotTopLevel))
}

/// The first fault of the ids of an equality delete.
pub open spec fn key_fault(schema: Schema, ids: Seq<i32>, n: nat) -> Option<ConnectorError>
    decreases n,
{
    if n == 0 || n > ids.len() {
        None
    } else {
        let before = key_fault(schema, ids, (n - 1) as nat);
        if before is Some {
            before
        } else if top_level_place(schema, ids[n - 1], 0) is None {
            Some(ConnectorError::Corrupt(CorruptData::EqualityFieldNotTopLevel))
        } else if ids.take(n - 1).contains(ids[n - 1]) {
            Some(ConnectorError::Corrupt(CorruptData::DuplicateEqualityFieldId))
        } else {
            None
        }
    }
}

proof fn lemma_key_fault_stays(schema: Schema, ids: Seq<i32>, n: nat)
    requires
        n <= ids.len(),
        key_fault(schema, ids, n) is Some,
    ensures
        key_fault(schema, ids, ids.len()) == key_fault(schema, ids, n),
    decreases ids.len() - n,
{
    if n < ids.len() {
        lemma_key_fault_stays(schema, ids, n + 1);
    }
}

/// Those of the first `n` top-level ids that a list names, each once, in schema order.
pub open spec fn schema_ordered(top: Seq<i32>, ids: Seq<i32>, n: nat) -> Seq<i32>
    decreases n,
{
    if n == 0 || n > top.len() {
        seq![]
    } else {
        let before = schema_ordered(top, ids, (n - 1) as nat);
        if ids.contains(top[n - 1]) && !before.contains(top[n - 1]) {
            before.push(top[n - 1])
        } else {
            before
        }
    }
}

/// The key of an equality delete: its ids in schema order.
pub open spec fn equality_key(schema: Schema, ids: Seq<i32>) -> Seq<i32> {
    schema_ordered(top_level_ids(schema), ids, top_level_ids(schema).len())
}

fn in_order(table_schema: &Schema, ids: &Vec<i32>) -> (ordered: Vec<i32>)
    ensures
        ordered@ == equality_key(*table_schema, ids@),
{
    let ghost top = top_level_ids(*table_schema);
    let mut ordered: Vec<i32> = Vec::new();
    let mut i: usize = 0;
    while i < table_schema.fields.len()
        invariant
            i <= table_schema.fields.len(),
            top == top_level_ids(*table_schema),
            ordered@ == schema_ordered(top, ids@, i as nat),
        decreases table_schema.fields.len() - i,
    {
        let id: i32 = table_schema.fields[i].id;
        assert(top[i as int] == id);
        if contains_id(ids, id) && !contains_id(&ordered, id) {
            ordered.push(id);
        }
        i += 1;
    }
    ordered
}

/// The ids of an equality delete in schema order: the key is the same whichever order a writer
/// recorded them in.
pub fn schema_ordered_equality_key(delete: &IcebergDeleteFile, table_schema: &Schema) -> (key: Result<Vec<i32>, ConnectorError>)
    ensures
        match key {
            Ok(ids) => key_fault(
                *table_schema,
                delete.equality_field_ids@,
                delete.equality_field_ids@.len(),
            ) is None && ids@ == equality_key(*table_schema, delete.equality_field_ids@),
            Err(error) => key_fault(
                *table_schema,
                delete.equality_field_ids@,
                delete.equality_field_ids@.len(),
            ) == Some(error),
        },
{
    let ids = &delete.equality_field_ids;
    let mut seen: Vec<i32> = Vec::new();
    let mut i: usize = 0;
    assert(seen@ =~= ids@.take(0));
    while i < ids.len()
        invariant
            i <= ids.len(),
            ids@ == delete.equality_field_ids@,
            seen@ == ids@.take(i as int),
            key_fault(*table_schema, ids@, i as nat) is None,
        decreases ids.len() - i,
    {
        let id: i32 = ids[i];
        if top_level_schema_position(table_schema, id).is_err() {
            proof {
                lemma_key_fault_stays(*table_schema, ids@, (i + 1) as nat);
            }
            return Err(ConnectorError::Corrupt(CorruptData::EqualityFieldNotTopLevel));
        }
        if contains_id(&seen, id) {
            proof {
                lemma_key_fault_stays(*table_schema, ids@, (i + 1) as nat);
            }
            return Err(ConnectorError::Corrupt(CorruptData::DuplicateEqualityFieldId));
        }
        seen.push(id);
        assert(ids@.take(i + 1) =~= ids@.take(i as int).push(id));
        i += 1;
    }
    Ok(in_order(table_schema, ids))
}

/// Two deletes that name the same fields have the same key, whatever order they list them in.
pub proof fn law_equality_key_ignores_listing_order(top: Seq<i32>, left: Seq<i32>, right: Seq<i32>, n: nat)
    requires
        forall|id: i32| #[trigger] left.contains(id) <==> right.contains(id),
    ensures
        schema_ordered(top, left, n) == schema_ordered(top, right, n),
    decreases n,
{
    if n > 0 && n <= top.len() {
        law_equality_key_ignores_listing_order(top, left, right, (n - 1) as nat);
        assert(left.contains(top[n - 1]) <==> right.contains(top[n - 1]));
    }
}

/// Whether one key comes before another, id by id.
pub open spec fn key_before(left: Seq<i32>, right: Seq<i32>) -> bool
    decreases left.len(),
{
    if right.len() == 0 {
        false
    } else if left.len() == 0 {
        true
    } else if left[0] != right[0] {
        left[0] < right[0]
    } else {
        key_before(left.drop_first(), right.drop_first())
    }
}

fn is_key_before(left: &Vec<i32>, right: &Vec<i32>) -> (before: bool)
    ensures
        before == key_before(left@, right@),
{
    let mut i: usize = 0;
    assert(left@.skip(0) =~= left@);
    assert(right@.skip(0) =~= right@);
    while i < left.len() && i < right.len()
        invariant
            i <= left.len(),
            i <= right.len(),
            key_before(left@, right@) == key_before(left@.skip(i as int), right@.skip(i as int)),
        decreases left.len() - i,
    {
        proof {
            assert(left@.skip(i as int)[0] == left@[i as int]);
            assert(right@.skip(i as int)[0] == right@[i as int]);
            assert(left@.skip(i as int).drop_first() =~= left@.skip(i + 1));
            assert(right@.skip(i as int).drop_first() =~= right@.skip(i + 1));
        }
        if left[i] != right[i] {
            return left[i] < right[i];
        }
        i += 1;
    }
    i < right.len()
}

fn same_key(left: &Vec<i32>, right: &Vec<i32>) -> (same: bool)
    ensures
        same == (left@ == right@),
{
    if left.len() != right.len() {
        return false;
    }
    let mut i: usize = 0;
    while i < left.len()
        invariant
            i <= left.len(),
            left.len() == right.len(),
            forall|k: int| 0 <= k < i ==> left@[k] == right@[k],
        decreases left.len() - i,
    {
        if left[i] != right[i] {
            return false;
        }
        i += 1;
    }
    assert(left@ =~= right@);
    true
}

/// The equality deletes of one key, in the order they came in.
pub struct EqualityGroup<'a> {
    pub key: Vec<i32>,
    pub deletes: Vec<&'a IcebergDeleteFile>,
}

/// [`EqualityGroup`] as a mathematical value.
pub struct GroupModel {
    pub key: Seq<i32>,
    pub deletes: Seq<IcebergDeleteFile>,
}

impl<'a> EqualityGroup<'a> {
    pub open spec fn model(self) -> GroupModel {
        GroupModel { key: self.key@, deletes: referred(self.deletes@) }
    }
}

/// The models of a list of groups.
pub open spec fn group_models(groups: Seq<EqualityGroup>) -> Seq<GroupModel> {
    groups.map_values(|group: EqualityGroup| group.model())
}

/// Groups in key order with one more delete.
pub open spec fn with_delete(groups: Seq<GroupModel>, key: Seq<i32>, delete: IcebergDeleteFile) -> Seq<GroupModel>
    decreases groups.len(),
{
    if groups.len() == 0 || key_before(groups.last().key, key) {
        groups.push(GroupModel { key, deletes: seq![delete] })
    } else if groups.last().key == key {
        groups.drop_last().push(GroupModel { key, deletes: groups.last().deletes.push(delete) })
    } else {
        with_delete(groups.drop_last(), key, delete).push(groups.last())
    }
}

/// The groups of the first `n` deletes, or the first fault of a key.
pub open spec fn grouped(schema: Schema, deletes: Seq<IcebergDeleteFile>, n: nat) -> Result<Seq<GroupModel>, ConnectorError>
    decreases n,
{
    if n == 0 || n > deletes.len() {
        Ok(seq![])
    } else {
        match grouped(schema, deletes, (n - 1) as nat) {
            Err(error) => Err(error),
            Ok(before) => {
                let ids = deletes[n - 1].equality_field_ids@;
                match key_fault(schema, ids, ids.len()) {
                    Some(error) => Err(error),
                    None => Ok(with_delete(before, equality_key(schema, ids), deletes[n - 1])),
                }
            },
        }
    }
}

proof fn lemma_grouped_error(schema: Schema, deletes: Seq<IcebergDeleteFile>, n: nat)
    requires
        n <= deletes.len(),
        grouped(schema, deletes, n) is Err,
    ensures
        grouped(schema, deletes, deletes.len()) == grouped(schema, deletes, n),
    decreases deletes.len() - n,
{
    if n < deletes.len() {
        lemma_grouped_error(schema, deletes, n + 1);
    }
}

fn group_delete<'a>(groups: &mut Vec<EqualityGroup<'a>>, key: Vec<i32>, delete: &'a IcebergDeleteFile)
    ensures
        group_models(final(groups)@) == with_delete(group_models(old(groups)@), key@, *delete),
{
    let ghost before = group_models(groups@);
    let ghost start = groups@;
    let mut at: usize = groups.len();
    assert(before.take(at as int) =~= before);
    assert(with_delete(before, key@, *delete) =~= with_delete(before.take(at as int), key@, *delete)
        + before.skip(at as int));
    while at > 0 && !is_key_before(&groups[at - 1].key, &key) && !same_key(&groups[at - 1].key, &key)
        invariant
            at <= groups.len(),
            groups@ == start,
            before == group_models(start),
            with_delete(before, key@, *delete) == with_delete(
                before.take(at as int),
                key@,
                *delete,
            ) + before.skip(at as int),
        decreases at,
    {
        proof {
            assert(before.take(at as int).drop_last() =~= before.take(at - 1));
            assert(before.take(at as int).last() == before[at - 1]);
            assert(before[at - 1] == start[at - 1].model());
            let inner = with_delete(before.take(at - 1), key@, *delete);
            assert(inner.push(before[at - 1]) + before.skip(at as int) =~= inner + before.skip(
                at - 1,
            ));
        }
        at -= 1;
    }
    proof {
        if at > 0 {
            assert(before.take(at as int).last() == before[at - 1]);
            assert(before[at - 1] == start[at - 1].model());
        }
    }
    if at > 0 && !is_key_before(&groups[at - 1].key, &key) {
        let mut group = groups.remove(at - 1);
        let ghost old_group = group;
        push_delete(&mut group.deletes, delete);
        let ghost updated = group.model();
        proof {
            assert(old_group == start[at - 1]);
            assert(updated == GroupModel { key: key@, deletes: before[at - 1].deletes.push(*delete) });
        }
        let ghost stored = group;
        groups.insert(at - 1, group);
        proof {
            assert(groups@ =~= start.update(at - 1, stored));
            assert(group_models(groups@) =~= before.take(at as int).drop_last().push(updated)
                + before.skip(at as int));
        }
    } else {
        let mut deletes = new_deletes();
        push_delete(&mut deletes, delete);
        let group = EqualityGroup { key, deletes };
        let ghost added = group.model();
        let ghost stored = group;
        proof {
            assert(added.deletes =~= seq![*delete]);
        }
        groups.insert(at, group);
        proof {
            assert(groups@ =~= start.insert(at as int, stored));
            assert(group_models(groups@) =~= before.take(at as int).push(added) + before.skip(
                at as int,
            ));
        }
    }
}

/// Group equality deletes by their keys, in key order.
pub fn equality_groups_in_schema_order<'a>(deletes: &Vec<&'a IcebergDeleteFile>, table_schema: &Schema) -> (groups: Result<Vec<EqualityGroup<'a>>, ConnectorError>)
    ensures
        match grouped(*table_schema, referred(deletes@), deletes@.len()) {
            Ok(models) => groups is Ok && group_models(groups->Ok_0@) == models,
            Err(error) => groups == Err::<Vec<EqualityGroup<'a>>, ConnectorError>(error),
        },
{
    let ghost all = referred(deletes@);
    let mut groups: Vec<EqualityGroup<'a>> = Vec::new();
    let mut i: usize = 0;
    assert(group_models(groups@) =~= Seq::<GroupModel>::empty());
    while i < deletes.len()
        invariant
            i <= deletes.len(),
            all == referred(deletes@),
            grouped(*table_schema, all, i as nat) == Ok::<Seq<GroupModel>, ConnectorError>(
                group_models(groups@),
            ),
        decreases deletes.len() - i,
    {
        let delete: &'a IcebergDeleteFile = deletes[i];
        assert(all[i as int] == *delete);
        match schema_ordered_equality_key(delete, table_schema) {
            Ok(key) => group_delete(&mut groups, key, delete),
            Err(error) => {
                proof {
                    lemma_grouped_error(*table_schema, all, (i + 1) as nat);
                }
                return Err(error);
            },
        }
        i += 1;
    }
    Ok(groups)
}

/// The hidden columns of an equality key.
pub fn equality_columns(equality_field_ids: &Vec<i32>, table_schema: &Schema) -> (columns: Result<Vec<IcebergColumnHandle>, ConnectorError>)
    ensures
        match columns {
            Ok(columns) => columns@.len() == equality_field_ids@.len() && forall|i: int|
                0 <= i < columns@.len() ==> {
                    let place = top_level_place(*table_schema, equality_field_ids@[i], 0);
                    place is Some && (#[trigger] columns@[i]).model() == base_handle(
                        table_schema.fields@[place->0 as int].model(),
                    )
                },
            Err(error) => error == ConnectorError::Corrupt(CorruptData::FieldNotTopLevel)
                && exists|i: int|
                0 <= i < equality_field_ids@.len() && top_level_place(
                    *table_schema,
                    #[trigger] equality_field_ids@[i],
                    0,
                ) is None,
        },
{
    let mut columns: Vec<IcebergColumnHandle> = Vec::new();
    let mut i: usize = 0;
    while i < equality_field_ids.len()
        invariant
            i <= equality_field_ids.len(),
            columns@.len() == i,
            forall|k: int|
                0 <= k < i ==> {
                    let place = top_level_place(*table_schema, equality_field_ids@[k], 0);
                    place is Some && (#[trigger] columns@[k]).model() == base_handle(
                        table_schema.fields@[place->0 as int].model(),
                    )
                },
        decreases equality_field_ids.len() - i,
    {
        match top_level_schema_position(table_schema, equality_field_ids[i]) {
            Ok(at) => columns.push(IcebergColumnHandle::base_column(&table_schema.fields[at])),
            Err(error) => {
                assert(top_level_place(*table_schema, equality_field_ids@[i as int], 0) is None);
                return Err(error);
            },
        }
        i += 1;
    }
    Ok(columns)
}

// ---------------------------------------------------------------------------
// The gated closure
// ---------------------------------------------------------------------------

/// What of a closure applies to a data file.
pub struct GatedClosure<'a> {
    pub position_files: Vec<&'a IcebergDeleteFile>,
    pub equality_groups: Vec<EqualityGroup<'a>>,
}

/// What of a list of deletes applies to the data file of a split, or why it is no closure. An
/// equality delete without a data sequence number to outrank is corrupt.
pub open spec fn gated(split: IcebergSplit, deletes: Seq<IcebergDeleteFile>, schema: Schema) -> Result<(Seq<IcebergDeleteFile>, Seq<GroupModel>), ConnectorError> {
    if closure_fault(deletes) is Some {
        Err(closure_fault(deletes)->0)
    } else if deletes.filter(is_equality_file()).len() > 0 && split.data_sequence_number is None {
        Err(ConnectorError::Corrupt(CorruptData::DataSequenceMissing))
    } else {
        let positions = (deletes.filter(is_position_file()) + deletes.filter(
            is_deletion_vector(),
        )).filter(applicable_position(split.file_record_count, split.data_sequence_number));
        let equality = deletes.filter(is_equality_file()).filter(
            outranking(split.data_sequence_number),
        );
        match grouped(schema, equality, equality.len()) {
            Err(error) => Err(error),
            Ok(groups) => Ok((positions, groups)),
        }
    }
}

impl<'a> GatedClosure<'a> {
    /// Classify and gate the deletes of a split.
    pub fn of(split: &IcebergSplit, deletes: &'a [IcebergDeleteFile], table_schema: &Schema) -> (closure: Result<GatedClosure<'a>, ConnectorError>)
        ensures
            match gated(*split, deletes@, *table_schema) {
                Ok((positions, groups)) => closure is Ok && referred(closure->Ok_0.position_files@)
                    == positions && group_models(closure->Ok_0.equality_groups@) == groups,
                Err(error) => closure == Err::<GatedClosure<'a>, ConnectorError>(error),
            },
    {
        let closure = match DeleteClosure::classify(deletes) {
            Ok(closure) => closure,
            Err(error) => return Err(error),
        };
        if closure.equality_files.len() > 0 && split.data_sequence_number.is_none() {
            assert(referred(closure.equality_files@).len() > 0);
            return Err(ConnectorError::Corrupt(CorruptData::DataSequenceMissing));
        }
        assert(referred(closure.equality_files@).len() == closure.equality_files@.len());
        let applicable = closure.applicable_equality_deletes(split.data_sequence_number);
        assert(referred(applicable@).len() == applicable@.len());
        match equality_groups_in_schema_order(&applicable, table_schema) {
            Ok(equality_groups) => Ok(
                GatedClosure {
                    position_files: closure.applicable_position_deletes(
                        split.file_record_count,
                        split.data_sequence_number,
                    ),
                    equality_groups,
                },
            ),
            Err(error) => Err(error),
        }
    }
}

// ---------------------------------------------------------------------------
// Cost
// ---------------------------------------------------------------------------

/// Whether a delete has a format that can be opened.
pub open spec fn openable(delete: IcebergDeleteFile) -> bool {
    delete.format == IcebergFileFormat::Parquet || delete.format == IcebergFileFormat::Puffin
}

/// The sizes of a list of delete files; a size that is not positive adds nothing.
pub open spec fn delete_sizes(deletes: Seq<IcebergDeleteFile>) -> Seq<int> {
    deletes.map_values(
        |delete: IcebergDeleteFile|
            if delete.file_size_in_bytes > 0 {
                delete.file_size_in_bytes as int
            } else {
                0
            },
    )
}

/// Why opening a list of deletes is refused, where it is.
pub open spec fn cost_fault(deletes: Seq<IcebergDeleteFile>) -> Option<ConnectorError> {
    if exists|i: int| 0 <= i < deletes.len() && !openable(#[trigger] deletes[i]) {
        Some(ConnectorError::Unsupported(UnsupportedFeature::DeleteFormat))
    } else if deletes.len() > MAX_DELETE_FILES {
        Some(ConnectorError::Exhausted(ResourceLimit::DeleteFiles))
    } else if total(delete_sizes(deletes)) > MAX_DELETE_BYTES {
        Some(ConnectorError::Exhausted(ResourceLimit::DeleteBytes))
    } else {
        None
    }
}

fn first_unopenable(deletes: &[IcebergDeleteFile]) -> (found: bool)
    ensures
        found == exists|i: int| 0 <= i < deletes@.len() && !openable(#[trigger] deletes@[i]),
{
    let mut i: usize = 0;
    while i < deletes.len()
        invariant
            i <= deletes.len(),
            forall|k: int| 0 <= k < i ==> openable(#[trigger] deletes@[k]),
        decreases deletes.len() - i,
    {
        match deletes[i].format {
            IcebergFileFormat::Parquet | IcebergFileFormat::Puffin => {},
            IcebergFileFormat::Orc | IcebergFileFormat::Avro => {
                assert(!openable(deletes@[i as int]));
                return true;
            },
        }
        i += 1;
    }
    false
}

fn bounded_bytes(bytes: u64, deletes: &[IcebergDeleteFile]) -> (sum: u64)
    requires
        bytes <= MAX_DELETE_BYTES + 1,
    ensures
        bytes + total(delete_sizes(deletes@)) <= MAX_DELETE_BYTES ==> sum == bytes + total(
            delete_sizes(deletes@),
        ),
        bytes + total(delete_sizes(deletes@)) > MAX_DELETE_BYTES ==> sum == MAX_DELETE_BYTES + 1,
{
    let ghost sizes = delete_sizes(deletes@);
    let mut sum: u64 = bytes;
    let mut i: usize = 0;
    assert(sizes.take(0) =~= Seq::<int>::empty());
    if sum > MAX_DELETE_BYTES {
        sum = MAX_DELETE_BYTES + 1;
    }
    while i < deletes.len()
        invariant
            i <= deletes.len(),
            sizes == delete_sizes(deletes@),
            sum <= MAX_DELETE_BYTES + 1,
            bytes + total(sizes.take(i as int)) <= MAX_DELETE_BYTES ==> sum == bytes + total(
                sizes.take(i as int),
            ),
            bytes + total(sizes.take(i as int)) > MAX_DELETE_BYTES ==> sum == MAX_DELETE_BYTES + 1,
        decreases deletes.len() - i,
    {
        let size: i64 = deletes[i].file_size_in_bytes;
        proof {
            assert(sizes[i as int] >= 0);
            assert(sizes.take(i + 1) =~= sizes.take(i as int).push(sizes[i as int]));
            crate::seqs::lemma_total_push(sizes.take(i as int), sizes[i as int]);
        }
        if size > 0 {
            if size as u64 > MAX_DELETE_BYTES || sum + size as u64 > MAX_DELETE_BYTES {
                sum = MAX_DELETE_BYTES + 1;
            } else {
                sum = sum + size as u64;
            }
        }
        i += 1;
    }
    assert(sizes.take(i as int) =~= sizes);
    sum
}

proof fn lemma_total_sizes_append(left: Seq<IcebergDeleteFile>, right: Seq<IcebergDeleteFile>)
    ensures
        total(delete_sizes(left + right)) == total(delete_sizes(left)) + total(delete_sizes(right)),
        total(delete_sizes(left)) >= 0,
    decreases right.len(),
{
    crate::seqs::lemma_total_non_negative(delete_sizes(left));
    if right.len() == 0 {
        assert(left + right =~= left);
    } else {
        lemma_total_sizes_append(left, right.drop_last());
        assert(delete_sizes(left + right).drop_last() =~= delete_sizes(left + right.drop_last()));
        assert(delete_sizes(right).drop_last() =~= delete_sizes(right.drop_last()));
        assert(delete_sizes(left + right).last() == delete_sizes(right).last());
    }
}

/// Bound what one split opens. Both sides of a change window count together: they are opened in
/// one read.
pub fn validate_split_delete_cost(applied: &[IcebergDeleteFile], previously_applied: &[IcebergDeleteFile]) -> (result: Result<(), ConnectorError>)
    ensures
        result == (match cost_fault(applied@ + previously_applied@) {
            Some(error) => Err(error),
            None => Ok(()),
        }),
{
    let ghost all = applied@ + previously_applied@;
    if first_unopenable(applied) {
        proof {
            let i = choose|i: int| 0 <= i < applied@.len() && !openable(#[trigger] applied@[i]);
            assert(!openable(all[i]));
        }
        return Err(ConnectorError::Unsupported(UnsupportedFeature::DeleteFormat));
    }
    if first_unopenable(previously_applied) {
        proof {
            let i = choose|i: int|
                0 <= i < previously_applied@.len() && !openable(#[trigger] previously_applied@[i]);
            assert(!openable(all[applied@.len() + i]));
        }
        return Err(ConnectorError::Unsupported(UnsupportedFeature::DeleteFormat));
    }
    proof {
        assert forall|i: int| 0 <= i < all.len() implies openable(#[trigger] all[i]) by {
            if i < applied@.len() {
                assert(openable(applied@[i]));
            } else {
                assert(openable(previously_applied@[i - applied@.len()]));
            }
        }
        lemma_total_sizes_append(applied@, previously_applied@);
    }
    if applied.len() > MAX_DELETE_FILES || previously_applied.len() > MAX_DELETE_FILES
        || applied.len() + previously_applied.len() > MAX_DELETE_FILES {
        return Err(ConnectorError::Exhausted(ResourceLimit::DeleteFiles));
    }
    proof {
        crate::seqs::lemma_total_non_negative(delete_sizes(previously_applied@));
    }
    let first: u64 = bounded_bytes(0, applied);
    let sum: u64 = bounded_bytes(first, previously_applied);
    if sum > MAX_DELETE_BYTES {
        return Err(ConnectorError::Exhausted(ResourceLimit::DeleteBytes));
    }
    Ok(())
}

/// How a delete file is read.
pub struct IcebergDeleteFileSpec {
    pub path: String,
    pub file_format: IcebergFileFormat,
    pub file_content: IcebergDeleteFileContent,
    pub length: Option<u64>,
    pub content_offset: Option<i64>,
    pub content_size_in_bytes: Option<i64>,
    pub referenced_data_file: Option<String>,
}

/// Project a delete onto what its reader needs.
pub fn physical_delete_spec(delete: &IcebergDeleteFile) -> (spec: Result<IcebergDeleteFileSpec, ConnectorError>)
    ensures
        match spec {
            Ok(spec) => {
                &&& delete.file_size_in_bytes >= 0
                &&& openable(*delete)
                &&& spec.path@ == delete.path@
                &&& spec.file_format == delete.format
                &&& spec.file_content == delete.content
                &&& spec.length is Some && spec.length->0 == delete.file_size_in_bytes
                &&& spec.content_offset == delete.content_offset
                &&& spec.content_size_in_bytes == delete.content_size_in_bytes
                &&& text_model(spec.referenced_data_file) == text_model(
                    delete.referenced_data_file,
                )
            },
            Err(error) => if delete.file_size_in_bytes < 0 {
                error == ConnectorError::Corrupt(CorruptData::NegativeDeleteSize)
            } else {
                !openable(*delete) && error == ConnectorError::Unsupported(
                    UnsupportedFeature::DeleteFormat,
                )
            },
        },
{
    if delete.file_size_in_bytes < 0 {
        return Err(ConnectorError::Corrupt(CorruptData::NegativeDeleteSize));
    }
    match delete.format {
        IcebergFileFormat::Parquet | IcebergFileFormat::Puffin => {},
        IcebergFileFormat::Orc | IcebergFileFormat::Avro => return Err(
            ConnectorError::Unsupported(UnsupportedFeature::DeleteFormat),
        ),
    }
    Ok(
        IcebergDeleteFileSpec {
            path: delete.path.clone(),
            file_format: delete.format,
            file_content: delete.content,
            length: Some(delete.file_size_in_bytes as u64),
            content_offset: delete.content_offset,
            content_size_in_bytes: delete.content_size_in_bytes,
            referenced_data_file: duplicate_text(&delete.referenced_data_file),
        },
    )
}

} // verus!
