//! What the pages of a split return of the rows of its file.

use vstd::prelude::*;

use crate::carrier::{DataTypeModel, TimeUnit};
use crate::column::{CellModel, Column, ColumnModel};
use crate::column_handle::{ColumnHandleModel, IcebergColumnHandle};
use crate::delete_filter::{
    equality_removes, keeps_row, mask_fault, page_fault, removed_by, EqualityMask, FilterVerdict, PageMasks,
    ResolvedDeletes, SelectedRows, SplitDeleteFilter,
};
use crate::domain::{
    row_in_domain, value_at, ConnectorValueModel, ConnectorValueType, Domain, Memberships,
};
use crate::error::ConnectorError;
use crate::page_source::{channel_of, checked_columns, page_keeps, positions_verdict, predicate_checks, selects, source_checks, split_fault, FileBatch, IcebergParquetPageSource};
use crate::positions::positions_of;
use crate::split::{IcebergFileFormat, IcebergSplit, ParquetFileDecryptionData};

verus! {

// ---------------------------------------------------------------------------
// The remaining predicate
// ---------------------------------------------------------------------------

proof fn lemma_channel_of(handles: Seq<ColumnHandleModel>, column: ColumnHandleModel, from: nat)
    ensures
        match channel_of(handles, column, from) {
            Some(at) => from <= at < handles.len() && handles[at as int] == column && forall|k: int|
                from <= k < at ==> #[trigger] handles[k] != column,
            None => forall|k: int| from <= k < handles.len() ==> #[trigger] handles[k] != column,
        },
    decreases handles.len() - from,
{
    if from < handles.len() && handles[from as int] != column {
        lemma_channel_of(handles, column, from + 1);
    }
}

proof fn lemma_predicate_checks(handles: Seq<ColumnHandleModel>, domains: Seq<(IcebergColumnHandle, Domain)>, n: nat)
    requires
        n <= domains.len(),
        handles.len() <= usize::MAX,
    ensures
        predicate_checks(handles, domains, n) is Ok <==> forall|i: int|
            0 <= i < n ==> handles.contains((#[trigger] domains[i]).0.model()),
        predicate_checks(handles, domains, n) is Ok ==> {
            let checks = predicate_checks(handles, domains, n)->Ok_0;
            &&& checks.len() == n
            &&& forall|i: int|
                0 <= i < n ==> (#[trigger] checks[i]).domain == domains[i].1 && checks[i].channel
                    < handles.len() && handles[checks[i].channel as int] == domains[i].0.model()
        },
    decreases n,
{
    if n > 0 {
        lemma_predicate_checks(handles, domains, (n - 1) as nat);
        let column = domains[n - 1].0.model();
        lemma_channel_of(handles, column, 0);
        match channel_of(handles, column, 0) {
            Some(at) => {
                assert(handles[at as int] == column);
                if predicate_checks(handles, domains, (n - 1) as nat) is Ok {
                    let before = predicate_checks(handles, domains, (n - 1) as nat)->Ok_0;
                    let checks = predicate_checks(handles, domains, n)->Ok_0;
                    assert forall|i: int| 0 <= i < n implies (#[trigger] checks[i]).domain == domains[i].1
                        && checks[i].channel < handles.len() && handles[checks[i].channel as int]
                        == domains[i].0.model() by {
                        if i < n - 1 {
                            assert(checks[i] == before[i]);
                        }
                    }
                }
            },
            None => {
                assert(!handles.contains(column));
                assert(!handles.contains(domains[n - 1].0.model()));
            },
        }
    }
}

/// A predicate is checked domain by domain: there is one check for each, in order, with its domain,
/// on a channel that carries its column. Checks are refused exactly where some column is on no
/// channel, or where the predicate admits no row at all.
pub proof fn law_every_domain_is_checked(handles: Seq<ColumnHandleModel>, domains: Option<Vec<(IcebergColumnHandle, Domain)>>)
    requires
        handles.len() <= usize::MAX,
    ensures
        source_checks(handles, domains) is Ok <==> domains is Some && forall|i: int|
            0 <= i < (domains->0)@.len() ==> handles.contains((#[trigger] (domains->0)@[i]).0.model()),
        source_checks(handles, domains) is Ok ==> {
            let checks = source_checks(handles, domains)->Ok_0;
            &&& checks.len() == (domains->0)@.len()
            &&& forall|i: int|
                0 <= i < checks.len() ==> (#[trigger] checks[i]).domain == (domains->0)@[i].1
                    && checks[i].channel < handles.len() && handles[checks[i].channel as int] == (
                domains->0)@[i].0.model()
        },
{
    if domains is Some {
        lemma_predicate_checks(handles, (domains->0)@, (domains->0)@.len());
    }
}

/// A row is in a domain where it is null and the domain admits nulls, or where its value is one of
/// the domain's value set.
pub proof fn law_a_row_is_in_a_domain_by_its_value(
    data_type: DataTypeModel,
    cells: Seq<CellModel>,
    domain: Domain,
    memberships: Seq<Result<bool, ConnectorError>>,
    row: int,
)
    ensures
        ({
            let column = ColumnModel::Flat { data_type, cells };
            let verdict = row_in_domain(column, domain, memberships, row);
            &&& cells[row] == CellModel::Null ==> verdict == Ok::<bool, ConnectorError>(
                domain.null_allowed,
            )
            &&& cells[row] != CellModel::Null && verdict == Ok::<bool, ConnectorError>(true)
                ==> memberships[row] == Ok::<bool, ConnectorError>(true)
            &&& cells[row] != CellModel::Null && verdict == Ok::<bool, ConnectorError>(false)
                ==> memberships[row] == Ok::<bool, ConnectorError>(false)
            &&& cells[row] != CellModel::Null && memberships[row] is Err ==> verdict is Err
        }),
{
}

/// A value is read as it stands in its cell, in the type of its domain.
pub proof fn law_values_are_read_as_they_stand(cell: CellModel, precision: u8, scale: i8, width: u32, zone: Option<Seq<char>>)
    ensures
        cell matches CellModel::Int64(v) ==> {
            &&& value_at(ColumnModel::Flat { data_type: DataTypeModel::Int64, cells: seq![cell] }, ConnectorValueType::BigInt, 0)
                == Ok::<ConnectorValueModel, ConnectorError>(ConnectorValueModel::BigInt(v))
            &&& value_at(ColumnModel::Flat { data_type: DataTypeModel::Timestamp(TimeUnit::Microsecond, zone), cells: seq![cell] }, ConnectorValueType::TimestampMicros, 0)
                == Ok::<ConnectorValueModel, ConnectorError>(ConnectorValueModel::TimestampMicros(v))
            &&& value_at(ColumnModel::Flat { data_type: DataTypeModel::Timestamp(TimeUnit::Microsecond, zone), cells: seq![cell] }, ConnectorValueType::TimestampTzMicros, 0)
                == Ok::<ConnectorValueModel, ConnectorError>(ConnectorValueModel::TimestampTzMicros(v))
            &&& value_at(ColumnModel::Flat { data_type: DataTypeModel::Timestamp(TimeUnit::Nanosecond, zone), cells: seq![cell] }, ConnectorValueType::TimestampNanos, 0)
                == Ok::<ConnectorValueModel, ConnectorError>(ConnectorValueModel::TimestampNanos(v))
            &&& value_at(ColumnModel::Flat { data_type: DataTypeModel::Timestamp(TimeUnit::Nanosecond, zone), cells: seq![cell] }, ConnectorValueType::TimestampTzNanos, 0)
                == Ok::<ConnectorValueModel, ConnectorError>(ConnectorValueModel::TimestampTzNanos(v))
            &&& value_at(ColumnModel::Flat { data_type: DataTypeModel::Time64(TimeUnit::Microsecond), cells: seq![cell] }, ConnectorValueType::TimeMicros, 0)
                == Ok::<ConnectorValueModel, ConnectorError>(ConnectorValueModel::TimeMicros(v))
        },
        cell matches CellModel::Int32(v) ==> {
            &&& value_at(ColumnModel::Flat { data_type: DataTypeModel::Int32, cells: seq![cell] }, ConnectorValueType::Integer, 0)
                == Ok::<ConnectorValueModel, ConnectorError>(ConnectorValueModel::Integer(v))
            &&& value_at(ColumnModel::Flat { data_type: DataTypeModel::Date32, cells: seq![cell] }, ConnectorValueType::Date, 0)
                == Ok::<ConnectorValueModel, ConnectorError>(ConnectorValueModel::Date(v))
        },
        cell matches CellModel::Boolean(v) ==> value_at(ColumnModel::Flat { data_type: DataTypeModel::Boolean, cells: seq![cell] }, ConnectorValueType::Boolean, 0)
            == Ok::<ConnectorValueModel, ConnectorError>(ConnectorValueModel::Boolean(v)),
        cell matches CellModel::Float32(v) ==> value_at(ColumnModel::Flat { data_type: DataTypeModel::Float32, cells: seq![cell] }, ConnectorValueType::Real, 0)
            == Ok::<ConnectorValueModel, ConnectorError>(ConnectorValueModel::Real(v)),
        cell matches CellModel::Float64(v) ==> value_at(ColumnModel::Flat { data_type: DataTypeModel::Float64, cells: seq![cell] }, ConnectorValueType::Double, 0)
            == Ok::<ConnectorValueModel, ConnectorError>(ConnectorValueModel::Double(v)),
        cell matches CellModel::Text(v) ==> value_at(ColumnModel::Flat { data_type: DataTypeModel::Utf8, cells: seq![cell] }, ConnectorValueType::Varchar, 0)
            == Ok::<ConnectorValueModel, ConnectorError>(ConnectorValueModel::Varchar(v)),
        cell matches CellModel::Bytes(v) ==> value_at(ColumnModel::Flat { data_type: DataTypeModel::Binary, cells: seq![cell] }, ConnectorValueType::Varbinary, 0)
            == Ok::<ConnectorValueModel, ConnectorError>(ConnectorValueModel::Varbinary(v)),
{
}

// ---------------------------------------------------------------------------
// Verdicts
// ---------------------------------------------------------------------------

/// A row is removed by equality deletes exactly where the mask of one of them does not keep it.
pub proof fn law_a_row_is_removed_by_any_mask(masks: Seq<EqualityMask>, row: int)
    ensures
        equality_removes(masks, row) <==> exists|m: int|
            0 <= m < masks.len() && (#[trigger] masks[m] matches EqualityMask::Keep(keep) && !keep@[row]),
{
    lemma_removed_by(masks, row, masks.len());
}

proof fn lemma_removed_by(masks: Seq<EqualityMask>, row: int, n: nat)
    requires
        n <= masks.len(),
    ensures
        removed_by(masks, row, n) <==> exists|m: int|
            0 <= m < n && (#[trigger] masks[m] matches EqualityMask::Keep(keep) && !keep@[row]),
    decreases n,
{
    if n > 0 {
        lemma_removed_by(masks, row, (n - 1) as nat);
        if removed_by(masks, row, (n - 1) as nat) {
            let m = choose|m: int|
                0 <= m < n - 1 && (#[trigger] masks[m] matches EqualityMask::Keep(keep) && !keep@[row]);
            assert(masks[m] matches EqualityMask::Keep(keep) && !keep@[row]);
        }
        if exists|m: int|
            0 <= m < n && (#[trigger] masks[m] matches EqualityMask::Keep(keep) && !keep@[row]) {
            let m = choose|m: int|
                0 <= m < n && (#[trigger] masks[m] matches EqualityMask::Keep(keep) && !keep@[row]);
            if m < n - 1 {
                assert(masks[m] matches EqualityMask::Keep(keep) && !keep@[row]);
            }
        } else {
            assert(!(masks[n - 1] matches EqualityMask::Keep(keep) && !keep@[row]));
        }
    }
}

/// Masks judge a page exactly where each was applied and says something of every row.
pub proof fn law_masks_have_to_cover_the_page(masks: Seq<EqualityMask>, rows: nat)
    ensures
        mask_fault(masks, rows, masks.len()) is None <==> forall|m: int|
            0 <= m < masks.len() ==> !((#[trigger] masks[m]) is Failed) && (masks[m] matches EqualityMask::Keep(
                keep,
            ) ==> keep@.len() == rows),
{
    lemma_mask_fault(masks, rows, masks.len());
}

proof fn lemma_mask_fault(masks: Seq<EqualityMask>, rows: nat, n: nat)
    requires
        n <= masks.len(),
    ensures
        mask_fault(masks, rows, n) is None <==> forall|m: int|
            0 <= m < n ==> !((#[trigger] masks[m]) is Failed) && (masks[m] matches EqualityMask::Keep(
                keep,
            ) ==> keep@.len() == rows),
    decreases n,
{
    if n > 0 {
        lemma_mask_fault(masks, rows, (n - 1) as nat);
        assert(masks[n - 1] == masks[n - 1]);
    }
}

/// What each verdict keeps of a row, given the set of positions that its deletes name and whether
/// an equality delete matched the row.
pub proof fn law_verdicts_keep_by_position_and_match(
    deletes: ResolvedDeletes,
    before: ResolvedDeletes,
    position: u64,
    matched: bool,
    matched_before: bool,
)
    ensures
        ({
            let named = positions_of(*deletes.deleted_positions).contains(position) || matched;
            let gone = positions_of(*before.deleted_positions).contains(position) || matched_before;
            &&& keeps_row(FilterVerdict::ExcludeDeleted(deletes), position, matched, matched_before) == !named
            &&& keeps_row(FilterVerdict::EqualityMatchOnly(deletes), position, matched, matched_before) == (
            matched && !positions_of(*deletes.deleted_positions).contains(position))
            &&& keeps_row(
                FilterVerdict::SelectRemovedRows {
                    selected: SelectedRows::NamedBy(deletes),
                    previously_applied: before,
                },
                position,
                matched,
                matched_before,
            ) == (named && !gone)
            &&& keeps_row(
                FilterVerdict::SelectRemovedRows {
                    selected: SelectedRows::WholeFile,
                    previously_applied: before,
                },
                position,
                matched,
                matched_before,
            ) == !gone
        }),
{
}

/// An ordinary read judges a page that has a position for each row and a whole mask for each of its
/// equality deletes, and no other.
pub proof fn law_judged_pages_have_every_position_and_mask(deletes: ResolvedDeletes, rows: nat, positions: Seq<Option<u64>>, masks: PageMasks)
    requires
        rows > 0,
    ensures
        page_fault(FilterVerdict::ExcludeDeleted(deletes), rows, positions, masks) is None <==> {
            &&& positions.len() == rows
            &&& forall|row: int| 0 <= row < rows ==> (#[trigger] positions[row]) is Some
            &&& masks.applied@.len() == deletes.equality@.len()
            &&& forall|m: int|
                0 <= m < masks.applied@.len() ==> !((#[trigger] masks.applied@[m]) is Failed) && (
                masks.applied@[m] matches EqualityMask::Keep(keep) ==> keep@.len() == rows)
        },
{
    law_masks_have_to_cover_the_page(masks.applied@, rows);
}

/// A filter is empty only where it can remove no row: an ordinary read without a position and
/// without an equality delete, or a whole file of which nothing was removed before.
pub proof fn law_only_filters_of_nothing_are_empty(filter: SplitDeleteFilter)
    ensures
        filter.filters_nothing() <==> match filter.verdict {
            FilterVerdict::ExcludeDeleted(deletes) => positions_of(*deletes.deleted_positions)
                == Set::<u64>::empty() && deletes.equality@.len() == 0,
            FilterVerdict::EqualityMatchOnly(_) => false,
            FilterVerdict::SelectRemovedRows { selected: SelectedRows::WholeFile, previously_applied } => positions_of(
                *previously_applied.deleted_positions,
            ) == Set::<u64>::empty() && previously_applied.equality@.len() == 0,
            FilterVerdict::SelectRemovedRows { selected: SelectedRows::NamedBy(_), .. } => false,
        },
{
}

/// The rows that a page returns of an ordinary read: a row is on the page exactly where no position
/// delete names its position, no equality delete matches it, and it is in every domain of the
/// predicate, by its own value in the column of that domain.
pub proof fn law_a_page_returns_exactly_what_it_should(
    filter: SplitDeleteFilter,
    deletes: ResolvedDeletes,
    batch: FileBatch,
    masks: PageMasks,
    handles: Seq<ColumnHandleModel>,
    domains: Vec<(IcebergColumnHandle, Domain)>,
    page: Seq<Column>,
    memberships: Seq<Memberships>,
    row: int,
)
    requires
        filter.verdict == FilterVerdict::ExcludeDeleted(deletes),
        batch.positions is Some,
        (batch.positions->0)@.len() == batch.rows,
        masks.applied@.len() == deletes.equality@.len(),
        handles.len() == page.len(),
        page.len() <= usize::MAX,
        memberships.len() == domains@.len(),
        0 <= row < batch.rows,
        forall|i: int|
            0 <= i < domains@.len() ==> handles.contains((#[trigger] domains@[i]).0.model()),
    ensures
        ({
            let checks = source_checks(handles, Some(domains))->Ok_0;
            let kept = page_keeps(
                filter,
                batch,
                masks,
                checks,
                checked_columns(checks, page, memberships),
                row,
            );
            &&& kept ==> !positions_of(*deletes.deleted_positions).contains(
                (batch.positions->0)@[row]->0,
            )
            &&& kept ==> forall|m: int|
                0 <= m < masks.applied@.len() ==> (#[trigger] masks.applied@[m] matches EqualityMask::Keep(
                    keep,
                ) ==> keep@[row])
            &&& kept ==> forall|i: int|
                0 <= i < domains@.len() ==> exists|c: int|
                    0 <= c < handles.len() && handles[c] == (#[trigger] domains@[i]).0.model()
                        && row_in_domain(
                        (#[trigger] page[c]).model(),
                        domains@[i].1,
                        memberships[i]@,
                        row,
                    ) == Ok::<bool, ConnectorError>(true)
            &&& (!positions_of(*deletes.deleted_positions).contains((batch.positions->0)@[row]->0)
                && (forall|m: int|
                0 <= m < masks.applied@.len() ==> (#[trigger] masks.applied@[m] matches EqualityMask::Keep(
                    keep,
                ) ==> keep@[row])) && (forall|i: int, c: int|
                0 <= i < domains@.len() && 0 <= c < handles.len() && handles[c] == (
                #[trigger] domains@[i]).0.model() ==> row_in_domain(
                    (#[trigger] page[c]).model(),
                    domains@[i].1,
                    memberships[i]@,
                    row,
                ) == Ok::<bool, ConnectorError>(true))) ==> kept
        }),
{
    law_every_domain_is_checked(handles, Some(domains));
    law_a_row_is_removed_by_any_mask(masks.applied@, row);
    let checks = source_checks(handles, Some(domains))->Ok_0;
    let checked = checked_columns(checks, page, memberships);
    let kept = page_keeps(filter, batch, masks, checks, checked, row);
    let position = (batch.positions->0)@[row]->0;
    if filter.filters_nothing() {
        assert(!deletes.positions().contains(position));
        assert(masks.applied@.len() == 0);
    }
    if kept {
        assert forall|i: int| 0 <= i < domains@.len() implies exists|c: int|
            0 <= c < handles.len() && handles[c] == (#[trigger] domains@[i]).0.model() && row_in_domain(
                (#[trigger] page[c]).model(),
                domains@[i].1,
                memberships[i]@,
                row,
            ) == Ok::<bool, ConnectorError>(true) by {
            let c = checks[i].channel as int;
            assert(handles[c] == domains@[i].0.model());
            assert(row_in_domain(page[c].model(), domains@[i].1, memberships[i]@, row) == Ok::<
                bool,
                ConnectorError,
            >(true));
        }
    }
    let set = deletes.positions();
    if !set.contains(position) && (forall|m: int|
        0 <= m < masks.applied@.len() ==> (#[trigger] masks.applied@[m] matches EqualityMask::Keep(keep)
            ==> keep@[row])) && (forall|i: int, c: int|
        0 <= i < domains@.len() && 0 <= c < handles.len() && handles[c] == (
        #[trigger] domains@[i]).0.model() ==> row_in_domain(
            (#[trigger] page[c]).model(),
            domains@[i].1,
            memberships[i]@,
            row,
        ) == Ok::<bool, ConnectorError>(true)) {
        assert forall|c: int| 0 <= c < checks.len() implies crate::page_source::check_row(
            #[trigger] checks[c],
            checked[c],
            row,
        ) == Ok::<bool, ConnectorError>(true) by {
            let at = checks[c].channel as int;
            assert(domains@[c].0.model() == handles[at]);
            assert(page[at] == page[at]);
        }
    }
}

/// The rows of a page are those that are kept, each once and in the order of the file.
pub proof fn law_selected_rows_are_the_kept_ones(selected: Seq<usize>, keep: Seq<bool>, row: usize)
    requires
        selects(selected, keep),
        keep.len() <= usize::MAX,
    ensures
        selected.contains(row) <==> row < keep.len() && keep[row as int],
        forall|i: int, j: int| 0 <= i < j < selected.len() ==> selected[i] < selected[j],
{
    if selected.contains(row) {
        let i = choose|i: int| 0 <= i < selected.len() && selected[i] == row;
        assert(selected[i] < keep.len() && keep[selected[i] as int]);
    }
    if row < keep.len() && keep[row as int] {
        assert(selected.contains((row as int) as usize));
    }
}

// ---------------------------------------------------------------------------
// Positions and admission
// ---------------------------------------------------------------------------

/// A batch is taken exactly where its positions are all there, do not run backwards, begin behind
/// what was read and stay within the records of the file; the window then ends behind its last
/// position.
pub proof fn law_taken_batches_follow_each_other(
    source: IcebergParquetPageSource,
    required: bool,
    positions: Vec<Option<u64>>,
)
    requires
        positions@.len() > 0,
        source.split.file_record_count >= 0,
    ensures
        ({
            let (fault, window) = positions_verdict(source, required, Some(positions));
            let first = positions@[0]->0;
            let last = positions@[positions@.len() - 1]->0;
            &&& fault is None <==> {
                &&& forall|i: int| 0 <= i < positions@.len() ==> (#[trigger] positions@[i]) is Some
                &&& first <= last
                &&& source.row_window.end_row_position is Some ==> first
                    >= source.row_window.end_row_position->0
                &&& last < source.split.file_record_count
            }
            &&& fault is None ==> window.end_row_position == Some((last + 1) as u64)
            &&& fault is None && source.row_window.start_row_position is None ==> window.start_row_position
                == Some(first)
        }),
{
    assert(positions@[0] == positions@[0]);
}

/// Positions may be missing only where nothing needs them.
pub proof fn law_positions_are_there_where_they_are_needed(source: IcebergParquetPageSource, required: bool)
    ensures
        positions_verdict(source, required, None).0 is None <==> !required,
        positions_verdict(source, required, None).1 == source.row_window,
{
}

/// Whether there is key material at all.
pub open spec fn has_key_material(material: Option<ParquetFileDecryptionData>) -> bool {
    match material {
        Some(held) => held.key_metadata@ != Seq::<u8>::empty() || held.aad_prefix@ != Seq::<u8>::empty(),
        None => false,
    }
}

/// A split is read exactly where its file is Parquet and neither the file nor one of its deletes
/// is encrypted.
pub proof fn law_plain_parquet_splits_are_read(split: IcebergSplit)
    ensures
        split_fault(split) is None <==> {
            &&& split.file_format == IcebergFileFormat::Parquet
            &&& !has_key_material(split.decryption_data)
            &&& forall|i: int|
                0 <= i < split.deletes@.len() ==> !has_key_material(
                    (#[trigger] split.deletes@[i]).decryption_data,
                )
        },
{
    assert forall|material: Option<ParquetFileDecryptionData>| #[trigger]
        has_key_material(material) == crate::page_source::is_encrypted(material) by {
        if let Some(held) = material {
            assert(held.key_metadata@ == Seq::<u8>::empty() <==> held.key_metadata@.len() == 0) by {
                if held.key_metadata@.len() == 0 {
                    assert(held.key_metadata@ =~= Seq::<u8>::empty());
                }
            }
            assert(held.aad_prefix@ == Seq::<u8>::empty() <==> held.aad_prefix@.len() == 0) by {
                if held.aad_prefix@.len() == 0 {
                    assert(held.aad_prefix@ =~= Seq::<u8>::empty());
                }
            }
        }
    }
}

} // verus!
