//! The row verdict of one split.

use std::sync::Arc;

use vstd::prelude::*;

use roaring::RoaringTreemap;

use crate::column_handle::IcebergColumnHandle;
use crate::error::{ConnectorError, CorruptData, InternalFault};
use crate::positions::{contains_position, has_no_position, positions_of};
use crate::split::IcebergDeleteFile;

verus! {

/// One equality-delete file after decoding.
pub struct LoadedEqualityDelete {
    pub path: String,
    pub data_sequence_number: i64,
    /// Which of the program's decoded key sets holds its keys.
    pub key_set: u64,
}

/// An equality-delete file decodes into exactly one key set.
pub fn loaded_equality_delete(delete: &IcebergDeleteFile, sets: &Vec<u64>) -> (loaded: Result<LoadedEqualityDelete, ConnectorError>)
    ensures
        match loaded {
            Ok(loaded) => {
                &&& sets@.len() == 1
                &&& loaded.path@ == delete.path@
                &&& loaded.data_sequence_number == delete.data_sequence_number
                &&& loaded.key_set == sets@[0]
            },
            Err(error) => sets@.len() != 1 && error == ConnectorError::Corrupt(
                CorruptData::EqualityKeySets,
            ),
        },
{
    if sets.len() != 1 {
        return Err(ConnectorError::Corrupt(CorruptData::EqualityKeySets));
    }
    Ok(
        LoadedEqualityDelete {
            path: delete.path.clone(),
            data_sequence_number: delete.data_sequence_number,
            key_set: sets[0],
        },
    )
}

/// The loaded deletes of one side.
pub struct ResolvedDeletes {
    pub deleted_positions: Arc<RoaringTreemap>,
    pub equality: Vec<LoadedEqualityDelete>,
}

impl ResolvedDeletes {
    /// The positions that the side deletes.
    pub open spec fn positions(self) -> Set<u64> {
        positions_of(*self.deleted_positions)
    }

    pub open spec fn nothing(self) -> bool {
        self.positions() == Set::<u64>::empty() && self.equality@.len() == 0
    }

    pub fn is_empty(&self) -> (empty: bool)
        ensures
            empty == self.nothing(),
    {
        has_no_position(&self.deleted_positions) && self.equality.len() == 0
    }

    pub fn names_position(&self, position: u64) -> (named: bool)
        ensures
            named == self.positions().contains(position),
    {
        contains_position(&self.deleted_positions, position)
    }
}

/// The rows that a change window removed from a data file.
pub enum SelectedRows {
    WholeFile,
    NamedBy(ResolvedDeletes),
}

/// What the loaded deletes mean for a row.
pub enum FilterVerdict {
    ExcludeDeleted(ResolvedDeletes),
    EqualityMatchOnly(ResolvedDeletes),
    SelectRemovedRows { selected: SelectedRows, previously_applied: ResolvedDeletes },
}

/// What one equality delete says of the rows of a page.
pub enum EqualityMask {
    /// The delete could not be applied to the page.
    Failed,
    /// The delete has no key, so it removes nothing.
    Absent,
    /// For each row, whether the delete leaves it.
    Keep(Vec<bool>),
}

/// Why masks are no verdict on `rows` rows: the first fault among the first `n`.
pub open spec fn mask_fault(masks: Seq<EqualityMask>, rows: nat, n: nat) -> Option<ConnectorError>
    decreases n,
{
    if n == 0 || n > masks.len() {
        None
    } else {
        let before = mask_fault(masks, rows, (n - 1) as nat);
        if before is Some {
            before
        } else {
            match masks[n - 1] {
                EqualityMask::Failed => Some(
                    ConnectorError::Corrupt(CorruptData::EqualityDeleteNotApplied),
                ),
                EqualityMask::Absent => None,
                EqualityMask::Keep(keep) => if keep@.len() != rows {
                    Some(ConnectorError::Corrupt(CorruptData::EqualityVerdictLength))
                } else {
                    None
                },
            }
        }
    }
}

/// Whether one of the first `n` masks removes a row.
pub open spec fn removed_by(masks: Seq<EqualityMask>, row: int, n: nat) -> bool
    decreases n,
{
    if n == 0 || n > masks.len() {
        false
    } else {
        removed_by(masks, row, (n - 1) as nat) || match masks[n - 1] {
            EqualityMask::Keep(keep) => !keep@[row],
            _ => false,
        }
    }
}

/// Whether an equality delete removes a row.
pub open spec fn equality_removes(masks: Seq<EqualityMask>, row: int) -> bool {
    removed_by(masks, row, masks.len())
}

proof fn lemma_mask_fault_stays(masks: Seq<EqualityMask>, rows: nat, n: nat)
    requires
        n <= masks.len(),
        mask_fault(masks, rows, n) is Some,
    ensures
        mask_fault(masks, rows, masks.len()) == mask_fault(masks, rows, n),
    decreases masks.len() - n,
{
    if n < masks.len() {
        lemma_mask_fault_stays(masks, rows, n + 1);
    }
}

/// Which rows at least one equality delete removes.
pub fn equality_verdict(rows: usize, masks: &Vec<EqualityMask>) -> (deleted: Result<Vec<bool>, ConnectorError>)
    ensures
        match deleted {
            Ok(deleted) => {
                &&& mask_fault(masks@, rows as nat, masks@.len()) is None
                &&& deleted@.len() == rows
                &&& forall|row: int|
                    0 <= row < rows ==> #[trigger] deleted@[row] == equality_removes(masks@, row)
            },
            Err(error) => mask_fault(masks@, rows as nat, masks@.len()) == Some(error),
        },
{
    let mut deleted: Vec<bool> = Vec::new();
    let mut filled: usize = 0;
    while filled < rows
        invariant
            filled <= rows,
            deleted@.len() == filled,
            forall|row: int| 0 <= row < filled ==> !(#[trigger] deleted@[row]),
        decreases rows - filled,
    {
        deleted.push(false);
        filled += 1;
    }
    let mut i: usize = 0;
    while i < masks.len()
        invariant
            i <= masks.len(),
            mask_fault(masks@, rows as nat, i as nat) is None,
            deleted@.len() == rows,
            forall|row: int|
                0 <= row < rows ==> #[trigger] deleted@[row] == removed_by(masks@, row, i as nat),
        decreases masks.len() - i,
    {
        match &masks[i] {
            EqualityMask::Failed => {
                proof {
                    lemma_mask_fault_stays(masks@, rows as nat, (i + 1) as nat);
                }
                return Err(ConnectorError::Corrupt(CorruptData::EqualityDeleteNotApplied));
            },
            EqualityMask::Absent => {},
            EqualityMask::Keep(keep) => {
                if keep.len() != rows {
                    proof {
                        lemma_mask_fault_stays(masks@, rows as nat, (i + 1) as nat);
                    }
                    return Err(ConnectorError::Corrupt(CorruptData::EqualityVerdictLength));
                }
                let mut row: usize = 0;
                while row < rows
                    invariant
                        row <= rows,
                        keep@.len() == rows,
                        i < masks@.len(),
                        masks@[i as int] == EqualityMask::Keep(*keep),
                        deleted@.len() == rows,
                        forall|k: int|
                            0 <= k < row ==> #[trigger] deleted@[k] == removed_by(
                                masks@,
                                k,
                                (i + 1) as nat,
                            ),
                        forall|k: int|
                            row <= k < rows ==> #[trigger] deleted@[k] == removed_by(
                                masks@,
                                k,
                                i as nat,
                            ),
                    decreases rows - row,
                {
                    let removed = deleted[row] || !keep[row];
                    deleted.set(row, removed);
                    row += 1;
                }
            },
        }
        i += 1;
    }
    Ok(deleted)
}

/// The row verdict of one split.
pub struct SplitDeleteFilter {
    pub verdict: FilterVerdict,
    pub data_file_path: String,
    /// The columns that the page source must read in addition, in schema order.
    pub hidden_columns: Vec<IcebergColumnHandle>,
}

/// The masks of the equality deletes of a filter for one page.
pub struct PageMasks {
    /// Of the deletes that the filter applies, or that name the removed rows.
    pub applied: Vec<EqualityMask>,
    /// Of the deletes that applied before.
    pub previously: Vec<EqualityMask>,
}

/// Whether a verdict keeps a row, given its position and what the equality deletes say of it.
pub open spec fn keeps_row(verdict: FilterVerdict, position: u64, applied: bool, previously: bool) -> bool {
    match verdict {
        FilterVerdict::ExcludeDeleted(deletes) => !deletes.positions().contains(position)
            && !applied,
        FilterVerdict::EqualityMatchOnly(deletes) => !deletes.positions().contains(position)
            && applied,
        FilterVerdict::SelectRemovedRows { selected, previously_applied } => {
            let named = match selected {
                SelectedRows::WholeFile => true,
                SelectedRows::NamedBy(newly) => newly.positions().contains(position) || applied,
            };
            named && !previously_applied.positions().contains(position) && !previously
        },
    }
}

/// Whether there is one mask for each equality delete that a verdict looks at.
pub open spec fn masks_fit(verdict: FilterVerdict, masks: PageMasks) -> bool {
    match verdict {
        FilterVerdict::ExcludeDeleted(deletes) => masks.applied@.len() == deletes.equality@.len(),
        FilterVerdict::EqualityMatchOnly(deletes) => masks.applied@.len()
            == deletes.equality@.len(),
        FilterVerdict::SelectRemovedRows { selected, previously_applied } => {
            &&& masks.previously@.len() == previously_applied.equality@.len()
            &&& match selected {
                SelectedRows::WholeFile => true,
                SelectedRows::NamedBy(newly) => masks.applied@.len() == newly.equality@.len(),
            }
        },
    }
}

fn has_fitting_masks(verdict: &FilterVerdict, masks: &PageMasks) -> (fits: bool)
    ensures
        fits == masks_fit(*verdict, *masks),
{
    match verdict {
        FilterVerdict::ExcludeDeleted(deletes) => masks.applied.len() == deletes.equality.len(),
        FilterVerdict::EqualityMatchOnly(deletes) => masks.applied.len() == deletes.equality.len(),
        FilterVerdict::SelectRemovedRows { selected, previously_applied } => masks.previously.len()
            == previously_applied.equality.len() && match selected {
            SelectedRows::WholeFile => true,
            SelectedRows::NamedBy(newly) => masks.applied.len() == newly.equality.len(),
        },
    }
}

/// Why a page cannot be judged.
pub open spec fn page_fault(verdict: FilterVerdict, rows: nat, positions: Seq<Option<u64>>, masks: PageMasks) -> Option<ConnectorError> {
    if positions.len() != rows {
        Some(ConnectorError::Corrupt(CorruptData::PositionCount))
    } else if rows == 0 {
        None
    } else if exists|row: int| 0 <= row < rows && #[trigger] positions[row] is None {
        Some(ConnectorError::Corrupt(CorruptData::PositionMissing))
    } else if !masks_fit(verdict, masks) {
        Some(ConnectorError::Internal(InternalFault::EqualityMaskCount))
    } else {
        match verdict {
            FilterVerdict::SelectRemovedRows { selected, .. } => {
                let before = mask_fault(masks.previously@, rows, masks.previously@.len());
                if before is Some {
                    before
                } else if selected is WholeFile {
                    None
                } else {
                    mask_fault(masks.applied@, rows, masks.applied@.len())
                }
            },
            _ => mask_fault(masks.applied@, rows, masks.applied@.len()),
        }
    }
}

impl SplitDeleteFilter {
    /// The columns that the page source must read so that equality deletes can be judged.
    pub fn required_hidden_columns(&self) -> (columns: &Vec<IcebergColumnHandle>)
        ensures
            *columns == self.hidden_columns,
    {
        &self.hidden_columns
    }

    pub open spec fn filters_nothing(self) -> bool {
        match self.verdict {
            FilterVerdict::ExcludeDeleted(applied) => applied.nothing(),
            FilterVerdict::EqualityMatchOnly(_) => false,
            FilterVerdict::SelectRemovedRows { selected, previously_applied } => match selected {
                SelectedRows::WholeFile => previously_applied.nothing(),
                SelectedRows::NamedBy(_) => false,
            },
        }
    }

    /// Whether the split has nothing to filter. A filter that selects is never empty: without a
    /// delete it keeps nothing, not everything.
    pub fn is_empty(&self) -> (empty: bool)
        ensures
            empty == self.filters_nothing(),
    {
        match &self.verdict {
            FilterVerdict::ExcludeDeleted(applied) => applied.is_empty(),
            FilterVerdict::EqualityMatchOnly(_) => false,
            FilterVerdict::SelectRemovedRows { selected, previously_applied } => match selected {
                SelectedRows::WholeFile => previously_applied.is_empty(),
                SelectedRows::NamedBy(_) => false,
            },
        }
    }

    /// Decide which rows of a page survive. Each row has its position in the data file; `masks`
    /// says what the equality deletes make of the page.
    pub fn evaluate(&self, rows: usize, absolute_positions: &Vec<Option<u64>>, masks: &PageMasks) -> (keep: Result<Vec<bool>, ConnectorError>)
        ensures
            match keep {
                Ok(keep) => {
                    &&& page_fault(self.verdict, rows as nat, absolute_positions@, *masks) is None
                    &&& keep@.len() == rows
                    &&& forall|row: int|
                        0 <= row < rows ==> #[trigger] keep@[row] == keeps_row(
                            self.verdict,
                            absolute_positions@[row]->0,
                            equality_removes(masks.applied@, row),
                            equality_removes(masks.previously@, row),
                        )
                },
                Err(error) => page_fault(
                    self.verdict,
                    rows as nat,
                    absolute_positions@,
                    *masks,
                ) == Some(error),
            },
    {
        if absolute_positions.len() != rows {
            return Err(ConnectorError::Corrupt(CorruptData::PositionCount));
        }
        if rows == 0 {
            return Ok(Vec::new());
        }
        let mut checked: usize = 0;
        while checked < rows
            invariant
                checked <= rows,
                rows > 0,
                absolute_positions@.len() == rows,
                forall|row: int| 0 <= row < checked ==> #[trigger] absolute_positions@[row] is Some,
            decreases rows - checked,
        {
            if absolute_positions[checked].is_none() {
                assert(absolute_positions@[checked as int] is None);
                return Err(ConnectorError::Corrupt(CorruptData::PositionMissing));
            }
            checked += 1;
        }
        if !has_fitting_masks(&self.verdict, masks) {
            return Err(ConnectorError::Internal(InternalFault::EqualityMaskCount));
        }
        let previously: Option<Vec<bool>> = match &self.verdict {
            FilterVerdict::SelectRemovedRows { selected: _, previously_applied: _ } => {
                match equality_verdict(rows, &masks.previously) {
                    Ok(deleted) => Some(deleted),
                    Err(error) => return Err(error),
                }
            },
            _ => None,
        };
        let needs_applied = match &self.verdict {
            FilterVerdict::SelectRemovedRows { selected, previously_applied: _ } => match selected {
                SelectedRows::WholeFile => false,
                SelectedRows::NamedBy(_) => true,
            },
            _ => true,
        };
        let applied: Option<Vec<bool>> = if needs_applied {
            match equality_verdict(rows, &masks.applied) {
                Ok(deleted) => Some(deleted),
                Err(error) => return Err(error),
            }
        } else {
            None
        };
        let mut keep: Vec<bool> = Vec::new();
        let mut row: usize = 0;
        while row < rows
            invariant
                row <= rows,
                absolute_positions@.len() == rows,
                forall|k: int| 0 <= k < rows ==> #[trigger] absolute_positions@[k] is Some,
                needs_applied == !(self.verdict is SelectRemovedRows && (
                self.verdict->selected) is WholeFile),
                applied is Some ==> applied->0@.len() == rows,
                previously is Some ==> previously->0@.len() == rows,
                needs_applied ==> applied is Some && forall|k: int|
                    0 <= k < rows ==> #[trigger] applied->0@[k] == equality_removes(
                        masks.applied@,
                        k,
                    ),
                self.verdict is SelectRemovedRows ==> previously is Some && forall|k: int|
                    0 <= k < rows ==> #[trigger] previously->0@[k] == equality_removes(
                        masks.previously@,
                        k,
                    ),
                keep@.len() == row,
                forall|k: int|
                    0 <= k < row ==> #[trigger] keep@[k] == keeps_row(
                        self.verdict,
                        absolute_positions@[k]->0,
                        equality_removes(masks.applied@, k),
                        equality_removes(masks.previously@, k),
                    ),
            decreases rows - row,
        {
            assert(absolute_positions@[row as int] is Some);
            let position: u64 = match absolute_positions[row] {
                Some(position) => position,
                None => 0,
            };
            let removed_now = match &applied {
                Some(deleted) => deleted[row],
                None => false,
            };
            let removed_before = match &previously {
                Some(deleted) => deleted[row],
                None => false,
            };
            let kept = match &self.verdict {
                FilterVerdict::ExcludeDeleted(deletes) => !deletes.names_position(position)
                    && !removed_now,
                FilterVerdict::EqualityMatchOnly(deletes) => !deletes.names_position(position)
                    && removed_now,
                FilterVerdict::SelectRemovedRows { selected, previously_applied } => {
                    let named = match selected {
                        SelectedRows::WholeFile => true,
                        SelectedRows::NamedBy(newly) => newly.names_position(position)
                            || removed_now,
                    };
                    named && !previously_applied.names_position(position) && !removed_before
                },
            };
            keep.push(kept);
            row += 1;
        }
        Ok(keep)
    }
}

// ---------------------------------------------------------------------------
// What the verdicts keep between them
// ---------------------------------------------------------------------------

/// The rows of an ordinary read and those of an equality match are disjoint, and together they are
/// the rows that no position delete names.
pub proof fn law_exclusion_and_match_partition_the_rows(deletes: ResolvedDeletes, position: u64, applied: bool, previously: bool)
    ensures
        ({
            let excluded = keeps_row(
                FilterVerdict::ExcludeDeleted(deletes),
                position,
                applied,
                previously,
            );
            let matched = keeps_row(
                FilterVerdict::EqualityMatchOnly(deletes),
                position,
                applied,
                previously,
            );
            &&& !(excluded && matched)
            &&& (excluded || matched) <==> !deletes.positions().contains(position)
        }),
{
}

/// A change window removes exactly the rows that were visible at its lower endpoint and are hidden
/// at its upper one.
pub proof fn law_removed_rows_are_lower_minus_upper(
    newly: ResolvedDeletes,
    before: ResolvedDeletes,
    position: u64,
    newly_matched: bool,
    before_matched: bool,
)
    ensures
        keeps_row(
            FilterVerdict::SelectRemovedRows {
                selected: SelectedRows::NamedBy(newly),
                previously_applied: before,
            },
            position,
            newly_matched,
            before_matched,
        ) <==> keeps_row(FilterVerdict::ExcludeDeleted(before), position, before_matched, false)
            && !keeps_row(FilterVerdict::ExcludeDeleted(newly), position, newly_matched, false),
{
}

/// Of a file that is gone at the upper endpoint, a change window removes exactly the rows that
/// were visible at the lower one.
pub proof fn law_whole_file_removal_is_what_was_visible(before: ResolvedDeletes, position: u64, newly_matched: bool, before_matched: bool)
    ensures
        keeps_row(
            FilterVerdict::SelectRemovedRows {
                selected: SelectedRows::WholeFile,
                previously_applied: before,
            },
            position,
            newly_matched,
            before_matched,
        ) <==> keeps_row(FilterVerdict::ExcludeDeleted(before), position, before_matched, false),
{
}

/// A filter that calls itself empty keeps every row of every page that it can judge.
pub proof fn law_empty_filter_keeps_every_row(
    filter: SplitDeleteFilter,
    rows: nat,
    positions: Seq<Option<u64>>,
    masks: PageMasks,
    row: int,
)
    requires
        filter.filters_nothing(),
        page_fault(filter.verdict, rows, positions, masks) is None,
        0 <= row < rows,
    ensures
        keeps_row(
            filter.verdict,
            positions[row]->0,
            equality_removes(masks.applied@, row),
            equality_removes(masks.previously@, row),
        ),
{
}

/// A filter that selects rows never calls itself empty, and where its deletes name nothing it keeps
/// no row of any page that it can judge.
pub proof fn law_selecting_filters_are_never_empty(
    filter: SplitDeleteFilter,
    rows: nat,
    positions: Seq<Option<u64>>,
    masks: PageMasks,
    row: int,
)
    requires
        selecting_deletes(filter.verdict) is Some,
    ensures
        !filter.filters_nothing(),
        selecting_deletes(filter.verdict)->0.nothing() && page_fault(
            filter.verdict,
            rows,
            positions,
            masks,
        ) is None && 0 <= row < rows ==> !keeps_row(
            filter.verdict,
            positions[row]->0,
            equality_removes(masks.applied@, row),
            equality_removes(masks.previously@, row),
        ),
{
}

/// The deletes by which a verdict selects rows, where it selects any.
pub open spec fn selecting_deletes(verdict: FilterVerdict) -> Option<ResolvedDeletes> {
    match verdict {
        FilterVerdict::ExcludeDeleted(_) => None,
        FilterVerdict::EqualityMatchOnly(deletes) => Some(deletes),
        FilterVerdict::SelectRemovedRows { selected: SelectedRows::WholeFile, .. } => None,
        FilterVerdict::SelectRemovedRows { selected: SelectedRows::NamedBy(newly), .. } => Some(
            newly,
        ),
    }
}

} // verus!
