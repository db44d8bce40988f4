//! The window of absolute row positions that a split has read.
//!
//! A row position is that of the row in its file, from zero: a byte range narrows which row groups
//! are read, never how their rows are numbered.

use vstd::prelude::*;

use crate::error::{ConnectorError, CorruptData};

verus! {

/// The half-open window of absolute row positions that a split has read so far.
#[derive(Clone, Copy, Debug, PartialEq, Eq, Structural)]
pub struct ReaderPageSourceWithRowPositions {
    pub start_row_position: Option<u64>,
    pub end_row_position: Option<u64>,
}

/// Whether each of a list of positions is there.
pub open spec fn all_positions_present(positions: Seq<Option<u64>>) -> bool {
    forall|i: int| 0 <= i < positions.len() ==> #[trigger] positions[i] is Some
}

/// One past a position, or the last position there is.
pub open spec fn position_after(position: u64) -> u64 {
    if position == u64::MAX {
        position
    } else {
        (position + 1) as u64
    }
}

/// The window after one batch, or why the batch cannot follow: a position is missing, the batch
/// runs backwards, or it goes back behind what was read.
pub open spec fn window_after(
    window: ReaderPageSourceWithRowPositions,
    positions: Seq<Option<u64>>,
) -> Result<ReaderPageSourceWithRowPositions, ConnectorError> {
    if positions.len() == 0 {
        Ok(window)
    } else if !all_positions_present(positions) {
        Err(ConnectorError::Corrupt(CorruptData::RowPositionNull))
    } else {
        let first = positions[0]->0;
        let last = positions[positions.len() - 1]->0;
        if last < first {
            Err(ConnectorError::Corrupt(CorruptData::RowPositionsOutOfOrder))
        } else if window.end_row_position is Some && first < window.end_row_position->0 {
            Err(ConnectorError::Corrupt(CorruptData::RowPositionRevisited))
        } else {
            Ok(
                ReaderPageSourceWithRowPositions {
                    start_row_position: if window.start_row_position is None {
                        Some(first)
                    } else {
                        window.start_row_position
                    },
                    end_row_position: Some(position_after(last)),
                },
            )
        }
    }
}

/// Whether a list has a missing position.
pub fn has_missing_position(positions: &Vec<Option<u64>>) -> (missing: bool)
    ensures
        missing == !all_positions_present(positions@),
{
    let mut i: usize = 0;
    while i < positions.len()
        invariant
            i <= positions.len(),
            forall|k: int| 0 <= k < i ==> #[trigger] positions@[k] is Some,
        decreases positions.len() - i,
    {
        if positions[i].is_none() {
            return true;
        }
        i += 1;
    }
    false
}

impl ReaderPageSourceWithRowPositions {
    /// The window of a split of which nothing was read.
    pub fn new() -> (window: ReaderPageSourceWithRowPositions)
        ensures
            window.start_row_position is None,
            window.end_row_position is None,
    {
        ReaderPageSourceWithRowPositions { start_row_position: None, end_row_position: None }
    }

    pub fn end_row_position(&self) -> (end: Option<u64>)
        ensures
            end == self.end_row_position,
    {
        self.end_row_position
    }

    /// Fold the absolute positions of one batch into the window. A batch that cannot follow leaves
    /// the window as it was.
    pub fn observe(&mut self, positions: &Vec<Option<u64>>) -> (result: Result<(), ConnectorError>)
        ensures
            match window_after(*old(self), positions@) {
                Ok(window) => result is Ok && *final(self) == window,
                Err(error) => result == Err::<(), ConnectorError>(error) && *final(self) == *old(
                    self,
                ),
            },
    {
        if positions.len() == 0 {
            return Ok(());
        }
        if has_missing_position(positions) {
            return Err(ConnectorError::Corrupt(CorruptData::RowPositionNull));
        }
        let first: u64 = positions[0].unwrap();
        let last: u64 = positions[positions.len() - 1].unwrap();
        if last < first {
            return Err(ConnectorError::Corrupt(CorruptData::RowPositionsOutOfOrder));
        }
        if let Some(previous_end) = self.end_row_position {
            if first < previous_end {
                return Err(ConnectorError::Corrupt(CorruptData::RowPositionRevisited));
            }
        }
        if self.start_row_position.is_none() {
            self.start_row_position = Some(first);
        }
        self.end_row_position = Some(last.saturating_add(1));
        Ok(())
    }
}

/// The window only grows: once a batch was taken, the start stays, and the next batch that is
/// taken begins behind the last position of the one before. The largest position there is has none
/// behind it.
pub proof fn law_positions_are_never_revisited(
    window: ReaderPageSourceWithRowPositions,
    first: Seq<Option<u64>>,
    second: Seq<Option<u64>>,
)
    requires
        first.len() > 0,
        second.len() > 0,
        first[first.len() - 1]->0 < u64::MAX,
        window_after(window, first) is Ok,
        window_after(window_after(window, first)->Ok_0, second) is Ok,
    ensures
        first[first.len() - 1]->0 < second[0]->0,
        window_after(window_after(window, first)->Ok_0, second)->Ok_0.start_row_position
            == window_after(window, first)->Ok_0.start_row_position,
{
}

} // verus!
