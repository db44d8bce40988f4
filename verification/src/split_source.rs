//! Lazy enumeration of the splits of one pinned snapshot.
//!
//! Every fact that a split needs was frozen when the snapshot was pinned: no data file is opened
//! here, and no catalog is asked.

use std::collections::{BTreeMap, VecDeque};

use vstd::prelude::*;

use crate::column_handle::IcebergColumnHandle;
use crate::error::{ConnectorError, CorruptData, InvalidRequest, UnsupportedFeature};
use crate::partition::{PartitionField, PartitionSpec, TransformResult};
use crate::split::{decryption_model, delete_models, duplicate_decryption, duplicate_deletes, split_models, DeleteFileModel, IcebergDeleteFile, IcebergDeleteFileContent, IcebergFileFormat, IcebergSplit, ParquetFileDecryptionData, SplitModel};
use crate::text::{parse_u64, parsed_u64};
use crate::types::{entry_models, entry_with_id, EntryModel, Schema};

verus! {

/// The target size of a split where neither the session nor the table states one.
pub const DEFAULT_TARGET_SPLIT_SIZE_BYTES: u64 = 134217728;

// ---------------------------------------------------------------------------
// Byte ranges
// ---------------------------------------------------------------------------

/// Whether offsets can bound ranges: they ascend strictly and lie inside the file. The first one
/// need not be zero, as a file's first row group starts after its magic.
pub open spec fn legal_offsets(offsets: Seq<i64>, file_size: i64) -> bool {
    &&& offsets.len() > 0
    &&& offsets[0] >= 0
    &&& forall|i: int| 0 <= i < offsets.len() - 1 ==> (#[trigger] offsets[i]) < offsets[i + 1]
    &&& offsets.last() < file_size
}

pub fn legal_split_offsets(split_offsets: &Vec<i64>, file_size: i64) -> (legal: bool)
    ensures
        legal == legal_offsets(split_offsets@, file_size),
{
    if split_offsets.len() == 0 || split_offsets[0] < 0 {
        return false;
    }
    let mut i: usize = 0;
    while i + 1 < split_offsets.len()
        invariant
            i < split_offsets.len(),
            forall|k: int| 0 <= k < i ==> (#[trigger] split_offsets@[k]) < split_offsets@[k + 1],
        decreases split_offsets.len() - i,
    {
        if split_offsets[i] >= split_offsets[i + 1] {
            assert(!(split_offsets@[i as int] < split_offsets@[i + 1]));
            return false;
        }
        i += 1;
    }
    split_offsets[split_offsets.len() - 1] < file_size
}

/// The ranges between offsets; the last one ends with the file.
pub open spec fn offset_ranges(offsets: Seq<i64>, file_size: i64) -> Seq<(i64, i64)> {
    Seq::new(
        offsets.len(),
        |i: int|
            (
                offsets[i],
                if i + 1 < offsets.len() {
                    (offsets[i + 1] - offsets[i]) as i64
                } else {
                    (file_size - offsets[i]) as i64
                },
            ),
    )
}

/// Ranges of the target size from `start` on; the last one is what is left.
pub open spec fn cut_ranges(start: int, file_size: int, target: int) -> Seq<(i64, i64)>
    decreases file_size - start,
{
    if start >= file_size || target <= 0 {
        seq![]
    } else {
        let left = file_size - start;
        let length = if target < left {
            target
        } else {
            left
        };
        seq![(start as i64, length as i64)] + cut_ranges(start + length, file_size, target)
    }
}

/// The first `n` ranges with adjacent ones merged while the result stays within the target.
pub open spec fn merged_ranges(ranges: Seq<(i64, i64)>, target: i64, n: nat) -> Seq<(i64, i64)>
    decreases n,
{
    if n == 0 || n > ranges.len() {
        seq![]
    } else {
        let before = merged_ranges(ranges, target, (n - 1) as nat);
        let (start, length) = ranges[n - 1];
        if before.len() > 0 && before.last().0 + before.last().1 == start && before.last().1
            + length <= target {
            before.drop_last().push((before.last().0, (before.last().1 + length) as i64))
        } else {
            before.push((start, length))
        }
    }
}

/// Whether every range lies in the address space of a file.
pub open spec fn addressable(ranges: Seq<(i64, i64)>) -> bool {
    forall|i: int|
        0 <= i < ranges.len() ==> (#[trigger] ranges[i]).0 >= 0 && ranges[i].1 >= 0 && ranges[i].0
            + ranges[i].1 <= i64::MAX
}

/// Whether ranges follow each other without a gap from `from` to `to`.
pub open spec fn tiles(ranges: Seq<(i64, i64)>, from: int, to: int) -> bool {
    if ranges.len() == 0 {
        from == to
    } else {
        &&& ranges[0].0 == from
        &&& forall|i: int|
            0 <= i < ranges.len() - 1 ==> (#[trigger] ranges[i]).0 + ranges[i].1 == ranges[i + 1].0
        &&& ranges.last().0 + ranges.last().1 == to
    }
}

proof fn lemma_merged_addressable(ranges: Seq<(i64, i64)>, target: i64, n: nat)
    requires
        addressable(ranges),
        n <= ranges.len(),
    ensures
        addressable(merged_ranges(ranges, target, n)),
        n > 0 ==> merged_ranges(ranges, target, n).len() > 0,
    decreases n,
{
    if n > 0 {
        lemma_merged_addressable(ranges, target, (n - 1) as nat);
        let before = merged_ranges(ranges, target, (n - 1) as nat);
        assert(addressable(seq![ranges[n - 1]]));
        assert(ranges[n - 1].0 >= 0);
        if before.len() > 0 {
            assert(before[before.len() - 1].0 >= 0);
        }
    }
}

/// Whether merging the first `n` ranges adds up no end and no length beyond a signed number.
pub open spec fn merge_fits(ranges: Seq<(i64, i64)>, target: i64, n: nat) -> bool
    decreases n,
{
    if n == 0 || n > ranges.len() {
        true
    } else {
        let before = merged_ranges(ranges, target, (n - 1) as nat);
        let (start, length) = ranges[n - 1];
        let end = before.last().0 + before.last().1;
        &&& merge_fits(ranges, target, (n - 1) as nat)
        &&& before.len() > 0 ==> i64::MIN <= end <= i64::MAX
        &&& before.len() > 0 && end == start ==> i64::MIN <= before.last().1 + length <= i64::MAX
    }
}

proof fn lemma_merge_fits_prefix(ranges: Seq<(i64, i64)>, target: i64, n: nat)
    requires
        n <= ranges.len(),
        merge_fits(ranges, target, ranges.len()),
    ensures
        merge_fits(ranges, target, n),
    decreases ranges.len() - n,
{
    if n < ranges.len() {
        lemma_merge_fits_prefix(ranges, target, n + 1);
    }
}

proof fn lemma_addressable_merge_fits(ranges: Seq<(i64, i64)>, target: i64, n: nat)
    requires
        addressable(ranges),
        n <= ranges.len(),
    ensures
        merge_fits(ranges, target, n),
    decreases n,
{
    if n > 0 {
        lemma_addressable_merge_fits(ranges, target, (n - 1) as nat);
        lemma_merged_addressable(ranges, target, (n - 1) as nat);
        let before = merged_ranges(ranges, target, (n - 1) as nat);
        assert(ranges[n - 1].0 >= 0);
        if before.len() > 0 {
            assert(before[before.len() - 1].0 >= 0);
        }
    }
}

/// Merge adjacent ranges of one file while the result stays within the target.
pub fn merge_adjacent_ranges(ranges: &Vec<(i64, i64)>, target_split_size: i64) -> (merged: Vec<(i64, i64)>)
    requires
        merge_fits(ranges@, target_split_size, ranges@.len()),
    ensures
        merged@ == merged_ranges(ranges@, target_split_size, ranges@.len()),
{
    let mut merged: Vec<(i64, i64)> = Vec::new();
    let mut i: usize = 0;
    while i < ranges.len()
        invariant
            i <= ranges.len(),
            merge_fits(ranges@, target_split_size, ranges@.len()),
            merged@ == merged_ranges(ranges@, target_split_size, i as nat),
        decreases ranges.len() - i,
    {
        let (start, length): (i64, i64) = ranges[i];
        proof {
            lemma_merge_fits_prefix(ranges@, target_split_size, (i + 1) as nat);
        }
        let count: usize = merged.len();
        if count > 0 && merged[count - 1].0 + merged[count - 1].1 == start && merged[count - 1].1
            + length <= target_split_size {
            let (previous_start, previous_length): (i64, i64) = merged[count - 1];
            merged.set(count - 1, (previous_start, previous_length + length));
            assert(merged@ =~= merged_ranges(ranges@, target_split_size, (i + 1) as nat));
        } else {
            merged.push((start, length));
        }
        i += 1;
    }
    merged
}

/// The byte ranges of a file: between its own offsets where those are legal, else cut to the
/// target size. A file without a byte still has one range, so that its rows stay reachable.
pub open spec fn file_ranges(offsets: Seq<i64>, file_size: i64, target: i64, merge: bool) -> Seq<(i64, i64)> {
    if legal_offsets(offsets, file_size) {
        let ranges = offset_ranges(offsets, file_size);
        if merge {
            merged_ranges(ranges, target, ranges.len())
        } else {
            ranges
        }
    } else if file_size <= 0 {
        seq![(0i64, 0i64)]
    } else {
        cut_ranges(0, file_size as int, target as int)
    }
}

pub proof fn lemma_offsets_ascend(offsets: Seq<i64>, file_size: i64, i: int)
    requires
        legal_offsets(offsets, file_size),
        0 <= i < offsets.len(),
    ensures
        0 <= offsets[0] <= offsets[i] <= offsets.last() < file_size,
    decreases i,
{
    lemma_offsets_ascend_up(offsets, i, offsets.len() - 1);
    lemma_offsets_ascend_up(offsets, 0, i);
}

proof fn lemma_offsets_ascend_up(offsets: Seq<i64>, i: int, j: int)
    requires
        0 <= i <= j < offsets.len(),
        forall|k: int| 0 <= k < offsets.len() - 1 ==> (#[trigger] offsets[k]) < offsets[k + 1],
    ensures
        offsets[i] <= offsets[j],
    decreases j - i,
{
    if i < j {
        lemma_offsets_ascend_up(offsets, i, j - 1);
        assert(offsets[j - 1] < offsets[j - 1 + 1]);
    }
}

proof fn lemma_offset_ranges_addressable(offsets: Seq<i64>, file_size: i64)
    requires
        legal_offsets(offsets, file_size),
    ensures
        addressable(offset_ranges(offsets, file_size)),
{
    let ranges = offset_ranges(offsets, file_size);
    assert forall|i: int| 0 <= i < ranges.len() implies (#[trigger] ranges[i]).0 >= 0 && ranges[i].1
        >= 0 && ranges[i].0 + ranges[i].1 <= i64::MAX by {
        lemma_offsets_ascend(offsets, file_size, i);
        if i + 1 < offsets.len() {
            lemma_offsets_ascend(offsets, file_size, i + 1);
            assert(offsets[i] < offsets[i + 1]);
        }
    }
}

/// The byte ranges of a file.
pub fn byte_ranges(split_offsets: &Vec<i64>, file_size: i64, target_split_size: i64, merge: bool) -> (ranges: Vec<(i64, i64)>)
    requires
        target_split_size > 0,
    ensures
        ranges@ == file_ranges(split_offsets@, file_size, target_split_size, merge),
{
    if legal_split_offsets(split_offsets, file_size) {
        let ghost expected = offset_ranges(split_offsets@, file_size);
        let mut ranges: Vec<(i64, i64)> = Vec::new();
        let mut i: usize = 0;
        while i < split_offsets.len()
            invariant
                i <= split_offsets.len(),
                legal_offsets(split_offsets@, file_size),
                expected == offset_ranges(split_offsets@, file_size),
                ranges@ == expected.take(i as int),
            decreases split_offsets.len() - i,
        {
            let start: i64 = split_offsets[i];
            let end: i64 = if i + 1 < split_offsets.len() {
                split_offsets[i + 1]
            } else {
                file_size
            };
            proof {
                lemma_offsets_ascend(split_offsets@, file_size, i as int);
                if i + 1 < split_offsets.len() {
                    lemma_offsets_ascend(split_offsets@, file_size, i + 1);
                }
            }
            ranges.push((start, end - start));
            assert(expected.take(i + 1) =~= expected.take(i as int).push(expected[i as int]));
            i += 1;
        }
        assert(expected.take(i as int) =~= expected);
        if merge {
            proof {
                lemma_offset_ranges_addressable(split_offsets@, file_size);
                lemma_addressable_merge_fits(ranges@, target_split_size, ranges@.len());
            }
            return merge_adjacent_ranges(&ranges, target_split_size);
        }
        return ranges;
    }
    let mut ranges: Vec<(i64, i64)> = Vec::new();
    let mut start: i64 = 0;
    let ghost all = cut_ranges(0, file_size as int, target_split_size as int);
    assert(ranges@ + cut_ranges(0, file_size as int, target_split_size as int) =~= all);
    while start < file_size
        invariant
            0 <= start,
            start <= file_size || start == 0,
            target_split_size > 0,
            ranges@ + cut_ranges(start as int, file_size as int, target_split_size as int) == all,
            start > 0 ==> ranges@.len() > 0,
            start == 0 ==> ranges@.len() == 0,
        decreases file_size - start,
    {
        let left: i64 = file_size - start;
        let length: i64 = if target_split_size < left {
            target_split_size
        } else {
            left
        };
        let ghost before = ranges@;
        ranges.push((start, length));
        proof {
            let rest = cut_ranges(start + length, file_size as int, target_split_size as int);
            assert(ranges@ + rest =~= before + (seq![(start, length)] + rest));
        }
        start = start + length;
    }
    assert(ranges@ =~= all);
    if ranges.len() == 0 {
        ranges.push((0, 0));
        assert(ranges@ =~= seq![(0i64, 0i64)]);
    }
    ranges
}

proof fn lemma_cut_tiles(start: int, file_size: int, target: int)
    requires
        0 <= start <= file_size <= i64::MAX,
        target > 0,
    ensures
        tiles(cut_ranges(start, file_size, target), start, file_size),
        forall|i: int|
            0 <= i < cut_ranges(start, file_size, target).len() ==> 0 < (#[trigger] cut_ranges(
                start,
                file_size,
                target,
            )[i]).1 <= target,
    decreases file_size - start,
{
    if start < file_size {
        let left = file_size - start;
        let length = if target < left {
            target
        } else {
            left
        };
        let all = cut_ranges(start, file_size, target);
        let rest = cut_ranges(start + length, file_size, target);
        lemma_cut_tiles(start + length, file_size, target);
        assert(all == seq![(start as i64, length as i64)] + rest);
        assert forall|i: int| 0 <= i < all.len() implies 0 < (#[trigger] all[i]).1 <= target by {
            if i > 0 {
                assert(all[i] == rest[i - 1]);
            }
        }
        assert forall|i: int| 0 <= i < all.len() - 1 implies (#[trigger] all[i]).0 + all[i].1 == all[i + 1].0 by {
            assert(all[i + 1] == rest[i]);
            if i > 0 {
                assert(all[i] == rest[i - 1]);
                assert(rest[i - 1].0 + rest[i - 1].1 == rest[i - 1 + 1].0);
            }
        }
        if rest.len() > 0 {
            assert(all.last() == rest.last());
        }
    }
}

proof fn lemma_tiles_push(ranges: Seq<(i64, i64)>, from: int, to: int, range: (i64, i64))
    requires
        ranges.len() > 0,
        tiles(ranges, from, to),
        range.0 == to,
    ensures
        tiles(ranges.push(range), from, to + range.1),
{
    let after = ranges.push(range);
    assert forall|i: int| 0 <= i < after.len() - 1 implies (#[trigger] after[i]).0 + after[i].1
        == after[i + 1].0 by {
        if i < ranges.len() - 1 {
            assert(ranges[i].0 + ranges[i].1 == ranges[i + 1].0);
        }
    }
}

proof fn lemma_tiles_extend(ranges: Seq<(i64, i64)>, from: int, to: int, length: i64)
    requires
        ranges.len() > 0,
        tiles(ranges, from, to),
        0 <= ranges.last().1,
        0 <= length,
        ranges.last().1 + length <= i64::MAX,
    ensures
        tiles(
            ranges.drop_last().push((ranges.last().0, (ranges.last().1 + length) as i64)),
            from,
            to + length,
        ),
{
    let after = ranges.drop_last().push((ranges.last().0, (ranges.last().1 + length) as i64));
    assert forall|i: int| 0 <= i < after.len() - 1 implies (#[trigger] after[i]).0 + after[i].1
        == after[i + 1].0 by {
        assert(ranges[i].0 + ranges[i].1 == ranges[i + 1].0);
    }
}

proof fn lemma_merge_tiles(ranges: Seq<(i64, i64)>, target: i64, n: nat, from: int)
    requires
        addressable(ranges),
        0 < n <= ranges.len(),
        ranges[0].0 == from,
        forall|i: int| 0 <= i < ranges.len() - 1 ==> (#[trigger] ranges[i]).0 + ranges[i].1 == ranges[i + 1].0,
    ensures
        merged_ranges(ranges, target, n).len() > 0,
        tiles(merged_ranges(ranges, target, n), from, ranges[n - 1].0 + ranges[n - 1].1),
    decreases n,
{
    let before = merged_ranges(ranges, target, (n - 1) as nat);
    if n == 1 {
        assert(before.len() == 0);
        assert(merged_ranges(ranges, target, n) =~= seq![ranges[0]]);
    } else {
        lemma_merge_tiles(ranges, target, (n - 1) as nat, from);
        lemma_merged_addressable(ranges, target, (n - 1) as nat);
        let to = ranges[n - 2].0 + ranges[n - 2].1;
        assert(to == ranges[n - 2 + 1].0);
        let (start, length) = ranges[n - 1];
        assert(before[before.len() - 1].1 >= 0);
        if before.last().1 + length <= target {
            lemma_tiles_extend(before, from, to, length);
        } else {
            lemma_tiles_push(before, from, to, (start, length));
        }
    }
}

/// The ranges of a file follow each other without gap or overlap, and the last one ends with the
/// file. They start at the file's first offset where its offsets are used, else at its first
/// byte. Merging changes none of that.
pub proof fn law_ranges_tile_the_file(offsets: Seq<i64>, file_size: i64, target: i64, merge: bool)
    requires
        file_size >= 0,
        target > 0,
    ensures
        tiles(
            file_ranges(offsets, file_size, target, merge),
            if legal_offsets(offsets, file_size) {
                offsets[0] as int
            } else {
                0
            },
            file_size as int,
        ),
{
    if legal_offsets(offsets, file_size) {
        let ranges = offset_ranges(offsets, file_size);
        lemma_offset_ranges_addressable(offsets, file_size);
        assert forall|i: int| 0 <= i < ranges.len() - 1 implies (#[trigger] ranges[i]).0 + ranges[i].1 == ranges[i + 1].0 by {
            lemma_offsets_ascend(offsets, file_size, i);
            lemma_offsets_ascend(offsets, file_size, i + 1);
        }
        lemma_offsets_ascend(offsets, file_size, offsets.len() - 1);
        assert(ranges.last().0 + ranges.last().1 == file_size);
        if merge {
            lemma_merge_tiles(ranges, target, ranges.len(), offsets[0] as int);
        }
    } else {
        lemma_cut_tiles(0, file_size as int, target as int);
    }
}

/// A cut range is never empty and never larger than the target.
pub proof fn law_cut_ranges_stay_within_the_target(offsets: Seq<i64>, file_size: i64, target: i64, merge: bool, i: int)
    requires
        file_size > 0,
        target > 0,
        !legal_offsets(offsets, file_size),
        0 <= i < file_ranges(offsets, file_size, target, merge).len(),
    ensures
        0 < file_ranges(offsets, file_size, target, merge)[i].1 <= target,
{
    lemma_cut_tiles(0, file_size as int, target as int);
}

// ---------------------------------------------------------------------------
// Schema order
// ---------------------------------------------------------------------------

/// The ids of a list of entries.
pub open spec fn entry_ids(entries: Seq<EntryModel>) -> Seq<i32> {
    entries.map_values(|entry: EntryModel| entry.field.id)
}

/// The ids of all fields of a schema, parents before children.
pub fn field_ids_in_order(schema: &Schema) -> (ids: Vec<i32>)
    ensures
        ids@ == entry_ids(schema.entries()),
{
    let entries = schema.index_struct_fields();
    let ghost expected = entry_ids(schema.entries());
    let mut ids: Vec<i32> = Vec::new();
    let mut i: usize = 0;
    assert(ids@ =~= expected.take(0));
    while i < entries.len()
        invariant
            i <= entries.len(),
            expected == entry_ids(entry_models(entries@)),
            ids@ == expected.take(i as int),
        decreases entries.len() - i,
    {
        ids.push(entries[i].field.id);
        assert(entry_models(entries@)[i as int] == entries@[i as int].model());
        assert(expected.take(i + 1) =~= expected.take(i as int).push(expected[i as int]));
        i += 1;
    }
    assert(expected.take(i as int) =~= expected);
    ids
}

/// The place of each id in a list; an id that comes again has its last place.
pub open spec fn places(ids: Seq<i32>) -> Map<i32, usize>
    decreases ids.len(),
{
    if ids.len() == 0 {
        Map::empty()
    } else {
        places(ids.drop_last()).insert(ids.last(), (ids.len() - 1) as usize)
    }
}

fn put_place(order: &mut BTreeMap<i32, usize>, id: i32, place: usize)
    ensures
        final(order)@ == old(order)@.insert(id, place),
{
    broadcast use vstd::laws_cmp::group_laws_cmp;

    order.insert(id, place);
}

/// The place of every field id of a schema in its pre-order.
pub fn schema_field_order(schema: &Schema) -> (order: BTreeMap<i32, usize>)
    ensures
        order@ == places(entry_ids(schema.entries())),
{
    let ids = field_ids_in_order(schema);
    let mut order: BTreeMap<i32, usize> = BTreeMap::new();
    let mut i: usize = 0;
    assert(ids@.take(0) =~= Seq::<i32>::empty());
    while i < ids.len()
        invariant
            i <= ids.len(),
            order@ == places(ids@.take(i as int)),
        decreases ids.len() - i,
    {
        put_place(&mut order, ids[i], i);
        proof {
            assert(ids@.take(i + 1).drop_last() =~= ids@.take(i as int));
            assert(ids@.take(i + 1).last() == ids@[i as int]);
        }
        i += 1;
    }
    assert(ids@.take(i as int) =~= ids@);
    order
}

proof fn lemma_places(ids: Seq<i32>, i: int)
    requires
        ids.no_duplicates(),
        ids.len() <= usize::MAX,
    ensures
        0 <= i < ids.len() ==> places(ids).contains_key(ids[i]) && places(ids)[ids[i]] == i,
        forall|id: i32| #[trigger] places(ids).contains_key(id) ==> ids.contains(id),
    decreases ids.len(),
{
    if ids.len() > 0 {
        let shorter = ids.drop_last();
        assert forall|a: int, b: int| 0 <= a < shorter.len() && 0 <= b < shorter.len() && a != b implies shorter[a]
            != shorter[b] by {
            assert(ids[a] != ids[b]);
        }
        lemma_places(shorter, i);
        if 0 <= i < shorter.len() {
            assert(shorter[i] == ids[i]);
            assert(ids[i] != ids[ids.len() - 1]);
        }
        assert forall|id: i32| #[trigger] places(ids).contains_key(id) implies ids.contains(id) by {
            if id == ids.last() {
                assert(ids[ids.len() - 1] == id);
            } else {
                assert(places(shorter).contains_key(id));
                let k = choose|k: int| 0 <= k < shorter.len() && shorter[k] == id;
                assert(ids[k] == id);
            }
        }
    }
}

/// In a schema whose ids are distinct, the order maps each field id to its own place in the
/// pre-order, and no other id to any.
pub proof fn law_field_order_is_pre_order(ids: Seq<i32>, i: int)
    requires
        ids.no_duplicates(),
        ids.len() <= usize::MAX,
        0 <= i < ids.len(),
    ensures
        places(ids).contains_key(ids[i]),
        places(ids)[ids[i]] == i,
        forall|id: i32| #[trigger] places(ids).contains_key(id) ==> ids.contains(id),
{
    lemma_places(ids, i);
}

/// The first fault of an equality id list: an id that comes twice, or one that the schema lacks.
pub open spec fn equality_ids_fault(order: Seq<i32>, ids: Seq<i32>, n: nat) -> Option<ConnectorError>
    decreases n,
{
    if n == 0 || n > ids.len() {
        None
    } else {
        let before = equality_ids_fault(order, ids, (n - 1) as nat);
        if before is Some {
            before
        } else if ids.take(n - 1).contains(ids[n - 1]) {
            Some(ConnectorError::Corrupt(CorruptData::DuplicateEqualityFieldId))
        } else if !order.contains(ids[n - 1]) {
            Some(ConnectorError::Corrupt(CorruptData::UnknownEqualityFieldId))
        } else {
            None
        }
    }
}

proof fn lemma_equality_ids_fault_stays(order: Seq<i32>, ids: Seq<i32>, n: nat)
    requires
        n <= ids.len(),
        equality_ids_fault(order, ids, n) is Some,
    ensures
        equality_ids_fault(order, ids, ids.len()) == equality_ids_fault(order, ids, n),
    decreases ids.len() - n,
{
    if n < ids.len() {
        lemma_equality_ids_fault_stays(order, ids, n + 1);
    }
}

/// The ids of a list in schema order.
pub open spec fn in_schema_order(order: Seq<i32>, ids: Seq<i32>) -> Seq<i32> {
    order.filter(|id: i32| ids.contains(id))
}

/// Whether a list has an id.
pub fn contains_id(ids: &Vec<i32>, id: i32) -> (contains: bool)
    ensures
        contains == ids@.contains(id),
{
    let mut i: usize = 0;
    while i < ids.len()
        invariant
            i <= ids.len(),
            forall|k: int| 0 <= k < i ==> ids@[k] != id,
        decreases ids.len() - i,
    {
        if ids[i] == id {
            return true;
        }
        i += 1;
    }
    false
}

/// Put the equality ids of a delete file into schema order, whatever order its writer recorded.
pub fn equality_field_ids_in_schema_order(order: &Vec<i32>, field_ids: &Vec<i32>) -> (ordered: Result<Vec<i32>, ConnectorError>)
    ensures
        match ordered {
            Ok(ids) => equality_ids_fault(order@, field_ids@, field_ids@.len()) is None && ids@
                == in_schema_order(order@, field_ids@),
            Err(error) => equality_ids_fault(order@, field_ids@, field_ids@.len()) == Some(error),
        },
{
    let mut seen: Vec<i32> = Vec::new();
    let mut i: usize = 0;
    assert(seen@ =~= field_ids@.take(0));
    while i < field_ids.len()
        invariant
            i <= field_ids.len(),
            seen@ == field_ids@.take(i as int),
            equality_ids_fault(order@, field_ids@, i as nat) is None,
        decreases field_ids.len() - i,
    {
        let id: i32 = field_ids[i];
        if contains_id(&seen, id) {
            proof {
                lemma_equality_ids_fault_stays(order@, field_ids@, (i + 1) as nat);
            }
            return Err(ConnectorError::Corrupt(CorruptData::DuplicateEqualityFieldId));
        }
        if !contains_id(order, id) {
            proof {
                lemma_equality_ids_fault_stays(order@, field_ids@, (i + 1) as nat);
            }
            return Err(ConnectorError::Corrupt(CorruptData::UnknownEqualityFieldId));
        }
        seen.push(id);
        assert(field_ids@.take(i + 1) =~= field_ids@.take(i as int).push(id));
        i += 1;
    }
    let ghost keep = |id: i32| field_ids@.contains(id);
    let mut ordered: Vec<i32> = Vec::new();
    let mut k: usize = 0;
    assert(ordered@ =~= order@.take(0).filter(keep)) by {
        reveal(Seq::filter);
    }
    while k < order.len()
        invariant
            k <= order.len(),
            keep == (|id: i32| field_ids@.contains(id)),
            ordered@ == order@.take(k as int).filter(keep),
        decreases order.len() - k,
    {
        proof {
            crate::seqs::lemma_filter_step(order@, keep, k as int);
        }
        if contains_id(field_ids, order[k]) {
            ordered.push(order[k]);
        }
        k += 1;
    }
    assert(order@.take(k as int) =~= order@);
    Ok(ordered)
}

/// The canonical order depends on which ids a delete file names, not on how it lists them.
pub proof fn law_schema_order_ignores_listing_order(order: Seq<i32>, left: Seq<i32>, right: Seq<i32>)
    requires
        forall|id: i32| #[trigger] left.contains(id) <==> right.contains(id),
    ensures
        in_schema_order(order, left) == in_schema_order(order, right),
    decreases order.len(),
{
    reveal(Seq::filter);
    if order.len() > 0 {
        law_schema_order_ignores_listing_order(order.drop_last(), left, right);
        assert(left.contains(order.last()) <==> right.contains(order.last()));
    }
}

// ---------------------------------------------------------------------------
// Target size and identity partitions
// ---------------------------------------------------------------------------

/// The target size of a split: the session's, else the table's, else the default.
pub open spec fn target_size(session: Option<u64>, property: Option<Seq<char>>) -> Result<u64, ConnectorError> {
    match session {
        Some(size) => Ok(size),
        None => match property {
            None => Ok(DEFAULT_TARGET_SPLIT_SIZE_BYTES),
            Some(text) => match parsed_u64(text) {
                Some(size) => Ok(size),
                None => Err(ConnectorError::Invalid(InvalidRequest::TargetSizeNotAByteCount)),
            },
        },
    }
}

pub fn resolve_target_split_size(session_max_split_size: Option<u64>, property: &Option<String>) -> (size: Result<u64, ConnectorError>)
    ensures
        size == target_size(session_max_split_size, crate::carrier::text_model(*property)),
{
    match session_max_split_size {
        Some(size) => Ok(size),
        None => match property {
            None => Ok(DEFAULT_TARGET_SPLIT_SIZE_BYTES),
            Some(text) => match parse_u64(text.as_str()) {
                Some(size) => Ok(size),
                None => Err(ConnectorError::Invalid(InvalidRequest::TargetSizeNotAByteCount)),
            },
        },
    }
}

/// The source ids of the identity fields among the first `n` fields of a spec.
pub open spec fn identity_sources(fields: Seq<PartitionField>, n: nat) -> Seq<i32>
    decreases n,
{
    if n == 0 || n > fields.len() {
        seq![]
    } else {
        let before = identity_sources(fields, (n - 1) as nat);
        if fields[n - 1].identity {
            before.push(fields[n - 1].source_id)
        } else {
            before
        }
    }
}

/// The table fields that a spec partitions by their own values.
pub fn identity_partition_source_field_ids(spec: &PartitionSpec) -> (ids: Vec<i32>)
    ensures
        ids@ == identity_sources(spec.fields@, spec.fields@.len()),
{
    let mut ids: Vec<i32> = Vec::new();
    let mut i: usize = 0;
    while i < spec.fields.len()
        invariant
            i <= spec.fields.len(),
            ids@ == identity_sources(spec.fields@, i as nat),
        decreases spec.fields.len() - i,
    {
        if spec.fields[i].identity {
            ids.push(spec.fields[i].source_id);
        }
        i += 1;
    }
    ids
}


// ---------------------------------------------------------------------------
// Planned files
// ---------------------------------------------------------------------------

/// The format of a delete file that a manifest walk admits.
#[derive(Clone, Copy, Debug, PartialEq, Eq, Structural)]
pub enum IcebergReadDeleteFormat {
    Parquet,
    Puffin,
}

/// What a delete file holds.
pub enum IcebergReadDeleteKind {
    Position,
    Equality { equality_field_ids: Vec<i32> },
}

/// One delete file of the frozen closure of a data file.
pub struct IcebergReadDeleteFile {
    pub path: String,
    pub file_format: IcebergReadDeleteFormat,
    pub kind: IcebergReadDeleteKind,
    pub length: Option<i64>,
    pub content_offset: Option<i64>,
    pub content_size_in_bytes: Option<i64>,
    pub sequence_number: Option<i64>,
    /// Whether the delete applies to the data file that it is attached to.
    pub applies: bool,
}

/// The partition tuple of a data file.
pub struct PartitionTuple {
    /// The number of values.
    pub arity: usize,
    /// The JSON text of the values under the type of their spec, where they have one.
    pub json: Option<String>,
}

/// The read view of one data file of the pinned snapshot.
pub struct IcebergReadFile {
    pub path: String,
    pub size: i64,
    pub record_count: Option<i64>,
    pub partition_spec_id: Option<i32>,
    pub partition_values: Option<PartitionTuple>,
    pub first_row_id: Option<i64>,
    pub data_sequence_number: Option<i64>,
    pub deletes: Vec<IcebergReadDeleteFile>,
}

/// Manifest facts about one delete file that the read view does not carry.
pub struct IcebergDeleteFileFacts {
    pub record_count: i64,
    pub row_position_lower_bound: Option<i64>,
    pub row_position_upper_bound: Option<i64>,
    pub decryption_data: Option<ParquetFileDecryptionData>,
}

/// What the frozen statistics of a file say against the static predicate.
#[derive(Clone, Copy, Debug, PartialEq, Eq, Structural)]
pub enum PruneVerdict {
    Overlapping,
    /// No row of the file can satisfy the predicate.
    Disjoint,
    /// The two could not be compared.
    Failed(ConnectorError),
}

/// One data file of the pinned snapshot, with every fact that its splits need.
pub struct IcebergPlannedDataFile {
    pub read_file: IcebergReadFile,
    /// The format that the manifest declares.
    pub file_format: IcebergFileFormat,
    pub split_offsets: Vec<i64>,
    /// Empty where the file is not encrypted.
    pub key_metadata: Vec<u8>,
    pub decryption_data: Option<ParquetFileDecryptionData>,
    /// The facts of each delete file by its path.
    pub delete_facts: Vec<(String, IcebergDeleteFileFacts)>,
    pub pruning: PruneVerdict,
}

/// What a split source needs of one partition spec.
pub struct SpecFacts {
    pub spec_id: i32,
    pub field_count: usize,
    pub identity_source_ids: Vec<i32>,
}

/// What a split source needs of the table.
pub struct SplitPolicy {
    /// The projected base columns, or nothing where a nested field is projected.
    pub projected_base_field_ids: Option<Vec<i32>>,
    pub specs: Vec<SpecFacts>,
    /// The ids of all schema fields, parents before children.
    pub schema_field_ids: Vec<i32>,
    pub target_split_size: i64,
    pub merge_adjacent_split_offsets: bool,
}

/// The last facts of a spec.
pub open spec fn spec_facts(specs: Seq<SpecFacts>, spec_id: i32) -> Option<SpecFacts>
    decreases specs.len(),
{
    if specs.len() == 0 {
        None
    } else if specs.last().spec_id == spec_id {
        Some(specs.last())
    } else {
        spec_facts(specs.drop_last(), spec_id)
    }
}

fn find_spec(specs: &Vec<SpecFacts>, spec_id: i32) -> (found: Option<&SpecFacts>)
    ensures
        (match found {
            Some(facts) => Some(*facts),
            None => None,
        }) == spec_facts(specs@, spec_id),
{
    let mut i: usize = specs.len();
    assert(specs@.take(i as int) =~= specs@);
    while i > 0
        invariant
            i <= specs.len(),
            spec_facts(specs@, spec_id) == spec_facts(specs@.take(i as int), spec_id),
        decreases i,
    {
        proof {
            assert(specs@.take(i as int).last() == specs@[i - 1]);
            assert(specs@.take(i as int).drop_last() =~= specs@.take(i - 1));
        }
        if specs[i - 1].spec_id == spec_id {
            return Some(&specs[i - 1]);
        }
        i -= 1;
    }
    None
}

/// Whether every id of one list is in another.
pub open spec fn all_in(ids: Seq<i32>, other: Seq<i32>) -> bool {
    forall|i: int| 0 <= i < ids.len() ==> other.contains(#[trigger] ids[i])
}

fn is_all_in(ids: &Vec<i32>, other: &Vec<i32>) -> (all: bool)
    ensures
        all == all_in(ids@, other@),
{
    let mut i: usize = 0;
    while i < ids.len()
        invariant
            i <= ids.len(),
            forall|k: int| 0 <= k < i ==> other@.contains(#[trigger] ids@[k]),
        decreases ids.len() - i,
    {
        if !contains_id(other, ids[i]) {
            assert(!other@.contains(ids@[i as int]));
            return false;
        }
        i += 1;
    }
    true
}

/// The facts of a delete file, by its path.
pub open spec fn facts_of(facts: Seq<(String, IcebergDeleteFileFacts)>, path: Seq<char>) -> Option<IcebergDeleteFileFacts>
    decreases facts.len(),
{
    if facts.len() == 0 {
        None
    } else if facts.last().0@ == path {
        Some(facts.last().1)
    } else {
        facts_of(facts.drop_last(), path)
    }
}

fn find_facts<'a>(facts: &'a Vec<(String, IcebergDeleteFileFacts)>, path: &String) -> (found: Option<&'a IcebergDeleteFileFacts>)
    ensures
        (match found {
            Some(held) => Some(*held),
            None => None,
        }) == facts_of(facts@, path@),
{
    let mut i: usize = facts.len();
    assert(facts@.take(i as int) =~= facts@);
    while i > 0
        invariant
            i <= facts.len(),
            facts_of(facts@, path@) == facts_of(facts@.take(i as int), path@),
        decreases i,
    {
        proof {
            assert(facts@.take(i as int).last() == facts@[i - 1]);
            assert(facts@.take(i as int).drop_last() =~= facts@.take(i - 1));
        }
        let pair = &facts[i - 1];
        if pair.0 == *path {
            return Some(&pair.1);
        }
        i -= 1;
    }
    None
}

/// The delete descriptor that a split carries, or why there is none.
pub open spec fn delete_descriptor_of(
    policy: SplitPolicy,
    delete: IcebergReadDeleteFile,
    file: IcebergPlannedDataFile,
) -> Result<DeleteFileModel, ConnectorError> {
    match facts_of(file.delete_facts@, delete.path@) {
        None => Err(ConnectorError::Corrupt(CorruptData::DeleteFactsMissing)),
        Some(facts) => {
            let ids = match delete.kind {
                IcebergReadDeleteKind::Position => Seq::<i32>::empty(),
                IcebergReadDeleteKind::Equality { equality_field_ids } => in_schema_order(
                    policy.schema_field_ids@,
                    equality_field_ids@,
                ),
            };
            let fault = match delete.kind {
                IcebergReadDeleteKind::Position => None,
                IcebergReadDeleteKind::Equality { equality_field_ids } => equality_ids_fault(
                    policy.schema_field_ids@,
                    equality_field_ids@,
                    equality_field_ids@.len(),
                ),
            };
            if fault is Some {
                Err(fault->0)
            } else if delete.length is None {
                Err(ConnectorError::Corrupt(CorruptData::DeleteSizeMissing))
            } else if delete.sequence_number is None {
                Err(ConnectorError::Corrupt(CorruptData::DeleteSequenceMissing))
            } else {
                Ok(
                    DeleteFileModel {
                        content: if delete.kind is Position {
                            IcebergDeleteFileContent::PositionDeletes
                        } else {
                            IcebergDeleteFileContent::EqualityDeletes
                        },
                        path: delete.path@,
                        format: match delete.file_format {
                            IcebergReadDeleteFormat::Parquet => IcebergFileFormat::Parquet,
                            IcebergReadDeleteFormat::Puffin => IcebergFileFormat::Puffin,
                        },
                        record_count: facts.record_count,
                        file_size_in_bytes: delete.length->0,
                        equality_field_ids: ids,
                        row_position_lower_bound: facts.row_position_lower_bound,
                        row_position_upper_bound: facts.row_position_upper_bound,
                        data_sequence_number: delete.sequence_number->0,
                        content_offset: delete.content_offset,
                        content_size_in_bytes: delete.content_size_in_bytes,
                        referenced_data_file: None,
                        decryption_data: decryption_model(facts.decryption_data),
                    },
                )
            }
        },
    }
}

/// The descriptors of the first `n` deletes of a file. A delete that does not apply to the file
/// it is attached to is corrupt.
pub open spec fn delete_descriptors(policy: SplitPolicy, file: IcebergPlannedDataFile, n: nat) -> Result<Seq<DeleteFileModel>, ConnectorError>
    decreases n,
{
    let deletes = file.read_file.deletes@;
    if n == 0 || n > deletes.len() {
        Ok(seq![])
    } else {
        match delete_descriptors(policy, file, (n - 1) as nat) {
            Err(error) => Err(error),
            Ok(before) => if !deletes[n - 1].applies {
                Err(ConnectorError::Corrupt(CorruptData::DeleteDoesNotApply))
            } else {
                match delete_descriptor_of(policy, deletes[n - 1], file) {
                    Err(error) => Err(error),
                    Ok(delete) => Ok(before.push(delete)),
                }
            },
        }
    }
}

proof fn lemma_delete_descriptors_error(policy: SplitPolicy, file: IcebergPlannedDataFile, n: nat)
    requires
        n <= file.read_file.deletes@.len(),
        delete_descriptors(policy, file, n) is Err,
    ensures
        delete_descriptors(policy, file, file.read_file.deletes@.len()) == delete_descriptors(
            policy,
            file,
            n,
        ),
    decreases file.read_file.deletes@.len() - n,
{
    if n < file.read_file.deletes@.len() {
        lemma_delete_descriptors_error(policy, file, n + 1);
    }
}

/// Why a file is not read at all, by its format and its encryption.
pub open spec fn admission_fault(file: IcebergPlannedDataFile) -> Option<ConnectorError> {
    match file.file_format {
        IcebergFileFormat::Orc => Some(ConnectorError::Unsupported(UnsupportedFeature::OrcDataFile)),
        IcebergFileFormat::Avro => Some(
            ConnectorError::Unsupported(UnsupportedFeature::AvroDataFile),
        ),
        IcebergFileFormat::Puffin => Some(ConnectorError::Corrupt(CorruptData::PuffinDataFile)),
        IcebergFileFormat::Parquet => if file.key_metadata@.len() > 0 {
            Some(ConnectorError::Unsupported(UnsupportedFeature::EncryptedManifestKey))
        } else if file.decryption_data is Some {
            Some(ConnectorError::Unsupported(UnsupportedFeature::EncryptedParquet))
        } else {
            None
        },
    }
}

/// The partition text of a file, or why it has none.
pub open spec fn partition_text(policy: SplitPolicy, spec_id: i32, file: IcebergReadFile) -> Result<Seq<char>, ConnectorError> {
    match spec_facts(policy.specs@, spec_id) {
        None => Err(ConnectorError::Corrupt(CorruptData::UnknownPartitionSpec)),
        Some(facts) => match file.partition_values {
            None => Err(ConnectorError::Corrupt(CorruptData::PartitionValuesMissing)),
            Some(tuple) => if tuple.arity != facts.field_count {
                Err(ConnectorError::Corrupt(CorruptData::PartitionArity))
            } else {
                match tuple.json {
                    None => Err(ConnectorError::Corrupt(CorruptData::PartitionValuesUnencodable)),
                    Some(json) => Ok(json@),
                }
            },
        },
    }
}

/// Whether the projection is made of identity partition values of a spec alone. A projection
/// without a column is.
pub open spec fn partition_only(policy: SplitPolicy, spec_id: i32) -> bool {
    match policy.projected_base_field_ids {
        None => false,
        Some(projected) => match spec_facts(policy.specs@, spec_id) {
            None => false,
            Some(facts) => all_in(projected@, facts.identity_source_ids@),
        },
    }
}

/// The ranges of a file under a policy: a scan that only needs partition values, of a file
/// without deletes, reads the whole file in one split.
pub open spec fn planned_ranges(policy: SplitPolicy, file: IcebergPlannedDataFile, spec_id: i32, deletes: nat) -> Seq<(i64, i64)> {
    if deletes == 0 && partition_only(policy, spec_id) {
        seq![(0i64, file.read_file.size)]
    } else {
        file_ranges(
            file.split_offsets@,
            file.read_file.size,
            policy.target_split_size,
            policy.merge_adjacent_split_offsets,
        )
    }
}

/// The split of one range of a file.
pub open spec fn range_split(
    file: IcebergPlannedDataFile,
    range: (i64, i64),
    spec_id: i32,
    record_count: i64,
    json: Seq<char>,
    deletes: Seq<DeleteFileModel>,
) -> SplitModel {
    SplitModel {
        path: file.read_file.path@,
        start: range.0,
        length: range.1,
        file_size: file.read_file.size,
        file_record_count: record_count,
        file_format: file.file_format,
        partition_spec_id: spec_id,
        partition_data_json: json,
        deletes,
        data_sequence_number: file.read_file.data_sequence_number,
        file_first_row_id: file.read_file.first_row_id,
        decryption_data: None,
        affinity_key: Some(file.read_file.path@),
    }
}

/// The splits of a file, or why it has none. Every range carries the complete delete closure.
pub open spec fn file_splits(policy: SplitPolicy, file: IcebergPlannedDataFile) -> Result<Seq<SplitModel>, ConnectorError> {
    let read = file.read_file;
    if admission_fault(file) is Some {
        Err(admission_fault(file)->0)
    } else if read.partition_spec_id is None {
        Err(ConnectorError::Corrupt(CorruptData::PartitionSpecIdMissing))
    } else if read.record_count is None {
        Err(ConnectorError::Corrupt(CorruptData::RecordCountMissing))
    } else if read.size < 0 {
        Err(ConnectorError::Corrupt(CorruptData::NegativeFileSize))
    } else {
        let spec_id = read.partition_spec_id->0;
        match partition_text(policy, spec_id, read) {
            Err(error) => Err(error),
            Ok(json) => match delete_descriptors(policy, file, read.deletes@.len()) {
                Err(error) => Err(error),
                Ok(deletes) => Ok(
                    planned_ranges(policy, file, spec_id, deletes.len()).map_values(
                        |range: (i64, i64)|
                            range_split(
                                file,
                                range,
                                spec_id,
                                read.record_count->0,
                                json,
                                deletes,
                            ),
                    ),
                ),
            },
        }
    }
}

impl SplitPolicy {
    pub open spec fn wf(self) -> bool {
        self.target_split_size > 0
    }

    /// Describe one delete of a file as its splits carry it.
    pub fn delete_descriptor(&self, read_delete: &IcebergReadDeleteFile, file: &IcebergPlannedDataFile) -> (delete: Result<IcebergDeleteFile, ConnectorError>)
        ensures
            match delete_descriptor_of(*self, *read_delete, *file) {
                Ok(model) => delete is Ok && delete->Ok_0.model() == model,
                Err(error) => delete == Err::<IcebergDeleteFile, ConnectorError>(error),
            },
    {
        let facts = match find_facts(&file.delete_facts, &read_delete.path) {
            Some(facts) => facts,
            None => return Err(ConnectorError::Corrupt(CorruptData::DeleteFactsMissing)),
        };
        let format = match read_delete.file_format {
            IcebergReadDeleteFormat::Parquet => IcebergFileFormat::Parquet,
            IcebergReadDeleteFormat::Puffin => IcebergFileFormat::Puffin,
        };
        let (content, equality_field_ids): (IcebergDeleteFileContent, Vec<i32>) = match &read_delete.kind {
            IcebergReadDeleteKind::Position => (
                IcebergDeleteFileContent::PositionDeletes,
                Vec::new(),
            ),
            IcebergReadDeleteKind::Equality { equality_field_ids } => match equality_field_ids_in_schema_order(
                &self.schema_field_ids,
                equality_field_ids,
            ) {
                Ok(ids) => (IcebergDeleteFileContent::EqualityDeletes, ids),
                Err(error) => return Err(error),
            },
        };
        let file_size_in_bytes: i64 = match read_delete.length {
            Some(size) => size,
            None => return Err(ConnectorError::Corrupt(CorruptData::DeleteSizeMissing)),
        };
        let data_sequence_number: i64 = match read_delete.sequence_number {
            Some(sequence) => sequence,
            None => return Err(ConnectorError::Corrupt(CorruptData::DeleteSequenceMissing)),
        };
        Ok(
            IcebergDeleteFile {
                content,
                path: read_delete.path.clone(),
                format,
                record_count: facts.record_count,
                file_size_in_bytes,
                equality_field_ids,
                row_position_lower_bound: facts.row_position_lower_bound,
                row_position_upper_bound: facts.row_position_upper_bound,
                data_sequence_number,
                content_offset: read_delete.content_offset,
                content_size_in_bytes: read_delete.content_size_in_bytes,
                referenced_data_file: None,
                decryption_data: duplicate_decryption(&facts.decryption_data),
            },
        )
    }

    /// Describe every delete of a file.
    pub fn deletes_for_file(&self, file: &IcebergPlannedDataFile) -> (deletes: Result<Vec<IcebergDeleteFile>, ConnectorError>)
        ensures
            match delete_descriptors(*self, *file, file.read_file.deletes@.len()) {
                Ok(models) => deletes is Ok && delete_models(deletes->Ok_0@) == models,
                Err(error) => deletes == Err::<Vec<IcebergDeleteFile>, ConnectorError>(error),
            },
    {
        let mut deletes: Vec<IcebergDeleteFile> = Vec::new();
        let mut i: usize = 0;
        assert(delete_models(deletes@) =~= Seq::<DeleteFileModel>::empty());
        while i < file.read_file.deletes.len()
            invariant
                i <= file.read_file.deletes.len(),
                delete_descriptors(*self, *file, i as nat) == Ok::<Seq<DeleteFileModel>, ConnectorError>(
                    delete_models(deletes@),
                ),
            decreases file.read_file.deletes.len() - i,
        {
            let read_delete = &file.read_file.deletes[i];
            let described = if !read_delete.applies {
                Err(ConnectorError::Corrupt(CorruptData::DeleteDoesNotApply))
            } else {
                self.delete_descriptor(read_delete, file)
            };
            match described {
                Ok(delete) => {
                    let ghost before = deletes@;
                    deletes.push(delete);
                    assert(delete_models(deletes@) =~= delete_models(before).push(delete.model()));
                },
                Err(error) => {
                    proof {
                        lemma_delete_descriptors_error(*self, *file, (i + 1) as nat);
                    }
                    return Err(error);
                },
            }
            i += 1;
        }
        Ok(deletes)
    }

    /// The partition text of a file.
    pub fn partition_data_json(&self, partition_spec_id: i32, read_file: &IcebergReadFile) -> (json: Result<String, ConnectorError>)
        ensures
            match partition_text(*self, partition_spec_id, *read_file) {
                Ok(text) => json is Ok && json->Ok_0@ == text,
                Err(error) => json == Err::<String, ConnectorError>(error),
            },
    {
        match find_spec(&self.specs, partition_spec_id) {
            None => Err(ConnectorError::Corrupt(CorruptData::UnknownPartitionSpec)),
            Some(facts) => match &read_file.partition_values {
                None => Err(ConnectorError::Corrupt(CorruptData::PartitionValuesMissing)),
                Some(tuple) => {
                    if tuple.arity != facts.field_count {
                        return Err(ConnectorError::Corrupt(CorruptData::PartitionArity));
                    }
                    match &tuple.json {
                        None => Err(
                            ConnectorError::Corrupt(CorruptData::PartitionValuesUnencodable),
                        ),
                        Some(json) => Ok(json.clone()),
                    }
                },
            },
        }
    }

    /// Whether the projection is made of identity partition values of a spec alone.
    pub fn is_partition_only_read(&self, partition_spec_id: i32) -> (only: bool)
        ensures
            only == partition_only(*self, partition_spec_id),
    {
        match &self.projected_base_field_ids {
            None => false,
            Some(projected) => match find_spec(&self.specs, partition_spec_id) {
                None => false,
                Some(facts) => is_all_in(projected, &facts.identity_source_ids),
            },
        }
    }

    /// The splits of a file.
    pub fn splits_for_file(&self, file: &IcebergPlannedDataFile) -> (splits: Result<Vec<IcebergSplit>, ConnectorError>)
        requires
            self.wf(),
        ensures
            match file_splits(*self, *file) {
                Ok(models) => splits is Ok && split_models(splits->Ok_0@) == models,
                Err(error) => splits == Err::<Vec<IcebergSplit>, ConnectorError>(error),
            },
    {
        match file.file_format {
            IcebergFileFormat::Parquet => {},
            IcebergFileFormat::Orc => return Err(
                ConnectorError::Unsupported(UnsupportedFeature::OrcDataFile),
            ),
            IcebergFileFormat::Avro => return Err(
                ConnectorError::Unsupported(UnsupportedFeature::AvroDataFile),
            ),
            IcebergFileFormat::Puffin => return Err(
                ConnectorError::Corrupt(CorruptData::PuffinDataFile),
            ),
        }
        if file.key_metadata.len() > 0 {
            return Err(ConnectorError::Unsupported(UnsupportedFeature::EncryptedManifestKey));
        }
        if file.decryption_data.is_some() {
            return Err(ConnectorError::Unsupported(UnsupportedFeature::EncryptedParquet));
        }
        let read_file = &file.read_file;
        let partition_spec_id: i32 = match read_file.partition_spec_id {
            Some(spec_id) => spec_id,
            None => return Err(ConnectorError::Corrupt(CorruptData::PartitionSpecIdMissing)),
        };
        let file_record_count: i64 = match read_file.record_count {
            Some(count) => count,
            None => return Err(ConnectorError::Corrupt(CorruptData::RecordCountMissing)),
        };
        if read_file.size < 0 {
            return Err(ConnectorError::Corrupt(CorruptData::NegativeFileSize));
        }
        let partition_data_json = match self.partition_data_json(partition_spec_id, read_file) {
            Ok(json) => json,
            Err(error) => return Err(error),
        };
        let deletes = match self.deletes_for_file(file) {
            Ok(deletes) => deletes,
            Err(error) => return Err(error),
        };
        let ranges: Vec<(i64, i64)> = if deletes.len() == 0 && self.is_partition_only_read(
            partition_spec_id,
        ) {
            let mut whole: Vec<(i64, i64)> = Vec::new();
            whole.push((0, read_file.size));
            assert(whole@ =~= seq![(0i64, read_file.size)]);
            whole
        } else {
            byte_ranges(
                &file.split_offsets,
                read_file.size,
                self.target_split_size,
                self.merge_adjacent_split_offsets,
            )
        };
        let ghost split_of = |range: (i64, i64)|
            range_split(
                *file,
                range,
                partition_spec_id,
                file_record_count,
                partition_data_json@,
                delete_models(deletes@),
            );
        assert(ranges@ == planned_ranges(*self, *file, partition_spec_id, delete_models(deletes@).len()));
        let mut splits: Vec<IcebergSplit> = Vec::new();
        let mut i: usize = 0;
        assert(split_models(splits@) =~= ranges@.take(0).map_values(split_of));
        while i < ranges.len()
            invariant
                i <= ranges.len(),
                *read_file == file.read_file,
                split_of == (|range: (i64, i64)|
                    range_split(
                        *file,
                        range,
                        partition_spec_id,
                        file_record_count,
                        partition_data_json@,
                        delete_models(deletes@),
                    )),
                split_models(splits@) == ranges@.take(i as int).map_values(split_of),
            decreases ranges.len() - i,
        {
            let (start, length): (i64, i64) = ranges[i];
            let ghost before = splits@;
            let split = IcebergSplit {
                path: read_file.path.clone(),
                start,
                length,
                file_size: read_file.size,
                file_record_count,
                file_format: file.file_format,
                partition_spec_id,
                partition_data_json: partition_data_json.clone(),
                deletes: duplicate_deletes(&deletes),
                data_sequence_number: read_file.data_sequence_number,
                file_first_row_id: read_file.first_row_id,
                decryption_data: None,
                affinity_key: Some(read_file.path.clone()),
            };
            assert(split.model() == split_of(ranges@[i as int]));
            splits.push(split);
            proof {
                assert(split_models(splits@) =~= split_models(before).push(split.model()));
                crate::seqs::lemma_map_step(ranges@, split_of, i as int);
            }
            i += 1;
        }
        assert(ranges@.take(i as int) =~= ranges@);
        Ok(splits)
    }
}

/// The splits of a file follow each other without gap or overlap, and the last one ends with the
/// file. They start at the file's first offset where its offsets are used, else at its first byte.
pub proof fn law_splits_cover_their_file(policy: SplitPolicy, file: IcebergPlannedDataFile)
    requires
        policy.wf(),
        file_splits(policy, file) is Ok,
    ensures
        ({
            let read = file.read_file;
            let deletes = delete_descriptors(policy, file, read.deletes@.len())->Ok_0;
            let whole = deletes.len() == 0 && partition_only(policy, read.partition_spec_id->0);
            tiles(
                file_splits(policy, file)->Ok_0.map_values(
                    |split: SplitModel| (split.start, split.length),
                ),
                if !whole && legal_offsets(file.split_offsets@, read.size) {
                    file.split_offsets@[0] as int
                } else {
                    0
                },
                read.size as int,
            )
        }),
{
    let read = file.read_file;
    let spec_id = read.partition_spec_id->0;
    let deletes = delete_descriptors(policy, file, read.deletes@.len())->Ok_0;
    let ranges = planned_ranges(policy, file, spec_id, deletes.len());
    let splits = file_splits(policy, file)->Ok_0;
    law_ranges_tile_the_file(
        file.split_offsets@,
        read.size,
        policy.target_split_size,
        policy.merge_adjacent_split_offsets,
    );
    assert(splits.map_values(|split: SplitModel| (split.start, split.length)) =~= ranges);
}

/// Each split of a file names that one file and carries its complete delete closure, its size, its
/// first row id and its sequence number.
pub proof fn law_every_split_carries_the_closure(policy: SplitPolicy, file: IcebergPlannedDataFile, i: int)
    requires
        policy.wf(),
        file_splits(policy, file) is Ok,
        0 <= i < file_splits(policy, file)->Ok_0.len(),
    ensures
        ({
            let split = file_splits(policy, file)->Ok_0[i];
            &&& split.path == file.read_file.path@
            &&& split.deletes == delete_descriptors(
                policy,
                file,
                file.read_file.deletes@.len(),
            )->Ok_0
            &&& split.file_size == file.read_file.size
            &&& split.file_first_row_id == file.read_file.first_row_id
            &&& split.data_sequence_number == file.read_file.data_sequence_number
        }),
{
}

// ---------------------------------------------------------------------------
// The source
// ---------------------------------------------------------------------------

/// A lazily advancing enumerator over the data files of one pinned snapshot.
pub struct IcebergSplitSource {
    pub files: Vec<IcebergPlannedDataFile>,
    pub next_file: usize,
    pub pending: VecDeque<IcebergSplit>,
    pub closed: bool,
    /// Set where planning already proved that the scan reads nothing.
    pub exhausted: bool,
    pub policy: SplitPolicy,
}

/// What the planner froze of the table that a scan reads.
pub struct IcebergScanFacts {
    pub snapshot_id: Option<i64>,
    pub limit: Option<u64>,
    /// Whether the static predicate admits no row at all.
    pub predicate_is_none: bool,
    pub projected_columns: Vec<IcebergColumnHandle>,
    pub partition_specs: Vec<PartitionSpec>,
    pub schema: Schema,
    /// The table property that overrides the default target size.
    pub target_size_property: Option<String>,
}

/// Session knobs that change how files are cut, never what they contain.
#[derive(Clone, Copy, Debug, PartialEq, Eq, Structural)]
pub struct IcebergSplitSourceOptions {
    pub session_max_split_size: Option<u64>,
    /// Whether adjacent offset ranges of one file may be merged up to the target size.
    pub merge_adjacent_split_offsets: bool,
}

impl Default for IcebergSplitSourceOptions {
    fn default() -> (options: IcebergSplitSourceOptions)
        ensures
            options == (IcebergSplitSourceOptions {
                session_max_split_size: None,
                merge_adjacent_split_offsets: false,
            }),
    {
        IcebergSplitSourceOptions {
            session_max_split_size: None,
            merge_adjacent_split_offsets: false,
        }
    }
}

/// A batch of splits, and whether it is the last one.
pub struct ConnectorSplitBatch {
    pub splits: Vec<IcebergSplit>,
    pub no_more_splits: bool,
}

/// Whether a spec binds to a schema: each field has a source that its transform applies to.
pub open spec fn spec_binds(entries: Seq<EntryModel>, spec: PartitionSpec) -> bool {
    forall|i: int|
        0 <= i < spec.fields@.len() ==> entry_with_id(
            entries,
            (#[trigger] spec.fields@[i]).source_id,
        ) is Some && spec.fields@[i].result_type != TransformResult::Undefined
}

fn is_spec_bound(schema: &Schema, spec: &PartitionSpec) -> (bound: bool)
    ensures
        bound == spec_binds(schema.entries(), *spec),
{
    let mut i: usize = 0;
    while i < spec.fields.len()
        invariant
            i <= spec.fields.len(),
            forall|k: int|
                0 <= k < i ==> entry_with_id(
                    schema.entries(),
                    (#[trigger] spec.fields@[k]).source_id,
                ) is Some && spec.fields@[k].result_type != TransformResult::Undefined,
        decreases spec.fields.len() - i,
    {
        let field = &spec.fields[i];
        if schema.field_by_id(field.source_id).is_none() || field.result_type
            == TransformResult::Undefined {
            assert(!(entry_with_id(schema.entries(), spec.fields@[i as int].source_id) is Some
                && spec.fields@[i as int].result_type != TransformResult::Undefined));
            return false;
        }
        i += 1;
    }
    true
}

/// Whether a list of facts describes a list of specs.
pub open spec fn describes(facts: Seq<SpecFacts>, specs: Seq<PartitionSpec>) -> bool {
    &&& facts.len() == specs.len()
    &&& forall|i: int|
        0 <= i < specs.len() ==> (#[trigger] facts[i]).spec_id == specs[i].spec_id
            && facts[i].field_count == specs[i].fields@.len() && facts[i].identity_source_ids@
            == identity_sources(specs[i].fields@, specs[i].fields@.len())
}

fn describe_specs(schema: &Schema, specs: &Vec<PartitionSpec>) -> (facts: Result<Vec<SpecFacts>, ConnectorError>)
    ensures
        match facts {
            Ok(list) => describes(list@, specs@) && forall|i: int|
                0 <= i < specs@.len() ==> spec_binds(schema.entries(), #[trigger] specs@[i]),
            Err(error) => error == ConnectorError::Invalid(
                InvalidRequest::PartitionSpecDoesNotBind,
            ) && exists|i: int|
                0 <= i < specs@.len() && !spec_binds(schema.entries(), #[trigger] specs@[i]),
        },
{
    let mut list: Vec<SpecFacts> = Vec::new();
    let mut i: usize = 0;
    while i < specs.len()
        invariant
            i <= specs.len(),
            list@.len() == i,
            forall|k: int|
                0 <= k < i ==> (#[trigger] list@[k]).spec_id == specs@[k].spec_id
                    && list@[k].field_count == specs@[k].fields@.len()
                    && list@[k].identity_source_ids@ == identity_sources(
                    specs@[k].fields@,
                    specs@[k].fields@.len(),
                ),
            forall|k: int| 0 <= k < i ==> spec_binds(schema.entries(), #[trigger] specs@[k]),
        decreases specs.len() - i,
    {
        let spec = &specs[i];
        if !is_spec_bound(schema, spec) {
            assert(!spec_binds(schema.entries(), specs@[i as int]));
            return Err(ConnectorError::Invalid(InvalidRequest::PartitionSpecDoesNotBind));
        }
        list.push(
            SpecFacts {
                spec_id: spec.spec_id,
                field_count: spec.fields.len(),
                identity_source_ids: identity_partition_source_field_ids(spec),
            },
        );
        i += 1;
    }
    Ok(list)
}

/// The base columns of a projection, or nothing where it has a nested field.
pub open spec fn projected_ids(columns: Seq<IcebergColumnHandle>) -> Option<Seq<i32>> {
    if forall|i: int| 0 <= i < columns.len() ==> (#[trigger] columns[i]).field_id_path@.len() == 0 {
        Some(columns.map_values(|column: IcebergColumnHandle| column.base_field_id))
    } else {
        None
    }
}

/// An optional list as a mathematical value.
pub open spec fn ids_model(ids: Option<Vec<i32>>) -> Option<Seq<i32>> {
    match ids {
        Some(held) => Some(held@),
        None => None,
    }
}

fn projected_base_ids(columns: &Vec<IcebergColumnHandle>) -> (ids: Option<Vec<i32>>)
    ensures
        ids_model(ids) == projected_ids(columns@),
{
    let mut ids: Vec<i32> = Vec::new();
    let mut i: usize = 0;
    while i < columns.len()
        invariant
            i <= columns.len(),
            ids@.len() == i,
            forall|k: int| 0 <= k < i ==> (#[trigger] columns@[k]).field_id_path@.len() == 0,
            forall|k: int| 0 <= k < i ==> #[trigger] ids@[k] == columns@[k].base_field_id,
        decreases columns.len() - i,
    {
        if !columns[i].is_base_column() {
            assert(columns@[i as int].field_id_path@.len() != 0);
            return None;
        }
        ids.push(columns[i].base_field_id);
        i += 1;
    }
    assert(ids@ =~= columns@.map_values(|column: IcebergColumnHandle| column.base_field_id));
    Some(ids)
}

/// The splits of the files from `from` on and the fault that ends them, where one does. A file
/// that its statistics rule out is passed over.
pub open spec fn file_stream(policy: SplitPolicy, files: Seq<IcebergPlannedDataFile>, from: nat) -> (Seq<SplitModel>, Option<ConnectorError>)
    decreases files.len() - from,
{
    if from >= files.len() {
        (seq![], None)
    } else {
        match files[from as int].pruning {
            PruneVerdict::Failed(error) => (seq![], Some(error)),
            PruneVerdict::Disjoint => file_stream(policy, files, from + 1),
            PruneVerdict::Overlapping => match file_splits(policy, files[from as int]) {
                Err(error) => (seq![], Some(error)),
                Ok(splits) => {
                    let (rest, fault) = file_stream(policy, files, from + 1);
                    (splits + rest, fault)
                },
            },
        }
    }
}

/// Where an enumeration stands: the splits that wait, and the next file to look at.
pub struct Enumeration {
    pub policy: SplitPolicy,
    pub files: Seq<IcebergPlannedDataFile>,
    pub pending: Seq<SplitModel>,
    pub next_file: nat,
}

impl Enumeration {
    /// The splits still to come, and the fault that ends them, where one does.
    pub open spec fn to_come(self) -> (Seq<SplitModel>, Option<ConnectorError>) {
        let (rest, fault) = file_stream(self.policy, self.files, self.next_file);
        (self.pending + rest, fault)
    }

    /// Whether nothing waits and no file is left.
    pub open spec fn is_over(self) -> bool {
        self.pending.len() == 0 && self.next_file >= self.files.len()
    }

    /// The next `count` splits, where the enumeration stands afterwards, and the fault of the file
    /// that it stopped at, where it did. A file is looked at only once nothing waits, and it is
    /// passed whatever comes of it.
    pub open spec fn taken(self, count: nat) -> (Seq<SplitModel>, Enumeration, Option<ConnectorError>)
        decreases self.files.len() - self.next_file, count,
    {
        if count == 0 {
            (seq![], self, None)
        } else if self.pending.len() > 0 {
            let (rest, after, fault) = (Enumeration {
                pending: self.pending.skip(1),
                ..self
            }).taken((count - 1) as nat);
            (seq![self.pending[0]] + rest, after, fault)
        } else if self.next_file >= self.files.len() {
            (seq![], self, None)
        } else {
            let passed = Enumeration { next_file: self.next_file + 1, ..self };
            let file = self.files[self.next_file as int];
            match file.pruning {
                PruneVerdict::Failed(error) => (seq![], passed, Some(error)),
                PruneVerdict::Disjoint => passed.taken(count),
                PruneVerdict::Overlapping => match file_splits(self.policy, file) {
                    Err(error) => (seq![], passed, Some(error)),
                    Ok(splits) => (Enumeration { pending: splits, ..passed }).taken(count),
                },
            }
        }
    }

    /// What the first `n` batches of the given sizes hold, put end to end, with where the
    /// enumeration stands afterwards and the fault that ended it, where one did.
    pub open spec fn drained(self, sizes: Seq<nat>, n: nat) -> (Seq<SplitModel>, Enumeration, Option<ConnectorError>)
        decreases n,
    {
        if n == 0 || n > sizes.len() {
            (seq![], self, None)
        } else {
            let (splits, after, fault) = self.drained(sizes, (n - 1) as nat);
            if fault is Some {
                (splits, after, fault)
            } else {
                let (more, last, stop) = after.taken(sizes[n - 1]);
                (splits + more, last, stop)
            }
        }
    }
}

proof fn lemma_taken(state: Enumeration, count: nat)
    ensures
        ({
            let (splits, fault) = state.to_come();
            let (taken, after, stop) = state.taken(count);
            &&& after.policy == state.policy
            &&& after.files == state.files
            &&& if splits.len() < count && fault is Some {
                &&& stop == fault
                &&& after.pending.len() == 0
                &&& state.next_file < after.next_file <= state.files.len()
                &&& file_stream(state.policy, state.files, (after.next_file - 1) as nat) == (
                    Seq::<SplitModel>::empty(),
                    fault,
                )
            } else {
                let held = if splits.len() < count {
                    splits.len() as int
                } else {
                    count as int
                };
                &&& stop is None
                &&& taken == splits.take(held)
                &&& after.to_come() == (splits.skip(held), fault)
                &&& splits.len() < count ==> after.is_over()
            }
        }),
    decreases state.files.len() - state.next_file, count,
{
    let (splits, fault) = state.to_come();
    let (rest, _) = file_stream(state.policy, state.files, state.next_file);
    if count == 0 {
        assert(splits.take(0) =~= Seq::<SplitModel>::empty());
        assert(splits.skip(0) =~= splits);
    } else if state.pending.len() > 0 {
        let next = Enumeration { pending: state.pending.skip(1), ..state };
        lemma_taken(next, (count - 1) as nat);
        let later = next.to_come().0;
        assert(splits =~= seq![state.pending[0]] + later);
        let held = if splits.len() < count {
            splits.len() as int
        } else {
            count as int
        };
        if !(splits.len() < count && fault is Some) {
            assert(splits.take(held) =~= seq![state.pending[0]] + later.take(held - 1));
            assert(splits.skip(held) =~= later.skip(held - 1));
        }
    } else {
        assert(splits =~= rest);
        if state.next_file >= state.files.len() {
            assert(splits.take(0) =~= Seq::<SplitModel>::empty());
            assert(splits.skip(0) =~= splits);
        } else {
            let passed = Enumeration { next_file: state.next_file + 1, ..state };
            let file = state.files[state.next_file as int];
            match file.pruning {
                PruneVerdict::Failed(_) => {},
                PruneVerdict::Disjoint => {
                    assert(passed.to_come().0 =~= splits);
                    lemma_taken(passed, count);
                },
                PruneVerdict::Overlapping => match file_splits(state.policy, file) {
                    Err(_) => {},
                    Ok(own) => {
                        let loaded = Enumeration { pending: own, ..passed };
                        assert(loaded.to_come().0 =~= splits);
                        lemma_taken(loaded, count);
                    },
                },
            }
        }
    }
}

proof fn lemma_drained(state: Enumeration, sizes: Seq<nat>, n: nat)
    requires
        n <= sizes.len(),
        state.drained(sizes, n).2 is None,
    ensures
        state.drained(sizes, n).0 + state.drained(sizes, n).1.to_come().0 == state.to_come().0,
        state.drained(sizes, n).1.to_come().1 == state.to_come().1,
        state.drained(sizes, n).1.policy == state.policy,
        state.drained(sizes, n).1.files == state.files,
    decreases n,
{
    let all = state.to_come().0;
    if n == 0 {
        assert(Seq::<SplitModel>::empty() + all =~= all);
    } else {
        lemma_drained(state, sizes, (n - 1) as nat);
        let (splits, after, _) = state.drained(sizes, (n - 1) as nat);
        lemma_taken(after, sizes[n - 1]);
        let (more, last, _) = after.taken(sizes[n - 1]);
        let left = after.to_come().0;
        assert(more + last.to_come().0 =~= left);
        assert((splits + more) + last.to_come().0 =~= splits + left);
    }
}

/// How large the batches are changes nothing of what they hold: two enumerations from one start
/// that both come to their end without a fault hold the same splits in the same order, file after
/// file, none dropped and none repeated.
pub proof fn law_batch_sizes_do_not_matter(start: Enumeration, first: Seq<nat>, second: Seq<nat>)
    requires
        start.drained(first, first.len()).2 is None,
        start.drained(first, first.len()).1.is_over(),
        start.drained(second, second.len()).2 is None,
        start.drained(second, second.len()).1.is_over(),
    ensures
        start.drained(first, first.len()).0 == start.drained(second, second.len()).0,
        start.drained(first, first.len()).0 == start.to_come().0,
{
    lemma_drained(start, first, first.len());
    lemma_drained(start, second, second.len());
    let a = start.drained(first, first.len());
    let b = start.drained(second, second.len());
    assert(a.0 + a.1.to_come().0 =~= a.0);
    assert(b.0 + b.1.to_come().0 =~= b.0);
}

/// Whether two policies say the same.
pub open spec fn policies_agree(left: SplitPolicy, right: SplitPolicy) -> bool {
    &&& ids_model(left.projected_base_field_ids) == ids_model(right.projected_base_field_ids)
    &&& left.schema_field_ids@ == right.schema_field_ids@
    &&& left.target_split_size == right.target_split_size
    &&& left.merge_adjacent_split_offsets == right.merge_adjacent_split_offsets
    &&& left.specs@.len() == right.specs@.len()
    &&& forall|i: int|
        0 <= i < left.specs@.len() ==> (#[trigger] left.specs@[i]).spec_id == right.specs@[i].spec_id
            && left.specs@[i].field_count == right.specs@[i].field_count
            && left.specs@[i].identity_source_ids@ == right.specs@[i].identity_source_ids@
}

proof fn lemma_same_facts(left: Seq<SpecFacts>, right: Seq<SpecFacts>, spec_id: i32)
    requires
        left.len() == right.len(),
        forall|i: int|
            0 <= i < left.len() ==> (#[trigger] left[i]).spec_id == right[i].spec_id
                && left[i].field_count == right[i].field_count && left[i].identity_source_ids@
                == right[i].identity_source_ids@,
    ensures
        match (spec_facts(left, spec_id), spec_facts(right, spec_id)) {
            (Some(a), Some(b)) => a.field_count == b.field_count && a.identity_source_ids@
                == b.identity_source_ids@,
            (None, None) => true,
            _ => false,
        },
    decreases left.len(),
{
    if left.len() > 0 {
        assert(left[left.len() - 1].spec_id == right[right.len() - 1].spec_id);
        assert forall|i: int| 0 <= i < left.drop_last().len() implies (
        #[trigger] left.drop_last()[i]).spec_id == right.drop_last()[i].spec_id
            && left.drop_last()[i].field_count == right.drop_last()[i].field_count
            && left.drop_last()[i].identity_source_ids@ == right.drop_last()[i].identity_source_ids@ by {
            assert(left[i].spec_id == right[i].spec_id);
        }
        lemma_same_facts(left.drop_last(), right.drop_last(), spec_id);
    }
}

proof fn lemma_same_descriptors(left: SplitPolicy, right: SplitPolicy, file: IcebergPlannedDataFile, n: nat)
    requires
        policies_agree(left, right),
        n <= file.read_file.deletes@.len(),
    ensures
        delete_descriptors(left, file, n) == delete_descriptors(right, file, n),
    decreases n,
{
    if n > 0 {
        lemma_same_descriptors(left, right, file, (n - 1) as nat);
    }
}

proof fn lemma_same_splits(left: SplitPolicy, right: SplitPolicy, file: IcebergPlannedDataFile)
    requires
        policies_agree(left, right),
    ensures
        file_splits(left, file) == file_splits(right, file),
{
    lemma_same_descriptors(left, right, file, file.read_file.deletes@.len());
    if file.read_file.partition_spec_id is Some {
        lemma_same_facts(left.specs@, right.specs@, file.read_file.partition_spec_id->0);
    }
}

proof fn lemma_same_stream(left: SplitPolicy, right: SplitPolicy, files: Seq<IcebergPlannedDataFile>, from: nat)
    requires
        policies_agree(left, right),
    ensures
        file_stream(left, files, from) == file_stream(right, files, from),
    decreases files.len() - from,
{
    if from < files.len() {
        lemma_same_splits(left, right, files[from as int]);
        lemma_same_stream(left, right, files, from + 1);
    }
}

/// Two sources over the same files, under policies that say the same, hold the same splits in the
/// same order, whatever sizes their batches have.
pub proof fn law_equal_sources_hold_the_same_splits(
    left: IcebergSplitSource,
    right: IcebergSplitSource,
    first: Seq<nat>,
    second: Seq<nat>,
)
    requires
        left.files@ == right.files@,
        policies_agree(left.policy, right.policy),
        split_models(left.pending@) == split_models(right.pending@),
        left.next_file == right.next_file,
        left.state().drained(first, first.len()).2 is None,
        left.state().drained(first, first.len()).1.is_over(),
        right.state().drained(second, second.len()).2 is None,
        right.state().drained(second, second.len()).1.is_over(),
    ensures
        left.state().drained(first, first.len()).0 == right.state().drained(
            second,
            second.len(),
        ).0,
{
    law_batch_sizes_do_not_matter(left.state(), first, first);
    law_batch_sizes_do_not_matter(right.state(), second, second);
    lemma_same_stream(left.policy, right.policy, left.files@, left.next_file as nat);
}

/// Policies made of one table's facts say the same.
pub proof fn law_policies_of_one_table_agree(left: SplitPolicy, right: SplitPolicy, specs: Seq<PartitionSpec>)
    requires
        describes(left.specs@, specs),
        describes(right.specs@, specs),
        ids_model(left.projected_base_field_ids) == ids_model(right.projected_base_field_ids),
        left.schema_field_ids@ == right.schema_field_ids@,
        left.target_split_size == right.target_split_size,
        left.merge_adjacent_split_offsets == right.merge_adjacent_split_offsets,
    ensures
        policies_agree(left, right),
{
    assert forall|i: int| 0 <= i < left.specs@.len() implies (#[trigger] left.specs@[i]).spec_id
        == right.specs@[i].spec_id && left.specs@[i].field_count == right.specs@[i].field_count
        && left.specs@[i].identity_source_ids@ == right.specs@[i].identity_source_ids@ by {
        assert(right.specs@[i].spec_id == specs[i].spec_id);
    }
}

impl IcebergSplitSource {
    pub open spec fn wf(self) -> bool {
        &&& self.policy.wf()
        &&& self.next_file <= self.files@.len()
    }

    /// Where the enumeration stands.
    pub open spec fn state(self) -> Enumeration {
        Enumeration {
            policy: self.policy,
            files: self.files@,
            pending: split_models(self.pending@),
            next_file: self.next_file as nat,
        }
    }

    /// The splits still to come, and the fault that ends them, where one does.
    pub open spec fn to_come(self) -> (Seq<SplitModel>, Option<ConnectorError>) {
        self.state().to_come()
    }

    /// A source over the planned files of a pinned snapshot. A table without a snapshot, a limit
    /// of zero and a predicate that admits nothing each prove that there is nothing to read.
    pub fn try_new(
        table: &IcebergScanFacts,
        files: Vec<IcebergPlannedDataFile>,
        options: IcebergSplitSourceOptions,
    ) -> (source: Result<IcebergSplitSource, ConnectorError>)
        ensures
            ({
                let size = target_size(
                    options.session_max_split_size,
                    crate::carrier::text_model(table.target_size_property),
                );
                let bound = forall|i: int|
                    0 <= i < table.partition_specs@.len() ==> spec_binds(
                        table.schema.entries(),
                        #[trigger] table.partition_specs@[i],
                    );
                match source {
                    Ok(source) => {
                        &&& bound
                        &&& size is Ok
                        &&& size->Ok_0 > 0
                        &&& source.files == files
                        &&& source.next_file == 0
                        &&& source.pending@ == Seq::<IcebergSplit>::empty()
                        &&& !source.closed
                        &&& source.exhausted == (table.snapshot_id is None || table.limit == Some(0u64)
                            || table.predicate_is_none)
                        &&& ids_model(source.policy.projected_base_field_ids) == projected_ids(
                            table.projected_columns@,
                        )
                        &&& describes(source.policy.specs@, table.partition_specs@)
                        &&& source.policy.schema_field_ids@ == entry_ids(table.schema.entries())
                        &&& source.policy.target_split_size == (if size->Ok_0 > i64::MAX {
                            i64::MAX as int
                        } else {
                            size->Ok_0 as int
                        })
                        &&& source.policy.merge_adjacent_split_offsets
                            == options.merge_adjacent_split_offsets
                        &&& source.wf()
                    },
                    Err(error) => if !bound {
                        error == ConnectorError::Invalid(InvalidRequest::PartitionSpecDoesNotBind)
                    } else if size is Err {
                        size == Err::<u64, ConnectorError>(error)
                    } else {
                        size->Ok_0 == 0 && error == ConnectorError::Invalid(
                            InvalidRequest::ZeroTargetSize,
                        )
                    },
                }
            }),
    {
        let specs = match describe_specs(&table.schema, &table.partition_specs) {
            Ok(specs) => specs,
            Err(error) => return Err(error),
        };
        let target: u64 = match resolve_target_split_size(
            options.session_max_split_size,
            &table.target_size_property,
        ) {
            Ok(target) => target,
            Err(error) => return Err(error),
        };
        if target == 0 {
            return Err(ConnectorError::Invalid(InvalidRequest::ZeroTargetSize));
        }
        let limited = match table.limit {
            Some(limit) => limit == 0,
            None => false,
        };
        let target_split_size: i64 = if target > 9223372036854775807 {
            i64::MAX
        } else {
            target as i64
        };
        Ok(
            IcebergSplitSource {
                files,
                next_file: 0,
                pending: VecDeque::new(),
                closed: false,
                exhausted: table.snapshot_id.is_none() || limited || table.predicate_is_none,
                policy: SplitPolicy {
                    projected_base_field_ids: projected_base_ids(&table.projected_columns),
                    specs,
                    schema_field_ids: field_ids_in_order(&table.schema),
                    target_split_size,
                    merge_adjacent_split_offsets: options.merge_adjacent_split_offsets,
                },
            },
        )
    }

    /// The next splits, at most `max_size` and at most `max_splits_per_assignment` of them. A
    /// batch may be empty without being the last one. A fault of a file ends the call, unless the
    /// batch is full before that file is reached; what the call had gathered is gone then, and the
    /// next call goes on behind that file.
    pub fn next_batch(
        &mut self,
        max_size: usize,
        filter_is_none: bool,
        max_splits_per_assignment: usize,
    ) -> (batch: Result<ConnectorSplitBatch, ConnectorError>)
        requires
            old(self).wf(),
        ensures
            final(self).wf(),
            final(self).files == old(self).files,
            final(self).policy == old(self).policy,
            final(self).closed == old(self).closed,
            ({
                let cap = if max_size < max_splits_per_assignment {
                    max_size as int
                } else {
                    max_splits_per_assignment as int
                };
                let (splits, fault) = old(self).to_come();
                let (taken, after, stop) = old(self).state().taken(cap as nat);
                if max_size == 0 {
                    &&& batch == Err::<ConnectorSplitBatch, ConnectorError>(
                        ConnectorError::Invalid(InvalidRequest::EmptyBatchSize),
                    )
                    &&& final(self).state() == old(self).state()
                    &&& final(self).exhausted == old(self).exhausted
                } else if old(self).closed || old(self).exhausted || filter_is_none {
                    &&& batch is Ok
                    &&& batch->Ok_0.splits@ == Seq::<IcebergSplit>::empty()
                    &&& batch->Ok_0.no_more_splits
                    &&& final(self).state() == old(self).state()
                    &&& final(self).exhausted == (old(self).exhausted || (!old(self).closed && filter_is_none))
                } else if splits.len() < cap && fault is Some {
                    &&& batch == Err::<ConnectorSplitBatch, ConnectorError>(fault->0)
                    &&& final(self).state() == after
                    &&& stop == fault
                    &&& final(self).pending@.len() == 0
                    &&& old(self).next_file < final(self).next_file
                    &&& file_stream(
                        final(self).policy,
                        final(self).files@,
                        (final(self).next_file - 1) as nat,
                    ) == (Seq::<SplitModel>::empty(), fault)
                    &&& !final(self).exhausted
                } else {
                    let count = if splits.len() < cap {
                        splits.len() as int
                    } else {
                        cap
                    };
                    &&& batch is Ok
                    &&& split_models(batch->Ok_0.splits@) == splits.take(count)
                    &&& taken == splits.take(count)
                    &&& stop is None
                    &&& final(self).state() == after
                    &&& final(self).to_come() == (splits.skip(count), fault)
                    &&& batch->Ok_0.no_more_splits == after.is_over()
                    &&& !final(self).exhausted
                }
            }),
    {
        if max_size == 0 {
            return Err(ConnectorError::Invalid(InvalidRequest::EmptyBatchSize));
        }
        if self.closed || self.exhausted {
            return Ok(ConnectorSplitBatch { splits: Vec::new(), no_more_splits: true });
        }
        if filter_is_none {
            self.exhausted = true;
            return Ok(ConnectorSplitBatch { splits: Vec::new(), no_more_splits: true });
        }
        let cap: usize = if max_size < max_splits_per_assignment {
            max_size
        } else {
            max_splits_per_assignment
        };
        let ghost start = self.state();
        let ghost whole = start.taken(cap as nat);
        proof {
            lemma_taken(start, cap as nat);
        }
        let mut produced: Vec<IcebergSplit> = Vec::new();
        let mut ended = false;
        assert(split_models(produced@) + whole.0 =~= whole.0);
        while produced.len() < cap && !ended
            invariant
                self.wf(),
                self.files == old(self).files,
                self.policy == old(self).policy,
                self.closed == old(self).closed,
                !self.exhausted,
                produced@.len() <= cap,
                start == old(self).state(),
                whole == start.taken(cap as nat),
                ({
                    let rest = self.state().taken((cap - produced@.len()) as nat);
                    &&& whole.0 == split_models(produced@) + rest.0
                    &&& whole.1 == rest.1
                    &&& whole.2 == rest.2
                }),
                ended ==> self.pending@.len() == 0 && self.next_file >= self.files@.len(),
                max_size > 0,
                !old(self).closed,
                !old(self).exhausted,
                !filter_is_none,
                cap == (if max_size < max_splits_per_assignment {
                    max_size
                } else {
                    max_splits_per_assignment
                }),
            decreases
                (if ended {
                    0int
                } else {
                    1int
                }) + self.files@.len() - self.next_file,
                self.pending@.len(),
        {
            let ghost before = self.state();
            let ghost held = split_models(produced@);
            let ghost left = (cap - produced@.len()) as nat;
            match self.pending.pop_front() {
                Some(split) => {
                    proof {
                        assert(before.pending[0] == split.model());
                        assert(split_models(self.pending@) =~= before.pending.skip(1));
                        assert(self.state() == (Enumeration {
                            pending: before.pending.skip(1),
                            ..before
                        }));
                    }
                    produced.push(split);
                    proof {
                        let rest = self.state().taken((left - 1) as nat);
                        assert(split_models(produced@) =~= held.push(split.model()));
                        assert(split_models(produced@) + rest.0 =~= held + (seq![split.model()]
                            + rest.0));
                    }
                },
                None => {
                    assert(before.pending =~= Seq::<SplitModel>::empty());
                    let index: usize = self.next_file;
                    if index >= self.files.len() {
                        ended = true;
                    } else {
                        self.next_file = index + 1;
                        proof {
                            assert(split_models(self.pending@) =~= before.pending);
                            assert(self.state() == (Enumeration {
                                next_file: before.next_file + 1,
                                ..before
                            }));
                        }
                        match self.files[index].pruning {
                            PruneVerdict::Failed(error) => {
                                proof {
                                    lemma_taken(start, cap as nat);
                                }
                                return Err(error);
                            },
                            PruneVerdict::Disjoint => {},
                            PruneVerdict::Overlapping => {
                                match self.policy.splits_for_file(&self.files[index]) {
                                    Err(error) => {
                                        proof {
                                            lemma_taken(start, cap as nat);
                                        }
                                        return Err(error);
                                    },
                                    Ok(splits) => {
                                        let ghost models = split_models(splits@);
                                        enqueue(&mut self.pending, splits);
                                        proof {
                                            assert(split_models(self.pending@) =~= models);
                                        }
                                    },
                                }
                            },
                        }
                    }
                },
            }
        }
        assert(split_models(produced@) + Seq::<SplitModel>::empty() =~= split_models(produced@));
        let no_more_splits = self.pending.len() == 0 && self.next_file >= self.files.len();
        Ok(ConnectorSplitBatch { splits: produced, no_more_splits })
    }

    /// Whether there is nothing more to enumerate.
    pub fn is_finished(&self) -> (finished: bool)
        ensures
            finished == (self.closed || self.exhausted || (self.pending@.len() == 0 && self.next_file
                >= self.files@.len())),
    {
        self.closed || self.exhausted || (self.pending.len() == 0 && self.next_file
            >= self.files.len())
    }

    /// Let everything go. Closing again changes nothing; a batch already handed out stays with its
    /// taker.
    pub fn close(&mut self)
        ensures
            final(self).closed,
            final(self).pending@ == Seq::<IcebergSplit>::empty(),
            final(self).files@ == Seq::<IcebergPlannedDataFile>::empty(),
            final(self).next_file == 0,
            final(self).exhausted == old(self).exhausted,
            final(self).policy == old(self).policy,
            old(self).wf() ==> final(self).wf(),
    {
        self.closed = true;
        self.pending.clear();
        self.files.clear();
        self.next_file = 0;
    }
}

fn enqueue(pending: &mut VecDeque<IcebergSplit>, splits: Vec<IcebergSplit>)
    ensures
        final(pending)@ == old(pending)@ + splits@,
{
    let ghost all = splits@;
    let ghost start = pending@;
    let mut rest = splits;
    let mut reversed: Vec<IcebergSplit> = Vec::new();
    while rest.len() > 0
        invariant
            rest@ + reversed@.reverse() == all,
        decreases rest@.len(),
    {
        let ghost before = rest@;
        let ghost flipped = reversed@;
        match rest.pop() {
            Some(split) => {
                reversed.push(split);
                proof {
                    assert(reversed@.reverse() =~= seq![split] + flipped.reverse());
                    assert(before =~= rest@.push(split));
                    assert(rest@ + reversed@.reverse() =~= before + flipped.reverse());
                }
            },
            None => {},
        }
    }
    assert(reversed@.reverse() =~= all);
    while reversed.len() > 0
        invariant
            pending@ + reversed@.reverse() == start + all,
        decreases reversed@.len(),
    {
        let ghost before = reversed@;
        let ghost queued = pending@;
        match reversed.pop() {
            Some(split) => {
                pending.push_back(split);
                proof {
                    assert(before =~= reversed@.push(split));
                    assert(before.reverse() =~= seq![split] + reversed@.reverse());
                    assert(pending@ + reversed@.reverse() =~= queued + before.reverse());
                }
            },
            None => {},
        }
    }
    assert(pending@ =~= start + all);
}

} // verus!
