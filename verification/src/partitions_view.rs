//! The `$partitions` view: the file rows of one pinned snapshot, aggregated by partition.

use vstd::prelude::*;

use crate::keyed::{find_entry, get, named_model, put, put_entry};
use crate::seqs::{lemma_total_push, total};
use crate::system_rows::FileRow;
use crate::value::{is_literal_less, is_partition_value_same, literal_less, partition_value_model, partition_value_same, Datum, Literal};

verus! {

/// One partition of the view.
pub struct PartitionAggregate<'a> {
    pub partition: Vec<(String, &'a Option<Literal>)>,
    pub record_count: i64,
    pub file_count: i64,
    pub total_size: i64,
    pub lower_bounds: Vec<(i32, &'a Datum)>,
    pub upper_bounds: Vec<(i32, &'a Datum)>,
    pub null_counts: Vec<(i32, i64)>,
    pub nan_counts: Vec<(i32, i64)>,
}

/// [`PartitionAggregate`] as a mathematical value.
pub struct AggregateModel<'a> {
    pub partition: Seq<(Seq<char>, &'a Option<Literal>)>,
    pub record_count: i64,
    pub file_count: i64,
    pub total_size: i64,
    pub lower_bounds: Seq<(i32, &'a Datum)>,
    pub upper_bounds: Seq<(i32, &'a Datum)>,
    pub null_counts: Seq<(i32, i64)>,
    pub nan_counts: Seq<(i32, i64)>,
}

impl<'a> PartitionAggregate<'a> {
    pub open spec fn model(self) -> AggregateModel<'a> {
        AggregateModel {
            partition: named_model(self.partition@),
            record_count: self.record_count,
            file_count: self.file_count,
            total_size: self.total_size,
            lower_bounds: self.lower_bounds@,
            upper_bounds: self.upper_bounds@,
            null_counts: self.null_counts@,
            nan_counts: self.nan_counts@,
        }
    }
}

/// The models of a list of aggregates.
pub open spec fn aggregate_models<'a>(aggregates: Seq<PartitionAggregate<'a>>) -> Seq<AggregateModel<'a>> {
    aggregates.map_values(|aggregate: PartitionAggregate<'a>| aggregate.model())
}

/// A sum that stops at the ends of `i64`.
pub open spec fn clamped(value: int) -> i64 {
    if value > i64::MAX {
        i64::MAX
    } else if value < i64::MIN {
        i64::MIN
    } else {
        value as i64
    }
}

/// Add, and stop at the ends of the range.
pub fn saturating_sum(left: i64, right: i64) -> (sum: i64)
    ensures
        sum == clamped(left + right),
{
    match left.checked_add(right) {
        Some(sum) => sum,
        None => if right > 0 {
            i64::MAX
        } else {
            i64::MIN
        },
    }
}

/// Whether two tuples of partition values are the same, value by value in name order.
pub open spec fn same_tuple(left: Seq<(Seq<char>, &Option<Literal>)>, right: Seq<(Seq<char>, &Option<Literal>)>) -> bool {
    &&& left.len() == right.len()
    &&& forall|i: int|
        0 <= i < left.len() ==> partition_value_same(
            partition_value_model(*(#[trigger] left[i]).1),
            partition_value_model(*right[i].1),
        )
}

fn is_same_tuple(left: &Vec<(String, &Option<Literal>)>, right: &Vec<(String, &Option<Literal>)>) -> (same: bool)
    ensures
        same == same_tuple(named_model(left@), named_model(right@)),
{
    let ghost a = named_model(left@);
    let ghost b = named_model(right@);
    if left.len() != right.len() {
        return false;
    }
    let mut i: usize = 0;
    while i < left.len()
        invariant
            i <= left.len(),
            left.len() == right.len(),
            a == named_model(left@),
            b == named_model(right@),
            forall|k: int|
                0 <= k < i ==> partition_value_same(
                    partition_value_model(*(#[trigger] a[k]).1),
                    partition_value_model(*b[k].1),
                ),
        decreases left.len() - i,
    {
        assert(a[i as int].1 == left@[i as int].1);
        assert(b[i as int].1 == right@[i as int].1);
        if !is_partition_value_same(left[i].1, right[i].1) {
            return false;
        }
        i += 1;
    }
    true
}

/// The first aggregate at or after `from` that has a tuple.
pub open spec fn slot_of(aggregates: Seq<AggregateModel>, partition: Seq<(Seq<char>, &Option<Literal>)>, from: nat) -> Option<nat>
    decreases aggregates.len() - from,
{
    if from >= aggregates.len() {
        None
    } else if same_tuple(aggregates[from as int].partition, partition) {
        Some(from)
    } else {
        slot_of(aggregates, partition, from + 1)
    }
}

/// The bounds of an aggregate after the first `n` bounds of a row: the lesser of two lower
/// bounds, the greater of two upper bounds.
pub open spec fn merged_bounds<'a>(
    list: Seq<(i32, &'a Datum)>,
    bounds: Seq<(i32, &'a Datum)>,
    lower: bool,
    n: nat,
) -> Seq<(i32, &'a Datum)>
    decreases n,
{
    if n == 0 || n > bounds.len() {
        list
    } else {
        let before = merged_bounds(list, bounds, lower, (n - 1) as nat);
        let (id, datum) = bounds[n - 1];
        match get(before, id) {
            None => put(before, id, datum),
            Some(existing) => if replaces(*datum, *existing, lower) {
                put(before, id, datum)
            } else {
                before
            },
        }
    }
}

/// Whether a bound widens the range that an existing one states.
pub open spec fn replaces(datum: Datum, existing: Datum, lower: bool) -> bool {
    if lower {
        literal_less(datum.literal.model(), existing.literal.model())
    } else {
        literal_less(existing.literal.model(), datum.literal.model())
    }
}

fn merge_bounds<'a>(list: &mut Vec<(i32, &'a Datum)>, bounds: &Vec<(i32, &'a Datum)>, lower: bool)
    ensures
        final(list)@ == merged_bounds(old(list)@, bounds@, lower, bounds@.len()),
{
    let mut i: usize = 0;
    while i < bounds.len()
        invariant
            i <= bounds.len(),
            list@ == merged_bounds(old(list)@, bounds@, lower, i as nat),
        decreases bounds.len() - i,
    {
        let (id, datum): (i32, &'a Datum) = bounds[i];
        match find_entry(list, id) {
            None => put_entry(list, id, datum),
            Some(at) => {
                let existing: &'a Datum = list[at].1;
                let widens = if lower {
                    is_literal_less(&datum.literal, &existing.literal)
                } else {
                    is_literal_less(&existing.literal, &datum.literal)
                };
                if widens {
                    put_entry(list, id, datum);
                }
            },
        }
        i += 1;
    }
}

/// The count under an id, zero where there is none.
pub open spec fn count_of(list: Seq<(i32, i64)>, id: i32) -> int {
    match get(list, id) {
        Some(count) => count as int,
        None => 0,
    }
}

/// The counts of an aggregate after the first `n` counts of a row.
pub open spec fn added_counts(list: Seq<(i32, i64)>, counts: Seq<(i32, i64)>, n: nat) -> Seq<(i32, i64)>
    decreases n,
{
    if n == 0 || n > counts.len() {
        list
    } else {
        let before = added_counts(list, counts, (n - 1) as nat);
        let (id, count) = counts[n - 1];
        put(before, id, (count_of(before, id) + count) as i64)
    }
}

/// Whether the first `n` counts of a row can be added to those of an aggregate: no sum on the way
/// leaves the range.
pub open spec fn counts_fit(list: Seq<(i32, i64)>, counts: Seq<(i32, i64)>, n: nat) -> bool
    decreases n,
{
    n == 0 || n > counts.len() || {
        let before = added_counts(list, counts, (n - 1) as nat);
        let (id, count) = counts[n - 1];
        counts_fit(list, counts, (n - 1) as nat) && i64::MIN <= count_of(before, id) + count
            <= i64::MAX
    }
}

proof fn lemma_counts_fit_stays(list: Seq<(i32, i64)>, counts: Seq<(i32, i64)>, n: nat)
    requires
        n <= counts.len(),
        !counts_fit(list, counts, n),
    ensures
        !counts_fit(list, counts, counts.len()),
    decreases counts.len() - n,
{
    if n < counts.len() {
        lemma_counts_fit_stays(list, counts, n + 1);
    }
}

/// Add the counts of a row. Where they do not fit, what the list holds afterwards means nothing.
fn add_counts(list: &mut Vec<(i32, i64)>, counts: &Vec<(i32, i64)>) -> (fit: bool)
    ensures
        fit == counts_fit(old(list)@, counts@, counts@.len()),
        fit ==> final(list)@ == added_counts(old(list)@, counts@, counts@.len()),
{
    let ghost start = list@;
    let mut i: usize = 0;
    while i < counts.len()
        invariant
            i <= counts.len(),
            start == old(list)@,
            list@ == added_counts(start, counts@, i as nat),
            counts_fit(start, counts@, i as nat),
        decreases counts.len() - i,
    {
        let (id, count): (i32, i64) = counts[i];
        let ghost before = list@;
        let existing: i64 = match find_entry(list, id) {
            Some(at) => list[at].1,
            None => 0,
        };
        assert(existing == count_of(before, id));
        match existing.checked_add(count) {
            Some(sum) => put_entry(list, id, sum),
            None => {
                proof {
                    lemma_counts_fit_stays(start, counts@, (i + 1) as nat);
                }
                return false;
            },
        }
        i += 1;
    }
    true
}

/// An aggregate without any file.
pub open spec fn empty_aggregate<'a>(partition: Seq<(Seq<char>, &'a Option<Literal>)>) -> AggregateModel<'a> {
    AggregateModel {
        partition,
        record_count: 0,
        file_count: 0,
        total_size: 0,
        lower_bounds: seq![],
        upper_bounds: seq![],
        null_counts: seq![],
        nan_counts: seq![],
    }
}

/// An aggregate with one more file.
pub open spec fn absorbed<'a>(aggregate: AggregateModel<'a>, row: FileRow<'a>) -> AggregateModel<'a> {
    AggregateModel {
        partition: aggregate.partition,
        record_count: clamped(aggregate.record_count + row.record_count),
        file_count: clamped(aggregate.file_count + 1),
        total_size: clamped(aggregate.total_size + row.file_size_in_bytes),
        lower_bounds: merged_bounds(
            aggregate.lower_bounds,
            row.lower_bounds@,
            true,
            row.lower_bounds@.len(),
        ),
        upper_bounds: merged_bounds(
            aggregate.upper_bounds,
            row.upper_bounds@,
            false,
            row.upper_bounds@.len(),
        ),
        null_counts: added_counts(
            aggregate.null_counts,
            row.null_value_counts@,
            row.null_value_counts@.len(),
        ),
        nan_counts: added_counts(
            aggregate.nan_counts,
            row.nan_value_counts@,
            row.nan_value_counts@.len(),
        ),
    }
}

/// The partitions of the first `n` rows, in the order of their first mention. Only data files
/// take part.
pub open spec fn aggregated<'a>(rows: Seq<FileRow<'a>>, n: nat) -> Seq<AggregateModel<'a>>
    decreases n,
{
    if n == 0 || n > rows.len() {
        seq![]
    } else {
        let before = aggregated(rows, (n - 1) as nat);
        let row = rows[n - 1];
        if row.content != 0 {
            before
        } else {
            match slot_of(before, named_model(row.partition@), 0) {
                Some(slot) => before.update(slot as int, absorbed(before[slot as int], row)),
                None => before.push(absorbed(empty_aggregate(named_model(row.partition@)), row)),
            }
        }
    }
}

/// The aggregate that a row is added to.
pub open spec fn aggregate_for<'a>(aggregates: Seq<AggregateModel<'a>>, row: FileRow<'a>) -> AggregateModel<'a> {
    match slot_of(aggregates, named_model(row.partition@), 0) {
        Some(slot) => aggregates[slot as int],
        None => empty_aggregate(named_model(row.partition@)),
    }
}

/// Whether the null and NaN counts of the first `n` rows can be added up, partition by partition.
pub open spec fn sums_fit(rows: Seq<FileRow>, n: nat) -> bool
    decreases n,
{
    n == 0 || n > rows.len() || {
        let aggregate = aggregate_for(aggregated(rows, (n - 1) as nat), rows[n - 1]);
        let row = rows[n - 1];
        sums_fit(rows, (n - 1) as nat) && (row.content != 0 || counts_fit(
            aggregate.null_counts,
            row.null_value_counts@,
            row.null_value_counts@.len(),
        ) && counts_fit(
            aggregate.nan_counts,
            row.nan_value_counts@,
            row.nan_value_counts@.len(),
        ))
    }
}

proof fn lemma_sums_fit_stays(rows: Seq<FileRow>, n: nat)
    requires
        n <= rows.len(),
        !sums_fit(rows, n),
    ensures
        !sums_fit(rows, rows.len()),
    decreases rows.len() - n,
{
    if n < rows.len() {
        lemma_sums_fit_stays(rows, n + 1);
    }
}

fn find_slot<'a>(aggregates: &Vec<PartitionAggregate<'a>>, partition: &Vec<(String, &'a Option<Literal>)>) -> (slot: Option<usize>)
    ensures
        match slot {
            Some(at) => at < aggregates@.len() && slot_of(
                aggregate_models(aggregates@),
                named_model(partition@),
                0,
            ) == Some(at as nat),
            None => slot_of(aggregate_models(aggregates@), named_model(partition@), 0) is None,
        },
{
    let ghost models = aggregate_models(aggregates@);
    let mut i: usize = 0;
    while i < aggregates.len()
        invariant
            i <= aggregates.len(),
            models == aggregate_models(aggregates@),
            slot_of(models, named_model(partition@), 0) == slot_of(
                models,
                named_model(partition@),
                i as nat,
            ),
        decreases aggregates.len() - i,
    {
        assert(models[i as int].partition == named_model(aggregates@[i as int].partition@));
        if is_same_tuple(&aggregates[i].partition, partition) {
            return Some(i);
        }
        i += 1;
    }
    None
}

fn duplicate_partition<'a>(partition: &Vec<(String, &'a Option<Literal>)>) -> (copy: Vec<(String, &'a Option<Literal>)>)
    ensures
        named_model(copy@) == named_model(partition@),
{
    let mut copy: Vec<(String, &'a Option<Literal>)> = Vec::new();
    let mut i: usize = 0;
    while i < partition.len()
        invariant
            i <= partition.len(),
            copy@.len() == i,
            forall|k: int| 0 <= k < i ==> (#[trigger] copy@[k]).0@ == partition@[k].0@ && copy@[k].1 == partition@[k].1,
        decreases partition.len() - i,
    {
        let value: &'a Option<Literal> = partition[i].1;
        copy.push((partition[i].0.clone(), value));
        i += 1;
    }
    assert(named_model(copy@) =~= named_model(partition@));
    copy
}

/// Aggregate the file rows of a pinned snapshot by partition, where their counts can be added up.
pub fn try_aggregate_partitions<'a>(rows: &Vec<FileRow<'a>>) -> (aggregates: Option<Vec<PartitionAggregate<'a>>>)
    ensures
        match aggregates {
            Some(aggregates) => sums_fit(rows@, rows@.len()) && aggregate_models(aggregates@)
                == aggregated(rows@, rows@.len()),
            None => !sums_fit(rows@, rows@.len()),
        },
{
    let mut aggregates: Vec<PartitionAggregate<'a>> = Vec::new();
    let mut i: usize = 0;
    assert(aggregate_models(aggregates@) =~= Seq::<AggregateModel<'a>>::empty());
    while i < rows.len()
        invariant
            i <= rows.len(),
            sums_fit(rows@, i as nat),
            aggregate_models(aggregates@) == aggregated(rows@, i as nat),
        decreases rows.len() - i,
    {
        let row = &rows[i];
        if row.content == 0 {
            let ghost before = aggregate_models(aggregates@);
            let ghost unextended = aggregates@;
            let slot: usize = match find_slot(&aggregates, &row.partition) {
                Some(slot) => slot,
                None => {
                    aggregates.push(
                        PartitionAggregate {
                            partition: duplicate_partition(&row.partition),
                            record_count: 0,
                            file_count: 0,
                            total_size: 0,
                            lower_bounds: Vec::new(),
                            upper_bounds: Vec::new(),
                            null_counts: Vec::new(),
                            nan_counts: Vec::new(),
                        },
                    );
                    aggregates.len() - 1
                },
            };
            let ghost extended = aggregates@;
            let mut aggregate = aggregates.remove(slot);
            let ghost old_model = aggregate.model();
            proof {
                assert(aggregate == extended[slot as int]);
                assert(old_model == aggregate_for(before, *row));
            }
            aggregate.record_count = saturating_sum(aggregate.record_count, row.record_count);
            aggregate.file_count = saturating_sum(aggregate.file_count, 1);
            aggregate.total_size = saturating_sum(aggregate.total_size, row.file_size_in_bytes);
            merge_bounds(&mut aggregate.lower_bounds, &row.lower_bounds, true);
            merge_bounds(&mut aggregate.upper_bounds, &row.upper_bounds, false);
            let nulls_fit = add_counts(&mut aggregate.null_counts, &row.null_value_counts);
            let nans_fit = add_counts(&mut aggregate.nan_counts, &row.nan_value_counts);
            if !nulls_fit || !nans_fit {
                proof {
                    assert(!sums_fit(rows@, (i + 1) as nat));
                    lemma_sums_fit_stays(rows@, (i + 1) as nat);
                }
                return None;
            }
            proof {
                assert(aggregate.model() == absorbed(old_model, *row));
            }
            let ghost updated = aggregate;
            aggregates.insert(slot, aggregate);
            proof {
                assert(aggregates@ =~= extended.update(slot as int, updated));
                assert(aggregate_models(aggregates@) =~= aggregate_models(extended).update(
                    slot as int,
                    updated.model(),
                ));
                if unextended.len() < extended.len() {
                    assert(aggregate_models(aggregates@) =~= before.push(updated.model()));
                } else {
                    assert(extended =~= unextended);
                }
            }
        }
        i += 1;
    }
    Some(aggregates)
}

/// Aggregate the file rows of a pinned snapshot by partition.
pub fn aggregate_partitions<'a>(rows: &Vec<FileRow<'a>>) -> (aggregates: Vec<PartitionAggregate<'a>>)
    requires
        sums_fit(rows@, rows@.len()),
    ensures
        aggregate_models(aggregates@) == aggregated(rows@, rows@.len()),
{
    match try_aggregate_partitions(rows) {
        Some(aggregates) => aggregates,
        None => Vec::new(),
    }
}

/// The number of data files among the first `n` rows.
pub open spec fn data_files(rows: Seq<FileRow>, n: nat) -> int
    decreases n,
{
    if n == 0 || n > rows.len() {
        0
    } else {
        data_files(rows, (n - 1) as nat) + (if rows[n - 1].content == 0 {
            1int
        } else {
            0
        })
    }
}

/// The file counts of a list of aggregates.
pub open spec fn file_counts(aggregates: Seq<AggregateModel>) -> Seq<int> {
    aggregates.map_values(|aggregate: AggregateModel| aggregate.file_count as int)
}

pub proof fn lemma_slot_bound(aggregates: Seq<AggregateModel>, partition: Seq<(Seq<char>, &Option<Literal>)>, from: nat)
    ensures
        slot_of(aggregates, partition, from) is Some ==> slot_of(aggregates, partition, from)->0
            < aggregates.len() && same_tuple(
            aggregates[slot_of(aggregates, partition, from)->0 as int].partition,
            partition,
        ),
    decreases aggregates.len() - from,
{
    if from < aggregates.len() && !same_tuple(aggregates[from as int].partition, partition) {
        lemma_slot_bound(aggregates, partition, from + 1);
    }
}

proof fn lemma_total_update(values: Seq<int>, at: int, value: int)
    requires
        0 <= at < values.len(),
    ensures
        total(values.update(at, value)) == total(values) - values[at] + value,
    decreases values.len(),
{
    let changed = values.update(at, value);
    if at == values.len() - 1 {
        assert(changed.drop_last() =~= values.drop_last());
    } else {
        assert(changed.drop_last() =~= values.drop_last().update(at, value));
        lemma_total_update(values.drop_last(), at, value);
    }
}

/// No data file is lost or counted twice: the file counts of the partitions add up to the number
/// of data files.
pub proof fn law_every_data_file_is_counted_once(rows: Seq<FileRow>, n: nat)
    requires
        n <= rows.len(),
        rows.len() <= i64::MAX,
    ensures
        total(file_counts(aggregated(rows, n))) == data_files(rows, n),
        forall|k: int| 0 <= k < aggregated(rows, n).len() ==> 1 <= (#[trigger] aggregated(rows, n)[k]).file_count
            <= n,
    decreases n,
{
    if n > 0 {
        law_every_data_file_is_counted_once(rows, (n - 1) as nat);
        let before = aggregated(rows, (n - 1) as nat);
        let after = aggregated(rows, n);
        let row = rows[n - 1];
        if row.content == 0 {
            lemma_slot_bound(before, named_model(row.partition@), 0);
            match slot_of(before, named_model(row.partition@), 0) {
                Some(slot) => {
                    let updated = absorbed(before[slot as int], row);
                    assert(updated.file_count == before[slot as int].file_count + 1);
                    assert(file_counts(after) =~= file_counts(before).update(
                        slot as int,
                        updated.file_count as int,
                    ));
                    lemma_total_update(file_counts(before), slot as int, updated.file_count as int);
                },
                None => {
                    let added = absorbed(empty_aggregate(named_model(row.partition@)), row);
                    assert(added.file_count == 1);
                    assert(file_counts(after) =~= file_counts(before).push(1));
                    lemma_total_push(file_counts(before), 1);
                },
            }
        }
    }
}

/// Two partitions of the view never have the same tuple.
pub proof fn law_partitions_are_distinct(rows: Seq<FileRow>, n: nat)
    requires
        n <= rows.len(),
    ensures
        forall|a: int, b: int|
            0 <= a < b < aggregated(rows, n).len() ==> !same_tuple(
                (#[trigger] aggregated(rows, n)[a]).partition,
                (#[trigger] aggregated(rows, n)[b]).partition,
            ),
    decreases n,
{
    if n > 0 {
        law_partitions_are_distinct(rows, (n - 1) as nat);
        let before = aggregated(rows, (n - 1) as nat);
        let after = aggregated(rows, n);
        let row = rows[n - 1];
        if row.content == 0 {
            let tuple = named_model(row.partition@);
            lemma_slot_bound(before, tuple, 0);
            match slot_of(before, tuple, 0) {
                Some(slot) => {
                    assert forall|a: int, b: int| 0 <= a < b < after.len() implies !same_tuple(
                        (#[trigger] after[a]).partition,
                        (#[trigger] after[b]).partition,
                    ) by {
                        assert(after[a].partition == before[a].partition);
                        assert(after[b].partition == before[b].partition);
                    }
                },
                None => {
                    assert forall|a: int, b: int| 0 <= a < b < after.len() implies !same_tuple(
                        (#[trigger] after[a]).partition,
                        (#[trigger] after[b]).partition,
                    ) by {
                        if b == before.len() {
                            lemma_no_slot(before, tuple, 0, a);
                        } else {
                            assert(after[a] == before[a] && after[b] == before[b]);
                        }
                    }
                },
            }
        }
    }
}

pub proof fn lemma_no_slot(aggregates: Seq<AggregateModel>, partition: Seq<(Seq<char>, &Option<Literal>)>, from: nat, k: int)
    requires
        slot_of(aggregates, partition, from) is None,
        from <= k < aggregates.len(),
    ensures
        !same_tuple(aggregates[k].partition, partition),
    decreases aggregates.len() - from,
{
    if from < k {
        lemma_no_slot(aggregates, partition, from + 1, k);
    }
}

} // verus!
