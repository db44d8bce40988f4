//! What the `$partitions` view says of the data files of a snapshot.

use vstd::prelude::*;

use crate::binding_laws::law_entries_are_found_by_their_id;
use crate::keyed::{ascending, get, law_get_after_put, law_put_keeps_ascending, named_model, put};
use crate::partitions_view::{
    absorbed, added_counts, aggregated, count_of, counts_fit, empty_aggregate, law_partitions_are_distinct,
    lemma_no_slot, lemma_slot_bound, merged_bounds, same_tuple, slot_of, sums_fit, AggregateModel,
};
use crate::seqs::{lemma_filter_step, lemma_total_prefix, lemma_total_push, total};
use crate::system_rows::FileRow;
use crate::value::{
    bytes_before, law_text_order_is_irreflexive, law_text_order_is_transitive, literal_less, literal_same,
    partition_value_model, partition_value_same, text_before, Datum, Literal, LiteralModel,
    PartitionValueModel,
};

verus! {

// ---------------------------------------------------------------------------
// The order of literals
// ---------------------------------------------------------------------------

/// Numbers are ordered by their values, and truth after falsehood. Literals of two kinds are not
/// ordered.
pub proof fn law_literals_are_ordered_by_value(a: int, b: int, p: bool, q: bool)
    ensures
        i32::MIN <= a <= i32::MAX && i32::MIN <= b <= i32::MAX ==> literal_less(
            LiteralModel::Int(a as i32),
            LiteralModel::Int(b as i32),
        ) == (a < b),
        i64::MIN <= a <= i64::MAX && i64::MIN <= b <= i64::MAX ==> literal_less(
            LiteralModel::Long(a as i64),
            LiteralModel::Long(b as i64),
        ) == (a < b),
        i128::MIN <= a <= i128::MAX && i128::MIN <= b <= i128::MAX ==> literal_less(
            LiteralModel::Int128(a as i128),
            LiteralModel::Int128(b as i128),
        ) == (a < b),
        0 <= a <= u128::MAX && 0 <= b <= u128::MAX ==> literal_less(
            LiteralModel::UInt128(a as u128),
            LiteralModel::UInt128(b as u128),
        ) == (a < b),
        literal_less(LiteralModel::Boolean(p), LiteralModel::Boolean(q)) == (!p && q),
        !literal_less(LiteralModel::Int(a as i32), LiteralModel::Long(b as i64)),
{
}

/// Floating-point numbers are ordered by value: a negative one comes before a positive one, of two
/// positive ones the lesser bits come first, of two negative ones the greater bits. Both zeros are
/// one, and no number comes after a NaN.
pub proof fn law_floats_are_ordered_by_value(a: u64, b: u64)
    ensures
        a < 0x7ff0_0000_0000_0000 && b < 0x7ff0_0000_0000_0000 ==> literal_less(
            LiteralModel::Double(a),
            LiteralModel::Double(b),
        ) == (a < b),
        0x8000_0000_0000_0000 <= a < 0xfff0_0000_0000_0000 && 0x8000_0000_0000_0000 <= b
            < 0xfff0_0000_0000_0000 ==> literal_less(LiteralModel::Double(a), LiteralModel::Double(b)) == (b
            < a),
        0x8000_0000_0000_0000 < a < 0xfff0_0000_0000_0000 && b < 0x7ff0_0000_0000_0000 ==> literal_less(
            LiteralModel::Double(a),
            LiteralModel::Double(b),
        ),
        !literal_less(LiteralModel::Double(0x8000_0000_0000_0000), LiteralModel::Double(0)),
        !literal_less(LiteralModel::Double(0), LiteralModel::Double(0x8000_0000_0000_0000)),
        literal_same(LiteralModel::Double(0), LiteralModel::Double(0x8000_0000_0000_0000)),
        a < 0x7ff0_0000_0000_0000 ==> literal_less(
            LiteralModel::Double(a),
            LiteralModel::Double(0x7ff8_0000_0000_0000),
        ),
        !literal_less(LiteralModel::Double(0x7ff8_0000_0000_0000), LiteralModel::Double(b)),
{
}

/// A text comes before another where it is a proper beginning of it, or where the first character
/// in which the two differ is the lesser one. Bytes are ordered the same way.
pub proof fn law_texts_are_ordered_by_their_first_difference(left: Seq<char>, right: Seq<char>, i: int)
    requires
        0 <= i <= left.len(),
        i <= right.len(),
        forall|k: int| 0 <= k < i ==> left[k] == right[k],
    ensures
        i == left.len() && i < right.len() ==> text_before(left, right) && !text_before(right, left),
        i < left.len() && i < right.len() && left[i] != right[i] ==> text_before(left, right) == ((
        left[i] as int) < (right[i] as int)),
    decreases i,
{
    if i > 0 {
        let a = left.drop_first();
        let b = right.drop_first();
        assert forall|k: int| 0 <= k < i - 1 implies a[k] == b[k] by {
            assert(left[k + 1] == right[k + 1]);
        }
        assert(left[0] == right[0]);
        law_texts_are_ordered_by_their_first_difference(a, b, i - 1);
        if i < left.len() && i < right.len() {
            assert(a[i - 1] == left[i] && b[i - 1] == right[i]);
        }
    }
}

proof fn lemma_bytes_transitive(a: Seq<u8>, b: Seq<u8>, c: Seq<u8>)
    requires
        bytes_before(a, b),
        bytes_before(b, c),
    ensures
        bytes_before(a, c),
    decreases a.len(),
{
    if a.len() > 0 && b.len() > 0 && c.len() > 0 && a[0] == b[0] && b[0] == c[0] {
        lemma_bytes_transitive(a.drop_first(), b.drop_first(), c.drop_first());
    }
}

proof fn lemma_bytes_irreflexive(a: Seq<u8>)
    ensures
        !bytes_before(a, a),
    decreases a.len(),
{
    if a.len() > 0 {
        lemma_bytes_irreflexive(a.drop_first());
    }
}

/// The order of literals is strict: no literal is less than itself, and what is less than a lesser
/// one is less.
pub proof fn law_literal_order_is_strict(a: LiteralModel, b: LiteralModel, c: LiteralModel)
    ensures
        !literal_less(a, a),
        literal_less(a, b) && literal_less(b, c) ==> literal_less(a, c),
{
    match a {
        LiteralModel::String(x) => {
            law_text_order_is_irreflexive(x);
            if let (LiteralModel::String(y), LiteralModel::String(z)) = (b, c) {
                if literal_less(a, b) && literal_less(b, c) {
                    law_text_order_is_transitive(x, y, z);
                }
            }
        },
        LiteralModel::Binary(x) => {
            lemma_bytes_irreflexive(x);
            if let (LiteralModel::Binary(y), LiteralModel::Binary(z)) = (b, c) {
                if literal_less(a, b) && literal_less(b, c) {
                    lemma_bytes_transitive(x, y, z);
                }
            }
        },
        _ => {},
    }
}

/// Being the same value is an equivalence, and for all but floating-point numbers it is equality.
pub proof fn law_same_values_are_equal(a: PartitionValueModel, b: PartitionValueModel, c: PartitionValueModel)
    ensures
        partition_value_same(a, a),
        partition_value_same(a, b) == partition_value_same(b, a),
        partition_value_same(a, b) && partition_value_same(b, c) ==> partition_value_same(a, c),
        a == b ==> partition_value_same(a, b),
        partition_value_same(a, b) ==> a == b || (a is Primitive && (a->Primitive_0 is Float
            || a->Primitive_0 is Double)),
{
}

proof fn lemma_tuples(
    a: Seq<(Seq<char>, &Option<Literal>)>,
    b: Seq<(Seq<char>, &Option<Literal>)>,
    c: Seq<(Seq<char>, &Option<Literal>)>,
)
    ensures
        same_tuple(a, a),
        same_tuple(a, b) ==> same_tuple(b, a),
        same_tuple(a, b) && same_tuple(b, c) ==> same_tuple(a, c),
{
    if same_tuple(a, b) {
        assert forall|i: int| 0 <= i < b.len() implies partition_value_same(
            partition_value_model(*(#[trigger] b[i]).1),
            partition_value_model(*a[i].1),
        ) by {
            assert(partition_value_same(
                partition_value_model(*a[i].1),
                partition_value_model(*b[i].1),
            ));
        }
        if same_tuple(b, c) {
            assert forall|i: int| 0 <= i < a.len() implies partition_value_same(
                partition_value_model(*(#[trigger] a[i]).1),
                partition_value_model(*c[i].1),
            ) by {
                assert(partition_value_same(
                    partition_value_model(*b[i].1),
                    partition_value_model(*c[i].1),
                ));
            }
        }
    }
}

/// Two partition tuples are one partition exactly where they have the same values, place by place.
pub proof fn law_partitions_are_told_apart_by_their_values(
    left: Seq<(Seq<char>, &Option<Literal>)>,
    right: Seq<(Seq<char>, &Option<Literal>)>,
)
    ensures
        same_tuple(left, right) <==> left.len() == right.len() && forall|i: int|
            0 <= i < left.len() ==> partition_value_same(
                partition_value_model(*(#[trigger] left[i]).1),
                partition_value_model(*right[i].1),
            ),
        same_tuple(left, left),
        same_tuple(left, right) == same_tuple(right, left),
{
    lemma_tuples(left, right, left);
    lemma_tuples(right, left, right);
}

// ---------------------------------------------------------------------------
// Bounds
// ---------------------------------------------------------------------------

/// Whether a file is a data file of a partition.
pub open spec fn belongs(row: FileRow, aggregate: AggregateModel) -> bool {
    row.content == 0 && same_tuple(aggregate.partition, named_model(row.partition@))
}

/// The bounds of one side that a file states.
pub open spec fn bounds_of_row<'a>(row: FileRow<'a>, lower: bool) -> Seq<(i32, &'a Datum)> {
    if lower {
        row.lower_bounds@
    } else {
        row.upper_bounds@
    }
}

/// The bounds of one side that a partition has.
pub open spec fn bounds_of_partition<'a>(aggregate: AggregateModel<'a>, lower: bool) -> Seq<(i32, &'a Datum)> {
    if lower {
        aggregate.lower_bounds
    } else {
        aggregate.upper_bounds
    }
}

/// Whether a bound takes a value in: a lower bound that the value is not below, or an upper bound
/// that it is not above.
pub open spec fn takes_in(bound: Datum, value: Datum, lower: bool) -> bool {
    if lower {
        !literal_less(value.literal.model(), bound.literal.model())
    } else {
        !literal_less(bound.literal.model(), value.literal.model())
    }
}

/// Whether the bounds of a partition take in every bound that a file states.
pub open spec fn takes_in_all(bounds: Seq<(i32, &Datum)>, stated: Seq<(i32, &Datum)>, lower: bool) -> bool {
    forall|k: int|
        0 <= k < stated.len() ==> {
            &&& get(bounds, (#[trigger] stated[k]).0) is Some
            &&& takes_in(*get(bounds, stated[k].0)->0, *stated[k].1, lower)
        }
}

proof fn lemma_takes_in(better: Datum, bound: Datum, value: Datum, lower: bool)
    ensures
        takes_in(bound, bound, lower),
        takes_in(bound, value, lower) && (better == bound || if lower {
            literal_less(better.literal.model(), bound.literal.model())
        } else {
            literal_less(bound.literal.model(), better.literal.model())
        }) ==> takes_in(better, value, lower),
{
    law_literal_order_is_strict(bound.literal.model(), bound.literal.model(), bound.literal.model());
    if lower {
        law_literal_order_is_strict(
            value.literal.model(),
            better.literal.model(),
            bound.literal.model(),
        );
    } else {
        law_literal_order_is_strict(
            bound.literal.model(),
            better.literal.model(),
            value.literal.model(),
        );
    }
}

proof fn lemma_merged_bounds<'a>(list: Seq<(i32, &'a Datum)>, bounds: Seq<(i32, &'a Datum)>, lower: bool, n: nat)
    requires
        n <= bounds.len(),
        ascending(list),
    ensures
        ({
            let merged = merged_bounds(list, bounds, lower, n);
            &&& ascending(merged)
            &&& forall|id: i32, value: Datum|
                (#[trigger] get(list, id)) is Some && #[trigger] takes_in(*get(list, id)->0, value, lower)
                    ==> get(merged, id) is Some && takes_in(*get(merged, id)->0, value, lower)
            &&& forall|id: i32| (#[trigger] get(list, id)) is Some ==> get(merged, id) is Some
            &&& forall|k: int|
                0 <= k < n ==> get(merged, (#[trigger] bounds[k]).0) is Some && takes_in(
                    *get(merged, bounds[k].0)->0,
                    *bounds[k].1,
                    lower,
                )
            &&& forall|id: i32|
                (#[trigger] get(merged, id)) is Some ==> get(list, id) == get(merged, id) || exists|k: int|
                    0 <= k < n && #[trigger] bounds[k] == (id, get(merged, id)->0)
        }),
    decreases n,
{
    if n > 0 {
        lemma_merged_bounds(list, bounds, lower, (n - 1) as nat);
        let before = merged_bounds(list, bounds, lower, (n - 1) as nat);
        let merged = merged_bounds(list, bounds, lower, n);
        let (id, datum) = bounds[n - 1];
        let replaced = get(before, id) is None || crate::partitions_view::replaces(
            *datum,
            *get(before, id)->0,
            lower,
        );
        if replaced {
            law_put_keeps_ascending(before, id, datum);
            assert(merged == put(before, id, datum));
        }
        assert forall|other: i32| #[trigger] get(merged, other) == if replaced && other == id {
            Some(datum)
        } else {
            get(before, other)
        } by {
            if replaced {
                law_get_after_put(before, id, datum, other);
            }
        }
        assert(get(merged, id) is Some && takes_in(*get(merged, id)->0, *datum, lower)) by {
            lemma_takes_in(*datum, *datum, *datum, lower);
        }
        assert forall|other: i32, value: Datum|
            (#[trigger] get(before, other)) is Some && #[trigger] takes_in(*get(before, other)->0, value, lower) implies get(
            merged,
            other,
        ) is Some && takes_in(*get(merged, other)->0, value, lower) by {
            if replaced && other == id {
                lemma_takes_in(*datum, *get(before, id)->0, value, lower);
            }
        }
        assert forall|other: i32, value: Datum|
            (#[trigger] get(list, other)) is Some && #[trigger] takes_in(*get(list, other)->0, value, lower) implies get(
            merged,
            other,
        ) is Some && takes_in(*get(merged, other)->0, value, lower) by {
            assert(get(before, other) is Some && takes_in(*get(before, other)->0, value, lower));
        }
        assert forall|k: int| 0 <= k < n implies get(merged, (#[trigger] bounds[k]).0) is Some && takes_in(
            *get(merged, bounds[k].0)->0,
            *bounds[k].1,
            lower,
        ) by {
            if k < n - 1 {
                assert(get(before, bounds[k].0) is Some && takes_in(
                    *get(before, bounds[k].0)->0,
                    *bounds[k].1,
                    lower,
                ));
            }
        }
        assert forall|other: i32| (#[trigger] get(merged, other)) is Some implies get(list, other) == get(
            merged,
            other,
        ) || exists|k: int| 0 <= k < n && #[trigger] bounds[k] == (other, get(merged, other)->0) by {
            if replaced && other == id {
                assert(bounds[n - 1] == (other, get(merged, other)->0));
            } else {
                assert(get(before, other) == get(merged, other));
                if get(list, other) != get(before, other) {
                    let k = choose|k: int|
                        0 <= k < n - 1 && #[trigger] bounds[k] == (other, get(before, other)->0);
                    assert(bounds[k] == (other, get(merged, other)->0));
                }
            }
        }
    }
}

proof fn lemma_one_partition(rows: Seq<FileRow>, n: nat, row: FileRow, a: int, b: int)
    requires
        n <= rows.len(),
        0 <= a < aggregated(rows, n).len(),
        0 <= b < aggregated(rows, n).len(),
        belongs(row, aggregated(rows, n)[a]),
        belongs(row, aggregated(rows, n)[b]),
    ensures
        a == b,
{
    let aggregates = aggregated(rows, n);
    let tuple = named_model(row.partition@);
    law_partitions_are_distinct(rows, n);
    lemma_tuples(aggregates[b].partition, tuple, tuple);
    lemma_tuples(aggregates[a].partition, tuple, aggregates[b].partition);
    lemma_tuples(aggregates[a].partition, tuple, tuple);
    lemma_tuples(aggregates[b].partition, tuple, aggregates[a].partition);
    if a < b {
        assert(!same_tuple(aggregates[a].partition, aggregates[b].partition));
    } else if b < a {
        assert(!same_tuple(aggregates[b].partition, aggregates[a].partition));
    }
}

proof fn lemma_every_file_has_a_partition(rows: Seq<FileRow>, n: nat, r: int)
    requires
        n <= rows.len(),
        0 <= r < n,
        rows[r].content == 0,
    ensures
        exists|a: int| 0 <= a < aggregated(rows, n).len() && #[trigger] belongs(rows[r], aggregated(rows, n)[a]),
    decreases n,
{
    let before = aggregated(rows, (n - 1) as nat);
    let after = aggregated(rows, n);
    let row = rows[n - 1];
    let tuple = named_model(row.partition@);
    lemma_slot_bound(before, tuple, 0);
    if r < n - 1 {
        lemma_every_file_has_a_partition(rows, (n - 1) as nat, r);
        let a = choose|a: int| 0 <= a < before.len() && #[trigger] belongs(rows[r], before[a]);
        assert(after[a].partition == before[a].partition);
        assert(belongs(rows[r], after[a]));
    } else {
        match slot_of(before, tuple, 0) {
            Some(slot) => {
                assert(belongs(row, after[slot as int]));
            },
            None => {
                lemma_tuples(tuple, tuple, tuple);
                assert(belongs(row, after[before.len() as int]));
            },
        }
    }
}

/// How a row changes the partitions: its own takes it in, the others stay. No earlier file belongs
/// to a partition that is new.
proof fn lemma_step(rows: Seq<FileRow>, n: nat, a: int)
    requires
        0 < n <= rows.len(),
        0 <= a < aggregated(rows, n).len(),
    ensures
        ({
            let before = aggregated(rows, (n - 1) as nat);
            let after = aggregated(rows, n);
            let row = rows[n - 1];
            &&& belongs(row, after[a]) ==> after[a] == absorbed(
                if a < before.len() {
                    before[a]
                } else {
                    empty_aggregate(named_model(row.partition@))
                },
                row,
            )
            &&& !belongs(row, after[a]) ==> a < before.len() && after[a] == before[a]
            &&& a < before.len() ==> after[a].partition == before[a].partition
            &&& a >= before.len() ==> forall|r: int|
                0 <= r < n - 1 ==> !belongs(#[trigger] rows[r], after[a])
        }),
{
    let before = aggregated(rows, (n - 1) as nat);
    let after = aggregated(rows, n);
    let row = rows[n - 1];
    let tuple = named_model(row.partition@);
    if row.content == 0 {
        lemma_slot_bound(before, tuple, 0);
        match slot_of(before, tuple, 0) {
            Some(slot) => {
                assert(after[slot as int].partition == before[slot as int].partition);
                if belongs(row, after[a]) {
                    assert(belongs(row, after[slot as int]));
                    lemma_one_partition(rows, n, row, a, slot as int);
                } else if a == slot {
                    assert(belongs(row, after[a]));
                }
            },
            None => {
                if a < before.len() {
                    lemma_no_slot(before, tuple, 0, a);
                } else {
                    lemma_tuples(tuple, tuple, tuple);
                    assert forall|r: int| 0 <= r < n - 1 implies !belongs(#[trigger] rows[r], after[a]) by {
                        if belongs(rows[r], after[a]) {
                            let other = named_model(rows[r].partition@);
                            lemma_every_file_has_a_partition(rows, (n - 1) as nat, r);
                            let b = choose|b: int| 0 <= b < before.len() && #[trigger] belongs(rows[r], before[b]);
                            lemma_tuples(tuple, other, tuple);
                            lemma_tuples(before[b].partition, other, tuple);
                            lemma_no_slot(before, tuple, 0, b);
                        }
                    }
                }
            },
        }
    }
}

/// Whether some file of a partition states a bound.
pub open spec fn is_stated(rows: Seq<FileRow>, n: nat, aggregate: AggregateModel, lower: bool, bound: (i32, &Datum)) -> bool {
    exists|r: int|
        0 <= r < n && belongs(#[trigger] rows[r], aggregate) && bounds_of_row(rows[r], lower).contains(bound)
}

proof fn lemma_partition_bounds(rows: Seq<FileRow>, n: nat, a: int, lower: bool)
    requires
        n <= rows.len(),
        0 <= a < aggregated(rows, n).len(),
    ensures
        ({
            let own = aggregated(rows, n)[a];
            let bounds = bounds_of_partition(own, lower);
            &&& ascending(bounds)
            &&& forall|r: int|
                0 <= r < n && belongs(#[trigger] rows[r], own) ==> takes_in_all(
                    bounds,
                    bounds_of_row(rows[r], lower),
                    lower,
                )
            &&& forall|id: i32|
                (#[trigger] get(bounds, id)) is Some ==> is_stated(
                    rows,
                    n,
                    own,
                    lower,
                    (id, get(bounds, id)->0),
                )
        }),
    decreases n,
{
    if n > 0 {
        let before = aggregated(rows, (n - 1) as nat);
        let after = aggregated(rows, n);
        let row = rows[n - 1];
        lemma_step(rows, n, a);
        let own = after[a];
        let bounds = bounds_of_partition(own, lower);
        let stated = bounds_of_row(row, lower);
        let earlier = if a < before.len() {
            before[a]
        } else {
            empty_aggregate(named_model(row.partition@))
        };
        let list = bounds_of_partition(earlier, lower);
        if a < before.len() {
            lemma_partition_bounds(rows, (n - 1) as nat, a, lower);
        }
        assert(ascending(list));
        if belongs(row, own) {
            assert(bounds == merged_bounds(list, stated, lower, stated.len()));
            lemma_merged_bounds(list, stated, lower, stated.len());
        }
        assert forall|r: int| 0 <= r < n && belongs(#[trigger] rows[r], own) implies takes_in_all(
            bounds,
            bounds_of_row(rows[r], lower),
            lower,
        ) by {
            if r < n - 1 {
                assert(a < before.len());
                assert(belongs(rows[r], before[a]));
                let theirs = bounds_of_row(rows[r], lower);
                assert(takes_in_all(list, theirs, lower));
                if belongs(row, own) {
                    assert forall|k: int| 0 <= k < theirs.len() implies get(
                        bounds,
                        (#[trigger] theirs[k]).0,
                    ) is Some && takes_in(*get(bounds, theirs[k].0)->0, *theirs[k].1, lower) by {
                        assert(get(list, theirs[k].0) is Some && takes_in(
                            *get(list, theirs[k].0)->0,
                            *theirs[k].1,
                            lower,
                        ));
                    }
                }
            }
        }
        assert forall|id: i32| (#[trigger] get(bounds, id)) is Some implies is_stated(
            rows,
            n,
            own,
            lower,
            (id, get(bounds, id)->0),
        ) by {
            let bound = (id, get(bounds, id)->0);
            if belongs(row, own) && get(list, id) != get(bounds, id) {
                let k = choose|k: int| 0 <= k < stated.len() && #[trigger] stated[k] == bound;
                assert(stated.contains(bound));
                assert(belongs(rows[n - 1], own));
            } else {
                assert(get(list, id) == get(bounds, id));
                assert(a < before.len());
                assert(is_stated(rows, (n - 1) as nat, before[a], lower, bound));
                let r = choose|r: int|
                    0 <= r < n - 1 && belongs(#[trigger] rows[r], before[a]) && bounds_of_row(
                        rows[r],
                        lower,
                    ).contains(bound);
                assert(belongs(rows[r], own));
            }
        }
    }
}

/// The bounds of a partition are those of its data files. Every bound that one of them states for a
/// field is taken in: the partition has a lower bound for the field that is not greater, or an
/// upper bound that is not less. And a bound of the partition is one that some file of it states.
pub proof fn law_partition_bounds_take_in_every_file(rows: Seq<FileRow>, a: int, lower: bool)
    requires
        0 <= a < aggregated(rows, rows.len()).len(),
    ensures
        ({
            let own = aggregated(rows, rows.len())[a];
            let bounds = bounds_of_partition(own, lower);
            &&& forall|r: int, k: int|
                0 <= r < rows.len() && rows[r].content == 0 && same_tuple(
                    own.partition,
                    named_model(rows[r].partition@),
                ) && 0 <= k < bounds_of_row(rows[r], lower).len() ==> {
                    let (id, stated) = #[trigger] bounds_of_row(rows[r], lower)[k];
                    &&& get(bounds, id) is Some
                    &&& lower ==> !literal_less(
                        stated.literal.model(),
                        get(bounds, id)->0.literal.model(),
                    )
                    &&& !lower ==> !literal_less(
                        get(bounds, id)->0.literal.model(),
                        stated.literal.model(),
                    )
                }
            &&& forall|id: i32|
                (#[trigger] get(bounds, id)) is Some ==> exists|r: int|
                    0 <= r < rows.len() && (#[trigger] rows[r]).content == 0 && same_tuple(
                        own.partition,
                        named_model(rows[r].partition@),
                    ) && bounds_of_row(rows[r], lower).contains((id, get(bounds, id)->0))
        }),
{
    lemma_partition_bounds(rows, rows.len(), a, lower);
    let own = aggregated(rows, rows.len())[a];
    let bounds = bounds_of_partition(own, lower);
    assert forall|r: int, k: int|
        0 <= r < rows.len() && rows[r].content == 0 && same_tuple(
            own.partition,
            named_model(rows[r].partition@),
        ) && 0 <= k < bounds_of_row(rows[r], lower).len() implies {
        let (id, stated) = #[trigger] bounds_of_row(rows[r], lower)[k];
        &&& get(bounds, id) is Some
        &&& lower ==> !literal_less(stated.literal.model(), get(bounds, id)->0.literal.model())
        &&& !lower ==> !literal_less(get(bounds, id)->0.literal.model(), stated.literal.model())
    } by {
        assert(belongs(rows[r], own));
        let theirs = bounds_of_row(rows[r], lower);
        assert(takes_in_all(bounds, theirs, lower));
        assert(get(bounds, theirs[k].0) is Some);
    }
    assert forall|id: i32| (#[trigger] get(bounds, id)) is Some implies exists|r: int|
        0 <= r < rows.len() && (#[trigger] rows[r]).content == 0 && same_tuple(
            own.partition,
            named_model(rows[r].partition@),
        ) && bounds_of_row(rows[r], lower).contains((id, get(bounds, id)->0)) by {
        assert(is_stated(rows, rows.len(), own, lower, (id, get(bounds, id)->0)));
        let r = choose|r: int|
            0 <= r < rows.len() && belongs(#[trigger] rows[r], own) && bounds_of_row(
                rows[r],
                lower,
            ).contains((id, get(bounds, id)->0));
        assert(rows[r].content == 0);
    }
}

/// Every data file is in a partition of the view, by its own tuple, and in only one.
pub proof fn law_every_data_file_is_in_one_partition(rows: Seq<FileRow>, r: int)
    requires
        0 <= r < rows.len(),
        rows[r].content == 0,
    ensures
        exists|a: int|
            0 <= a < aggregated(rows, rows.len()).len() && same_tuple(
                (#[trigger] aggregated(rows, rows.len())[a]).partition,
                named_model(rows[r].partition@),
            ),
        forall|a: int, b: int|
            0 <= a < aggregated(rows, rows.len()).len() && 0 <= b < aggregated(rows, rows.len()).len()
                && same_tuple(
                (#[trigger] aggregated(rows, rows.len())[a]).partition,
                named_model(rows[r].partition@),
            ) && same_tuple(
                (#[trigger] aggregated(rows, rows.len())[b]).partition,
                named_model(rows[r].partition@),
            ) ==> a == b,
{
    lemma_every_file_has_a_partition(rows, rows.len(), r);
    let aggregates = aggregated(rows, rows.len());
    let a = choose|a: int| 0 <= a < aggregates.len() && #[trigger] belongs(rows[r], aggregates[a]);
    assert(same_tuple(aggregates[a].partition, named_model(rows[r].partition@)));
    assert forall|a: int, b: int|
        0 <= a < aggregates.len() && 0 <= b < aggregates.len() && same_tuple(
            (#[trigger] aggregates[a]).partition,
            named_model(rows[r].partition@),
        ) && same_tuple((#[trigger] aggregates[b]).partition, named_model(rows[r].partition@)) implies a == b by {
        lemma_one_partition(rows, rows.len(), rows[r], a, b);
    }
}

/// A partition of the view has at least one data file, and its tuple is that of one.
pub proof fn law_partitions_have_a_data_file(rows: Seq<FileRow>, n: nat, a: int)
    requires
        n <= rows.len(),
        0 <= a < aggregated(rows, n).len(),
    ensures
        exists|r: int|
            0 <= r < n && (#[trigger] rows[r]).content == 0 && aggregated(rows, n)[a].partition == named_model(
                rows[r].partition@,
            ),
    decreases n,
{
    let before = aggregated(rows, (n - 1) as nat);
    lemma_step(rows, n, a);
    if a < before.len() {
        law_partitions_have_a_data_file(rows, (n - 1) as nat, a);
        let r = choose|r: int|
            0 <= r < n - 1 && (#[trigger] rows[r]).content == 0 && before[a].partition == named_model(
                rows[r].partition@,
            );
        assert(rows[r].content == 0);
    } else {
        assert(rows[n - 1].content == 0);
    }
}

// ---------------------------------------------------------------------------
// Counts
// ---------------------------------------------------------------------------

/// The files of a partition among the first `n` rows.
pub open spec fn files_of<'a>(rows: Seq<FileRow<'a>>, aggregate: AggregateModel, n: nat) -> Seq<FileRow<'a>> {
    rows.take(n as int).filter(|row: FileRow<'a>| belongs(row, aggregate))
}

/// The records, bytes and files of a list of files.
pub open spec fn records(rows: Seq<FileRow>) -> Seq<int> {
    rows.map_values(|row: FileRow| row.record_count as int)
}

pub open spec fn sizes(rows: Seq<FileRow>) -> Seq<int> {
    rows.map_values(|row: FileRow| row.file_size_in_bytes as int)
}

proof fn lemma_files_step<'a>(rows: Seq<FileRow<'a>>, aggregate: AggregateModel, n: nat)
    requires
        0 < n <= rows.len(),
    ensures
        ({
            let before = files_of(rows, aggregate, (n - 1) as nat);
            let after = files_of(rows, aggregate, n);
            let row = rows[n - 1];
            if belongs(row, aggregate) {
                &&& after == before.push(row)
                &&& records(after) == records(before).push(row.record_count as int)
                &&& sizes(after) == sizes(before).push(row.file_size_in_bytes as int)
            } else {
                after == before
            }
        }),
{
    let keep = |row: FileRow<'a>| belongs(row, aggregate);
    lemma_filter_step(rows, keep, n - 1);
    let before = files_of(rows, aggregate, (n - 1) as nat);
    let after = files_of(rows, aggregate, n);
    let row = rows[n - 1];
    if belongs(row, aggregate) {
        assert(records(after) =~= records(before).push(row.record_count as int));
        assert(sizes(after) =~= sizes(before).push(row.file_size_in_bytes as int));
    }
}

proof fn lemma_same_partition_same_files<'a>(rows: Seq<FileRow<'a>>, left: AggregateModel, right: AggregateModel, n: nat)
    requires
        n <= rows.len(),
        left.partition == right.partition,
    ensures
        files_of(rows, left, n) == files_of(rows, right, n),
    decreases n,
{
    if n > 0 {
        lemma_same_partition_same_files(rows, left, right, (n - 1) as nat);
        lemma_files_step(rows, left, n);
        lemma_files_step(rows, right, n);
    } else {
        reveal(Seq::filter);
    }
}

proof fn lemma_no_files<'a>(rows: Seq<FileRow<'a>>, aggregate: AggregateModel, n: nat)
    requires
        n <= rows.len(),
        forall|r: int| 0 <= r < n ==> !belongs(#[trigger] rows[r], aggregate),
    ensures
        files_of(rows, aggregate, n) == Seq::<FileRow<'a>>::empty(),
    decreases n,
{
    if n > 0 {
        lemma_no_files(rows, aggregate, (n - 1) as nat);
        lemma_files_step(rows, aggregate, n);
    } else {
        reveal(Seq::filter);
        assert(files_of(rows, aggregate, 0) =~= Seq::<FileRow<'a>>::empty());
    }
}

proof fn lemma_part_of_the_sum(rows: Seq<FileRow>, aggregate: AggregateModel, n: nat)
    requires
        n <= rows.len(),
        forall|r: int|
            0 <= r < rows.len() ==> (#[trigger] rows[r]).record_count >= 0 && rows[r].file_size_in_bytes >= 0,
    ensures
        total(records(files_of(rows, aggregate, n))) <= total(records(rows)),
        total(sizes(files_of(rows, aggregate, n))) <= total(sizes(rows)),
{
    lemma_part_of_the_prefix(rows, aggregate, n);
    assert(records(rows.take(n as int)) =~= records(rows).take(n as int));
    assert(sizes(rows.take(n as int)) =~= sizes(rows).take(n as int));
    lemma_total_prefix(records(rows), n as int);
    lemma_total_prefix(sizes(rows), n as int);
}

proof fn lemma_part_of_the_prefix(rows: Seq<FileRow>, aggregate: AggregateModel, n: nat)
    requires
        n <= rows.len(),
        forall|r: int|
            0 <= r < rows.len() ==> (#[trigger] rows[r]).record_count >= 0 && rows[r].file_size_in_bytes >= 0,
    ensures
        total(records(files_of(rows, aggregate, n))) <= total(records(rows.take(n as int))),
        total(sizes(files_of(rows, aggregate, n))) <= total(sizes(rows.take(n as int))),
    decreases n,
{
    if n > 0 {
        lemma_part_of_the_prefix(rows, aggregate, (n - 1) as nat);
        lemma_files_step(rows, aggregate, n);
        let row = rows[n - 1];
        let before = rows.take(n - 1);
        let after = rows.take(n as int);
        assert(records(after) =~= records(before).push(row.record_count as int));
        assert(sizes(after) =~= sizes(before).push(row.file_size_in_bytes as int));
        lemma_total_push(records(before), row.record_count as int);
        lemma_total_push(sizes(before), row.file_size_in_bytes as int);
        let files = files_of(rows, aggregate, (n - 1) as nat);
        lemma_total_push(records(files), row.record_count as int);
        lemma_total_push(sizes(files), row.file_size_in_bytes as int);
    } else {
        reveal(Seq::filter);
        assert(files_of(rows, aggregate, 0) =~= Seq::<FileRow>::empty());
        assert(records(files_of(rows, aggregate, 0)) =~= records(rows.take(0)));
        assert(sizes(files_of(rows, aggregate, 0)) =~= sizes(rows.take(0)));
    }
}

proof fn lemma_partition_sums(rows: Seq<FileRow>, n: nat, a: int)
    requires
        n <= rows.len() <= i64::MAX,
        0 <= a < aggregated(rows, n).len(),
        forall|r: int|
            0 <= r < rows.len() ==> (#[trigger] rows[r]).record_count >= 0 && rows[r].file_size_in_bytes >= 0,
        total(records(rows)) <= i64::MAX,
        total(sizes(rows)) <= i64::MAX,
    ensures
        ({
            let own = aggregated(rows, n)[a];
            let files = files_of(rows, own, n);
            &&& own.record_count == total(records(files))
            &&& own.total_size == total(sizes(files))
            &&& own.file_count == files.len()
            &&& files.len() <= n
        }),
    decreases n,
{
    let before = aggregated(rows, (n - 1) as nat);
    let after = aggregated(rows, n);
    let row = rows[n - 1];
    let own = after[a];
    lemma_step(rows, n, a);
    lemma_files_step(rows, own, n);
    let files = files_of(rows, own, (n - 1) as nat);
    if a < before.len() {
        lemma_partition_sums(rows, (n - 1) as nat, a);
        lemma_same_partition_same_files(rows, before[a], own, (n - 1) as nat);
    } else {
        lemma_no_files(rows, own, (n - 1) as nat);
        assert(records(files) =~= Seq::<int>::empty());
        assert(sizes(files) =~= Seq::<int>::empty());
    }
    if belongs(row, own) {
        lemma_total_push(records(files), row.record_count as int);
        lemma_total_push(sizes(files), row.file_size_in_bytes as int);
        lemma_part_of_the_sum(rows, own, n);
    }
}

/// The record count, the size and the file count of a partition are the sums over its data files,
/// as long as no sum leaves its range.
pub proof fn law_partitions_add_up_their_files(rows: Seq<FileRow>, a: int)
    requires
        rows.len() <= i64::MAX,
        0 <= a < aggregated(rows, rows.len()).len(),
        forall|r: int|
            0 <= r < rows.len() ==> (#[trigger] rows[r]).record_count >= 0 && rows[r].file_size_in_bytes >= 0,
        total(records(rows)) <= i64::MAX,
        total(sizes(rows)) <= i64::MAX,
    ensures
        ({
            let own = aggregated(rows, rows.len())[a];
            let files = files_of(rows, own, rows.len());
            &&& own.record_count == total(records(files))
            &&& own.total_size == total(sizes(files))
            &&& own.file_count == files.len()
        }),
{
    lemma_partition_sums(rows, rows.len(), a);
}

proof fn lemma_added_counts(list: Seq<(i32, i64)>, counts: Seq<(i32, i64)>, n: nat, id: i32)
    requires
        n <= counts.len(),
        ascending(list),
        ascending(counts),
        counts_fit(list, counts, n),
    ensures
        ascending(added_counts(list, counts, n)),
        count_of(added_counts(list, counts, n), id) == count_of(list, id) + count_of(
            counts.take(n as int),
            id,
        ),
    decreases n,
{
    if n > 0 {
        lemma_added_counts(list, counts, (n - 1) as nat, id);
        let (own, count) = counts[n - 1];
        lemma_added_counts(list, counts, (n - 1) as nat, own);
        let before = added_counts(list, counts, (n - 1) as nat);
        let sum = (count_of(before, own) + count) as i64;
        law_put_keeps_ascending(before, own, sum);
        law_get_after_put(before, own, sum, id);
        let taken = counts.take(n as int);
        let shorter = counts.take(n - 1);
        assert(taken.drop_last() =~= shorter);
        assert(taken.last() == counts[n - 1]);
        if id == own {
            law_entries_are_found_by_their_id(shorter, own);
            if get(shorter, own) is Some {
                let k = choose|k: int| 0 <= k < shorter.len() && #[trigger] shorter[k] == (own, get(shorter, own)->0);
                assert(counts[k].0 < counts[n - 1].0);
            }
        }
    }
}

/// The null counts, and the NaN counts, of a list of files for a field.
pub open spec fn field_counts(rows: Seq<FileRow>, nan: bool, id: i32) -> Seq<int> {
    rows.map_values(
        |row: FileRow|
            count_of(
                if nan {
                    row.nan_value_counts@
                } else {
                    row.null_value_counts@
                },
                id,
            ),
    )
}

proof fn lemma_partition_counts(rows: Seq<FileRow>, n: nat, a: int, nan: bool, id: i32)
    requires
        n <= rows.len(),
        0 <= a < aggregated(rows, n).len(),
        sums_fit(rows, n),
        forall|r: int|
            0 <= r < rows.len() ==> ascending((#[trigger] rows[r]).null_value_counts@) && ascending(
                rows[r].nan_value_counts@,
            ),
    ensures
        ({
            let own = aggregated(rows, n)[a];
            let list = if nan {
                own.nan_counts
            } else {
                own.null_counts
            };
            &&& ascending(list)
            &&& count_of(list, id) == total(field_counts(files_of(rows, own, n), nan, id))
        }),
    decreases n,
{
    let before = aggregated(rows, (n - 1) as nat);
    let after = aggregated(rows, n);
    let row = rows[n - 1];
    let own = after[a];
    lemma_step(rows, n, a);
    lemma_files_step(rows, own, n);
    let files = files_of(rows, own, (n - 1) as nat);
    let stated = if nan {
        row.nan_value_counts@
    } else {
        row.null_value_counts@
    };
    let earlier = if a < before.len() {
        before[a]
    } else {
        empty_aggregate(named_model(row.partition@))
    };
    let list = if nan {
        earlier.nan_counts
    } else {
        earlier.null_counts
    };
    if a < before.len() {
        lemma_partition_counts(rows, (n - 1) as nat, a, nan, id);
        lemma_same_partition_same_files(rows, before[a], own, (n - 1) as nat);
    } else {
        lemma_no_files(rows, own, (n - 1) as nat);
        assert(field_counts(files, nan, id) =~= Seq::<int>::empty());
    }
    if belongs(row, own) {
        let tuple = named_model(row.partition@);
        assert(crate::partitions_view::aggregate_for(before, row) == earlier) by {
            lemma_slot_bound(before, tuple, 0);
            match slot_of(before, tuple, 0) {
                Some(slot) => {
                    assert(belongs(row, after[slot as int])) by {
                        assert(after[slot as int].partition == before[slot as int].partition);
                    }
                    lemma_one_partition(rows, n, row, a, slot as int);
                },
                None => {
                    if a < before.len() {
                        lemma_no_slot(before, tuple, 0, a);
                    }
                },
            }
        }
        assert(ascending(stated));
        lemma_added_counts(list, stated, stated.len(), id);
        assert(stated.take(stated.len() as int) =~= stated);
        assert(field_counts(files_of(rows, own, n), nan, id) =~= field_counts(files, nan, id).push(
            count_of(stated, id),
        ));
        lemma_total_push(field_counts(files, nan, id), count_of(stated, id));
    }
}

/// The null and NaN counts of a partition for a field are the sums of what its data files state.
pub proof fn law_partitions_add_up_null_and_nan_counts(rows: Seq<FileRow>, a: int, nan: bool, id: i32)
    requires
        0 <= a < aggregated(rows, rows.len()).len(),
        sums_fit(rows, rows.len()),
        forall|r: int|
            0 <= r < rows.len() ==> ascending((#[trigger] rows[r]).null_value_counts@) && ascending(
                rows[r].nan_value_counts@,
            ),
    ensures
        ({
            let own = aggregated(rows, rows.len())[a];
            count_of(
                if nan {
                    own.nan_counts
                } else {
                    own.null_counts
                },
                id,
            ) == total(field_counts(files_of(rows, own, rows.len()), nan, id))
        }),
{
    lemma_partition_counts(rows, rows.len(), a, nan, id);
}

} // verus!
