//! Facts about sequences that several modules need.

use vstd::prelude::*;

verus! {

/// The sum of a sequence of integers.
pub open spec fn total(values: Seq<int>) -> int
    decreases values.len(),
{
    if values.len() == 0 {
        0
    } else {
        total(values.drop_last()) + values.last()
    }
}

/// Adding one more value adds it to the sum.
pub proof fn lemma_total_push(values: Seq<int>, value: int)
    ensures
        total(values.push(value)) == total(values) + value,
{
    assert(values.push(value).drop_last() =~= values);
}

/// A sum of non-negative values is non-negative, and so is every partial sum's growth.
pub proof fn lemma_total_non_negative(values: Seq<int>)
    requires
        forall|i: int| 0 <= i < values.len() ==> values[i] >= 0,
    ensures
        total(values) >= 0,
    decreases values.len(),
{
    if values.len() > 0 {
        lemma_total_non_negative(values.drop_last());
    }
}

/// A prefix of non-negative values sums to at most the whole.
pub proof fn lemma_total_prefix(values: Seq<int>, n: int)
    requires
        forall|i: int| 0 <= i < values.len() ==> values[i] >= 0,
        0 <= n <= values.len(),
    ensures
        total(values.take(n)) <= total(values),
    decreases values.len() - n,
{
    if n == values.len() {
        assert(values.take(n) =~= values);
    } else {
        lemma_total_prefix(values, n + 1);
        assert(values.take(n + 1) =~= values.take(n).push(values[n]));
        lemma_total_push(values.take(n), values[n]);
    }
}

/// One more element of a filtered prefix.
pub proof fn lemma_filter_step<T>(values: Seq<T>, keep: spec_fn(T) -> bool, n: int)
    requires
        0 <= n < values.len(),
    ensures
        values.take(n + 1).filter(keep) == if keep(values[n]) {
            values.take(n).filter(keep).push(values[n])
        } else {
            values.take(n).filter(keep)
        },
{
    reveal(Seq::filter);
    assert(values.take(n + 1).drop_last() =~= values.take(n));
    assert(values.take(n + 1).last() == values[n]);
}

/// One more element of a mapped prefix.
pub proof fn lemma_map_step<T, U>(values: Seq<T>, f: spec_fn(T) -> U, n: int)
    requires
        0 <= n < values.len(),
    ensures
        values.take(n + 1).map_values(f) == values.take(n).map_values(f).push(f(values[n])),
{
    assert(values.take(n + 1).map_values(f) =~= values.take(n).map_values(f).push(f(values[n])));
}

/// A copy of a list of ids.
pub fn duplicate_ids(ids: &Vec<i32>) -> (copy: Vec<i32>)
    ensures
        copy@ == ids@,
{
    let mut copy: Vec<i32> = Vec::new();
    let mut i: usize = 0;
    while i < ids.len()
        invariant
            i <= ids.len(),
            copy@ == ids@.take(i as int),
        decreases ids.len() - i,
    {
        copy.push(ids[i]);
        assert(ids@.take(i + 1) =~= ids@.take(i as int).push(ids@[i as int]));
        i += 1;
    }
    assert(ids@.take(i as int) =~= ids@);
    copy
}

/// Whether two lists of ids are the same.
pub fn same_ids(left: &Vec<i32>, right: &Vec<i32>) -> (same: bool)
    ensures
        same == (left@ == right@),
{
    if left.len() != right.len() {
        return false;
    }
    let mut i: usize = 0;
    while i < left.len()
        invariant
            i <= left.len(),
            left.len() == right.len(),
            forall|k: int| 0 <= k < i ==> #[trigger] left@[k] == right@[k],
        decreases left.len() - i,
    {
        if left[i] != right[i] {
            return false;
        }
        i += 1;
    }
    assert(left@ =~= right@);
    true
}

} // verus!
