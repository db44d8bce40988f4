//! Association lists in ascending order of their keys, which are field ids or names.

use vstd::prelude::*;

use crate::value::{is_text_before, law_text_order_is_irreflexive, law_text_order_is_total, law_text_order_is_transitive, text_before};

verus! {

// ---------------------------------------------------------------------------
// Keyed by field id
// ---------------------------------------------------------------------------

/// An ascending list with one more entry in its place; an entry of the same id makes way for it.
pub open spec fn put<V>(list: Seq<(i32, V)>, id: i32, value: V) -> Seq<(i32, V)>
    decreases list.len(),
{
    if list.len() == 0 || list.last().0 < id {
        list.push((id, value))
    } else if list.last().0 == id {
        list.drop_last().push((id, value))
    } else {
        put(list.drop_last(), id, value).push(list.last())
    }
}

/// What a list holds under an id.
pub open spec fn get<V>(list: Seq<(i32, V)>, id: i32) -> Option<V>
    decreases list.len(),
{
    if list.len() == 0 {
        None
    } else if list.last().0 == id {
        Some(list.last().1)
    } else {
        get(list.drop_last(), id)
    }
}

/// Whether the ids of a list ascend strictly.
pub open spec fn ascending<V>(list: Seq<(i32, V)>) -> bool {
    forall|i: int, j: int| 0 <= i < j < list.len() ==> (#[trigger] list[i]).0 < (#[trigger] list[j]).0
}

/// What is under an id after a `put` of that id is what was put; other ids keep what they had.
pub proof fn law_get_after_put<V>(list: Seq<(i32, V)>, id: i32, value: V, other: i32)
    requires
        ascending(list),
    ensures
        get(put(list, id, value), other) == if other == id {
            Some(value)
        } else {
            get(list, other)
        },
    decreases list.len(),
{
    let result = put(list, id, value);
    if list.len() == 0 || list.last().0 < id {
        assert(result.drop_last() =~= list);
        if other == id {
        }
    } else if list.last().0 == id {
        assert(result.drop_last() =~= list.drop_last());
    } else {
        let shorter = list.drop_last();
        assert(result.drop_last() =~= put(shorter, id, value));
        law_get_after_put(shorter, id, value, other);
    }
}

/// A `put` keeps the ids ascending.
pub proof fn law_put_keeps_ascending<V>(list: Seq<(i32, V)>, id: i32, value: V)
    requires
        ascending(list),
    ensures
        ascending(put(list, id, value)),
        put(list, id, value).len() >= 1,
        put(list, id, value).last().0 == id || (list.len() > 0 && put(list, id, value).last().0
            == list.last().0),
    decreases list.len(),
{
    let result = put(list, id, value);
    if list.len() > 0 && list.last().0 > id {
        let shorter = list.drop_last();
        let inner = put(shorter, id, value);
        law_put_keeps_ascending(shorter, id, value);
        if shorter.len() > 0 {
            assert(shorter.last().0 < list.last().0);
        }
        assert(inner.last().0 < list.last().0);
        assert forall|i: int, j: int| 0 <= i < j < result.len() implies (#[trigger] result[i]).0 < (
        #[trigger] result[j]).0 by {
            assert(result[i] == inner[i]);
            if j < inner.len() {
                assert(result[j] == inner[j]);
            } else if i < inner.len() - 1 {
                assert(inner[i].0 < inner[inner.len() - 1].0);
            }
        }
    }
}

/// Putting commutes with mapping the values.
pub proof fn lemma_put_map<V, U>(list: Seq<(i32, V)>, id: i32, value: V, f: spec_fn(V) -> U)
    ensures
        put(list, id, value).map_values(|pair: (i32, V)| (pair.0, f(pair.1))) == put(
            list.map_values(|pair: (i32, V)| (pair.0, f(pair.1))),
            id,
            f(value),
        ),
    decreases list.len(),
{
    let g = |pair: (i32, V)| (pair.0, f(pair.1));
    let mapped = list.map_values(g);
    if list.len() == 0 || list.last().0 < id {
        assert(list.push((id, value)).map_values(g) =~= mapped.push((id, f(value))));
    } else if list.last().0 == id {
        assert(list.drop_last().push((id, value)).map_values(g) =~= mapped.drop_last().push(
            (id, f(value)),
        ));
    } else {
        lemma_put_map(list.drop_last(), id, value, f);
        assert(list.drop_last().map_values(g) =~= mapped.drop_last());
        let inner = put(list.drop_last(), id, value);
        assert(inner.push(list.last()).map_values(g) =~= inner.map_values(g).push(g(list.last())));
    }
}

/// Put an entry in its place.
pub fn put_entry<V>(list: &mut Vec<(i32, V)>, id: i32, value: V)
    ensures
        final(list)@ == put(old(list)@, id, value),
{
    let ghost before = list@;
    let mut at: usize = list.len();
    assert(before.take(at as int) =~= before);
    assert(put(before, id, value) =~= put(before.take(at as int), id, value) + before.skip(
        at as int,
    ));
    while at > 0 && list[at - 1].0 > id
        invariant
            at <= list.len(),
            list@ == before,
            before == old(list)@,
            put(before, id, value) == put(before.take(at as int), id, value) + before.skip(
                at as int,
            ),
        decreases at,
    {
        proof {
            assert(before.take(at as int).drop_last() =~= before.take(at - 1));
            assert(before.take(at as int).last() == before[at - 1]);
            let inner = put(before.take(at - 1), id, value);
            assert(inner.push(before[at - 1]) + before.skip(at as int) =~= inner + before.skip(
                at - 1,
            ));
        }
        at -= 1;
    }
    proof {
        if at > 0 {
            assert(before.take(at as int).last() == before[at - 1]);
        }
    }
    if at > 0 && list[at - 1].0 == id {
        list.set(at - 1, (id, value));
        assert(list@ =~= before.take(at as int).drop_last().push((id, value)) + before.skip(
            at as int,
        ));
    } else {
        list.insert(at, (id, value));
        assert(list@ =~= before.take(at as int).push((id, value)) + before.skip(at as int));
    }
}

/// The position of an id.
pub fn find_entry<V>(list: &Vec<(i32, V)>, id: i32) -> (found: Option<usize>)
    ensures
        match found {
            Some(at) => at < list@.len() && list@[at as int].0 == id && get(list@, id) == Some(
                list@[at as int].1,
            ),
            None => get(list@, id) is None,
        },
{
    let mut i: usize = list.len();
    assert(list@.take(i as int) =~= list@);
    while i > 0
        invariant
            i <= list.len(),
            get(list@, id) == get(list@.take(i as int), id),
        decreases i,
    {
        proof {
            assert(list@.take(i as int).last() == list@[i - 1]);
            assert(list@.take(i as int).drop_last() =~= list@.take(i - 1));
        }
        if list[i - 1].0 == id {
            return Some(i - 1);
        }
        i -= 1;
    }
    None
}

// ---------------------------------------------------------------------------
// Keyed by name
// ---------------------------------------------------------------------------

/// A list in name order with one more entry in its place; an entry of the same name makes way.
pub open spec fn put_named<V>(list: Seq<(Seq<char>, V)>, name: Seq<char>, value: V) -> Seq<(Seq<char>, V)>
    decreases list.len(),
{
    if list.len() == 0 || text_before(list.last().0, name) {
        list.push((name, value))
    } else if list.last().0 == name {
        list.drop_last().push((name, value))
    } else {
        put_named(list.drop_last(), name, value).push(list.last())
    }
}

/// What a list holds under a name.
pub open spec fn get_named<V>(list: Seq<(Seq<char>, V)>, name: Seq<char>) -> Option<V>
    decreases list.len(),
{
    if list.len() == 0 {
        None
    } else if list.last().0 == name {
        Some(list.last().1)
    } else {
        get_named(list.drop_last(), name)
    }
}

/// Whether the names of a list ascend strictly.
pub open spec fn ascending_names<V>(list: Seq<(Seq<char>, V)>) -> bool {
    forall|i: int, j: int| 0 <= i < j < list.len() ==> text_before((#[trigger] list[i]).0, (#[trigger] list[j]).0)
}

/// What is under a name after a `put_named` of that name is what was put; other names keep what
/// they had.
pub proof fn law_get_named_after_put_named<V>(list: Seq<(Seq<char>, V)>, name: Seq<char>, value: V, other: Seq<char>)
    requires
        ascending_names(list),
    ensures
        get_named(put_named(list, name, value), other) == if other == name {
            Some(value)
        } else {
            get_named(list, other)
        },
    decreases list.len(),
{
    let result = put_named(list, name, value);
    if list.len() == 0 || text_before(list.last().0, name) {
        assert(result.drop_last() =~= list);
        if other == name {
        }
    } else if list.last().0 == name {
        assert(result.drop_last() =~= list.drop_last());
    } else {
        let shorter = list.drop_last();
        assert(result.drop_last() =~= put_named(shorter, name, value));
        law_get_named_after_put_named(shorter, name, value, other);
    }
}

/// A `put_named` keeps the names ascending.
pub proof fn law_put_named_keeps_ascending<V>(list: Seq<(Seq<char>, V)>, name: Seq<char>, value: V)
    requires
        ascending_names(list),
    ensures
        ascending_names(put_named(list, name, value)),
        put_named(list, name, value).len() >= 1,
        put_named(list, name, value).last().0 == name || (list.len() > 0 && put_named(
            list,
            name,
            value,
        ).last().0 == list.last().0),
    decreases list.len(),
{
    let result = put_named(list, name, value);
    if list.len() == 0 {
    } else if text_before(list.last().0, name) {
        assert forall|i: int, j: int| 0 <= i < j < result.len() implies text_before(
            (#[trigger] result[i]).0,
            (#[trigger] result[j]).0,
        ) by {
            if j == list.len() && i < list.len() - 1 {
                assert(text_before(list[i].0, list[list.len() - 1].0));
                law_text_order_is_transitive(list[i].0, list.last().0, name);
            }
        }
    } else if list.last().0 == name {
        assert forall|i: int, j: int| 0 <= i < j < result.len() implies text_before(
            (#[trigger] result[i]).0,
            (#[trigger] result[j]).0,
        ) by {
            assert(text_before(list[i].0, list[j].0));
        }
    } else {
        let shorter = list.drop_last();
        let inner = put_named(shorter, name, value);
        law_put_named_keeps_ascending(shorter, name, value);
        law_text_order_is_total(list.last().0, name);
        if shorter.len() > 0 {
            assert(text_before(list[list.len() - 2].0, list[list.len() - 1].0));
        }
        assert(text_before(inner.last().0, list.last().0));
        assert forall|i: int, j: int| 0 <= i < j < result.len() implies text_before(
            (#[trigger] result[i]).0,
            (#[trigger] result[j]).0,
        ) by {
            assert(result[i] == inner[i]);
            if j < inner.len() {
                assert(result[j] == inner[j]);
            } else if i < inner.len() - 1 {
                assert(text_before(inner[i].0, inner[inner.len() - 1].0));
                law_text_order_is_transitive(inner[i].0, inner.last().0, list.last().0);
            }
        }
    }
}

/// A list of names and values, its names as mathematical values.
pub open spec fn named_model<V>(list: Seq<(String, V)>) -> Seq<(Seq<char>, V)> {
    list.map_values(|pair: (String, V)| (pair.0@, pair.1))
}

/// Put an entry in its place.
pub fn put_named_entry<V>(list: &mut Vec<(String, V)>, name: String, value: V)
    ensures
        named_model(final(list)@) == put_named(named_model(old(list)@), name@, value),
{
    let ghost before = named_model(list@);
    let ghost key = name@;
    let mut at: usize = list.len();
    assert(before.take(at as int) =~= before);
    assert(put_named(before, key, value) =~= put_named(before.take(at as int), key, value)
        + before.skip(at as int));
    while at > 0 && !is_text_before(list[at - 1].0.as_str(), name.as_str()) && list[at - 1].0 != name
        invariant
            at <= list.len(),
            list@ == old(list)@,
            before == named_model(list@),
            key == name@,
            put_named(before, key, value) == put_named(before.take(at as int), key, value)
                + before.skip(at as int),
        decreases at,
    {
        proof {
            assert(before.take(at as int).drop_last() =~= before.take(at - 1));
            assert(before.take(at as int).last() == before[at - 1]);
            assert(before[at - 1].0 == list@[at - 1].0@);
            let inner = put_named(before.take(at - 1), key, value);
            assert(inner.push(before[at - 1]) + before.skip(at as int) =~= inner + before.skip(
                at - 1,
            ));
        }
        at -= 1;
    }
    proof {
        if at > 0 {
            assert(before.take(at as int).last() == before[at - 1]);
            assert(before[at - 1].0 == list@[at - 1].0@);
            law_text_order_is_irreflexive(key);
        }
    }
    if at > 0 && list[at - 1].0 == name {
        list.set(at - 1, (name, value));
        assert(named_model(list@) =~= before.take(at as int).drop_last().push((key, value))
            + before.skip(at as int));
    } else {
        list.insert(at, (name, value));
        assert(named_model(list@) =~= before.take(at as int).push((key, value)) + before.skip(
            at as int,
        ));
    }
}

/// The position of a name.
pub fn find_named<V>(list: &Vec<(String, V)>, name: &String) -> (found: Option<usize>)
    ensures
        match found {
            Some(at) => at < list@.len() && get_named(named_model(list@), name@) == Some(
                list@[at as int].1,
            ),
            None => get_named(named_model(list@), name@) is None,
        },
{
    let ghost models = named_model(list@);
    let mut i: usize = list.len();
    assert(models.take(i as int) =~= models);
    while i > 0
        invariant
            i <= list.len(),
            models == named_model(list@),
            get_named(models, name@) == get_named(models.take(i as int), name@),
        decreases i,
    {
        proof {
            assert(models.take(i as int).last() == models[i - 1]);
            assert(models[i - 1] == (list@[i - 1].0@, list@[i - 1].1));
            assert(models.take(i as int).drop_last() =~= models.take(i - 1));
        }
        if list[i - 1].0 == *name {
            return Some(i - 1);
        }
        i -= 1;
    }
    None
}

} // verus!
