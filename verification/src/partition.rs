//! The partition specs of a table.

use vstd::prelude::*;

use crate::types::PrimitiveType;

verus! {

/// What a partition transform makes of the type of its source field.
#[derive(Clone, Copy, Debug, PartialEq, Eq, Structural)]
pub enum TransformResult {
    Primitive(PrimitiveType),
    /// The transform keeps a nested source as it is.
    Nested,
    /// The transform does not apply to the source.
    Undefined,
}

/// One field of a partition spec.
pub struct PartitionField {
    /// The table field that the transform reads.
    pub source_id: i32,
    pub name: String,
    /// Whether the transform is the identity.
    pub identity: bool,
    pub result_type: TransformResult,
}

/// One way in which files of a table are partitioned.
pub struct PartitionSpec {
    pub spec_id: i32,
    pub fields: Vec<PartitionField>,
}

/// [`PartitionField`] as a mathematical value.
pub struct PartitionFieldModel {
    pub source_id: i32,
    pub name: Seq<char>,
    pub identity: bool,
    pub result_type: TransformResult,
}

/// [`PartitionSpec`] as a mathematical value.
pub struct PartitionSpecModel {
    pub spec_id: i32,
    pub fields: Seq<PartitionFieldModel>,
}

impl PartitionField {
    pub open spec fn model(self) -> PartitionFieldModel {
        PartitionFieldModel {
            source_id: self.source_id,
            name: self.name@,
            identity: self.identity,
            result_type: self.result_type,
        }
    }
}

impl PartitionSpec {
    pub open spec fn model(self) -> PartitionSpecModel {
        PartitionSpecModel {
            spec_id: self.spec_id,
            fields: self.fields@.map_values(|field: PartitionField| field.model()),
        }
    }
}

/// The models of a list of specs.
pub open spec fn spec_models(specs: Seq<PartitionSpec>) -> Seq<PartitionSpecModel> {
    specs.map_values(|spec: PartitionSpec| spec.model())
}

// ---------------------------------------------------------------------------
// Specs in the order of their ids
// ---------------------------------------------------------------------------

/// The number of leading specs whose id is at most `spec_id`.
pub open spec fn specs_up_to(specs: Seq<PartitionSpecModel>, spec_id: i32) -> nat
    decreases specs.len(),
{
    if specs.len() == 0 {
        0
    } else if specs.last().spec_id <= spec_id {
        specs.len()
    } else {
        specs_up_to(specs.drop_last(), spec_id)
    }
}

/// The specs in ascending order of their ids; equal ids keep the order they came in.
pub open spec fn ordered_specs(specs: Seq<PartitionSpecModel>) -> Seq<PartitionSpecModel>
    decreases specs.len(),
{
    if specs.len() == 0 {
        seq![]
    } else {
        let before = ordered_specs(specs.drop_last());
        before.insert(specs_up_to(before, specs.last().spec_id) as int, specs.last())
    }
}

pub proof fn lemma_specs_up_to_bound(specs: Seq<PartitionSpecModel>, spec_id: i32)
    ensures
        specs_up_to(specs, spec_id) <= specs.len(),
        forall|i: int| specs_up_to(specs, spec_id) <= i < specs.len() ==> (#[trigger] specs[i]).spec_id > spec_id,
        specs_up_to(specs, spec_id) > 0 ==> specs[specs_up_to(specs, spec_id) - 1].spec_id <= spec_id,
    decreases specs.len(),
{
    if specs.len() > 0 && specs.last().spec_id > spec_id {
        let shorter = specs.drop_last();
        lemma_specs_up_to_bound(shorter, spec_id);
        assert forall|i: int| specs_up_to(specs, spec_id) <= i < specs.len() implies (#[trigger] specs[i]).spec_id
            > spec_id by {
            if i < shorter.len() {
                assert(shorter[i].spec_id > spec_id);
            }
        }
    }
}

/// Ordering the specs neither drops nor adds one, and leaves their ids ascending.
pub proof fn law_ordered_specs_are_sorted(specs: Seq<PartitionSpecModel>)
    ensures
        ordered_specs(specs).to_multiset() == specs.to_multiset(),
        ordered_specs(specs).len() == specs.len(),
        forall|i: int, j: int|
            0 <= i <= j < specs.len() ==> (#[trigger] ordered_specs(specs)[i]).spec_id <= (
            #[trigger] ordered_specs(specs)[j]).spec_id,
    decreases specs.len(),
{
    broadcast use vstd::seq_lib::group_to_multiset_ensures;

    if specs.len() > 0 {
        let shorter = specs.drop_last();
        let before = ordered_specs(shorter);
        law_ordered_specs_are_sorted(shorter);
        lemma_specs_up_to_bound(before, specs.last().spec_id);
        let at = specs_up_to(before, specs.last().spec_id) as int;
        let after = before.insert(at, specs.last());
        assert(ordered_specs(specs) == after);
        assert(specs =~= shorter.push(specs.last()));
        assert(shorter.push(specs.last()).to_multiset() =~= shorter.to_multiset().insert(specs.last()));
        assert(after.to_multiset() =~= before.to_multiset().insert(specs.last()));
        assert forall|i: int, j: int| 0 <= i <= j < specs.len() implies (#[trigger] after[i]).spec_id <= (
        #[trigger] after[j]).spec_id by {
            let left = if i < at {
                before[i]
            } else if i == at {
                specs.last()
            } else {
                before[i - 1]
            };
            let right = if j < at {
                before[j]
            } else if j == at {
                specs.last()
            } else {
                before[j - 1]
            };
            assert(after[i] == left && after[j] == right);
            if at > 0 {
                assert(before[at - 1].spec_id <= specs.last().spec_id);
            }
        }
    } else {
        assert(ordered_specs(specs) =~= specs);
    }
}

/// The specs in ascending order of their ids; equal ids keep the order they came in.
pub fn specs_by_id<'a>(specs: &'a [PartitionSpec]) -> (ordered: Vec<&'a PartitionSpec>)
    ensures
        ordered@.map_values(|spec: &PartitionSpec| spec.model()) == ordered_specs(
            spec_models(specs@),
        ),
{
    let ghost models = spec_models(specs@);
    let ghost model_of = |spec: &PartitionSpec| spec.model();
    let mut ordered: Vec<&'a PartitionSpec> = Vec::new();
    let mut i: usize = 0;
    assert(ordered@.map_values(model_of) =~= ordered_specs(models.take(0)));
    while i < specs.len()
        invariant
            i <= specs.len(),
            models == spec_models(specs@),
            model_of == (|spec: &PartitionSpec| spec.model()),
            ordered@.map_values(model_of) == ordered_specs(models.take(i as int)),
        decreases specs.len() - i,
    {
        let spec = &specs[i];
        let ghost before = ordered@.map_values(model_of);
        let mut at: usize = ordered.len();
        assert(before.take(at as int) =~= before);
        while at > 0 && ordered[at - 1].spec_id > spec.spec_id
            invariant
                at <= ordered.len(),
                model_of == (|spec: &PartitionSpec| spec.model()),
                before == ordered@.map_values(model_of),
                specs_up_to(before, spec.spec_id) == specs_up_to(
                    before.take(at as int),
                    spec.spec_id,
                ),
            decreases at,
        {
            proof {
                assert(before.take(at as int).drop_last() =~= before.take(at - 1));
                assert(before.take(at as int).last() == ordered@[at - 1].model());
            }
            at -= 1;
        }
        proof {
            if at > 0 {
                assert(before.take(at as int).last() == ordered@[at - 1].model());
            }
            assert(specs_up_to(before, spec.spec_id) == at);
            assert(models.take(i + 1).drop_last() =~= models.take(i as int));
            assert(models.take(i + 1).last() == spec.model());
        }
        let ghost list = ordered@;
        ordered.insert(at, spec);
        assert(ordered@.map_values(model_of) =~= before.insert(at as int, spec.model()));
        i += 1;
    }
    assert(models.take(i as int) =~= models);
    ordered
}

} // verus!
