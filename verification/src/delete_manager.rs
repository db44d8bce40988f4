//! The delete state that every split of one scan shares: each delete artifact is loaded at most
//! once, and what was loaded is grouped so that sibling splits reuse it.
//!
//! A split claims its loads, the program performs those that nobody has performed yet, and the
//! split publishes what it got. The manager keeps what was loaded and hands it to every split that
//! claims it.

use std::sync::Arc;

use vstd::prelude::*;

use roaring::RoaringTreemap;

use crate::column_handle::{base_handle, handle_models, ColumnHandleModel, IcebergColumnHandle};
use crate::delete_closure::{cost_fault, equality_columns, equality_key, evaluation_inputs, gated, group_models, inputs_of, referred, schema_ordered, shape_of, top_level_ids, top_level_place, validate_split_delete_cost, verdict_shape, DeleteEvaluationMode, EqualityGroup, GatedClosure, GroupModel, VerdictShape};
use crate::delete_filter::{FilterVerdict, LoadedEqualityDelete, ResolvedDeletes, SelectedRows, SplitDeleteFilter};
use crate::error::{ConnectorError, CorruptData, InvalidRequest};
use crate::positions::{merged_positions, parts_of, positions_of, union_of};
use crate::seqs::{duplicate_ids, same_ids};
use crate::split::{IcebergDeleteFile, IcebergSplit};
use crate::split_source::contains_id;
use crate::types::Schema;

verus! {

// ---------------------------------------------------------------------------
// Keys
// ---------------------------------------------------------------------------

/// The grouping scope of delete state: a partition spec and a partition. All files of an
/// unpartitioned table have the same empty partition, and so one scope.
pub struct DeleteScope {
    pub partition_spec_id: i32,
    pub partition_data_json: String,
}

impl DeleteScope {
    pub open spec fn model(self) -> (i32, Seq<char>) {
        (self.partition_spec_id, self.partition_data_json@)
    }

    /// The scope of a split.
    pub fn of(split: &IcebergSplit) -> (scope: DeleteScope)
        ensures
            scope.model() == (split.partition_spec_id, split.partition_data_json@),
    {
        DeleteScope {
            partition_spec_id: split.partition_spec_id,
            partition_data_json: split.partition_data_json.clone(),
        }
    }

    fn duplicate(&self) -> (copy: DeleteScope)
        ensures
            copy.model() == self.model(),
    {
        DeleteScope {
            partition_spec_id: self.partition_spec_id,
            partition_data_json: self.partition_data_json.clone(),
        }
    }
}

/// What one delete artifact is loaded for.
pub enum ArtifactKey {
    /// A position-delete file is filtered by its data file, and a deletion vector is addressed by
    /// a byte range in its container: both belong to what was loaded.
    Position {
        delete_path: String,
        content_offset: Option<i64>,
        content_size_in_bytes: Option<i64>,
        data_file_path: String,
    },
    /// An equality-delete file under its scope and its schema-ordered key.
    Equality { scope: DeleteScope, equality_field_ids: Vec<i32>, delete_path: String },
}

/// [`ArtifactKey`] as a mathematical value.
pub enum ArtifactKeyModel {
    Position {
        delete_path: Seq<char>,
        content_offset: Option<i64>,
        content_size_in_bytes: Option<i64>,
        data_file_path: Seq<char>,
    },
    Equality { scope: (i32, Seq<char>), equality_field_ids: Seq<i32>, delete_path: Seq<char> },
}

impl ArtifactKey {
    pub open spec fn model(self) -> ArtifactKeyModel {
        match self {
            ArtifactKey::Position {
                delete_path,
                content_offset,
                content_size_in_bytes,
                data_file_path,
            } => ArtifactKeyModel::Position {
                delete_path: delete_path@,
                content_offset,
                content_size_in_bytes,
                data_file_path: data_file_path@,
            },
            ArtifactKey::Equality { scope, equality_field_ids, delete_path } => ArtifactKeyModel::Equality {
                scope: scope.model(),
                equality_field_ids: equality_field_ids@,
                delete_path: delete_path@,
            },
        }
    }

    fn same(&self, other: &ArtifactKey) -> (same: bool)
        ensures
            same == (self.model() == other.model()),
    {
        match (self, other) {
            (
                ArtifactKey::Position {
                    delete_path: a,
                    content_offset: b,
                    content_size_in_bytes: c,
                    data_file_path: d,
                },
                ArtifactKey::Position {
                    delete_path: e,
                    content_offset: f,
                    content_size_in_bytes: g,
                    data_file_path: h,
                },
            ) => *a == *e && *b == *f && *c == *g && *d == *h,
            (
                ArtifactKey::Equality { scope: a, equality_field_ids: b, delete_path: c },
                ArtifactKey::Equality { scope: d, equality_field_ids: e, delete_path: f },
            ) => a.partition_spec_id == d.partition_spec_id && a.partition_data_json
                == d.partition_data_json && same_ids(b, e) && *c == *f,
            _ => false,
        }
    }
}

/// The key of a position delete of a split.
pub open spec fn position_key(split: IcebergSplit, delete: IcebergDeleteFile) -> ArtifactKeyModel {
    ArtifactKeyModel::Position {
        delete_path: delete.path@,
        content_offset: delete.content_offset,
        content_size_in_bytes: delete.content_size_in_bytes,
        data_file_path: split.path@,
    }
}

pub fn position_cache_key(split: &IcebergSplit, delete: &IcebergDeleteFile) -> (key: ArtifactKey)
    ensures
        key.model() == position_key(*split, *delete),
{
    ArtifactKey::Position {
        delete_path: delete.path.clone(),
        content_offset: delete.content_offset,
        content_size_in_bytes: delete.content_size_in_bytes,
        data_file_path: split.path.clone(),
    }
}

/// The key of an equality delete of a split.
pub open spec fn equality_load_key(scope: (i32, Seq<char>), ids: Seq<i32>, delete: IcebergDeleteFile) -> ArtifactKeyModel {
    ArtifactKeyModel::Equality { scope, equality_field_ids: ids, delete_path: delete.path@ }
}

// ---------------------------------------------------------------------------
// Shared loads
// ---------------------------------------------------------------------------

/// What a delete file was read into.
pub enum LoadedArtifact {
    /// The positions that it deletes of its data file.
    Positions(Arc<RoaringTreemap>),
    /// The keys that it deletes.
    Equality(LoadedEqualityDelete),
}

/// [`LoadedArtifact`] as a mathematical value.
pub enum ArtifactModel {
    Positions(Set<u64>),
    Equality { path: Seq<char>, data_sequence_number: i64, key_set: u64 },
}

/// An equality artifact as a mathematical value.
pub open spec fn equality_artifact(artifact: LoadedEqualityDelete) -> ArtifactModel {
    ArtifactModel::Equality {
        path: artifact.path@,
        data_sequence_number: artifact.data_sequence_number,
        key_set: artifact.key_set,
    }
}

impl LoadedArtifact {
    pub open spec fn model(self) -> ArtifactModel {
        match self {
            LoadedArtifact::Positions(map) => ArtifactModel::Positions(positions_of(*map)),
            LoadedArtifact::Equality(artifact) => equality_artifact(artifact),
        }
    }
}

/// Where the load of one artifact stands.
pub enum LoadState {
    /// Nobody has loaded it yet, or the one who began gave up.
    Pending,
    Loaded(LoadedArtifact),
    /// The artifact itself is at fault: every split that needs it gets this failure.
    Failed(ConnectorError),
}

/// [`LoadState`] as a mathematical value.
pub enum LoadStateModel {
    Pending,
    Loaded(ArtifactModel),
    Failed(ConnectorError),
}

impl LoadState {
    pub open spec fn model(self) -> LoadStateModel {
        match self {
            LoadState::Pending => LoadStateModel::Pending,
            LoadState::Loaded(artifact) => LoadStateModel::Loaded(artifact.model()),
            LoadState::Failed(error) => LoadStateModel::Failed(error),
        }
    }
}

/// Whether an artifact is of the kind that a key names.
pub open spec fn is_artifact_of(key: ArtifactKey, artifact: LoadedArtifact) -> bool {
    match artifact {
        LoadedArtifact::Positions(_) => key is Position,
        LoadedArtifact::Equality(_) => key is Equality,
    }
}

/// What a split does about a load.
#[derive(Clone, Copy, Debug, PartialEq, Eq, Structural)]
pub enum LoadStep {
    /// Load the artifact and report to [`DeleteManager::settle`].
    Run,
    /// The artifact is there.
    Share,
    /// The artifact has failed before.
    Refuse(ConnectorError),
}

/// One claimed load.
pub struct LoadSlot {
    pub key: ArtifactKey,
    pub state: LoadState,
}

/// The artifacts that a filter under one key has loaded, by path.
pub struct EqualityDeleteIndex {
    pub scope: DeleteScope,
    pub equality_field_ids: Vec<i32>,
    /// The hidden columns of the key, in schema order.
    pub columns: Vec<IcebergColumnHandle>,
    pub artifacts: Vec<LoadedEqualityDelete>,
    /// The highest sequence number loaded so far; there is none before the first artifact.
    pub highest_loaded_sequence: Option<i64>,
}

/// The delete state of one scan.
pub struct DeleteManager {
    pub loads: Vec<LoadSlot>,
    pub equality: Vec<EqualityDeleteIndex>,
    /// How many artifacts were read.
    pub loaded_artifacts: usize,
}

/// How many of the first `n` loads have an artifact.
pub open spec fn loaded_count(loads: Seq<LoadSlot>, n: nat) -> nat
    decreases n,
{
    if n == 0 || n > loads.len() {
        0
    } else {
        loaded_count(loads, (n - 1) as nat) + (if loads[n - 1].state is Loaded {
            1nat
        } else {
            0
        })
    }
}

proof fn lemma_loaded_count_bound(loads: Seq<LoadSlot>, n: nat)
    requires
        n <= loads.len(),
    ensures
        loaded_count(loads, n) <= n,
        forall|i: int| 0 <= i < n && !((#[trigger] loads[i]).state is Loaded) ==> loaded_count(loads, n) < n,
    decreases n,
{
    if n > 0 {
        lemma_loaded_count_bound(loads, (n - 1) as nat);
    }
}

proof fn lemma_loaded_count_same(left: Seq<LoadSlot>, right: Seq<LoadSlot>, n: nat)
    requires
        n <= left.len(),
        n <= right.len(),
        forall|i: int| 0 <= i < n ==> (#[trigger] left[i]).state == right[i].state,
    ensures
        loaded_count(left, n) == loaded_count(right, n),
    decreases n,
{
    if n > 0 {
        lemma_loaded_count_same(left, right, (n - 1) as nat);
    }
}

proof fn lemma_loaded_count_update(loads: Seq<LoadSlot>, changed: Seq<LoadSlot>, at: int, n: nat)
    requires
        0 <= at < loads.len(),
        changed.len() == loads.len(),
        n <= loads.len(),
        forall|i: int| 0 <= i < loads.len() && i != at ==> (#[trigger] changed[i]).state == loads[i].state,
        !(loads[at].state is Loaded),
        changed[at].state is Loaded,
    ensures
        loaded_count(changed, n) == loaded_count(loads, n) + (if at < n {
            1nat
        } else {
            0
        }),
    decreases n,
{
    if n > 0 {
        lemma_loaded_count_update(loads, changed, at, (n - 1) as nat);
    }
}

/// [`LoadSlot`] as a mathematical value.
pub struct LoadModel {
    pub key: ArtifactKeyModel,
    pub state: LoadStateModel,
}

/// The models of a list of slots.
pub open spec fn load_models(loads: Seq<LoadSlot>) -> Seq<LoadModel> {
    loads.map_values(|slot: LoadSlot| LoadModel { key: slot.key.model(), state: slot.state.model() })
}

/// Whether an artifact has a slot.
pub open spec fn has_slot(loads: Seq<LoadModel>, key: ArtifactKeyModel) -> bool {
    exists|i: int| 0 <= i < loads.len() && (#[trigger] loads[i]).key == key
}

/// The slots after the first `n` of a list of artifacts were claimed: each that had no slot got
/// one, which nobody has loaded.
pub open spec fn claimed(loads: Seq<LoadModel>, keys: Seq<ArtifactKeyModel>, n: nat) -> Seq<LoadModel>
    decreases n,
{
    if n == 0 || n > keys.len() {
        loads
    } else {
        let before = claimed(loads, keys, (n - 1) as nat);
        if has_slot(before, keys[n - 1]) {
            before
        } else {
            before.push(LoadModel { key: keys[n - 1], state: LoadStateModel::Pending })
        }
    }
}

proof fn lemma_claimed_append(loads: Seq<LoadModel>, first: Seq<ArtifactKeyModel>, second: Seq<ArtifactKeyModel>, n: nat)
    requires
        n <= second.len(),
    ensures
        claimed(loads, first + second, first.len() + n) == claimed(
            claimed(loads, first, first.len()),
            second,
            n,
        ),
    decreases n,
{
    if n > 0 {
        lemma_claimed_append(loads, first, second, (n - 1) as nat);
        assert((first + second)[first.len() + n - 1] == second[n - 1]);
    } else {
        lemma_claimed_prefix(loads, first, first + second, first.len());
    }
}

proof fn lemma_claimed_prefix(loads: Seq<LoadModel>, shorter: Seq<ArtifactKeyModel>, longer: Seq<ArtifactKeyModel>, n: nat)
    requires
        n <= shorter.len() <= longer.len(),
        forall|i: int| 0 <= i < n ==> shorter[i] == longer[i],
    ensures
        claimed(loads, shorter, n) == claimed(loads, longer, n),
    decreases n,
{
    if n > 0 {
        lemma_claimed_prefix(loads, shorter, longer, (n - 1) as nat);
    }
}

/// The keys of the position deletes of a split.
pub open spec fn position_keys(split: IcebergSplit, deletes: Seq<IcebergDeleteFile>) -> Seq<ArtifactKeyModel> {
    deletes.map_values(|delete: IcebergDeleteFile| position_key(split, delete))
}

/// The keys of the deletes of an equality group.
pub open spec fn group_keys(scope: (i32, Seq<char>), group: GroupModel) -> Seq<ArtifactKeyModel> {
    group.deletes.map_values(
        |delete: IcebergDeleteFile| equality_load_key(scope, group.key, delete),
    )
}

/// The keys of the deletes of the first `n` equality groups.
pub open spec fn equality_keys(scope: (i32, Seq<char>), groups: Seq<GroupModel>, n: nat) -> Seq<ArtifactKeyModel>
    decreases n,
{
    if n == 0 || n > groups.len() {
        seq![]
    } else {
        equality_keys(scope, groups, (n - 1) as nat) + group_keys(scope, groups[n - 1])
    }
}

/// The artifacts that one side of a split takes, in the order in which they are claimed.
pub open spec fn side_keys(
    split: IcebergSplit,
    scope: (i32, Seq<char>),
    side: (Seq<IcebergDeleteFile>, Seq<GroupModel>),
) -> Seq<ArtifactKeyModel> {
    position_keys(split, side.0) + equality_keys(scope, side.1, side.1.len())
}

/// What one split claims of one side: the slots of its position deletes, and those of each of its
/// equality groups.
pub struct SideClaims {
    pub positions: Vec<usize>,
    pub equality: Vec<Vec<usize>>,
}

impl DeleteManager {
    /// No artifact has two slots, each holds what its key names, and the counter counts the
    /// artifacts that were read.
    pub open spec fn wf(self) -> bool {
        &&& forall|i: int|
            0 <= i < self.loads@.len() && (#[trigger] self.loads@[i]).state is Loaded
                ==> is_artifact_of(self.loads@[i].key, self.loads@[i].state->Loaded_0)
        &&& forall|i: int, j: int|
            0 <= i < j < self.loads@.len() ==> (#[trigger] self.loads@[i]).key.model() != (
            #[trigger] self.loads@[j]).key.model()
        &&& self.loaded_artifacts == loaded_count(self.loads@, self.loads@.len())
    }

    /// A manager that has loaded nothing.
    pub fn new() -> (manager: DeleteManager)
        ensures
            manager.wf(),
            manager.loads@ == Seq::<LoadSlot>::empty(),
            manager.equality@ == Seq::<EqualityDeleteIndex>::empty(),
            manager.loaded_artifacts == 0,
    {
        DeleteManager { loads: Vec::new(), equality: Vec::new(), loaded_artifacts: 0 }
    }

    /// How many delete artifacts were read so far.
    pub fn loaded_artifacts(&self) -> (count: usize)
        ensures
            count == self.loaded_artifacts,
    {
        self.loaded_artifacts
    }

    /// Whether one manager has grown out of another: every slot is where it was, with the same key,
    /// and a load that was settled is settled the same.
    pub open spec fn extends(self, before: DeleteManager) -> bool {
        &&& self.loads@.len() >= before.loads@.len()
        &&& forall|i: int|
            0 <= i < before.loads@.len() ==> (#[trigger] self.loads@[i]) == before.loads@[i]
    }

    /// The slot of an artifact: the one it has, or a new one that nobody has loaded.
    pub fn claim(&mut self, key: ArtifactKey) -> (slot: usize)
        requires
            old(self).wf(),
        ensures
            final(self).wf(),
            final(self).extends(*old(self)),
            final(self).equality == old(self).equality,
            final(self).loaded_artifacts == old(self).loaded_artifacts,
            slot < final(self).loads@.len(),
            final(self).loads@[slot as int].key.model() == key.model(),
            load_models(final(self).loads@) == claimed(
                load_models(old(self).loads@),
                seq![key.model()],
                1,
            ),
    {
        let ghost held = load_models(self.loads@);
        reveal_with_fuel(claimed, 2);
        let mut i: usize = 0;
        while i < self.loads.len()
            invariant
                *self == *old(self),
                self.wf(),
                i <= self.loads.len(),
                forall|k: int| 0 <= k < i ==> (#[trigger] self.loads@[k]).key.model() != key.model(),
                held == load_models(self.loads@),
            decreases self.loads.len() - i,
        {
            if self.loads[i].key.same(&key) {
                proof {
                    assert(held[i as int].key == key.model());
                    reveal_with_fuel(claimed, 2);
                }
                return i;
            }
            i += 1;
        }
        let ghost before = self.loads@;
        self.loads.push(LoadSlot { key, state: LoadState::Pending });
        proof {
            lemma_loaded_count_same(before, self.loads@, before.len());
            assert(!has_slot(held, key.model())) by {
                if has_slot(held, key.model()) {
                    let k = choose|k: int| 0 <= k < held.len() && (#[trigger] held[k]).key == key.model();
                    assert(before[k].key.model() == key.model());
                }
            }
            assert(load_models(self.loads@) =~= held.push(
                LoadModel { key: key.model(), state: LoadStateModel::Pending },
            ));
        }
        i
    }

    /// Claim the artifacts of one side of a split.
    pub fn claim_side(&mut self, split: &IcebergSplit, scope: &DeleteScope, closure: &GatedClosure<'_>) -> (claims: SideClaims)
        requires
            old(self).wf(),
        ensures
            final(self).wf(),
            final(self).extends(*old(self)),
            final(self).equality == old(self).equality,
            final(self).loaded_artifacts == old(self).loaded_artifacts,
            are_claims_of(final(self).loads@, claims, *split, scope.model(), *closure),
            ({
                let keys = side_keys(*split, scope.model(), closure_model(*closure));
                load_models(final(self).loads@) == claimed(
                    load_models(old(self).loads@),
                    keys,
                    keys.len(),
                )
            }),
    {
        let ghost start = load_models(self.loads@);
        let ghost first_keys = position_keys(*split, referred(closure.position_files@));
        let ghost groups = group_models(closure.equality_groups@);
        let mut positions: Vec<usize> = Vec::new();
        let mut i: usize = 0;
        while i < closure.position_files.len()
            invariant
                first_keys == position_keys(*split, referred(closure.position_files@)),
                load_models(self.loads@) == claimed(start, first_keys, i as nat),
                self.wf(),
                self.extends(*old(self)),
                self.equality == old(self).equality,
                self.loaded_artifacts == old(self).loaded_artifacts,
                i <= closure.position_files.len(),
                positions@.len() == i,
                forall|k: int|
                    0 <= k < i ==> {
                        let slot = #[trigger] positions@[k];
                        slot < self.loads@.len() && self.loads@[slot as int].key.model()
                            == position_key(*split, *closure.position_files@[k])
                    },
            decreases closure.position_files.len() - i,
        {
            let ghost before = *self;
            let slot: usize = self.claim(position_cache_key(split, closure.position_files[i]));
            positions.push(slot);
            proof {
                reveal_with_fuel(claimed, 2);
                assert(first_keys[i as int] == position_key(*split, *closure.position_files@[i as int]));
                assert forall|k: int| 0 <= k < i + 1 implies {
                    let slot = #[trigger] positions@[k];
                    slot < self.loads@.len() && self.loads@[slot as int].key.model() == position_key(
                        *split,
                        *closure.position_files@[k],
                    )
                } by {
                    if k < i {
                        let earlier = positions@[k];
                        assert(self.loads@[earlier as int] == before.loads@[earlier as int]);
                    }
                }
            }
            i += 1;
        }
        let ghost middle = load_models(self.loads@);
        let mut equality: Vec<Vec<usize>> = Vec::new();
        let mut g: usize = 0;
        while g < closure.equality_groups.len()
            invariant
                groups == group_models(closure.equality_groups@),
                load_models(self.loads@) == claimed(
                    middle,
                    equality_keys(scope.model(), groups, g as nat),
                    equality_keys(scope.model(), groups, g as nat).len(),
                ),
                self.wf(),
                self.extends(*old(self)),
                self.equality == old(self).equality,
                self.loaded_artifacts == old(self).loaded_artifacts,
                g <= closure.equality_groups.len(),
                positions@.len() == closure.position_files@.len(),
                forall|k: int|
                    0 <= k < positions@.len() ==> {
                        let slot = #[trigger] positions@[k];
                        slot < self.loads@.len() && self.loads@[slot as int].key.model()
                            == position_key(*split, *closure.position_files@[k])
                    },
                equality@.len() == g,
                forall|k: int|
                    0 <= k < g ==> is_claim_of(
                        self.loads@,
                        (#[trigger] equality@[k])@,
                        scope.model(),
                        closure.equality_groups@[k],
                    ),
            decreases closure.equality_groups.len() - g,
        {
            let ghost before = *self;
            let slots = self.claim_group(scope, &closure.equality_groups[g]);
            equality.push(slots);
            proof {
                let own = group_keys(scope.model(), groups[g as int]);
                lemma_claimed_append(
                    middle,
                    equality_keys(scope.model(), groups, g as nat),
                    own,
                    own.len(),
                );
                assert forall|k: int| 0 <= k < positions@.len() implies {
                    let slot = #[trigger] positions@[k];
                    slot < self.loads@.len() && self.loads@[slot as int].key.model() == position_key(
                        *split,
                        *closure.position_files@[k],
                    )
                } by {
                    let earlier = positions@[k];
                    assert(self.loads@[earlier as int] == before.loads@[earlier as int]);
                }
                assert forall|k: int| 0 <= k < g + 1 implies is_claim_of(
                    self.loads@,
                    (#[trigger] equality@[k])@,
                    scope.model(),
                    closure.equality_groups@[k],
                ) by {
                    if k < g {
                        let earlier = equality@[k]@;
                        assert(is_claim_of(
                            before.loads@,
                            earlier,
                            scope.model(),
                            closure.equality_groups@[k],
                        ));
                        assert forall|d: int| 0 <= d < earlier.len() implies (
                        #[trigger] earlier[d]) < self.loads@.len() && self.loads@[earlier[d] as int].key.model()
                            == equality_load_key(
                            scope.model(),
                            closure.equality_groups@[k].key@,
                            *closure.equality_groups@[k].deletes@[d],
                        ) by {
                            assert(self.loads@[earlier[d] as int] == before.loads@[earlier[d] as int]);
                        }
                    }
                }
            }
            g += 1;
        }
        proof {
            let second_keys = equality_keys(scope.model(), groups, groups.len());
            lemma_claimed_append(start, first_keys, second_keys, second_keys.len());
        }
        SideClaims { positions, equality }
    }

    fn claim_group(&mut self, scope: &DeleteScope, group: &EqualityGroup<'_>) -> (slots: Vec<usize>)
        requires
            old(self).wf(),
        ensures
            final(self).wf(),
            final(self).extends(*old(self)),
            final(self).equality == old(self).equality,
            final(self).loaded_artifacts == old(self).loaded_artifacts,
            is_claim_of(final(self).loads@, slots@, scope.model(), *group),
            load_models(final(self).loads@) == claimed(
                load_models(old(self).loads@),
                group_keys(scope.model(), group.model()),
                group_keys(scope.model(), group.model()).len(),
            ),
    {
        let ghost start = load_models(self.loads@);
        let ghost keys = group_keys(scope.model(), group.model());
        let mut slots: Vec<usize> = Vec::new();
        let mut i: usize = 0;
        while i < group.deletes.len()
            invariant
                keys == group_keys(scope.model(), group.model()),
                load_models(self.loads@) == claimed(start, keys, i as nat),
                self.wf(),
                self.extends(*old(self)),
                self.equality == old(self).equality,
                self.loaded_artifacts == old(self).loaded_artifacts,
                i <= group.deletes.len(),
                slots@.len() == i,
                forall|d: int|
                    0 <= d < i ==> (#[trigger] slots@[d]) < self.loads@.len()
                        && self.loads@[slots@[d] as int].key.model() == equality_load_key(
                        scope.model(),
                        group.key@,
                        *group.deletes@[d],
                    ),
            decreases group.deletes.len() - i,
        {
            let ghost before = *self;
            let key = ArtifactKey::Equality {
                scope: scope.duplicate(),
                equality_field_ids: duplicate_ids(&group.key),
                delete_path: group.deletes[i].path.clone(),
            };
            let slot: usize = self.claim(key);
            slots.push(slot);
            proof {
                reveal_with_fuel(claimed, 2);
                assert(keys[i as int] == equality_load_key(
                    scope.model(),
                    group.key@,
                    *group.deletes@[i as int],
                ));
                assert forall|d: int| 0 <= d < i + 1 implies (#[trigger] slots@[d]) < self.loads@.len()
                    && self.loads@[slots@[d] as int].key.model() == equality_load_key(
                    scope.model(),
                    group.key@,
                    *group.deletes@[d],
                ) by {
                    if d < i {
                        assert(self.loads@[slots@[d] as int] == before.loads@[slots@[d] as int]);
                    }
                }
            }
            i += 1;
        }
        slots
    }

    /// What a split does about a slot that it has claimed.
    pub fn begin(&self, slot: usize) -> (step: LoadStep)
        requires
            slot < self.loads@.len(),
        ensures
            step == (match self.loads@[slot as int].state {
                LoadState::Pending => LoadStep::Run,
                LoadState::Loaded(_) => LoadStep::Share,
                LoadState::Failed(error) => LoadStep::Refuse(error),
            }),
    {
        match &self.loads[slot].state {
            LoadState::Pending => LoadStep::Run,
            LoadState::Loaded(_) => LoadStep::Share,
            LoadState::Failed(error) => LoadStep::Refuse(*error),
        }
    }

    /// The state of a slot after a load of it ended. `stop` is the stop or the deadline of the
    /// reads, where one was hit: it belongs to them, not to the artifact, so it is returned but
    /// not shared.
    pub open spec fn settled(state: LoadState, outcome: Result<LoadedArtifact, ConnectorError>, stop: Option<ConnectorError>) -> LoadState {
        match state {
            LoadState::Pending => match outcome {
                Ok(artifact) => LoadState::Loaded(artifact),
                Err(error) => if stop is Some {
                    LoadState::Pending
                } else {
                    LoadState::Failed(error)
                },
            },
            _ => state,
        }
    }

    /// Report how a load ended. What comes back is what the split gets: the artifact is there, or
    /// the failure.
    pub fn settle(&mut self, slot: usize, outcome: Result<LoadedArtifact, ConnectorError>, stop: Option<ConnectorError>) -> (result: Result<(), ConnectorError>)
        requires
            old(self).wf(),
            slot < old(self).loads@.len(),
            old(self).loads@[slot as int].state is Pending,
            outcome is Ok ==> is_artifact_of(old(self).loads@[slot as int].key, outcome->Ok_0),
        ensures
            final(self).wf(),
            final(self).equality == old(self).equality,
            final(self).loads@.len() == old(self).loads@.len(),
            forall|i: int|
                0 <= i < old(self).loads@.len() && i != slot ==> (#[trigger] final(self).loads@[i])
                    == old(self).loads@[i],
            final(self).loads@[slot as int].key == old(self).loads@[slot as int].key,
            final(self).loads@[slot as int].state == Self::settled(
                old(self).loads@[slot as int].state,
                outcome,
                stop,
            ),
            final(self).loaded_artifacts == old(self).loaded_artifacts + (if outcome is Ok {
                1int
            } else {
                0
            }),
            result == (match outcome {
                Ok(_) => Ok(()),
                Err(error) => Err(
                    match stop {
                        Some(stop) => stop,
                        None => error,
                    },
                ),
            }),
    {
        let ghost before = self.loads@;
        match outcome {
            Ok(artifact) => {
                let held = self.loads.remove(slot);
                self.loads.insert(
                    slot,
                    LoadSlot { key: held.key, state: LoadState::Loaded(artifact) },
                );
                proof {
                    assert forall|i: int| 0 <= i < before.len() && i != slot implies (
                    #[trigger] self.loads@[i]) == before[i] by {}
                    lemma_loaded_count_update(before, self.loads@, slot as int, before.len());
                    lemma_loaded_count_bound(before, before.len());
                    assert(!(before[slot as int].state is Loaded));
                    assert forall|i: int, j: int| 0 <= i < j < self.loads@.len() implies (
                    #[trigger] self.loads@[i]).key.model() != (#[trigger] self.loads@[j]).key.model() by {
                        assert(self.loads@[i].key == before[i].key);
                        assert(self.loads@[j].key == before[j].key);
                    }
                }
                let slots: usize = self.loads.len();
                proof {
                    lemma_loaded_count_bound(self.loads@, slots as nat);
                }
                self.loaded_artifacts = self.loaded_artifacts + 1;
                Ok(())
            },
            Err(error) => match stop {
                Some(stop) => Err(stop),
                None => {
                    let held = self.loads.remove(slot);
                    self.loads.insert(
                        slot,
                        LoadSlot { key: held.key, state: LoadState::Failed(error) },
                    );
                    proof {
                        assert forall|i: int| 0 <= i < before.len() && i != slot implies (
                        #[trigger] self.loads@[i]) == before[i] by {}
                        lemma_loaded_count_failed(before, self.loads@, slot as int, before.len());
                        assert forall|i: int, j: int| 0 <= i < j < self.loads@.len() implies (
                        #[trigger] self.loads@[i]).key.model() != (
                        #[trigger] self.loads@[j]).key.model() by {
                            assert(self.loads@[i].key == before[i].key);
                            assert(self.loads@[j].key == before[j].key);
                        }
                    }
                    Err(error)
                },
            },
        }
    }

    /// The slots of a claim that this split may have to load itself.
    pub fn pending_slots(&self, slots: &Vec<usize>) -> (pending: Vec<usize>)
        requires
            forall|i: int| 0 <= i < slots@.len() ==> (#[trigger] slots@[i]) < self.loads@.len(),
        ensures
            pending@ == slots@.filter(
                |slot: usize| self.loads@[slot as int].state is Pending,
            ),
    {
        let ghost keep = |slot: usize| self.loads@[slot as int].state is Pending;
        let mut pending: Vec<usize> = Vec::new();
        let mut i: usize = 0;
        assert(pending@ =~= slots@.take(0).filter(keep)) by {
            reveal(Seq::filter);
        }
        while i < slots.len()
            invariant
                i <= slots.len(),
                forall|k: int| 0 <= k < slots@.len() ==> (#[trigger] slots@[k]) < self.loads@.len(),
                keep == (|slot: usize| self.loads@[slot as int].state is Pending),
                pending@ == slots@.take(i as int).filter(keep),
            decreases slots.len() - i,
        {
            let slot: usize = slots[i];
            assert(slots@[i as int] < self.loads@.len());
            proof {
                crate::seqs::lemma_filter_step(slots@, keep, i as int);
            }
            match &self.loads[slot].state {
                LoadState::Pending => pending.push(slot),
                _ => {},
            }
            i += 1;
        }
        assert(slots@.take(i as int) =~= slots@);
        pending
    }
}

proof fn lemma_loaded_count_failed(loads: Seq<LoadSlot>, changed: Seq<LoadSlot>, at: int, n: nat)
    requires
        0 <= at < loads.len(),
        changed.len() == loads.len(),
        n <= loads.len(),
        forall|i: int| 0 <= i < loads.len() && i != at ==> (#[trigger] changed[i]).state == loads[i].state,
        !(loads[at].state is Loaded),
        !(changed[at].state is Loaded),
    ensures
        loaded_count(changed, n) == loaded_count(loads, n),
    decreases n,
{
    if n > 0 {
        lemma_loaded_count_failed(loads, changed, at, (n - 1) as nat);
    }
}

/// Whether slots are the claims of one side of a split.
pub open spec fn are_claims_of(
    loads: Seq<LoadSlot>,
    claims: SideClaims,
    split: IcebergSplit,
    scope: (i32, Seq<char>),
    closure: GatedClosure,
) -> bool {
    &&& claims.positions@.len() == closure.position_files@.len()
    &&& forall|i: int|
        0 <= i < claims.positions@.len() ==> {
            let slot = #[trigger] claims.positions@[i];
            slot < loads.len() && loads[slot as int].key.model() == position_key(
                split,
                *closure.position_files@[i],
            )
        }
    &&& claims.equality@.len() == closure.equality_groups@.len()
    &&& forall|g: int|
        0 <= g < claims.equality@.len() ==> is_claim_of(
            loads,
            (#[trigger] claims.equality@[g])@,
            scope,
            closure.equality_groups@[g],
        )
}

/// Whether slots are the claims of a group, delete by delete.
pub open spec fn is_claim_of(loads: Seq<LoadSlot>, slots: Seq<usize>, scope: (i32, Seq<char>), group: EqualityGroup) -> bool {
    &&& slots.len() == group.deletes@.len()
    &&& forall|d: int|
        0 <= d < slots.len() ==> (#[trigger] slots[d]) < loads.len() && loads[slots[d] as int].key.model()
            == equality_load_key(scope, group.key@, *group.deletes@[d])
}

/// A load that was settled stays as it is: its artifact is read once, and its failure is shared
/// rather than tried again.
pub proof fn law_settled_loads_stay(state: LoadState, outcome: Result<LoadedArtifact, ConnectorError>, stop: Option<ConnectorError>)
    requires
        !(state is Pending),
    ensures
        DeleteManager::settled(state, outcome, stop) == state,
{
}

/// A load that was given up, by a stop or a deadline, is there for the next split.
pub proof fn law_a_stopped_load_is_taken_over(error: ConnectorError, stop: ConnectorError)
    ensures
        DeleteManager::settled(LoadState::Pending, Err(error), Some(stop)) is Pending,
{
}


// ---------------------------------------------------------------------------
// Publication
// ---------------------------------------------------------------------------

/// What loaded artifacts are, by their paths: the sequence number and the key set of each.
pub open spec fn artifact_map(artifacts: Seq<LoadedEqualityDelete>) -> Map<Seq<char>, (i64, u64)>
    decreases artifacts.len(),
{
    if artifacts.len() == 0 {
        Map::empty()
    } else {
        artifact_map(artifacts.drop_last()).insert(
            artifacts.last().path@,
            (artifacts.last().data_sequence_number, artifacts.last().key_set),
        )
    }
}

/// The greater of an optional sequence number and another one.
pub open spec fn raised(highest: Option<i64>, sequence: i64) -> Option<i64> {
    match highest {
        Some(held) => if held > sequence {
            Some(held)
        } else {
            Some(sequence)
        },
        None => Some(sequence),
    }
}

/// What was published into an index: its artifacts and the highest sequence among them.
pub struct IndexModel {
    pub artifacts: Map<Seq<char>, (i64, u64)>,
    pub highest: Option<i64>,
}

impl EqualityDeleteIndex {
    /// What was published into the index; its scope, its key and its columns stay as they are made.
    pub open spec fn content(self) -> IndexModel {
        IndexModel {
            artifacts: artifact_map(self.artifacts@),
            highest: self.highest_loaded_sequence,
        }
    }

    /// Whether this is the index of a key.
    pub open spec fn is_for(self, scope: (i32, Seq<char>), ids: Seq<i32>) -> bool {
        self.scope.model() == scope && self.equality_field_ids@ == ids
    }
}

/// An index with those of the first `n` artifacts that `known` does not hold.
pub open spec fn merged_index(index: IndexModel, known: Map<Seq<char>, (i64, u64)>, artifacts: Seq<LoadedEqualityDelete>, n: nat) -> IndexModel
    decreases n,
{
    if n == 0 || n > artifacts.len() {
        index
    } else {
        let before = merged_index(index, known, artifacts, (n - 1) as nat);
        let artifact = artifacts[n - 1];
        if known.contains_key(artifact.path@) {
            before
        } else {
            IndexModel {
                artifacts: before.artifacts.insert(
                    artifact.path@,
                    (artifact.data_sequence_number, artifact.key_set),
                ),
                highest: raised(before.highest, artifact.data_sequence_number),
            }
        }
    }
}

/// The index of a key, at or after `from`.
pub open spec fn index_place(indexes: Seq<EqualityDeleteIndex>, scope: (i32, Seq<char>), ids: Seq<i32>, from: nat) -> Option<nat>
    decreases indexes.len() - from,
{
    if from >= indexes.len() {
        None
    } else if indexes[from as int].is_for(scope, ids) {
        Some(from)
    } else {
        index_place(indexes, scope, ids, from + 1)
    }
}

/// An index without an artifact.
pub open spec fn empty_index() -> IndexModel {
    IndexModel { artifacts: Map::empty(), highest: None }
}

fn knows_path(artifacts: &Vec<LoadedEqualityDelete>, path: &String) -> (known: bool)
    ensures
        known == artifact_map(artifacts@).contains_key(path@),
{
    let mut i: usize = artifacts.len();
    assert(artifacts@.take(i as int) =~= artifacts@);
    while i > 0
        invariant
            i <= artifacts.len(),
            artifact_map(artifacts@).contains_key(path@) == artifact_map(
                artifacts@.take(i as int),
            ).contains_key(path@),
        decreases i,
    {
        proof {
            assert(artifacts@.take(i as int).last() == artifacts@[i - 1]);
            assert(artifacts@.take(i as int).drop_last() =~= artifacts@.take(i - 1));
        }
        if artifacts[i - 1].path == *path {
            return true;
        }
        i -= 1;
    }
    false
}

pub fn duplicate_artifact(artifact: &LoadedEqualityDelete) -> (copy: LoadedEqualityDelete)
    ensures
        copy.path@ == artifact.path@,
        copy.data_sequence_number == artifact.data_sequence_number,
        copy.key_set == artifact.key_set,
{
    LoadedEqualityDelete {
        path: artifact.path.clone(),
        data_sequence_number: artifact.data_sequence_number,
        key_set: artifact.key_set,
    }
}

fn add_artifact(artifacts: &mut Vec<LoadedEqualityDelete>, artifact: &LoadedEqualityDelete)
    ensures
        artifact_map(final(artifacts)@) == artifact_map(old(artifacts)@).insert(
            artifact.path@,
            (artifact.data_sequence_number, artifact.key_set),
        ),
{
    let ghost before = artifacts@;
    artifacts.push(duplicate_artifact(artifact));
    assert(artifacts@.drop_last() =~= before);
}

/// Whether every artifact is in an index already.
pub open spec fn all_known(known: Map<Seq<char>, (i64, u64)>, artifacts: Seq<LoadedEqualityDelete>) -> bool {
    forall|i: int| 0 <= i < artifacts.len() ==> known.contains_key((#[trigger] artifacts[i]).path@)
}

impl DeleteManager {
    fn find_index(&self, scope: &DeleteScope, ids: &Vec<i32>) -> (found: Option<usize>)
        ensures
            match index_place(self.equality@, scope.model(), ids@, 0) {
                Some(at) => found is Some && found->0 == at && at < self.equality@.len()
                    && self.equality@[at as int].is_for(scope.model(), ids@),
                None => found is None,
            },
    {
        let mut i: usize = 0;
        while i < self.equality.len()
            invariant
                i <= self.equality.len(),
                index_place(self.equality@, scope.model(), ids@, 0) == index_place(
                    self.equality@,
                    scope.model(),
                    ids@,
                    i as nat,
                ),
            decreases self.equality.len() - i,
        {
            let index = &self.equality[i];
            if index.scope.partition_spec_id == scope.partition_spec_id
                && index.scope.partition_data_json == scope.partition_data_json && same_ids(
                &index.equality_field_ids,
                ids,
            ) {
                return Some(i);
            }
            i += 1;
        }
        None
    }

    /// Merge loaded artifacts into the index that is current for their key. What a sibling split
    /// published in between is kept; where nothing is new, nothing changes.
    pub fn publish_equality(
        &mut self,
        scope: &DeleteScope,
        equality_field_ids: &Vec<i32>,
        artifacts: &Vec<LoadedEqualityDelete>,
        table_schema: &Schema,
    ) -> (published: Result<usize, ConnectorError>)
        ensures
            final(self).loads == old(self).loads,
            final(self).loaded_artifacts == old(self).loaded_artifacts,
            ({
                let place = index_place(old(self).equality@, scope.model(), equality_field_ids@, 0);
                let unbound = exists|i: int|
                    0 <= i < equality_field_ids@.len() && top_level_place(
                        *table_schema,
                        #[trigger] equality_field_ids@[i],
                        0,
                    ) is None;
                match place {
                    Some(at) => {
                        let before = old(self).equality@[at as int].content();
                        &&& published is Ok
                        &&& published->Ok_0 == at
                        &&& final(self).equality@.len() == old(self).equality@.len()
                        &&& forall|k: int|
                            0 <= k < old(self).equality@.len() && k != at ==> (
                            #[trigger] final(self).equality@[k]) == old(self).equality@[k]
                        &&& final(self).equality@[at as int].is_for(
                            scope.model(),
                            equality_field_ids@,
                        )
                        &&& final(self).equality@[at as int].columns == old(self).equality@[at as int].columns
                        &&& final(self).equality@[at as int].content() == merged_index(
                            before,
                            before.artifacts,
                            artifacts@,
                            artifacts@.len(),
                        )
                        &&& all_known(before.artifacts, artifacts@) ==> *final(self) == *old(self)
                    },
                    None => if unbound {
                        &&& published == Err::<usize, ConnectorError>(
                            ConnectorError::Corrupt(CorruptData::FieldNotTopLevel),
                        )
                        &&& final(self).equality == old(self).equality
                    } else {
                        let at = old(self).equality@.len() as int;
                        &&& published is Ok
                        &&& published->Ok_0 == at
                        &&& final(self).equality@.len() == at + 1
                        &&& forall|k: int|
                            0 <= k < at ==> (#[trigger] final(self).equality@[k]) == old(self).equality@[k]
                        &&& final(self).equality@[at].is_for(scope.model(), equality_field_ids@)
                        &&& final(self).equality@[at].columns@.len() == equality_field_ids@.len()
                        &&& forall|i: int|
                            0 <= i < equality_field_ids@.len() ==> (
                            #[trigger] final(self).equality@[at].columns@[i]).model() == base_handle(
                                table_schema.fields@[top_level_place(
                                    *table_schema,
                                    equality_field_ids@[i],
                                    0,
                                )->0 as int].model(),
                            )
                        &&& final(self).equality@[at].content() == merged_index(
                            empty_index(),
                            Map::empty(),
                            artifacts@,
                            artifacts@.len(),
                        )
                    },
                }
            }),
    {
        match self.find_index(scope, equality_field_ids) {
            Some(at) => {
                let ghost before = self.equality@;
                let ghost start = before[at as int].content();
                let ghost first = before[at as int];
                if !self.any_missing(at, artifacts) {
                    proof {
                        lemma_merge_nothing(start, artifacts@, artifacts@.len());
                    }
                    return Ok(at);
                }
                let mut index = self.equality.remove(at);
                let mut fresh: Vec<LoadedEqualityDelete> = Vec::new();
                let mut i: usize = 0;
                while i < artifacts.len()
                    invariant
                        i <= artifacts.len(),
                        fresh@.len() <= i,
                        artifact_map(index.artifacts@) == start.artifacts,
                        index.highest_loaded_sequence == start.highest,
                        index.scope == first.scope,
                        index.equality_field_ids == first.equality_field_ids,
                        index.columns == first.columns,
                        forall|m: IndexModel|
                            #[trigger] merged_index(m, start.artifacts, artifacts@, i as nat)
                                == merged_index(m, Map::empty(), fresh@, fresh@.len()),
                    decreases artifacts.len() - i,
                {
                    let ghost so_far = fresh@;
                    if !knows_path(&index.artifacts, &artifacts[i].path) {
                        fresh.push(duplicate_artifact(&artifacts[i]));
                        proof {
                            let last = fresh@.last();
                            assert forall|m: IndexModel| #[trigger]
                                merged_index(m, start.artifacts, artifacts@, (i + 1) as nat)
                                    == merged_index(m, Map::empty(), fresh@, fresh@.len()) by {
                                assert(merged_index(m, start.artifacts, artifacts@, i as nat)
                                    == merged_index(m, Map::empty(), so_far, so_far.len()));
                                lemma_merged_prefix(m, so_far, fresh@, so_far.len());
                            }
                        }
                    } else {
                        proof {
                            assert forall|m: IndexModel| #[trigger]
                                merged_index(m, start.artifacts, artifacts@, (i + 1) as nat)
                                    == merged_index(m, Map::empty(), fresh@, fresh@.len()) by {
                                assert(merged_index(m, start.artifacts, artifacts@, i as nat)
                                    == merged_index(m, Map::empty(), so_far, so_far.len()));
                            }
                        }
                    }
                    i += 1;
                }
                absorb(&mut index, &fresh);
                let ghost stored = index;
                self.equality.insert(at, index);
                proof {
                    assert(self.equality@ =~= before.update(at as int, stored));
                    assert(merged_index(start, start.artifacts, artifacts@, artifacts@.len())
                        == merged_index(start, Map::empty(), fresh@, fresh@.len()));
                }
                Ok(at)
            },
            None => {
                let columns = match equality_columns(equality_field_ids, table_schema) {
                    Ok(columns) => columns,
                    Err(error) => return Err(error),
                };
                let mut index = EqualityDeleteIndex {
                    scope: scope.duplicate(),
                    equality_field_ids: duplicate_ids(equality_field_ids),
                    columns,
                    artifacts: Vec::new(),
                    highest_loaded_sequence: None,
                };
                proof {
                    assert(index.content() == empty_index());
                    assert forall|i: int| 0 <= i < equality_field_ids@.len() implies top_level_place(
                        *table_schema,
                        #[trigger] equality_field_ids@[i],
                        0,
                    ) is Some by {
                        assert(index.columns@[i].model() == base_handle(
                            table_schema.fields@[top_level_place(
                                *table_schema,
                                equality_field_ids@[i],
                                0,
                            )->0 as int].model(),
                        ));
                    }
                }
                absorb(&mut index, artifacts);
                let at: usize = self.equality.len();
                self.equality.push(index);
                Ok(at)
            },
        }
    }

    fn any_missing(&self, at: usize, artifacts: &Vec<LoadedEqualityDelete>) -> (missing: bool)
        requires
            at < self.equality@.len(),
        ensures
            missing == !all_known(self.equality@[at as int].content().artifacts, artifacts@),
    {
        let mut i: usize = 0;
        while i < artifacts.len()
            invariant
                i <= artifacts.len(),
                at < self.equality@.len(),
                forall|k: int|
                    0 <= k < i ==> self.equality@[at as int].content().artifacts.contains_key(
                        (#[trigger] artifacts@[k]).path@,
                    ),
            decreases artifacts.len() - i,
        {
            if !knows_path(&self.equality[at].artifacts, &artifacts[i].path) {
                assert(!self.equality@[at as int].content().artifacts.contains_key(
                    artifacts@[i as int].path@,
                ));
                return true;
            }
            i += 1;
        }
        false
    }
}

fn absorb(index: &mut EqualityDeleteIndex, artifacts: &Vec<LoadedEqualityDelete>)
    ensures
        final(index).content() == merged_index(
            old(index).content(),
            Map::empty(),
            artifacts@,
            artifacts@.len(),
        ),
        final(index).scope == old(index).scope,
        final(index).equality_field_ids == old(index).equality_field_ids,
        final(index).columns == old(index).columns,
{
    let mut i: usize = 0;
    while i < artifacts.len()
        invariant
            i <= artifacts.len(),
            index.content() == merged_index(
                old(index).content(),
                Map::empty(),
                artifacts@,
                i as nat,
            ),
            index.scope == old(index).scope,
            index.equality_field_ids == old(index).equality_field_ids,
            index.columns == old(index).columns,
        decreases artifacts.len() - i,
    {
        let sequence: i64 = artifacts[i].data_sequence_number;
        index.highest_loaded_sequence = match index.highest_loaded_sequence {
            Some(held) => if held > sequence {
                Some(held)
            } else {
                Some(sequence)
            },
            None => Some(sequence),
        };
        add_artifact(&mut index.artifacts, &artifacts[i]);
        i += 1;
    }
}

proof fn lemma_merge_nothing(index: IndexModel, artifacts: Seq<LoadedEqualityDelete>, n: nat)
    requires
        all_known(index.artifacts, artifacts),
        n <= artifacts.len(),
    ensures
        merged_index(index, index.artifacts, artifacts, n) == index,
    decreases n,
{
    if n > 0 {
        lemma_merge_nothing(index, artifacts, (n - 1) as nat);
        assert(index.artifacts.contains_key(artifacts[n - 1].path@));
    }
}

proof fn lemma_merged_prefix(index: IndexModel, shorter: Seq<LoadedEqualityDelete>, longer: Seq<LoadedEqualityDelete>, n: nat)
    requires
        n <= shorter.len(),
        shorter.len() <= longer.len(),
        forall|i: int| 0 <= i < shorter.len() ==> (#[trigger] longer[i]) == shorter[i],
    ensures
        merged_index(index, Map::empty(), shorter, n) == merged_index(index, Map::empty(), longer, n),
    decreases n,
{
    if n > 0 {
        lemma_merged_prefix(index, shorter, longer, (n - 1) as nat);
    }
}

proof fn lemma_merged_index(index: IndexModel, known: Map<Seq<char>, (i64, u64)>, artifacts: Seq<LoadedEqualityDelete>, n: nat)
    requires
        n <= artifacts.len(),
    ensures
        ({
            let merged = merged_index(index, known, artifacts, n);
            &&& forall|path: Seq<char>| #[trigger]
                known.contains_key(path) && index.artifacts.contains_key(path)
                    ==> merged.artifacts.contains_key(path) && merged.artifacts[path]
                    == index.artifacts[path]
            &&& forall|i: int| 0 <= i < n ==> known.contains_key((#[trigger] artifacts[i]).path@) || merged.artifacts.contains_key(artifacts[i].path@)
            &&& index.highest is Some ==> merged.highest is Some && merged.highest->0
                >= index.highest->0
            &&& forall|i: int|
                0 <= i < n && !known.contains_key((#[trigger] artifacts[i]).path@)
                    ==> merged.highest is Some && merged.highest->0
                    >= artifacts[i].data_sequence_number
        }),
    decreases n,
{
    if n > 0 {
        lemma_merged_index(index, known, artifacts, (n - 1) as nat);
    }
}

/// Publishing keeps every artifact that a sibling split published under the key, adds the new
/// ones, and never lowers the highest loaded sequence number.
pub proof fn law_publishing_keeps_siblings(index: IndexModel, artifacts: Seq<LoadedEqualityDelete>)
    ensures
        ({
            let merged = merged_index(index, index.artifacts, artifacts, artifacts.len());
            &&& forall|path: Seq<char>| #[trigger]
                index.artifacts.contains_key(path) ==> merged.artifacts.contains_key(path)
                    && merged.artifacts[path] == index.artifacts[path]
            &&& forall|i: int|
                0 <= i < artifacts.len() ==> merged.artifacts.contains_key(
                    (#[trigger] artifacts[i]).path@,
                )
            &&& index.highest is Some ==> merged.highest is Some && merged.highest->0
                >= index.highest->0
        }),
{
    lemma_merged_index(index, index.artifacts, artifacts, artifacts.len());
    let merged = merged_index(index, index.artifacts, artifacts, artifacts.len());
    assert forall|i: int| 0 <= i < artifacts.len() implies merged.artifacts.contains_key(
        (#[trigger] artifacts[i]).path@,
    ) by {
        if index.artifacts.contains_key(artifacts[i].path@) {
            assert(merged.artifacts.contains_key(artifacts[i].path@));
        }
    }
}

/// Publishing the same artifacts again changes nothing.
pub proof fn law_publishing_is_idempotent(index: IndexModel, artifacts: Seq<LoadedEqualityDelete>)
    ensures
        ({
            let once = merged_index(index, index.artifacts, artifacts, artifacts.len());
            merged_index(once, once.artifacts, artifacts, artifacts.len()) == once
        }),
{
    let once = merged_index(index, index.artifacts, artifacts, artifacts.len());
    law_publishing_keeps_siblings(index, artifacts);
    lemma_merge_nothing(once, artifacts, artifacts.len());
}


// ---------------------------------------------------------------------------
// Opening a split
// ---------------------------------------------------------------------------

/// The top-level fields of the given ids, each once, in schema order: the first `n` ids of
/// `ordered`.
pub open spec fn columns_of(schema: Schema, ordered: Seq<i32>) -> Seq<ColumnHandleModel> {
    ordered.map_values(
        |id: i32|
            base_handle(schema.fields@[top_level_place(schema, id, 0)->0 as int].model()),
    )
}

/// The hidden columns that a set of field ids asks for, in schema order, each once.
pub open spec fn hidden_columns_of(schema: Schema, ids: Seq<i32>) -> Seq<ColumnHandleModel> {
    columns_of(schema, equality_key(schema, ids))
}

/// The field ids of all keys of a list of groups.
pub open spec fn group_ids(groups: Seq<GroupModel>) -> Seq<i32>
    decreases groups.len(),
{
    if groups.len() == 0 {
        seq![]
    } else {
        group_ids(groups.drop_last()) + groups.last().key
    }
}

fn append_ids(ids: &mut Vec<i32>, more: &Vec<i32>)
    ensures
        final(ids)@ == old(ids)@ + more@,
{
    let ghost start = ids@;
    let mut i: usize = 0;
    assert(ids@ =~= start + more@.take(0));
    while i < more.len()
        invariant
            i <= more.len(),
            ids@ == start + more@.take(i as int),
        decreases more.len() - i,
    {
        ids.push(more[i]);
        assert(start + more@.take(i + 1) =~= (start + more@.take(i as int)).push(more@[i as int]));
        i += 1;
    }
    assert(more@.take(i as int) =~= more@);
}

fn append_group_ids(ids: &mut Vec<i32>, groups: &Vec<EqualityGroup<'_>>)
    ensures
        final(ids)@ == old(ids)@ + group_ids(group_models(groups@)),
{
    let ghost start = ids@;
    let ghost models = group_models(groups@);
    let mut i: usize = 0;
    assert(ids@ =~= start + group_ids(models.take(0)));
    while i < groups.len()
        invariant
            i <= groups.len(),
            models == group_models(groups@),
            ids@ == start + group_ids(models.take(i as int)),
        decreases groups.len() - i,
    {
        append_ids(ids, &groups[i].key);
        proof {
            assert(models.take(i + 1).drop_last() =~= models.take(i as int));
            assert(models.take(i + 1).last() == groups@[i as int].model());
            assert(ids@ =~= start + group_ids(models.take(i + 1)));
        }
        i += 1;
    }
    assert(models.take(i as int) =~= models);
}

/// The hidden columns that a set of field ids asks for.
pub fn hidden_columns(table_schema: &Schema, ids: &Vec<i32>) -> (columns: Vec<IcebergColumnHandle>)
    ensures
        handle_models(columns@) == hidden_columns_of(*table_schema, ids@),
{
    let ghost top = top_level_ids(*table_schema);
    let mut seen: Vec<i32> = Vec::new();
    let mut columns: Vec<IcebergColumnHandle> = Vec::new();
    let mut i: usize = 0;
    assert(handle_models(columns@) =~= columns_of(*table_schema, seen@));
    while i < table_schema.fields.len()
        invariant
            i <= table_schema.fields.len(),
            top == top_level_ids(*table_schema),
            seen@ == schema_ordered(top, ids@, i as nat),
            forall|k: int| 0 <= k < i && ids@.contains(#[trigger] top[k]) ==> seen@.contains(top[k]),
            handle_models(columns@) == columns_of(*table_schema, seen@),
        decreases table_schema.fields.len() - i,
    {
        let field = &table_schema.fields[i];
        assert(top[i as int] == field.id);
        let ghost before = seen@;
        let ghost listed = columns@;
        if contains_id(ids, field.id) && !contains_id(&seen, field.id) {
            proof {
                assert forall|k: int| 0 <= k < i implies (#[trigger] table_schema.fields@[k]).id
                    != field.id by {
                    assert(top[k] == table_schema.fields@[k].id);
                    if top[k] == field.id {
                        assert(ids@.contains(top[k]));
                        assert(seen@.contains(top[k]));
                    }
                }
                lemma_first_place(*table_schema, field.id, i as nat, 0);
            }
            columns.push(IcebergColumnHandle::base_column(field));
            seen.push(field.id);
            proof {
                assert(seen@.last() == field.id);
                assert(handle_models(columns@) =~= handle_models(listed).push(
                    base_handle(field.model()),
                ));
                assert(columns_of(*table_schema, seen@) =~= columns_of(*table_schema, before).push(
                    base_handle(field.model()),
                ));
            }
        }
        proof {
            assert forall|k: int| 0 <= k < i + 1 && ids@.contains(#[trigger] top[k]) implies seen@.contains(
                top[k],
            ) by {
                if k < i {
                    let at = choose|at: int| 0 <= at < before.len() && before[at] == top[k];
                    assert(seen@[at] == top[k]);
                } else if !before.contains(top[k]) {
                    assert(seen@[seen@.len() - 1] == top[k]);
                }
            }
        }
        i += 1;
    }
    columns
}

/// A field that none before it shares its id with is at its own place.
proof fn lemma_first_place(schema: Schema, id: i32, at: nat, from: nat)
    requires
        from <= at < schema.fields@.len(),
        schema.fields@[at as int].id == id,
        forall|k: int| from <= k < at ==> (#[trigger] schema.fields@[k]).id != id,
    ensures
        top_level_place(schema, id, from) == Some(at),
    decreases at - from,
{
    if from < at {
        assert(schema.fields@[from as int].id != id);
        lemma_first_place(schema, id, at, from + 1);
    }
}

/// What opening a split decides before any file is opened: the shape of its verdict and what of
/// each delete set applies, or why it cannot be opened.
pub open spec fn opening(split: IcebergSplit, schema: Schema, mode: DeleteEvaluationMode) -> Result<((Seq<IcebergDeleteFile>, Seq<GroupModel>), (Seq<IcebergDeleteFile>, Seq<GroupModel>)), ConnectorError> {
    let (applied, previously) = inputs_of(split, mode);
    if mode is SelectRemovedRows && split.deletes@.len() > 0 {
        Err(ConnectorError::Invalid(InvalidRequest::ReverseSplitCarriesDeletes))
    } else if cost_fault(applied + previously) is Some {
        Err(cost_fault(applied + previously)->0)
    } else {
        match gated(split, applied, schema) {
            Err(error) => Err(error),
            Ok(first) => match gated(split, previously, schema) {
                Err(error) => Err(error),
                Ok(second) => Ok((first, second)),
            },
        }
    }
}

/// Everything that opening a split decides before any file is opened.
pub struct SplitOpen<'a> {
    pub shape: VerdictShape,
    pub scope: DeleteScope,
    pub applied: GatedClosure<'a>,
    pub previously: GatedClosure<'a>,
}

/// What of a closure applies, as a mathematical value.
pub open spec fn closure_model(closure: GatedClosure) -> (Seq<IcebergDeleteFile>, Seq<GroupModel>) {
    (referred(closure.position_files@), group_models(closure.equality_groups@))
}

impl DeleteManager {
    /// Open a split as far as that needs no file: what applies to it and what its verdict will
    /// be. The artifacts are claimed, loaded and published next.
    pub fn open_split<'a>(split: &'a IcebergSplit, table_schema: &Schema, mode: &'a DeleteEvaluationMode) -> (open: Result<SplitOpen<'a>, ConnectorError>)
        ensures
            match opening(*split, *table_schema, *mode) {
                Ok((applied, previously)) => {
                    &&& open is Ok
                    &&& open->Ok_0.shape == shape_of(*mode)
                    &&& open->Ok_0.scope.model() == (split.partition_spec_id, split.partition_data_json@)
                    &&& closure_model(open->Ok_0.applied) == applied
                    &&& closure_model(open->Ok_0.previously) == previously
                },
                Err(error) => open == Err::<SplitOpen<'a>, ConnectorError>(error),
            },
    {
        let (applied, previously) = match evaluation_inputs(split, mode) {
            Ok(inputs) => inputs,
            Err(error) => return Err(error),
        };
        match validate_split_delete_cost(applied, previously) {
            Ok(_) => {},
            Err(error) => return Err(error),
        }
        let first = match GatedClosure::of(split, applied, table_schema) {
            Ok(closure) => closure,
            Err(error) => return Err(error),
        };
        let second = match GatedClosure::of(split, previously, table_schema) {
            Ok(closure) => closure,
            Err(error) => return Err(error),
        };
        Ok(
            SplitOpen {
                shape: verdict_shape(mode),
                scope: DeleteScope::of(split),
                applied: first,
                previously: second,
            },
        )
    }

    /// The columns that a later verdict will need, without loading a single delete.
    pub fn preview_hidden_columns(split: &IcebergSplit, table_schema: &Schema, mode: &DeleteEvaluationMode) -> (columns: Result<Vec<IcebergColumnHandle>, ConnectorError>)
        ensures
            match opening(*split, *table_schema, *mode) {
                Ok((applied, previously)) => columns is Ok && handle_models(columns->Ok_0@)
                    == hidden_columns_of(*table_schema, group_ids(applied.1) + group_ids(previously.1)),
                Err(error) => columns == Err::<Vec<IcebergColumnHandle>, ConnectorError>(error),
            },
    {
        let open = match Self::open_split(split, table_schema, mode) {
            Ok(open) => open,
            Err(error) => return Err(error),
        };
        let mut ids: Vec<i32> = Vec::new();
        append_group_ids(&mut ids, &open.applied.equality_groups);
        append_group_ids(&mut ids, &open.previously.equality_groups);
        assert(ids@ =~= group_ids(group_models(open.applied.equality_groups@)) + group_ids(
            group_models(open.previously.equality_groups@),
        ));
        Ok(hidden_columns(table_schema, &ids))
    }
}

/// One side's loaded artifacts, in the order they were claimed.
pub struct LoadedSide {
    pub positions: Vec<Arc<RoaringTreemap>>,
    /// One list for each equality group.
    pub equality: Vec<Vec<LoadedEqualityDelete>>,
}

/// The artifacts of all groups, group after group.
pub open spec fn all_artifacts(groups: Seq<Vec<LoadedEqualityDelete>>) -> Seq<LoadedEqualityDelete>
    decreases groups.len(),
{
    if groups.len() == 0 {
        seq![]
    } else {
        all_artifacts(groups.drop_last()) + groups.last()@
    }
}

/// Whether two lists hold the same artifacts.
pub open spec fn same_artifacts(left: Seq<LoadedEqualityDelete>, right: Seq<LoadedEqualityDelete>) -> bool {
    &&& left.len() == right.len()
    &&& forall|i: int|
        0 <= i < left.len() ==> (#[trigger] left[i]).path@ == right[i].path@
            && left[i].data_sequence_number == right[i].data_sequence_number && left[i].key_set
            == right[i].key_set
}

/// Whether indexes have grown out of others: each keeps its key, its columns and every artifact it
/// had, and its highest sequence number is no lower.
pub open spec fn grown(before: Seq<EqualityDeleteIndex>, after: Seq<EqualityDeleteIndex>) -> bool {
    &&& after.len() >= before.len()
    &&& forall|k: int|
        0 <= k < before.len() ==> {
            let old_index = before[k];
            let new_index = #[trigger] after[k];
            &&& new_index.scope.model() == old_index.scope.model()
            &&& new_index.equality_field_ids@ == old_index.equality_field_ids@
            &&& new_index.columns == old_index.columns
            &&& old_index.content().artifacts.submap_of(new_index.content().artifacts)
            &&& old_index.content().highest is Some ==> new_index.content().highest is Some
                && new_index.content().highest->0 >= old_index.content().highest->0
        }
}

/// An index with its key, as a mathematical value.
pub struct KeyedIndex {
    pub scope: (i32, Seq<char>),
    pub equality_field_ids: Seq<i32>,
    pub columns: Seq<ColumnHandleModel>,
    pub index: IndexModel,
}

/// The models of a list of indexes.
pub open spec fn index_models(indexes: Seq<EqualityDeleteIndex>) -> Seq<KeyedIndex> {
    indexes.map_values(
        |index: EqualityDeleteIndex|
            KeyedIndex {
                scope: index.scope.model(),
                equality_field_ids: index.equality_field_ids@,
                columns: handle_models(index.columns@),
                index: index.content(),
            },
    )
}

/// The hidden columns of a key.
pub open spec fn key_columns(schema: Schema, ids: Seq<i32>) -> Seq<ColumnHandleModel> {
    Seq::new(
        ids.len(),
        |i: int| base_handle(schema.fields@[top_level_place(schema, ids[i], 0)->0 as int].model()),
    )
}

/// The place of the index of a key, at or after `from`.
pub open spec fn keyed_place(indexes: Seq<KeyedIndex>, scope: (i32, Seq<char>), ids: Seq<i32>, from: nat) -> Option<nat>
    decreases indexes.len() - from,
{
    if from >= indexes.len() {
        None
    } else if indexes[from as int].scope == scope && indexes[from as int].equality_field_ids == ids {
        Some(from)
    } else {
        keyed_place(indexes, scope, ids, from + 1)
    }
}

/// The indexes after artifacts were published under a key: merged into the index of the key, or in
/// a new one.
pub open spec fn published_indexes(
    indexes: Seq<KeyedIndex>,
    scope: (i32, Seq<char>),
    ids: Seq<i32>,
    artifacts: Seq<LoadedEqualityDelete>,
    schema: Schema,
) -> Seq<KeyedIndex> {
    match keyed_place(indexes, scope, ids, 0) {
        Some(at) => {
            let held = indexes[at as int];
            indexes.update(
                at as int,
                KeyedIndex {
                    index: merged_index(
                        held.index,
                        held.index.artifacts,
                        artifacts,
                        artifacts.len(),
                    ),
                    ..held
                },
            )
        },
        None => indexes.push(
            KeyedIndex {
                scope,
                equality_field_ids: ids,
                columns: key_columns(schema, ids),
                index: merged_index(empty_index(), Map::empty(), artifacts, artifacts.len()),
            },
        ),
    }
}

/// The indexes after the first `n` groups were published.
pub open spec fn published_groups(
    indexes: Seq<KeyedIndex>,
    scope: (i32, Seq<char>),
    groups: Seq<EqualityGroup>,
    artifacts: Seq<Vec<LoadedEqualityDelete>>,
    schema: Schema,
    n: nat,
) -> Seq<KeyedIndex>
    decreases n,
{
    if n == 0 || n > groups.len() || n > artifacts.len() {
        indexes
    } else {
        published_indexes(
            published_groups(indexes, scope, groups, artifacts, schema, (n - 1) as nat),
            scope,
            groups[n - 1].key@,
            artifacts[n - 1]@,
            schema,
        )
    }
}

proof fn lemma_keyed_place(indexes: Seq<EqualityDeleteIndex>, scope: (i32, Seq<char>), ids: Seq<i32>, from: nat)
    ensures
        keyed_place(index_models(indexes), scope, ids, from) == index_place(indexes, scope, ids, from),
    decreases indexes.len() - from,
{
    if from < indexes.len() {
        assert(index_models(indexes)[from as int].scope == indexes[from as int].scope.model());
        lemma_keyed_place(indexes, scope, ids, from + 1);
    }
}

/// Whether the index of a key holds artifacts.
pub open spec fn holds(indexes: Seq<EqualityDeleteIndex>, scope: (i32, Seq<char>), ids: Seq<i32>, artifacts: Seq<LoadedEqualityDelete>) -> bool {
    let place = index_place(indexes, scope, ids, 0);
    &&& place is Some
    &&& place->0 < indexes.len()
    &&& all_known(indexes[place->0 as int].content().artifacts, artifacts)
}

proof fn lemma_place_found(indexes: Seq<EqualityDeleteIndex>, scope: (i32, Seq<char>), ids: Seq<i32>, from: nat)
    ensures
        match index_place(indexes, scope, ids, from) {
            Some(at) => from <= at < indexes.len() && indexes[at as int].is_for(scope, ids) && forall|k: int|
                from <= k < at ==> !(#[trigger] indexes[k]).is_for(scope, ids),
            None => forall|k: int| from <= k < indexes.len() ==> !(#[trigger] indexes[k]).is_for(scope, ids),
        },
    decreases indexes.len() - from,
{
    if from < indexes.len() && !indexes[from as int].is_for(scope, ids) {
        lemma_place_found(indexes, scope, ids, from + 1);
    }
}

proof fn lemma_place_at(indexes: Seq<EqualityDeleteIndex>, scope: (i32, Seq<char>), ids: Seq<i32>, at: nat, from: nat)
    requires
        from <= at < indexes.len(),
        indexes[at as int].is_for(scope, ids),
        forall|k: int| from <= k < at ==> !(#[trigger] indexes[k]).is_for(scope, ids),
    ensures
        index_place(indexes, scope, ids, from) == Some(at),
    decreases at - from,
{
    if from < at {
        assert(!indexes[from as int].is_for(scope, ids));
        lemma_place_at(indexes, scope, ids, at, from + 1);
    }
}

proof fn lemma_grown_transitive(a: Seq<EqualityDeleteIndex>, b: Seq<EqualityDeleteIndex>, c: Seq<EqualityDeleteIndex>)
    requires
        grown(a, b),
        grown(b, c),
    ensures
        grown(a, c),
{
    assert forall|k: int| 0 <= k < a.len() implies {
        let old_index = a[k];
        let new_index = #[trigger] c[k];
        &&& new_index.scope.model() == old_index.scope.model()
        &&& new_index.equality_field_ids@ == old_index.equality_field_ids@
        &&& new_index.columns == old_index.columns
        &&& old_index.content().artifacts.submap_of(new_index.content().artifacts)
        &&& old_index.content().highest is Some ==> new_index.content().highest is Some
            && new_index.content().highest->0 >= old_index.content().highest->0
    } by {
        assert(b[k].scope.model() == a[k].scope.model());
        assert(a[k].content().artifacts.submap_of(b[k].content().artifacts));
        assert(b[k].content().artifacts.submap_of(c[k].content().artifacts));
        vstd::map_lib::lemma_submap_of_trans(
            a[k].content().artifacts,
            b[k].content().artifacts,
            c[k].content().artifacts,
        );
    }
}

proof fn lemma_holds_grows(before: Seq<EqualityDeleteIndex>, after: Seq<EqualityDeleteIndex>, scope: (i32, Seq<char>), ids: Seq<i32>, artifacts: Seq<LoadedEqualityDelete>)
    requires
        grown(before, after),
        holds(before, scope, ids, artifacts),
    ensures
        holds(after, scope, ids, artifacts),
{
    lemma_place_found(before, scope, ids, 0);
    let at = index_place(before, scope, ids, 0)->0;
    assert(after[at as int].is_for(scope, ids)) by {
        assert(after[at as int].scope.model() == before[at as int].scope.model());
    }
    assert forall|k: int| 0 <= k < at implies !(#[trigger] after[k]).is_for(scope, ids) by {
        assert(!before[k].is_for(scope, ids));
        assert(after[k].scope.model() == before[k].scope.model());
    }
    lemma_place_at(after, scope, ids, at, 0);
    assert(before[at as int].content().artifacts.submap_of(after[at as int].content().artifacts));
}

impl DeleteManager {
    fn publish_group(&mut self, scope: &DeleteScope, equality_field_ids: &Vec<i32>, artifacts: &Vec<LoadedEqualityDelete>, table_schema: &Schema) -> (published: Result<(), ConnectorError>)
        requires
            forall|i: int|
                0 <= i < equality_field_ids@.len() ==> top_level_place(
                    *table_schema,
                    #[trigger] equality_field_ids@[i],
                    0,
                ) is Some,
        ensures
            published is Ok,
            final(self).loads == old(self).loads,
            final(self).loaded_artifacts == old(self).loaded_artifacts,
            grown(old(self).equality@, final(self).equality@),
            holds(final(self).equality@, scope.model(), equality_field_ids@, artifacts@),
            index_models(final(self).equality@) == published_indexes(
                index_models(old(self).equality@),
                scope.model(),
                equality_field_ids@,
                artifacts@,
                *table_schema,
            ),
    {
        let ghost before = self.equality@;
        let published = self.publish_equality(scope, equality_field_ids, artifacts, table_schema);
        proof {
            lemma_place_found(before, scope.model(), equality_field_ids@, 0);
            let place = index_place(before, scope.model(), equality_field_ids@, 0);
            let start = match place {
                Some(at) => before[at as int].content(),
                None => empty_index(),
            };
            law_publishing_keeps_siblings(start, artifacts@);
            let at = match place {
                Some(at) => at,
                None => before.len(),
            };
            assert forall|k: int| 0 <= k < at implies !(#[trigger] self.equality@[k]).is_for(
                scope.model(),
                equality_field_ids@,
            ) by {
                assert(self.equality@[k] == before[k]);
                assert(!before[k].is_for(scope.model(), equality_field_ids@));
            }
            lemma_place_at(self.equality@, scope.model(), equality_field_ids@, at, 0);
            assert forall|k: int| 0 <= k < before.len() implies {
                let old_index = before[k];
                let new_index = #[trigger] self.equality@[k];
                &&& new_index.scope.model() == old_index.scope.model()
                &&& new_index.equality_field_ids@ == old_index.equality_field_ids@
                &&& new_index.columns == old_index.columns
                &&& old_index.content().artifacts.submap_of(new_index.content().artifacts)
                &&& old_index.content().highest is Some ==> new_index.content().highest is Some
                    && new_index.content().highest->0 >= old_index.content().highest->0
            } by {
                if k != at {
                    assert(self.equality@[k] == before[k]);
                } else {
                    assert(before[k].is_for(scope.model(), equality_field_ids@));
                    assert(self.equality@[k].is_for(scope.model(), equality_field_ids@));
                    assert(before[k].content().artifacts.submap_of(self.equality@[k].content().artifacts)) by {
                        assert forall|path: Seq<char>| before[k].content().artifacts.dom().contains(path) implies
                            self.equality@[k].content().artifacts.dom().contains(path)
                                && before[k].content().artifacts[path] == self.equality@[k].content().artifacts[path] by {
                            assert(before[k].content().artifacts.contains_key(path));
                        }
                    }
                }
            }
        }
        proof {
            let ids = equality_field_ids@;
            lemma_keyed_place(before, scope.model(), ids, 0);
            lemma_place_found(before, scope.model(), ids, 0);
            let models = index_models(before);
            let after = index_models(self.equality@);
            let expected = published_indexes(models, scope.model(), ids, artifacts@, *table_schema);
            match index_place(before, scope.model(), ids, 0) {
                Some(at) => {
                    assert(self.equality@[at as int].is_for(scope.model(), ids));
                    assert(before[at as int].is_for(scope.model(), ids));
                    assert forall|k: int| 0 <= k < after.len() implies #[trigger] after[k]
                        == expected[k] by {
                        if k != at {
                            assert(self.equality@[k] == before[k]);
                        }
                    }
                    assert(after =~= expected);
                },
                None => {
                    let at = before.len() as int;
                    assert(handle_models(self.equality@[at].columns@) =~= key_columns(
                        *table_schema,
                        ids,
                    )) by {
                        assert forall|i: int| 0 <= i < ids.len() implies handle_models(
                            self.equality@[at].columns@,
                        )[i] == key_columns(*table_schema, ids)[i] by {
                            assert(self.equality@[at].columns@[i].model() == base_handle(
                                table_schema.fields@[top_level_place(
                                    *table_schema,
                                    ids[i],
                                    0,
                                )->0 as int].model(),
                            ));
                        }
                    }
                    assert(self.equality@[at].is_for(scope.model(), ids));
                    assert forall|k: int| 0 <= k < after.len() implies #[trigger] after[k]
                        == expected[k] by {
                        if k < at {
                            assert(self.equality@[k] == before[k]);
                        }
                    }
                    assert(after =~= expected);
                },
            }
        }
        match published {
            Ok(_) => Ok(()),
            Err(error) => Err(error),
        }
    }

    /// Publish what one side loaded and fold it into the input of the split's verdict. The filter
    /// sees exactly the artifacts of its own split, never what a sibling loaded under the same
    /// key.
    pub fn publish_side(&mut self, scope: &DeleteScope, closure: &GatedClosure<'_>, loaded: LoadedSide, table_schema: &Schema) -> (resolved: Result<ResolvedDeletes, ConnectorError>)
        requires
            loaded.equality@.len() == closure.equality_groups@.len(),
            forall|g: int, i: int|
                0 <= g < closure.equality_groups@.len() && 0 <= i < closure.equality_groups@[g].key@.len()
                    ==> top_level_place(
                    *table_schema,
                    #[trigger] closure.equality_groups@[g].key@[i],
                    0,
                ) is Some,
        ensures
            resolved is Ok,
            resolved->Ok_0.positions() == union_of(parts_of(loaded.positions@)),
            same_artifacts(resolved->Ok_0.equality@, all_artifacts(loaded.equality@)),
            final(self).loads == old(self).loads,
            final(self).loaded_artifacts == old(self).loaded_artifacts,
            grown(old(self).equality@, final(self).equality@),
            forall|g: int|
                0 <= g < closure.equality_groups@.len() ==> holds(
                    final(self).equality@,
                    scope.model(),
                    (#[trigger] closure.equality_groups@[g]).key@,
                    loaded.equality@[g]@,
                ),
            index_models(final(self).equality@) == published_groups(
                index_models(old(self).equality@),
                scope.model(),
                closure.equality_groups@,
                loaded.equality@,
                *table_schema,
                loaded.equality@.len(),
            ),
    {
        let LoadedSide { positions, equality } = loaded;
        let ghost groups = equality@;
        proof {
            assert(grown(self.equality@, self.equality@)) by {
                assert forall|k: int| 0 <= k < self.equality@.len() implies (
                #[trigger] self.equality@[k]).content().artifacts.submap_of(
                    self.equality@[k].content().artifacts,
                ) by {}
            }
        }
        let deleted_positions = merged_positions(positions);
        let mut applications: Vec<LoadedEqualityDelete> = Vec::new();
        let mut g: usize = 0;
        assert(all_artifacts(groups.take(0)) =~= Seq::<LoadedEqualityDelete>::empty());
        while g < equality.len()
            invariant
                g <= equality.len(),
                groups == equality@,
                equality@.len() == closure.equality_groups@.len(),
                forall|k: int, i: int|
                    0 <= k < closure.equality_groups@.len() && 0 <= i < closure.equality_groups@[k].key@.len()
                        ==> top_level_place(
                        *table_schema,
                        #[trigger] closure.equality_groups@[k].key@[i],
                        0,
                    ) is Some,
                same_artifacts(applications@, all_artifacts(groups.take(g as int))),
                self.loads == old(self).loads,
                self.loaded_artifacts == old(self).loaded_artifacts,
                grown(old(self).equality@, self.equality@),
                index_models(self.equality@) == published_groups(
                    index_models(old(self).equality@),
                    scope.model(),
                    closure.equality_groups@,
                    groups,
                    *table_schema,
                    g as nat,
                ),
                forall|k: int|
                    0 <= k < g ==> holds(
                        self.equality@,
                        scope.model(),
                        (#[trigger] closure.equality_groups@[k]).key@,
                        groups[k]@,
                    ),
            decreases equality.len() - g,
        {
            let ghost indexes = self.equality@;
            let key = &closure.equality_groups[g].key;
            proof {
                assert forall|i: int| 0 <= i < key@.len() implies top_level_place(
                    *table_schema,
                    #[trigger] key@[i],
                    0,
                ) is Some by {
                    assert(top_level_place(
                        *table_schema,
                        closure.equality_groups@[g as int].key@[i],
                        0,
                    ) is Some);
                }
            }
            match self.publish_group(scope, key, &equality[g], table_schema) {
                Ok(_) => {},
                Err(error) => return Err(error),
            }
            proof {
                lemma_grown_transitive(old(self).equality@, indexes, self.equality@);
                assert forall|k: int| 0 <= k < g + 1 implies holds(
                    self.equality@,
                    scope.model(),
                    (#[trigger] closure.equality_groups@[k]).key@,
                    groups[k]@,
                ) by {
                    if k < g {
                        lemma_holds_grows(
                            indexes,
                            self.equality@,
                            scope.model(),
                            closure.equality_groups@[k].key@,
                            groups[k]@,
                        );
                    }
                }
            }
            let ghost before = applications@;
            let ghost listed = all_artifacts(groups.take(g as int));
            let own = &equality[g];
            let mut i: usize = 0;
            while i < own.len()
                invariant
                    i <= own.len(),
                    same_artifacts(applications@, listed + own@.take(i as int)),
                decreases own.len() - i,
            {
                let ghost so_far = applications@;
                applications.push(duplicate_artifact(&own[i]));
                proof {
                    let target = listed + own@.take(i + 1);
                    assert(target =~= (listed + own@.take(i as int)).push(own@[i as int]));
                    assert forall|k: int| 0 <= k < applications@.len() implies (
                    #[trigger] applications@[k]).path@ == target[k].path@
                        && applications@[k].data_sequence_number == target[k].data_sequence_number
                        && applications@[k].key_set == target[k].key_set by {
                        if k < so_far.len() {
                            assert(applications@[k] == so_far[k]);
                            assert(target[k] == (listed + own@.take(i as int))[k]);
                        }
                    }
                }
                i += 1;
            }
            proof {
                assert(own@.take(i as int) =~= own@);
                assert(groups.take(g + 1).drop_last() =~= groups.take(g as int));
                assert(groups.take(g + 1).last()@ == own@);
            }
            g += 1;
        }
        assert(groups.take(g as int) =~= groups);
        Ok(ResolvedDeletes { deleted_positions, equality: applications })
    }
}

/// The verdict of a shape over the deletes of both sides.
pub open spec fn verdict_of(shape: VerdictShape, applied: ResolvedDeletes, previously: ResolvedDeletes) -> FilterVerdict {
    match shape {
        VerdictShape::ExcludeDeleted => FilterVerdict::ExcludeDeleted(applied),
        VerdictShape::EqualityMatchOnly => FilterVerdict::EqualityMatchOnly(applied),
        VerdictShape::SelectNamedRows => FilterVerdict::SelectRemovedRows {
            selected: SelectedRows::NamedBy(applied),
            previously_applied: previously,
        },
        VerdictShape::SelectWholeFile => FilterVerdict::SelectRemovedRows {
            selected: SelectedRows::WholeFile,
            previously_applied: previously,
        },
    }
}

impl<'a> SplitOpen<'a> {
    /// The filter of the split, once its deletes are loaded.
    pub fn filter(
        self,
        split: &IcebergSplit,
        applied: ResolvedDeletes,
        previously: ResolvedDeletes,
        table_schema: &Schema,
    ) -> (filter: SplitDeleteFilter)
        ensures
            filter.verdict == verdict_of(self.shape, applied, previously),
            filter.data_file_path@ == split.path@,
            handle_models(filter.hidden_columns@) == hidden_columns_of(
                *table_schema,
                group_ids(group_models(self.applied.equality_groups@)) + group_ids(
                    group_models(self.previously.equality_groups@),
                ),
            ),
    {
        let mut ids: Vec<i32> = Vec::new();
        append_group_ids(&mut ids, &self.applied.equality_groups);
        append_group_ids(&mut ids, &self.previously.equality_groups);
        assert(ids@ =~= group_ids(group_models(self.applied.equality_groups@)) + group_ids(
            group_models(self.previously.equality_groups@),
        ));
        let columns = hidden_columns(table_schema, &ids);
        let verdict = match self.shape {
            VerdictShape::ExcludeDeleted => FilterVerdict::ExcludeDeleted(applied),
            VerdictShape::EqualityMatchOnly => FilterVerdict::EqualityMatchOnly(applied),
            VerdictShape::SelectNamedRows => FilterVerdict::SelectRemovedRows {
                selected: SelectedRows::NamedBy(applied),
                previously_applied: previously,
            },
            VerdictShape::SelectWholeFile => FilterVerdict::SelectRemovedRows {
                selected: SelectedRows::WholeFile,
                previously_applied: previously,
            },
        };
        SplitDeleteFilter { verdict, data_file_path: split.path.clone(), hidden_columns: columns }
    }
}

/// A split that names no equality delete needs no hidden column.
pub proof fn law_no_equality_delete_needs_no_hidden_column(schema: Schema, n: nat)
    ensures
        schema_ordered(top_level_ids(schema), Seq::<i32>::empty(), n) == Seq::<i32>::empty(),
    decreases n,
{
    if n > 0 && n <= top_level_ids(schema).len() {
        law_no_equality_delete_needs_no_hidden_column(schema, (n - 1) as nat);
    }
}


proof fn lemma_schema_ordered_members(top: Seq<i32>, ids: Seq<i32>, n: nat)
    requires
        n <= top.len(),
    ensures
        forall|i: int|
            0 <= i < schema_ordered(top, ids, n).len() ==> top.contains(
                #[trigger] schema_ordered(top, ids, n)[i],
            ),
    decreases n,
{
    if n > 0 {
        lemma_schema_ordered_members(top, ids, (n - 1) as nat);
        let before = schema_ordered(top, ids, (n - 1) as nat);
        let after = schema_ordered(top, ids, n);
        assert forall|i: int| 0 <= i < after.len() implies top.contains(#[trigger] after[i]) by {
            if i < before.len() {
                assert(after[i] == before[i]);
            } else {
                assert(top[n - 1] == after[i]);
            }
        }
    }
}

proof fn lemma_with_delete_keys(groups: Seq<GroupModel>, key: Seq<i32>, delete: IcebergDeleteFile, g: int)
    requires
        0 <= g < crate::delete_closure::with_delete(groups, key, delete).len(),
    ensures
        crate::delete_closure::with_delete(groups, key, delete)[g].key == key || exists|k: int|
            0 <= k < groups.len() && (#[trigger] groups[k]).key
                == crate::delete_closure::with_delete(groups, key, delete)[g].key,
    decreases groups.len(),
{
    let after = crate::delete_closure::with_delete(groups, key, delete);
    if groups.len() == 0 || crate::delete_closure::key_before(groups.last().key, key) || groups.last().key
        == key {
        if g < after.len() - 1 {
            assert(groups[g].key == after[g].key);
        }
    } else {
        let shorter = groups.drop_last();
        let inner = crate::delete_closure::with_delete(shorter, key, delete);
        if g < inner.len() {
            lemma_with_delete_keys(shorter, key, delete, g);
            if inner[g].key != key {
                let k = choose|k: int| 0 <= k < shorter.len() && (#[trigger] shorter[k]).key == inner[g].key;
                assert(groups[k].key == after[g].key);
            }
        } else {
            assert(groups[groups.len() - 1].key == after[g].key);
        }
    }
}

/// Every field id of an equality key names a top-level field, so that a closure can always be
/// published.
pub proof fn law_group_keys_are_top_level(schema: Schema, deletes: Seq<IcebergDeleteFile>, n: nat, g: int, i: int)
    requires
        n <= deletes.len(),
        crate::delete_closure::grouped(schema, deletes, n) is Ok,
        0 <= g < crate::delete_closure::grouped(schema, deletes, n)->Ok_0.len(),
        0 <= i < crate::delete_closure::grouped(schema, deletes, n)->Ok_0[g].key.len(),
    ensures
        top_level_place(schema, crate::delete_closure::grouped(schema, deletes, n)->Ok_0[g].key[i], 0) is Some,
    decreases n,
{
    if n > 0 {
        let before = crate::delete_closure::grouped(schema, deletes, (n - 1) as nat)->Ok_0;
        let after = crate::delete_closure::grouped(schema, deletes, n)->Ok_0;
        let ids = deletes[n - 1].equality_field_ids@;
        let key = equality_key(schema, ids);
        lemma_with_delete_keys(before, key, deletes[n - 1], g);
        if after[g].key == key {
            let top = top_level_ids(schema);
            lemma_schema_ordered_members(top, ids, top.len());
            assert(top.contains(key[i]));
            let k = choose|k: int| 0 <= k < top.len() && top[k] == key[i];
            assert(schema.fields@[k].id == key[i]);
            lemma_named_has_place(schema, key[i], k as nat, 0);
        } else {
            let k = choose|k: int| 0 <= k < before.len() && (#[trigger] before[k]).key == after[g].key;
            law_group_keys_are_top_level(schema, deletes, (n - 1) as nat, k, i);
        }
    }
}

proof fn lemma_named_has_place(schema: Schema, id: i32, at: nat, from: nat)
    requires
        from <= at < schema.fields@.len(),
        schema.fields@[at as int].id == id,
    ensures
        top_level_place(schema, id, from) is Some,
    decreases at - from,
{
    if from < at && schema.fields@[from as int].id != id {
        lemma_named_has_place(schema, id, at, from + 1);
    }
}

} // verus!
