//! The rows of the system relations that describe files: manifest entries after inheritance, and
//! their aggregation into partitions.

use vstd::prelude::*;

use crate::error::{ConnectorError, CorruptData, UnsupportedFeature};
use crate::keyed::{ascending, get, law_get_after_put, law_put_keeps_ascending, named_model, put, put_entry, put_named, put_named_entry};
use crate::partition::{PartitionField, PartitionSpec};
use crate::split::IcebergFileFormat;
use crate::value::{Datum, Literal};

verus! {

// ---------------------------------------------------------------------------
// Manifests
// ---------------------------------------------------------------------------

/// What became of a file in the snapshot that wrote the manifest.
#[derive(Clone, Copy, Debug, PartialEq, Eq, Structural)]
pub enum ManifestStatus {
    Existing,
    Added,
    Deleted,
}

/// What a file of a manifest holds.
#[derive(Clone, Copy, Debug, PartialEq, Eq, Structural)]
pub enum DataContentType {
    Data,
    PositionDeletes,
    EqualityDeletes,
}

/// What the files of a manifest hold.
#[derive(Clone, Copy, Debug, PartialEq, Eq, Structural)]
pub enum TrinoManifestContent {
    Data,
    Deletes,
}

impl TrinoManifestContent {
    pub open spec fn spec_code(self) -> i32 {
        match self {
            TrinoManifestContent::Data => 0,
            TrinoManifestContent::Deletes => 1,
        }
    }

    /// The number that a manifest list gives the content.
    pub fn code(self) -> (code: i32)
        ensures
            code == self.spec_code(),
    {
        match self {
            TrinoManifestContent::Data => 0,
            TrinoManifestContent::Deletes => 1,
        }
    }
}

/// One manifest of a manifest list.
pub struct TrinoManifestFile {
    pub path: String,
    pub length: i64,
    pub partition_spec_id: i32,
    pub content: TrinoManifestContent,
    pub sequence_number: i64,
    pub min_sequence_number: i64,
    pub added_snapshot_id: i64,
    pub added_files_count: Option<i32>,
    pub existing_files_count: Option<i32>,
    pub deleted_files_count: Option<i32>,
    pub added_rows_count: Option<i64>,
    pub existing_rows_count: Option<i64>,
    pub deleted_rows_count: Option<i64>,
    pub first_row_id: Option<i64>,
}

/// A manifest of a manifest list with its key metadata, as it was read.
pub struct TrinoManifestFileParams {
    pub manifest: TrinoManifestFile,
    /// Empty where the manifest is not encrypted.
    pub key_metadata: Vec<u8>,
}

impl TrinoManifestFile {
    /// Admit a manifest: an encrypted one is refused, its key never ignored.
    pub fn try_new(params: TrinoManifestFileParams) -> (manifest: Result<TrinoManifestFile, ConnectorError>)
        ensures
            manifest == (if params.key_metadata@.len() > 0 {
                Err(ConnectorError::Unsupported(UnsupportedFeature::EncryptedManifest))
            } else {
                Ok(params.manifest)
            }),
    {
        if params.key_metadata.len() > 0 {
            return Err(ConnectorError::Unsupported(UnsupportedFeature::EncryptedManifest));
        }
        Ok(params.manifest)
    }

    /// The length of the manifest file, which is never negative.
    pub fn byte_length(&self) -> (length: Result<u64, ConnectorError>)
        ensures
            length == (if self.length < 0 {
                Err(ConnectorError::Corrupt(CorruptData::NegativeManifestLength))
            } else {
                Ok(self.length as u64)
            }),
    {
        if self.length < 0 {
            return Err(ConnectorError::Corrupt(CorruptData::NegativeManifestLength));
        }
        Ok(self.length as u64)
    }
}

/// A file that a manifest lists. Counts and bounds are keyed by field id, each id once.
pub struct DataFile {
    pub content: DataContentType,
    pub file_path: String,
    pub file_format: IcebergFileFormat,
    /// The partition tuple, in the order of the spec's fields.
    pub partition: Vec<Option<Literal>>,
    pub record_count: u64,
    pub file_size_in_bytes: u64,
    pub column_sizes: Vec<(i32, u64)>,
    pub value_counts: Vec<(i32, u64)>,
    pub null_value_counts: Vec<(i32, u64)>,
    pub nan_value_counts: Vec<(i32, u64)>,
    pub lower_bounds: Vec<(i32, Datum)>,
    pub upper_bounds: Vec<(i32, Datum)>,
    pub key_metadata: Option<Vec<u8>>,
    pub split_offsets: Option<Vec<i64>>,
    pub equality_ids: Option<Vec<i32>>,
    pub sort_order_id: Option<i32>,
    pub referenced_data_file: Option<String>,
    pub first_row_id: Option<i64>,
    pub content_offset: Option<i64>,
    pub content_size_in_bytes: Option<i64>,
}

/// One entry of a manifest, as it was written.
pub struct ManifestEntry {
    pub status: ManifestStatus,
    pub snapshot_id: Option<i64>,
    pub sequence_number: Option<i64>,
    pub file_sequence_number: Option<i64>,
    pub data_file: DataFile,
}

// ---------------------------------------------------------------------------
// Inheritance
// ---------------------------------------------------------------------------

/// The sequence number of a manifest that was written before sequence numbers were assigned.
pub const INITIAL_SEQUENCE_NUMBER: i64 = 0;

/// What an entry says of itself after inheritance.
#[derive(Clone, Copy, Debug, PartialEq, Eq, Structural)]
pub struct ManifestEntryFacts {
    pub status: i32,
    pub snapshot_id: Option<i64>,
    pub data_sequence_number: Option<i64>,
    pub file_sequence_number: Option<i64>,
}

/// The number of a status.
pub open spec fn status_code(status: ManifestStatus) -> i32 {
    match status {
        ManifestStatus::Existing => 0,
        ManifestStatus::Added => 1,
        ManifestStatus::Deleted => 2,
    }
}

/// A sequence number of an entry: its own, else the manifest's where the entry may inherit it.
pub open spec fn inherited_sequence(
    status: ManifestStatus,
    own: Option<i64>,
    manifest_sequence: i64,
) -> Option<i64> {
    if own is Some {
        own
    } else if status == ManifestStatus::Added || manifest_sequence == INITIAL_SEQUENCE_NUMBER {
        Some(manifest_sequence)
    } else {
        None
    }
}

impl ManifestEntryFacts {
    pub open spec fn inherited(
        status: ManifestStatus,
        snapshot_id: Option<i64>,
        data_sequence_number: Option<i64>,
        file_sequence_number: Option<i64>,
        manifest: TrinoManifestFile,
    ) -> ManifestEntryFacts {
        ManifestEntryFacts {
            status: status_code(status),
            snapshot_id: Some(
                if snapshot_id is Some {
                    snapshot_id->0
                } else {
                    manifest.added_snapshot_id
                },
            ),
            data_sequence_number: inherited_sequence(
                status,
                data_sequence_number,
                manifest.sequence_number,
            ),
            file_sequence_number: inherited_sequence(
                status,
                file_sequence_number,
                manifest.sequence_number,
            ),
        }
    }

    /// Apply the inheritance that the table format defines: a null value of an entry comes from
    /// the manifest that lists the file.
    pub fn inherit(
        status: ManifestStatus,
        snapshot_id: Option<i64>,
        data_sequence_number: Option<i64>,
        file_sequence_number: Option<i64>,
        manifest: &TrinoManifestFile,
    ) -> (facts: ManifestEntryFacts)
        ensures
            facts == Self::inherited(
                status,
                snapshot_id,
                data_sequence_number,
                file_sequence_number,
                *manifest,
            ),
    {
        let inheritable = status == ManifestStatus::Added || manifest.sequence_number
            == INITIAL_SEQUENCE_NUMBER;
        let fallback: Option<i64> = if inheritable {
            Some(manifest.sequence_number)
        } else {
            None
        };
        ManifestEntryFacts {
            status: match status {
                ManifestStatus::Existing => 0,
                ManifestStatus::Added => 1,
                ManifestStatus::Deleted => 2,
            },
            snapshot_id: match snapshot_id {
                Some(own) => Some(own),
                None => Some(manifest.added_snapshot_id),
            },
            data_sequence_number: match data_sequence_number {
                Some(own) => Some(own),
                None => fallback,
            },
            file_sequence_number: match file_sequence_number {
                Some(own) => Some(own),
                None => fallback,
            },
        }
    }
}

/// An entry always ends up with a snapshot id, and what it states itself is never overridden.
pub proof fn law_inheritance_fills_and_never_overrides(
    status: ManifestStatus,
    snapshot_id: Option<i64>,
    data_sequence_number: Option<i64>,
    file_sequence_number: Option<i64>,
    manifest: TrinoManifestFile,
)
    ensures
        ({
            let facts = ManifestEntryFacts::inherited(
                status,
                snapshot_id,
                data_sequence_number,
                file_sequence_number,
                manifest,
            );
            &&& facts.snapshot_id is Some
            &&& snapshot_id is Some ==> facts.snapshot_id == snapshot_id
            &&& data_sequence_number is Some ==> facts.data_sequence_number == data_sequence_number
            &&& file_sequence_number is Some ==> facts.file_sequence_number == file_sequence_number
            &&& status == ManifestStatus::Added ==> facts.data_sequence_number is Some
                && facts.file_sequence_number is Some
        }),
{
}

// ---------------------------------------------------------------------------
// File rows
// ---------------------------------------------------------------------------

/// The name that `$files` reports for a format.
pub open spec fn format_name(format: IcebergFileFormat) -> Seq<char> {
    match format {
        IcebergFileFormat::Parquet => "PARQUET"@,
        IcebergFileFormat::Orc => "ORC"@,
        IcebergFileFormat::Avro => "AVRO"@,
        IcebergFileFormat::Puffin => "PUFFIN"@,
    }
}

pub fn file_format_name(format: IcebergFileFormat) -> (name: &'static str)
    ensures
        name@ == format_name(format),
{
    match format {
        IcebergFileFormat::Parquet => "PARQUET",
        IcebergFileFormat::Orc => "ORC",
        IcebergFileFormat::Avro => "AVRO",
        IcebergFileFormat::Puffin => "PUFFIN",
    }
}

pub open spec fn spec_content_code(content: DataContentType) -> i32 {
    match content {
        DataContentType::Data => 0,
        DataContentType::PositionDeletes => 1,
        DataContentType::EqualityDeletes => 2,
    }
}

/// The number that `$files` reports for a content.
pub fn content_code(content: DataContentType) -> (code: i32)
    ensures
        code == spec_content_code(content),
{
    match content {
        DataContentType::Data => 0,
        DataContentType::PositionDeletes => 1,
        DataContentType::EqualityDeletes => 2,
    }
}

/// Whether every count fits a signed column.
pub open spec fn counts_fit(counts: Seq<(i32, u64)>) -> bool {
    forall|i: int| 0 <= i < counts.len() ==> (#[trigger] counts[i]).1 <= i64::MAX
}

/// The first `n` counts, ascending by field id.
pub open spec fn counts_by_id(counts: Seq<(i32, u64)>, n: nat) -> Seq<(i32, i64)>
    decreases n,
{
    if n == 0 || n > counts.len() {
        seq![]
    } else {
        put(counts_by_id(counts, (n - 1) as nat), counts[n - 1].0, counts[n - 1].1 as i64)
    }
}

/// Order counts by field id and fit them to a signed column.
pub fn counts_to_map(counts: &Vec<(i32, u64)>) -> (map: Result<Vec<(i32, i64)>, ConnectorError>)
    ensures
        match map {
            Ok(list) => counts_fit(counts@) && list@ == counts_by_id(counts@, counts@.len()),
            Err(error) => !counts_fit(counts@) && error == ConnectorError::Corrupt(
                CorruptData::CountBeyondInt64,
            ),
        },
{
    let mut list: Vec<(i32, i64)> = Vec::new();
    let mut i: usize = 0;
    while i < counts.len()
        invariant
            i <= counts.len(),
            forall|k: int| 0 <= k < i ==> (#[trigger] counts@[k]).1 <= i64::MAX,
            list@ == counts_by_id(counts@, i as nat),
        decreases counts.len() - i,
    {
        let (id, count): (i32, u64) = counts[i];
        if count > 9223372036854775807 {
            assert(counts@[i as int].1 > i64::MAX);
            return Err(ConnectorError::Corrupt(CorruptData::CountBeyondInt64));
        }
        put_entry(&mut list, id, count as i64);
        i += 1;
    }
    Ok(list)
}

proof fn lemma_counts_by_id(counts: Seq<(i32, u64)>, n: nat, i: int)
    requires
        n <= counts.len(),
        forall|a: int, b: int| 0 <= a < b < counts.len() ==> (#[trigger] counts[a]).0 != (#[trigger] counts[b]).0,
    ensures
        ascending(counts_by_id(counts, n)),
        0 <= i < n ==> get(counts_by_id(counts, n), counts[i].0) == Some(counts[i].1 as i64),
    decreases n,
{
    if n > 0 {
        lemma_counts_by_id(counts, (n - 1) as nat, i);
        let before = counts_by_id(counts, (n - 1) as nat);
        law_put_keeps_ascending(before, counts[n - 1].0, counts[n - 1].1 as i64);
        if 0 <= i < n {
            law_get_after_put(before, counts[n - 1].0, counts[n - 1].1 as i64, counts[i].0);
            if i < n - 1 {
                assert(counts[i].0 != counts[n - 1].0);
            }
        }
    }
}

/// Ordering counts keeps each of them under its own id, whatever order they were walked in.
pub proof fn law_counts_keep_every_count(counts: Seq<(i32, u64)>, i: int)
    requires
        0 <= i < counts.len(),
        forall|a: int, b: int| 0 <= a < b < counts.len() ==> (#[trigger] counts[a]).0 != (#[trigger] counts[b]).0,
    ensures
        ascending(counts_by_id(counts, counts.len())),
        get(counts_by_id(counts, counts.len()), counts[i].0) == Some(counts[i].1 as i64),
{
    lemma_counts_by_id(counts, counts.len(), i);
}

/// The first `n` bounds, ascending by field id.
pub open spec fn bounds_by_id<'a>(bounds: &'a Vec<(i32, Datum)>, n: nat) -> Seq<(i32, &'a Datum)>
    decreases n,
{
    if n == 0 || n > bounds@.len() {
        seq![]
    } else {
        put(bounds_by_id(bounds, (n - 1) as nat), bounds@[n - 1].0, &bounds@[n - 1].1)
    }
}

fn sorted_bounds<'a>(bounds: &'a Vec<(i32, Datum)>) -> (list: Vec<(i32, &'a Datum)>)
    ensures
        list@ == bounds_by_id(bounds, bounds@.len()),
{
    let mut list: Vec<(i32, &'a Datum)> = Vec::new();
    let mut i: usize = 0;
    while i < bounds.len()
        invariant
            i <= bounds.len(),
            list@ == bounds_by_id(bounds, i as nat),
        decreases bounds.len() - i,
    {
        let pair = &bounds[i];
        put_entry(&mut list, pair.0, &pair.1);
        i += 1;
    }
    list
}

/// The first `n` partition values under the names of the spec's fields, in name order.
pub open spec fn values_by_name<'a>(
    fields: Seq<PartitionField>,
    values: &'a Vec<Option<Literal>>,
    n: nat,
) -> Seq<(Seq<char>, &'a Option<Literal>)>
    decreases n,
{
    if n == 0 || n > fields.len() || n > values@.len() {
        seq![]
    } else {
        put_named(
            values_by_name(fields, values, (n - 1) as nat),
            fields[n - 1].name@,
            &values@[n - 1],
        )
    }
}

/// Resolve the partition tuple of a file against the spec that its manifest names.
pub fn partition_values<'a>(data_file: &'a DataFile, spec: &PartitionSpec) -> (values: Result<Vec<(String, &'a Option<Literal>)>, ConnectorError>)
    ensures
        match values {
            Ok(list) => data_file.partition@.len() == spec.fields@.len() && named_model(list@)
                == values_by_name(spec.fields@, &data_file.partition, spec.fields@.len()),
            Err(error) => data_file.partition@.len() != spec.fields@.len() && error
                == ConnectorError::Corrupt(CorruptData::PartitionArity),
        },
{
    if data_file.partition.len() != spec.fields.len() {
        return Err(ConnectorError::Corrupt(CorruptData::PartitionArity));
    }
    let mut list: Vec<(String, &'a Option<Literal>)> = Vec::new();
    let mut i: usize = 0;
    assert(named_model(list@) =~= Seq::<(Seq<char>, &Option<Literal>)>::empty());
    while i < spec.fields.len()
        invariant
            i <= spec.fields.len(),
            data_file.partition@.len() == spec.fields@.len(),
            named_model(list@) == values_by_name(spec.fields@, &data_file.partition, i as nat),
        decreases spec.fields.len() - i,
    {
        put_named_entry(&mut list, spec.fields[i].name.clone(), &data_file.partition[i]);
        i += 1;
    }
    Ok(list)
}

/// One row of `$files`: an entry with where it was found.
pub struct FileRow<'a> {
    pub entry: ManifestEntryFacts,
    pub content: i32,
    pub file_format: &'static str,
    pub spec_id: i32,
    /// The partition values by name, in name order.
    pub partition: Vec<(String, &'a Option<Literal>)>,
    pub record_count: i64,
    pub file_size_in_bytes: i64,
    pub column_sizes: Vec<(i32, i64)>,
    pub value_counts: Vec<(i32, i64)>,
    pub null_value_counts: Vec<(i32, i64)>,
    pub nan_value_counts: Vec<(i32, i64)>,
    pub lower_bounds: Vec<(i32, &'a Datum)>,
    pub upper_bounds: Vec<(i32, &'a Datum)>,
    /// The file, for what is reported as the manifest states it.
    pub file: &'a DataFile,
    /// The position of the entry in its manifest.
    pub pos: i64,
    pub manifest_location: String,
}

/// Which manifest entries a relation keeps.
#[derive(Clone, Copy, Debug, PartialEq, Eq, Structural)]
pub enum EntryStatusRule {
    /// `$files` describes the files that a snapshot has.
    SkipDeleted,
    /// `$entries` describes the manifest itself, tombstones included.
    KeepDeleted,
}

/// Whether a relation keeps an entry.
pub open spec fn keeps(rule: EntryStatusRule, entry: ManifestEntry) -> bool {
    !(rule == EntryStatusRule::SkipDeleted && entry.status == ManifestStatus::Deleted)
}

/// Why an entry has no row, where it has none.
pub open spec fn entry_fault(entry: ManifestEntry, ordinal: int, spec: PartitionSpec) -> Option<ConnectorError> {
    let file = entry.data_file;
    if file.record_count > i64::MAX {
        Some(ConnectorError::Corrupt(CorruptData::RecordCountBeyondInt64))
    } else if file.file_size_in_bytes > i64::MAX {
        Some(ConnectorError::Corrupt(CorruptData::FileSizeBeyondInt64))
    } else if file.partition@.len() != spec.fields@.len() {
        Some(ConnectorError::Corrupt(CorruptData::PartitionArity))
    } else if !counts_fit(file.column_sizes@) || !counts_fit(file.value_counts@) || !counts_fit(
        file.null_value_counts@,
    ) || !counts_fit(file.nan_value_counts@) {
        Some(ConnectorError::Corrupt(CorruptData::CountBeyondInt64))
    } else if ordinal > i64::MAX {
        Some(ConnectorError::Corrupt(CorruptData::ManifestTooLong))
    } else {
        None
    }
}

/// Whether a row is that of the entry at `ordinal` of a manifest.
pub open spec fn is_row_of(
    row: FileRow,
    manifest: TrinoManifestFile,
    entry: ManifestEntry,
    ordinal: int,
    spec: PartitionSpec,
) -> bool {
    let file = entry.data_file;
    &&& row.entry == ManifestEntryFacts::inherited(
        entry.status,
        entry.snapshot_id,
        entry.sequence_number,
        entry.file_sequence_number,
        manifest,
    )
    &&& row.content == spec_content_code(file.content)
    &&& row.file_format@ == format_name(file.file_format)
    &&& row.spec_id == manifest.partition_spec_id
    &&& named_model(row.partition@) == values_by_name(
        spec.fields@,
        &file.partition,
        spec.fields@.len(),
    )
    &&& row.record_count == file.record_count
    &&& row.file_size_in_bytes == file.file_size_in_bytes
    &&& row.column_sizes@ == counts_by_id(file.column_sizes@, file.column_sizes@.len())
    &&& row.value_counts@ == counts_by_id(file.value_counts@, file.value_counts@.len())
    &&& row.null_value_counts@ == counts_by_id(
        file.null_value_counts@,
        file.null_value_counts@.len(),
    )
    &&& row.nan_value_counts@ == counts_by_id(file.nan_value_counts@, file.nan_value_counts@.len())
    &&& row.lower_bounds@ == bounds_by_id(&file.lower_bounds, file.lower_bounds@.len())
    &&& row.upper_bounds@ == bounds_by_id(&file.upper_bounds, file.upper_bounds@.len())
    &&& *row.file == file
    &&& row.pos == ordinal
    &&& row.manifest_location@ == manifest.path@
}

/// The positions of the entries among the first `n` that a relation keeps.
pub open spec fn kept_positions(entries: Seq<ManifestEntry>, rule: EntryStatusRule, n: nat) -> Seq<int>
    decreases n,
{
    if n == 0 || n > entries.len() {
        seq![]
    } else {
        let before = kept_positions(entries, rule, (n - 1) as nat);
        if keeps(rule, entries[n - 1]) {
            before.push(n - 1)
        } else {
            before
        }
    }
}

/// The first fault among the kept of the first `n` entries.
pub open spec fn first_fault(entries: Seq<ManifestEntry>, rule: EntryStatusRule, spec: PartitionSpec, n: nat) -> Option<ConnectorError>
    decreases n,
{
    if n == 0 || n > entries.len() {
        None
    } else {
        let before = first_fault(entries, rule, spec, (n - 1) as nat);
        if before is Some {
            before
        } else if keeps(rule, entries[n - 1]) {
            entry_fault(entries[n - 1], n - 1, spec)
        } else {
            None
        }
    }
}

proof fn lemma_first_fault_stays(entries: Seq<ManifestEntry>, rule: EntryStatusRule, spec: PartitionSpec, n: nat)
    requires
        n <= entries.len(),
        first_fault(entries, rule, spec, n) is Some,
    ensures
        first_fault(entries, rule, spec, entries.len()) == first_fault(entries, rule, spec, n),
    decreases entries.len() - n,
{
    if n < entries.len() {
        lemma_first_fault_stays(entries, rule, spec, n + 1);
    }
}

fn file_row<'a>(
    manifest: &TrinoManifestFile,
    entry: &'a ManifestEntry,
    ordinal: usize,
    spec: &PartitionSpec,
) -> (row: Result<FileRow<'a>, ConnectorError>)
    ensures
        match row {
            Ok(row) => entry_fault(*entry, ordinal as int, *spec) is None && is_row_of(
                row,
                *manifest,
                *entry,
                ordinal as int,
                *spec,
            ),
            Err(error) => entry_fault(*entry, ordinal as int, *spec) == Some(error),
        },
{
    let facts = ManifestEntryFacts::inherit(
        entry.status,
        entry.snapshot_id,
        entry.sequence_number,
        entry.file_sequence_number,
        manifest,
    );
    let file = &entry.data_file;
    if file.record_count > 9223372036854775807 {
        return Err(ConnectorError::Corrupt(CorruptData::RecordCountBeyondInt64));
    }
    if file.file_size_in_bytes > 9223372036854775807 {
        return Err(ConnectorError::Corrupt(CorruptData::FileSizeBeyondInt64));
    }
    let partition = match partition_values(file, spec) {
        Ok(partition) => partition,
        Err(error) => return Err(error),
    };
    let column_sizes = match counts_to_map(&file.column_sizes) {
        Ok(counts) => counts,
        Err(error) => return Err(error),
    };
    let value_counts = match counts_to_map(&file.value_counts) {
        Ok(counts) => counts,
        Err(error) => return Err(error),
    };
    let null_value_counts = match counts_to_map(&file.null_value_counts) {
        Ok(counts) => counts,
        Err(error) => return Err(error),
    };
    let nan_value_counts = match counts_to_map(&file.nan_value_counts) {
        Ok(counts) => counts,
        Err(error) => return Err(error),
    };
    if ordinal as u64 > 9223372036854775807 {
        return Err(ConnectorError::Corrupt(CorruptData::ManifestTooLong));
    }
    Ok(
        FileRow {
            entry: facts,
            content: content_code(file.content),
            file_format: file_format_name(file.file_format),
            spec_id: manifest.partition_spec_id,
            partition,
            record_count: file.record_count as i64,
            file_size_in_bytes: file.file_size_in_bytes as i64,
            column_sizes,
            value_counts,
            null_value_counts,
            nan_value_counts,
            lower_bounds: sorted_bounds(&file.lower_bounds),
            upper_bounds: sorted_bounds(&file.upper_bounds),
            file,
            pos: ordinal as i64,
            manifest_location: manifest.path.clone(),
        },
    )
}

/// Turn the entries of one manifest into rows, in manifest order. A file of any format is
/// reported: no file is opened.
pub fn manifest_rows<'a>(
    manifest: &TrinoManifestFile,
    entries: &'a Vec<ManifestEntry>,
    spec: &PartitionSpec,
    status_rule: EntryStatusRule,
) -> (rows: Result<Vec<FileRow<'a>>, ConnectorError>)
    ensures
        match rows {
            Ok(rows) => {
                let kept = kept_positions(entries@, status_rule, entries@.len());
                &&& first_fault(entries@, status_rule, *spec, entries@.len()) is None
                &&& rows@.len() == kept.len()
                &&& forall|k: int|
                    0 <= k < kept.len() ==> is_row_of(
                        #[trigger] rows@[k],
                        *manifest,
                        entries@[kept[k]],
                        kept[k],
                        *spec,
                    )
            },
            Err(error) => first_fault(entries@, status_rule, *spec, entries@.len()) == Some(error),
        },
{
    let mut rows: Vec<FileRow<'a>> = Vec::new();
    let mut i: usize = 0;
    while i < entries.len()
        invariant
            i <= entries.len(),
            first_fault(entries@, status_rule, *spec, i as nat) is None,
            rows@.len() == kept_positions(entries@, status_rule, i as nat).len(),
            forall|k: int|
                0 <= k < rows@.len() ==> is_row_of(
                    #[trigger] rows@[k],
                    *manifest,
                    entries@[kept_positions(entries@, status_rule, i as nat)[k]],
                    kept_positions(entries@, status_rule, i as nat)[k],
                    *spec,
                ),
        decreases entries.len() - i,
    {
        let entry = &entries[i];
        let skipped = status_rule == EntryStatusRule::SkipDeleted && entry.status
            == ManifestStatus::Deleted;
        if !skipped {
            match file_row(manifest, entry, i, spec) {
                Ok(row) => rows.push(row),
                Err(error) => {
                    proof {
                        lemma_first_fault_stays(entries@, status_rule, *spec, (i + 1) as nat);
                    }
                    return Err(error);
                },
            }
        }
        i += 1;
    }
    Ok(rows)
}

/// `$files` skips exactly the tombstones that `$entries` keeps: every entry is in `$entries`, and
/// an entry is in `$files` exactly where it is not deleted.
pub proof fn law_files_and_entries_differ_by_tombstones(entries: Seq<ManifestEntry>, n: nat, i: int)
    requires
        n <= entries.len(),
    ensures
        kept_positions(entries, EntryStatusRule::KeepDeleted, n).len() == n,
        0 <= i < n ==> kept_positions(entries, EntryStatusRule::KeepDeleted, n)[i] == i,
        kept_positions(entries, EntryStatusRule::SkipDeleted, n).contains(i) <==> (0 <= i < n
            && entries[i].status != ManifestStatus::Deleted),
    decreases n,
{
    if n > 0 {
        law_files_and_entries_differ_by_tombstones(entries, (n - 1) as nat, i);
        let before = kept_positions(entries, EntryStatusRule::SkipDeleted, (n - 1) as nat);
        let after = kept_positions(entries, EntryStatusRule::SkipDeleted, n);
        if keeps(EntryStatusRule::SkipDeleted, entries[n - 1]) {
            if before.contains(i) {
                let k = choose|k: int| 0 <= k < before.len() && before[k] == i;
                assert(after[k] == i);
            }
            if after.contains(i) {
                let k = choose|k: int| 0 <= k < after.len() && after[k] == i;
                if k < before.len() {
                    assert(before[k] == i);
                }
            }
            assert(after[after.len() - 1] == n - 1);
        }
    }
}

} // verus!
