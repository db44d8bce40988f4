//! The failures the connector reports, one variant for each place that refuses.

use vstd::prelude::*;

verus! {

/// The class of a failure: it decides whether the engine retries, rejects or aborts.
#[derive(Clone, Copy, Debug, PartialEq, Eq, Structural)]
pub enum ConnectorErrorKind {
    InvalidRequest,
    CorruptData,
    Unsupported,
    ResourceExhausted,
    Unavailable,
    Cancelled,
    Internal,
}

/// Table or file facts that contradict each other.
#[derive(Clone, Copy, Debug, PartialEq, Eq, Structural)]
pub enum CorruptData {
    /// A partition field reads a table field that the schema does not have.
    PartitionSourceMissing,
    /// A partition transform does not apply to its source.
    PartitionTransformUndefined,
    /// A partition transform does not come to a primitive value.
    PartitionNotPrimitive,
    /// Two specs give one partition field different types.
    PartitionTypesConflict,
    /// A manifest declares a negative length.
    NegativeManifestLength,
    /// A metric count does not fit a signed column.
    CountBeyondInt64,
    /// The null or NaN counts of a partition add up beyond a signed column.
    PartitionCountOverflow,
    /// A record count does not fit a signed column.
    RecordCountBeyondInt64,
    /// A file size does not fit a signed column.
    FileSizeBeyondInt64,
    /// A file has another number of partition values than its spec has fields.
    PartitionArity,
    /// A manifest has more entries than a signed column can address.
    ManifestTooLong,
    /// A literal is of another kind than its column.
    LiteralMismatch,
    /// A fixed value has another width than its column.
    FixedValueWidth,
    /// A decimal column states a precision and a scale that cannot be carried.
    DecimalCarrier,
    /// A partition value is a struct, a list or a map.
    NestedPartitionValue,
    /// A partition summary has no partition field to decode its bounds against.
    SummaryWithoutPartitionField,
    /// A summary bound is no value of its partition field's type.
    SummaryBoundUndecodable,
    /// A manifest names a partition spec that the metadata lacks.
    ManifestSpecMissing,
    /// The frozen metadata belongs to another table.
    TableUuidMismatch,
    /// The pinned snapshot is absent from the frozen metadata.
    PinnedSnapshotMissing,
    /// An equality delete names a field id twice.
    DuplicateEqualityFieldId,
    /// An equality delete names a field id that the schema does not have.
    UnknownEqualityFieldId,
    /// A data file claims the format of delete artifacts.
    PuffinDataFile,
    /// A data file has no partition spec id.
    PartitionSpecIdMissing,
    /// A data file has no record count.
    RecordCountMissing,
    /// A data file has a negative size.
    NegativeFileSize,
    /// A data file names a partition spec that the table does not carry.
    UnknownPartitionSpec,
    /// A data file has no partition values.
    PartitionValuesMissing,
    /// The partition values of a data file have no JSON text.
    PartitionValuesUnencodable,
    /// A delete file does not apply to the data file it is attached to.
    DeleteDoesNotApply,
    /// A delete file has no manifest facts.
    DeleteFactsMissing,
    /// A delete file has no size.
    DeleteSizeMissing,
    /// A delete file has no data sequence number.
    DeleteSequenceMissing,
    /// A data file has more than one deletion vector.
    SecondDeletionVector,
    /// A data file has a deletion vector beside position-delete files.
    VectorBesidePositionFiles,
    /// An equality delete claims the format of deletion vectors.
    PuffinEqualityDelete,
    /// A data file has equality deletes but no data sequence number.
    DataSequenceMissing,
    /// An equality delete names a field that is not at the top level.
    EqualityFieldNotTopLevel,
    /// A field id is not that of a top-level field.
    FieldNotTopLevel,
    /// A delete file has a negative size.
    NegativeDeleteSize,
    /// An equality delete decoded into other than one key set.
    EqualityKeySets,
    /// An equality delete could not be applied to a page.
    EqualityDeleteNotApplied,
    /// An equality delete judged another number of rows than a page has.
    EqualityVerdictLength,
    /// A page has another number of row positions than rows.
    PositionCount,
    /// A row of a page has no position.
    PositionMissing,
    /// A variant column has no metadata field.
    VariantWithoutMetadata,
    /// A variant column has no value field.
    VariantWithoutValue,
    /// A row of a variant column lacks metadata or value bytes.
    VariantRowIncomplete,
    /// A variant is longer than its frame can state.
    VariantTooLarge,
    /// A physical field has a carrier that cannot become what the table schema asks for.
    PhysicalTypeMismatch,
    /// A row position is null.
    RowPositionNull,
    /// A row position does not fit a signed column.
    RowPositionBeyondInt64,
    /// A row id does not fit a signed column.
    RowIdOverflow,
    /// A metadata column needs row positions that were not produced.
    RowPositionsMissing,
    /// A data file has no first row id to count row ids from.
    FirstRowIdMissing,
    /// A data file has no data sequence number to report.
    RowSequenceMissing,
    /// A file schema identifies a part of its fields.
    PartialFieldIds,
    /// A file schema declares a field id twice.
    DuplicateFieldId,
    /// A dereference names a field that its struct does not have.
    DereferenceFieldMissing,
    /// A metadata column has another name than its reserved id stands for.
    MetadataColumnName,
    /// A required field is in neither the file, its partition, the mapping nor the defaults.
    RequiredFieldMissing,
    /// A column is no top-level field of the table schema.
    ColumnNotInSchema,
    /// A page no longer has a field that the file schema had.
    FieldVanished,
    /// The row positions of a batch run backwards.
    RowPositionsOutOfOrder,
    /// A batch goes back behind the positions that were read.
    RowPositionRevisited,
    /// A column's carrier gives no value of its domain's type.
    PredicateCarrier,
    /// A UUID column is not sixteen bytes wide.
    UuidWidth,
    /// A data file declares a negative record count.
    NegativeRecordCount,
    /// The partition data of a split is no JSON.
    PartitionDataJson,
    /// The partition data of a split has no value under its partition type.
    PartitionDataLiteral,
    /// The partition data of a split is not a partition struct.
    PartitionDataNotStruct,
    /// A split starts before its file.
    NegativeSplitStart,
    /// A split has a negative length.
    NegativeSplitLength,
    /// A reader did not report the positions of its rows.
    RowPositionsNotReported,
    /// A reader reported a position beyond the records of its file.
    RowPositionBeyondRecords,
    /// Deletes are judged by row positions that a page does not have.
    DeletesWithoutPositions,
}

/// What the reader knows and declines to do.
#[derive(Clone, Copy, Debug, PartialEq, Eq, Structural)]
pub enum UnsupportedFeature {
    /// The relation and split cannot be read as a page stream.
    PageStream,
    /// A projection into a value that is no struct.
    NestedProjection,
    /// The modification time of a file is no frozen fact.
    FileModifiedTime,
    /// A reader that leaves deleted rows out does not report which were deleted.
    IsDeletedColumn,
    /// A metadata column that a data page source does not produce.
    MetadataColumn,
    /// A position delete that is neither Parquet nor a deletion vector.
    PositionDeleteFormat,
    /// An equality delete that is not Parquet.
    EqualityDeleteFormat,
    /// A delete file that is neither Parquet nor Puffin.
    DeleteFormat,
    /// An ORC data file.
    OrcDataFile,
    /// An Avro data file.
    AvroDataFile,
    /// A data file with encryption key metadata in its manifest.
    EncryptedManifestKey,
    /// A data file that is encrypted itself.
    EncryptedParquet,
    /// A data file of a split has decryption material.
    DataFileDecryption,
    /// A delete file of a split has decryption material.
    DeleteFileDecryption,
    /// A predicate constrains a column that the page does not produce.
    PredicateOnUnreadColumn,
    /// A manifest is encrypted.
    EncryptedManifest,
    /// A variant has neither a partition value nor a metric bound.
    VariantCarrier,
    /// A metadata relation column has a carrier without an Iceberg type.
    MetadataCarrier,
    /// A system relation column has a carrier without literals.
    SystemCarrier,
}

/// A request that names something the relation does not have.
#[derive(Clone, Copy, Debug, PartialEq, Eq, Structural)]
pub enum InvalidRequest {
    /// A byte range ends beyond what a file offset can address.
    RangeBeyondAddressSpace,
    /// A rewrite split names a procedure that does not rewrite position deletes.
    ProcedureDoesNotRewritePositionDeletes,
    /// The relation and the split belong to different readers.
    RelationAndSplitCategoriesDiffer,
    /// The stated file size cannot hold a Parquet footer.
    FileTooSmallForFooter,
    /// The footer tail completed without input.
    TailWithoutInput,
    /// The footer suffix completed without input.
    FooterWithoutInput,
    /// The data range completed without input.
    DataRangeWithoutInput,
    /// The range scope was lost between the tail and the footer.
    FooterLostRangeScope,
    /// A data range was planned before the footer was parsed.
    DataPlannedWithoutFooter,
    /// A decimal precision is outside what a carrier can state.
    DecimalPrecisionOutOfRange,
    /// A decimal scale is outside what a carrier or a type can state.
    DecimalScaleOutOfRange,
    /// A fixed width is outside what a carrier or a type can state.
    FixedWidthOutOfRange,
    /// A scan names a column that the system relation does not have.
    UnknownSystemColumn,
    /// A system page source was asked for another relation.
    NotASystemRelation,
    /// A distributed system relation was asked of the direct page source.
    DistributedSystemRelation,
    /// The table property for the target split size is no byte count.
    TargetSizeNotAByteCount,
    /// A target split size of zero cuts nothing.
    ZeroTargetSize,
    /// A split of a change window's reverse side has a delete closure of its own.
    ReverseSplitCarriesDeletes,
    /// An initial default cannot be encoded under its own type.
    InitialDefaultUnencodable,
    /// A struct type does not match its carrier.
    StructDoesNotMatchCarrier,
    /// The entries of a map carrier are not a struct.
    MapCarrierNotStruct,
    /// The entries of a map carrier are not exactly a key and a value.
    MapCarrierNotKeyValue,
    /// A table schema does not match its read carrier.
    ReadCarrierDoesNotMatch,
    /// A metadata column is declared with another type than it has.
    MetadataColumnType,
    /// A metadata column has no fields to walk into.
    MetadataColumnDereference,
    /// A data split is never in the format of delete artifacts.
    PuffinDataSplit,
    /// A split was opened under a predicate that no row meets.
    UnsatisfiablePredicate,
    /// A rewrite of position deletes has no nested output.
    RewriteOutputNested,
    /// An output of a rewrite of position deletes has another name than `file_path` or `pos`.
    RewriteOutputName,
    /// A rewrite of position deletes produces only paths and positions.
    RewriteOutputUnknown,
    /// A selected deletion vector has no content offset.
    VectorWithoutOffset,
    /// A selected deletion vector has no content size.
    VectorWithoutSize,
    /// A deletion vector holds a position that no signed column can hold.
    VectorPositionBeyondInt64,
    /// A write operation is reserved with another activation.
    WriteActivationConflict,
    /// A partition spec does not bind to the table schema.
    PartitionSpecDoesNotBind,
    /// A split batch of no split was asked for.
    EmptyBatchSize,
}

/// A bound that the request would exceed.
#[derive(Clone, Copy, Debug, PartialEq, Eq, Structural)]
pub enum ResourceLimit {
    /// Too many delete files for one split.
    DeleteFiles,
    /// Too many bytes of delete files for one split.
    DeleteBytes,
    /// Too many write operations are reserved at once.
    WriteActivations,
}

/// A state the connector never reaches while its own rules hold.
#[derive(Clone, Copy, Debug, PartialEq, Eq, Structural)]
pub enum InternalFault {
    /// A prepared range and its present tail do not fit one byte count.
    PreparedCapacityOverflow,
    /// A page was judged with another number of masks than there are equality deletes.
    EqualityMaskCount,
    /// A JSON text could not be rendered.
    JsonRendering,
    /// A metadata relation has more columns than field ids.
    FieldIdsExhausted,
    /// The entries of a metadata relation map are not a struct.
    MapEntriesNotStruct,
    /// The entries of a metadata relation map are not exactly a key and a value.
    MapEntriesNotKeyValue,
    /// The partition row type is not a struct.
    PartitionRowNotStruct,
    /// The bounds row type is not a struct.
    BoundsRowNotStruct,
    /// A bounds field is not named by a field id.
    BoundsFieldNotAnId,
    /// A frozen schema names a column that the relation does not produce.
    UnknownRelationColumn,
    /// The type of the `data_file` row is not a struct.
    DataFileRowNotStruct,
    /// The partition summaries of all manifests exceed the offsets of a list.
    SummaryOffsets,
    /// A relation produced another number of columns than its schema declares.
    ColumnCount,
    /// A relation produced a column of another length.
    ColumnLength,
    /// A relation produced a column with another carrier.
    ColumnCarrier,
    /// A projection names a column beyond the relation.
    ProjectionOutOfRange,
    /// The type of the partition metrics is not a struct.
    MetricsRowNotStruct,
    /// The columns of a row do not fit its fields, or a row has no field at all.
    RowColumns,
    /// The carrier of partition summaries is no list.
    SummariesNotList,
    /// The carrier of one partition summary is no struct.
    SummaryNotStruct,
    /// The type of one column's partition metrics is not a struct.
    MetricsFieldNotStruct,
    /// A metrics field names no field of the table schema.
    MetricsFieldUnknown,
    /// A metrics field names no metric.
    UnknownMetric,
}

/// One failure of the connector.
#[derive(Clone, Copy, Debug, PartialEq, Eq, Structural)]
pub enum ConnectorError {
    Corrupt(CorruptData),
    Unsupported(UnsupportedFeature),
    Invalid(InvalidRequest),
    Exhausted(ResourceLimit),
    Internal(InternalFault),
    /// A failure that file access or a decoder reported, known by its class.
    Reported(ConnectorErrorKind),
}

impl ConnectorError {
    /// The class of this failure.
    pub open spec fn spec_kind(self) -> ConnectorErrorKind {
        match self {
            ConnectorError::Corrupt(_) => ConnectorErrorKind::CorruptData,
            ConnectorError::Unsupported(_) => ConnectorErrorKind::Unsupported,
            ConnectorError::Invalid(_) => ConnectorErrorKind::InvalidRequest,
            ConnectorError::Exhausted(_) => ConnectorErrorKind::ResourceExhausted,
            ConnectorError::Internal(_) => ConnectorErrorKind::Internal,
            ConnectorError::Reported(kind) => kind,
        }
    }

    /// The class of this failure.
    pub fn kind(&self) -> (kind: ConnectorErrorKind)
        ensures
            kind == self.spec_kind(),
    {
        match self {
            ConnectorError::Corrupt(_) => ConnectorErrorKind::CorruptData,
            ConnectorError::Unsupported(_) => ConnectorErrorKind::Unsupported,
            ConnectorError::Invalid(_) => ConnectorErrorKind::InvalidRequest,
            ConnectorError::Exhausted(_) => ConnectorErrorKind::ResourceExhausted,
            ConnectorError::Internal(_) => ConnectorErrorKind::Internal,
            ConnectorError::Reported(kind) => *kind,
        }
    }
}

} // verus!
