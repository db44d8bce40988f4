//! A scan that needs no byte of its data file: every requested column is an identity partition
//! value, and the number of rows comes from the manifest.

use vstd::prelude::*;

use crate::carrier::{field_models, Field};
use crate::column_handle::IcebergColumnHandle;
use crate::error::{ConnectorError, CorruptData, InvalidRequest};
use crate::partition::PartitionSpec;
use crate::schema_binding::{annotated_fields, bind_scan_columns, binding_facts, identity_values, indexed, request_column, BindingFacts, BoundModel, FileFieldIdCoverage, IcebergColumnSource, IcebergSchemaBindingRequest, SourceModel};
use crate::split::IcebergSplit;
use crate::system_page_source::PageSourceMetrics;
use crate::types::Schema;
use crate::value::Literal;

verus! {

/// What one page source is asked for. All of it is frozen.
pub struct IcebergPageSourceRequest<'r, 'a> {
    pub split: &'r IcebergSplit,
    pub table_schema: &'r Schema,
    /// The carriers in which the table's fields are read, in field order.
    pub read_fields: &'r Vec<Field>,
    pub partition_spec: &'r PartitionSpec,
    pub partition_values: &'a Vec<Option<Literal>>,
    pub columns: &'r Vec<IcebergColumnHandle>,
    /// Whether the effective predicate admits every row.
    pub predicate_is_all: bool,
}

/// What binding knows of a scan that may not read its file.
pub open spec fn fileless_facts<'a>(request: IcebergPageSourceRequest<'_, 'a>) -> Result<BindingFacts<'a>, ConnectorError> {
    if request.read_fields@.len() != request.table_schema.fields@.len() {
        Err(ConnectorError::Invalid(InvalidRequest::ReadCarrierDoesNotMatch))
    } else {
        match annotated_fields(
            field_models(request.read_fields@),
            request.table_schema.model(),
            request.read_fields@.len(),
        ) {
            Err(error) => Err(error),
            Ok(read) => if request.partition_values@.len() != request.partition_spec.fields@.len() {
                Err(ConnectorError::Corrupt(CorruptData::PartitionArity))
            } else {
                Ok(
                    BindingFacts {
                        coverage: FileFieldIdCoverage::Complete,
                        read,
                        physical: Seq::empty(),
                        mapped: None,
                        identity: identity_values(
                            *request.partition_spec,
                            request.partition_values,
                            *request.table_schema,
                            request.partition_spec.fields@.len(),
                        ),
                    },
                )
            },
        }
    }
}

/// Whether a column of a scan is an identity partition value.
pub open spec fn is_partition_value<'a>(facts: BindingFacts<'a>, handle: IcebergColumnHandle) -> bool {
    request_column(facts, handle) matches Ok(bound) && bound.source is IdentityPartitionConstant
}

/// Whether a scan needs no byte of its file: the split covers the whole file and has no deletes,
/// the predicate admits every row, and every column is an identity partition value.
pub open spec fn is_partition_only(request: IcebergPageSourceRequest) -> bool {
    &&& request.split.start == 0 && request.split.length == request.split.file_size
    &&& request.split.deletes@.len() == 0
    &&& request.predicate_is_all
    &&& fileless_facts(request) is Ok
    &&& forall|i: int|
        0 <= i < request.columns@.len() ==> is_partition_value(
            fileless_facts(request)->Ok_0,
            #[trigger] request.columns@[i],
        )
}

/// A scan of constants.
pub struct IcebergPartitionOnlyPageSource<'a> {
    /// The column and the value that each of its rows has.
    pub constants: Vec<(Field, &'a Option<Literal>)>,
    pub total_rows: u64,
    pub emitted_rows: u64,
    pub max_batch_rows: usize,
    pub retained_bytes: u64,
    pub closed: bool,
}

/// Build the partition-only page source where every precondition holds. Where one does not, the
/// ordinary reader binds against the real file and reports what is genuinely wrong.
pub fn try_partition_only_page_source<'a>(
    request: &IcebergPageSourceRequest<'_, 'a>,
    max_batch_rows: usize,
    retained_bytes: u64,
) -> (source: Result<Option<IcebergPartitionOnlyPageSource<'a>>, ConnectorError>)
    requires
        max_batch_rows > 0,
    ensures
        match source {
            Ok(None) => !is_partition_only(*request),
            Ok(Some(source)) => {
                &&& is_partition_only(*request)
                &&& request.split.file_record_count >= 0
                &&& source.wf()
                &&& source.constants@.len() == request.columns@.len()
                &&& forall|i: int|
                    0 <= i < source.constants@.len() ==> is_constant_of(
                        #[trigger] source.constants@[i],
                        request_column(fileless_facts(*request)->Ok_0, request.columns@[i])->Ok_0,
                    )
                &&& source.total_rows == request.split.file_record_count
                &&& source.emitted_rows == 0
                &&& source.max_batch_rows == max_batch_rows
                &&& source.retained_bytes == retained_bytes
                &&& !source.closed
            },
            Err(error) => {
                &&& is_partition_only(*request)
                &&& request.split.file_record_count < 0
                &&& error == ConnectorError::Corrupt(CorruptData::NegativeRecordCount)
            },
        },
{
    if !request.split.is_whole_file() || request.split.deletes.len() != 0
        || !request.predicate_is_all {
        return Ok(None);
    }
    let no_fields: Vec<Option<i32>> = Vec::new();
    let binding_request = IcebergSchemaBindingRequest {
        table_schema: request.table_schema,
        read_fields: request.read_fields,
        file_field_ids: &no_fields,
        identified_fields: 0,
        total_fields: 0,
        rest_is_opaque_variants: false,
        mapped_field_ids: None,
        partition_spec: Some(request.partition_spec),
        partition_values: Some(request.partition_values),
        columns: request.columns,
    };
    proof {
        assert(indexed(no_fields@, no_fields@.len()) == Ok::<Seq<(i32, usize)>, ConnectorError>(
            Seq::empty(),
        ));
        assert(binding_facts(binding_request) == fileless_facts(*request));
    }
    let ghost facts = fileless_facts(*request)->Ok_0;
    let binding = match bind_scan_columns(&binding_request) {
        Ok(binding) => binding,
        Err(_) => {
            proof {
                if fileless_facts(*request) is Ok {
                    let i = choose|i: int|
                        0 <= i < request.columns@.len() && request_column(
                            facts,
                            #[trigger] request.columns@[i],
                        ) is Err;
                    assert(!is_partition_value(facts, request.columns@[i]));
                }
            }
            return Ok(None);
        },
    };
    let mut constants: Vec<(Field, &'a Option<Literal>)> = Vec::new();
    let mut i: usize = 0;
    while i < binding.columns.len()
        invariant
            i <= binding.columns.len(),
            fileless_facts(*request) == Ok::<BindingFacts<'a>, ConnectorError>(facts),
            binding.columns@.len() == request.columns@.len(),
            forall|k: int|
                0 <= k < request.columns@.len() ==> Ok::<BoundModel<'a>, ConnectorError>(
                    (#[trigger] binding.columns@[k]).model(),
                ) == request_column(facts, request.columns@[k]),
            constants@.len() == i,
            forall|k: int|
                0 <= k < i ==> is_constant_of(
                    #[trigger] constants@[k],
                    request_column(facts, request.columns@[k])->Ok_0,
                ),
            forall|k: int| 0 <= k < i ==> is_partition_value(facts, #[trigger] request.columns@[k]),
        decreases binding.columns.len() - i,
    {
        let column = &binding.columns[i];
        assert(binding.columns@[i as int].model() == request_column(
            facts,
            request.columns@[i as int],
        )->Ok_0);
        match &column.source {
            IcebergColumnSource::IdentityPartitionConstant(value) => {
                constants.push((column.target.duplicate(), *value));
            },
            _ => {
                assert(!is_partition_value(facts, request.columns@[i as int]));
                return Ok(None);
            },
        }
        i += 1;
    }
    if request.split.file_record_count < 0 {
        return Err(ConnectorError::Corrupt(CorruptData::NegativeRecordCount));
    }
    Ok(
        Some(
            IcebergPartitionOnlyPageSource {
                constants,
                total_rows: request.split.file_record_count as u64,
                emitted_rows: 0,
                max_batch_rows,
                retained_bytes,
                closed: false,
            },
        ),
    )
}

/// Whether a constant is the one that a bound column stands for.
pub open spec fn is_constant_of(constant: (Field, &Option<Literal>), bound: BoundModel) -> bool {
    constant.0.model() == bound.target && bound.source == SourceModel::IdentityPartitionConstant(
        constant.1,
    )
}

/// One page of constants: each channel repeats its value in every row. A scan without a column has
/// rows all the same.
#[derive(Clone, Copy, Debug, PartialEq, Eq, Structural)]
pub struct ConstantPage {
    pub rows: usize,
    pub channels: usize,
}

impl<'a> IcebergPartitionOnlyPageSource<'a> {
    pub open spec fn wf(self) -> bool {
        self.max_batch_rows > 0 && self.emitted_rows <= self.total_rows
    }

    /// How many rows the next page has.
    pub open spec fn pending_rows(self) -> nat {
        if self.closed || self.emitted_rows >= self.total_rows {
            0
        } else if self.total_rows - self.emitted_rows <= self.max_batch_rows {
            (self.total_rows - self.emitted_rows) as nat
        } else {
            self.max_batch_rows as nat
        }
    }

    /// How many rows the next page has; zero where there is none.
    pub fn next_rows(&self) -> (rows: usize)
        requires
            self.wf(),
        ensures
            rows == self.pending_rows(),
    {
        if self.closed || self.emitted_rows >= self.total_rows {
            return 0;
        }
        let remaining: u64 = self.total_rows - self.emitted_rows;
        if remaining <= self.max_batch_rows as u64 {
            remaining as usize
        } else {
            self.max_batch_rows
        }
    }

    /// The next page, given whether its constants could be built as columns. A failure emits
    /// nothing, and a scan without a column builds none.
    pub fn next_source_page(&mut self, built: Result<(), ConnectorError>) -> (page: Result<Option<ConstantPage>, ConnectorError>)
        requires
            old(self).wf(),
        ensures
            final(self).wf(),
            if old(self).pending_rows() == 0 {
                page == Ok::<Option<ConstantPage>, ConnectorError>(None) && *final(self) == *old(self)
            } else if built is Err && old(self).constants@.len() > 0 {
                page == Err::<Option<ConstantPage>, ConnectorError>(built->Err_0) && *final(self)
                    == *old(self)
            } else {
                &&& page is Ok && page->Ok_0 is Some
                &&& page->Ok_0->0.rows == old(self).pending_rows()
                &&& page->Ok_0->0.channels == old(self).constants@.len()
                &&& *final(self) == (IcebergPartitionOnlyPageSource {
                    emitted_rows: (old(self).emitted_rows + old(self).pending_rows()) as u64,
                    ..*old(self)
                })
            },
    {
        let rows: usize = self.next_rows();
        if rows == 0 {
            return Ok(None);
        }
        let channels: usize = self.constants.len();
        if channels > 0 {
            if let Err(error) = built {
                return Err(error);
            }
        }
        self.emitted_rows = self.emitted_rows + rows as u64;
        Ok(Some(ConstantPage { rows, channels }))
    }

    pub fn is_finished(&self) -> (finished: bool)
        ensures
            finished == (self.closed || self.emitted_rows >= self.total_rows),
    {
        self.closed || self.emitted_rows >= self.total_rows
    }

    pub fn metrics(&self) -> (metrics: PageSourceMetrics)
        ensures
            metrics == (PageSourceMetrics {
                completed_bytes: 0,
                completed_positions: self.emitted_rows,
                read_time_nanos: 0,
            }),
    {
        PageSourceMetrics {
            completed_bytes: 0,
            completed_positions: self.emitted_rows,
            read_time_nanos: 0,
        }
    }

    pub fn memory_usage_bytes(&self) -> (bytes: u64)
        ensures
            bytes == self.retained_bytes,
    {
        self.retained_bytes
    }

    pub fn close(&mut self)
        ensures
            *final(self) == (IcebergPartitionOnlyPageSource { closed: true, ..*old(self) }),
    {
        self.closed = true;
    }
}

/// The rows emitted after `pages` pages of an open source.
pub open spec fn emitted_after(total: nat, max: nat, pages: nat) -> nat
    decreases pages,
{
    if pages == 0 {
        0
    } else {
        let before = emitted_after(total, max, (pages - 1) as nat);
        if total - before <= max {
            total
        } else {
            before + max
        }
    }
}

/// The pages of an open source hold every record of the file exactly once: as many full pages as
/// there are, and then the rest.
pub proof fn law_pages_hold_every_record(total: nat, max: nat, pages: nat)
    requires
        max > 0,
    ensures
        emitted_after(total, max, pages) == if pages * max <= total {
            pages * max
        } else {
            total
        },
    decreases pages,
{
    if pages > 0 {
        law_pages_hold_every_record(total, max, (pages - 1) as nat);
        assert(pages * max == (pages - 1) * max + max) by (nonlinear_arith)
            requires
                pages > 0,
        ;
        assert((pages - 1) as nat * max == (pages - 1) * max);
    } else {
        assert(pages * max == 0) by (nonlinear_arith)
            requires
                pages == 0,
        ;
    }
}

/// What a page of an open source adds is one step of [`emitted_after`].
pub proof fn law_a_page_is_one_step(source: IcebergPartitionOnlyPageSource, pages: nat)
    requires
        source.wf(),
        !source.closed,
        source.emitted_rows == emitted_after(
            source.total_rows as nat,
            source.max_batch_rows as nat,
            pages,
        ),
    ensures
        source.emitted_rows + source.pending_rows() == emitted_after(
            source.total_rows as nat,
            source.max_batch_rows as nat,
            pages + 1,
        ),
{
}

} // verus!
