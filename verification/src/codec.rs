//! The frame of the connector-read carriers: which catalog and which generation a relation names,
//! and which part of a carrier a failure is reported on.
//!
//! The carriers of the single relations, columns and splits are decoded by the program; this
//! module decides what is admitted and in which order.

use vstd::prelude::*;

use crate::page_source_provider::{IcebergRelationCategory, IcebergSplitCategory};

verus! {

/// The part of a carrier that a failure is reported on.
#[derive(Clone, Copy, Debug, PartialEq, Eq, Structural)]
pub enum FieldPath {
    /// `catalog_table_handle.catalog_name`
    CatalogName,
    /// `catalog_table_handle.instance_incarnation`
    InstanceIncarnation,
    /// `catalog_table_handle`
    CatalogTableHandle,
    /// `transaction`
    Transaction,
    /// `relation.table`
    RelationTable,
    /// `relation.transaction`
    RelationTransaction,
    /// `column_handle`
    ColumnHandle,
    /// `connector_split`
    ConnectorSplit,
}

impl FieldPath {
    /// The dotted path.
    pub open spec fn spec_text(self) -> Seq<char> {
        match self {
            FieldPath::CatalogName => "catalog_table_handle.catalog_name"@,
            FieldPath::InstanceIncarnation => "catalog_table_handle.instance_incarnation"@,
            FieldPath::CatalogTableHandle => "catalog_table_handle"@,
            FieldPath::Transaction => "transaction"@,
            FieldPath::RelationTable => "relation.table"@,
            FieldPath::RelationTransaction => "relation.transaction"@,
            FieldPath::ColumnHandle => "column_handle"@,
            FieldPath::ConnectorSplit => "connector_split"@,
        }
    }

    /// The dotted path.
    pub fn text(self) -> (text: &'static str)
        ensures
            text@ == self.spec_text(),
    {
        match self {
            FieldPath::CatalogName => "catalog_table_handle.catalog_name",
            FieldPath::InstanceIncarnation => "catalog_table_handle.instance_incarnation",
            FieldPath::CatalogTableHandle => "catalog_table_handle",
            FieldPath::Transaction => "transaction",
            FieldPath::RelationTable => "relation.table",
            FieldPath::RelationTransaction => "relation.transaction",
            FieldPath::ColumnHandle => "column_handle",
            FieldPath::ConnectorSplit => "connector_split",
        }
    }
}

/// The frame of a relation: the catalog that it belongs to and the generation of that catalog.
pub struct OuterRelation {
    pub catalog_name: String,
    pub instance_incarnation: Vec<u8>,
}

/// [`OuterRelation`] as a mathematical value.
pub struct OuterModel {
    pub catalog_name: Seq<char>,
    pub instance_incarnation: Seq<u8>,
}

impl OuterRelation {
    pub open spec fn model(self) -> OuterModel {
        OuterModel {
            catalog_name: self.catalog_name@,
            instance_incarnation: self.instance_incarnation@,
        }
    }
}

/// The codec of one generation of one catalog.
pub struct IcebergConnectorReadCodec {
    pub owner: String,
    pub incarnation: Vec<u8>,
}

/// Why a relation is not this codec's: it names another catalog, or another generation of it.
pub open spec fn outer_fault(codec: IcebergConnectorReadCodec, relation: OuterModel) -> Option<FieldPath> {
    if relation.catalog_name != codec.owner@ {
        Some(FieldPath::CatalogName)
    } else if relation.instance_incarnation != codec.incarnation@ {
        Some(FieldPath::InstanceIncarnation)
    } else {
        None
    }
}

fn same_bytes(left: &Vec<u8>, right: &Vec<u8>) -> (same: bool)
    ensures
        same == (left@ == right@),
{
    if left.len() != right.len() {
        return false;
    }
    let mut i: usize = 0;
    while i < left.len()
        invariant
            i <= left.len(),
            left.len() == right.len(),
            forall|k: int| 0 <= k < i ==> #[trigger] left@[k] == right@[k],
        decreases left.len() - i,
    {
        if left[i] != right[i] {
            return false;
        }
        i += 1;
    }
    assert(left@ =~= right@);
    true
}

impl IcebergConnectorReadCodec {
    pub fn new(owner: String, incarnation: Vec<u8>) -> (codec: IcebergConnectorReadCodec)
        ensures
            codec.owner == owner,
            codec.incarnation == incarnation,
    {
        IcebergConnectorReadCodec { owner, incarnation }
    }

    pub fn owner(&self) -> (owner: &str)
        ensures
            owner@ == self.owner@,
    {
        self.owner.as_str()
    }

    /// Admit a relation only of this catalog and this generation.
    pub fn ensure_outer_relation(&self, relation: &OuterRelation) -> (result: Result<(), FieldPath>)
        ensures
            result == (match outer_fault(*self, relation.model()) {
                Some(path) => Err(path),
                None => Ok(()),
            }),
    {
        if relation.catalog_name != self.owner {
            return Err(FieldPath::CatalogName);
        }
        if !same_bytes(&relation.instance_incarnation, &self.incarnation) {
            return Err(FieldPath::InstanceIncarnation);
        }
        Ok(())
    }

    /// The frame of a relation that this codec writes.
    pub fn encode_outer_relation(&self) -> (relation: OuterRelation)
        ensures
            relation.model() == (OuterModel {
                catalog_name: self.owner@,
                instance_incarnation: self.incarnation@,
            }),
    {
        OuterRelation {
            catalog_name: self.owner.clone(),
            instance_incarnation: crate::system_columns::duplicate_bytes(&self.incarnation),
        }
    }

    /// Decode a relation, given what its parts decode to: the frame is judged first, then the
    /// transaction, then the relation itself, and last whether the runtime takes it under its own
    /// category. A part that fails is reported on its path.
    pub fn decode_relation(
        &self,
        relation: &OuterRelation,
        transaction_decodes: bool,
        table: Option<IcebergRelationCategory>,
        runtime_takes_it: bool,
    ) -> (decoded: Result<IcebergRelationCategory, FieldPath>)
        ensures
            decoded == (if outer_fault(*self, relation.model()) is Some {
                Err(outer_fault(*self, relation.model())->0)
            } else if !transaction_decodes {
                Err(FieldPath::Transaction)
            } else if table is None || !runtime_takes_it {
                Err(FieldPath::CatalogTableHandle)
            } else {
                Ok(table->0)
            }),
    {
        if let Err(path) = self.ensure_outer_relation(relation) {
            return Err(path);
        }
        if !transaction_decodes {
            return Err(FieldPath::Transaction);
        }
        match table {
            Some(category) => {
                if runtime_takes_it {
                    Ok(category)
                } else {
                    Err(FieldPath::CatalogTableHandle)
                }
            },
            None => Err(FieldPath::CatalogTableHandle),
        }
    }

    /// Encode a relation of the runtime, given its table and whether its transaction is there: the
    /// table is looked at first. The relation keeps its category, in the frame of this codec.
    pub fn encode_relation(&self, table: Option<IcebergRelationCategory>, has_transaction: bool) -> (encoded: Result<(OuterRelation, IcebergRelationCategory), FieldPath>)
        ensures
            match encoded {
                Ok((relation, category)) => {
                    &&& table == Some(category)
                    &&& has_transaction
                    &&& relation.model() == (OuterModel {
                        catalog_name: self.owner@,
                        instance_incarnation: self.incarnation@,
                    })
                },
                Err(path) => if table is None {
                    path == FieldPath::RelationTable
                } else {
                    !has_transaction && path == FieldPath::RelationTransaction
                },
            },
    {
        match table {
            None => Err(FieldPath::RelationTable),
            Some(category) => {
                if !has_transaction {
                    return Err(FieldPath::RelationTransaction);
                }
                Ok((self.encode_outer_relation(), category))
            },
        }
    }

    /// A column that does not decode is reported on its path.
    pub fn decode_column(&self, is_there: bool) -> (result: Result<(), FieldPath>)
        ensures
            result == (if is_there {
                Ok(())
            } else {
                Err(FieldPath::ColumnHandle)
            }),
    {
        if is_there {
            Ok(())
        } else {
            Err(FieldPath::ColumnHandle)
        }
    }

    /// A column that the runtime does not hold is reported on its path.
    pub fn encode_column(&self, is_there: bool) -> (result: Result<(), FieldPath>)
        ensures
            result == (if is_there {
                Ok(())
            } else {
                Err(FieldPath::ColumnHandle)
            }),
    {
        if is_there {
            Ok(())
        } else {
            Err(FieldPath::ColumnHandle)
        }
    }

    /// A transaction that does not decode is reported on its path.
    pub fn decode_transaction(&self, is_there: bool) -> (result: Result<(), FieldPath>)
        ensures
            result == (if is_there {
                Ok(())
            } else {
                Err(FieldPath::Transaction)
            }),
    {
        if is_there {
            Ok(())
        } else {
            Err(FieldPath::Transaction)
        }
    }

    /// A transaction that the runtime does not hold is reported on its path.
    pub fn encode_transaction(&self, is_there: bool) -> (result: Result<(), FieldPath>)
        ensures
            result == (if is_there {
                Ok(())
            } else {
                Err(FieldPath::Transaction)
            }),
    {
        if is_there {
            Ok(())
        } else {
            Err(FieldPath::Transaction)
        }
    }

    /// A split keeps the category that it was sent under; one that does not decode is reported.
    pub fn decode_split(&self, split: Option<IcebergSplitCategory>) -> (result: Result<IcebergSplitCategory, FieldPath>)
        ensures
            result == (match split {
                Some(category) => Ok(category),
                None => Err(FieldPath::ConnectorSplit),
            }),
    {
        match split {
            Some(category) => Ok(category),
            None => Err(FieldPath::ConnectorSplit),
        }
    }

    /// A split keeps its category; one that the runtime does not hold is reported.
    pub fn encode_split(&self, split: Option<IcebergSplitCategory>) -> (result: Result<IcebergSplitCategory, FieldPath>)
        ensures
            result == (match split {
                Some(category) => Ok(category),
                None => Err(FieldPath::ConnectorSplit),
            }),
    {
        match split {
            Some(category) => Ok(category),
            None => Err(FieldPath::ConnectorSplit),
        }
    }
}

/// What a codec writes it admits again, and no codec of another catalog or generation does.
pub proof fn law_only_its_own_relations_are_admitted(codec: IcebergConnectorReadCodec, other: IcebergConnectorReadCodec)
    ensures
        ({
            let written = OuterModel {
                catalog_name: codec.owner@,
                instance_incarnation: codec.incarnation@,
            };
            &&& outer_fault(codec, written) is None
            &&& (other.owner@ != codec.owner@ || other.incarnation@ != codec.incarnation@)
                ==> outer_fault(other, written) is Some
        }),
{
}

} // verus!
