//! The splits of a scan and the delete files that travel with them.

use vstd::prelude::*;

use crate::seqs::duplicate_ids;

verus! {

/// The format of a data or delete file.
#[derive(Clone, Copy, Debug, PartialEq, Eq, Structural)]
pub enum IcebergFileFormat {
    Parquet,
    Orc,
    Avro,
    Puffin,
}

/// What a delete file holds.
#[derive(Clone, Copy, Debug, PartialEq, Eq, Structural)]
pub enum IcebergDeleteFileContent {
    /// Positions of rows of data files; in a Puffin file, one deletion vector.
    PositionDeletes,
    /// Values of columns: every row that has them is deleted.
    EqualityDeletes,
}

/// The key material of an encrypted Parquet file.
pub struct ParquetFileDecryptionData {
    pub key_metadata: Vec<u8>,
    pub aad_prefix: Vec<u8>,
}

/// One delete file that applies to a split.
pub struct IcebergDeleteFile {
    pub content: IcebergDeleteFileContent,
    pub path: String,
    pub format: IcebergFileFormat,
    pub record_count: i64,
    pub file_size_in_bytes: i64,
    pub equality_field_ids: Vec<i32>,
    pub row_position_lower_bound: Option<i64>,
    pub row_position_upper_bound: Option<i64>,
    pub data_sequence_number: i64,
    pub content_offset: Option<i64>,
    pub content_size_in_bytes: Option<i64>,
    /// The one data file whose rows the delete names, where it names one.
    pub referenced_data_file: Option<String>,
    pub decryption_data: Option<ParquetFileDecryptionData>,
}

/// [`IcebergDeleteFile`] as a mathematical value.
pub struct DeleteFileModel {
    pub content: IcebergDeleteFileContent,
    pub path: Seq<char>,
    pub format: IcebergFileFormat,
    pub record_count: i64,
    pub file_size_in_bytes: i64,
    pub equality_field_ids: Seq<i32>,
    pub row_position_lower_bound: Option<i64>,
    pub row_position_upper_bound: Option<i64>,
    pub data_sequence_number: i64,
    pub content_offset: Option<i64>,
    pub content_size_in_bytes: Option<i64>,
    pub referenced_data_file: Option<Seq<char>>,
    pub decryption_data: Option<(Seq<u8>, Seq<u8>)>,
}

/// Key material as a mathematical value.
pub open spec fn decryption_model(data: Option<ParquetFileDecryptionData>) -> Option<(Seq<u8>, Seq<u8>)> {
    match data {
        Some(held) => Some((held.key_metadata@, held.aad_prefix@)),
        None => None,
    }
}

/// A copy of key material.
pub fn duplicate_decryption(data: &Option<ParquetFileDecryptionData>) -> (copy: Option<ParquetFileDecryptionData>)
    ensures
        decryption_model(copy) == decryption_model(*data),
{
    match data {
        None => None,
        Some(held) => Some(
            ParquetFileDecryptionData {
                key_metadata: crate::system_columns::duplicate_bytes(&held.key_metadata),
                aad_prefix: crate::system_columns::duplicate_bytes(&held.aad_prefix),
            },
        ),
    }
}

impl IcebergDeleteFile {
    pub open spec fn model(self) -> DeleteFileModel {
        DeleteFileModel {
            content: self.content,
            path: self.path@,
            format: self.format,
            record_count: self.record_count,
            file_size_in_bytes: self.file_size_in_bytes,
            equality_field_ids: self.equality_field_ids@,
            row_position_lower_bound: self.row_position_lower_bound,
            row_position_upper_bound: self.row_position_upper_bound,
            data_sequence_number: self.data_sequence_number,
            content_offset: self.content_offset,
            content_size_in_bytes: self.content_size_in_bytes,
            referenced_data_file: crate::carrier::text_model(self.referenced_data_file),
            decryption_data: decryption_model(self.decryption_data),
        }
    }

    /// A copy of the delete file.
    pub fn duplicate(&self) -> (copy: IcebergDeleteFile)
        ensures
            copy.model() == self.model(),
    {
        IcebergDeleteFile {
            content: self.content,
            path: self.path.clone(),
            format: self.format,
            record_count: self.record_count,
            file_size_in_bytes: self.file_size_in_bytes,
            equality_field_ids: duplicate_ids(&self.equality_field_ids),
            row_position_lower_bound: self.row_position_lower_bound,
            row_position_upper_bound: self.row_position_upper_bound,
            data_sequence_number: self.data_sequence_number,
            content_offset: self.content_offset,
            content_size_in_bytes: self.content_size_in_bytes,
            referenced_data_file: crate::carrier::duplicate_text(&self.referenced_data_file),
            decryption_data: duplicate_decryption(&self.decryption_data),
        }
    }
}

/// The models of a list of delete files.
pub open spec fn delete_models(deletes: Seq<IcebergDeleteFile>) -> Seq<DeleteFileModel> {
    deletes.map_values(|delete: IcebergDeleteFile| delete.model())
}

/// A copy of a list of delete files.
pub fn duplicate_deletes(deletes: &Vec<IcebergDeleteFile>) -> (copy: Vec<IcebergDeleteFile>)
    ensures
        delete_models(copy@) == delete_models(deletes@),
{
    let mut copy: Vec<IcebergDeleteFile> = Vec::new();
    let mut i: usize = 0;
    while i < deletes.len()
        invariant
            i <= deletes.len(),
            copy@.len() == i,
            forall|k: int| 0 <= k < i ==> #[trigger] copy@[k].model() == deletes@[k].model(),
        decreases deletes.len() - i,
    {
        copy.push(deletes[i].duplicate());
        i += 1;
    }
    assert(delete_models(copy@) =~= delete_models(deletes@));
    copy
}

/// One byte range of one data file.
pub struct IcebergSplit {
    pub path: String,
    pub start: i64,
    pub length: i64,
    pub file_size: i64,
    pub file_record_count: i64,
    pub file_format: IcebergFileFormat,
    pub partition_spec_id: i32,
    pub partition_data_json: String,
    /// The frozen closure of delete files that apply to the file.
    pub deletes: Vec<IcebergDeleteFile>,
    pub data_sequence_number: Option<i64>,
    pub file_first_row_id: Option<i64>,
    pub decryption_data: Option<ParquetFileDecryptionData>,
    /// Ranges of one file share a footer and a delete closure, so they go to one worker.
    pub affinity_key: Option<String>,
}

/// [`IcebergSplit`] as a mathematical value.
pub struct SplitModel {
    pub path: Seq<char>,
    pub start: i64,
    pub length: i64,
    pub file_size: i64,
    pub file_record_count: i64,
    pub file_format: IcebergFileFormat,
    pub partition_spec_id: i32,
    pub partition_data_json: Seq<char>,
    pub deletes: Seq<DeleteFileModel>,
    pub data_sequence_number: Option<i64>,
    pub file_first_row_id: Option<i64>,
    pub decryption_data: Option<(Seq<u8>, Seq<u8>)>,
    pub affinity_key: Option<Seq<char>>,
}

impl IcebergSplit {
    pub open spec fn model(self) -> SplitModel {
        SplitModel {
            path: self.path@,
            start: self.start,
            length: self.length,
            file_size: self.file_size,
            file_record_count: self.file_record_count,
            file_format: self.file_format,
            partition_spec_id: self.partition_spec_id,
            partition_data_json: self.partition_data_json@,
            deletes: delete_models(self.deletes@),
            data_sequence_number: self.data_sequence_number,
            file_first_row_id: self.file_first_row_id,
            decryption_data: decryption_model(self.decryption_data),
            affinity_key: crate::carrier::text_model(self.affinity_key),
        }
    }

    /// Whether the split covers its whole file.
    pub fn is_whole_file(&self) -> (whole: bool)
        ensures
            whole == (self.start == 0 && self.length == self.file_size),
    {
        self.start == 0 && self.length == self.file_size
    }
}

/// The models of a list of splits.
pub open spec fn split_models(splits: Seq<IcebergSplit>) -> Seq<SplitModel> {
    splits.map_values(|split: IcebergSplit| split.model())
}

} // verus!
