//! The typed read stack of an Iceberg connector: what one scan plans, prepares, binds, filters
//! and reports, stated over plain values and proved.
//!
//! The modules hold decisions only. Opening files, awaiting requests and moving columnar
//! buffers belong to the program around the library.

pub mod adaptation;
pub mod binding_laws;
pub mod carrier;
pub mod codec;
pub mod column;
pub mod column_handle;
pub mod column_laws;
pub mod delete_closure;
pub mod delete_filter;
pub mod delete_laws;
pub mod delete_manager;
pub mod domain;
pub mod dynamic_filter;
pub mod error;
pub mod files_laws;
pub mod files_relation;
pub mod footer_cache;
pub mod frozen_laws;
pub mod keyed;
pub mod metadata_column;
pub mod page_laws;
pub mod page_source;
pub mod page_source_provider;
pub mod page_stream;
pub mod partition;
pub mod partition_laws;
pub mod partition_only;
pub mod partitions_relation;
pub mod partitions_view;
pub mod positions;
pub mod preparation;
pub mod preparation_laws;
pub mod published_columns;
pub mod reading_laws;
pub mod relation_columns;
pub mod relation_laws;
pub mod rewrite_position_page_source;
pub mod row_laws;
pub mod row_positions;
pub mod schema_binding;
pub mod seqs;
pub mod shared_deletes;
pub mod shared_laws;
pub mod snapshot_laws;
pub mod snapshot_relations;
pub mod split;
pub mod split_laws;
pub mod split_source;
pub mod support_laws;
pub mod system_columns;
pub mod system_page_source;
pub mod system_provider;
pub mod system_rows;
pub mod system_schema;
pub mod text;
pub mod types;
pub mod value;
pub mod variant;
pub mod write_activation;
