# iceberg_connector

The typed read stack of an Iceberg connector, written in Verus: what one scan plans, prepares, binds,
filters and reports, stated over plain values and proved.

- `src/` holds the decisions, each with its contract. Nothing in it opens a file.
- `app/` is the program around them: columnar buffers, loading of delete files, streams,
  the wire.
- `tests/` runs the library on concrete values.

## Modules

| Area | Modules |
| --- | --- |
| Splits of a scan | `split`, `split_source`, `partition` |
| Reading ahead of demand | `preparation`, `page_source_provider`, `footer_cache` |
| Where a column comes from | `schema_binding`, `metadata_column`, `adaptation`, `variant` |
| Deletes | `delete_closure`, `delete_filter`, `delete_manager`, `shared_deletes`, `positions` |
| Pages of a split | `page_source`, `partition_only`, `page_stream`, `row_positions`, `domain`, `dynamic_filter` |
| Rewriting position deletes | `rewrite_position_page_source` |
| System relations | `system_schema`, `published_columns`, `system_rows`, `system_columns`, `relation_columns`, `files_relation`, `partitions_view`, `partitions_relation`, `snapshot_relations`, `system_page_source`, `system_provider` |
| Writes and carriers of the wire | `write_activation`, `codec` |
| Shared | `types`, `carrier`, `column`, `column_handle`, `value`, `text`, `keyed`, `seqs`, `error` |

Proof functions whose names begin with `law_` state what holds between functions.

What is not proved is marked `#[verifier::external_body]`: calls into `serde_json`, `uuid`, `arrow` and
`roaring`, each with a comment that says what is claimed of it.
