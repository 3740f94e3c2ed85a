# samskara_codegen

Generates a deterministic Cap'n Proto schema (`.capnp`) and CozoScript
projections (`:create` and `:put` statements) from the relations of a CozoDB
instance. The library is written in Verus: its functions carry contracts and
are proved against them, except five small trusted wrappers whose contracts
are taken on trust: std's `String::push`, `char::to_uppercase`,
`char::to_lowercase` and `char::is_uppercase`, and `blake3::hash`
(`src/text.rs`, `src/case.rs`, `src/digest.rs`).

Layout of `src/`:

- `schema_gen` — the schema model (`SchemaGenerator`, `RelationSchema`,
  `EnumSchema`), the `.capnp` text, the file ID and the schema hash, and the
  name conversions (PascalCase, camelCase, enumerants).
- `introspect` — building the schema from a database: `SchemaScan::step`
  takes the answer to each query and says which query comes next.
- `cozo_text` — the `:create` and seed projections, as scans of the same kind.
- `vocab_detect` — which relations are domains (enums) and their variants.
- `column_info`, `datavalue`, `json` — reading CozoDB query results.
- `type_map` — CozoDB column types and field types to Cap'n Proto types.
- `order` — string order and stable sorting; `text`, `case`, `digest` —
  rendering helpers, std's Unicode case mapping and BLAKE3.

`app/` runs the scans against a `criome_cozo::CriomeDb`, converts
`serde_json` answers, and gives errors their `Display`.
