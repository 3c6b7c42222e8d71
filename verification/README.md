# spektro_core

Photo import and catalog logic, verified with Verus.

- `src/` — the library: token templates, scanning and grouping, destination planning and the
  destination preview tree, capture metadata tidying, duplicate detection at import and in the
  catalog, incremental re-indexing of catalog roots, the catalog's query building and naming
  rules, thumbnail job selection, and the import manifest's path rules. Verus proves every
  function against its contract. The cancel flag shared between a job and its canceller is
  the exception: it reads and writes a std atomic, whose value Verus is not given, so its
  methods carry no contract.
- `tests/` — tests of the library on concrete values.
- `app/` — the `spektro` command line: walking folders, copying with BLAKE3 hashing, reading
  and writing the TOML config and the JSON manifest.
