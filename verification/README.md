# localdb core

The domain logic of localdb, a local index of documents for search, written in
Verus: executable Rust whose contracts are proved.

- `src/` is the verified library. It turns Markdown into blocks
  (`markdown_blocks`), keeps the index of documents (`document_index`), decides
  what a run of ingestion indexes, skips and removes (`pipeline`, `removals`,
  `indexing`), finds the files of a source (`globs`, `enumeration`), parses
  sources (`source`), pools, ranks and cites search results (`search`,
  `ranking`, `snippet`, `documents`), and reads the configuration (`config`).
  Modules whose names end in `_laws` state what holds across functions.
- `tests/` runs the library on concrete values.
- `app/` is ordinary Rust around it: the async traits of stores, embedders and
  ingestors, the loops that drive them, files, floating point, and serde forms.

Scores and vectors are floats; the library holds them as bit patterns and ranks
them without arithmetic. Calls into outside crates stand behind small functions
marked `#[verifier::external_body]`, each with a comment that says what is
believed of the call.
