# tt_core

The decisions behind proofs of SQL query results: which operators can be
proved, which columns their checks are bound to, which tables and claims both
parties form, and how a proof tree is stored. The decisions are verified with
Verus; committing to columns and checking claims is left to the proof system.

- `src/` is the library. Columns are handles (`table::Poly`), plans and schemas
  are plain values (`plan`, `schema`, `df_schema`). The prover and the verifier
  call the same functions; where they differ, a function takes the party.
- `tests/` runs the library, for `LIMIT` and for ungrouped extrema against the
  proof system itself.
- Stored plans are decoded operator by operator. What the query engine makes of
  an operator, or that it refuses it, is asked of a function that the caller
  hands in (`codec`), and the contracts hold for every such function.
- `app/` turns the query engine's plans into those of the library, stores trees
  as bytes, reads key constraints from disk and puts claims to the proof system.

What a module trusts of another crate stands in functions marked
`external_body`: reading table references and wide decimals (`codec_types`),
lower case (`text`), JSON lists (`constraints`) and the two indexed collections
(`indexed`).
