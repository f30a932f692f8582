# automerge changes

A verified library for the changes of a replicated document: what a change is,
how it is built of operations, how it is stored as bytes, and how it is read
back.

- `src/` is the library. Every function in it is verified, but for those that
  make a call into another crate: of each of these the contract is believed.
  - `change.rs` is a change with its compressed form; `change/expand.rs` and
    `change/import.rs` spell changes out and make them of what is spelled out;
    `change/laws.rs` states what holds across building, saving and loading.
  - `op_set2/` holds operations and the building of changes.
  - `storage/` holds the stored form: parsing, chunks, lists of columns, the
    reading of rows.
  - `columnar/` holds the framing of columns, their cells and their ranges.
    Whole columns are decoded by `hexane`; of one that is malformed, the run
    that it breaks off in is read item by item.
  - `legacy.rs` holds spelled out operations; `leb.rs` and `text.rs` the numbers
    and texts of the format.
- `app/` is ordinary Rust around the library: errors that can be shown, floats
  and shared strings.
- `tests/` runs the library.

The library calls `leb128` for numbers, `hexane` for the cells of columns,
`sha2` for hashes, `flate2` for compression and the standard library for UTF-8.
The functions that make these calls are marked `external_body`; they stand in
`leb.rs`, `text.rs`, `columnar/encoding/cells.rs`, `storage/chunk.rs` and
`storage/change/compressed.rs`. What is taken for granted of each call is
written above the function that makes it.
