# csv_render

Tooling that keeps the CSV files of a repository valid, schema-conformant and
registered, with its core proved correct in Verus.

## Layout

- `src/` — the verified library. Every function states its behaviour in
  `requires`/`ensures` over mathematical models (`Seq`, `Map`, views), and the
  cross-function properties stand as public proof functions named `law_*`.
  - `validator` — header, record and cell checks of a CSV text against a schema.
  - `flags_contract`, `time_contract` — column contracts on flag sets and time stamps.
  - `json_report` — the JSON-ready error report and its category counts.
  - `index`, `index_scan`, `scan` — the repository CSV index, its invariants, and
    the search for unregistered or duplicate files.
  - `inventory`, `digest` — the validation inventory (row counts, SHA-256 digests).
  - `cross_shard` — shard roles of an invariant context and the join of shard rows by key.
  - `cross_plane` — which corridor caps of the Titan plane are held against which caps
    of the other planes.
  - `kernel_registry`, `normalization`, `evidence`, `risk` — registries and
    bindings of the kernel layer.
  - `csv_read`, `paths`, `text` — the calls into `csv`, `pathdiff`, `std::path`
    and `core` that the logic rests on, each behind a small trusted wrapper.
- `tests/` — executable tests of the library.
- `app/` — the `csv-cli` program: argument parsing, file and directory access,
  serde models, and the floating-point risk and corridor checks.

## Checking

Verification runs Verus on `src/lib.rs`; the tests and the program build with
the outside crates listed in `Cargo.toml`.
