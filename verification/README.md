# scry

Finds code that deserves a second look in Python, TypeScript/TSX, JavaScript and Rust: import cycles and the
cheapest cut, repeated code, dead exports, parameters that travel together, declarations nothing
consumes, comments that already say where to split, and defaults that hide failed parsing.

The analyzers are a library verified with Verus: every function states what it returns, and the
promises that span functions are proof functions beside them.

- `src/` — the library.
  - `clones/` — tokens, fingerprints, runs, tables, families and their text. `found.rs` states that
    no shared run that is long enough is missed, `listed.rs` how a report is ordered.
  - `clumps/` — parameter groups, the thresholds, the report.
  - `comments/` — banners, sections, phases.
  - `dead/` — the symbol index, manifests, categories, unread fields and unconstructed variants.
  - `declared/` — Cargo manifests, orphaned dependencies, dead features, unread settings.
  - `deps/` — imports, their resolution, the graph, its cycles and cuts, `tsconfig.json`.
  - `fallback/` — literal defaults on fallible transforms.
  - `config.rs`, `layers.rs` — the settings, their defaults, and how files lay over one another.
  - `discover.rs`, `lang.rs`, `units.rs`, `regions.rs` — files, languages, functions, inline tests.
  - `tree.rs` — the nodes of a source in pre-order, with their parents, children and extents.
  - `cursor.rs`, `docs.rs`, `patterns.rs`, `globs.rs` — what tree-sitter, toml, serde_json, regex and
    globset return, held as plain values. These, the components of `deps/graph.rs` and the
    character classes of `text.rs` are what the proofs take on trust.
- `tests/` — the library on examples.
- `app/` — the command line: walking, git, settings files, and what is decided in floating point.
