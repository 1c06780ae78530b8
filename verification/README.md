# pliego

The verified core of the PliegoRS site toolchain: the rules that decide
whether a build's inputs, outputs and receipts can be trusted, written in
Verus and proved against their contracts.

## Layout

- `src/` — the library, verified by Verus: public functions state in
  `ensures` what they return or change, and every function's body is proved
  against its contract. Main areas:
  - `portable.rs`, `layout.rs`: portable paths, the case- and
    Unicode-insensitive output namespace, and the expected output layout.
  - `receipt.rs`, `graph_check.rs`, `build_graph.rs`: build contexts,
    receipts, reports and the causal build graph, with their refusals.
  - `cargo_graph.rs`, `cargo_inputs.rs`, `cargo_layout.rs`, `invocation.rs`,
    `inputs.rs`: the Cargo packages, configuration files and path packages a
    build reads, and the target-directory rules.
  - `adaptive*.rs`, `raster*.rs`, `glb.rs`, `asset_cli.rs`: adaptive asset
    recipes, plans, budgets, delivery and raster jobs.
  - `rebuild.rs`: development rebuild explanations and hot updates.
  - `cli.rs`, `diagnostics.rs`, `sdk_options.rs`, `telemetry.rs`,
    `runtime_contract.rs`, `project_manifest.rs`, `adapters.rs`: command
    options, diagnostics, telemetry state, runtime contracts and adapters.
  - `text.rs`, `numtext.rs`, `textmap.rs`, `sorting.rs`, `digest.rs`:
    shared text, number, map, sorting and digest support.
- Laws of the library stand in `src/` as public proof functions named
  `law_*` (for example `law_receipt_ignores_arrangement`,
  `law_accepted_paths_never_nest`, `law_collision_exactly_when_paths_clash`,
  `law_budgets_ignore_variant_order`).
- Digests are computed in the library from the bytes read: evidence files,
  output files, raster sources and variants, staged adaptive artifacts and
  recipes.
- Calls into `sha2`, `unicode-normalization` and `unicode-casefold` go
  through small trusted wrappers whose contracts name their results.
  `serde`, `serde_json` and `toml` serve `app/` alone.
- `tests/` — ordinary Rust tests of the library.
- `app/` — the `pliego` command line: reading files, parsing JSON and TOML
  with serde, the telemetry store, running ffmpeg and ffprobe for the raster
  asset command, reading and writing build ledgers and invocations, and
  printing what the library decides.
