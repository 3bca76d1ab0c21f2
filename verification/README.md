# macland-core

The control plane of macland, a macOS host for building and running Wayland
compositors: the `macland.toml` adapter format, repository workspaces,
manifest detection, command environments, host launches, the backend model,
the bootstrap plan, and the decisions of the macOS window bridge. Every
function in `src/` carries a contract, and Verus proves it.

## Layout

- `src/text.rs`: text primitives (`trim`, `split`, `lines`, `find`, ...) stated
  over character sequences and proved on vectors of characters.
- `src/env_map.rs`: an ordered map of names to values, with a sortedness invariant.
- `src/adapter.rs`, `src/render.rs`: the manifest, its reader and its writer;
  `src/roundtrip.rs` proves that the reader gives back what the writer wrote.
- `src/repo.rs`, `src/detect.rs`, `src/runner.rs`, `src/host.rs`,
  `src/conformance.rs`: workspaces, detection, command environments, launch
  requests and the outcomes of host runs.
- `src/backend.rs`, `src/backend_ffi.rs`: the backend model and the records of its C SDK.
- `src/doctor.rs`, `src/bootstrap.rs`, `src/workspace_shims.rs`, `src/shim.rs`:
  what the machine lacks, what to install, and what a compositor still needs.
- `src/cli.rs`, `src/bridge.rs`: the decisions of the command line and of the window bridge.
- `app/`: the `macland` program around the library: files, processes, JSON,
  the C SDK, Wayland and the macOS window APIs.
- `tests/`: tests of the library.

## The adapter format

A manifest must assign `id`, `repo`, `rev`, `build_system`, `configure`,
`build`, `test`, `entrypoint`, `sdk_features`, `protocol_expectations` and
`patch_policy`. The `[env]` section is optional: a manifest without it reads
as one with no variables.
